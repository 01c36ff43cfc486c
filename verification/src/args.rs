//! The symbol table of a command line: the arguments `--name value`, in
//! pairs.

use crate::lexing::line_views;
use crate::symbol_table::{bindings, SymbolTable};
use crate::text::{chars_of, string_of};
use vstd::prelude::*;

verus! {

/// What is wrong with a list of arguments. The number is the index of the
/// argument at fault.
#[derive(PartialEq, Eq, Structural, Clone, Copy, Debug)]
pub enum ArgError {
    /// The last argument is a name without a value.
    InvalidSymbol(usize),
    /// The argument stands where a name is due and does not start with `--`.
    InvalidName(usize),
    /// The argument is a value that opens with `"` and does not close with
    /// one.
    UnterminatedValue(usize),
}

/// Whether `arg` can name an identifier: it starts with `--`.
pub open spec fn is_name(arg: Seq<char>) -> bool {
    arg.len() >= 2 && arg[0] == '-' && arg[1] == '-'
}

/// The identifier that `arg` names: what follows the `--`.
pub open spec fn name_of(arg: Seq<char>) -> Seq<char> {
    arg.skip(2)
}

/// Whether `arg` opens with a double quote.
pub open spec fn quoted(arg: Seq<char>) -> bool {
    arg.len() > 0 && arg[0] == '"'
}

/// Whether `arg` can be a value: if it opens with a double quote, another
/// one closes it.
pub open spec fn is_value(arg: Seq<char>) -> bool {
    quoted(arg) ==> arg.len() >= 2 && arg.last() == '"'
}

/// The value that `arg` gives: what its quotes hold if it is quoted, and
/// all of it otherwise.
pub open spec fn value_of(arg: Seq<char>) -> Seq<char> {
    if quoted(arg) {
        arg.subrange(1, arg.len() - 1)
    } else {
        arg
    }
}

/// The first thing wrong with the arguments from index `from` on, read in
/// pairs of a name and a value.
pub open spec fn first_error(args: Seq<Seq<char>>, from: int) -> Option<ArgError>
    decreases args.len() - from,
{
    if from < 0 || from >= args.len() {
        None
    } else if from + 1 >= args.len() {
        Some(ArgError::InvalidSymbol(from as usize))
    } else if !is_name(args[from]) {
        Some(ArgError::InvalidName(from as usize))
    } else if !is_value(args[from + 1]) {
        Some(ArgError::UnterminatedValue((from + 1) as usize))
    } else {
        first_error(args, from + 2)
    }
}

/// The bindings that the arguments give, in their order.
pub open spec fn arg_bindings(args: Seq<Seq<char>>) -> Seq<(Seq<char>, Seq<char>)> {
    Seq::new(args.len() / 2, |i: int| (name_of(args[2 * i]), value_of(args[2 * i + 1])))
}

/// Whether `value` starts with `--`.
pub fn is_identifier(value: &str) -> (b: bool)
    ensures
        b == is_name(value@),
{
    let chars = chars_of(value);
    chars.len() >= 2 && chars[0] == '-' && chars[1] == '-'
}

/// Whether `value` is unquoted, or quoted and closed.
pub fn is_variable(value: &str) -> (b: bool)
    ensures
        b == is_value(value@),
{
    let chars = chars_of(value);
    let n = chars.len();
    !(n > 0 && chars[0] == '"') || (n >= 2 && chars[n - 1] == '"')
}

/// The identifier that the argument `--name` names.
pub fn parse_identifier(value: &str) -> (identifier: String)
    requires
        is_name(value@),
    ensures
        identifier@ == name_of(value@),
{
    let chars = chars_of(value);
    string_of(chars.as_slice(), 2, chars.len())
}

/// The value that an argument gives: without its quotes, if it has them.
pub fn parse_variable(value: &str) -> (variable: String)
    requires
        is_value(value@),
    ensures
        variable@ == value_of(value@),
{
    let chars = chars_of(value);
    let n = chars.len();
    if n > 0 && chars[0] == '"' {
        string_of(chars.as_slice(), 1, n - 1)
    } else {
        assert(chars@.subrange(0, n as int) =~= chars@);
        string_of(chars.as_slice(), 0, n)
    }
}

/// The first thing wrong with `args`, if anything is: the arguments are
/// read in pairs, the name of each pair before its value.
pub fn check_args(args: &[String]) -> (e: Option<ArgError>)
    ensures
        e == first_error(line_views(args@), 0),
{
    let ghost views = line_views(args@);
    let n = args.len();
    let mut i: usize = 0;
    while i < n
        invariant
            i <= n == args@.len(),
            views == line_views(args@),
            first_error(views, 0) == first_error(views, i as int),
        decreases n - i,
    {
        if n - i < 2 {
            return Some(ArgError::InvalidSymbol(i));
        }
        if !is_identifier(args[i].as_str()) {
            return Some(ArgError::InvalidName(i));
        }
        if !is_variable(args[i + 1].as_str()) {
            return Some(ArgError::UnterminatedValue(i + 1));
        }
        i += 2;
    }
    None
}

/// The symbol table that the arguments `--name value ...` describe. Where a
/// name comes twice, its last value holds.
pub fn symbol_table_from_args(args: &[String]) -> (table: SymbolTable)
    requires
        first_error(line_views(args@), 0) is None,
    ensures
        table@ == bindings(arg_bindings(line_views(args@))),
{
    let ghost views = line_views(args@);
    let ghost pairs = arg_bindings(views);
    let n = args.len();
    let mut table = SymbolTable::empty();
    let mut i: usize = 0;
    assert(pairs.take(0) =~= Seq::<(Seq<char>, Seq<char>)>::empty());
    while i < n
        invariant
            i <= n == args@.len(),
            i % 2 == 0,
            views == line_views(args@),
            pairs == arg_bindings(views),
            first_error(views, i as int) is None,
            table@ == bindings(pairs.take(i as int / 2)),
        decreases n - i,
    {
        let identifier = parse_identifier(args[i].as_str());
        let variable = parse_variable(args[i + 1].as_str());
        table.bind(identifier, variable);
        proof {
            let k = i as int / 2;
            assert(pairs.take(k + 1).drop_last() =~= pairs.take(k));
            assert(pairs.take(k + 1).last() == pairs[k]);
        }
        i += 2;
    }
    assert(pairs.take(i as int / 2) =~= pairs);
    table
}

} // verus!
