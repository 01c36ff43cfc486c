//! What the symbols of a sequence of tokens are.
//!
//! The tokens `$ { name }` make a `Replace` placeholder and the tokens
//! `$ { . . . name }` a `Spread` placeholder, where `name` is one word. Every
//! other token is a word of its own. A placeholder whose name is not known
//! ends the parse with an error.

use crate::front::ParseError;
use crate::position::Range;
use crate::symbol::SymbolView;
use crate::token::TokenView;
use vstd::prelude::*;

verus! {

/// Whether the token at index `at` is the punctuation character `value`.
pub open spec fn punctuation_at(tokens: Seq<TokenView>, at: int, value: char) -> bool {
    &&& 0 <= at < tokens.len()
    &&& tokens[at] matches TokenView::Punctuation { value: v, .. }
    &&& v == value
}

/// Whether the token at index `at` is a word.
pub open spec fn word_at(tokens: Seq<TokenView>, at: int) -> bool {
    0 <= at < tokens.len() && tokens[at] is Word
}

/// Whether the tokens from index `at` on begin with `$ { name }`.
pub open spec fn replace_at(tokens: Seq<TokenView>, at: int) -> bool {
    &&& punctuation_at(tokens, at, '$')
    &&& punctuation_at(tokens, at + 1, '{')
    &&& word_at(tokens, at + 2)
    &&& punctuation_at(tokens, at + 3, '}')
}

/// Whether the tokens from index `at` on begin with `$ { . . . name }`.
pub open spec fn spread_at(tokens: Seq<TokenView>, at: int) -> bool {
    &&& punctuation_at(tokens, at, '$')
    &&& punctuation_at(tokens, at + 1, '{')
    &&& punctuation_at(tokens, at + 2, '.')
    &&& punctuation_at(tokens, at + 3, '.')
    &&& punctuation_at(tokens, at + 4, '.')
    &&& word_at(tokens, at + 5)
    &&& punctuation_at(tokens, at + 6, '}')
}

/// Whether a placeholder begins at some index of `tokens`.
pub open spec fn has_placeholder(tokens: Seq<TokenView>) -> bool {
    exists|at: int| #[trigger] replace_at(tokens, at) || #[trigger] spread_at(tokens, at)
}

/// The number of tokens that the symbol beginning at index `at` is made of.
pub open spec fn symbol_width(tokens: Seq<TokenView>, at: int) -> int {
    if spread_at(tokens, at) {
        7
    } else if replace_at(tokens, at) {
        4
    } else {
        1
    }
}

/// The range of a placeholder whose `$` is the token `open` and whose `}` is
/// the token `close`: from the `$` to one past the `}`.
pub open spec fn placeholder_range(open: TokenView, close: TokenView) -> Range {
    Range { start_pos: open.start(), end_pos: close.start().spec_next() }
}

/// The range that the error for an unknown placeholder carries: from the
/// `$` to the `}` itself.
pub open spec fn unknown_range(open: TokenView, close: TokenView) -> Range {
    Range { start_pos: open.start(), end_pos: close.start() }
}

/// The word that a single token is passed on as.
pub open spec fn plain_symbol(token: TokenView) -> SymbolView {
    SymbolView::Word { text: token.text(), range: token.range() }
}

/// The symbol that begins at index `at`, or the error for a placeholder
/// whose name is not in `known`.
pub open spec fn symbol_at(tokens: Seq<TokenView>, known: Set<Seq<char>>, at: int) -> Result<
    SymbolView,
    ParseError,
> {
    if spread_at(tokens, at) {
        let identifier = tokens[at + 5].text();
        if known.contains(identifier) {
            Ok(
                SymbolView::Spread {
                    identifier,
                    range: placeholder_range(tokens[at], tokens[at + 6]),
                },
            )
        } else {
            Err(ParseError::FileNotFound(unknown_range(tokens[at], tokens[at + 6])))
        }
    } else if replace_at(tokens, at) {
        let identifier = tokens[at + 2].text();
        if known.contains(identifier) {
            Ok(
                SymbolView::Replace {
                    identifier,
                    range: placeholder_range(tokens[at], tokens[at + 3]),
                },
            )
        } else {
            Err(ParseError::VariableNotFound(unknown_range(tokens[at], tokens[at + 3])))
        }
    } else {
        Ok(plain_symbol(tokens[at]))
    }
}

/// Puts the symbols `front` before the outcome of parsing what follows them.
pub open spec fn after(front: Seq<SymbolView>, rest: Result<Seq<SymbolView>, ParseError>) -> Result<
    Seq<SymbolView>,
    ParseError,
> {
    match rest {
        Ok(symbols) => Ok(front + symbols),
        Err(e) => Err(e),
    }
}

/// Nothing put before an outcome leaves it as it is.
pub proof fn lemma_after_nothing(rest: Result<Seq<SymbolView>, ParseError>)
    ensures
        after(Seq::empty(), rest) == rest,
{
    if rest is Ok {
        assert(Seq::<SymbolView>::empty() + rest->Ok_0 =~= rest->Ok_0);
    }
}

/// One symbol more before an outcome, put there first or last.
pub proof fn lemma_after_after(
    front: Seq<SymbolView>,
    symbol: SymbolView,
    rest: Result<Seq<SymbolView>, ParseError>,
)
    ensures
        after(front, after(seq![symbol], rest)) == after(front.push(symbol), rest),
{
    if rest is Ok {
        assert(front + (seq![symbol] + rest->Ok_0) =~= front.push(symbol) + rest->Ok_0);
    }
}

/// The symbols of the tokens from index `from` on, or the error of the
/// first placeholder among them whose name is not in `known`.
pub open spec fn parsed_from(tokens: Seq<TokenView>, known: Set<Seq<char>>, from: int) -> Result<
    Seq<SymbolView>,
    ParseError,
>
    decreases tokens.len() - from,
{
    if from < 0 || from >= tokens.len() {
        Ok(Seq::empty())
    } else {
        match symbol_at(tokens, known, from) {
            Ok(symbol) => after(
                seq![symbol],
                parsed_from(tokens, known, from + symbol_width(tokens, from)),
            ),
            Err(e) => Err(e),
        }
    }
}

/// The symbols of `tokens`, or the error of the first placeholder whose name
/// is not in `known`.
pub open spec fn parsed(tokens: Seq<TokenView>, known: Set<Seq<char>>) -> Result<
    Seq<SymbolView>,
    ParseError,
> {
    parsed_from(tokens, known, 0)
}

/// Whether the name of `symbol`, if it is a placeholder, is in `known`.
pub open spec fn names_known(symbol: SymbolView, known: Set<Seq<char>>) -> bool {
    match symbol {
        SymbolView::Word { .. } => true,
        SymbolView::Replace { identifier, .. } => known.contains(identifier),
        SymbolView::Spread { identifier, .. } => known.contains(identifier),
    }
}

/// Every placeholder that comes out of a parse from index `from` on has a
/// known name.
proof fn lemma_parsed_from_known(tokens: Seq<TokenView>, known: Set<Seq<char>>, from: int)
    requires
        parsed_from(tokens, known, from) is Ok,
    ensures
        forall|i: int|
            0 <= i < parsed_from(tokens, known, from)->Ok_0.len() ==> names_known(
                #[trigger] parsed_from(tokens, known, from)->Ok_0[i],
                known,
            ),
    decreases tokens.len() - from,
{
    if 0 <= from < tokens.len() {
        lemma_parsed_from_known(tokens, known, from + symbol_width(tokens, from));
    }
}

/// A parse that succeeds has found every placeholder's name among the known
/// ones: no symbol that it hands on names anything else.
pub proof fn lemma_parsed_names_known(tokens: Seq<TokenView>, known: Set<Seq<char>>)
    requires
        parsed(tokens, known) is Ok,
    ensures
        forall|i: int|
            0 <= i < parsed(tokens, known)->Ok_0.len() ==> names_known(
                #[trigger] parsed(tokens, known)->Ok_0[i],
                known,
            ),
{
    lemma_parsed_from_known(tokens, known, 0);
}

/// The symbols of tokens among which no placeholder begins: each token as a
/// word of its own.
pub open spec fn plain_symbols(tokens: Seq<TokenView>) -> Seq<SymbolView> {
    tokens.map_values(|token: TokenView| plain_symbol(token))
}

/// Without a placeholder, what follows index `from` parses to the tokens
/// themselves, whatever names are known.
pub proof fn lemma_plain_from(tokens: Seq<TokenView>, known: Set<Seq<char>>, from: int)
    requires
        !has_placeholder(tokens),
        0 <= from <= tokens.len(),
    ensures
        parsed_from(tokens, known, from) == Ok::<Seq<SymbolView>, ParseError>(
            plain_symbols(tokens).skip(from),
        ),
    decreases tokens.len() - from,
{
    if from < tokens.len() {
        assert(!replace_at(tokens, from) && !spread_at(tokens, from));
        lemma_plain_from(tokens, known, from + 1);
        assert(seq![plain_symbol(tokens[from])] + plain_symbols(tokens).skip(from + 1)
            =~= plain_symbols(tokens).skip(from));
    } else {
        assert(plain_symbols(tokens).skip(from) =~= Seq::<SymbolView>::empty());
    }
}

/// Parsing a document without placeholders does not depend on the symbol
/// table: whatever names are known, every token comes out as a word with
/// its own text and range, and the parse does not fail.
pub proof fn lemma_parse_without_placeholders(tokens: Seq<TokenView>, known: Set<Seq<char>>)
    requires
        !has_placeholder(tokens),
    ensures
        parsed(tokens, known) == Ok::<Seq<SymbolView>, ParseError>(plain_symbols(tokens)),
{
    lemma_plain_from(tokens, known, 0);
    assert(plain_symbols(tokens).skip(0) =~= plain_symbols(tokens));
}

} // verus!
