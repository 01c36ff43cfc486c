//! What the front end hands to the back end.
//!
//! The emitter is defined on symbols that follow each other as they do in a
//! source. The tokenizer and the parser hand it nothing else: on what they
//! produce, it is defined unless a column grows too large to hold.

use crate::emission::{
    can_shift, drifted, emittable, pass, replacement_fits, resolved, shifted_start,
    step_defined, Pass,
};
use crate::files::FileEntryView;
use crate::lexing::{
    document_tokens, lemma_tokens_part_line, line_tokens, parts, token_of, tokens_before,
};
use crate::parsing::{
    lemma_parsed_names_known, names_known, parsed, parsed_from, replace_at, spread_at,
    symbol_at, symbol_width,
};
use crate::position::Position;
use crate::symbol::SymbolView;
use crate::token::TokenView;
use vstd::prelude::*;

verus! {

/// Whether `tokens` follow each other as in a source: the range of each can
/// be held and lies on one line, and each ends before the next one starts.
pub open spec fn tokens_in_order(tokens: Seq<TokenView>) -> bool {
    &&& forall|i: int|
        0 <= i < tokens.len() ==> (#[trigger] tokens[i]).in_bounds()
            && tokens[i].range().well_formed()
    &&& forall|i: int, j: int|
        0 <= i < j < tokens.len() ==> (#[trigger] tokens[i]).range().end_pos.le(
            (#[trigger] tokens[j]).range().start_pos,
        )
}

/// Whether `symbols` follow each other as in a source: none ends before it
/// starts, a word lies on one line, and each ends before the next one
/// starts.
pub open spec fn symbols_in_order(symbols: Seq<SymbolView>) -> bool {
    &&& forall|i: int|
        0 <= i < symbols.len() ==> (#[trigger] symbols[i]).range().start_pos.le(
            symbols[i].range().end_pos,
        )
    &&& forall|i: int|
        0 <= i < symbols.len() && (#[trigger] symbols[i]) is Word
            ==> symbols[i].range().well_formed()
    &&& forall|i: int, j: int|
        0 <= i < j < symbols.len() ==> (#[trigger] symbols[i]).range().end_pos.le(
            (#[trigger] symbols[j]).range().start_pos,
        )
}

/// Whether the last column of `symbol` in the output can be held, given the
/// number of characters that it writes.
pub open spec fn end_fits(
    symbol: SymbolView,
    length: nat,
    last_end: Position,
    cursor: Position,
) -> bool {
    match symbol {
        SymbolView::Word { range, .. } => drifted(last_end, cursor, range) ==> shifted_start(
            last_end,
            cursor,
            range,
        ) + range.width() <= usize::MAX,
        SymbolView::Replace { range, .. } => replacement_fits(range.start_pos, length),
        SymbolView::Spread { range, .. } => replacement_fits(range.start_pos, length),
    }
}

/// Whether no column grows too large in the pass over `symbols`: the last
/// column of every symbol that the pass reaches can be held.
pub open spec fn columns_fit(
    symbols: Seq<SymbolView>,
    table: Map<Seq<char>, Seq<char>>,
    files: Map<Seq<char>, FileEntryView>,
) -> bool {
    forall|k: int|
        0 <= k < symbols.len() ==> (pass(#[trigger] symbols.take(k), table, files) matches Ok(
            state,
        ) ==> (resolved(symbols[k], table, files) matches Ok(text) ==> end_fits(
            symbols[k],
            text.len(),
            state.last_end,
            state.cursor,
        )))
}

/// The end of the symbol before index `upto`, and the origin before the
/// first.
pub open spec fn end_before(symbols: Seq<SymbolView>, upto: int) -> Position {
    if upto <= 0 {
        Position { line: 0, column: 0 }
    } else {
        symbols[upto - 1].range().end_pos
    }
}

/// The pass over the first `upto` of symbols in order: it is defined where
/// the columns fit, and it leaves the cursor on the line where the last
/// symbol started, which is not after the line where that symbol ended.
proof fn lemma_pass_in_order(
    symbols: Seq<SymbolView>,
    table: Map<Seq<char>, Seq<char>>,
    files: Map<Seq<char>, FileEntryView>,
    upto: int,
)
    requires
        symbols_in_order(symbols),
        forall|i: int| 0 <= i < symbols.len() ==> names_known(#[trigger] symbols[i], table.dom()),
        columns_fit(symbols, table, files),
        0 <= upto <= symbols.len(),
    ensures
        emittable(symbols.take(upto), table, files),
        pass(symbols.take(upto), table, files) matches Ok(state) ==> state.last_end == end_before(
            symbols,
            upto,
        ) && state.cursor.line <= state.last_end.line,
    decreases upto,
{
    if upto > 0 {
        let at = upto - 1;
        lemma_pass_in_order(symbols, table, files, at);
        assert(symbols.take(upto).drop_last() =~= symbols.take(at));
        assert(symbols.take(upto).last() == symbols[at]);
        let symbol = symbols[at];
        if pass(symbols.take(at), table, files) is Ok {
            let state = pass(symbols.take(at), table, files)->Ok_0;
            assert(state.last_end.le(symbol.range().start_pos)) by {
                if at > 0 {
                    assert(symbols[at - 1].range().end_pos.le(symbols[at].range().start_pos));
                }
            }
            assert(symbol.range().start_pos.le(symbol.range().end_pos));
            assert(names_known(symbol, table.dom()));
            if resolved(symbol, table, files) is Ok {
                let text = resolved(symbol, table, files)->Ok_0;
                assert(end_fits(symbol, text.len(), state.last_end, state.cursor));
                if symbol is Word {
                    assert(symbol.range().well_formed());
                    assert(can_shift(state.last_end, state.cursor, symbol.range()));
                }
                assert(step_defined(symbol, table, files, state.last_end, state.cursor));
            }
        }
    }
}

/// The emitter is defined on symbols in order whose names are bound, where
/// the columns fit.
pub proof fn lemma_symbols_in_order_emittable(
    symbols: Seq<SymbolView>,
    table: Map<Seq<char>, Seq<char>>,
    files: Map<Seq<char>, FileEntryView>,
)
    requires
        symbols_in_order(symbols),
        forall|i: int| 0 <= i < symbols.len() ==> names_known(#[trigger] symbols[i], table.dom()),
        columns_fit(symbols, table, files),
    ensures
        emittable(symbols, table, files),
{
    lemma_pass_in_order(symbols, table, files, symbols.len() as int);
    assert(symbols.take(symbols.len() as int) =~= symbols);
}

/// The symbols parsed from tokens in order, from index `from` on, are in
/// order, and each of them starts after every token before `from` ends.
proof fn lemma_parsed_from_in_order(tokens: Seq<TokenView>, known: Set<Seq<char>>, from: int)
    requires
        tokens_in_order(tokens),
        0 <= from <= tokens.len(),
        parsed_from(tokens, known, from) is Ok,
    ensures
        symbols_in_order(parsed_from(tokens, known, from)->Ok_0),
        forall|i: int, t: int|
            0 <= i < parsed_from(tokens, known, from)->Ok_0.len() && 0 <= t < from ==> (
            #[trigger] tokens[t]).range().end_pos.le(
                (#[trigger] parsed_from(tokens, known, from)->Ok_0[i]).range().start_pos,
            ),
    decreases tokens.len() - from,
{
    if from < tokens.len() {
        let width = symbol_width(tokens, from);
        let symbol = symbol_at(tokens, known, from)->Ok_0;
        let rest = parsed_from(tokens, known, from + width)->Ok_0;
        let symbols = parsed_from(tokens, known, from)->Ok_0;
        lemma_parsed_from_in_order(tokens, known, from + width);
        assert(symbols =~= seq![symbol] + rest);
        let first = tokens[from];
        let last = tokens[from + width - 1];
        assert(first.in_bounds() && first.range().well_formed());
        assert(last.in_bounds() && last.range().well_formed());
        assert(symbol.range().start_pos == first.range().start_pos);
        assert(symbol.range().end_pos == last.range().end_pos);
        assert(symbol.range().start_pos.le(symbol.range().end_pos)) by {
            if width > 1 {
                assert(first.range().end_pos.le(last.range().start_pos));
            }
        }
        assert(symbol is Word ==> symbol.range().well_formed());
        assert forall|i: int, t: int| 0 <= i < symbols.len() && 0 <= t < from implies (
        #[trigger] tokens[t]).range().end_pos.le((#[trigger] symbols[i]).range().start_pos) by {
            if i == 0 {
                assert(tokens[t].range().end_pos.le(first.range().start_pos));
            } else {
                assert(symbols[i] == rest[i - 1]);
            }
        }
        assert forall|i: int, j: int| 0 <= i < j < symbols.len() implies (
        #[trigger] symbols[i]).range().end_pos.le((#[trigger] symbols[j]).range().start_pos) by {
            assert(symbols[j] == rest[j - 1]);
            if i == 0 {
                assert(last.range().end_pos.le(rest[j - 1].range().start_pos));
            } else {
                assert(symbols[i] == rest[i - 1]);
            }
        }
        assert forall|i: int| 0 <= i < symbols.len() implies (
        #[trigger] symbols[i]).range().start_pos.le(symbols[i].range().end_pos) by {
            if i > 0 {
                assert(symbols[i] == rest[i - 1]);
            }
        }
        assert forall|i: int| 0 <= i < symbols.len() && (#[trigger] symbols[i]) is Word implies
            symbols[i].range().well_formed() by {
            if i > 0 {
                assert(symbols[i] == rest[i - 1]);
            }
        }
    }
}

/// Parsing keeps the order: the symbols of tokens in order are in order.
pub proof fn lemma_parsed_in_order(tokens: Seq<TokenView>, known: Set<Seq<char>>)
    requires
        tokens_in_order(tokens),
        parsed(tokens, known) is Ok,
    ensures
        symbols_in_order(parsed(tokens, known)->Ok_0),
{
    lemma_parsed_from_in_order(tokens, known, 0);
}

/// Whether the lines of a document and their number can be held.
pub open spec fn lines_fit(lines: Seq<Seq<char>>) -> bool {
    &&& lines.len() <= usize::MAX
    &&& forall|i: int| 0 <= i < lines.len() ==> (#[trigger] lines[i]).len() <= usize::MAX
}

/// The tokens of a document are in order, and each stands on a line of the
/// document.
pub proof fn lemma_document_tokens_in_order(lines: Seq<Seq<char>>)
    requires
        lines_fit(lines),
        document_tokens(lines) is Ok,
    ensures
        tokens_in_order(document_tokens(lines)->Ok_0),
        forall|i: int|
            0 <= i < document_tokens(lines)->Ok_0.len() ==> (
            #[trigger] document_tokens(lines)->Ok_0[i]).range().start_pos.line < lines.len(),
    decreases lines.len(),
{
    if lines.len() > 0 {
        let front = lines.drop_last();
        let line = lines.last();
        let line_no = (lines.len() - 1) as usize;
        assert(lines_fit(front)) by {
            assert forall|i: int| 0 <= i < front.len() implies (#[trigger] front[i]).len()
                <= usize::MAX by {
                assert(front[i] == lines[i]);
            }
        }
        lemma_document_tokens_in_order(front);
        lemma_tokens_part_line(line, line_no);
        let before = document_tokens(front)->Ok_0;
        let added = line_tokens(line, line_no)->Ok_0;
        let tokens = document_tokens(lines)->Ok_0;
        assert(tokens =~= before + added);
        assert(parts(added, line, line_no));
        assert forall|i: int| 0 <= i < tokens.len() implies (#[trigger] tokens[i]).in_bounds()
            && tokens[i].range().well_formed() && tokens[i].range().start_pos.line
            < lines.len() && (i >= before.len() ==> tokens[i].range().start_pos.line
            == line_no) by {
            if i < before.len() {
                assert(tokens[i] == before[i]);
            } else {
                assert(tokens[i] == added[i - before.len()]);
                assert(token_of(added[i - before.len()], line, line_no));
            }
        }
        assert forall|i: int, j: int| 0 <= i < j < tokens.len() implies (
        #[trigger] tokens[i]).range().end_pos.le((#[trigger] tokens[j]).range().start_pos) by {
            if j < before.len() {
                assert(tokens[i] == before[i] && tokens[j] == before[j]);
            } else if i < before.len() {
                assert(tokens[i] == before[i]);
                assert(tokens[i].range().well_formed());
                assert(tokens[j].range().start_pos.line == line_no);
            } else {
                assert(tokens[i] == added[i - before.len()]);
                assert(tokens[j] == added[j - before.len()]);
                assert(tokens[i].range().start_pos.line == line_no);
                assert(tokens[j].range().start_pos.line == line_no);
                assert(tokens[i].range().well_formed());
            }
        }
    }
}

/// The back end is defined on what the front end hands it, unless a column
/// grows too large: where a document has been split into tokens and the
/// tokens have been parsed with the names that a table binds, the symbols
/// can be emitted with that table and any files, provided the last column of
/// every symbol that the pass reaches can be held.
pub proof fn lemma_front_end_meets_back_end(
    lines: Seq<Seq<char>>,
    table: Map<Seq<char>, Seq<char>>,
    files: Map<Seq<char>, FileEntryView>,
)
    requires
        lines_fit(lines),
        ({
            &&& document_tokens(lines) matches Ok(tokens)
            &&& parsed(tokens, table.dom()) matches Ok(symbols)
            &&& columns_fit(symbols, table, files)
        }),
    ensures
        ({
            &&& document_tokens(lines) matches Ok(tokens)
            &&& parsed(tokens, table.dom()) matches Ok(symbols)
            &&& emittable(symbols, table, files)
        }),
{
    let tokens = document_tokens(lines)->Ok_0;
    lemma_document_tokens_in_order(lines);
    lemma_parsed_in_order(tokens, table.dom());
    lemma_parsed_names_known(tokens, table.dom());
    lemma_symbols_in_order_emittable(parsed(tokens, table.dom())->Ok_0, table, files);
}

} // verus!
