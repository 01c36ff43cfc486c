//! Where the emitter puts each symbol.
//!
//! The emitter goes through the symbols once and keeps two positions: the
//! cursor, which is the end of the token that it wrote last, and the end of
//! the symbol that it read last. Where the two differ, what was written has
//! drifted from the source, and a word on the cursor's line is moved so that
//! it keeps its distance from what stood before it in the source.

use crate::back::TextGenError;
use crate::files::FileEntryView;
use crate::parsing::names_known;
use crate::position::{Position, Range};
use crate::symbol::SymbolView;
use crate::text::trimmed;
use crate::token::TokenView;
use vstd::prelude::*;

verus! {

/// Whether a word at `range` has to move: what was written has drifted from
/// the source, and the word does not start on a line after the cursor's.
pub open spec fn drifted(last_end: Position, cursor: Position, range: Range) -> bool {
    last_end != cursor && range.start_pos.line <= cursor.line
}

/// The column at which a word that has to move starts: as far right of the
/// cursor as it stood right of the end of the symbol before it.
pub open spec fn shifted_start(last_end: Position, cursor: Position, range: Range) -> int {
    cursor.column + (range.start_pos.column - last_end.column)
}

/// Whether the new range of a word is defined: if the word has to move, it
/// starts on the cursor's line, does not end before it starts, and its new
/// columns can be held.
pub open spec fn can_shift(last_end: Position, cursor: Position, range: Range) -> bool {
    drifted(last_end, cursor, range) ==> {
        &&& range.start_pos.line == cursor.line
        &&& range.start_pos.column <= range.end_pos.column
        &&& 0 <= shifted_start(last_end, cursor, range)
        &&& shifted_start(last_end, cursor, range) + range.width() <= usize::MAX
    }
}

/// The range of a word in the output: its own range, or that range moved
/// along its line to `shifted_start`, with its width kept.
pub open spec fn new_range(last_end: Position, cursor: Position, range: Range) -> Range {
    if drifted(last_end, cursor, range) {
        let line = range.start_pos.line;
        let column = shifted_start(last_end, cursor, range);
        Range {
            start_pos: Position { line, column: column as usize },
            end_pos: Position { line, column: (column + range.width()) as usize },
        }
    } else {
        range
    }
}

/// Whether the columns of a replacement of `length` characters for a
/// placeholder that starts at `start` can be held.
pub open spec fn replacement_fits(start: Position, length: nat) -> bool {
    start.column + length <= usize::MAX
}

/// The range of the text that replaces a placeholder that starts at `start`.
/// With the cursor on an earlier line it starts where the placeholder did.
/// Otherwise it stands on the cursor's line, at the cursor's column plus the
/// placeholder's offset from the cursor: the placeholder's own column.
/// Either way it ends `length` columns after its start.
pub open spec fn replacement_range(cursor: Position, start: Position, length: nat) -> Range {
    if cursor.line < start.line {
        Range {
            start_pos: start,
            end_pos: Position { line: start.line, column: (start.column + length) as usize },
        }
    } else {
        let column = cursor.column + (start.column - cursor.column);
        Range {
            start_pos: Position { line: cursor.line, column: column as usize },
            end_pos: Position { line: cursor.line, column: (column + length) as usize },
        }
    }
}

/// The content to put in place of a `${...name}` placeholder at `range`
/// whose name is bound to `path`: the file's content without the whitespace
/// around it, or the error that says why there is none.
pub open spec fn file_content(
    path: Seq<char>,
    range: Range,
    files: Map<Seq<char>, FileEntryView>,
) -> Result<Seq<char>, TextGenError> {
    if !files.contains_key(path) {
        Err(TextGenError::NoSuchFile(range))
    } else {
        match files[path] {
            FileEntryView::Unreadable => Err(TextGenError::FailedToReadFile(range)),
            FileEntryView::Content(text) => Ok(trimmed(text)),
        }
    }
}

/// The text that `symbol` writes: a word's own text, the value of a
/// `Replace`, the trimmed content of the file of a `Spread`.
pub open spec fn resolved(
    symbol: SymbolView,
    table: Map<Seq<char>, Seq<char>>,
    files: Map<Seq<char>, FileEntryView>,
) -> Result<Seq<char>, TextGenError> {
    match symbol {
        SymbolView::Word { text, .. } => Ok(text),
        SymbolView::Replace { identifier, .. } => Ok(table[identifier]),
        SymbolView::Spread { identifier, range } => file_content(table[identifier], range, files),
    }
}

/// Whether the place of `symbol` in the output is defined, given the number
/// of characters that it writes.
pub open spec fn can_place(
    symbol: SymbolView,
    length: nat,
    last_end: Position,
    cursor: Position,
) -> bool {
    match symbol {
        SymbolView::Word { range, .. } => can_shift(last_end, cursor, range),
        SymbolView::Replace { range, .. } => replacement_fits(range.start_pos, length),
        SymbolView::Spread { range, .. } => replacement_fits(range.start_pos, length),
    }
}

/// The place of `symbol` in the output, given the number of characters that
/// it writes.
pub open spec fn placed(
    symbol: SymbolView,
    length: nat,
    last_end: Position,
    cursor: Position,
) -> Range {
    match symbol {
        SymbolView::Word { range, .. } => new_range(last_end, cursor, range),
        SymbolView::Replace { range, .. } => replacement_range(cursor, range.start_pos, length),
        SymbolView::Spread { range, .. } => replacement_range(cursor, range.start_pos, length),
    }
}

/// Whether the token for `symbol` is defined: its name is bound, and if it
/// has a text, its place is defined.
pub open spec fn step_defined(
    symbol: SymbolView,
    table: Map<Seq<char>, Seq<char>>,
    files: Map<Seq<char>, FileEntryView>,
    last_end: Position,
    cursor: Position,
) -> bool {
    &&& names_known(symbol, table.dom())
    &&& resolved(symbol, table, files) matches Ok(text) ==> can_place(
        symbol,
        text.len(),
        last_end,
        cursor,
    )
}

/// The token for `symbol`: a word with the symbol's text at its place, or
/// the error that says why the symbol has no text.
pub open spec fn token_for(
    symbol: SymbolView,
    table: Map<Seq<char>, Seq<char>>,
    files: Map<Seq<char>, FileEntryView>,
    last_end: Position,
    cursor: Position,
) -> Result<TokenView, TextGenError> {
    match resolved(symbol, table, files) {
        Ok(text) => Ok(
            TokenView::Word { text, range: placed(symbol, text.len(), last_end, cursor) },
        ),
        Err(e) => Err(e),
    }
}

/// The state of the emitter: its two positions and the tokens written.
pub struct Pass {
    /// The end of the token written last.
    pub cursor: Position,
    /// The end, in the source, of the symbol read last.
    pub last_end: Position,
    /// The tokens written so far.
    pub tokens: Seq<TokenView>,
}

impl Pass {
    /// The state before the first symbol: both positions at the origin.
    pub open spec fn start() -> Pass {
        Pass {
            cursor: Position { line: 0, column: 0 },
            last_end: Position { line: 0, column: 0 },
            tokens: Seq::empty(),
        }
    }

    /// The state after `symbol`, or the error that ends the pass there.
    pub open spec fn step(
        self,
        symbol: SymbolView,
        table: Map<Seq<char>, Seq<char>>,
        files: Map<Seq<char>, FileEntryView>,
    ) -> Result<Pass, TextGenError> {
        match token_for(symbol, table, files, self.last_end, self.cursor) {
            Ok(token) => Ok(
                Pass {
                    cursor: token.range().end_pos,
                    last_end: symbol.range().end_pos,
                    tokens: self.tokens.push(token),
                },
            ),
            Err(e) => Err(e),
        }
    }
}

/// The state after all of `symbols`, or the first error among them.
pub open spec fn pass(
    symbols: Seq<SymbolView>,
    table: Map<Seq<char>, Seq<char>>,
    files: Map<Seq<char>, FileEntryView>,
) -> Result<Pass, TextGenError>
    decreases symbols.len(),
{
    if symbols.len() == 0 {
        Ok(Pass::start())
    } else {
        match pass(symbols.drop_last(), table, files) {
            Ok(state) => state.step(symbols.last(), table, files),
            Err(e) => Err(e),
        }
    }
}

/// The tokens that `symbols` are written as, or the first error among them.
pub open spec fn emitted(
    symbols: Seq<SymbolView>,
    table: Map<Seq<char>, Seq<char>>,
    files: Map<Seq<char>, FileEntryView>,
) -> Result<Seq<TokenView>, TextGenError> {
    match pass(symbols, table, files) {
        Ok(state) => Ok(state.tokens),
        Err(e) => Err(e),
    }
}

/// Whether the pass over `symbols` is defined: the token of every symbol
/// that the pass reaches is.
pub open spec fn emittable(
    symbols: Seq<SymbolView>,
    table: Map<Seq<char>, Seq<char>>,
    files: Map<Seq<char>, FileEntryView>,
) -> bool
    decreases symbols.len(),
{
    symbols.len() == 0 || {
        &&& emittable(symbols.drop_last(), table, files)
        &&& pass(symbols.drop_last(), table, files) matches Ok(state) ==> step_defined(
            symbols.last(),
            table,
            files,
            state.last_end,
            state.cursor,
        )
    }
}

/// A pass that is defined is defined on every prefix.
pub proof fn lemma_emittable_prefix(
    symbols: Seq<SymbolView>,
    table: Map<Seq<char>, Seq<char>>,
    files: Map<Seq<char>, FileEntryView>,
    length: int,
)
    requires
        emittable(symbols, table, files),
        0 <= length <= symbols.len(),
    ensures
        emittable(symbols.take(length), table, files),
    decreases symbols.len(),
{
    if length < symbols.len() {
        lemma_emittable_prefix(symbols.drop_last(), table, files, length);
        assert(symbols.drop_last().take(length) =~= symbols.take(length));
    } else {
        assert(symbols.take(length) =~= symbols);
    }
}

/// An error on a prefix ends the whole pass.
pub proof fn lemma_error_ends_pass(
    symbols: Seq<SymbolView>,
    table: Map<Seq<char>, Seq<char>>,
    files: Map<Seq<char>, FileEntryView>,
    length: int,
)
    requires
        0 <= length <= symbols.len(),
        pass(symbols.take(length), table, files) is Err,
    ensures
        pass(symbols, table, files) == pass(symbols.take(length), table, files),
    decreases symbols.len(),
{
    if length < symbols.len() {
        assert(symbols.drop_last().take(length) =~= symbols.take(length));
        lemma_error_ends_pass(symbols.drop_last(), table, files, length);
    } else {
        assert(symbols.take(length) =~= symbols);
    }
}

/// After an error nothing more has to be defined.
pub proof fn lemma_emittable_after_error(
    symbols: Seq<SymbolView>,
    table: Map<Seq<char>, Seq<char>>,
    files: Map<Seq<char>, FileEntryView>,
    length: int,
)
    requires
        0 <= length <= symbols.len(),
        emittable(symbols.take(length), table, files),
        pass(symbols.take(length), table, files) is Err,
    ensures
        emittable(symbols, table, files),
    decreases symbols.len(),
{
    if length < symbols.len() {
        assert(symbols.drop_last().take(length) =~= symbols.take(length));
        lemma_emittable_after_error(symbols.drop_last(), table, files, length);
        lemma_error_ends_pass(symbols.drop_last(), table, files, length);
    } else {
        assert(symbols.take(length) =~= symbols);
    }
}

/// A word that has to move moves by the drift, and the drift stays: its
/// start and its end both lie as far from where they lay in the source as
/// the cursor lies from the end of the symbol before the word.
pub proof fn lemma_word_moves_by_drift(last_end: Position, cursor: Position, range: Range)
    requires
        drifted(last_end, cursor, range),
        can_shift(last_end, cursor, range),
    ensures
        new_range(last_end, cursor, range).start_pos.line == range.start_pos.line,
        new_range(last_end, cursor, range).end_pos.line == range.start_pos.line,
        new_range(last_end, cursor, range).start_pos.column - range.start_pos.column
            == cursor.column - last_end.column,
        new_range(last_end, cursor, range).end_pos.column - range.end_pos.column
            == cursor.column - last_end.column,
{
}

/// After a placeholder the cursor lies as far right of the placeholder's
/// end as the text put in its place is longer than the placeholder.
pub proof fn lemma_drift_after_replacement(cursor: Position, range: Range, length: nat)
    requires
        replacement_fits(range.start_pos, length),
    ensures
        replacement_range(cursor, range.start_pos, length).end_pos.column - range.end_pos.column
            == length - range.width(),
{
}

/// Whether there is no placeholder among `symbols`.
pub open spec fn words_only(symbols: Seq<SymbolView>) -> bool {
    forall|i: int| 0 <= i < symbols.len() ==> #[trigger] symbols[i] is Word
}

/// The position at which a pass over words ends: the end of the last word,
/// or the origin if there is none.
pub open spec fn end_of(symbols: Seq<SymbolView>) -> Position {
    if symbols.len() == 0 {
        Position { line: 0, column: 0 }
    } else {
        symbols.last().range().end_pos
    }
}

/// A pass over words alone: nothing drifts, so every word stays where it
/// was, the pass is defined and cannot fail, and the table and the files
/// are not looked at.
pub proof fn lemma_words_stay(
    symbols: Seq<SymbolView>,
    table: Map<Seq<char>, Seq<char>>,
    files: Map<Seq<char>, FileEntryView>,
)
    requires
        words_only(symbols),
    ensures
        emittable(symbols, table, files),
        pass(symbols, table, files) == Ok::<Pass, TextGenError>(
            Pass {
                cursor: end_of(symbols),
                last_end: end_of(symbols),
                tokens: symbols.map_values(|s: SymbolView| s.unmoved()),
            },
        ),
    decreases symbols.len(),
{
    let unmoved = |s: SymbolView| s.unmoved();
    if symbols.len() == 0 {
        assert(symbols.map_values(unmoved) =~= Seq::<TokenView>::empty());
    } else {
        let front = symbols.drop_last();
        assert(words_only(front)) by {
            assert forall|i: int| 0 <= i < front.len() implies #[trigger] front[i] is Word by {
                assert(symbols[i] is Word);
            }
        }
        lemma_words_stay(front, table, files);
        assert(symbols.last() is Word);
        assert(front.map_values(unmoved).push(symbols.last().unmoved()) =~= symbols.map_values(
            unmoved,
        ));
    }
}

} // verus!
