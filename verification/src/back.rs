//! The back end: from symbols to the tokens of the output, each at its new
//! place.

use crate::emission::{
    can_place, can_shift, emittable, emitted, file_content, lemma_emittable_after_error,
    lemma_emittable_prefix, lemma_error_ends_pass, new_range, pass, placed, replacement_fits,
    replacement_range, resolved, step_defined, token_for, Pass,
};
use crate::files::{FileEntry, Files};
use crate::parsing::names_known;
use crate::position::{Position, Range};
use crate::symbol::{symbol_views, Symbol, SymbolView};
use crate::symbol_table::SymbolTable;
use crate::text::trim;
use crate::token::{token_views, Token, TokenView};
use vstd::pervasive::unreached;
use vstd::prelude::*;

verus! {

/// Why the content of a file could not be put in place of a `${...name}`
/// placeholder. The range is the placeholder's.
#[derive(PartialEq, Eq, Structural, Clone, Copy, Debug)]
pub enum TextGenError {
    /// The placeholder's path names no file.
    NoSuchFile(Range),
    /// The file is there and could not be read.
    FailedToReadFile(Range),
}

impl TextGenError {
    /// The error as it is reported: the placeholder's range and what went
    /// wrong.
    pub open spec fn described(self) -> Seq<char> {
        match self {
            TextGenError::NoSuchFile(range) => range.described() + " : Invalid file path"@,
            TextGenError::FailedToReadFile(range) => range.described()
                + " : Failed to read file at path"@,
        }
    }

    /// The error as it is reported: the placeholder's range and what went
    /// wrong.
    pub fn describe(&self) -> (text: String)
        ensures
            text@ == self.described(),
    {
        let mut text = String::new();
        match self {
            TextGenError::NoSuchFile(range) => {
                range.describe_to(&mut text);
                text.append(" : Invalid file path");
            },
            TextGenError::FailedToReadFile(range) => {
                range.describe_to(&mut text);
                text.append(" : Failed to read file at path");
            },
        }
        assert(text@ =~= self.described());
        text
    }
}

/// The content to put in place of the `${...name}` placeholder at `range`,
/// whose name is bound to `file_path`: what `files` holds for that path,
/// without the whitespace around it.
pub fn get_file_content(file_path: &str, range: Range, files: &Files) -> (r: Result<
    String,
    TextGenError,
>)
    ensures
        match r {
            Ok(text) => file_content(file_path@, range, files@) == Ok::<Seq<char>, TextGenError>(
                text@,
            ),
            Err(e) => file_content(file_path@, range, files@) == Err::<Seq<char>, TextGenError>(e),
        },
{
    match files.get(file_path) {
        None => Err(TextGenError::NoSuchFile(range)),
        Some(FileEntry::Unreadable) => Err(TextGenError::FailedToReadFile(range)),
        Some(FileEntry::Content(text)) => Ok(trim(text.as_str())),
    }
}

/// Whether `calculate_replacement_range` is defined for a text of
/// `length` characters: its end column can be held.
pub fn replacement_range_fits(replacement_start_pos: &Position, length: usize) -> (b: bool)
    ensures
        b == replacement_fits(*replacement_start_pos, length as nat),
{
    length <= usize::MAX - replacement_start_pos.column
}

/// The range of the text that replaces a placeholder.
///
/// The text starts at the placeholder's column: on the placeholder's line
/// if the cursor is on an earlier one, on the cursor's line otherwise. It
/// ends as many columns later as `text` has characters.
pub fn calculate_replacement_range(
    cursor_position: &Position,
    replacement_start_pos: &Position,
    text: &String,
) -> (r: Range)
    requires
        replacement_fits(*replacement_start_pos, text@.len()),
    ensures
        r == replacement_range(*cursor_position, *replacement_start_pos, text@.len()),
        r.well_formed(),
{
    let length = text.as_str().unicode_len();
    let column = replacement_start_pos.column;
    let line = if cursor_position.line < replacement_start_pos.line {
        replacement_start_pos.line
    } else {
        cursor_position.line
    };
    Range {
        start_pos: Position { line, column },
        end_pos: Position { line, column: column + length },
    }
}

/// Whether `calculate_new_range` is defined for these positions.
pub fn new_range_fits(
    last_token_end_position: &Position,
    cursor_position: &Position,
    current_range: &Range,
) -> (b: bool)
    ensures
        b == can_shift(*last_token_end_position, *cursor_position, *current_range),
{
    let start_pos = current_range.start_pos;
    let end_pos = current_range.end_pos;
    if *last_token_end_position == *cursor_position || start_pos.line > cursor_position.line {
        true
    } else if start_pos.line != cursor_position.line || start_pos.column > end_pos.column {
        false
    } else {
        let length = end_pos.column - start_pos.column;
        if start_pos.column >= last_token_end_position.column {
            let offset = start_pos.column - last_token_end_position.column;
            offset <= usize::MAX - cursor_position.column && length <= usize::MAX
                - cursor_position.column - offset
        } else {
            let back = last_token_end_position.column - start_pos.column;
            back <= cursor_position.column && length <= usize::MAX - (cursor_position.column
                - back)
        }
    }
}

/// The range of a word in the output.
///
/// As long as what was written ends where the source did, and for a word
/// that starts on a line after the cursor's, it is the word's own range.
/// Otherwise the word is moved along its line: it starts as far right of the
/// cursor as it started right of the end of the symbol before it, and keeps
/// its width.
pub fn calculate_new_range(
    last_token_end_position: &Position,
    cursor_position: &Position,
    current_range: &Range,
) -> (r: Range)
    requires
        can_shift(*last_token_end_position, *cursor_position, *current_range),
    ensures
        r == new_range(*last_token_end_position, *cursor_position, *current_range),
        current_range.well_formed() ==> r.well_formed(),
{
    let start_pos = current_range.start_pos;
    let end_pos = current_range.end_pos;
    if *last_token_end_position == *cursor_position || start_pos.line > cursor_position.line {
        return *current_range;
    }
    let line = start_pos.line;
    let length = end_pos.column - start_pos.column;
    let start_column = if start_pos.column >= last_token_end_position.column {
        cursor_position.column + (start_pos.column - last_token_end_position.column)
    } else {
        cursor_position.column - (last_token_end_position.column - start_pos.column)
    };
    Range {
        start_pos: Position { line, column: start_column },
        end_pos: Position { line, column: start_column + length },
    }
}

/// The text that `symbol` writes: a word's own text, the value of a
/// `Replace`, the trimmed content of the file of a `Spread`.
pub fn resolve(symbol: &Symbol, symbol_table: &SymbolTable, files: &Files) -> (r: Result<
    String,
    TextGenError,
>)
    requires
        names_known(symbol@, symbol_table@.dom()),
    ensures
        match r {
            Ok(text) => resolved(symbol@, symbol_table@, files@) == Ok::<Seq<char>, TextGenError>(
                text@,
            ),
            Err(e) => resolved(symbol@, symbol_table@, files@) == Err::<Seq<char>, TextGenError>(
                e,
            ),
        },
{
    match symbol {
        Symbol::Word { text, .. } => Ok(text.clone()),
        Symbol::Replace { identifier, .. } => {
            match symbol_table.get_variable(identifier.as_str()) {
                Some(text) => Ok(text),
                None => unreached(),
            }
        },
        Symbol::Spread { identifier, range } => {
            match symbol_table.get_variable(identifier.as_str()) {
                Some(path) => get_file_content(path.as_str(), *range, files),
                None => unreached(),
            }
        },
    }
}

/// Whether the place of `symbol` is defined, where `text` is what it writes.
pub fn place_fits(
    symbol: &Symbol,
    text: &String,
    last_token_end_position: &Position,
    cursor_position: &Position,
) -> (b: bool)
    ensures
        b == can_place(symbol@, text@.len(), *last_token_end_position, *cursor_position),
{
    match symbol {
        Symbol::Word { range, .. } => new_range_fits(
            last_token_end_position,
            cursor_position,
            range,
        ),
        Symbol::Replace { range, .. } => replacement_range_fits(
            &range.start_pos,
            text.as_str().unicode_len(),
        ),
        Symbol::Spread { range, .. } => replacement_range_fits(
            &range.start_pos,
            text.as_str().unicode_len(),
        ),
    }
}

/// The place of `symbol` in the output, where `text` is what it writes: for
/// a word its new range, for a placeholder the range of its replacement.
pub fn place(
    symbol: &Symbol,
    text: &String,
    last_token_end_position: &Position,
    cursor_position: &Position,
) -> (r: Range)
    requires
        can_place(symbol@, text@.len(), *last_token_end_position, *cursor_position),
    ensures
        r == placed(symbol@, text@.len(), *last_token_end_position, *cursor_position),
{
    match symbol {
        Symbol::Word { range, .. } => calculate_new_range(
            last_token_end_position,
            cursor_position,
            range,
        ),
        Symbol::Replace { range, .. } => calculate_replacement_range(
            cursor_position,
            &range.start_pos,
            text,
        ),
        Symbol::Spread { range, .. } => calculate_replacement_range(
            cursor_position,
            &range.start_pos,
            text,
        ),
    }
}

/// The token that `symbol` is written as: a word with the symbol's text at
/// its new place.
pub fn to_token(
    symbol: &Symbol,
    symbol_table: &SymbolTable,
    files: &Files,
    last_token_end_position: &Position,
    cursor_position: &Position,
) -> (r: Result<Token, TextGenError>)
    requires
        step_defined(
            symbol@,
            symbol_table@,
            files@,
            *last_token_end_position,
            *cursor_position,
        ),
    ensures
        match r {
            Ok(token) => token_for(
                symbol@,
                symbol_table@,
                files@,
                *last_token_end_position,
                *cursor_position,
            ) == Ok::<TokenView, TextGenError>(token@),
            Err(e) => token_for(
                symbol@,
                symbol_table@,
                files@,
                *last_token_end_position,
                *cursor_position,
            ) == Err::<TokenView, TextGenError>(e),
        },
{
    match resolve(symbol, symbol_table, files) {
        Err(e) => Err(e),
        Ok(text) => {
            let range = place(symbol, &text, last_token_end_position, cursor_position);
            Ok(Token::Word { text, range })
        },
    }
}

/// Writes the symbols as tokens, each at its new place.
///
/// One pass, with the cursor and the end of the last symbol both starting at
/// line 0, column 0. A word keeps its text; a `Replace` gets the value that
/// `symbol_table` binds its name to; a `Spread` gets the content that `files`
/// holds for the path that its name is bound to, without the whitespace
/// around it. The first `Spread` whose path names no file, or a file that
/// could not be read, ends the pass with its error and nothing is written.
pub fn to_output_tokens(symbols: &[Symbol], symbol_table: &SymbolTable, files: &Files) -> (r:
    Result<Vec<Token>, TextGenError>)
    requires
        emittable(symbol_views(symbols@), symbol_table@, files@),
    ensures
        match r {
            Ok(tokens) => emitted(symbol_views(symbols@), symbol_table@, files@) == Ok::<
                Seq<TokenView>,
                TextGenError,
            >(token_views(tokens@)),
            Err(e) => emitted(symbol_views(symbols@), symbol_table@, files@) == Err::<
                Seq<TokenView>,
                TextGenError,
            >(e),
        },
{
    let ghost views = symbol_views(symbols@);
    let mut tokens: Vec<Token> = Vec::new();
    let mut cursor_position = Position { line: 0, column: 0 };
    let mut last_token_end_position = cursor_position;
    let mut i: usize = 0;
    assert(views.take(0) =~= Seq::<SymbolView>::empty());
    assert(token_views(tokens@) =~= Seq::<TokenView>::empty());
    while i < symbols.len()
        invariant
            i <= symbols@.len(),
            views == symbol_views(symbols@),
            emittable(views, symbol_table@, files@),
            pass(views.take(i as int), symbol_table@, files@) == Ok::<Pass, TextGenError>(
                Pass {
                    cursor: cursor_position,
                    last_end: last_token_end_position,
                    tokens: token_views(tokens@),
                },
            ),
        decreases symbols@.len() - i,
    {
        let ghost written = tokens@;
        proof {
            lemma_emittable_prefix(views, symbol_table@, files@, i + 1);
            assert(views.take(i + 1).drop_last() =~= views.take(i as int));
            assert(views.take(i + 1).last() == symbols@[i as int]@);
        }
        let symbol = &symbols[i];
        match to_token(symbol, symbol_table, files, &last_token_end_position, &cursor_position) {
            Err(e) => {
                proof {
                    lemma_error_ends_pass(views, symbol_table@, files@, i + 1);
                }
                return Err(e);
            },
            Ok(token) => {
                match &token {
                    Token::Word { range, .. } => {
                        cursor_position = range.end_pos;
                    },
                    Token::Punctuation { .. } => {
                        unreached::<()>();
                    },
                }
                last_token_end_position = symbol.end_pos();
                tokens.push(token);
                assert(token_views(tokens@) =~= token_views(written).push(token@));
            },
        }
        i += 1;
    }
    assert(views.take(i as int) =~= views);
    Ok(tokens)
}

/// Whether `to_output_tokens` is defined on these arguments: every
/// placeholder that the pass reaches is bound, every word that has to move
/// starts on the cursor's line at a range that does not end before it
/// starts, and no new column is negative or too large to hold.
pub fn can_emit(symbols: &[Symbol], symbol_table: &SymbolTable, files: &Files) -> (b: bool)
    ensures
        b == emittable(symbol_views(symbols@), symbol_table@, files@),
{
    let ghost views = symbol_views(symbols@);
    let mut cursor_position = Position { line: 0, column: 0 };
    let mut last_token_end_position = cursor_position;
    let ghost mut written = Seq::<TokenView>::empty();
    let mut i: usize = 0;
    assert(views.take(0) =~= Seq::<SymbolView>::empty());
    while i < symbols.len()
        invariant
            i <= symbols@.len(),
            views == symbol_views(symbols@),
            emittable(views.take(i as int), symbol_table@, files@),
            pass(views.take(i as int), symbol_table@, files@) == Ok::<Pass, TextGenError>(
                Pass {
                    cursor: cursor_position,
                    last_end: last_token_end_position,
                    tokens: written,
                },
            ),
        decreases symbols@.len() - i,
    {
        proof {
            assert(views.take(i + 1).drop_last() =~= views.take(i as int));
            assert(views.take(i + 1).last() == symbols@[i as int]@);
            if emittable(views, symbol_table@, files@) {
                lemma_emittable_prefix(views, symbol_table@, files@, i + 1);
            }
        }
        let symbol = &symbols[i];
        let known = match symbol {
            Symbol::Word { .. } => true,
            Symbol::Replace { identifier, .. } => symbol_table.has_variable(identifier.as_str()),
            Symbol::Spread { identifier, .. } => symbol_table.has_variable(identifier.as_str()),
        };
        if !known {
            return false;
        }
        match resolve(symbol, symbol_table, files) {
            Err(_) => {
                proof {
                    lemma_emittable_after_error(views, symbol_table@, files@, i + 1);
                }
                return true;
            },
            Ok(text) => {
                if !place_fits(symbol, &text, &last_token_end_position, &cursor_position) {
                    return false;
                }
                let range = place(symbol, &text, &last_token_end_position, &cursor_position);
                proof {
                    written = written.push(TokenView::Word { text: text@, range });
                }
                cursor_position = range.end_pos;
                last_token_end_position = symbol.end_pos();
            },
        }
        i += 1;
    }
    assert(views.take(i as int) =~= views);
    true
}

} // verus!
