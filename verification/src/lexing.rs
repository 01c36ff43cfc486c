//! What the tokens of a line are.
//!
//! A line is made of spaces, ASCII punctuation characters and word
//! characters. Every punctuation character is a token of its own, every
//! maximal run of word characters is one word, and a space is no token:
//! it only parts two tokens. Whitespace other than the space may not stand
//! in a line.

use crate::front::ParseError;
use crate::position::{Position, Range};
use crate::text::{ascii_punctuation, white_space};
use crate::token::TokenView;
use vstd::prelude::*;

verus! {

/// A character that may not stand in a line: whitespace other than the space.
pub open spec fn illegal(c: char) -> bool {
    c != ' ' && white_space(c)
}

/// A character that is part of a word.
pub open spec fn word_char(c: char) -> bool {
    c != ' ' && !ascii_punctuation(c)
}

/// The column of the first illegal character of `line` at or after `from`.
pub open spec fn first_illegal(line: Seq<char>, from: int) -> Option<int>
    decreases line.len() - from,
{
    if from < 0 || from >= line.len() {
        None
    } else if illegal(line[from]) {
        Some(from)
    } else {
        first_illegal(line, from + 1)
    }
}

/// Where the run of word characters that holds column `from` ends: the first
/// column at or after `from` that holds no word character.
pub open spec fn word_end(line: Seq<char>, from: int) -> int
    decreases line.len() - from,
{
    if 0 <= from < line.len() && word_char(line[from]) {
        word_end(line, from + 1)
    } else {
        from
    }
}

/// Whether a token starts at column `at`: there stands a punctuation
/// character, or the first character of a word.
pub open spec fn token_starts(line: Seq<char>, at: int) -> bool {
    &&& 0 <= at < line.len()
    &&& line[at] != ' '
    &&& ascii_punctuation(line[at]) || at == 0 || !word_char(line[at - 1])
}

/// The word that `chars` make at `[start, end)` of line `line`.
pub open spec fn word(chars: Seq<char>, line: usize, start: int, end: int) -> TokenView {
    TokenView::Word {
        text: chars,
        range: Range {
            start_pos: Position { line, column: start as usize },
            end_pos: Position { line, column: end as usize },
        },
    }
}

/// The token that starts at column `at` of line number `line_no`.
pub open spec fn token_at(line: Seq<char>, line_no: usize, at: int) -> TokenView {
    if ascii_punctuation(line[at]) {
        TokenView::Punctuation {
            value: line[at],
            pos: Position { line: line_no, column: at as usize },
        }
    } else {
        word(line.subrange(at, word_end(line, at)), line_no, at, word_end(line, at))
    }
}

/// The column just after the token that starts at column `at`.
pub open spec fn token_end(line: Seq<char>, at: int) -> int {
    if ascii_punctuation(line[at]) {
        at + 1
    } else {
        word_end(line, at)
    }
}

/// The tokens of `line` that start before column `upto`, from left to right.
pub open spec fn tokens_before(line: Seq<char>, line_no: usize, upto: int) -> Seq<TokenView>
    decreases upto,
{
    if upto <= 0 {
        Seq::empty()
    } else if token_starts(line, upto - 1) {
        tokens_before(line, line_no, upto - 1).push(token_at(line, line_no, upto - 1))
    } else {
        tokens_before(line, line_no, upto - 1)
    }
}

/// The column just after the last token that starts before column `upto`,
/// and 0 if there is none.
pub open spec fn last_end(line: Seq<char>, upto: int) -> int
    decreases upto,
{
    if upto <= 0 {
        0
    } else if token_starts(line, upto - 1) {
        token_end(line, upto - 1)
    } else {
        last_end(line, upto - 1)
    }
}

/// The tokens of the line with number `line_no`, or the error at its first
/// illegal character.
pub open spec fn line_tokens(line: Seq<char>, line_no: usize) -> Result<
    Seq<TokenView>,
    ParseError,
> {
    match first_illegal(line, 0) {
        Some(column) => Err(
            ParseError::UnexpectedToken(Position { line: line_no, column: column as usize }),
        ),
        None => Ok(tokens_before(line, line_no, line.len() as int)),
    }
}

/// The tokens of a document whose lines are `lines`, numbered from 0: those
/// of each line in turn, or the error of the first line that has one.
pub open spec fn document_tokens(lines: Seq<Seq<char>>) -> Result<Seq<TokenView>, ParseError>
    decreases lines.len(),
{
    if lines.len() == 0 {
        Ok(Seq::empty())
    } else {
        match document_tokens(lines.drop_last()) {
            Ok(before) => match line_tokens(lines.last(), (lines.len() - 1) as usize) {
                Ok(tokens) => Ok(before + tokens),
                Err(e) => Err(e),
            },
            Err(e) => Err(e),
        }
    }
}

/// The lines that a sequence of strings holds.
pub open spec fn line_views(lines: Seq<String>) -> Seq<Seq<char>> {
    lines.map_values(|line: String| line@)
}

/// The token that a buffer of characters read from `[start, end)` makes: none
/// if it is empty, a punctuation token if it is one punctuation character,
/// and a word otherwise.
pub open spec fn buffer_token(chars: Seq<char>, line: usize, start: int, end: int) -> Option<
    TokenView,
> {
    if chars.len() == 0 {
        None
    } else if chars.len() == 1 && ascii_punctuation(chars[0]) {
        Some(
            TokenView::Punctuation {
                value: chars[0],
                pos: Position { line, column: start as usize },
            },
        )
    } else {
        Some(word(chars, line, start, end))
    }
}

/// Whether `token` is a token of `line`: a punctuation character of the
/// line at its column, or a run of word characters of the line at its
/// columns that goes on neither to the left nor to the right.
pub open spec fn token_of(token: TokenView, line: Seq<char>, line_no: usize) -> bool {
    match token {
        TokenView::Punctuation { value, pos } => {
            &&& pos.line == line_no
            &&& pos.column < line.len()
            &&& line[pos.column as int] == value
            &&& ascii_punctuation(value)
        },
        TokenView::Word { text, range } => {
            &&& range.well_formed()
            &&& range.start_pos.line == line_no
            &&& range.start_pos.column < range.end_pos.column <= line.len()
            &&& text == line.subrange(range.start_pos.column as int, range.end_pos.column as int)
            &&& forall|i: int|
                range.start_pos.column <= i < range.end_pos.column ==> word_char(
                    #[trigger] line[i],
                )
            &&& range.start_pos.column == 0 || !word_char(line[range.start_pos.column - 1])
            &&& range.end_pos.column == line.len() || !word_char(
                line[range.end_pos.column as int],
            )
        },
    }
}

/// Whether column `at` lies in the range of `token`.
pub open spec fn holds(token: TokenView, at: int) -> bool {
    token.range().start_pos.column <= at < token.range().end_pos.column
}

/// Whether `tokens` part `line`: each is a token of the line, each ends
/// before the next one starts, and every character of the line that is no
/// space lies in one of them.
pub open spec fn parts(tokens: Seq<TokenView>, line: Seq<char>, line_no: usize) -> bool {
    &&& forall|k: int| 0 <= k < tokens.len() ==> token_of(#[trigger] tokens[k], line, line_no)
    &&& forall|j: int, k: int|
        0 <= j < k < tokens.len() ==> (#[trigger] tokens[j]).range().end_pos.column <= (
        #[trigger] tokens[k]).range().start_pos.column
    &&& forall|at: int|
        0 <= at < line.len() && #[trigger] line[at] != ' ' ==> exists|k: int|
            0 <= k < tokens.len() && holds(#[trigger] tokens[k], at)
}

/// A run of word characters that nothing but word characters border ends
/// where `word_end` says.
pub proof fn lemma_word_end(line: Seq<char>, from: int, to: int)
    requires
        0 <= from <= to <= line.len(),
        forall|k: int| from <= k < to ==> word_char(#[trigger] line[k]),
        to == line.len() || !word_char(line[to]),
    ensures
        word_end(line, from) == to,
    decreases to - from,
{
    if from < to {
        lemma_word_end(line, from + 1, to);
    }
}

/// From a word character on, `word_end` lies further right, within the
/// line, with word characters only before it and none at it.
pub proof fn lemma_word_extent(line: Seq<char>, from: int)
    requires
        0 <= from <= line.len(),
    ensures
        from <= word_end(line, from) <= line.len(),
        from < line.len() && word_char(line[from]) ==> from < word_end(line, from),
        forall|k: int| from <= k < word_end(line, from) ==> word_char(#[trigger] line[k]),
        word_end(line, from) == line.len() || !word_char(line[word_end(line, from)]),
    decreases line.len() - from,
{
    if from < line.len() && word_char(line[from]) {
        lemma_word_extent(line, from + 1);
    }
}

/// Columns at which no token starts add nothing.
pub proof fn lemma_no_token_starts(line: Seq<char>, line_no: usize, from: int, to: int)
    requires
        0 <= from <= to,
        forall|k: int| from <= k < to ==> !token_starts(line, k),
    ensures
        tokens_before(line, line_no, to) == tokens_before(line, line_no, from),
    decreases to - from,
{
    if from < to {
        lemma_no_token_starts(line, line_no, from, to - 1);
    }
}

/// The tokens before column `to`, where `[start, to)` holds word characters
/// only, a word cannot begin before `start`, and none goes on at `to`: those
/// before `start`, and the word at `[start, to)` if that is not empty.
pub proof fn lemma_pending_word(line: Seq<char>, line_no: usize, start: int, to: int)
    requires
        0 <= start <= to <= line.len(),
        forall|k: int| start <= k < to ==> word_char(#[trigger] line[k]),
        start == 0 || !word_char(line[start - 1]),
        to == line.len() || !word_char(line[to]),
    ensures
        tokens_before(line, line_no, to) == if start < to {
            tokens_before(line, line_no, start).push(
                word(line.subrange(start, to), line_no, start, to),
            )
        } else {
            tokens_before(line, line_no, start)
        },
{
    if start < to {
        lemma_word_end(line, start, to);
        assert(token_starts(line, start));
        assert forall|k: int| start + 1 <= k < to implies !token_starts(line, k) by {
            assert(word_char(line[k - 1]));
            assert(word_char(line[k]));
        }
        lemma_no_token_starts(line, line_no, start + 1, to);
    }
}

/// How the end of the last token lies to a column `upto`: it is in the
/// line; if it is not right of `upto`, spaces fill what lies between; if it
/// is, `upto` is inside a word; and the last token is a punctuation
/// character or a word that goes on no further.
pub proof fn lemma_last_end(line: Seq<char>, upto: int)
    requires
        0 <= upto <= line.len(),
    ensures
        0 <= last_end(line, upto) <= line.len(),
        last_end(line, upto) <= upto ==> forall|k: int|
            last_end(line, upto) <= k < upto ==> #[trigger] line[k] == ' ',
        last_end(line, upto) > upto ==> upto >= 1 && forall|k: int|
            upto - 1 <= k < last_end(line, upto) ==> word_char(#[trigger] line[k]),
        last_end(line, upto) >= 1 ==> ascii_punctuation(line[last_end(line, upto) - 1])
            || last_end(line, upto) == line.len() || !word_char(line[last_end(line, upto)]),
        token_starts(line, upto) ==> last_end(line, upto) <= upto,
    decreases upto,
{
    if upto > 0 {
        lemma_last_end(line, upto - 1);
        lemma_word_extent(line, upto - 1);
        let before = last_end(line, upto - 1);
        if token_starts(line, upto - 1) {
        } else if line[upto - 1] != ' ' {
            if before <= upto - 1 {
                assert(upto - 1 >= 1);
                if before < upto - 1 {
                    assert(line[upto - 2] == ' ');
                }
            }
        }
    }
}

/// The tokens that start before column `upto` part the line up to there,
/// and none of them ends after the last one.
proof fn lemma_parts_before(line: Seq<char>, line_no: usize, upto: int)
    requires
        0 <= upto <= line.len() <= usize::MAX,
    ensures
        forall|k: int|
            0 <= k < tokens_before(line, line_no, upto).len() ==> {
                &&& token_of(#[trigger] tokens_before(line, line_no, upto)[k], line, line_no)
                &&& tokens_before(line, line_no, upto)[k].range().end_pos.column <= last_end(
                    line,
                    upto,
                )
            },
        forall|j: int, k: int|
            0 <= j < k < tokens_before(line, line_no, upto).len() ==> (
            #[trigger] tokens_before(line, line_no, upto)[j]).range().end_pos.column <= (
            #[trigger] tokens_before(line, line_no, upto)[k]).range().start_pos.column,
        forall|at: int|
            0 <= at < upto && #[trigger] line[at] != ' ' ==> exists|k: int|
                0 <= k < tokens_before(line, line_no, upto).len() && holds(
                    #[trigger] tokens_before(line, line_no, upto)[k],
                    at,
                ),
    decreases upto,
{
    if upto > 0 {
        let at = upto - 1;
        let earlier = tokens_before(line, line_no, at);
        let tokens = tokens_before(line, line_no, upto);
        lemma_parts_before(line, line_no, at);
        lemma_last_end(line, at);
        lemma_last_end(line, upto);
        lemma_word_extent(line, at);
        if token_starts(line, at) {
            let token = token_at(line, line_no, at);
            assert(token_of(token, line, line_no));
            assert(holds(token, at));
            assert forall|k: int| 0 <= k < tokens.len() implies {
                &&& token_of(#[trigger] tokens[k], line, line_no)
                &&& tokens[k].range().end_pos.column <= last_end(line, upto)
            } by {
                if k < earlier.len() {
                    assert(tokens[k] == earlier[k]);
                }
            }
            assert forall|j: int, k: int| 0 <= j < k < tokens.len() implies (
            #[trigger] tokens[j]).range().end_pos.column <= (
            #[trigger] tokens[k]).range().start_pos.column by {
                assert(tokens[j] == earlier[j]);
                if k < earlier.len() {
                    assert(tokens[k] == earlier[k]);
                }
            }
            assert forall|c: int| 0 <= c < upto && #[trigger] line[c] != ' ' implies exists|
                k: int,
            |
                0 <= k < tokens.len() && holds(#[trigger] tokens[k], c) by {
                if c < at {
                    let k = choose|k: int| 0 <= k < earlier.len() && holds(
                        #[trigger] earlier[k],
                        c,
                    );
                    assert(tokens[k] == earlier[k]);
                } else {
                    assert(tokens[earlier.len() as int] == token);
                }
            }
        } else {
            assert forall|c: int| 0 <= c < upto && #[trigger] line[c] != ' ' implies exists|
                k: int,
            |
                0 <= k < tokens.len() && holds(#[trigger] tokens[k], c) by {
                if c == at {
                    assert(line[at - 1] != ' ');
                    let k = choose|k: int| 0 <= k < earlier.len() && holds(
                        #[trigger] earlier[k],
                        at - 1,
                    );
                    assert(token_of(earlier[k], line, line_no));
                    assert(holds(tokens[k], at));
                }
            }
        }
    }
}

/// The range of every punctuation token of a line can be held.
pub proof fn lemma_tokens_in_bounds(line: Seq<char>, line_no: usize)
    requires
        line.len() <= usize::MAX,
    ensures
        forall|k: int|
            0 <= k < tokens_before(line, line_no, line.len() as int).len() ==> (
            #[trigger] tokens_before(line, line_no, line.len() as int)[k]).in_bounds(),
{
    lemma_parts_before(line, line_no, line.len() as int);
    let tokens = tokens_before(line, line_no, line.len() as int);
    assert forall|k: int| 0 <= k < tokens.len() implies (#[trigger] tokens[k]).in_bounds() by {
        assert(token_of(tokens[k], line, line_no));
    }
}

/// The tokens of a line part it: each token is a punctuation character of
/// the line or a maximal run of its word characters, at the columns where
/// it stands in the line; the tokens follow each other from left to right
/// without sharing a column; and what lies in no token is spaces.
pub proof fn lemma_tokens_part_line(line: Seq<char>, line_no: usize)
    requires
        line.len() <= usize::MAX,
        line_tokens(line, line_no) is Ok,
    ensures
        parts(line_tokens(line, line_no)->Ok_0, line, line_no),
{
    lemma_parts_before(line, line_no, line.len() as int);
}

/// An error in a line ends the tokenizing of the whole document.
pub proof fn lemma_error_ends_document(lines: Seq<Seq<char>>, length: int)
    requires
        0 <= length <= lines.len(),
        document_tokens(lines.take(length)) is Err,
    ensures
        document_tokens(lines) == document_tokens(lines.take(length)),
    decreases lines.len(),
{
    if length < lines.len() {
        assert(lines.drop_last().take(length) =~= lines.take(length));
        lemma_error_ends_document(lines.drop_last(), length);
    } else {
        assert(lines.take(length) =~= lines);
    }
}

} // verus!
