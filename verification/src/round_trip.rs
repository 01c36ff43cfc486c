//! A document without placeholders comes out as it went in.

use crate::emission::{emittable, emitted, lemma_words_stay};
use crate::files::FileEntryView;
use crate::front::ParseError;
use crate::layout::{joined, lemma_written_as_words, rendered, repeated, written, Page};
use crate::lexing::{
    document_tokens, first_illegal, last_end, lemma_last_end, lemma_word_extent, line_tokens,
    token_at, token_end, token_starts, tokens_before, };
use crate::parsing::{
    has_placeholder, lemma_parse_without_placeholders, parsed, plain_symbols,
};
use crate::symbol::SymbolView;
use crate::token::TokenView;
use vstd::prelude::*;

verus! {

/// The page after the tokens of a line that end at column `end` are written
/// on `start`: `start` itself if there is none, and else `start` brought
/// down to the line and followed by the line's first `end` characters.
pub open spec fn line_page(start: Page, line: Seq<char>, line_no: usize, end: int) -> Page {
    if end <= 0 {
        start
    } else {
        Page {
            line: line_no as int,
            column: end,
            text: start.down_to(line_no as int).text + line.subrange(0, end),
        }
    }
}

/// Writing one more token.
pub proof fn lemma_written_push(tokens: Seq<TokenView>, token: TokenView)
    ensures
        written(tokens.push(token)) == written(tokens).write(token),
{
    assert(tokens.push(token).drop_last() =~= tokens);
}

/// One more token written on a line: where spaces fill the line between
/// the end of what is written and the token, the page then holds the line
/// up to the token's end.
pub proof fn lemma_write_on_line(
    start: Page,
    line: Seq<char>,
    line_no: usize,
    gap: int,
    token: TokenView,
    end: int,
)
    requires
        start.line <= line_no,
        start.line == line_no ==> start.column == 0,
        0 <= gap <= token.start().column < end <= line.len(),
        token.start().line == line_no,
        token.text() == line.subrange(token.start().column as int, end),
        forall|k: int| gap <= k < token.start().column ==> #[trigger] line[k] == ' ',
    ensures
        line_page(start, line, line_no, gap).write(token) == line_page(
            start,
            line,
            line_no,
            end,
        ),
{
    let at = token.start().column as int;
    let head = start.down_to(line_no as int);
    let page = line_page(start, line, line_no, gap);
    let lowered = page.down_to(line_no as int);
    assert(lowered.line == line_no && lowered.column == gap);
    assert(lowered.text =~= head.text + line.subrange(0, gap));
    let moved = lowered.right_to(at);
    assert(moved.line == line_no && moved.column == at);
    assert(repeated(' ', at - gap) =~= line.subrange(gap, at));
    assert(moved.text =~= head.text + line.subrange(0, at));
    let done = moved.with(token.text());
    assert(done.column == end);
    assert(done.text =~= head.text + line.subrange(0, end));
}

/// The tokens of a line that start before column `upto`, written after the
/// tokens `before` of earlier lines, give the line up to the end of the
/// last of them: each gap between two tokens is filled with as many spaces
/// as the line has there.
pub proof fn lemma_line_written(
    before: Seq<TokenView>,
    line: Seq<char>,
    line_no: usize,
    upto: int,
)
    requires
        0 <= upto <= line.len() <= usize::MAX,
        written(before).line <= line_no,
        written(before).line == line_no ==> written(before).column == 0,
    ensures
        written(before + tokens_before(line, line_no, upto)) == line_page(
            written(before),
            line,
            line_no,
            last_end(line, upto),
        ),
    decreases upto,
{
    if upto <= 0 {
        assert(before + tokens_before(line, line_no, upto) =~= before);
    } else {
        let at = upto - 1;
        lemma_line_written(before, line, line_no, at);
        if token_starts(line, at) {
            lemma_last_end(line, at);
            lemma_word_extent(line, at);
            let earlier = tokens_before(line, line_no, at);
            let token = token_at(line, line_no, at);
            assert(before + earlier.push(token) =~= (before + earlier).push(token));
            lemma_written_push(before + earlier, token);
            assert(token.text() =~= line.subrange(at, token_end(line, at)));
            lemma_write_on_line(
                written(before),
                line,
                line_no,
                last_end(line, at),
                token,
                token_end(line, at),
            );
        }
    }
}

/// A line that the tokenizer takes and that loses nothing when it is
/// written again: no whitespace in it but spaces, none of them at its end,
/// and columns that can be held.
pub open spec fn plain_line(line: Seq<char>) -> bool {
    &&& line.len() <= usize::MAX
    &&& first_illegal(line, 0) is None
    &&& line.len() > 0 ==> line.last() != ' '
}

/// A document of plain lines whose line numbers can be held.
pub open spec fn plain_lines(lines: Seq<Seq<char>>) -> bool {
    &&& lines.len() <= usize::MAX
    &&& forall|i: int| 0 <= i < lines.len() ==> plain_line(#[trigger] lines[i])
}

/// The tokens of a plain line, written after those of the lines before it.
proof fn lemma_plain_line_written(before: Seq<TokenView>, line: Seq<char>, line_no: usize)
    requires
        plain_line(line),
        written(before).line <= line_no,
        written(before).line == line_no ==> written(before).column == 0,
    ensures
        line_tokens(line, line_no) == Ok::<Seq<TokenView>, ParseError>(
            tokens_before(line, line_no, line.len() as int),
        ),
        written(before + tokens_before(line, line_no, line.len() as int)) == line_page(
            written(before),
            line,
            line_no,
            line.len() as int,
        ),
{
    lemma_line_written(before, line, line_no, line.len() as int);
    lemma_last_end(line, line.len() as int);
    if line.len() > 0 && last_end(line, line.len() as int) < line.len() {
        assert(line[line.len() - 1] == ' ');
    }
}

/// A line comes out of its tokens as it went in: written from the top of a
/// page, the tokens of a plain line with number 0 give the line, with one
/// space for each space that parts two tokens in it.
pub proof fn lemma_line_round_trip(line: Seq<char>)
    requires
        plain_line(line),
    ensures
        line_tokens(line, 0) matches Ok(tokens) && rendered(tokens) == line,
{
    let before = Seq::<TokenView>::empty();
    lemma_plain_line_written(before, line, 0);
    let tokens = tokens_before(line, 0, line.len() as int);
    assert(before + tokens =~= tokens);
    assert(line.subrange(0, line.len() as int) =~= line);
    assert(Seq::<char>::empty() + line =~= line);
}

/// The tokens of a document of plain lines write the document, but for the
/// newlines before empty lines at its end: brought down to the last line,
/// the page holds all lines and stands at the end of the last.
proof fn lemma_document_written(lines: Seq<Seq<char>>)
    requires
        plain_lines(lines),
        lines.len() >= 1,
    ensures
        document_tokens(lines) is Ok,
        written(document_tokens(lines)->Ok_0).line <= lines.len() - 1,
        lines.last().len() > 0 || lines.len() == 1 ==> written(
            document_tokens(lines)->Ok_0,
        ).line == lines.len() - 1,
        written(document_tokens(lines)->Ok_0).down_to(lines.len() - 1) == (Page {
            line: lines.len() - 1,
            column: lines.last().len() as int,
            text: joined(lines),
        }),
    decreases lines.len(),
{
    let line = lines.last();
    let line_no = (lines.len() - 1) as usize;
    if lines.len() == 1 {
        let before = Seq::<TokenView>::empty();
        assert(lines.drop_last() =~= Seq::<Seq<char>>::empty());
        lemma_plain_line_written(before, line, line_no);
        assert(line.subrange(0, line.len() as int) =~= line);
        assert(Seq::<char>::empty() + line =~= line);
    } else {
        let front = lines.drop_last();
        assert(plain_lines(front)) by {
            assert forall|i: int| 0 <= i < front.len() implies plain_line(#[trigger] front[i]) by {
                assert(plain_line(lines[i]));
            }
        }
        lemma_document_written(front);
        let before = document_tokens(front)->Ok_0;
        lemma_plain_line_written(before, line, line_no);
        let page = written(before);
        let above = page.down_to(lines.len() - 2);
        let lowered = page.down_to(lines.len() - 1);
        assert(lowered.text =~= above.text + seq!['\n']) by {
            assert(repeated('\n', lines.len() - 1 - page.line) =~= repeated(
                '\n',
                lines.len() - 2 - page.line,
            ) + seq!['\n']);
        }
        assert(line.subrange(0, line.len() as int) =~= line);
        assert(joined(front) + seq!['\n'] + Seq::<char>::empty() =~= joined(front) + seq!['\n']);
    }
}

/// A document without placeholders comes out as it went in.
///
/// Take lines that hold no whitespace but spaces, none of them at a line's
/// end, and no placeholder; let the last line not be empty, unless it is
/// the only one. Then tokenizing the lines, parsing the tokens, emitting the
/// symbols and writing the tokens out gives the lines joined by newlines,
/// whatever the symbol table and the files hold, and no stage fails.
pub proof fn lemma_round_trip(
    lines: Seq<Seq<char>>,
    table: Map<Seq<char>, Seq<char>>,
    files: Map<Seq<char>, FileEntryView>,
)
    requires
        plain_lines(lines),
        lines.len() <= 1 || lines.last().len() > 0,
        document_tokens(lines) matches Ok(tokens) ==> !has_placeholder(tokens),
    ensures
        ({
            &&& document_tokens(lines) matches Ok(tokens)
            &&& parsed(tokens, table.dom()) matches Ok(symbols)
            &&& emittable(symbols, table, files)
            &&& emitted(symbols, table, files) matches Ok(output)
            &&& rendered(output) == joined(lines)
        }),
{
    if lines.len() == 0 {
        let none = Seq::<TokenView>::empty();
        lemma_parse_without_placeholders(none, table.dom());
        assert(plain_symbols(none) =~= Seq::<SymbolView>::empty());
    } else {
        lemma_document_written(lines);
        let tokens = document_tokens(lines)->Ok_0;
        lemma_parse_without_placeholders(tokens, table.dom());
        let symbols = plain_symbols(tokens);
        lemma_words_stay(symbols, table, files);
        let output = emitted(symbols, table, files)->Ok_0;
        assert(output =~= tokens.map_values(|t: TokenView| t.as_word()));
        lemma_written_as_words(tokens);
    }
}

} // verus!
