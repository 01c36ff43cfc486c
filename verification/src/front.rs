//! The front end: from text to tokens, from tokens to symbols, and from
//! tokens back to text.

use crate::layout::{rendered, repeated, written, Page};
use crate::lexing::{
    buffer_token, document_tokens, first_illegal, lemma_error_ends_document,
    lemma_pending_word, lemma_tokens_in_bounds, line_tokens, line_views, token_at,
    token_starts, tokens_before, word_char,
};
use crate::parsing::{
    after, lemma_after_after, lemma_after_nothing, parsed, parsed_from, punctuation_at,
    replace_at, spread_at, symbol_at, symbol_width, word_at,
};
use crate::position::{Position, Range};
use crate::symbol::{symbol_views, Symbol, SymbolView};
use crate::symbol_table::SymbolTable;
use crate::text::{
    chars_of, decimal, is_ascii_punctuation, is_whitespace, push_decimal, string_of,
};
use crate::token::{token_views, Token, TokenView};
use vstd::prelude::*;

verus! {

/// Why a document could not be read or parsed.
#[derive(PartialEq, Eq, Structural, Clone, Copy, Debug)]
pub enum ParseError {
    /// A whitespace character other than a space stands at this position.
    UnexpectedToken(Position),
    /// The path of the document names no file.
    InvalidFilePath,
    /// The document could not be opened.
    FailedToOpenFile,
    /// The identifier of the `${name}` placeholder that starts at the
    /// range's start and closes at its end is not bound.
    VariableNotFound(Range),
    /// The identifier of the `${...name}` placeholder that starts at the
    /// range's start and closes at its end is not bound.
    FileNotFound(Range),
    /// The line with this number could not be read.
    FailedToReadLine(usize),
}

impl ParseError {
    /// The error as it is reported, after the path of the document and a
    /// colon: the place, if the error has one, and what went wrong.
    pub open spec fn described(self) -> Seq<char> {
        match self {
            ParseError::UnexpectedToken(pos) => pos.described() + " : Unexpected token"@,
            ParseError::InvalidFilePath => ": Invalid file path"@,
            ParseError::FailedToOpenFile => ": Failed to open file"@,
            ParseError::VariableNotFound(range) => range.described() + " : variable not found"@,
            ParseError::FileNotFound(range) => range.described() + " : file not found"@,
            ParseError::FailedToReadLine(line) => decimal(line as nat)
                + ": Failed to read line"@,
        }
    }

    /// The error as it is reported, after the path of the document and a
    /// colon.
    pub fn describe(&self) -> (text: String)
        ensures
            text@ == self.described(),
    {
        let mut text = String::new();
        match self {
            ParseError::UnexpectedToken(pos) => {
                pos.describe_to(&mut text);
                text.append(" : Unexpected token");
            },
            ParseError::InvalidFilePath => {
                text.append(": Invalid file path");
            },
            ParseError::FailedToOpenFile => {
                text.append(": Failed to open file");
            },
            ParseError::VariableNotFound(range) => {
                range.describe_to(&mut text);
                text.append(" : variable not found");
            },
            ParseError::FileNotFound(range) => {
                range.describe_to(&mut text);
                text.append(" : file not found");
            },
            ParseError::FailedToReadLine(line) => {
                push_decimal(&mut text, *line);
                text.append(": Failed to read line");
            },
        }
        assert(text@ =~= self.described());
        text
    }
}

/// The token that the buffered characters `chars`, read from columns
/// `[start, end)` of line `line`, make.
pub fn create_token(chars: &[char], line: usize, start: usize, end: usize) -> (token: Option<
    Token,
>)
    requires
        start + chars@.len() == end,
    ensures
        match token {
            Some(t) => buffer_token(chars@, line, start as int, end as int) == Some(t@),
            None => buffer_token(chars@, line, start as int, end as int) is None,
        },
{
    let n = chars.len();
    if n == 0 {
        None
    } else if n == 1 && is_ascii_punctuation(chars[0]) {
        Some(Token::Punctuation { value: chars[0], pos: Position { line, column: start } })
    } else {
        let text = string_of(chars, 0, n);
        assert(chars@.subrange(0, n as int) =~= chars@);
        Some(
            Token::Word {
                text,
                range: Range {
                    start_pos: Position { line, column: start },
                    end_pos: Position { line, column: end },
                },
            },
        )
    }
}

/// Splits one line of text into its tokens. `line` is the number of the
/// line, which every position in the result carries.
///
/// A space ends a word and is itself no token. Any other whitespace
/// character is refused, with its position. An ASCII punctuation character
/// ends the word before it and is a token of its own.
pub fn create_tokens(text: String, line: usize) -> (r: Result<Vec<Token>, ParseError>)
    ensures
        match r {
            Ok(tokens) => line_tokens(text@, line) == Ok::<Seq<TokenView>, ParseError>(
                token_views(tokens@),
            ),
            Err(e) => line_tokens(text@, line) == Err::<Seq<TokenView>, ParseError>(e),
        },
        r matches Ok(tokens) ==> forall|i: int|
            0 <= i < tokens@.len() ==> (#[trigger] tokens@[i])@.in_bounds(),
{
    let chars = chars_of(text.as_str());
    let n = chars.len();
    let mut tokens: Vec<Token> = Vec::new();
    let mut start: usize = 0;
    let mut i: usize = 0;
    assert(token_views(tokens@) =~= tokens_before(text@, line, 0));
    while i < n
        invariant
            chars@ == text@,
            n == chars@.len(),
            start <= i <= n,
            first_illegal(text@, 0) == first_illegal(text@, i as int),
            forall|k: int| start <= k < i ==> word_char(#[trigger] text@[k]),
            start == 0 || !word_char(text@[start - 1]),
            token_views(tokens@) == tokens_before(text@, line, start as int),
        decreases n - i,
    {
        let c = chars[i];
        if c == ' ' {
            flush(&chars, line, start, i, &mut tokens);
            assert(!token_starts(text@, i as int));
            start = i + 1;
        } else if is_whitespace(c) {
            return Err(ParseError::UnexpectedToken(Position { line, column: i }));
        } else if is_ascii_punctuation(c) {
            flush(&chars, line, start, i, &mut tokens);
            let ghost before = tokens@;
            let token = create_token(&chars[i..i + 1], line, i, i + 1);
            assert(chars@.subrange(i as int, i + 1)[0] == c);
            match token {
                Some(t) => {
                    tokens.push(t);
                    assert(t@ == token_at(text@, line, i as int));
                    assert(token_starts(text@, i as int));
                    assert(token_views(tokens@) =~= token_views(before).push(t@));
                },
                None => {},
            }
            start = i + 1;
        }
        i += 1;
    }
    flush(&chars, line, start, n, &mut tokens);
    proof {
        lemma_tokens_in_bounds(text@, line);
        assert forall|i: int| 0 <= i < tokens@.len() implies (
        #[trigger] tokens@[i])@.in_bounds() by {
            assert(tokens@[i]@ == token_views(tokens@)[i]);
        }
    }
    Ok(tokens)
}

/// Ends the word that is pending in `chars[start..to]`: appends it to
/// `tokens` unless it is empty.
fn flush(chars: &Vec<char>, line: usize, start: usize, to: usize, tokens: &mut Vec<Token>)
    requires
        start <= to <= chars@.len(),
        forall|k: int| start <= k < to ==> word_char(#[trigger] chars@[k]),
        start == 0 || !word_char(chars@[start - 1]),
        to == chars@.len() || !word_char(chars@[to as int]),
        token_views(old(tokens)@) == tokens_before(chars@, line, start as int),
    ensures
        token_views(final(tokens)@) == tokens_before(chars@, line, to as int),
{
    proof {
        lemma_pending_word(chars@, line, start as int, to as int);
    }
    let ghost before = tokens@;
    match create_token(&chars[start..to], line, start, to) {
        Some(t) => {
            tokens.push(t);
            assert(token_views(tokens@) =~= token_views(before).push(t@));
        },
        None => {},
    }
}

/// Splits a document into its tokens: line `i` of `lines` is tokenized as
/// line number `i`, and the tokens of all lines follow each other. The first
/// line that has an illegal character ends it with that line's error.
pub fn tokenize_lines(lines: &[String]) -> (r: Result<Vec<Token>, ParseError>)
    ensures
        match r {
            Ok(tokens) => document_tokens(line_views(lines@)) == Ok::<
                Seq<TokenView>,
                ParseError,
            >(token_views(tokens@)),
            Err(e) => document_tokens(line_views(lines@)) == Err::<Seq<TokenView>, ParseError>(
                e,
            ),
        },
        r matches Ok(tokens) ==> forall|i: int|
            0 <= i < tokens@.len() ==> (#[trigger] tokens@[i])@.in_bounds(),
{
    let ghost views = line_views(lines@);
    let mut tokens: Vec<Token> = Vec::new();
    let mut i: usize = 0;
    assert(views.take(0) =~= Seq::<Seq<char>>::empty());
    assert(token_views(tokens@) =~= Seq::<TokenView>::empty());
    while i < lines.len()
        invariant
            i <= lines@.len(),
            views == line_views(lines@),
            document_tokens(views.take(i as int)) == Ok::<Seq<TokenView>, ParseError>(
                token_views(tokens@),
            ),
            forall|k: int| 0 <= k < tokens@.len() ==> (#[trigger] tokens@[k])@.in_bounds(),
        decreases lines@.len() - i,
    {
        let ghost before = tokens@;
        proof {
            assert(views.take(i + 1).drop_last() =~= views.take(i as int));
            assert(views.take(i + 1).last() == lines@[i as int]@);
        }
        match create_tokens(lines[i].clone(), i) {
            Ok(mut found) => {
                let ghost added = found@;
                tokens.append(&mut found);
                assert(token_views(tokens@) =~= token_views(before) + token_views(added));
            },
            Err(e) => {
                proof {
                    lemma_error_ends_document(views, i + 1);
                }
                return Err(e);
            },
        }
        i += 1;
    }
    assert(views.take(i as int) =~= views);
    Ok(tokens)
}

/// Whether the token at index `at` is the punctuation character `value`.
fn is_punctuation(tokens: &[Token], at: usize, value: char) -> (b: bool)
    ensures
        b == punctuation_at(token_views(tokens@), at as int, value),
{
    if at < tokens.len() {
        match &tokens[at] {
            Token::Punctuation { value: v, .. } => *v == value,
            Token::Word { .. } => false,
        }
    } else {
        false
    }
}

/// Whether the token at index `at` is a word.
fn is_word(tokens: &[Token], at: usize) -> (b: bool)
    ensures
        b == word_at(token_views(tokens@), at as int),
{
    if at < tokens.len() {
        match &tokens[at] {
            Token::Word { .. } => true,
            Token::Punctuation { .. } => false,
        }
    } else {
        false
    }
}

/// Whether the tokens from index `at` on begin with `$ { name }`.
fn is_replace(tokens: &[Token], at: usize) -> (b: bool)
    requires
        at < tokens@.len(),
    ensures
        b == replace_at(token_views(tokens@), at as int),
{
    tokens.len() - at >= 4 && is_punctuation(tokens, at, '$') && is_punctuation(
        tokens,
        at + 1,
        '{',
    ) && is_word(tokens, at + 2) && is_punctuation(tokens, at + 3, '}')
}

/// Whether the tokens from index `at` on begin with `$ { . . . name }`.
fn is_spread(tokens: &[Token], at: usize) -> (b: bool)
    requires
        at < tokens@.len(),
    ensures
        b == spread_at(token_views(tokens@), at as int),
{
    tokens.len() - at >= 7 && is_punctuation(tokens, at, '$') && is_punctuation(
        tokens,
        at + 1,
        '{',
    ) && is_punctuation(tokens, at + 2, '.') && is_punctuation(tokens, at + 3, '.')
        && is_punctuation(tokens, at + 4, '.') && is_word(tokens, at + 5) && is_punctuation(
        tokens,
        at + 6,
        '}',
    )
}

/// Groups tokens into symbols.
///
/// `$ { name }` becomes a `Replace` and `$ { . . . name }` a `Spread`, each
/// with the range from its `$` to one past its `}`; every other token
/// becomes a `Word` with the token's text and range. A placeholder whose
/// name `symbols` does not bind ends the parse: with `VariableNotFound` for
/// a `Replace` and `FileNotFound` for a `Spread`, and the range from the `$`
/// to the `}`. Only the names that `symbols` binds matter, not their values.
pub fn parse_tokens(tokens: &[Token], symbols: &SymbolTable) -> (r: Result<
    Vec<Symbol>,
    ParseError,
>)
    requires
        forall|i: int| 0 <= i < tokens@.len() ==> (#[trigger] tokens@[i])@.in_bounds(),
    ensures
        match r {
            Ok(found) => parsed(token_views(tokens@), symbols@.dom()) == Ok::<
                Seq<SymbolView>,
                ParseError,
            >(symbol_views(found@)),
            Err(e) => parsed(token_views(tokens@), symbols@.dom()) == Err::<
                Seq<SymbolView>,
                ParseError,
            >(e),
        },
{
    let ghost views = token_views(tokens@);
    let ghost known = symbols@.dom();
    let mut found: Vec<Symbol> = Vec::new();
    let mut i: usize = 0;
    proof {
        lemma_after_nothing(parsed_from(views, known, 0));
        assert(symbol_views(found@) =~= Seq::<SymbolView>::empty());
    }
    while i < tokens.len()
        invariant
            i <= tokens@.len(),
            views == token_views(tokens@),
            known == symbols@.dom(),
            forall|i: int| 0 <= i < tokens@.len() ==> (#[trigger] tokens@[i])@.in_bounds(),
            parsed(views, known) == after(
                symbol_views(found@),
                parsed_from(views, known, i as int),
            ),
        decreases tokens@.len() - i,
    {
        let ghost before = found@;
        let ghost width = symbol_width(views, i as int);
        if is_spread(tokens, i) {
            let identifier = tokens[i + 5].to_string();
            let start_pos = tokens[i].start_pos();
            let end_pos = tokens[i + 6].start_pos();
            if symbols.has_variable(identifier.as_str()) {
                assert(tokens@[i + 6]@.in_bounds());
                let range = Range { start_pos, end_pos: end_pos.next() };
                found.push(Symbol::Spread { identifier, range });
            } else {
                return Err(ParseError::FileNotFound(Range::from((&start_pos, &end_pos))));
            }
            i += 7;
        } else if is_replace(tokens, i) {
            let identifier = tokens[i + 2].to_string();
            let start_pos = tokens[i].start_pos();
            let end_pos = tokens[i + 3].start_pos();
            if symbols.has_variable(identifier.as_str()) {
                assert(tokens@[i + 3]@.in_bounds());
                let range = Range { start_pos, end_pos: end_pos.next() };
                found.push(Symbol::Replace { identifier, range });
            } else {
                return Err(ParseError::VariableNotFound(Range::from((&start_pos, &end_pos))));
            }
            i += 4;
        } else {
            assert(tokens@[i as int]@.in_bounds());
            match &tokens[i] {
                Token::Word { text, range } => {
                    found.push(Symbol::Word { text: text.clone(), range: *range });
                },
                Token::Punctuation { pos, .. } => {
                    found.push(
                        Symbol::Word { text: tokens[i].to_string(), range: Range::at(pos) },
                    );
                },
            }
            i += 1;
        }
        proof {
            let symbol = symbol_at(views, known, i - width)->Ok_0;
            assert(symbol_views(found@) =~= symbol_views(before).push(symbol));
            lemma_after_after(symbol_views(before), symbol, parsed_from(views, known, i as int));
        }
    }
    assert(symbol_views(found@) + Seq::<SymbolView>::empty() =~= symbol_views(found@));
    Ok(found)
}

/// Writes tokens out as text.
///
/// Before each token, newlines bring the text to the token's line and then
/// spaces bring it to the token's column; a token that starts where the
/// text already is, or before, follows at once. Nothing is added after the
/// last token.
pub fn reconstruct_text(tokens: &[Token]) -> (text: String)
    ensures
        text@ == rendered(token_views(tokens@)),
{
    let ghost views = token_views(tokens@);
    let mut text = String::new();
    let mut current_line: usize = 0;
    // The column grows by at most one usize per token, so 128 bits hold it.
    let mut current_column: u128 = 0;
    let mut i: usize = 0;
    while i < tokens.len()
        invariant
            i <= tokens@.len(),
            views == token_views(tokens@),
            current_column <= (i + 1) * 0xFFFF_FFFF_FFFF_FFFF,
            written(views.take(i as int)) == (Page {
                line: current_line as int,
                column: current_column as int,
                text: text@,
            }),
        decreases tokens@.len() - i,
    {
        let ghost page = written(views.take(i as int));
        let Position { line, column } = tokens[i].start_pos();
        while current_line < line
            invariant
                current_line <= line || current_line == page.line,
                page.line <= current_line,
                page.line < current_line ==> current_column == 0,
                page.line == current_line ==> current_column == page.column,
                text@ == page.text + repeated('\n', current_line - page.line),
            decreases line - current_line,
        {
            text.push('\n');
            current_line += 1;
            current_column = 0;
            assert(text@ =~= page.text + repeated('\n', current_line - page.line));
        }
        assert(text@ =~= page.down_to(line as int).text);
        let ghost lowered = page.down_to(line as int);
        while current_column < column as u128
            invariant
                current_column <= column || current_column == lowered.column,
                lowered.column <= current_column,
                current_column <= (i + 1) * 0xFFFF_FFFF_FFFF_FFFF,
                text@ == lowered.text + repeated(' ', current_column - lowered.column),
            decreases column - current_column,
        {
            text.push(' ');
            current_column += 1;
            assert(text@ =~= lowered.text + repeated(' ', current_column - lowered.column));
        }
        assert(text@ =~= lowered.right_to(column as int).text);
        let part = tokens[i].to_string();
        current_column += part.as_str().unicode_len() as u128;
        text.append(part.as_str());
        proof {
            assert(views.take(i + 1).drop_last() =~= views.take(i as int));
            assert(views.take(i + 1).last() == tokens@[i as int]@);
        }
        i += 1;
    }
    assert(views.take(i as int) =~= views);
    text
}

} // verus!
