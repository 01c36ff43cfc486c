//! What text a sequence of tokens writes.
//!
//! The tokens are played back in order. Before each one the text is brought
//! to the token's start: by newlines if the token stands on a later line, by
//! spaces if it stands further right. Then the token's characters follow. A
//! token that starts where the text already is, or before, follows at once.

use crate::token::TokenView;
use vstd::prelude::*;

verus! {

/// The state of the playback: the text written so far, and the line and
/// column that it has reached.
pub struct Page {
    pub line: int,
    pub column: int,
    pub text: Seq<char>,
}

/// `count` times the character `c`.
pub open spec fn repeated(c: char, count: int) -> Seq<char> {
    Seq::new(
        if count > 0 {
            count as nat
        } else {
            0
        },
        |i: int| c,
    )
}

impl Page {
    /// The page before anything is written.
    pub open spec fn blank() -> Page {
        Page { line: 0, column: 0, text: Seq::empty() }
    }

    /// The page brought down to `line` by newlines, if it is above it.
    pub open spec fn down_to(self, line: int) -> Page {
        if self.line < line {
            Page { line, column: 0, text: self.text + repeated('\n', line - self.line) }
        } else {
            self
        }
    }

    /// The page brought right to `column` by spaces, if it is left of it.
    pub open spec fn right_to(self, column: int) -> Page {
        if self.column < column {
            Page {
                line: self.line,
                column,
                text: self.text + repeated(' ', column - self.column),
            }
        } else {
            self
        }
    }

    /// The page with `chars` appended; the column moves on by their number.
    pub open spec fn with(self, chars: Seq<char>) -> Page {
        Page { line: self.line, column: self.column + chars.len(), text: self.text + chars }
    }

    /// The page after `token` is written on it.
    pub open spec fn write(self, token: TokenView) -> Page {
        self.down_to(token.start().line as int).right_to(token.start().column as int).with(
            token.text(),
        )
    }
}

/// The page after all of `tokens` are written, in order.
pub open spec fn written(tokens: Seq<TokenView>) -> Page
    decreases tokens.len(),
{
    if tokens.len() == 0 {
        Page::blank()
    } else {
        written(tokens.drop_last()).write(tokens.last())
    }
}

/// The text that `tokens` write.
pub open spec fn rendered(tokens: Seq<TokenView>) -> Seq<char> {
    written(tokens).text
}

/// The lines of a document put together: a newline between each two.
pub open spec fn joined(lines: Seq<Seq<char>>) -> Seq<char>
    decreases lines.len(),
{
    if lines.len() == 0 {
        Seq::empty()
    } else if lines.len() == 1 {
        lines[0]
    } else {
        joined(lines.drop_last()) + seq!['\n'] + lines.last()
    }
}

/// What is written depends on where each token starts and on its
/// characters only: tokens taken as words write the same.
pub proof fn lemma_written_as_words(tokens: Seq<TokenView>)
    ensures
        written(tokens.map_values(|t: TokenView| t.as_word())) == written(tokens),
    decreases tokens.len(),
{
    let as_word = |t: TokenView| t.as_word();
    if tokens.len() > 0 {
        lemma_written_as_words(tokens.drop_last());
        assert(tokens.map_values(as_word).drop_last() =~= tokens.drop_last().map_values(as_word));
    }
}

} // verus!
