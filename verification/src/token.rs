//! Tokens: the pieces that a line is split into, and the pieces that the
//! emitter lays out again.

use crate::position::{Position, Range};
use vstd::prelude::*;

verus! {

/// A piece of text with its place.
#[derive(Debug, PartialEq, Eq, Clone)]
pub enum Token {
    /// A run of characters that occupies `range`.
    Word { text: String, range: Range },
    /// One ASCII punctuation character, which occupies `[pos, pos + 1)`.
    Punctuation { value: char, pos: Position },
}

/// What a [`Token`] stands for in specifications.
pub enum TokenView {
    Word { text: Seq<char>, range: Range },
    Punctuation { value: char, pos: Position },
}

impl View for Token {
    type V = TokenView;

    open spec fn view(&self) -> TokenView {
        match self {
            Token::Word { text, range } => TokenView::Word { text: text@, range: *range },
            Token::Punctuation { value, pos } => TokenView::Punctuation {
                value: *value,
                pos: *pos,
            },
        }
    }
}

impl TokenView {
    /// Where the token starts.
    pub open spec fn start(self) -> Position {
        match self {
            TokenView::Word { range, .. } => range.start_pos,
            TokenView::Punctuation { pos, .. } => pos,
        }
    }

    /// The columns that the token occupies.
    pub open spec fn range(self) -> Range {
        match self {
            TokenView::Word { range, .. } => range,
            TokenView::Punctuation { pos, .. } => Range::spec_at(pos),
        }
    }

    /// The characters that the token writes.
    pub open spec fn text(self) -> Seq<char> {
        match self {
            TokenView::Word { text, .. } => text,
            TokenView::Punctuation { value, .. } => seq![value],
        }
    }

    /// The token as a word: the same characters at the same place.
    pub open spec fn as_word(self) -> TokenView {
        TokenView::Word { text: self.text(), range: self.range() }
    }

    /// The range of a punctuation token can be held: `pos + 1` is a column.
    pub open spec fn in_bounds(self) -> bool {
        self matches TokenView::Punctuation { pos, .. } ==> pos.column < usize::MAX
    }
}

/// The views of a sequence of tokens.
pub open spec fn token_views(tokens: Seq<Token>) -> Seq<TokenView> {
    tokens.map_values(|t: Token| t@)
}

impl Token {
    /// Where the token starts.
    pub fn start_pos(&self) -> (p: Position)
        ensures
            p == self@.start(),
    {
        match self {
            Token::Word { range, .. } => range.start_pos,
            Token::Punctuation { pos, .. } => *pos,
        }
    }

    /// The characters that the token writes.
    pub fn to_string(&self) -> (s: String)
        ensures
            s@ == self@.text(),
    {
        match self {
            Token::Word { text, .. } => text.clone(),
            Token::Punctuation { value, .. } => {
                let mut s = String::new();
                s.push(*value);
                s
            },
        }
    }
}

} // verus!
