//! Symbols: what the parser makes of the tokens.

use crate::position::{Position, Range};
use crate::token::TokenView;
use vstd::prelude::*;

verus! {

/// A literal fragment or a placeholder.
#[derive(Debug, PartialEq)]
pub enum Symbol {
    /// Text that passes through unchanged.
    Word { text: String, range: Range },
    /// The placeholder `${identifier}`; `range` covers all of it.
    Replace { identifier: String, range: Range },
    /// The placeholder `${...identifier}`; `range` covers all of it.
    Spread { identifier: String, range: Range },
}

/// What a [`Symbol`] stands for in specifications.
pub enum SymbolView {
    Word { text: Seq<char>, range: Range },
    Replace { identifier: Seq<char>, range: Range },
    Spread { identifier: Seq<char>, range: Range },
}

impl View for Symbol {
    type V = SymbolView;

    open spec fn view(&self) -> SymbolView {
        match self {
            Symbol::Word { text, range } => SymbolView::Word { text: text@, range: *range },
            Symbol::Replace { identifier, range } => SymbolView::Replace {
                identifier: identifier@,
                range: *range,
            },
            Symbol::Spread { identifier, range } => SymbolView::Spread {
                identifier: identifier@,
                range: *range,
            },
        }
    }
}

impl SymbolView {
    /// The part of the source that the symbol was read from.
    pub open spec fn range(self) -> Range {
        match self {
            SymbolView::Word { range, .. } => range,
            SymbolView::Replace { range, .. } => range,
            SymbolView::Spread { range, .. } => range,
        }
    }

    /// The token that a word is written as where nothing has moved: the
    /// same text at the same range.
    pub open spec fn unmoved(self) -> TokenView
        recommends
            self is Word,
    {
        TokenView::Word { text: self->Word_text, range: self.range() }
    }

    /// Whether the symbol is a placeholder.
    pub open spec fn is_placeholder(self) -> bool {
        !(self is Word)
    }
}

/// The views of a sequence of symbols.
pub open spec fn symbol_views(symbols: Seq<Symbol>) -> Seq<SymbolView> {
    symbols.map_values(|s: Symbol| s@)
}

impl Symbol {
    /// The position just after the symbol in the source.
    pub fn end_pos(&self) -> (p: Position)
        ensures
            p == self@.range().end_pos,
    {
        match self {
            Symbol::Word { range, .. } => range.end_pos,
            Symbol::Replace { range, .. } => range.end_pos,
            Symbol::Spread { range, .. } => range.end_pos,
        }
    }
}

} // verus!
