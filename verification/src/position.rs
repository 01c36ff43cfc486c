//! Places in a text.

use crate::text::{decimal, push_decimal};
use vstd::prelude::*;
use vstd::std_specs::convert::FromSpecImpl;

verus! {

/// A place in a text: a line and a column on it, both counted from 0.
#[derive(PartialEq, Eq, Structural, Clone, Copy, Debug)]
pub struct Position {
    pub line: usize,
    pub column: usize,
}

/// The half-open interval `[start_pos, end_pos)`: `end_pos` is the first
/// position after what the range holds.
#[derive(PartialEq, Eq, Structural, Clone, Copy, Debug)]
pub struct Range {
    pub start_pos: Position,
    pub end_pos: Position,
}

impl Position {
    /// The order of positions: by line, then by column.
    pub open spec fn le(self, other: Position) -> bool {
        self.line < other.line || (self.line == other.line && self.column <= other.column)
    }

    /// The position as it stands in a message: `line:column`.
    pub open spec fn described(self) -> Seq<char> {
        decimal(self.line as nat) + seq![':'] + decimal(self.column as nat)
    }

    /// Appends the position to `text` as `line:column`.
    pub fn describe_to(&self, text: &mut String)
        ensures
            final(text)@ == old(text)@ + self.described(),
    {
        push_decimal(text, self.line);
        text.push(':');
        push_decimal(text, self.column);
        assert(text@ =~= old(text)@ + self.described());
    }

    /// The position as `line:column`.
    pub fn describe(&self) -> (text: String)
        ensures
            text@ == self.described(),
    {
        let mut text = String::new();
        self.describe_to(&mut text);
        assert(Seq::<char>::empty() + self.described() =~= self.described());
        text
    }

    /// The position one column to the right, as a mathematical value.
    pub open spec fn spec_next(self) -> Position {
        Position { line: self.line, column: (self.column + 1) as usize }
    }

    /// The position one column to the right.
    pub fn next(&self) -> (p: Position)
        requires
            self.column < usize::MAX,
        ensures
            p == self.spec_next(),
            p.line == self.line,
            p.column == self.column + 1,
    {
        Position { line: self.line, column: self.column + 1 }
    }
}

impl Range {
    /// A range lies on one line and does not end before it starts.
    pub open spec fn well_formed(self) -> bool {
        self.start_pos.line == self.end_pos.line && self.start_pos.column <= self.end_pos.column
    }

    /// The number of columns that the range covers.
    pub open spec fn width(self) -> int {
        self.end_pos.column - self.start_pos.column
    }

    /// The range as it stands in a message: its start, a colon, its end.
    pub open spec fn described(self) -> Seq<char> {
        self.start_pos.described() + seq![':'] + self.end_pos.described()
    }

    /// Appends the range to `text`: its start, a colon, its end.
    pub fn describe_to(&self, text: &mut String)
        ensures
            final(text)@ == old(text)@ + self.described(),
    {
        self.start_pos.describe_to(text);
        text.push(':');
        self.end_pos.describe_to(text);
        assert(text@ =~= old(text)@ + self.described());
    }

    /// The range as text: its start, a colon, its end.
    pub fn describe(&self) -> (text: String)
        ensures
            text@ == self.described(),
    {
        let mut text = String::new();
        self.describe_to(&mut text);
        assert(Seq::<char>::empty() + self.described() =~= self.described());
        text
    }

    /// The range of the single character at `pos`, as a mathematical value.
    pub open spec fn spec_at(pos: Position) -> Range {
        Range { start_pos: pos, end_pos: pos.spec_next() }
    }

    /// The range `[pos, pos + 1)` of the single character at `pos`.
    pub fn at(pos: &Position) -> (r: Range)
        requires
            pos.column < usize::MAX,
        ensures
            r == Range::spec_at(*pos),
            r.well_formed(),
    {
        Range { start_pos: *pos, end_pos: pos.next() }
    }
}

impl<'a> From<(&'a Position, &'a Position)> for Range {
    fn from(value: (&'a Position, &'a Position)) -> (r: Range) {
        Range { start_pos: *value.0, end_pos: *value.1 }
    }
}

impl<'a> FromSpecImpl<(&'a Position, &'a Position)> for Range {
    open spec fn obeys_from_spec() -> bool {
        true
    }

    open spec fn from_spec(value: (&'a Position, &'a Position)) -> Range {
        Range { start_pos: *value.0, end_pos: *value.1 }
    }
}

} // verus!
