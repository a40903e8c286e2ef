//! Located source text: positions, ranges and the nodes a search engine hands
//! over.

use vstd::prelude::*;

verus! {

/// A zero-based line and column in a source file.
#[derive(Clone, Copy, Debug, PartialEq, Eq, Structural)]
pub struct Position {
    pub line: usize,
    pub column: usize,
}

impl Position {
    /// Whether `self` comes no later than `other` in reading order.
    pub open spec fn at_or_before(self, other: Position) -> bool {
        self.line < other.line || (self.line == other.line && self.column <= other.column)
    }
}

/// A half-open interval of byte offsets: `start` is included, `end` is not.
#[derive(Clone, Copy, Debug, PartialEq, Eq, Structural)]
pub struct ByteOffset {
    pub start: usize,
    pub end: usize,
}

/// Where a snippet lies in its source: its byte interval and the positions of
/// its first character and of the character after its last.
#[derive(Clone, Copy, Debug, PartialEq, Eq, Structural)]
pub struct Range {
    pub byte_offset: ByteOffset,
    pub start: Position,
    pub end: Position,
}

impl Range {
    /// The start does not lie behind the end, neither in bytes nor in
    /// reading order.
    pub open spec fn well_formed(self) -> bool {
        &&& self.byte_offset.start <= self.byte_offset.end
        &&& self.start.at_or_before(self.end)
    }
}

/// A syntax node as the search engine reports it: its text and its location.
/// Positions are `(line, column)` pairs.
#[derive(Debug, PartialEq, Eq)]
pub struct Node {
    pub text: String,
    pub start_byte: usize,
    pub end_byte: usize,
    pub start_pos: (usize, usize),
    pub end_pos: (usize, usize),
}

/// The mathematical value of a [`Node`].
pub struct NodeView {
    pub text: Seq<char>,
    pub start_byte: usize,
    pub end_byte: usize,
    pub start_pos: (usize, usize),
    pub end_pos: (usize, usize),
}

impl View for Node {
    type V = NodeView;

    open spec fn view(&self) -> NodeView {
        NodeView {
            text: self.text@,
            start_byte: self.start_byte,
            end_byte: self.end_byte,
            start_pos: self.start_pos,
            end_pos: self.end_pos,
        }
    }
}

impl DeepView for Node {
    type V = NodeView;

    open spec fn deep_view(&self) -> NodeView {
        self@
    }
}

impl NodeView {
    /// The node does not end before it starts, neither in bytes nor in
    /// reading order.
    pub open spec fn well_formed(self) -> bool {
        &&& self.start_byte <= self.end_byte
        &&& (self.start_pos.0 < self.end_pos.0 || (self.start_pos.0 == self.end_pos.0
            && self.start_pos.1 <= self.end_pos.1))
    }

    /// The range that the node's location data describes.
    pub open spec fn range(self) -> Range {
        Range {
            byte_offset: ByteOffset { start: self.start_byte, end: self.end_byte },
            start: Position { line: self.start_pos.0, column: self.start_pos.1 },
            end: Position { line: self.end_pos.0, column: self.end_pos.1 },
        }
    }
}

impl Clone for Node {
    fn clone(&self) -> (copy: Self)
        ensures
            copy@ == self@,
    {
        Node {
            text: self.text.clone(),
            start_byte: self.start_byte,
            end_byte: self.end_byte,
            start_pos: self.start_pos,
            end_pos: self.end_pos,
        }
    }
}

/// The range of a node: its byte interval and its start and end positions,
/// taken over unchanged.
pub fn get_range(n: &Node) -> (range: Range)
    ensures
        range == n@.range(),
        range.well_formed() <==> n@.well_formed(),
{
    let start_pos = n.start_pos;
    let end_pos = n.end_pos;
    Range {
        byte_offset: ByteOffset { start: n.start_byte, end: n.end_byte },
        start: Position { line: start_pos.0, column: start_pos.1 },
        end: Position { line: end_pos.0, column: end_pos.1 },
    }
}

} // verus!
