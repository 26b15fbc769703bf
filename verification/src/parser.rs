//! The instruction set and the mapping from characters to instructions.

use vstd::prelude::*;

verus! {

/// A node in the abstract syntax tree of the Mojikun language.
#[derive(Clone, Copy, Debug, PartialEq, Eq, Structural)]
pub enum Node {
    /// 👈: Move the data pointer one cell to the left
    PointLeft,
    /// 👉: Move the data pointer one cell to the right
    PointRight,
    /// 👍: Increment the memory cell under the pointer
    ThumbsUp,
    /// 👎: Decrement the memory cell under the pointer
    ThumbsDown,
    /// 💾: Input a character and store it in the cell at the pointer
    Save,
    /// 💻: Output the character signified by the cell at the pointer
    Display,
    /// 🔃: Jump past the matching 🔙 if the cell under the pointer is 0
    Loop,
    /// 🔙: Jump back to the matching 🔃 if the cell under the pointer is nonzero
    EndLoop,
    /// Any other character; it has no effect.
    NoOp,
}

/// The instruction that a single character stands for.
pub open spec fn node_of(token: char) -> Node {
    if token == '👈' {
        Node::PointLeft
    } else if token == '👉' {
        Node::PointRight
    } else if token == '👍' {
        Node::ThumbsUp
    } else if token == '👎' {
        Node::ThumbsDown
    } else if token == '💾' {
        Node::Save
    } else if token == '💻' {
        Node::Display
    } else if token == '🔃' {
        Node::Loop
    } else if token == '🔙' {
        Node::EndLoop
    } else {
        Node::NoOp
    }
}

/// The instructions that a sequence of characters stands for, one per character.
pub open spec fn nodes_of(tokens: Seq<char>) -> Seq<Node> {
    Seq::new(tokens.len(), |i: int| node_of(tokens[i]))
}

/// Decodes one character.
pub fn decode(token: char) -> (node: Node)
    ensures
        node == node_of(token),
{
    match token {
        '👈' => Node::PointLeft,
        '👉' => Node::PointRight,
        '👍' => Node::ThumbsUp,
        '👎' => Node::ThumbsDown,
        '💾' => Node::Save,
        '💻' => Node::Display,
        '🔃' => Node::Loop,
        '🔙' => Node::EndLoop,
        _ => Node::NoOp,
    }
}

/// Returns a vector of `Node`s corresponding to the specified `tokens`.
pub fn parse(tokens: Vec<char>) -> (ast: Vec<Node>)
    ensures
        ast@ == nodes_of(tokens@),
{
    let mut ast: Vec<Node> = Vec::with_capacity(tokens.len());
    let mut i: usize = 0;
    while i < tokens.len()
        invariant
            i <= tokens.len(),
            ast@ == nodes_of(tokens@.take(i as int)),
        decreases tokens.len() - i,
    {
        ast.push(decode(tokens[i]));
        i += 1;
    }
    assert(tokens@.take(i as int) == tokens@);
    ast
}

} // verus!
