//! The syntax tree the grammar produces, its ghost-level mirror, and
//! the parse outcome types.

use vstd::prelude::*;
use crate::cursor::InputPointer;
use crate::time::{Instant, TimeDelta};

verus! {

/// The sign between two terms.
#[derive(Clone, Copy, Debug, PartialEq, Eq, Structural)]
pub enum Oper {
    Plus,
    Minus,
}

/// A node of the syntax tree.
#[derive(Debug, PartialEq)]
pub enum Node {
    /// A signed duration literal.
    Duration(TimeDelta),
    /// An absolute instant literal.
    DateTime(Instant),
    /// A sequence of nodes that form an expression and can be
    /// evaluated.
    Expr(Vec<Node>),
    /// A sign applied to one term of an expression.
    OperNode { oper: Oper, node: Box<Node> },
    /// The literal that evaluates to the current moment.
    Now,
    /// A literal string, e.g. whitespace to skip or a function name.
    Literal { literal: String, skip: bool },
    /// A call of a unary function.
    FuncAry1 { name: String, arg1: Box<Node> },
}

/// The mathematical shape of a `Node`: texts as character sequences,
/// times as unbounded integers.
#[verifier::ext_equal]
pub enum NodeV {
    Duration(int),
    DateTime(int, int),
    Expr(Seq<NodeV>),
    OperNode(Oper, Box<NodeV>),
    Now,
    Literal(Seq<char>, bool),
    FuncAry1(Seq<char>, Box<NodeV>),
}

/// The views of a sequence of nodes, in order.
pub open spec fn nodes_view(nodes: Seq<Node>) -> Seq<NodeV>
    decreases nodes,
{
    if nodes.len() == 0 {
        Seq::empty()
    } else {
        nodes_view(nodes.drop_last()).push(nodes.last()@)
    }
}

impl View for Node {
    type V = NodeV;

    open spec fn view(&self) -> NodeV
        decreases self,
    {
        match self {
            Node::Duration(d) => NodeV::Duration(d.nanos as int),
            Node::DateTime(i) => NodeV::DateTime(i.epoch_nanos as int, i.offset_secs as int),
            Node::Expr(children) => NodeV::Expr(nodes_view(children@)),
            Node::OperNode { oper, node } => NodeV::OperNode(*oper, Box::new((**node)@)),
            Node::Now => NodeV::Now,
            Node::Literal { literal, skip } => NodeV::Literal(literal@, *skip),
            Node::FuncAry1 { name, arg1 } => NodeV::FuncAry1(name@, Box::new((**arg1)@)),
        }
    }
}

/// Pointwise description of `nodes_view`, for reasoning by index.
pub proof fn lemma_nodes_view_index(nodes: Seq<Node>)
    ensures
        nodes_view(nodes).len() == nodes.len(),
        forall|i: int| 0 <= i < nodes.len() ==> nodes_view(nodes)[i] == nodes[i]@,
    decreases nodes.len(),
{
    if nodes.len() > 0 {
        lemma_nodes_view_index(nodes.drop_last());
        let prev = nodes_view(nodes.drop_last());
        assert(nodes_view(nodes) == prev.push(nodes.last()@));
        assert(prev.len() == nodes.len() - 1);
        assert(nodes_view(nodes).len() == nodes.len());
        assert forall|i: int| 0 <= i < nodes.len() implies nodes_view(nodes)[i] == nodes[i]@ by {
            if i < nodes.len() - 1 {
                assert(nodes_view(nodes)[i] == nodes_view(nodes.drop_last())[i]);
                assert(nodes.drop_last()[i] == nodes[i]);
            } else {
                assert(nodes_view(nodes)[i] == nodes.last()@);
            }
        }
    }
}

/// A successful parse: the pointer past the consumed input and the
/// produced node.
#[derive(Debug)]
pub struct ParseOk<'a> {
    pub pointer: InputPointer<'a>,
    pub node: Node,
}

/// A failed parse: where matching stopped, and why.
#[derive(Debug)]
pub struct ParseErr<'a> {
    pub pointer: InputPointer<'a>,
    pub message: String,
}

} // verus!
