//! The syntax tree that the grammar engine hands over.

use vstd::prelude::*;

verus! {

/// The label of a node: which rule of the grammar produced it.
///
/// Only the labels that the conversion reads have a variant of their own;
/// every other rule of the grammar is `Other`.
#[derive(Clone, Copy, Debug, PartialEq, Eq, Structural)]
pub enum Kind {
    /// The root: statements, then the end-of-input marker.
    Document,
    /// Marks the end of the input inside a document.
    EndOfInput,
    /// A name, its arguments and at most one block.
    Statement,
    /// The body of a statement between braces.
    Block,
    /// A bare name.
    Identifier,
    /// Wraps a literal or a collection.
    Value,
    /// Wraps a boolean, a number or a string.
    Literal,
    /// Wraps an array or a mapping.
    Collection,
    /// A boolean; its child says which.
    Boolean,
    BooleanTrue,
    BooleanFalse,
    /// A number; its child holds the digits and says in which radix.
    Number,
    /// Binary digits.
    NumberBin,
    /// Hexadecimal digits.
    NumberHex,
    /// A decimal floating-point literal.
    NumberDecimal,
    /// A string literal; its child holds the text between the delimiters.
    String,
    StringInner,
    /// A sequence of values.
    Array,
    /// A sequence of key and value pairs.
    Mapping,
    /// One key with its value.
    MapPair,
    /// Any other rule of the grammar.
    Other,
}

/// A node of the syntax tree.
#[derive(Debug, PartialEq)]
pub struct Node {
    pub kind: Kind,
    /// The source text that the node spans.
    pub text: String,
    /// For a `NumberDecimal` node: the IEEE 754 double that `text` denotes
    /// as a floating-point literal, by its bit pattern, or `None` where
    /// `text` is no such literal. This crate does no floating-point
    /// arithmetic, so whoever builds the tree reads the literal. Not read
    /// on nodes of any other kind.
    pub decimal: Option<u64>,
    /// The children in source order.
    pub children: Vec<Node>,
}

/// The mathematical model of a [`Node`].
pub struct NodeView {
    pub kind: Kind,
    pub text: Seq<char>,
    pub decimal: Option<u64>,
    pub children: Seq<NodeView>,
}

/// The model of a node: its own fields, and the models of its children.
pub open spec fn node_view(node: Node) -> NodeView
    decreases node,
{
    NodeView {
        kind: node.kind,
        text: node.text@,
        decimal: node.decimal,
        children: Seq::new(
            node.children@.len(),
            |i: int|
                if 0 <= i < node.children@.len() {
                    node_view(node.children@[i])
                } else {
                    arbitrary()
                },
        ),
    }
}

impl View for Node {
    type V = NodeView;

    open spec fn view(&self) -> NodeView {
        node_view(*self)
    }
}

impl NodeView {
    /// The first child, if there is one.
    pub open spec fn first(self) -> Option<NodeView> {
        if self.children.len() > 0 {
            Some(self.children[0])
        } else {
            None
        }
    }
}

/// The members of `s`, where all of them are there; `None` where one is
/// missing.
pub open spec fn all_or_nothing<T>(s: Seq<Option<T>>) -> Option<Seq<T>> {
    if forall|i: int| 0 <= i < s.len() ==> (#[trigger] s[i]) is Some {
        Some(Seq::new(s.len(), |i: int| s[i].unwrap()))
    } else {
        None
    }
}

impl Node {
    /// A node without children.
    pub fn leaf(kind: Kind, text: &str) -> (node: Node)
        ensures
            node@ == (NodeView { kind, text: text@, decimal: None, children: Seq::empty() }),
    {
        let node = Node { kind, text: text.to_owned(), decimal: None, children: Vec::new() };
        assert(node@.children =~= Seq::empty());
        node
    }

    /// A node with the given children.
    pub fn branch(kind: Kind, text: &str, children: Vec<Node>) -> (node: Node)
        ensures
            node@.kind == kind,
            node@.text == text@,
            node@.decimal == None::<u64>,
            node@.children.len() == children@.len(),
            forall|i: int| 0 <= i < children@.len() ==> node@.children[i] == children@[i]@,
    {
        Node { kind, text: text.to_owned(), decimal: None, children }
    }

    /// What the view of a node says of its children.
    pub proof fn view_children(&self)
        ensures
            self@.children.len() == self.children@.len(),
            forall|i: int| 0 <= i < self.children@.len() ==> self@.children[i] == self.children@[i]@,
    {
        assert(self@.children.len() == self.children@.len());
    }
}

impl Clone for Node {
    /// A copy of the node and of all below it.
    fn clone(&self) -> (copy: Node)
        ensures
            copy@ == self@,
        decreases self,
    {
        let mut children: Vec<Node> = Vec::new();
        let mut i: usize = 0;
        while i < self.children.len()
            invariant
                i <= self.children.len(),
                children.len() == i,
                forall|j: int| 0 <= j < i ==> (#[trigger] children@[j])@ == self.children@[j]@,
            decreases self.children.len() - i,
        {
            children.push(self.children[i].clone());
            i = i + 1;
        }
        let copy = Node { kind: self.kind, text: self.text.clone(), decimal: self.decimal, children };
        assert(copy@.children =~= self@.children);
        copy
    }
}

} // verus!
