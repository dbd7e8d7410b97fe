//! Documents: the statements of one source file.

use crate::json::{Json, JsonView};
use crate::statement::{
    child_statements, clone_statements, json_of_statements, json_of_statements_well_formed, serialize_statements, statement_of_well_formed,
    statements_view, Statement, StatementView,
};
use crate::syntax::{all_or_nothing, Kind, Node, NodeView};
use vstd::prelude::*;

verus! {

/// A document: its statements in source order.
#[derive(Debug, PartialEq)]
pub struct Document {
    pub statements: Vec<Statement>,
}

/// The mathematical model of a [`Document`].
pub struct DocumentView {
    pub statements: Seq<StatementView>,
}

impl DocumentView {
    /// Every statement is well formed.
    pub open spec fn well_formed(self) -> bool {
        forall|j: int| 0 <= j < self.statements.len() ==> (#[trigger] self.statements[j]).well_formed()
    }
}

impl View for Document {
    type V = DocumentView;

    open spec fn view(&self) -> DocumentView {
        DocumentView { statements: statements_view(self.statements@) }
    }
}

/// The model of a document that may be missing.
pub open spec fn document_option_view(document: Option<Document>) -> Option<DocumentView> {
    match document {
        Some(d) => Some(d@),
        None => None,
    }
}

/// Whether `end` is where the body of a document ends: at the first child
/// labeled `EndOfInput`, or behind the last child where none is.
pub open spec fn is_body_end(children: Seq<NodeView>, end: int) -> bool {
    &&& 0 <= end <= children.len()
    &&& end < children.len() ==> children[end].kind == Kind::EndOfInput
    &&& forall|j: int| 0 <= j < end ==> (#[trigger] children[j]).kind != Kind::EndOfInput
}

/// The number of children before the end of the body.
pub open spec fn body_len(children: Seq<NodeView>) -> int {
    choose|end: int| is_body_end(children, end)
}

/// The document that a node stands for: the node is labeled `Document`, and
/// each of its children before the end-of-input marker stands for a
/// statement. What comes after the marker is not read.
pub open spec fn document_of(t: NodeView) -> Option<DocumentView> {
    if t.kind == Kind::Document {
        match all_or_nothing(child_statements(t).take(body_len(t.children))) {
            Some(statements) => Some(DocumentView { statements }),
            None => None,
        }
    } else {
        None
    }
}

/// The JSON tree of a document: the array of its statements.
pub open spec fn json_of_document(d: DocumentView) -> JsonView {
    JsonView::Array(json_of_statements(d.statements))
}

/// The body of a document ends somewhere.
proof fn body_end_exists(children: Seq<NodeView>, n: int)
    requires
        0 <= n <= children.len(),
        forall|j: int| 0 <= j < n ==> (#[trigger] children[j]).kind != Kind::EndOfInput,
    ensures
        exists|end: int| is_body_end(children, end),
    decreases children.len() - n,
{
    if n == children.len() || children[n].kind == Kind::EndOfInput {
        assert(is_body_end(children, n));
    } else {
        body_end_exists(children, n + 1);
    }
}

/// The body of a document ends in one place only: `body_len` is the index
/// of the first end-of-input marker, or the number of children where there
/// is no marker.
pub proof fn body_len_is(children: Seq<NodeView>, end: int)
    requires
        is_body_end(children, end),
    ensures
        body_len(children) == end,
{
    let chosen = body_len(children);
    assert(is_body_end(children, chosen));
    if chosen < end {
        assert(children[chosen].kind != Kind::EndOfInput);
    } else if end < chosen {
        assert(children[end].kind != Kind::EndOfInput);
    }
}

/// `body_len` is where the body ends.
pub proof fn body_len_ends(children: Seq<NodeView>)
    ensures
        is_body_end(children, body_len(children)),
{
    body_end_exists(children, 0);
}

/// Every document that a node stands for is well formed.
pub proof fn document_of_well_formed(t: NodeView)
    ensures
        document_of(t) matches Some(d) ==> d.well_formed(),
{
    if let Some(d) = document_of(t) {
        body_len_ends(t.children);
        let body = child_statements(t).take(body_len(t.children));
        assert forall|j: int| 0 <= j < d.statements.len() implies (#[trigger] d.statements[j]).well_formed() by {
            assert(body[j] is Some);
            statement_of_well_formed(t.children[j]);
        }
    }
}

/// The JSON tree of a well-formed document is well formed: no object in it
/// holds a key twice.
pub proof fn json_of_document_well_formed(d: DocumentView)
    requires
        d.well_formed(),
    ensures
        json_of_document(d).well_formed(),
{
    json_of_statements_well_formed(d.statements);
}

impl Document {
    /// Converts the root of the syntax tree into the document that it
    /// stands for; `None` where the root is no document or one of its
    /// statements fails. Children after the end-of-input marker are not
    /// read.
    pub fn from_pair(pair: &Node) -> (r: Option<Document>)
        ensures
            document_option_view(r) == document_of(pair@),
            r matches Some(document) ==> document@.well_formed(),
    {
        proof {
            document_of_well_formed(pair@);
        }
        if pair.kind != Kind::Document {
            return None;
        }
        let mut statements: Vec<Statement> = Vec::new();
        let mut i: usize = 0;
        proof {
            pair.view_children();
        }
        while i < pair.children.len()
            invariant
                statements.len() == i,
                i <= pair.children.len(),
                forall|j: int| 0 <= j < i ==> (#[trigger] pair@.children[j]).kind != Kind::EndOfInput,
                forall|j: int|
                    0 <= j < i ==> #[trigger] child_statements(pair@)[j] == Some(statements@[j]@),
            ensures
                is_body_end(pair@.children, i as int),
            decreases pair.children.len() - i,
        {
            proof {
                pair.view_children();
            }
            let child = &pair.children[i];
            if child.kind == Kind::EndOfInput {
                break ;
            }
            match Statement::from_pair(child) {
                Some(statement) => {
                    statements.push(statement);
                },
                None => {
                    proof {
                        body_len_ends(pair@.children);
                        let end = body_len(pair@.children);
                        if end <= i {
                            assert(pair@.children[end].kind != Kind::EndOfInput);
                        }
                        let body = child_statements(pair@).take(end);
                        assert(body[i as int] is None);
                    }
                    return None;
                },
            }
            i = i + 1;
        }
        proof {
            body_len_is(pair@.children, i as int);
            let body = child_statements(pair@).take(i as int);
            assert forall|j: int| 0 <= j < body.len() implies (#[trigger] body[j]) is Some by {
                assert(child_statements(pair@)[j] is Some);
            }
            assert(all_or_nothing(body).unwrap() =~= statements_view(statements@));
        }
        Some(Document { statements })
    }

    /// The JSON tree of the document: the array of its statements.
    pub fn serialize(&self) -> (json: Json)
        ensures
            json@ == json_of_document(self@),
            self@.well_formed() ==> json@.well_formed(),
    {
        proof {
            if self@.well_formed() {
                json_of_document_well_formed(self@);
            }
        }
        Json::Array(serialize_statements(&self.statements))
    }
}

impl Clone for Document {
    /// A copy of the document.
    fn clone(&self) -> (copy: Document)
        ensures
            copy@ == self@,
    {
        Document { statements: clone_statements(&self.statements) }
    }
}

} // verus!
