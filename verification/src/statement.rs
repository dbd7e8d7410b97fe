//! Statements and blocks.

use crate::entries::{distinct_keys, Key};
use crate::json::{json_items_view, json_members_view, Json, JsonView};
use crate::syntax::{all_or_nothing, Kind, Node, NodeView};
use crate::value::{
    clone_values, json_of_values, json_of_values_well_formed, serialize_items, value_of, value_of_well_formed,
    values_view, Value, ValueView,
};
use vstd::prelude::*;

verus! {

/// A statement: a name, arguments in source order, and at most one block.
#[derive(Debug, PartialEq)]
pub struct Statement {
    pub identifier: String,
    pub arguments: Vec<Value>,
    pub block: Option<Block>,
}

/// The body of a statement: its attributes, each a statement, in source
/// order.
#[derive(Debug, PartialEq)]
pub struct Block {
    pub attributes: Vec<Statement>,
}

/// The mathematical model of a [`Statement`].
pub struct StatementView {
    pub identifier: Seq<char>,
    pub arguments: Seq<ValueView>,
    pub block: Option<BlockView>,
}

/// The mathematical model of a [`Block`].
pub struct BlockView {
    pub attributes: Seq<StatementView>,
}

/// The model of a statement.
pub open spec fn statement_view(statement: Statement) -> StatementView
    decreases statement,
{
    StatementView {
        identifier: statement.identifier@,
        arguments: values_view(statement.arguments@),
        block: match statement.block {
            Some(block) => Some(block_view(block)),
            None => None,
        },
    }
}

/// The model of a block.
pub open spec fn block_view(block: Block) -> BlockView
    decreases block,
{
    BlockView { attributes: statements_view(block.attributes@) }
}

/// The models of statements in a sequence.
pub open spec fn statements_view(statements: Seq<Statement>) -> Seq<StatementView>
    decreases statements,
{
    Seq::new(
        statements.len(),
        |i: int|
            if 0 <= i < statements.len() {
                statement_view(statements[i])
            } else {
                arbitrary()
            },
    )
}

impl View for Statement {
    type V = StatementView;

    open spec fn view(&self) -> StatementView {
        statement_view(*self)
    }
}

impl View for Block {
    type V = BlockView;

    open spec fn view(&self) -> BlockView {
        block_view(*self)
    }
}

impl StatementView {
    /// Every argument, of the statement and of the statements in its
    /// block, is well formed.
    pub open spec fn well_formed(self) -> bool
        decreases self,
    {
        &&& forall|i: int| 0 <= i < self.arguments.len() ==> (#[trigger] self.arguments[i]).well_formed()
        &&& match self.block {
            Some(block) => forall|j: int|
                0 <= j < block.attributes.len() ==> (#[trigger] block.attributes[j]).well_formed(),
            None => true,
        }
    }
}

impl BlockView {
    /// Every attribute is well formed.
    pub open spec fn well_formed(self) -> bool {
        forall|j: int| 0 <= j < self.attributes.len() ==> (#[trigger] self.attributes[j]).well_formed()
    }
}

/// The model of a statement that may be missing.
pub open spec fn statement_option_view(statement: Option<Statement>) -> Option<StatementView> {
    match statement {
        Some(s) => Some(s@),
        None => None,
    }
}

/// The model of a block that may be missing.
pub open spec fn block_option_view(block: Option<Block>) -> Option<BlockView> {
    match block {
        Some(b) => Some(b@),
        None => None,
    }
}

/// The statement that a node stands for, or `None` where it stands for
/// none.
///
/// The node is labeled `Statement` and has a first child, whose source text
/// is the name. The children after it give the arguments and the block.
pub open spec fn statement_of(t: NodeView) -> Option<StatementView>
    decreases t, t.children.len() + 1,
{
    if t.kind == Kind::Statement && t.children.len() > 0 {
        match parts_of(t, t.children.len()) {
            Some((arguments, block)) => Some(
                StatementView { identifier: t.children[0].text, arguments, block },
            ),
            None => None,
        }
    } else {
        None
    }
}

/// The arguments and the block that the children of `t` from the second to
/// the `n`-th give. A child labeled `Block` becomes the block, in place of
/// one that came before; every other child is a value and is added to the
/// arguments. `None` where a child stands for neither.
pub open spec fn parts_of(t: NodeView, n: nat) -> Option<(Seq<ValueView>, Option<BlockView>)>
    decreases t, n,
{
    if 1 < n <= t.children.len() {
        let child = t.children[n - 1];
        match parts_of(t, (n - 1) as nat) {
            Some((arguments, block)) => if child.kind == Kind::Block {
                match block_of(child) {
                    Some(b) => Some((arguments, Some(b))),
                    None => None,
                }
            } else {
                match value_of(child) {
                    Some(v) => Some((arguments.push(v), block)),
                    None => None,
                }
            },
            None => None,
        }
    } else {
        Some((Seq::empty(), None))
    }
}

/// The block that a node stands for: the node is labeled `Block`, and each
/// of its children stands for a statement.
pub open spec fn block_of(t: NodeView) -> Option<BlockView>
    decreases t, 1nat,
{
    if t.kind == Kind::Block {
        match all_or_nothing(child_statements(t)) {
            Some(attributes) => Some(BlockView { attributes }),
            None => None,
        }
    } else {
        None
    }
}

/// What each child of `t` stands for as a statement, in order.
pub open spec fn child_statements(t: NodeView) -> Seq<Option<StatementView>>
    decreases t, 0nat,
{
    Seq::new(
        t.children.len(),
        |i: int|
            if 0 <= i < t.children.len() {
                statement_of(t.children[i])
            } else {
                None
            },
    )
}

/// The key under which a statement's name is written.
pub open spec fn name_key() -> Key {
    seq!['$', 'n', 'a', 'm', 'e']
}

/// The key under which a statement's arguments are written.
pub open spec fn args_key() -> Key {
    seq!['$', 'a', 'r', 'g', 's']
}

/// The key under which a statement's block is written.
pub open spec fn block_key() -> Key {
    seq!['$', 'b', 'l', 'o', 'c', 'k']
}

/// The members of the JSON object of a statement: the name; then the
/// arguments, where there are any; then the block, where there is one.
pub open spec fn members_of_statement(s: StatementView) -> Seq<(Key, JsonView)>
    decreases s, 0nat,
{
    seq![(name_key(), JsonView::String(s.identifier))] + (if s.arguments.len() > 0 {
        seq![(args_key(), JsonView::Array(json_of_values(s.arguments)))]
    } else {
        Seq::empty()
    }) + (match s.block {
        Some(block) => seq![(block_key(), json_of_block(block))],
        None => Seq::empty(),
    })
}

/// The JSON tree of a statement: an object.
pub open spec fn json_of_statement(s: StatementView) -> JsonView
    decreases s, 1nat,
{
    JsonView::Object(members_of_statement(s))
}

/// The JSON trees of statements in a sequence, in order.
pub open spec fn json_of_statements(statements: Seq<StatementView>) -> Seq<JsonView>
    decreases statements, 0nat,
{
    Seq::new(
        statements.len(),
        |i: int|
            if 0 <= i < statements.len() {
                json_of_statement(statements[i])
            } else {
                arbitrary()
            },
    )
}

/// The JSON tree of a block: the array of its attributes, with nothing
/// around it.
pub open spec fn json_of_block(b: BlockView) -> JsonView
    decreases b, 0nat,
{
    JsonView::Array(json_of_statements(b.attributes))
}

/// Once a child has failed, the statement has failed.
pub proof fn parts_of_stays_none(t: NodeView, n: nat, m: nat)
    requires
        n <= m <= t.children.len(),
        parts_of(t, n) is None,
    ensures
        parts_of(t, m) is None,
    decreases m,
{
    if n < m {
        parts_of_stays_none(t, n, (m - 1) as nat);
    }
}

/// Every statement that a node stands for is well formed.
pub proof fn statement_of_well_formed(t: NodeView)
    ensures
        statement_of(t) matches Some(s) ==> s.well_formed(),
    decreases t, t.children.len() + 1,
{
    if t.kind == Kind::Statement && t.children.len() > 0 {
        parts_of_well_formed(t, t.children.len());
    }
}

/// The arguments and the block that the children of a node give are well
/// formed.
pub proof fn parts_of_well_formed(t: NodeView, n: nat)
    ensures
        parts_of(t, n) matches Some((arguments, block)) ==> {
            &&& forall|i: int| 0 <= i < arguments.len() ==> (#[trigger] arguments[i]).well_formed()
            &&& block matches Some(b) ==> b.well_formed()
        },
    decreases t, n,
{
    if 1 < n <= t.children.len() {
        let child = t.children[n - 1];
        parts_of_well_formed(t, (n - 1) as nat);
        if child.kind == Kind::Block {
            block_of_well_formed(child);
        } else {
            value_of_well_formed(child);
        }
    }
}

/// Every block that a node stands for is well formed.
pub proof fn block_of_well_formed(t: NodeView)
    ensures
        block_of(t) matches Some(b) ==> b.well_formed(),
    decreases t, 1nat,
{
    if let Some(b) = block_of(t) {
        assert forall|j: int| 0 <= j < b.attributes.len() implies (#[trigger] b.attributes[j]).well_formed() by {
            assert(child_statements(t)[j] is Some);
            statement_of_well_formed(t.children[j]);
        }
    }
}

/// The JSON tree of a well-formed statement is well formed: no object in
/// it holds a key twice.
pub proof fn json_of_statement_well_formed(s: StatementView)
    requires
        s.well_formed(),
    ensures
        json_of_statement(s).well_formed(),
    decreases s,
{
    let members = members_of_statement(s);
    assert(name_key()[1] == 'n' && args_key()[1] == 'a' && block_key()[1] == 'b');
    json_of_values_well_formed(s.arguments);
    match s.block {
        Some(block) => {
            json_of_statements_well_formed(block.attributes);
        },
        None => {},
    }
    assert(distinct_keys(members));
    assert forall|i: int| 0 <= i < members.len() implies (#[trigger] members[i]).1.well_formed() by {}
}

/// The JSON trees of well-formed statements are well formed.
pub proof fn json_of_statements_well_formed(statements: Seq<StatementView>)
    requires
        forall|j: int| 0 <= j < statements.len() ==> (#[trigger] statements[j]).well_formed(),
    ensures
        JsonView::Array(json_of_statements(statements)).well_formed(),
    decreases statements,
{
    let items = json_of_statements(statements);
    assert forall|j: int| 0 <= j < items.len() implies (#[trigger] items[j]).well_formed() by {
        assert(statements[j].well_formed());
        json_of_statement_well_formed(statements[j]);
    }
}

impl Statement {
    /// Converts a node of the syntax tree into the statement that it stands
    /// for; `None` where it stands for none. Nothing is returned of a
    /// statement of which an argument or a block fails.
    pub fn from_pair(pair: &Node) -> (r: Option<Statement>)
        ensures
            statement_option_view(r) == statement_of(pair@),
            r matches Some(statement) ==> statement@.well_formed(),
        decreases pair,
    {
        proof {
            pair.view_children();
            statement_of_well_formed(pair@);
        }
        if pair.kind != Kind::Statement {
            return None;
        }
        if pair.children.len() == 0 {
            return None;
        }
        let identifier = pair.children[0].text.clone();
        let mut arguments: Vec<Value> = Vec::new();
        let mut block: Option<Block> = None;
        let mut i: usize = 1;
        assert(values_view(arguments@) =~= Seq::empty());
        while i < pair.children.len()
            invariant
                1 <= i <= pair.children.len(),
                parts_of(pair@, i as nat) == Some((values_view(arguments@), block_option_view(block))),
            decreases pair.children.len() - i,
        {
            proof {
                pair.view_children();
            }
            let child = &pair.children[i];
            let ghost before = values_view(arguments@);
            if child.kind == Kind::Block {
                match Block::from_pair(child) {
                    Some(b) => {
                        block = Some(b);
                    },
                    None => {
                        proof {
                            parts_of_stays_none(pair@, (i + 1) as nat, pair@.children.len());
                        }
                        return None;
                    },
                }
            } else {
                match Value::from_pair(child) {
                    Some(v) => {
                        arguments.push(v);
                        assert(values_view(arguments@) =~= before.push(v@));
                    },
                    None => {
                        proof {
                            parts_of_stays_none(pair@, (i + 1) as nat, pair@.children.len());
                        }
                        return None;
                    },
                }
            }
            i = i + 1;
        }
        Some(Statement { identifier, arguments, block })
    }

    /// The JSON tree of the statement: an object with the name under
    /// `$name`, the arguments under `$args` where there are any, and the
    /// block under `$block` where there is one, in this order.
    pub fn serialize(&self) -> (json: Json)
        ensures
            json@ == json_of_statement(self@),
            self@.well_formed() ==> json@.well_formed(),
        decreases self,
    {
        proof {
            if self@.well_formed() {
                json_of_statement_well_formed(self@);
            }
        }
        let mut members: Vec<(String, Json)> = Vec::new();
        proof {
            reveal_strlit("$name");
            reveal_strlit("$args");
            reveal_strlit("$block");
            assert("$name"@ =~= name_key());
            assert("$args"@ =~= args_key());
            assert("$block"@ =~= block_key());
        }
        members.push(("$name".to_owned(), Json::String(self.identifier.clone())));
        if self.arguments.len() > 0 {
            members.push(("$args".to_owned(), Json::Array(serialize_items(&self.arguments))));
        }
        match &self.block {
            Some(block) => {
                members.push(("$block".to_owned(), block.serialize()));
            },
            None => {},
        }
        assert(json_members_view(members@) =~= members_of_statement(self@));
        Json::Object(members)
    }
}

/// The JSON trees of statements in a sequence.
pub(crate) fn serialize_statements(statements: &Vec<Statement>) -> (out: Vec<Json>)
    ensures
        json_items_view(out@) == json_of_statements(statements_view(statements@)),
    decreases statements,
{
    let mut out: Vec<Json> = Vec::new();
    let mut i: usize = 0;
    while i < statements.len()
        invariant
            i <= statements.len(),
            out.len() == i,
            forall|j: int| 0 <= j < i ==> (#[trigger] out@[j])@ == json_of_statement(statements@[j]@),
        decreases statements.len() - i,
    {
        out.push(statements[i].serialize());
        i = i + 1;
    }
    assert(json_items_view(out@) =~= json_of_statements(statements_view(statements@)));
    out
}

impl Block {
    /// Converts a node of the syntax tree into the block that it stands
    /// for; `None` where the node is no block or one of its children is no
    /// statement.
    pub fn from_pair(pair: &Node) -> (r: Option<Block>)
        ensures
            block_option_view(r) == block_of(pair@),
            r matches Some(block) ==> block@.well_formed(),
        decreases pair,
    {
        proof {
            block_of_well_formed(pair@);
        }
        if pair.kind != Kind::Block {
            return None;
        }
        let mut attributes: Vec<Statement> = Vec::new();
        let mut i: usize = 0;
        while i < pair.children.len()
            invariant
                i <= pair.children.len(),
                attributes.len() == i,
                forall|j: int|
                    0 <= j < i ==> #[trigger] child_statements(pair@)[j] == Some(attributes@[j]@),
            decreases pair.children.len() - i,
        {
            proof {
                pair.view_children();
            }
            match Statement::from_pair(&pair.children[i]) {
                Some(statement) => {
                    attributes.push(statement);
                },
                None => {
                    assert(child_statements(pair@)[i as int] is None);
                    return None;
                },
            }
            i = i + 1;
        }
        assert(all_or_nothing(child_statements(pair@)).unwrap() =~= statements_view(attributes@));
        Some(Block { attributes })
    }

    /// The JSON tree of the block: the array of its attributes.
    pub fn serialize(&self) -> (json: Json)
        ensures
            json@ == json_of_block(self@),
            self@.well_formed() ==> json@.well_formed(),
        decreases self,
    {
        proof {
            if self@.well_formed() {
                json_of_statements_well_formed(self@.attributes);
            }
        }
        Json::Array(serialize_statements(&self.attributes))
    }
}

impl Clone for Statement {
    /// A copy of the statement.
    fn clone(&self) -> (copy: Statement)
        ensures
            copy@ == self@,
        decreases self,
    {
        Statement {
            identifier: self.identifier.clone(),
            arguments: clone_values(&self.arguments),
            block: match &self.block {
                Some(block) => Some(block.clone()),
                None => None,
            },
        }
    }
}

impl Clone for Block {
    /// A copy of the block.
    fn clone(&self) -> (copy: Block)
        ensures
            copy@ == self@,
        decreases self,
    {
        Block { attributes: clone_statements(&self.attributes) }
    }
}

/// Copies of statements in a sequence.
pub(crate) fn clone_statements(statements: &Vec<Statement>) -> (out: Vec<Statement>)
    ensures
        statements_view(out@) == statements_view(statements@),
    decreases statements,
{
    let mut out: Vec<Statement> = Vec::new();
    let mut i: usize = 0;
    while i < statements.len()
        invariant
            i <= statements.len(),
            out.len() == i,
            forall|j: int| 0 <= j < i ==> (#[trigger] out@[j])@ == statements@[j]@,
        decreases statements.len() - i,
    {
        out.push(statements[i].clone());
        i = i + 1;
    }
    assert(statements_view(out@) =~= statements_view(statements@));
    out
}

} // verus!
