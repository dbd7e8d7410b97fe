//! What holds of conversion and serialization as a whole.

use crate::document::{body_len, body_len_ends, document_of, json_of_document};
use crate::entries::{as_map, distinct_keys, has_key, index_of_key, index_of_key_unique, upsert_is_insert, Key};
use crate::json::JsonView;
use crate::statement::{
    args_key, block_key, block_of, child_statements, json_of_block, json_of_statement, members_of_statement,
    name_key, parts_of, parts_of_stays_none, statement_of, StatementView,
};
use crate::syntax::{Kind, Node, NodeView};
use crate::value::{entries_of, entries_of_well_formed, entry_of, json_of_value, json_of_values, key_of, value_of};
use vstd::prelude::*;

verus! {

/// The JSON tree that a syntax tree is written as: that of the document
/// that the tree stands for, or `None` where it stands for none.
pub open spec fn json_of_tree(t: NodeView) -> Option<JsonView> {
    match document_of(t) {
        Some(document) => Some(json_of_document(document)),
        None => None,
    }
}

/// Conversion followed by serialization is deterministic: two syntax trees
/// with the same content, wherever they are held, are written as the same
/// JSON tree, or both as none.
pub proof fn same_tree_same_json(a: Node, b: Node)
    requires
        a@ == b@,
    ensures
        document_of(a@) == document_of(b@),
        json_of_tree(a@) == json_of_tree(b@),
{
}

/// The members of a statement's object. The name always comes first. A
/// statement without arguments has no `$args` member, and one with
/// arguments has it, holding the JSON tree of each argument in source order.
/// A statement without a block has no `$block` member, and one with a block
/// has it, holding the block's array. No key stands twice.
pub proof fn empty_omission(s: StatementView)
    ensures
        json_of_statement(s) == JsonView::Object(members_of_statement(s)),
        members_of_statement(s).len() == 1 + (if s.arguments.len() > 0 {
            1int
        } else {
            0int
        }) + (if s.block is Some {
            1int
        } else {
            0int
        }),
        members_of_statement(s)[0] == (name_key(), JsonView::String(s.identifier)),
        has_key(members_of_statement(s), args_key()) <==> s.arguments.len() > 0,
        s.arguments.len() > 0 ==> members_of_statement(s)[1] == (
            args_key(),
            JsonView::Array(json_of_values(s.arguments)),
        ),
        json_of_values(s.arguments).len() == s.arguments.len(),
        forall|i: int|
            0 <= i < s.arguments.len() ==> #[trigger] json_of_values(s.arguments)[i] == json_of_value(
                s.arguments[i],
            ),
        has_key(members_of_statement(s), block_key()) <==> s.block is Some,
        s.block matches Some(block) ==> members_of_statement(s).last() == (block_key(), json_of_block(block)),
        distinct_keys(members_of_statement(s)),
{
    let members = members_of_statement(s);
    assert(name_key()[1] == 'n' && args_key()[1] == 'a' && block_key()[1] == 'b');
    assert(name_key() != args_key());
    assert(name_key() != block_key());
    assert(args_key() != block_key());
    assert(members[0].0 == name_key());
    if s.arguments.len() > 0 {
        assert(members[1].0 == args_key());
    }
    if s.block is Some {
        assert(members[members.len() - 1].0 == block_key());
    }
}

/// A key is the same however it is spelled: a bare identifier and a string
/// literal of the same text give the same key.
pub proof fn key_spelling(bare: NodeView, quoted: NodeView)
    requires
        bare.kind == Kind::Identifier,
        quoted.kind == Kind::String,
        quoted.children.len() > 0,
        quoted.children[0].kind == Kind::StringInner,
        quoted.children[0].text == bare.text,
    ensures
        key_of(bare) == Some(bare.text),
        key_of(quoted) == key_of(bare),
{
}

/// Two pairs that differ in the spelling of the key only write the same
/// key with the same value.
pub proof fn pair_spelling(bare: NodeView, quoted: NodeView)
    requires
        bare.children.len() >= 2,
        quoted.children.len() >= 2,
        bare.children[1] == quoted.children[1],
        bare.children[0].children.len() >= 1,
        quoted.children[0].children.len() >= 1,
        key_of(bare.children[0].children[0]) == key_of(quoted.children[0].children[0]),
    ensures
        entry_of(bare) == entry_of(quoted),
{
}

/// The last write wins: each `MapPair` among the children of a mapping
/// node inserts its key with its value into the map that the children
/// before it have written, over the value that the key had there.
pub proof fn later_pair_wins(t: NodeView, n: nat)
    requires
        0 < n <= t.children.len(),
        t.children[n - 1].kind == Kind::MapPair,
        entries_of(t, n) is Some,
    ensures
        entries_of(t, (n - 1) as nat) is Some,
        entry_of(t.children[n - 1]) is Some,
        as_map(entries_of(t, n).unwrap()) == as_map(entries_of(t, (n - 1) as nat).unwrap()).insert(
            entry_of(t.children[n - 1]).unwrap().0,
            entry_of(t.children[n - 1]).unwrap().1,
        ),
{
    entries_of_well_formed(t, (n - 1) as nat);
    let before = entries_of(t, (n - 1) as nat).unwrap();
    let (key, value) = entry_of(t.children[n - 1]).unwrap();
    upsert_is_insert(before, key, value);
}

/// A child of a mapping node that is no `MapPair` writes nothing.
pub proof fn other_children_write_nothing(t: NodeView, n: nat)
    requires
        0 < n <= t.children.len(),
        t.children[n - 1].kind != Kind::MapPair,
    ensures
        entries_of(t, n) == entries_of(t, (n - 1) as nat),
{
}

/// The node that `path` leads to from a statement node, where that node is
/// an argument of the statement or of a statement nested in its blocks.
///
/// A path of one index leads to the child of that index, which is an
/// argument where it comes after the name and is no block. A longer path
/// starts with the index of a block among the children and the index of a
/// statement in that block, and goes on from that statement.
pub open spec fn argument_at(statement: NodeView, path: Seq<int>) -> Option<NodeView>
    decreases path.len(),
{
    if path.len() == 0 || !(1 <= path[0] < statement.children.len()) {
        None
    } else {
        let child = statement.children[path[0]];
        if path.len() == 1 {
            if child.kind != Kind::Block {
                Some(child)
            } else {
                None
            }
        } else if child.kind == Kind::Block && 0 <= path[1] < child.children.len() {
            argument_at(child.children[path[1]], path.skip(2))
        } else {
            None
        }
    }
}

/// A child that fails makes the statement fail.
pub proof fn statement_fails_with_child(t: NodeView, i: int)
    requires
        1 <= i < t.children.len(),
        if t.children[i].kind == Kind::Block {
            block_of(t.children[i]) is None
        } else {
            value_of(t.children[i]) is None
        },
    ensures
        statement_of(t) is None,
{
    assert(parts_of(t, (i + 1) as nat) is None);
    parts_of_stays_none(t, (i + 1) as nat, t.children.len());
}

/// A statement that fails makes the block around it fail.
pub proof fn block_fails_with_child(t: NodeView, j: int)
    requires
        0 <= j < t.children.len(),
        statement_of(t.children[j]) is None,
    ensures
        block_of(t) is None,
{
    assert(child_statements(t)[j] is None);
}

/// A statement before the end-of-input marker that fails makes the
/// document fail.
pub proof fn document_fails_with_child(t: NodeView, k: int)
    requires
        0 <= k < body_len(t.children),
        statement_of(t.children[k]) is None,
    ensures
        document_of(t) is None,
{
    body_len_ends(t.children);
    assert(child_statements(t).take(body_len(t.children))[k] is None);
}

/// Failure propagates: an argument that stands for no value, at any depth
/// of blocks below a statement, makes that statement fail.
pub proof fn failure_reaches_statement(statement: NodeView, path: Seq<int>)
    requires
        argument_at(statement, path) matches Some(argument) && value_of(argument) is None,
    ensures
        statement_of(statement) is None,
    decreases path.len(),
{
    let child = statement.children[path[0]];
    if path.len() > 1 {
        failure_reaches_statement(child.children[path[1]], path.skip(2));
        block_fails_with_child(child, path[1]);
    }
    statement_fails_with_child(statement, path[0]);
}

/// Failure propagates to the top: an argument that stands for no value, at
/// any depth below a statement of the document's body, makes the whole
/// document fail, so that no JSON tree is written.
pub proof fn failure_reaches_document(document: NodeView, k: int, path: Seq<int>)
    requires
        0 <= k < body_len(document.children),
        argument_at(document.children[k], path) matches Some(argument) && value_of(argument) is None,
    ensures
        document_of(document) is None,
        json_of_tree(document) is None,
{
    failure_reaches_statement(document.children[k], path);
    document_fails_with_child(document, k);
}

/// The number of arguments among the children of `t` from the second to the
/// `n`-th: those that are not labeled `Block`.
pub open spec fn arguments_before(t: NodeView, n: nat) -> nat
    decreases n,
{
    if 1 < n <= t.children.len() {
        arguments_before(t, (n - 1) as nat) + if t.children[n - 1].kind != Kind::Block {
            1nat
        } else {
            0nat
        }
    } else {
        0
    }
}

/// Arguments keep the order of the source: there is one argument for each
/// child after the name that is not labeled `Block`, it is the value that
/// the child stands for, and it stands behind the arguments of the
/// children before it.
pub proof fn arguments_keep_order(t: NodeView, n: nat)
    requires
        n <= t.children.len(),
        parts_of(t, n) is Some,
    ensures
        parts_of(t, n).unwrap().0.len() == arguments_before(t, n),
        forall|i: int|
            1 <= i < n && t.children[i].kind != Kind::Block ==> arguments_before(t, i as nat)
                < arguments_before(t, n) && value_of(#[trigger] t.children[i]) == Some(
                parts_of(t, n).unwrap().0[arguments_before(t, i as nat) as int],
            ),
    decreases n,
{
    if 1 < n {
        arguments_keep_order(t, (n - 1) as nat);
    }
}

/// What a converted statement holds: the text of the first child as its
/// name, and one argument for each later child that is no block, in
/// source order.
pub proof fn statement_holds_its_source(t: NodeView)
    requires
        statement_of(t) is Some,
    ensures
        t.kind == Kind::Statement,
        t.children.len() > 0,
        statement_of(t).unwrap().identifier == t.children[0].text,
        statement_of(t).unwrap().arguments.len() == arguments_before(t, t.children.len()),
        forall|i: int|
            1 <= i < t.children.len() && t.children[i].kind != Kind::Block ==> value_of(
                #[trigger] t.children[i],
            ) == Some(statement_of(t).unwrap().arguments[arguments_before(t, i as nat) as int]),
        statement_of(t).unwrap().block is Some <==> last_block(t, t.children.len()) is Some,
{
    arguments_keep_order(t, t.children.len());
    block_is_last_block(t, t.children.len());
}

/// The last child labeled `Block` among the children of `t` from the second
/// to the `n`-th.
pub open spec fn last_block(t: NodeView, n: nat) -> Option<NodeView>
    decreases n,
{
    if 1 < n <= t.children.len() {
        if t.children[n - 1].kind == Kind::Block {
            Some(t.children[n - 1])
        } else {
            last_block(t, (n - 1) as nat)
        }
    } else {
        None
    }
}

/// The block of a statement is that of the last child labeled `Block`, and
/// there is none where no child is labeled so.
pub proof fn block_is_last_block(t: NodeView, n: nat)
    requires
        parts_of(t, n) is Some,
    ensures
        parts_of(t, n).unwrap().1 == (match last_block(t, n) {
            Some(b) => block_of(b),
            None => None,
        }),
        last_block(t, n) matches Some(b) ==> block_of(b) is Some,
    decreases n,
{
    if 1 < n <= t.children.len() {
        block_is_last_block(t, (n - 1) as nat);
    }
}

/// The attributes of a block are the statements of the children of its
/// node, one for one and in order.
pub proof fn attributes_are_children(t: NodeView)
    requires
        block_of(t) is Some,
    ensures
        block_of(t).unwrap().attributes.len() == t.children.len(),
        forall|j: int|
            0 <= j < t.children.len() ==> statement_of(#[trigger] t.children[j]) == Some(
                block_of(t).unwrap().attributes[j],
            ),
{
    assert forall|j: int| 0 <= j < t.children.len() implies statement_of(#[trigger] t.children[j])
        == Some(block_of(t).unwrap().attributes[j]) by {
        assert(child_statements(t)[j] is Some);
    }
}

/// The statement that `path` leads to from a statement of the document:
/// each index picks an attribute of the block of the statement at hand.
pub open spec fn attribute_at(s: StatementView, path: Seq<int>) -> Option<StatementView>
    decreases path.len(),
{
    if path.len() == 0 {
        Some(s)
    } else {
        match s.block {
            Some(block) if 0 <= path[0] < block.attributes.len() => attribute_at(
                block.attributes[path[0]],
                path.skip(1),
            ),
            _ => None,
        }
    }
}

/// The same descent in the syntax tree: each index picks a child of the
/// last child labeled `Block` of the statement node at hand.
pub open spec fn node_attribute_at(t: NodeView, path: Seq<int>) -> Option<NodeView>
    decreases path.len(),
{
    if path.len() == 0 {
        Some(t)
    } else {
        match last_block(t, t.children.len()) {
            Some(block) if 0 <= path[0] < block.children.len() => node_attribute_at(
                block.children[path[0]],
                path.skip(1),
            ),
            _ => None,
        }
    }
}

/// The member of a JSON object under `key`.
pub open spec fn member(members: Seq<(Key, JsonView)>, key: Key) -> Option<JsonView> {
    if has_key(members, key) {
        Some(members[index_of_key(members, key)].1)
    } else {
        None
    }
}

/// The same descent in a JSON tree: each index picks an item of the array
/// under `$block` of the object at hand.
pub open spec fn json_attribute_at(json: JsonView, path: Seq<int>) -> Option<JsonView>
    decreases path.len(),
{
    if path.len() == 0 {
        Some(json)
    } else {
        match json {
            JsonView::Object(members) => match member(members, block_key()) {
                Some(JsonView::Array(items)) if 0 <= path[0] < items.len() => json_attribute_at(
                    items[path[0]],
                    path.skip(1),
                ),
                _ => None,
            },
            _ => None,
        }
    }
}

/// Conversion keeps the nesting of the source: where a statement node is
/// converted, a descent through its blocks reaches a statement exactly
/// where the same descent in the syntax tree reaches a node, and that
/// statement is the one that the node stands for.
pub proof fn conversion_keeps_nesting(t: NodeView, path: Seq<int>)
    requires
        statement_of(t) is Some,
    ensures
        attribute_at(statement_of(t).unwrap(), path) == (match node_attribute_at(t, path) {
            Some(node) => statement_of(node),
            None => None,
        }),
        node_attribute_at(t, path) matches Some(node) ==> statement_of(node) is Some,
    decreases path.len(),
{
    if path.len() > 0 {
        block_is_last_block(t, t.children.len());
        match last_block(t, t.children.len()) {
            Some(block) => {
                attributes_are_children(block);
                if 0 <= path[0] < block.children.len() {
                    conversion_keeps_nesting(block.children[path[0]], path.skip(1));
                }
            },
            None => {},
        }
    }
}

/// Serialization keeps the nesting of the document: a descent through the
/// `$block` arrays of a statement's object reaches an object exactly where
/// the same descent through the blocks reaches a statement, and that
/// object is the one of that statement. So blocks nested to some depth are
/// written as `$block` arrays nested to the same depth.
pub proof fn serialization_keeps_nesting(s: StatementView, path: Seq<int>)
    ensures
        json_attribute_at(json_of_statement(s), path) == (match attribute_at(s, path) {
            Some(attribute) => Some(json_of_statement(attribute)),
            None => None,
        }),
    decreases path.len(),
{
    if path.len() > 0 {
        let members = members_of_statement(s);
        empty_omission(s);
        match s.block {
            Some(block) => {
                index_of_key_unique(members, block_key(), members.len() - 1);
                if 0 <= path[0] < block.attributes.len() {
                    serialization_keeps_nesting(block.attributes[path[0]], path.skip(1));
                }
            },
            None => {},
        }
    }
}

} // verus!
