//! Values: booleans, numbers, strings, arrays and mappings.

use crate::entries::{distinct_keys, has_key, index_of_key, index_of_key_unique, upsert, upsert_is_insert, Key};
use crate::json::{json_items_view, json_members_view, Json, JsonView};
use crate::number::{double_bits, double_of, i32_from_str_radix, radix_value};
use crate::syntax::{all_or_nothing, Kind, Node, NodeView};
use vstd::prelude::*;

verus! {

/// A value of the language.
#[derive(Debug, PartialEq)]
pub enum Value {
    Boolean(bool),
    /// A double, by its IEEE 754 bit pattern. Literals of every radix end
    /// up here.
    Number(u64),
    String(String),
    Array(Vec<Value>),
    /// Keys with their values. Each key stands once; the pairs keep the
    /// order in which their keys first came.
    Mapping(Vec<(String, Value)>),
}

/// The mathematical model of a [`Value`].
pub enum ValueView {
    Boolean(bool),
    Number(u64),
    String(Seq<char>),
    Array(Seq<ValueView>),
    Mapping(Seq<(Key, ValueView)>),
}

/// The model of a value.
pub open spec fn value_view(value: Value) -> ValueView
    decreases value,
{
    match value {
        Value::Boolean(b) => ValueView::Boolean(b),
        Value::Number(bits) => ValueView::Number(bits),
        Value::String(s) => ValueView::String(s@),
        Value::Array(items) => ValueView::Array(values_view(items@)),
        Value::Mapping(entries) => ValueView::Mapping(entries_view(entries@)),
    }
}

/// The models of values in a sequence.
pub open spec fn values_view(items: Seq<Value>) -> Seq<ValueView>
    decreases items,
{
    Seq::new(
        items.len(),
        |i: int|
            if 0 <= i < items.len() {
                value_view(items[i])
            } else {
                arbitrary()
            },
    )
}

/// The models of the pairs of a mapping.
pub open spec fn entries_view(entries: Seq<(String, Value)>) -> Seq<(Key, ValueView)>
    decreases entries,
{
    Seq::new(
        entries.len(),
        |i: int|
            if 0 <= i < entries.len() {
                (entries[i].0@, value_view(entries[i].1))
            } else {
                arbitrary()
            },
    )
}

impl View for Value {
    type V = ValueView;

    open spec fn view(&self) -> ValueView {
        value_view(*self)
    }
}

/// The model of a value that may be missing.
pub open spec fn value_option_view(value: Option<Value>) -> Option<ValueView> {
    match value {
        Some(v) => Some(v@),
        None => None,
    }
}

impl ValueView {
    /// Every mapping in the value, at any depth, holds each key once.
    pub open spec fn well_formed(self) -> bool
        decreases self,
    {
        match self {
            ValueView::Array(items) => forall|i: int|
                0 <= i < items.len() ==> (#[trigger] items[i]).well_formed(),
            ValueView::Mapping(entries) => distinct_keys(entries) && forall|i: int|
                0 <= i < entries.len() ==> (#[trigger] entries[i]).1.well_formed(),
            _ => true,
        }
    }
}

/// The boolean that a `Boolean` node stands for: its first child says
/// which.
pub open spec fn boolean_of(t: NodeView) -> Option<ValueView> {
    match t.first() {
        Some(child) => match child.kind {
            Kind::BooleanTrue => Some(ValueView::Boolean(true)),
            Kind::BooleanFalse => Some(ValueView::Boolean(false)),
            _ => None,
        },
        None => None,
    }
}

/// The number that a `Number` node stands for. Its first child holds the
/// digits. Binary and hexadecimal digits write a signed 32-bit integer,
/// which becomes the double of the same value; a decimal literal is the
/// double that the node carries.
pub open spec fn number_of(t: NodeView) -> Option<ValueView> {
    match t.first() {
        Some(child) => match child.kind {
            Kind::NumberBin => match radix_value(child.text, 2) {
                Some(v) => Some(ValueView::Number(double_of(v as int))),
                None => None,
            },
            Kind::NumberHex => match radix_value(child.text, 16) {
                Some(v) => Some(ValueView::Number(double_of(v as int))),
                None => None,
            },
            Kind::NumberDecimal => match child.decimal {
                Some(bits) => Some(ValueView::Number(bits)),
                None => None,
            },
            _ => None,
        },
        None => None,
    }
}

/// The text of a `String` node: the text of its first child, which holds
/// what stands between the delimiters.
pub open spec fn string_text_of(t: NodeView) -> Option<Seq<char>> {
    match t.first() {
        Some(child) => match child.kind {
            Kind::StringInner => Some(child.text),
            _ => None,
        },
        None => None,
    }
}

/// The key that a key node stands for: the text of a string literal, or
/// the source text of a bare identifier.
pub open spec fn key_of(k: NodeView) -> Option<Key> {
    match k.kind {
        Kind::String => string_text_of(k),
        Kind::Identifier => Some(k.text),
        _ => None,
    }
}

/// The value that a node stands for, or `None` where it stands for none.
///
/// `Value`, `Literal` and `Collection` nodes are wrappers and stand for what
/// their first child stands for. An array stands for the values of all its
/// children, a mapping for the pairs among its children. A node of any other
/// kind stands for no value.
pub open spec fn value_of(t: NodeView) -> Option<ValueView>
    decreases t, t.children.len() + 1,
{
    match t.kind {
        Kind::Value | Kind::Literal | Kind::Collection => if t.children.len() > 0 {
            value_of(t.children[0])
        } else {
            None
        },
        Kind::Boolean => boolean_of(t),
        Kind::Number => number_of(t),
        Kind::String => match string_text_of(t) {
            Some(s) => Some(ValueView::String(s)),
            None => None,
        },
        Kind::Array => match all_or_nothing(child_values(t)) {
            Some(items) => Some(ValueView::Array(items)),
            None => None,
        },
        Kind::Mapping => match entries_of(t, t.children.len()) {
            Some(entries) => Some(ValueView::Mapping(entries)),
            None => None,
        },
        _ => None,
    }
}

/// What each child of `t` stands for, in order.
pub open spec fn child_values(t: NodeView) -> Seq<Option<ValueView>>
    decreases t, 0nat,
{
    Seq::new(
        t.children.len(),
        |i: int|
            if 0 <= i < t.children.len() {
                value_of(t.children[i])
            } else {
                None
            },
    )
}

/// The values of all children of `t`, in order; `None` where one of them
/// stands for no value.
pub open spec fn items_of(t: NodeView) -> Option<Seq<ValueView>> {
    all_or_nothing(child_values(t))
}

/// The key and the value of a `MapPair` node. The key node is the first
/// child of the pair's first child; the value node is the pair's second
/// child.
pub open spec fn entry_of(p: NodeView) -> Option<(Key, ValueView)>
    decreases p, 0nat,
{
    if p.children.len() >= 2 && p.children[0].children.len() >= 1 {
        match (key_of(p.children[0].children[0]), value_of(p.children[1])) {
            (Some(key), Some(value)) => Some((key, value)),
            _ => None,
        }
    } else {
        None
    }
}

/// The mapping that the first `n` children of `t` write: each `MapPair`
/// among them writes its key, a later one over an earlier one; children of
/// other kinds are passed over. `None` where a pair has no key or no value.
pub open spec fn entries_of(t: NodeView, n: nat) -> Option<Seq<(Key, ValueView)>>
    decreases t, n,
{
    if 0 < n <= t.children.len() {
        let p = t.children[n - 1];
        match entries_of(t, (n - 1) as nat) {
            Some(entries) => if p.kind == Kind::MapPair {
                match entry_of(p) {
                    Some((key, value)) => Some(upsert(entries, key, value)),
                    None => None,
                }
            } else {
                Some(entries)
            },
            None => None,
        }
    } else {
        Some(Seq::empty())
    }
}

/// The JSON tree of a value: booleans, numbers and strings as themselves,
/// an array as the array of its items, a mapping as an object with one
/// member for each pair, in the order of the pairs.
pub open spec fn json_of_value(v: ValueView) -> JsonView
    decreases v,
{
    match v {
        ValueView::Boolean(b) => JsonView::Boolean(b),
        ValueView::Number(bits) => JsonView::Number(bits),
        ValueView::String(s) => JsonView::String(s),
        ValueView::Array(items) => JsonView::Array(json_of_values(items)),
        ValueView::Mapping(entries) => JsonView::Object(json_of_entries(entries)),
    }
}

/// The JSON trees of values in a sequence, in order.
pub open spec fn json_of_values(items: Seq<ValueView>) -> Seq<JsonView>
    decreases items,
{
    Seq::new(
        items.len(),
        |i: int|
            if 0 <= i < items.len() {
                json_of_value(items[i])
            } else {
                arbitrary()
            },
    )
}

/// The members that the pairs of a mapping become, in order: each key with
/// the JSON tree of its value.
pub open spec fn json_of_entries(entries: Seq<(Key, ValueView)>) -> Seq<(Key, JsonView)>
    decreases entries,
{
    Seq::new(
        entries.len(),
        |i: int|
            if 0 <= i < entries.len() {
                (entries[i].0, json_of_value(entries[i].1))
            } else {
                arbitrary()
            },
    )
}


/// Every value that a node stands for is well formed.
pub proof fn value_of_well_formed(t: NodeView)
    ensures
        match value_of(t) {
            Some(v) => v.well_formed(),
            None => true,
        },
    decreases t, t.children.len() + 1,
{
    match t.kind {
        Kind::Value | Kind::Literal | Kind::Collection => {
            if t.children.len() > 0 {
                value_of_well_formed(t.children[0]);
            }
        },
        Kind::Array => {
            if let Some(items) = items_of(t) {
                assert forall|i: int| 0 <= i < items.len() implies (#[trigger] items[i]).well_formed() by {
                    value_of_well_formed(t.children[i]);
                    assert(child_values(t)[i] is Some);
                }
            }
        },
        Kind::Mapping => {
            entries_of_well_formed(t, t.children.len());
        },
        _ => {},
    }
}

/// The pairs that the children of a node write have distinct keys and well
/// formed values.
pub proof fn entries_of_well_formed(t: NodeView, n: nat)
    ensures
        match entries_of(t, n) {
            Some(entries) => ValueView::Mapping(entries).well_formed(),
            None => true,
        },
    decreases t, n,
{
    if 0 < n <= t.children.len() {
        let p = t.children[n - 1];
        entries_of_well_formed(t, (n - 1) as nat);
        if let Some(entries) = entries_of(t, (n - 1) as nat) {
            if p.kind == Kind::MapPair {
                if let Some((key, value)) = entry_of(p) {
                    value_of_well_formed(p.children[1]);
                    upsert_is_insert(entries, key, value);
                    let after = upsert(entries, key, value);
                    assert forall|i: int| 0 <= i < after.len() implies (#[trigger] after[i]).1.well_formed() by {
                        if has_key(entries, key) && i != index_of_key(entries, key) {
                            assert(after[i] == entries[i]);
                        } else if !has_key(entries, key) && i < entries.len() {
                            assert(after[i] == entries[i]);
                        }
                    }
                }
            }
        }
    }
}


/// The JSON tree of a well-formed value is well formed: the object of a
/// mapping holds each key once.
pub proof fn json_of_value_well_formed(v: ValueView)
    requires
        v.well_formed(),
    ensures
        json_of_value(v).well_formed(),
    decreases v,
{
    match v {
        ValueView::Array(items) => {
            json_of_values_well_formed(items);
            assert(JsonView::Array(json_of_values(items)).well_formed());
        },
        ValueView::Mapping(entries) => {
            let members = json_of_entries(entries);
            assert forall|i: int| 0 <= i < members.len() implies (#[trigger] members[i]).1.well_formed() by {
                assert(entries[i].1.well_formed());
                json_of_value_well_formed(entries[i].1);
            }
            assert forall|i: int, j: int| 0 <= i < j < members.len() implies (#[trigger] members[i]).0 != (
            #[trigger] members[j]).0 by {
                assert(entries[i].0 != entries[j].0);
            }
        },
        _ => {},
    }
}

/// The JSON trees of well-formed values are well formed.
pub proof fn json_of_values_well_formed(items: Seq<ValueView>)
    requires
        forall|i: int| 0 <= i < items.len() ==> (#[trigger] items[i]).well_formed(),
    ensures
        forall|i: int| 0 <= i < items.len() ==> (#[trigger] json_of_values(items)[i]).well_formed(),
    decreases items,
{
    assert forall|i: int| 0 <= i < items.len() implies (#[trigger] json_of_values(items)[i]).well_formed() by {
        assert(items[i].well_formed());
        json_of_value_well_formed(items[i]);
    }
}

/// Once a pair among the children has failed, the mapping has failed.
pub proof fn entries_of_stays_none(t: NodeView, n: nat, m: nat)
    requires
        n <= m <= t.children.len(),
        entries_of(t, n) is None,
    ensures
        entries_of(t, m) is None,
    decreases m,
{
    if n < m {
        entries_of_stays_none(t, n, (m - 1) as nat);
    }
}

/// Writes `key` with `value` into `entries`: over the value that the key has
/// there, or as a new pair at the end.
fn upsert_entry(entries: &mut Vec<(String, Value)>, key: String, value: Value)
    requires
        distinct_keys(entries_view(old(entries)@)),
    ensures
        entries_view(final(entries)@) == upsert(entries_view(old(entries)@), key@, value@),
{
    let ghost before = entries_view(entries@);
    let mut i: usize = 0;
    while i < entries.len()
        invariant
            i <= entries.len(),
            entries@ == old(entries)@,
            before == entries_view(entries@),
            distinct_keys(before),
            forall|j: int| 0 <= j < i ==> (#[trigger] before[j]).0 != key@,
        decreases entries.len() - i,
    {
        if entries[i].0 == key {
            proof {
                index_of_key_unique(before, key@, i as int);
            }
            entries.set(i, (key, value));
            assert(entries_view(entries@) =~= before.update(i as int, (key@, value@)));
            return ;
        }
        i = i + 1;
    }
    assert(!has_key(before, key@));
    entries.push((key, value));
    assert(entries_view(entries@) =~= before.push((key@, value@)));
}

/// The boolean of a `Boolean` node.
fn boolean_from(node: &Node) -> (r: Option<Value>)
    ensures
        value_option_view(r) == boolean_of(node@),
{
    proof {
        node.view_children();
    }
    if node.children.len() == 0 {
        return None;
    }
    match node.children[0].kind {
        Kind::BooleanTrue => Some(Value::Boolean(true)),
        Kind::BooleanFalse => Some(Value::Boolean(false)),
        _ => None,
    }
}

/// The number of a `Number` node.
fn number_from(node: &Node) -> (r: Option<Value>)
    ensures
        value_option_view(r) == number_of(node@),
{
    proof {
        node.view_children();
    }
    if node.children.len() == 0 {
        return None;
    }
    let child = &node.children[0];
    match child.kind {
        Kind::NumberBin => match i32_from_str_radix(child.text.as_str(), 2) {
            Some(v) => Some(Value::Number(double_bits(v))),
            None => None,
        },
        Kind::NumberHex => match i32_from_str_radix(child.text.as_str(), 16) {
            Some(v) => Some(Value::Number(double_bits(v))),
            None => None,
        },
        Kind::NumberDecimal => match child.decimal {
            Some(bits) => Some(Value::Number(bits)),
            None => None,
        },
        _ => None,
    }
}

/// The text of a `String` node.
fn string_text_from(node: &Node) -> (r: Option<String>)
    ensures
        match r {
            Some(s) => string_text_of(node@) == Some(s@),
            None => string_text_of(node@) is None,
        },
{
    proof {
        node.view_children();
    }
    if node.children.len() == 0 {
        return None;
    }
    let child = &node.children[0];
    match child.kind {
        Kind::StringInner => Some(child.text.clone()),
        _ => None,
    }
}

/// The key of a key node.
fn key_from(node: &Node) -> (r: Option<String>)
    ensures
        match r {
            Some(s) => key_of(node@) == Some(s@),
            None => key_of(node@) is None,
        },
{
    match node.kind {
        Kind::String => string_text_from(node),
        Kind::Identifier => Some(node.text.clone()),
        _ => None,
    }
}

/// The values of the children of an `Array` node.
fn items_from(node: &Node) -> (r: Option<Vec<Value>>)
    ensures
        match r {
            Some(items) => items_of(node@) == Some(values_view(items@)),
            None => items_of(node@) is None,
        },
    decreases node, 0nat,
{
    let mut items: Vec<Value> = Vec::new();
    let mut i: usize = 0;
    while i < node.children.len()
        invariant
            i <= node.children.len(),
            items.len() == i,
            forall|j: int| 0 <= j < i ==> #[trigger] child_values(node@)[j] == Some(items@[j]@),
        decreases node.children.len() - i,
    {
        proof {
            node.view_children();
        }
        match Value::from_pair(&node.children[i]) {
            Some(value) => {
                items.push(value);
            },
            None => {
                assert(child_values(node@)[i as int] is None);
                return None;
            },
        }
        i = i + 1;
    }
    assert(all_or_nothing(child_values(node@)).unwrap() =~= values_view(items@));
    Some(items)
}

/// The key and the value of a `MapPair` node.
fn entry_from(pair: &Node) -> (r: Option<(String, Value)>)
    ensures
        match r {
            Some((key, value)) => entry_of(pair@) == Some((key@, value@)),
            None => entry_of(pair@) is None,
        },
    decreases pair, 0nat,
{
    proof {
        pair.view_children();
        if pair.children.len() > 0 {
            pair.children[0].view_children();
        }
    }
    if pair.children.len() < 2 {
        return None;
    }
    let holder = &pair.children[0];
    if holder.children.len() < 1 {
        return None;
    }
    let key = match key_from(&holder.children[0]) {
        Some(key) => key,
        None => {
            return None;
        },
    };
    match Value::from_pair(&pair.children[1]) {
        Some(value) => Some((key, value)),
        None => None,
    }
}

/// The pairs that the children of a `Mapping` node write.
fn entries_from(node: &Node) -> (r: Option<Vec<(String, Value)>>)
    ensures
        match r {
            Some(entries) => entries_of(node@, node@.children.len()) == Some(entries_view(entries@)),
            None => entries_of(node@, node@.children.len()) is None,
        },
    decreases node, 0nat,
{
    let mut entries: Vec<(String, Value)> = Vec::new();
    let mut i: usize = 0;
    assert(entries_view(entries@) =~= Seq::empty());
    while i < node.children.len()
        invariant
            i <= node.children.len(),
            entries_of(node@, i as nat) == Some(entries_view(entries@)),
        decreases node.children.len() - i,
    {
        proof {
            node.view_children();
            entries_of_well_formed(node@, i as nat);
        }
        let child = &node.children[i];
        if child.kind == Kind::MapPair {
            match entry_from(child) {
                Some((key, value)) => {
                    upsert_entry(&mut entries, key, value);
                },
                None => {
                    proof {
                        entries_of_stays_none(node@, (i + 1) as nat, node@.children.len());
                    }
                    return None;
                },
            }
        }
        i = i + 1;
    }
    Some(entries)
}

impl Value {
    /// Converts a node of the syntax tree into the value that it stands
    /// for; `None` where it stands for none. Nothing is returned of a node
    /// of which a part fails.
    pub fn from_pair(pair: &Node) -> (r: Option<Value>)
        ensures
            value_option_view(r) == value_of(pair@),
            r matches Some(value) ==> value@.well_formed(),
        decreases pair, 1nat,
    {
        proof {
            value_of_well_formed(pair@);
        }
        proof {
            pair.view_children();
        }
        match pair.kind {
            Kind::Value | Kind::Literal | Kind::Collection => {
                if pair.children.len() > 0 {
                    Value::from_pair(&pair.children[0])
                } else {
                    None
                }
            },
            Kind::Boolean => boolean_from(pair),
            Kind::Number => number_from(pair),
            Kind::String => match string_text_from(pair) {
                Some(s) => Some(Value::String(s)),
                None => None,
            },
            Kind::Array => match items_from(pair) {
                Some(items) => Some(Value::Array(items)),
                None => None,
            },
            Kind::Mapping => match entries_from(pair) {
                Some(entries) => Some(Value::Mapping(entries)),
                None => None,
            },
            _ => None,
        }
    }

    /// The JSON tree of the value.
    pub fn serialize(&self) -> (json: Json)
        ensures
            json@ == json_of_value(self@),
            self@.well_formed() ==> json@.well_formed(),
        decreases self,
    {
        proof {
            if self@.well_formed() {
                json_of_value_well_formed(self@);
            }
        }
        match self {
            Value::Boolean(b) => Json::Boolean(*b),
            Value::Number(bits) => Json::Number(*bits),
            Value::String(s) => Json::String(s.clone()),
            Value::Array(items) => Json::Array(serialize_items(items)),
            Value::Mapping(entries) => Json::Object(serialize_entries(entries)),
        }
    }
}

/// The JSON trees of values in a sequence.
pub(crate) fn serialize_items(items: &Vec<Value>) -> (out: Vec<Json>)
    ensures
        json_items_view(out@) == json_of_values(values_view(items@)),
    decreases items,
{
    let mut out: Vec<Json> = Vec::new();
    let mut i: usize = 0;
    while i < items.len()
        invariant
            i <= items.len(),
            out.len() == i,
            forall|j: int| 0 <= j < i ==> (#[trigger] out@[j])@ == json_of_value(items@[j]@),
        decreases items.len() - i,
    {
        out.push(items[i].serialize());
        i = i + 1;
    }
    assert(json_items_view(out@) =~= json_of_values(values_view(items@)));
    out
}

/// The members that the pairs of a mapping become.
fn serialize_entries(entries: &Vec<(String, Value)>) -> (out: Vec<(String, Json)>)
    ensures
        json_members_view(out@) == json_of_entries(entries_view(entries@)),
    decreases entries,
{
    let mut out: Vec<(String, Json)> = Vec::new();
    let mut i: usize = 0;
    while i < entries.len()
        invariant
            i <= entries.len(),
            out.len() == i,
            forall|j: int|
                0 <= j < i ==> (#[trigger] out@[j]).0@ == entries@[j].0@ && out@[j].1@
                    == json_of_value(entries@[j].1@),
        decreases entries.len() - i,
    {
        out.push((entries[i].0.clone(), entries[i].1.serialize()));
        i = i + 1;
    }
    assert(json_members_view(out@) =~= json_of_entries(entries_view(entries@)));
    out
}

impl Clone for Value {
    /// A copy of the value.
    fn clone(&self) -> (copy: Value)
        ensures
            copy@ == self@,
        decreases self,
    {
        match self {
            Value::Boolean(b) => Value::Boolean(*b),
            Value::Number(bits) => Value::Number(*bits),
            Value::String(s) => Value::String(s.clone()),
            Value::Array(items) => Value::Array(clone_values(items)),
            Value::Mapping(entries) => Value::Mapping(clone_entries(entries)),
        }
    }
}

/// Copies of values in a sequence.
pub(crate) fn clone_values(items: &Vec<Value>) -> (out: Vec<Value>)
    ensures
        values_view(out@) == values_view(items@),
    decreases items,
{
    let mut out: Vec<Value> = Vec::new();
    let mut i: usize = 0;
    while i < items.len()
        invariant
            i <= items.len(),
            out.len() == i,
            forall|j: int| 0 <= j < i ==> (#[trigger] out@[j])@ == items@[j]@,
        decreases items.len() - i,
    {
        out.push(items[i].clone());
        i = i + 1;
    }
    assert(values_view(out@) =~= values_view(items@));
    out
}

/// Copies of the pairs of a mapping.
fn clone_entries(entries: &Vec<(String, Value)>) -> (out: Vec<(String, Value)>)
    ensures
        entries_view(out@) == entries_view(entries@),
    decreases entries,
{
    let mut out: Vec<(String, Value)> = Vec::new();
    let mut i: usize = 0;
    while i < entries.len()
        invariant
            i <= entries.len(),
            out.len() == i,
            forall|j: int|
                0 <= j < i ==> (#[trigger] out@[j]).0@ == entries@[j].0@ && out@[j].1@ == entries@[j].1@,
        decreases entries.len() - i,
    {
        out.push((entries[i].0.clone(), entries[i].1.clone()));
        i = i + 1;
    }
    assert(entries_view(out@) =~= entries_view(entries@));
    out
}

} // verus!
