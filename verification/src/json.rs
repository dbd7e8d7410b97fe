//! The JSON tree that a document is written as.

use crate::entries::{distinct_keys, Key};
use vstd::prelude::*;

verus! {

/// A JSON value. The members of an object stand in the order in which they
/// are written out.
#[derive(Debug, PartialEq)]
pub enum Json {
    Boolean(bool),
    /// A double, by its IEEE 754 bit pattern.
    Number(u64),
    String(String),
    Array(Vec<Json>),
    Object(Vec<(String, Json)>),
}

/// The mathematical model of a [`Json`] value.
pub enum JsonView {
    Boolean(bool),
    Number(u64),
    String(Seq<char>),
    Array(Seq<JsonView>),
    Object(Seq<(Key, JsonView)>),
}

/// The model of a JSON value.
pub open spec fn json_view(json: Json) -> JsonView
    decreases json,
{
    match json {
        Json::Boolean(b) => JsonView::Boolean(b),
        Json::Number(bits) => JsonView::Number(bits),
        Json::String(s) => JsonView::String(s@),
        Json::Array(items) => JsonView::Array(json_items_view(items@)),
        Json::Object(members) => JsonView::Object(json_members_view(members@)),
    }
}

/// The models of JSON values in a sequence.
pub open spec fn json_items_view(items: Seq<Json>) -> Seq<JsonView>
    decreases items,
{
    Seq::new(
        items.len(),
        |i: int|
            if 0 <= i < items.len() {
                json_view(items[i])
            } else {
                arbitrary()
            },
    )
}

/// The models of the members of a JSON object.
pub open spec fn json_members_view(members: Seq<(String, Json)>) -> Seq<(Key, JsonView)>
    decreases members,
{
    Seq::new(
        members.len(),
        |i: int|
            if 0 <= i < members.len() {
                (members[i].0@, json_view(members[i].1))
            } else {
                arbitrary()
            },
    )
}

impl JsonView {
    /// Every object in the tree, at any depth, holds each key once.
    pub open spec fn well_formed(self) -> bool
        decreases self,
    {
        match self {
            JsonView::Array(items) => forall|i: int|
                0 <= i < items.len() ==> (#[trigger] items[i]).well_formed(),
            JsonView::Object(members) => distinct_keys(members) && forall|i: int|
                0 <= i < members.len() ==> (#[trigger] members[i]).1.well_formed(),
            _ => true,
        }
    }
}

impl View for Json {
    type V = JsonView;

    open spec fn view(&self) -> JsonView {
        json_view(*self)
    }
}

impl Clone for Json {
    /// A copy of the tree.
    fn clone(&self) -> (copy: Json)
        ensures
            copy@ == self@,
        decreases self,
    {
        match self {
            Json::Boolean(b) => Json::Boolean(*b),
            Json::Number(bits) => Json::Number(*bits),
            Json::String(s) => Json::String(s.clone()),
            Json::Array(items) => Json::Array(clone_items(items)),
            Json::Object(members) => Json::Object(clone_members(members)),
        }
    }
}

/// Copies of JSON values in a sequence.
fn clone_items(items: &Vec<Json>) -> (out: Vec<Json>)
    ensures
        json_items_view(out@) == json_items_view(items@),
    decreases items,
{
    let mut out: Vec<Json> = Vec::new();
    let mut i: usize = 0;
    while i < items.len()
        invariant
            i <= items.len(),
            out.len() == i,
            forall|j: int| 0 <= j < i ==> (#[trigger] out@[j])@ == items@[j]@,
        decreases items.len() - i,
    {
        out.push(items[i].clone());
        i = i + 1;
    }
    assert(json_items_view(out@) =~= json_items_view(items@));
    out
}

/// Copies of the members of an object.
fn clone_members(members: &Vec<(String, Json)>) -> (out: Vec<(String, Json)>)
    ensures
        json_members_view(out@) == json_members_view(members@),
    decreases members,
{
    let mut out: Vec<(String, Json)> = Vec::new();
    let mut i: usize = 0;
    while i < members.len()
        invariant
            i <= members.len(),
            out.len() == i,
            forall|j: int|
                0 <= j < i ==> (#[trigger] out@[j]).0@ == members@[j].0@ && out@[j].1@ == members@[j].1@,
        decreases members.len() - i,
    {
        out.push((members[i].0.clone(), members[i].1.clone()));
        i = i + 1;
    }
    assert(json_members_view(out@) =~= json_members_view(members@));
    out
}

} // verus!
