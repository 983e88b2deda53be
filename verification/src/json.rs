//! A plain JSON value tree and the accessors the resolver needs.

use vstd::prelude::*;
use crate::seqs::{is_first_at, lemma_position_absent, lemma_position_found, position};
use crate::text::str_eq;

verus! {

/// A JSON value. A number that is no 64-bit signed integer keeps its decimal
/// text. An object keeps its members in order, names repeated or not.
#[derive(Debug, PartialEq)]
pub enum Json {
    Null,
    Bool(bool),
    Integer(i64),
    Decimal(String),
    Text(String),
    Array(Vec<Json>),
    Object(Vec<(String, Json)>),
}

/// The mathematical value of a [`Json`].
pub enum JsonValue {
    Null,
    Bool(bool),
    Integer(int),
    Decimal(Seq<char>),
    Text(Seq<char>),
    Array(Seq<JsonValue>),
    Object(Seq<(Seq<char>, JsonValue)>),
}

impl JsonValue {
    /// The names of an object's members, in order; empty for any other value.
    pub open spec fn member_names(self) -> Seq<Seq<char>> {
        match self {
            JsonValue::Object(members) => members.map_values(|m: (Seq<char>, JsonValue)| m.0),
            _ => Seq::empty(),
        }
    }

    /// The value of the first member called `name`, where `self` is an object
    /// that has one.
    pub open spec fn member(self, name: Seq<char>) -> Option<JsonValue> {
        match position(self.member_names(), name) {
            Some(i) => Some(self->Object_0[i].1),
            None => None,
        }
    }

    /// The characters of a text value.
    pub open spec fn text(self) -> Option<Seq<char>> {
        match self {
            JsonValue::Text(s) => Some(s),
            _ => None,
        }
    }

    /// The member called `name`, where it is a text value.
    pub open spec fn text_member(self, name: Seq<char>) -> Option<Seq<char>> {
        match self.member(name) {
            Some(v) => v.text(),
            None => None,
        }
    }
}

impl View for Json {
    type V = JsonValue;

    open spec fn view(&self) -> JsonValue {
        self.deep_view()
    }
}

impl DeepView for Json {
    type V = JsonValue;

    open spec fn deep_view(&self) -> JsonValue
        decreases self,
    {
        match self {
            Json::Null => JsonValue::Null,
            Json::Bool(b) => JsonValue::Bool(*b),
            Json::Integer(n) => JsonValue::Integer(*n as int),
            Json::Decimal(s) => JsonValue::Decimal(s@),
            Json::Text(s) => JsonValue::Text(s@),
            Json::Array(items) => JsonValue::Array(
                Seq::new(
                    items@.len(),
                    |i: int|
                        if 0 <= i < items@.len() {
                            items@[i].deep_view()
                        } else {
                            JsonValue::Null
                        },
                ),
            ),
            Json::Object(members) => JsonValue::Object(
                Seq::new(
                    members@.len(),
                    |i: int|
                        (
                            members@[i].0@,
                            if 0 <= i < members@.len() {
                                members@[i].1.deep_view()
                            } else {
                                JsonValue::Null
                            },
                        ),
                ),
            ),
        }
    }
}

impl Clone for Json {
    /// A deep copy: the same value, held anew.
    fn clone(&self) -> (res: Json)
        ensures
            res@ == self@,
        decreases self,
    {
        match self {
            Json::Null => Json::Null,
            Json::Bool(b) => Json::Bool(*b),
            Json::Integer(n) => Json::Integer(*n),
            Json::Decimal(s) => Json::Decimal(s.clone()),
            Json::Text(s) => Json::Text(s.clone()),
            Json::Array(items) => {
                let mut out: Vec<Json> = Vec::new();
                let mut i: usize = 0;
                while i < items.len()
                    invariant
                        self is Array && self->Array_0 == *items,
                        i <= items.len(),
                        out.len() == i,
                        forall|k: int| 0 <= k < i ==> out@[k]@ == items@[k]@,
                    decreases items.len() - i,
                {
                    assert(decreases_to!(self => self->Array_0[i as int]));
                    let copy = items[i].clone();
                    out.push(copy);
                    i += 1;
                }
                let res = Json::Array(out);
                assert(res@ == self@) by {
                    assert(res@->Array_0 =~= self@->Array_0);
                }
                res
            },
            Json::Object(members) => {
                let mut out: Vec<(String, Json)> = Vec::new();
                let mut i: usize = 0;
                while i < members.len()
                    invariant
                        self is Object && self->Object_0 == *members,
                        i <= members.len(),
                        out.len() == i,
                        forall|k: int|
                            0 <= k < i ==> out@[k].0@ == members@[k].0@ && out@[k].1@
                                == members@[k].1@,
                    decreases members.len() - i,
                {
                    let name = members[i].0.clone();
                    assert(decreases_to!(self => self->Object_0[i as int].1));
                    let copy = members[i].1.clone();
                    out.push((name, copy));
                    i += 1;
                }
                let res = Json::Object(out);
                assert(res@ == self@) by {
                    assert(res@->Object_0 =~= self@->Object_0);
                }
                res
            },
        }
    }
}

impl Json {
    /// The view of an object lists the views of its members.
    pub proof fn lemma_object_view(&self)
        requires
            self is Object,
        ensures
            self@ is Object,
            self@->Object_0.len() == self->Object_0@.len(),
            self@.member_names().len() == self->Object_0@.len(),
            forall|j: int|
                0 <= j < self->Object_0@.len() ==> {
                    &&& (#[trigger] self@->Object_0[j]).0 == self->Object_0@[j].0@
                    &&& self@->Object_0[j].1 == self->Object_0@[j].1@
                    &&& self@.member_names()[j] == self->Object_0@[j].0@
                },
    {
    }

    /// The view of an array lists the views of its items.
    pub proof fn lemma_array_view(&self)
        requires
            self is Array,
        ensures
            self@ is Array,
            self@->Array_0.len() == self->Array_0@.len(),
            forall|j: int|
                0 <= j < self->Array_0@.len() ==> (#[trigger] self@->Array_0[j])
                    == self->Array_0@[j]@,
    {
    }

    /// The value of the first member called `name`, where `self` is an object
    /// that has one.
    pub fn member(&self, name: &str) -> (found: Option<&Json>)
        ensures
            found.deep_view() == self@.member(name@),
    {
        match self {
            Json::Object(members) => {
                let mut i: usize = 0;
                proof {
                    self.lemma_object_view();
                }
                while i < members.len()
                    invariant
                        i <= members.len(),
                        self is Object && self->Object_0 == *members,
                        self@.member_names().len() == members.len(),
                        forall|j: int|
                            0 <= j < members.len() ==> self@.member_names()[j] == members@[j].0@
                                && (#[trigger] self@->Object_0[j]).1 == members@[j].1@,
                        forall|j: int| 0 <= j < i ==> self@.member_names()[j] != name@,
                    decreases members.len() - i,
                {
                    if str_eq(members[i].0.as_str(), name) {
                        proof {
                            assert(self@.member_names()[i as int] == name@);
                            assert(is_first_at(self@.member_names(), name@, i as int));
                            lemma_position_found(self@.member_names(), name@, i as int);
                        }
                        return Some(&members[i].1);
                    }
                    i += 1;
                }
                proof {
                    lemma_position_absent(self@.member_names(), name@);
                }
                None
            },
            _ => {
                proof {
                    lemma_position_absent(self@.member_names(), name@);
                }
                None
            },
        }
    }

    /// The string of a text value.
    pub fn text(&self) -> (found: Option<&String>)
        ensures
            found.deep_view() == self@.text(),
    {
        match self {
            Json::Text(s) => Some(s),
            _ => None,
        }
    }

    /// The member called `name`, where it is a text value.
    pub fn text_member(&self, name: &str) -> (found: Option<&String>)
        ensures
            found.deep_view() == self@.text_member(name@),
    {
        match self.member(name) {
            Some(v) => v.text(),
            None => None,
        }
    }
}

} // verus!
