//! Entries of a delivery payload: identifiers, link placeholders and raw
//! field values, and how they are read out of a JSON payload.

use vstd::prelude::*;
use crate::json::{Json, JsonValue};
use crate::seqs::{is_first_at, lemma_position_absent, lemma_position_found, position};
use crate::text::str_eq;

verus! {

/// What a link points at.
#[derive(Clone, Copy, Debug, PartialEq, Eq)]
pub enum LinkKind {
    Entry,
    Asset,
}

/// The link kind that a `linkType` tag names.
pub open spec fn link_kind_of(tag: Seq<char>) -> Option<LinkKind> {
    if tag == "Entry"@ {
        Some(LinkKind::Entry)
    } else if tag == "Asset"@ {
        Some(LinkKind::Asset)
    } else {
        None
    }
}

impl LinkKind {
    /// Reads a `linkType` tag.
    pub fn from_tag(tag: &str) -> (kind: Option<LinkKind>)
        ensures
            kind == link_kind_of(tag@),
    {
        if str_eq(tag, "Entry") {
            Some(LinkKind::Entry)
        } else if str_eq(tag, "Asset") {
            Some(LinkKind::Asset)
        } else {
            None
        }
    }
}

/// The identity of an entry or asset: its kind and its backend identifier.
#[derive(Debug, PartialEq, Eq)]
pub struct NodeKey {
    pub kind: LinkKind,
    pub id: String,
}

/// The mathematical value of a [`NodeKey`].
pub struct NodeKeyView {
    pub kind: LinkKind,
    pub id: Seq<char>,
}

impl DeepView for NodeKey {
    type V = NodeKeyView;

    open spec fn deep_view(&self) -> NodeKeyView {
        NodeKeyView { kind: self.kind, id: self.id@ }
    }
}

impl View for NodeKey {
    type V = NodeKeyView;

    open spec fn view(&self) -> NodeKeyView {
        self.deep_view()
    }
}

impl Clone for NodeKey {
    fn clone(&self) -> (copy: NodeKey)
        ensures
            copy == *self,
    {
        NodeKey { kind: self.kind, id: self.id.clone() }
    }
}

impl NodeKey {
    /// Whether two keys name the same node.
    pub fn same_as(&self, other: &NodeKey) -> (same: bool)
        ensures
            same == (self@ == other@),
    {
        let same_kind = match (self.kind, other.kind) {
            (LinkKind::Entry, LinkKind::Entry) => true,
            (LinkKind::Asset, LinkKind::Asset) => true,
            _ => false,
        };
        same_kind && self.id == other.id
    }
}

/// The raw value of one field of an entry.
#[derive(Debug, PartialEq)]
pub enum FieldValue {
    /// Anything that is not a link: carried through unchanged.
    Leaf(Json),
    /// A single link placeholder.
    Link(NodeKey),
    /// A non-empty array made of link placeholders only.
    Links(Vec<NodeKey>),
}

/// The mathematical value of a [`FieldValue`].
pub enum FieldValueView {
    Leaf(JsonValue),
    Link(NodeKeyView),
    Links(Seq<NodeKeyView>),
}

impl FieldValueView {
    /// The link targets that the value holds, in order.
    pub open spec fn targets(self) -> Seq<NodeKeyView> {
        match self {
            FieldValueView::Leaf(_) => Seq::empty(),
            FieldValueView::Link(k) => seq![k],
            FieldValueView::Links(ks) => ks,
        }
    }
}

impl DeepView for FieldValue {
    type V = FieldValueView;

    open spec fn deep_view(&self) -> FieldValueView {
        match self {
            FieldValue::Leaf(j) => FieldValueView::Leaf(j@),
            FieldValue::Link(k) => FieldValueView::Link(k@),
            FieldValue::Links(ks) => FieldValueView::Links(ks.deep_view()),
        }
    }
}

impl View for FieldValue {
    type V = FieldValueView;

    open spec fn view(&self) -> FieldValueView {
        self.deep_view()
    }
}

/// One field of an entry, as the payload holds it.
#[derive(Debug, PartialEq)]
pub struct EntryField {
    pub id: String,
    pub value: FieldValue,
}

/// The mathematical value of an [`EntryField`].
pub struct EntryFieldView {
    pub id: Seq<char>,
    pub value: FieldValueView,
}

impl DeepView for EntryField {
    type V = EntryFieldView;

    open spec fn deep_view(&self) -> EntryFieldView {
        EntryFieldView { id: self.id@, value: self.value@ }
    }
}

impl View for EntryField {
    type V = EntryFieldView;

    open spec fn view(&self) -> EntryFieldView {
        self.deep_view()
    }
}

/// An entry or asset of the payload, before resolution.
#[derive(Debug, PartialEq)]
pub struct Entry {
    pub key: NodeKey,
    /// Identifier of the entry's content type, where it has one.
    pub content_type: Option<String>,
    pub fields: Vec<EntryField>,
}

/// The mathematical value of an [`Entry`].
pub struct EntryView {
    pub key: NodeKeyView,
    pub content_type: Option<Seq<char>>,
    pub fields: Seq<EntryFieldView>,
}

impl EntryView {
    /// The identifiers of the fields, in payload order.
    pub open spec fn field_ids(self) -> Seq<Seq<char>> {
        self.fields.map_values(|f: EntryFieldView| f.id)
    }

    /// The value of the first field with the given identifier.
    pub open spec fn field_value(self, id: Seq<char>) -> Option<FieldValueView> {
        match position(self.field_ids(), id) {
            Some(i) => Some(self.fields[i].value),
            None => None,
        }
    }
}

impl DeepView for Entry {
    type V = EntryView;

    open spec fn deep_view(&self) -> EntryView {
        EntryView {
            key: self.key@,
            content_type: self.content_type.deep_view(),
            fields: self.fields.deep_view(),
        }
    }
}

impl View for Entry {
    type V = EntryView;

    open spec fn view(&self) -> EntryView {
        self.deep_view()
    }
}

impl Entry {
    /// The value of the first field with the given identifier.
    pub fn field_value(&self, id: &str) -> (found: Option<&FieldValue>)
        ensures
            found.deep_view() == self@.field_value(id@),
    {
        let mut i: usize = 0;
        while i < self.fields.len()
            invariant
                i <= self.fields.len(),
                self@.field_ids().len() == self.fields.len(),
                forall|j: int| 0 <= j < i ==> self@.field_ids()[j] != id@,
            decreases self.fields.len() - i,
        {
            if str_eq(self.fields[i].id.as_str(), id) {
                proof {
                    assert(self@.field_ids()[i as int] == id@);
                    assert(is_first_at(self@.field_ids(), id@, i as int));
                    lemma_position_found(self@.field_ids(), id@, i as int);
                }
                return Some(&self.fields[i].value);
            }
            i += 1;
        }
        proof {
            lemma_position_absent(self@.field_ids(), id@);
        }
        None
    }
}

/// A query result: the top-level entries and the pool of included ones.
#[derive(Debug, PartialEq)]
pub struct Payload {
    pub items: Vec<Entry>,
    pub includes: Vec<Entry>,
}

/// The mathematical value of a [`Payload`].
pub struct PayloadView {
    pub items: Seq<EntryView>,
    pub includes: Seq<EntryView>,
}

impl PayloadView {
    /// Every entry that a link can resolve to: the top level first, then the pool.
    pub open spec fn nodes(self) -> Seq<EntryView> {
        self.items + self.includes
    }
}

impl DeepView for Payload {
    type V = PayloadView;

    open spec fn deep_view(&self) -> PayloadView {
        PayloadView { items: self.items.deep_view(), includes: self.includes.deep_view() }
    }
}

impl View for Payload {
    type V = PayloadView;

    open spec fn view(&self) -> PayloadView {
        self.deep_view()
    }
}

} // verus!
