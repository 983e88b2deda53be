//! Reading a delivery payload out of its JSON envelope. A payload that does
//! not have the expected shape is refused as a whole.

use vstd::prelude::*;
use crate::entry::{
    link_kind_of, Entry, EntryField, EntryFieldView, EntryView, FieldValue, FieldValueView,
    LinkKind, NodeKey, NodeKeyView, Payload, PayloadView,
};
use crate::json::{Json, JsonValue};
use crate::node::ErrorKind;
use crate::seqs::{is_first_at, lemma_position_absent, lemma_position_found, position};
use crate::text::str_eq;

verus! {

/// The part of the payload in which an entry stands.
#[derive(Clone, Copy, Debug, PartialEq, Eq)]
pub enum Section {
    Items,
    IncludedEntries,
    IncludedAssets,
}

/// What is wrong with a single entry.
#[derive(Clone, Copy, Debug, PartialEq, Eq)]
pub enum Problem {
    NotAnObject,
    MissingSys,
    MissingSysId,
    FieldsNotObject,
    MalformedLink,
}

/// A payload whose shape is broken. No part of such a payload is resolved.
#[derive(Clone, Copy, Debug, PartialEq, Eq)]
pub enum StructuralError {
    PayloadNotObject,
    ItemsMissing,
    ItemsNotArray,
    IncludesMalformed,
    Entry { section: Section, index: usize, problem: Problem },
}

impl StructuralError {
    /// A structural fault is the one kind of anomaly that stops a resolution.
    pub fn error_kind(&self) -> (kind: ErrorKind)
        ensures
            kind == ErrorKind::Structure,
    {
        ErrorKind::Structure
    }

    /// What is wrong, in words.
    pub open spec fn spec_describe(self) -> Seq<char> {
        match self {
            StructuralError::PayloadNotObject => "the payload is not an object"@,
            StructuralError::ItemsMissing => "the payload has no items"@,
            StructuralError::ItemsNotArray => "the items of the payload are not an array"@,
            StructuralError::IncludesMalformed => "the includes of the payload are malformed"@,
            StructuralError::Entry { problem, .. } => match problem {
                Problem::NotAnObject => "an entry is not an object"@,
                Problem::MissingSys => "an entry has no system properties"@,
                Problem::MissingSysId => "an entry has no identifier"@,
                Problem::FieldsNotObject => "the fields of an entry are not an object"@,
                Problem::MalformedLink => "a link of an entry has no identifier"@,
            },
        }
    }

    /// What is wrong, in words.
    pub fn describe(&self) -> (text: &'static str)
        ensures
            text@ == self.spec_describe(),
    {
        match self {
            StructuralError::PayloadNotObject => "the payload is not an object",
            StructuralError::ItemsMissing => "the payload has no items",
            StructuralError::ItemsNotArray => "the items of the payload are not an array",
            StructuralError::IncludesMalformed => "the includes of the payload are malformed",
            StructuralError::Entry { problem, .. } => match problem {
                Problem::NotAnObject => "an entry is not an object",
                Problem::MissingSys => "an entry has no system properties",
                Problem::MissingSysId => "an entry has no identifier",
                Problem::FieldsNotObject => "the fields of an entry are not an object",
                Problem::MalformedLink => "a link of an entry has no identifier",
            },
        }
    }
}

/// How a JSON value reads as a link placeholder.
pub enum LinkShape {
    NotALink,
    Malformed,
    Target(NodeKeyView),
}

/// A value is a link placeholder when its `sys` member has type `Link` and a
/// link type of `Entry` or `Asset`. A placeholder without a text `id` is malformed.
pub open spec fn link_shape(v: JsonValue) -> LinkShape {
    match v.member("sys"@) {
        Some(sys) => {
            if sys.text_member("type"@) == Some("Link"@) {
                match sys.text_member("linkType"@) {
                    Some(tag) => match link_kind_of(tag) {
                        Some(kind) => match sys.text_member("id"@) {
                            Some(id) => LinkShape::Target(NodeKeyView { kind, id }),
                            None => LinkShape::Malformed,
                        },
                        None => LinkShape::NotALink,
                    },
                    None => LinkShape::NotALink,
                }
            } else {
                LinkShape::NotALink
            }
        },
        None => LinkShape::NotALink,
    }
}

/// Whether every item of an array is shaped like a link placeholder.
pub open spec fn all_link_shaped(items: Seq<JsonValue>) -> bool {
    forall|i: int| 0 <= i < items.len() ==> !(#[trigger] link_shape(items[i]) is NotALink)
}

/// Whether every item of an array is a well-formed link placeholder.
pub open spec fn all_targets(items: Seq<JsonValue>) -> bool {
    forall|i: int| 0 <= i < items.len() ==> #[trigger] link_shape(items[i]) is Target
}

/// The raw field value that a JSON value stands for; `None` where it holds a
/// malformed link placeholder.
pub open spec fn field_value_of(v: JsonValue) -> Option<FieldValueView> {
    match link_shape(v) {
        LinkShape::Target(key) => Some(FieldValueView::Link(key)),
        LinkShape::Malformed => None,
        LinkShape::NotALink => match v {
            JsonValue::Array(items) => {
                if items.len() > 0 && all_link_shaped(items) {
                    if all_targets(items) {
                        Some(
                            FieldValueView::Links(
                                items.map_values(|x: JsonValue| link_shape(x)->Target_0),
                            ),
                        )
                    } else {
                        None
                    }
                } else {
                    Some(FieldValueView::Leaf(v))
                }
            },
            _ => Some(FieldValueView::Leaf(v)),
        },
    }
}

/// The fields of an entry. A missing or null `fields` member means no fields.
pub open spec fn fields_of(v: JsonValue) -> Result<Seq<EntryFieldView>, Problem> {
    match v.member("fields"@) {
        None => Ok(Seq::empty()),
        Some(JsonValue::Null) => Ok(Seq::empty()),
        Some(JsonValue::Object(members)) => {
            if forall|i: int|
                0 <= i < members.len() ==> (#[trigger] field_value_of(members[i].1)) is Some {
                Ok(
                    members.map_values(
                        |m: (Seq<char>, JsonValue)|
                            EntryFieldView { id: m.0, value: field_value_of(m.1).unwrap() },
                    ),
                )
            } else {
                Err(Problem::MalformedLink)
            }
        },
        Some(_) => Err(Problem::FieldsNotObject),
    }
}

/// The kind of an entry: fixed by the section for included entries, read from
/// `sys.type` for top-level ones (anything but `Asset` is an entry).
pub open spec fn kind_in(section: Section, sys: JsonValue) -> LinkKind {
    match section {
        Section::IncludedEntries => LinkKind::Entry,
        Section::IncludedAssets => LinkKind::Asset,
        Section::Items => if sys.text_member("type"@) == Some("Asset"@) {
            LinkKind::Asset
        } else {
            LinkKind::Entry
        },
    }
}

/// The content type identifier at `sys.contentType.sys.id`, where present.
pub open spec fn content_type_in(sys: JsonValue) -> Option<Seq<char>> {
    match sys.member("contentType"@) {
        Some(link) => match link.member("sys"@) {
            Some(inner) => inner.text_member("id"@),
            None => None,
        },
        None => None,
    }
}

/// The entry that a JSON value stands for, or what is wrong with it.
pub open spec fn entry_of(v: JsonValue, section: Section) -> Result<EntryView, Problem> {
    if !(v is Object) {
        Err(Problem::NotAnObject)
    } else {
        match v.member("sys"@) {
            Some(sys) => {
                if !(sys is Object) {
                    Err(Problem::MissingSys)
                } else {
                    match sys.text_member("id"@) {
                        Some(id) => match fields_of(v) {
                            Ok(fields) => Ok(
                                EntryView {
                                    key: NodeKeyView { kind: kind_in(section, sys), id },
                                    content_type: content_type_in(sys),
                                    fields,
                                },
                            ),
                            Err(problem) => Err(problem),
                        },
                        None => Err(Problem::MissingSysId),
                    }
                }
            },
            None => Err(Problem::MissingSys),
        }
    }
}

/// The entries of one array of the payload: all of them, or the first one
/// that is broken.
pub open spec fn entries_of(items: Seq<JsonValue>, section: Section) -> Result<
    Seq<EntryView>,
    StructuralError,
> {
    match position(items.map_values(|v: JsonValue| entry_of(v, section) is Err), true) {
        Some(i) => Err(
            StructuralError::Entry {
                section,
                index: i as usize,
                problem: entry_of(items[i], section)->Err_0,
            },
        ),
        None => Ok(items.map_values(|v: JsonValue| entry_of(v, section)->Ok_0)),
    }
}

/// One array of the `includes` member. A missing or null array is empty.
pub open spec fn included_of(includes: JsonValue, name: Seq<char>, section: Section) -> Result<
    Seq<EntryView>,
    StructuralError,
> {
    match includes.member(name) {
        None => Ok(Seq::empty()),
        Some(JsonValue::Null) => Ok(Seq::empty()),
        Some(JsonValue::Array(items)) => entries_of(items, section),
        Some(_) => Err(StructuralError::IncludesMalformed),
    }
}

/// The pool of included entries and assets. A missing or null `includes`
/// member is an empty pool.
pub open spec fn pool_of(v: JsonValue) -> Result<Seq<EntryView>, StructuralError> {
    match v.member("includes"@) {
        None => Ok(Seq::empty()),
        Some(JsonValue::Null) => Ok(Seq::empty()),
        Some(includes) => {
            if !(includes is Object) {
                Err(StructuralError::IncludesMalformed)
            } else {
                match included_of(includes, "Entry"@, Section::IncludedEntries) {
                    Ok(entries) => match included_of(includes, "Asset"@, Section::IncludedAssets) {
                        Ok(assets) => Ok(entries + assets),
                        Err(e) => Err(e),
                    },
                    Err(e) => Err(e),
                }
            }
        },
    }
}

/// The payload that a JSON envelope stands for, or the first thing that is
/// structurally wrong with it.
pub open spec fn payload_of(v: JsonValue) -> Result<PayloadView, StructuralError> {
    if !(v is Object) {
        Err(StructuralError::PayloadNotObject)
    } else {
        match v.member("items"@) {
            None => Err(StructuralError::ItemsMissing),
            Some(JsonValue::Array(items)) => match entries_of(items, Section::Items) {
                Ok(entries) => match pool_of(v) {
                    Ok(pool) => Ok(PayloadView { items: entries, includes: pool }),
                    Err(e) => Err(e),
                },
                Err(e) => Err(e),
            },
            Some(_) => Err(StructuralError::ItemsNotArray),
        }
    }
}

/// A link placeholder as read from a JSON value.
#[derive(Debug, PartialEq, Eq)]
pub enum Placeholder {
    NotALink,
    Malformed,
    Target(NodeKey),
}

impl View for Placeholder {
    type V = LinkShape;

    open spec fn view(&self) -> LinkShape {
        match self {
            Placeholder::NotALink => LinkShape::NotALink,
            Placeholder::Malformed => LinkShape::Malformed,
            Placeholder::Target(key) => LinkShape::Target(key@),
        }
    }
}

/// Reads a JSON value as a link placeholder.
pub fn read_placeholder(v: &Json) -> (shape: Placeholder)
    ensures
        shape@ == link_shape(v@),
{
    let sys = match v.member("sys") {
        Some(sys) => sys,
        None => {
            return Placeholder::NotALink;
        },
    };
    let is_link = match sys.text_member("type") {
        Some(tag) => str_eq(tag.as_str(), "Link"),
        None => false,
    };
    if !is_link {
        return Placeholder::NotALink;
    }
    let kind = match sys.text_member("linkType") {
        Some(tag) => match LinkKind::from_tag(tag.as_str()) {
            Some(kind) => kind,
            None => {
                return Placeholder::NotALink;
            },
        },
        None => {
            return Placeholder::NotALink;
        },
    };
    match sys.text_member("id") {
        Some(id) => Placeholder::Target(NodeKey { kind, id: id.clone() }),
        None => Placeholder::Malformed,
    }
}

/// Reads the raw value of one field; `None` for a malformed link placeholder.
pub fn read_field_value(v: &Json) -> (value: Option<FieldValue>)
    ensures
        value.deep_view() == field_value_of(v@),
{
    match read_placeholder(v) {
        Placeholder::Target(key) => Some(FieldValue::Link(key)),
        Placeholder::Malformed => None,
        Placeholder::NotALink => {
            match v {
                Json::Array(items) => {
                    proof {
                        v.lemma_array_view();
                    }
                    let ghost views = v@->Array_0;
                    let mut targets: Vec<NodeKey> = Vec::new();
                    let mut well_formed = true;
                    let mut i: usize = 0;
                    while i < items.len()
                        invariant
                            i <= items.len(),
                            link_shape(v@) is NotALink,
                            v@ == JsonValue::Array(views),
                            views.len() == items.len(),
                            forall|j: int| 0 <= j < items.len() ==> views[j] == items@[j]@,
                            forall|j: int|
                                0 <= j < i ==> !(#[trigger] link_shape(views[j]) is NotALink),
                            well_formed == (forall|j: int|
                                0 <= j < i ==> #[trigger] link_shape(views[j]) is Target),
                            well_formed ==> targets.len() == i,
                            well_formed ==> forall|j: int|
                                0 <= j < i ==> (#[trigger] targets@[j])@ == link_shape(
                                    views[j],
                                )->Target_0,
                        decreases items.len() - i,
                    {
                        match read_placeholder(&items[i]) {
                            Placeholder::NotALink => {
                                assert(link_shape(views[i as int]) is NotALink);
                                assert(!all_link_shaped(views));
                                return Some(FieldValue::Leaf(v.clone()));
                            },
                            Placeholder::Malformed => {
                                assert(!(link_shape(views[i as int]) is Target));
                                well_formed = false;
                            },
                            Placeholder::Target(key) => {
                                if well_formed {
                                    targets.push(key);
                                }
                            },
                        }
                        i += 1;
                    }
                    if items.len() == 0 {
                        Some(FieldValue::Leaf(v.clone()))
                    } else if well_formed {
                        assert(all_link_shaped(views));
                        assert(all_targets(views));
                        assert(targets.deep_view() =~= views.map_values(
                            |x: JsonValue| link_shape(x)->Target_0,
                        ));
                        Some(FieldValue::Links(targets))
                    } else {
                        assert(all_link_shaped(views));
                        assert(!all_targets(views));
                        None
                    }
                },
                _ => Some(FieldValue::Leaf(v.clone())),
            }
        },
    }
}

fn read_fields(v: &Json) -> (fields: Result<Vec<EntryField>, Problem>)
    ensures
        match fields {
            Ok(read) => fields_of(v@) == Ok::<Seq<EntryFieldView>, Problem>(read.deep_view()),
            Err(problem) => fields_of(v@) == Err::<Seq<EntryFieldView>, Problem>(problem),
        },
{
    match v.member("fields") {
        None => {
            let none: Vec<EntryField> = Vec::new();
            assert(none.deep_view() =~= Seq::empty());
            Ok(none)
        },
        Some(Json::Null) => {
            let none: Vec<EntryField> = Vec::new();
            assert(none.deep_view() =~= Seq::empty());
            Ok(none)
        },
        Some(holder) => {
            match holder {
                Json::Object(members) => {
                    proof {
                        holder.lemma_object_view();
                    }
                    let ghost views = holder@->Object_0;
                    let mut out: Vec<EntryField> = Vec::new();
                    let mut i: usize = 0;
                    while i < members.len()
                        invariant
                            i <= members.len(),
                            v@.member("fields"@) == Some(JsonValue::Object(views)),
                            views.len() == members.len(),
                            forall|j: int|
                                0 <= j < members.len() ==> (#[trigger] views[j]).0 == members@[j].0@
                                    && views[j].1 == members@[j].1@,
                            forall|j: int|
                                0 <= j < i ==> (#[trigger] field_value_of(views[j].1)) is Some,
                            out.len() == i,
                            forall|j: int|
                                0 <= j < i ==> (#[trigger] out@[j])@ == (EntryFieldView {
                                    id: views[j].0,
                                    value: field_value_of(views[j].1).unwrap(),
                                }),
                        decreases members.len() - i,
                    {
                        match read_field_value(&members[i].1) {
                            Some(value) => {
                                out.push(EntryField { id: members[i].0.clone(), value });
                            },
                            None => {
                                assert(field_value_of(views[i as int].1) is None);
                                return Err(Problem::MalformedLink);
                            },
                        }
                        i += 1;
                    }
                    assert(out.deep_view() =~= views.map_values(
                        |m: (Seq<char>, JsonValue)|
                            EntryFieldView { id: m.0, value: field_value_of(m.1).unwrap() },
                    ));
                    Ok(out)
                },
                _ => Err(Problem::FieldsNotObject),
            }
        },
    }
}

fn read_kind(section: Section, sys: &Json) -> (kind: LinkKind)
    ensures
        kind == kind_in(section, sys@),
{
    match section {
        Section::IncludedEntries => LinkKind::Entry,
        Section::IncludedAssets => LinkKind::Asset,
        Section::Items => {
            let is_asset = match sys.text_member("type") {
                Some(tag) => str_eq(tag.as_str(), "Asset"),
                None => false,
            };
            if is_asset {
                LinkKind::Asset
            } else {
                LinkKind::Entry
            }
        },
    }
}

fn read_content_type(sys: &Json) -> (id: Option<String>)
    ensures
        id.deep_view() == content_type_in(sys@),
{
    match sys.member("contentType") {
        Some(link) => match link.member("sys") {
            Some(inner) => match inner.text_member("id") {
                Some(id) => Some(id.clone()),
                None => None,
            },
            None => None,
        },
        None => None,
    }
}

/// Reads one entry of the given section.
pub fn read_entry(v: &Json, section: Section) -> (entry: Result<Entry, Problem>)
    ensures
        match entry {
            Ok(read) => entry_of(v@, section) == Ok::<EntryView, Problem>(read@),
            Err(problem) => entry_of(v@, section) == Err::<EntryView, Problem>(problem),
        },
{
    match v {
        Json::Object(_) => {},
        _ => {
            return Err(Problem::NotAnObject);
        },
    }
    let sys = match v.member("sys") {
        Some(sys) => sys,
        None => {
            return Err(Problem::MissingSys);
        },
    };
    match sys {
        Json::Object(_) => {},
        _ => {
            return Err(Problem::MissingSys);
        },
    }
    let id = match sys.text_member("id") {
        Some(id) => id.clone(),
        None => {
            return Err(Problem::MissingSysId);
        },
    };
    let fields = match read_fields(v) {
        Ok(fields) => fields,
        Err(problem) => {
            return Err(problem);
        },
    };
    Ok(
        Entry {
            key: NodeKey { kind: read_kind(section, sys), id },
            content_type: read_content_type(sys),
            fields,
        },
    )
}

/// Reads every entry of one array of the payload.
fn read_entries(array: &Json, section: Section) -> (entries: Result<Vec<Entry>, StructuralError>)
    requires
        array is Array,
    ensures
        match entries {
            Ok(read) => entries_of(array@->Array_0, section) == Ok::<
                Seq<EntryView>,
                StructuralError,
            >(read.deep_view()),
            Err(e) => entries_of(array@->Array_0, section) == Err::<
                Seq<EntryView>,
                StructuralError,
            >(e),
        },
{
    let items = match array {
        Json::Array(items) => items,
        _ => {
            return Ok(Vec::new());
        },
    };
    proof {
        array.lemma_array_view();
    }
    let ghost views = array@->Array_0;
    let ghost broken = views.map_values(|v: JsonValue| entry_of(v, section) is Err);
    let mut out: Vec<Entry> = Vec::new();
    let mut i: usize = 0;
    while i < items.len()
        invariant
            i <= items.len(),
            views == array@->Array_0,
            views.len() == items.len(),
            broken == views.map_values(|v: JsonValue| entry_of(v, section) is Err),
            forall|j: int| 0 <= j < items.len() ==> views[j] == items@[j]@,
            forall|j: int| 0 <= j < i ==> !broken[j],
            out.len() == i,
            forall|j: int|
                0 <= j < i ==> (#[trigger] out@[j])@ == entry_of(views[j], section)->Ok_0,
        decreases items.len() - i,
    {
        match read_entry(&items[i], section) {
            Ok(entry) => {
                assert(!broken[i as int]);
                out.push(entry);
            },
            Err(problem) => {
                proof {
                    assert(broken[i as int]);
                    assert(is_first_at(broken, true, i as int));
                    lemma_position_found(broken, true, i as int);
                }
                return Err(StructuralError::Entry { section, index: i, problem });
            },
        }
        i += 1;
    }
    proof {
        lemma_position_absent(broken, true);
        assert(out.deep_view() =~= views.map_values(
            |v: JsonValue| entry_of(v, section)->Ok_0,
        ));
    }
    Ok(out)
}

fn read_included(includes: &Json, name: &str, section: Section) -> (entries: Result<
    Vec<Entry>,
    StructuralError,
>)
    ensures
        match entries {
            Ok(read) => included_of(includes@, name@, section) == Ok::<
                Seq<EntryView>,
                StructuralError,
            >(read.deep_view()),
            Err(e) => included_of(includes@, name@, section) == Err::<
                Seq<EntryView>,
                StructuralError,
            >(e),
        },
{
    match includes.member(name) {
        None => {
            let none: Vec<Entry> = Vec::new();
            assert(none.deep_view() =~= Seq::empty());
            Ok(none)
        },
        Some(Json::Null) => {
            let none: Vec<Entry> = Vec::new();
            assert(none.deep_view() =~= Seq::empty());
            Ok(none)
        },
        Some(array) => match array {
            Json::Array(_) => read_entries(array, section),
            _ => Err(StructuralError::IncludesMalformed),
        },
    }
}

fn read_pool(v: &Json) -> (pool: Result<Vec<Entry>, StructuralError>)
    ensures
        match pool {
            Ok(read) => pool_of(v@) == Ok::<Seq<EntryView>, StructuralError>(read.deep_view()),
            Err(e) => pool_of(v@) == Err::<Seq<EntryView>, StructuralError>(e),
        },
{
    match v.member("includes") {
        None => {
            let none: Vec<Entry> = Vec::new();
            assert(none.deep_view() =~= Seq::empty());
            Ok(none)
        },
        Some(Json::Null) => {
            let none: Vec<Entry> = Vec::new();
            assert(none.deep_view() =~= Seq::empty());
            Ok(none)
        },
        Some(includes) => {
            match includes {
                Json::Object(_) => {},
                _ => {
                    return Err(StructuralError::IncludesMalformed);
                },
            }
            let mut entries = match read_included(includes, "Entry", Section::IncludedEntries) {
                Ok(entries) => entries,
                Err(e) => {
                    return Err(e);
                },
            };
            let mut assets = match read_included(includes, "Asset", Section::IncludedAssets) {
                Ok(assets) => assets,
                Err(e) => {
                    return Err(e);
                },
            };
            let ghost first = entries.deep_view();
            let ghost second = assets.deep_view();
            entries.append(&mut assets);
            assert(entries.deep_view() =~= first + second);
            Ok(entries)
        },
    }
}

/// Reads a payload out of its JSON envelope `{items, includes?}`.
///
/// Succeeds exactly when the envelope is an object whose `items` member is an
/// array of well-formed entries and whose `includes` member, if present, is
/// an object of such arrays. Otherwise the first structural fault is returned.
pub fn parse_payload(v: &Json) -> (payload: Result<Payload, StructuralError>)
    ensures
        match payload {
            Ok(read) => payload_of(v@) == Ok::<PayloadView, StructuralError>(read@),
            Err(e) => payload_of(v@) == Err::<PayloadView, StructuralError>(e),
        },
{
    match v {
        Json::Object(_) => {},
        _ => {
            return Err(StructuralError::PayloadNotObject);
        },
    }
    let array = match v.member("items") {
        Some(array) => array,
        None => {
            return Err(StructuralError::ItemsMissing);
        },
    };
    match array {
        Json::Array(_) => {},
        _ => {
            return Err(StructuralError::ItemsNotArray);
        },
    }
    let items = match read_entries(array, Section::Items) {
        Ok(items) => items,
        Err(e) => {
            return Err(e);
        },
    };
    let includes = match read_pool(v) {
        Ok(includes) => includes,
        Err(e) => {
            return Err(e);
        },
    };
    Ok(Payload { items, includes })
}

} // verus!
