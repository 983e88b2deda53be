//! The wire form of the schema: reading a content type out of the JSON that
//! the backend sends, and writing it back.
//!
//! An optional member that is missing or null is read as "no value". A
//! member of the wrong type is an error, and so is a missing member that is
//! not optional. Members that the model does not know are passed over.

use vstd::prelude::*;
use crate::content_types::{
    ContentType, ContentTypeView, Field, FieldView, Regex, RegexView, Size, SystemProperties,
    SystemPropertiesView, Timestamp, Validation, ValidationView,
};
use crate::json::{Json, JsonValue};
use crate::seqs::{is_first_at, lemma_position_absent, lemma_position_found, position};

verus! {

/// The members of the wire form.
#[derive(Clone, Copy, Debug, PartialEq, Eq)]
pub enum Member {
    Name,
    Description,
    DisplayField,
    Fields,
    Sys,
    Id,
    Version,
    Revision,
    CreatedAt,
    UpdatedAt,
    FieldId,
    FieldName,
    FieldType,
    Required,
    Localized,
    Validations,
    Disabled,
    Omitted,
    Unique,
    Size,
    Min,
    Max,
    Regex,
    Pattern,
    Flags,
    LinkContentType,
    In,
    Items,
}

/// Why a JSON value is no content type.
#[derive(Clone, Copy, Debug, PartialEq, Eq)]
pub enum SchemaError {
    /// The value is not an object.
    NotAnObject,
    /// A member that must be there is not.
    Missing(Member),
    /// A member is there but has the wrong type or cannot be read.
    Malformed(Member),
}

/// Whether what was read is what the wire form stands for.
pub open spec fn agrees<T: DeepView>(read: Result<T, SchemaError>, wanted: Result<
    T::V,
    SchemaError,
>) -> bool {
    match read {
        Ok(value) => wanted == Ok::<T::V, SchemaError>(value.deep_view()),
        Err(e) => wanted == Err::<T::V, SchemaError>(e),
    }
}

/// A text member that must be there.
pub open spec fn text_at(v: JsonValue, key: Seq<char>, member: Member) -> Result<
    Seq<char>,
    SchemaError,
> {
    match v.member(key) {
        None => Err(SchemaError::Missing(member)),
        Some(JsonValue::Text(s)) => Ok(s),
        Some(_) => Err(SchemaError::Malformed(member)),
    }
}

/// A text member that may be missing or null.
pub open spec fn optional_text_at(v: JsonValue, key: Seq<char>, member: Member) -> Result<
    Option<Seq<char>>,
    SchemaError,
> {
    match v.member(key) {
        None => Ok(None),
        Some(JsonValue::Null) => Ok(None),
        Some(JsonValue::Text(s)) => Ok(Some(s)),
        Some(_) => Err(SchemaError::Malformed(member)),
    }
}

/// A flag that must be there.
pub open spec fn flag_at(v: JsonValue, key: Seq<char>, member: Member) -> Result<
    bool,
    SchemaError,
> {
    match v.member(key) {
        None => Err(SchemaError::Missing(member)),
        Some(JsonValue::Bool(b)) => Ok(b),
        Some(_) => Err(SchemaError::Malformed(member)),
    }
}

/// A flag that may be missing or null.
pub open spec fn optional_flag_at(v: JsonValue, key: Seq<char>, member: Member) -> Result<
    Option<bool>,
    SchemaError,
> {
    match v.member(key) {
        None => Ok(None),
        Some(JsonValue::Null) => Ok(None),
        Some(JsonValue::Bool(b)) => Ok(Some(b)),
        Some(_) => Err(SchemaError::Malformed(member)),
    }
}

/// A 32-bit integer that may be missing or null.
pub open spec fn optional_number_at(v: JsonValue, key: Seq<char>, member: Member) -> Result<
    Option<i32>,
    SchemaError,
> {
    match v.member(key) {
        None => Ok(None),
        Some(JsonValue::Null) => Ok(None),
        Some(JsonValue::Integer(k)) => if i32::MIN <= k <= i32::MAX {
            Ok(Some(k as i32))
        } else {
            Err(SchemaError::Malformed(member))
        },
        Some(_) => Err(SchemaError::Malformed(member)),
    }
}

/// The instant that a date-and-time text names, as seconds since the Unix
/// epoch and nanoseconds within the second; `None` for a text that is no
/// date and time.
pub uninterp spec fn instant_of(text: Seq<char>) -> Option<(i64, u32)>;

/// The date-and-time text of an instant; `None` for an instant that cannot
/// be built from the two numbers.
pub uninterp spec fn instant_text(seconds: i64, nanos: u32) -> Option<Seq<char>>;

/// A point in time that may be missing or null.
pub open spec fn optional_instant_at(v: JsonValue, key: Seq<char>, member: Member) -> Result<
    Option<Timestamp>,
    SchemaError,
> {
    match v.member(key) {
        None => Ok(None),
        Some(JsonValue::Null) => Ok(None),
        Some(JsonValue::Text(s)) => match instant_of(s) {
            Some(at) => Ok(Some(Timestamp { seconds: at.0, nanos: at.1 })),
            None => Err(SchemaError::Malformed(member)),
        },
        Some(_) => Err(SchemaError::Malformed(member)),
    }
}

/// Whether every item is a text.
pub open spec fn all_texts(items: Seq<JsonValue>) -> bool {
    forall|i: int| 0 <= i < items.len() ==> (#[trigger] items[i]) is Text
}

/// A list of texts that may be missing or null.
pub open spec fn optional_texts_at(v: JsonValue, key: Seq<char>, member: Member) -> Result<
    Option<Seq<Seq<char>>>,
    SchemaError,
> {
    match v.member(key) {
        None => Ok(None),
        Some(JsonValue::Null) => Ok(None),
        Some(JsonValue::Array(items)) => if all_texts(items) {
            Ok(Some(items.map_values(|x: JsonValue| x->Text_0)))
        } else {
            Err(SchemaError::Malformed(member))
        },
        Some(_) => Err(SchemaError::Malformed(member)),
    }
}

/// The `size` member of a validation entry.
pub open spec fn size_at(v: JsonValue) -> Result<Option<Size>, SchemaError> {
    match v.member("size"@) {
        None => Ok(None),
        Some(JsonValue::Null) => Ok(None),
        Some(holder) => if holder is Object {
            match optional_number_at(holder, "min"@, Member::Min) {
                Ok(min) => match optional_number_at(holder, "max"@, Member::Max) {
                    Ok(max) => Ok(Some(Size { min, max })),
                    Err(e) => Err(e),
                },
                Err(e) => Err(e),
            }
        } else {
            Err(SchemaError::Malformed(Member::Size))
        },
    }
}

/// The `regex` member of a validation entry.
pub open spec fn regex_at(v: JsonValue) -> Result<Option<RegexView>, SchemaError> {
    match v.member("regex"@) {
        None => Ok(None),
        Some(JsonValue::Null) => Ok(None),
        Some(holder) => if holder is Object {
            match text_at(holder, "pattern"@, Member::Pattern) {
                Ok(pattern) => match optional_text_at(holder, "flags"@, Member::Flags) {
                    Ok(flags) => Ok(Some(RegexView { pattern, flags })),
                    Err(e) => Err(e),
                },
                Err(e) => Err(e),
            }
        } else {
            Err(SchemaError::Malformed(Member::Regex))
        },
    }
}

/// The validation entry that a JSON value stands for.
#[verifier::opaque]
pub open spec fn validation_of(v: JsonValue) -> Result<ValidationView, SchemaError> {
    if !(v is Object) {
        Err(SchemaError::Malformed(Member::Validations))
    } else {
        match optional_flag_at(v, "unique"@, Member::Unique) {
            Ok(unique) => match size_at(v) {
                Ok(size) => match regex_at(v) {
                    Ok(regex) => match optional_texts_at(
                        v,
                        "linkContentType"@,
                        Member::LinkContentType,
                    ) {
                        Ok(link_content_type) => match optional_texts_at(v, "in"@, Member::In) {
                            Ok(in_) => Ok(
                                ValidationView { unique, size, regex, link_content_type, in_ },
                            ),
                            Err(e) => Err(e),
                        },
                        Err(e) => Err(e),
                    },
                    Err(e) => Err(e),
                },
                Err(e) => Err(e),
            },
            Err(e) => Err(e),
        }
    }
}

/// The validation entries of a field: all of them, or the error of the
/// first one that cannot be read.
pub open spec fn validations_of(items: Seq<JsonValue>) -> Result<
    Seq<ValidationView>,
    SchemaError,
> {
    match position(items.map_values(|x: JsonValue| validation_of(x) is Err), true) {
        Some(i) => Err(validation_of(items[i])->Err_0),
        None => Ok(items.map_values(|x: JsonValue| validation_of(x)->Ok_0)),
    }
}

/// The `validations` member of a field: an array that must be there.
pub open spec fn validations_at(v: JsonValue) -> Result<Seq<ValidationView>, SchemaError> {
    match v.member("validations"@) {
        None => Err(SchemaError::Missing(Member::Validations)),
        Some(JsonValue::Array(items)) => validations_of(items),
        Some(_) => Err(SchemaError::Malformed(Member::Validations)),
    }
}

/// The field that a JSON value stands for.
#[verifier::opaque]
pub open spec fn field_of(v: JsonValue) -> Result<FieldView, SchemaError> {
    if !(v is Object) {
        Err(SchemaError::Malformed(Member::Fields))
    } else {
        match text_at(v, "id"@, Member::FieldId) {
            Ok(id) => match text_at(v, "name"@, Member::FieldName) {
                Ok(name) => match text_at(v, "type"@, Member::FieldType) {
                    Ok(type_) => match flag_at(v, "required"@, Member::Required) {
                        Ok(required) => match flag_at(v, "localized"@, Member::Localized) {
                            Ok(localized) => match validations_at(v) {
                                Ok(validations) => match flag_at(
                                    v,
                                    "disabled"@,
                                    Member::Disabled,
                                ) {
                                    Ok(disabled) => match flag_at(
                                        v,
                                        "omitted"@,
                                        Member::Omitted,
                                    ) {
                                        Ok(omitted) => Ok(
                                            FieldView {
                                                id,
                                                name,
                                                type_,
                                                required,
                                                localized,
                                                validations,
                                                disabled,
                                                omitted,
                                            },
                                        ),
                                        Err(e) => Err(e),
                                    },
                                    Err(e) => Err(e),
                                },
                                Err(e) => Err(e),
                            },
                            Err(e) => Err(e),
                        },
                        Err(e) => Err(e),
                    },
                    Err(e) => Err(e),
                },
                Err(e) => Err(e),
            },
            Err(e) => Err(e),
        }
    }
}

/// The fields of a content type: all of them, or the error of the first one
/// that cannot be read.
pub open spec fn fields_of(items: Seq<JsonValue>) -> Result<Seq<FieldView>, SchemaError> {
    match position(items.map_values(|x: JsonValue| field_of(x) is Err), true) {
        Some(i) => Err(field_of(items[i])->Err_0),
        None => Ok(items.map_values(|x: JsonValue| field_of(x)->Ok_0)),
    }
}

/// The `fields` member of a content type: an array that must be there.
pub open spec fn fields_at(v: JsonValue) -> Result<Seq<FieldView>, SchemaError> {
    match v.member("fields"@) {
        None => Err(SchemaError::Missing(Member::Fields)),
        Some(JsonValue::Array(items)) => fields_of(items),
        Some(_) => Err(SchemaError::Malformed(Member::Fields)),
    }
}

/// The `sys` member of a content type: an object that must be there.
pub open spec fn sys_at(v: JsonValue) -> Result<SystemPropertiesView, SchemaError> {
    match v.member("sys"@) {
        None => Err(SchemaError::Missing(Member::Sys)),
        Some(holder) => if holder is Object {
            match text_at(holder, "id"@, Member::Id) {
                Ok(id) => match optional_number_at(holder, "version"@, Member::Version) {
                    Ok(version) => match optional_number_at(
                        holder,
                        "revision"@,
                        Member::Revision,
                    ) {
                        Ok(revision) => match optional_instant_at(
                            holder,
                            "createdAt"@,
                            Member::CreatedAt,
                        ) {
                            Ok(created_at) => match optional_instant_at(
                                holder,
                                "updatedAt"@,
                                Member::UpdatedAt,
                            ) {
                                Ok(updated_at) => Ok(
                                    SystemPropertiesView {
                                        id,
                                        version,
                                        revision,
                                        created_at,
                                        updated_at,
                                    },
                                ),
                                Err(e) => Err(e),
                            },
                            Err(e) => Err(e),
                        },
                        Err(e) => Err(e),
                    },
                    Err(e) => Err(e),
                },
                Err(e) => Err(e),
            }
        } else {
            Err(SchemaError::Malformed(Member::Sys))
        },
    }
}

/// The content type that a JSON value stands for, or the first thing that
/// keeps it from being one.
#[verifier::opaque]
pub open spec fn content_type_of(v: JsonValue) -> Result<ContentTypeView, SchemaError> {
    if !(v is Object) {
        Err(SchemaError::NotAnObject)
    } else {
        match text_at(v, "name"@, Member::Name) {
            Ok(name) => match optional_text_at(v, "description"@, Member::Description) {
                Ok(description) => match optional_text_at(
                    v,
                    "displayField"@,
                    Member::DisplayField,
                ) {
                    Ok(display_field) => match fields_at(v) {
                        Ok(fields) => match sys_at(v) {
                            Ok(system_properties) => Ok(
                                ContentTypeView {
                                    name,
                                    description,
                                    display_field,
                                    fields,
                                    system_properties,
                                },
                            ),
                            Err(e) => Err(e),
                        },
                        Err(e) => Err(e),
                    },
                    Err(e) => Err(e),
                },
                Err(e) => Err(e),
            },
            Err(e) => Err(e),
        }
    }
}

/// The content types of a collection: all of them, or the error of the
/// first one that cannot be read.
pub open spec fn content_types_of(items: Seq<JsonValue>) -> Result<
    Seq<ContentTypeView>,
    SchemaError,
> {
    match position(items.map_values(|x: JsonValue| content_type_of(x) is Err), true) {
        Some(i) => Err(content_type_of(items[i])->Err_0),
        None => Ok(items.map_values(|x: JsonValue| content_type_of(x)->Ok_0)),
    }
}

/// The schema that a collection `{items: [...]}` of content types stands for.
pub open spec fn schema_of(v: JsonValue) -> Result<Seq<ContentTypeView>, SchemaError> {
    match v.member("items"@) {
        None => Err(SchemaError::Missing(Member::Items)),
        Some(JsonValue::Array(items)) => content_types_of(items),
        Some(_) => Err(SchemaError::Malformed(Member::Items)),
    }
}

fn read_text(v: &Json, key: &str, member: Member) -> (read: Result<String, SchemaError>)
    ensures
        agrees(read, text_at(v@, key@, member)),
{
    match v.member(key) {
        None => Err(SchemaError::Missing(member)),
        Some(Json::Text(s)) => Ok(s.clone()),
        Some(_) => Err(SchemaError::Malformed(member)),
    }
}

fn read_optional_text(v: &Json, key: &str, member: Member) -> (read: Result<
    Option<String>,
    SchemaError,
>)
    ensures
        agrees(read, optional_text_at(v@, key@, member)),
{
    match v.member(key) {
        None => Ok(None),
        Some(Json::Null) => Ok(None),
        Some(Json::Text(s)) => Ok(Some(s.clone())),
        Some(_) => Err(SchemaError::Malformed(member)),
    }
}

fn read_flag(v: &Json, key: &str, member: Member) -> (read: Result<bool, SchemaError>)
    ensures
        agrees(read, flag_at(v@, key@, member)),
{
    match v.member(key) {
        None => Err(SchemaError::Missing(member)),
        Some(Json::Bool(b)) => Ok(*b),
        Some(_) => Err(SchemaError::Malformed(member)),
    }
}

fn read_optional_flag(v: &Json, key: &str, member: Member) -> (read: Result<
    Option<bool>,
    SchemaError,
>)
    ensures
        agrees(read, optional_flag_at(v@, key@, member)),
{
    match v.member(key) {
        None => Ok(None),
        Some(Json::Null) => Ok(None),
        Some(Json::Bool(b)) => Ok(Some(*b)),
        Some(_) => Err(SchemaError::Malformed(member)),
    }
}

fn read_optional_number(v: &Json, key: &str, member: Member) -> (read: Result<
    Option<i32>,
    SchemaError,
>)
    ensures
        agrees(read, optional_number_at(v@, key@, member)),
{
    match v.member(key) {
        None => Ok(None),
        Some(Json::Null) => Ok(None),
        Some(Json::Integer(k)) => {
            if -2147483648 <= *k && *k <= 2147483647 {
                Ok(Some(*k as i32))
            } else {
                Err(SchemaError::Malformed(member))
            }
        },
        Some(_) => Err(SchemaError::Malformed(member)),
    }
}

/// Parses a date-and-time text as `chrono`'s `FromStr` for
/// `DateTime<FixedOffset>` does (a relaxed RFC 3339), and takes the instant
/// apart with `DateTime::timestamp` and `DateTime::timestamp_subsec_nanos`.
/// The answer is taken on trust to depend on the text alone; `None` stands
/// for a text that the parser refuses.
#[verifier::external_body]
fn parse_instant(text: &str) -> (at: Option<(i64, u32)>)
    ensures
        at == instant_of(text@),
{
    match text.parse::<chrono::DateTime<chrono::FixedOffset>>() {
        Ok(at) => Some((at.timestamp(), at.timestamp_subsec_nanos())),
        Err(_) => None,
    }
}

/// Builds the instant with `chrono`'s `DateTime::from_timestamp` and writes
/// it with `DateTime::to_rfc3339_opts` (subseconds as short as they can be,
/// `Z` for the offset). The answer is taken on trust to depend on the two
/// numbers alone; `None` stands for an instant that `from_timestamp` refuses.
#[verifier::external_body]
fn format_instant(seconds: i64, nanos: u32) -> (text: Option<String>)
    ensures
        text.deep_view() == instant_text(seconds, nanos),
{
    match chrono::DateTime::from_timestamp(seconds, nanos) {
        Some(at) => Some(at.to_rfc3339_opts(chrono::SecondsFormat::AutoSi, true)),
        None => None,
    }
}

/// The timestamp that a parsed instant stands for.
pub fn timestamp_of(at: Option<(i64, u32)>, member: Member) -> (read: Result<
    Option<Timestamp>,
    SchemaError,
>)
    ensures
        read == match at {
            Some(parts) => Ok::<Option<Timestamp>, SchemaError>(
                Some(Timestamp { seconds: parts.0, nanos: parts.1 }),
            ),
            None => Err::<Option<Timestamp>, SchemaError>(SchemaError::Malformed(member)),
        },
{
    match at {
        Some(parts) => Ok(Some(Timestamp { seconds: parts.0, nanos: parts.1 })),
        None => Err(SchemaError::Malformed(member)),
    }
}

fn read_optional_instant(v: &Json, key: &str, member: Member) -> (read: Result<
    Option<Timestamp>,
    SchemaError,
>)
    ensures
        read == optional_instant_at(v@, key@, member),
{
    match v.member(key) {
        None => Ok(None),
        Some(Json::Null) => Ok(None),
        Some(Json::Text(s)) => timestamp_of(parse_instant(s.as_str()), member),
        Some(_) => Err(SchemaError::Malformed(member)),
    }
}

fn read_optional_texts(v: &Json, key: &str, member: Member) -> (read: Result<
    Option<Vec<String>>,
    SchemaError,
>)
    ensures
        agrees(read, optional_texts_at(v@, key@, member)),
{
    match v.member(key) {
        None => Ok(None),
        Some(Json::Null) => Ok(None),
        Some(holder) => match holder {
            Json::Array(items) => {
                proof {
                    holder.lemma_array_view();
                }
                let ghost views = holder@->Array_0;
                let mut out: Vec<String> = Vec::new();
                let mut i: usize = 0;
                while i < items.len()
                    invariant
                        i <= items.len(),
                        v@.member(key@) == Some(JsonValue::Array(views)),
                        views.len() == items.len(),
                        forall|j: int| 0 <= j < items.len() ==> views[j] == items@[j]@,
                        forall|j: int| 0 <= j < i ==> (#[trigger] views[j]) is Text,
                        out.len() == i,
                        forall|j: int| 0 <= j < i ==> (#[trigger] out@[j])@ == views[j]->Text_0,
                    decreases items.len() - i,
                {
                    match &items[i] {
                        Json::Text(s) => {
                            out.push(s.clone());
                        },
                        _ => {
                            assert(!(views[i as int] is Text));
                            return Err(SchemaError::Malformed(member));
                        },
                    }
                    i += 1;
                }
                assert(all_texts(views));
                assert(out.deep_view() =~= views.map_values(|x: JsonValue| x->Text_0));
                Ok(Some(out))
            },
            _ => Err(SchemaError::Malformed(member)),
        },
    }
}

fn read_size(v: &Json) -> (read: Result<Option<Size>, SchemaError>)
    ensures
        read == size_at(v@),
{
    match v.member("size") {
        None => Ok(None),
        Some(Json::Null) => Ok(None),
        Some(holder) => match holder {
            Json::Object(_) => {
                let min = read_optional_number(holder, "min", Member::Min)?;
                let max = read_optional_number(holder, "max", Member::Max)?;
                Ok(Some(Size { min, max }))
            },
            _ => Err(SchemaError::Malformed(Member::Size)),
        },
    }
}

fn read_regex(v: &Json) -> (read: Result<Option<Regex>, SchemaError>)
    ensures
        agrees(read, regex_at(v@)),
{
    match v.member("regex") {
        None => Ok(None),
        Some(Json::Null) => Ok(None),
        Some(holder) => match holder {
            Json::Object(_) => {
                let pattern = read_text(holder, "pattern", Member::Pattern)?;
                let flags = read_optional_text(holder, "flags", Member::Flags)?;
                Ok(Some(Regex { pattern, flags }))
            },
            _ => Err(SchemaError::Malformed(Member::Regex)),
        },
    }
}

/// Reads one validation entry.
pub fn read_validation(v: &Json) -> (read: Result<Validation, SchemaError>)
    ensures
        agrees(read, validation_of(v@)),
{
    reveal(validation_of);
    match v {
        Json::Object(_) => {},
        _ => {
            return Err(SchemaError::Malformed(Member::Validations));
        },
    }
    let unique = read_optional_flag(v, "unique", Member::Unique)?;
    let size = read_size(v)?;
    let regex = read_regex(v)?;
    let link_content_type = read_optional_texts(v, "linkContentType", Member::LinkContentType)?;
    let in_ = read_optional_texts(v, "in", Member::In)?;
    Ok(Validation { unique, size, regex, link_content_type, in_ })
}

fn read_validations(v: &Json) -> (read: Result<Vec<Validation>, SchemaError>)
    ensures
        agrees(read, validations_at(v@)),
{
    let holder = match v.member("validations") {
        Some(holder) => holder,
        None => {
            return Err(SchemaError::Missing(Member::Validations));
        },
    };
    let items = match holder {
        Json::Array(items) => items,
        _ => {
            return Err(SchemaError::Malformed(Member::Validations));
        },
    };
    proof {
        holder.lemma_array_view();
    }
    let ghost views = holder@->Array_0;
    let ghost broken = views.map_values(|x: JsonValue| validation_of(x) is Err);
    let mut out: Vec<Validation> = Vec::new();
    let mut i: usize = 0;
    while i < items.len()
        invariant
            i <= items.len(),
            v@.member("validations"@) == Some(JsonValue::Array(views)),
            views.len() == items.len(),
            broken == views.map_values(|x: JsonValue| validation_of(x) is Err),
            forall|j: int| 0 <= j < items.len() ==> views[j] == items@[j]@,
            forall|j: int| 0 <= j < i ==> !broken[j],
            out.len() == i,
            forall|j: int| 0 <= j < i ==> (#[trigger] out@[j])@ == validation_of(views[j])->Ok_0,
        decreases items.len() - i,
    {
        match read_validation(&items[i]) {
            Ok(validation) => {
                assert(!broken[i as int]);
                out.push(validation);
            },
            Err(e) => {
                proof {
                    assert(broken[i as int]);
                    assert(is_first_at(broken, true, i as int));
                    lemma_position_found(broken, true, i as int);
                }
                return Err(e);
            },
        }
        i += 1;
    }
    proof {
        lemma_position_absent(broken, true);
        assert(out.deep_view() =~= views.map_values(|x: JsonValue| validation_of(x)->Ok_0));
    }
    Ok(out)
}

/// Reads one field.
pub fn read_field(v: &Json) -> (read: Result<Field, SchemaError>)
    ensures
        agrees(read, field_of(v@)),
{
    reveal(field_of);
    match v {
        Json::Object(_) => {},
        _ => {
            return Err(SchemaError::Malformed(Member::Fields));
        },
    }
    let id = read_text(v, "id", Member::FieldId)?;
    let name = read_text(v, "name", Member::FieldName)?;
    let type_ = read_text(v, "type", Member::FieldType)?;
    let required = read_flag(v, "required", Member::Required)?;
    let localized = read_flag(v, "localized", Member::Localized)?;
    let validations = read_validations(v)?;
    let disabled = read_flag(v, "disabled", Member::Disabled)?;
    let omitted = read_flag(v, "omitted", Member::Omitted)?;
    Ok(Field { id, name, type_, required, localized, validations, disabled, omitted })
}

fn read_fields(v: &Json) -> (read: Result<Vec<Field>, SchemaError>)
    ensures
        agrees(read, fields_at(v@)),
{
    let holder = match v.member("fields") {
        Some(holder) => holder,
        None => {
            return Err(SchemaError::Missing(Member::Fields));
        },
    };
    let items = match holder {
        Json::Array(items) => items,
        _ => {
            return Err(SchemaError::Malformed(Member::Fields));
        },
    };
    proof {
        holder.lemma_array_view();
    }
    let ghost views = holder@->Array_0;
    let ghost broken = views.map_values(|x: JsonValue| field_of(x) is Err);
    let mut out: Vec<Field> = Vec::new();
    let mut i: usize = 0;
    while i < items.len()
        invariant
            i <= items.len(),
            v@.member("fields"@) == Some(JsonValue::Array(views)),
            views.len() == items.len(),
            broken == views.map_values(|x: JsonValue| field_of(x) is Err),
            forall|j: int| 0 <= j < items.len() ==> views[j] == items@[j]@,
            forall|j: int| 0 <= j < i ==> !broken[j],
            out.len() == i,
            forall|j: int| 0 <= j < i ==> (#[trigger] out@[j])@ == field_of(views[j])->Ok_0,
        decreases items.len() - i,
    {
        match read_field(&items[i]) {
            Ok(field) => {
                assert(!broken[i as int]);
                out.push(field);
            },
            Err(e) => {
                proof {
                    assert(broken[i as int]);
                    assert(is_first_at(broken, true, i as int));
                    lemma_position_found(broken, true, i as int);
                }
                return Err(e);
            },
        }
        i += 1;
    }
    proof {
        lemma_position_absent(broken, true);
        assert(out.deep_view() =~= views.map_values(|x: JsonValue| field_of(x)->Ok_0));
    }
    Ok(out)
}

fn read_sys(v: &Json) -> (read: Result<SystemProperties, SchemaError>)
    ensures
        agrees(read, sys_at(v@)),
{
    let holder = match v.member("sys") {
        Some(holder) => holder,
        None => {
            return Err(SchemaError::Missing(Member::Sys));
        },
    };
    match holder {
        Json::Object(_) => {},
        _ => {
            return Err(SchemaError::Malformed(Member::Sys));
        },
    }
    let id = read_text(holder, "id", Member::Id)?;
    let version = read_optional_number(holder, "version", Member::Version)?;
    let revision = read_optional_number(holder, "revision", Member::Revision)?;
    let created_at = read_optional_instant(holder, "createdAt", Member::CreatedAt)?;
    let updated_at = read_optional_instant(holder, "updatedAt", Member::UpdatedAt)?;
    Ok(SystemProperties { id, version, revision, created_at, updated_at })
}

/// Reads a content type out of its wire form.
///
/// Succeeds exactly when every member that must be there is, and every
/// member that is there has its type. Otherwise the first fault is returned,
/// in the order name, description, display field, fields, system properties.
pub fn read_content_type(v: &Json) -> (read: Result<ContentType, SchemaError>)
    ensures
        agrees(read, content_type_of(v@)),
{
    reveal(content_type_of);
    match v {
        Json::Object(_) => {},
        _ => {
            return Err(SchemaError::NotAnObject);
        },
    }
    let name = read_text(v, "name", Member::Name)?;
    let description = read_optional_text(v, "description", Member::Description)?;
    let display_field = read_optional_text(v, "displayField", Member::DisplayField)?;
    let fields = read_fields(v)?;
    let system_properties = read_sys(v)?;
    Ok(ContentType { name, description, display_field, fields, system_properties })
}

/// Reads a schema out of a collection `{items: [...]}` of content types.
pub fn read_schema(v: &Json) -> (read: Result<Vec<ContentType>, SchemaError>)
    ensures
        agrees(read, schema_of(v@)),
{
    let holder = match v.member("items") {
        Some(holder) => holder,
        None => {
            return Err(SchemaError::Missing(Member::Items));
        },
    };
    let items = match holder {
        Json::Array(items) => items,
        _ => {
            return Err(SchemaError::Malformed(Member::Items));
        },
    };
    proof {
        holder.lemma_array_view();
    }
    let ghost views = holder@->Array_0;
    let ghost broken = views.map_values(|x: JsonValue| content_type_of(x) is Err);
    let mut out: Vec<ContentType> = Vec::new();
    let mut i: usize = 0;
    while i < items.len()
        invariant
            i <= items.len(),
            v@.member("items"@) == Some(JsonValue::Array(views)),
            views.len() == items.len(),
            broken == views.map_values(|x: JsonValue| content_type_of(x) is Err),
            forall|j: int| 0 <= j < items.len() ==> views[j] == items@[j]@,
            forall|j: int| 0 <= j < i ==> !broken[j],
            out.len() == i,
            forall|j: int|
                0 <= j < i ==> (#[trigger] out@[j])@ == content_type_of(views[j])->Ok_0,
        decreases items.len() - i,
    {
        match read_content_type(&items[i]) {
            Ok(content_type) => {
                assert(!broken[i as int]);
                out.push(content_type);
            },
            Err(e) => {
                proof {
                    assert(broken[i as int]);
                    assert(is_first_at(broken, true, i as int));
                    lemma_position_found(broken, true, i as int);
                }
                return Err(e);
            },
        }
        i += 1;
    }
    proof {
        lemma_position_absent(broken, true);
        assert(out.deep_view() =~= views.map_values(|x: JsonValue| content_type_of(x)->Ok_0));
    }
    Ok(out)
}

/// The wire form of an optional text: null for "no value".
pub open spec fn optional_text_json(x: Option<Seq<char>>) -> JsonValue {
    match x {
        Some(s) => JsonValue::Text(s),
        None => JsonValue::Null,
    }
}

/// The wire form of an optional flag.
pub open spec fn optional_flag_json(x: Option<bool>) -> JsonValue {
    match x {
        Some(b) => JsonValue::Bool(b),
        None => JsonValue::Null,
    }
}

/// The wire form of an optional number.
pub open spec fn optional_number_json(x: Option<i32>) -> JsonValue {
    match x {
        Some(k) => JsonValue::Integer(k as int),
        None => JsonValue::Null,
    }
}

/// The wire form of an optional point in time. An instant that cannot be
/// written is written as null.
pub open spec fn optional_instant_json(x: Option<Timestamp>) -> JsonValue {
    match x {
        Some(at) => optional_text_json(instant_text(at.seconds, at.nanos)),
        None => JsonValue::Null,
    }
}

/// The wire form of each text of a list.
pub open spec fn texts_json(list: Seq<Seq<char>>) -> Seq<JsonValue> {
    list.map_values(|s: Seq<char>| JsonValue::Text(s))
}

/// The wire form of an optional list of texts.
pub open spec fn optional_texts_json(x: Option<Seq<Seq<char>>>) -> JsonValue {
    match x {
        Some(list) => JsonValue::Array(texts_json(list)),
        None => JsonValue::Null,
    }
}

/// The members of the wire form of a size.
pub open spec fn size_members(size: Size) -> Seq<(Seq<char>, JsonValue)> {
    seq![("min"@, optional_number_json(size.min)), ("max"@, optional_number_json(size.max))]
}

/// The wire form of an optional size.
pub open spec fn optional_size_json(x: Option<Size>) -> JsonValue {
    match x {
        Some(size) => JsonValue::Object(size_members(size)),
        None => JsonValue::Null,
    }
}

/// The members of the wire form of a regex.
pub open spec fn regex_members(regex: RegexView) -> Seq<(Seq<char>, JsonValue)> {
    seq![("pattern"@, JsonValue::Text(regex.pattern)), ("flags"@, optional_text_json(regex.flags))]
}

/// The wire form of an optional regex.
pub open spec fn optional_regex_json(x: Option<RegexView>) -> JsonValue {
    match x {
        Some(regex) => JsonValue::Object(regex_members(regex)),
        None => JsonValue::Null,
    }
}

/// The members of the wire form of a validation entry.
pub open spec fn validation_members(v: ValidationView) -> Seq<(Seq<char>, JsonValue)> {
    seq![
        ("unique"@, optional_flag_json(v.unique)),
        ("size"@, optional_size_json(v.size)),
        ("regex"@, optional_regex_json(v.regex)),
        ("linkContentType"@, optional_texts_json(v.link_content_type)),
        ("in"@, optional_texts_json(v.in_)),
    ]
}

/// The wire form of a validation entry.
pub open spec fn validation_json(v: ValidationView) -> JsonValue {
    JsonValue::Object(validation_members(v))
}

/// The wire form of each validation entry of a list.
pub open spec fn validations_json(list: Seq<ValidationView>) -> Seq<JsonValue> {
    list.map_values(|v: ValidationView| validation_json(v))
}

/// The members of the wire form of a field.
pub open spec fn field_members(f: FieldView) -> Seq<(Seq<char>, JsonValue)> {
    seq![
        ("id"@, JsonValue::Text(f.id)),
        ("name"@, JsonValue::Text(f.name)),
        ("type"@, JsonValue::Text(f.type_)),
        ("required"@, JsonValue::Bool(f.required)),
        ("localized"@, JsonValue::Bool(f.localized)),
        ("validations"@, JsonValue::Array(validations_json(f.validations))),
        ("disabled"@, JsonValue::Bool(f.disabled)),
        ("omitted"@, JsonValue::Bool(f.omitted)),
    ]
}

/// The wire form of a field.
pub open spec fn field_json(f: FieldView) -> JsonValue {
    JsonValue::Object(field_members(f))
}

/// The wire form of each field of a list.
pub open spec fn fields_json(list: Seq<FieldView>) -> Seq<JsonValue> {
    list.map_values(|f: FieldView| field_json(f))
}

/// The members of the wire form of the system properties.
pub open spec fn sys_members(sys: SystemPropertiesView) -> Seq<(Seq<char>, JsonValue)> {
    seq![
        ("id"@, JsonValue::Text(sys.id)),
        ("version"@, optional_number_json(sys.version)),
        ("revision"@, optional_number_json(sys.revision)),
        ("createdAt"@, optional_instant_json(sys.created_at)),
        ("updatedAt"@, optional_instant_json(sys.updated_at)),
    ]
}

/// The members of the wire form of a content type.
pub open spec fn content_type_members(ct: ContentTypeView) -> Seq<(Seq<char>, JsonValue)> {
    seq![
        ("name"@, JsonValue::Text(ct.name)),
        ("description"@, optional_text_json(ct.description)),
        ("displayField"@, optional_text_json(ct.display_field)),
        ("fields"@, JsonValue::Array(fields_json(ct.fields))),
        ("sys"@, JsonValue::Object(sys_members(ct.system_properties))),
    ]
}

/// The wire form of a content type. Every member is written; "no value" is
/// written as null.
pub open spec fn content_type_json(ct: ContentTypeView) -> JsonValue {
    JsonValue::Object(content_type_members(ct))
}

fn write_optional_text(x: &Option<String>) -> (json: Json)
    ensures
        json@ == optional_text_json(x.deep_view()),
{
    match x {
        Some(s) => Json::Text(s.clone()),
        None => Json::Null,
    }
}

fn write_optional_flag(x: Option<bool>) -> (json: Json)
    ensures
        json@ == optional_flag_json(x),
{
    match x {
        Some(b) => Json::Bool(b),
        None => Json::Null,
    }
}

fn write_optional_number(x: Option<i32>) -> (json: Json)
    ensures
        json@ == optional_number_json(x),
{
    match x {
        Some(k) => Json::Integer(k as i64),
        None => Json::Null,
    }
}

/// The wire form of a written instant: its text, or null for an instant
/// that could not be written.
pub fn instant_json(text: Option<String>) -> (json: Json)
    ensures
        json@ == optional_text_json(text.deep_view()),
{
    match text {
        Some(text) => Json::Text(text),
        None => Json::Null,
    }
}

fn write_optional_instant(x: Option<Timestamp>) -> (json: Json)
    ensures
        json@ == optional_instant_json(x),
{
    match x {
        Some(at) => instant_json(format_instant(at.seconds, at.nanos)),
        None => Json::Null,
    }
}

fn write_optional_texts(x: &Option<Vec<String>>) -> (json: Json)
    ensures
        json@ == optional_texts_json(x.deep_view()),
{
    match x {
        Some(list) => {
            let mut items: Vec<Json> = Vec::new();
            let mut i: usize = 0;
            while i < list.len()
                invariant
                    i <= list.len(),
                    items.len() == i,
                    forall|j: int|
                        0 <= j < i ==> (#[trigger] items@[j])@ == JsonValue::Text(list@[j]@),
                decreases list.len() - i,
            {
                items.push(Json::Text(list[i].clone()));
                i += 1;
            }
            let json = Json::Array(items);
            proof {
                json.lemma_array_view();
                assert(json@->Array_0 =~= texts_json(list.deep_view()));
            }
            json
        },
        None => Json::Null,
    }
}

/// Makes an object of the given members.
fn object_of(members: Vec<(String, Json)>) -> (json: Json)
    ensures
        json@ is Object,
        json@->Object_0.len() == members.len(),
        forall|j: int|
            0 <= j < members.len() ==> (#[trigger] json@->Object_0[j]) == (
                members@[j].0@,
                members@[j].1@,
            ),
{
    let json = Json::Object(members);
    proof {
        json.lemma_object_view();
    }
    json
}

fn write_optional_size(x: Option<Size>) -> (json: Json)
    ensures
        json@ == optional_size_json(x),
{
    match x {
        Some(size) => {
            let mut members: Vec<(String, Json)> = Vec::new();
            members.push(("min".to_owned(), write_optional_number(size.min)));
            members.push(("max".to_owned(), write_optional_number(size.max)));
            let json = object_of(members);
            assert(json@->Object_0 =~= size_members(size));
            json
        },
        None => Json::Null,
    }
}

fn write_optional_regex(x: &Option<Regex>) -> (json: Json)
    ensures
        json@ == optional_regex_json(x.deep_view()),
{
    match x {
        Some(regex) => {
            let mut members: Vec<(String, Json)> = Vec::new();
            members.push(("pattern".to_owned(), Json::Text(regex.pattern.clone())));
            members.push(("flags".to_owned(), write_optional_text(&regex.flags)));
            let json = object_of(members);
            assert(json@->Object_0 =~= regex_members(regex@));
            json
        },
        None => Json::Null,
    }
}

/// Writes one validation entry.
pub fn write_validation(v: &Validation) -> (json: Json)
    ensures
        json@ == validation_json(v@),
{
    let mut members: Vec<(String, Json)> = Vec::new();
    members.push(("unique".to_owned(), write_optional_flag(v.unique)));
    members.push(("size".to_owned(), write_optional_size(v.size)));
    members.push(("regex".to_owned(), write_optional_regex(&v.regex)));
    members.push(("linkContentType".to_owned(), write_optional_texts(&v.link_content_type)));
    members.push(("in".to_owned(), write_optional_texts(&v.in_)));
    let json = object_of(members);
    assert(json@->Object_0 =~= validation_members(v@));
    json
}

fn write_validations(list: &Vec<Validation>) -> (json: Json)
    ensures
        json@ == JsonValue::Array(validations_json(list.deep_view())),
{
    let mut items: Vec<Json> = Vec::new();
    let mut i: usize = 0;
    while i < list.len()
        invariant
            i <= list.len(),
            items.len() == i,
            forall|j: int| 0 <= j < i ==> (#[trigger] items@[j])@ == validation_json(list@[j]@),
        decreases list.len() - i,
    {
        items.push(write_validation(&list[i]));
        i += 1;
    }
    let json = Json::Array(items);
    proof {
        json.lemma_array_view();
        assert(json@->Array_0 =~= validations_json(list.deep_view()));
    }
    json
}

/// Writes one field.
pub fn write_field(f: &Field) -> (json: Json)
    ensures
        json@ == field_json(f@),
{
    let mut members: Vec<(String, Json)> = Vec::new();
    members.push(("id".to_owned(), Json::Text(f.id.clone())));
    members.push(("name".to_owned(), Json::Text(f.name.clone())));
    members.push(("type".to_owned(), Json::Text(f.type_.clone())));
    members.push(("required".to_owned(), Json::Bool(f.required)));
    members.push(("localized".to_owned(), Json::Bool(f.localized)));
    members.push(("validations".to_owned(), write_validations(&f.validations)));
    members.push(("disabled".to_owned(), Json::Bool(f.disabled)));
    members.push(("omitted".to_owned(), Json::Bool(f.omitted)));
    let json = object_of(members);
    assert(json@->Object_0 =~= field_members(f@));
    json
}

fn write_fields(list: &Vec<Field>) -> (json: Json)
    ensures
        json@ == JsonValue::Array(fields_json(list.deep_view())),
{
    let mut items: Vec<Json> = Vec::new();
    let mut i: usize = 0;
    while i < list.len()
        invariant
            i <= list.len(),
            items.len() == i,
            forall|j: int| 0 <= j < i ==> (#[trigger] items@[j])@ == field_json(list@[j]@),
        decreases list.len() - i,
    {
        items.push(write_field(&list[i]));
        i += 1;
    }
    let json = Json::Array(items);
    proof {
        json.lemma_array_view();
        assert(json@->Array_0 =~= fields_json(list.deep_view()));
    }
    json
}

fn write_sys(sys: &SystemProperties) -> (json: Json)
    ensures
        json@ == JsonValue::Object(sys_members(sys@)),
{
    let mut members: Vec<(String, Json)> = Vec::new();
    members.push(("id".to_owned(), Json::Text(sys.id.clone())));
    members.push(("version".to_owned(), write_optional_number(sys.version)));
    members.push(("revision".to_owned(), write_optional_number(sys.revision)));
    members.push(("createdAt".to_owned(), write_optional_instant(sys.created_at)));
    members.push(("updatedAt".to_owned(), write_optional_instant(sys.updated_at)));
    let json = object_of(members);
    assert(json@->Object_0 =~= sys_members(sys@));
    json
}

/// Writes a content type in its wire form.
pub fn write_content_type(ct: &ContentType) -> (json: Json)
    ensures
        json@ == content_type_json(ct@),
{
    let mut members: Vec<(String, Json)> = Vec::new();
    members.push(("name".to_owned(), Json::Text(ct.name.clone())));
    members.push(("description".to_owned(), write_optional_text(&ct.description)));
    members.push(("displayField".to_owned(), write_optional_text(&ct.display_field)));
    members.push(("fields".to_owned(), write_fields(&ct.fields)));
    members.push(("sys".to_owned(), write_sys(&ct.system_properties)));
    let json = object_of(members);
    assert(json@->Object_0 =~= content_type_members(ct@));
    json
}

/// A member of an object is found under its name where no earlier member
/// has the same name.
proof fn lemma_lookup(members: Seq<(Seq<char>, JsonValue)>, i: int)
    requires
        0 <= i < members.len(),
        forall|j: int| 0 <= j < i ==> (#[trigger] members[j]).0 != members[i].0,
    ensures
        JsonValue::Object(members).member(members[i].0) == Some(members[i].1),
{
    let names = JsonValue::Object(members).member_names();
    assert(is_first_at(names, members[i].0, i));
    lemma_position_found(names, members[i].0, i);
}

/// The member names of the wire form differ from each other wherever two of
/// them stand in one object.
proof fn lemma_names_differ()
    ensures
        "min"@ != "max"@,
        "pattern"@ != "flags"@,
        "unique"@ != "size"@,
        "unique"@ != "regex"@,
        "unique"@ != "linkContentType"@,
        "unique"@ != "in"@,
        "size"@ != "regex"@,
        "size"@ != "linkContentType"@,
        "size"@ != "in"@,
        "regex"@ != "linkContentType"@,
        "regex"@ != "in"@,
        "linkContentType"@ != "in"@,
        "id"@ != "name"@,
        "id"@ != "type"@,
        "id"@ != "required"@,
        "id"@ != "localized"@,
        "id"@ != "validations"@,
        "id"@ != "disabled"@,
        "id"@ != "omitted"@,
        "name"@ != "type"@,
        "name"@ != "required"@,
        "name"@ != "localized"@,
        "name"@ != "validations"@,
        "name"@ != "disabled"@,
        "name"@ != "omitted"@,
        "type"@ != "required"@,
        "type"@ != "localized"@,
        "type"@ != "validations"@,
        "type"@ != "disabled"@,
        "type"@ != "omitted"@,
        "required"@ != "localized"@,
        "required"@ != "validations"@,
        "required"@ != "disabled"@,
        "required"@ != "omitted"@,
        "localized"@ != "validations"@,
        "localized"@ != "disabled"@,
        "localized"@ != "omitted"@,
        "validations"@ != "disabled"@,
        "validations"@ != "omitted"@,
        "disabled"@ != "omitted"@,
        "id"@ != "version"@,
        "id"@ != "revision"@,
        "id"@ != "createdAt"@,
        "id"@ != "updatedAt"@,
        "version"@ != "revision"@,
        "version"@ != "createdAt"@,
        "version"@ != "updatedAt"@,
        "revision"@ != "createdAt"@,
        "revision"@ != "updatedAt"@,
        "createdAt"@ != "updatedAt"@,
        "name"@ != "description"@,
        "name"@ != "displayField"@,
        "name"@ != "fields"@,
        "name"@ != "sys"@,
        "description"@ != "displayField"@,
        "description"@ != "fields"@,
        "description"@ != "sys"@,
        "displayField"@ != "fields"@,
        "displayField"@ != "sys"@,
        "fields"@ != "sys"@,
{
    reveal_strlit("min");
    reveal_strlit("max");
    reveal_strlit("pattern");
    reveal_strlit("flags");
    reveal_strlit("unique");
    reveal_strlit("size");
    reveal_strlit("regex");
    reveal_strlit("linkContentType");
    reveal_strlit("in");
    reveal_strlit("id");
    reveal_strlit("name");
    reveal_strlit("type");
    reveal_strlit("required");
    reveal_strlit("localized");
    reveal_strlit("validations");
    reveal_strlit("disabled");
    reveal_strlit("omitted");
    reveal_strlit("version");
    reveal_strlit("revision");
    reveal_strlit("createdAt");
    reveal_strlit("updatedAt");
    reveal_strlit("description");
    reveal_strlit("displayField");
    reveal_strlit("fields");
    reveal_strlit("sys");
    assert("min"@.len() == 3);
    assert("max"@.len() == 3);
    assert("pattern"@.len() == 7);
    assert("flags"@.len() == 5);
    assert("unique"@.len() == 6);
    assert("size"@.len() == 4);
    assert("regex"@.len() == 5);
    assert("linkContentType"@.len() == 15);
    assert("in"@.len() == 2);
    assert("id"@.len() == 2);
    assert("name"@.len() == 4);
    assert("type"@.len() == 4);
    assert("required"@.len() == 8);
    assert("localized"@.len() == 9);
    assert("validations"@.len() == 11);
    assert("disabled"@.len() == 8);
    assert("omitted"@.len() == 7);
    assert("version"@.len() == 7);
    assert("revision"@.len() == 8);
    assert("createdAt"@.len() == 9);
    assert("updatedAt"@.len() == 9);
    assert("description"@.len() == 11);
    assert("displayField"@.len() == 12);
    assert("fields"@.len() == 6);
    assert("sys"@.len() == 3);
    assert("min"@[1] != "max"@[1]);
    assert("name"@[0] != "type"@[0]);
    assert("required"@[0] != "disabled"@[0]);
    assert("createdAt"@[0] != "updatedAt"@[0]);
}

/// A point in time survives being written and read back.
pub open spec fn instant_returns(x: Option<Timestamp>) -> bool {
    x matches Some(at) ==> (instant_text(at.seconds, at.nanos) matches Some(text) && instant_of(
        text,
    ) == Some((at.seconds, at.nanos)))
}

proof fn lemma_texts_return(list: Seq<Seq<char>>)
    ensures
        all_texts(texts_json(list)),
        texts_json(list).map_values(|x: JsonValue| x->Text_0) == list,
{
    assert(texts_json(list).map_values(|x: JsonValue| x->Text_0) =~= list);
}

/// A validation entry that is written and read back is the same entry.
pub proof fn lemma_validation_returns(v: ValidationView)
    ensures
        validation_of(validation_json(v)) == Ok::<ValidationView, SchemaError>(v),
{
    reveal(validation_of);
    lemma_names_differ();
    let json = validation_json(v);
    let members = validation_members(v);
    lemma_lookup(members, 0);
    lemma_lookup(members, 1);
    lemma_lookup(members, 2);
    lemma_lookup(members, 3);
    lemma_lookup(members, 4);
    match v.size {
        Some(size) => {
            lemma_lookup(size_members(size), 0);
            lemma_lookup(size_members(size), 1);
        },
        None => {},
    }
    match v.regex {
        Some(regex) => {
            lemma_lookup(regex_members(regex), 0);
            lemma_lookup(regex_members(regex), 1);
        },
        None => {},
    }
    match v.link_content_type {
        Some(list) => {
            lemma_texts_return(list);
        },
        None => {},
    }
    match v.in_ {
        Some(list) => {
            lemma_texts_return(list);
        },
        None => {},
    }
    assert(size_at(json) == Ok::<Option<Size>, SchemaError>(v.size));
    assert(regex_at(json) == Ok::<Option<RegexView>, SchemaError>(v.regex));
}

proof fn lemma_validations_return(list: Seq<ValidationView>)
    ensures
        validations_of(validations_json(list)) == Ok::<Seq<ValidationView>, SchemaError>(list),
{
    let items = validations_json(list);
    let broken = items.map_values(|x: JsonValue| validation_of(x) is Err);
    assert forall|j: int| 0 <= j < broken.len() implies broken[j] != true by {
        lemma_validation_returns(list[j]);
    }
    lemma_position_absent(broken, true);
    let read = items.map_values(|x: JsonValue| validation_of(x)->Ok_0);
    assert forall|j: int| 0 <= j < list.len() implies #[trigger] read[j] == list[j] by {
        lemma_validation_returns(list[j]);
    }
    assert(read =~= list);
}

/// A field that is written and read back is the same field.
pub proof fn lemma_field_returns(f: FieldView)
    ensures
        field_of(field_json(f)) == Ok::<FieldView, SchemaError>(f),
{
    reveal(field_of);
    lemma_names_differ();
    let members = field_members(f);
    lemma_lookup(members, 0);
    lemma_lookup(members, 1);
    lemma_lookup(members, 2);
    lemma_lookup(members, 3);
    lemma_lookup(members, 4);
    lemma_lookup(members, 5);
    lemma_lookup(members, 6);
    lemma_lookup(members, 7);
    lemma_validations_return(f.validations);
}

proof fn lemma_fields_return(list: Seq<FieldView>)
    ensures
        fields_of(fields_json(list)) == Ok::<Seq<FieldView>, SchemaError>(list),
{
    let items = fields_json(list);
    let broken = items.map_values(|x: JsonValue| field_of(x) is Err);
    assert forall|j: int| 0 <= j < broken.len() implies broken[j] != true by {
        lemma_field_returns(list[j]);
    }
    lemma_position_absent(broken, true);
    let read = items.map_values(|x: JsonValue| field_of(x)->Ok_0);
    assert forall|j: int| 0 <= j < list.len() implies #[trigger] read[j] == list[j] by {
        lemma_field_returns(list[j]);
    }
    assert(read =~= list);
}

/// Nothing is lost on the wire: a content type that is written and read
/// back is the same content type, provided its two points in time survive
/// being written and read back.
pub proof fn lemma_content_type_returns(ct: ContentTypeView)
    requires
        instant_returns(ct.system_properties.created_at),
        instant_returns(ct.system_properties.updated_at),
    ensures
        content_type_of(content_type_json(ct)) == Ok::<ContentTypeView, SchemaError>(ct),
{
    reveal(content_type_of);
    lemma_names_differ();
    let json = content_type_json(ct);
    let members = content_type_members(ct);
    lemma_lookup(members, 0);
    lemma_lookup(members, 1);
    lemma_lookup(members, 2);
    lemma_lookup(members, 3);
    lemma_lookup(members, 4);
    let sys = sys_members(ct.system_properties);
    lemma_lookup(sys, 0);
    lemma_lookup(sys, 1);
    lemma_lookup(sys, 2);
    lemma_lookup(sys, 3);
    lemma_lookup(sys, 4);
    lemma_fields_return(ct.fields);
    assert(fields_at(json) == Ok::<Seq<FieldView>, SchemaError>(ct.fields));
    assert(sys_at(json) == Ok::<SystemPropertiesView, SchemaError>(ct.system_properties));
}

} // verus!
