//! The schema model: content types, their fields and the validation rules
//! declared on each field.

use vstd::prelude::*;
use crate::seqs::{is_first_at, lemma_position_absent, lemma_position_found, position};
use crate::text::str_eq;

verus! {

/// Inclusive bounds on a length or on a number. A missing bound leaves that side open.
#[derive(Clone, Copy, Debug, PartialEq, Eq)]
pub struct Size {
    pub min: Option<i32>,
    pub max: Option<i32>,
}

/// A pattern with its optional flag letters.
#[derive(Clone, Debug, PartialEq, Eq)]
pub struct Regex {
    pub pattern: String,
    pub flags: Option<String>,
}

/// The mathematical value of a [`Regex`].
pub struct RegexView {
    pub pattern: Seq<char>,
    pub flags: Option<Seq<char>>,
}

impl DeepView for Regex {
    type V = RegexView;

    open spec fn deep_view(&self) -> RegexView {
        RegexView { pattern: self.pattern@, flags: self.flags.deep_view() }
    }
}

impl View for Regex {
    type V = RegexView;

    open spec fn view(&self) -> RegexView {
        self.deep_view()
    }
}

/// One entry of a field's validation list: a sparse set of constraint clauses.
#[derive(Clone, Debug, PartialEq, Eq)]
pub struct Validation {
    pub unique: Option<bool>,
    pub size: Option<Size>,
    pub regex: Option<Regex>,
    pub link_content_type: Option<Vec<String>>,
    pub in_: Option<Vec<String>>,
}

/// The mathematical value of a [`Validation`].
pub struct ValidationView {
    pub unique: Option<bool>,
    pub size: Option<Size>,
    pub regex: Option<RegexView>,
    pub link_content_type: Option<Seq<Seq<char>>>,
    pub in_: Option<Seq<Seq<char>>>,
}

impl DeepView for Validation {
    type V = ValidationView;

    open spec fn deep_view(&self) -> ValidationView {
        ValidationView {
            unique: self.unique,
            size: self.size,
            regex: self.regex.deep_view(),
            link_content_type: self.link_content_type.deep_view(),
            in_: self.in_.deep_view(),
        }
    }
}

impl View for Validation {
    type V = ValidationView;

    open spec fn view(&self) -> ValidationView {
        self.deep_view()
    }
}

/// The declared type of a field.
#[derive(Clone, Copy, Debug, PartialEq, Eq)]
pub enum FieldType {
    Symbol,
    Text,
    Integer,
    Number,
    Boolean,
    Date,
    Link,
    Array,
    Object,
    Location,
    RichText,
}

/// The field type that a type tag names, if it names one.
pub open spec fn field_type_of(tag: Seq<char>) -> Option<FieldType> {
    if tag == "Symbol"@ {
        Some(FieldType::Symbol)
    } else if tag == "Text"@ {
        Some(FieldType::Text)
    } else if tag == "Integer"@ {
        Some(FieldType::Integer)
    } else if tag == "Number"@ {
        Some(FieldType::Number)
    } else if tag == "Boolean"@ {
        Some(FieldType::Boolean)
    } else if tag == "Date"@ {
        Some(FieldType::Date)
    } else if tag == "Link"@ {
        Some(FieldType::Link)
    } else if tag == "Array"@ {
        Some(FieldType::Array)
    } else if tag == "Object"@ {
        Some(FieldType::Object)
    } else if tag == "Location"@ {
        Some(FieldType::Location)
    } else if tag == "RichText"@ {
        Some(FieldType::RichText)
    } else {
        None
    }
}

/// One field of a content type.
#[derive(Clone, Debug, PartialEq, Eq)]
pub struct Field {
    pub id: String,
    pub name: String,
    pub type_: String,
    pub required: bool,
    pub localized: bool,
    pub validations: Vec<Validation>,
    pub disabled: bool,
    pub omitted: bool,
}

/// The mathematical value of a [`Field`].
pub struct FieldView {
    pub id: Seq<char>,
    pub name: Seq<char>,
    pub type_: Seq<char>,
    pub required: bool,
    pub localized: bool,
    pub validations: Seq<ValidationView>,
    pub disabled: bool,
    pub omitted: bool,
}

impl FieldView {
    /// A field takes part in resolution unless it is disabled or omitted.
    pub open spec fn is_active(self) -> bool {
        !self.disabled && !self.omitted
    }

    /// Some validation entry carries a set uniqueness marker.
    pub open spec fn is_unique(self) -> bool {
        exists|i: int|
            0 <= i < self.validations.len() && (#[trigger] self.validations[i]).unique == Some(true)
    }
}

impl DeepView for Field {
    type V = FieldView;

    open spec fn deep_view(&self) -> FieldView {
        FieldView {
            id: self.id@,
            name: self.name@,
            type_: self.type_@,
            required: self.required,
            localized: self.localized,
            validations: self.validations.deep_view(),
            disabled: self.disabled,
            omitted: self.omitted,
        }
    }
}

impl View for Field {
    type V = FieldView;

    open spec fn view(&self) -> FieldView {
        self.deep_view()
    }
}

impl Field {
    /// Whether the field takes part in resolution.
    pub fn is_active(&self) -> (active: bool)
        ensures
            active == self@.is_active(),
    {
        !self.disabled && !self.omitted
    }

    /// The declared type, or `None` for a tag outside the fixed set.
    pub fn field_type(&self) -> (kind: Option<FieldType>)
        ensures
            kind == field_type_of(self@.type_),
    {
        let tag = self.type_.as_str();
        if str_eq(tag, "Symbol") {
            Some(FieldType::Symbol)
        } else if str_eq(tag, "Text") {
            Some(FieldType::Text)
        } else if str_eq(tag, "Integer") {
            Some(FieldType::Integer)
        } else if str_eq(tag, "Number") {
            Some(FieldType::Number)
        } else if str_eq(tag, "Boolean") {
            Some(FieldType::Boolean)
        } else if str_eq(tag, "Date") {
            Some(FieldType::Date)
        } else if str_eq(tag, "Link") {
            Some(FieldType::Link)
        } else if str_eq(tag, "Array") {
            Some(FieldType::Array)
        } else if str_eq(tag, "Object") {
            Some(FieldType::Object)
        } else if str_eq(tag, "Location") {
            Some(FieldType::Location)
        } else if str_eq(tag, "RichText") {
            Some(FieldType::RichText)
        } else {
            None
        }
    }

    /// Whether a uniqueness marker is declared. The marker is metadata: no
    /// validation enforces it.
    pub fn is_unique(&self) -> (unique: bool)
        ensures
            unique == self@.is_unique(),
    {
        let mut i: usize = 0;
        while i < self.validations.len()
            invariant
                i <= self.validations.len(),
                forall|j: int|
                    0 <= j < i ==> (#[trigger] self@.validations[j]).unique != Some(true),
            decreases self.validations.len() - i,
        {
            match self.validations[i].unique {
                Some(true) => {
                    assert(self@.validations[i as int].unique == Some(true));
                    return true;
                },
                _ => {},
            }
            i += 1;
        }
        false
    }
}

/// A point in time, in whole seconds since the Unix epoch (UTC) and the
/// nanoseconds within that second.
#[derive(Clone, Copy, Debug, PartialEq, Eq)]
pub struct Timestamp {
    pub seconds: i64,
    pub nanos: u32,
}

/// Metadata that the backend assigns to a content type or an entry.
#[derive(Clone, Debug, PartialEq, Eq)]
pub struct SystemProperties {
    pub id: String,
    pub version: Option<i32>,
    pub revision: Option<i32>,
    pub created_at: Option<Timestamp>,
    pub updated_at: Option<Timestamp>,
}

/// The mathematical value of [`SystemProperties`].
pub struct SystemPropertiesView {
    pub id: Seq<char>,
    pub version: Option<i32>,
    pub revision: Option<i32>,
    pub created_at: Option<Timestamp>,
    pub updated_at: Option<Timestamp>,
}

impl DeepView for SystemProperties {
    type V = SystemPropertiesView;

    open spec fn deep_view(&self) -> SystemPropertiesView {
        SystemPropertiesView {
            id: self.id@,
            version: self.version,
            revision: self.revision,
            created_at: self.created_at,
            updated_at: self.updated_at,
        }
    }
}

impl View for SystemProperties {
    type V = SystemPropertiesView;

    open spec fn view(&self) -> SystemPropertiesView {
        self.deep_view()
    }
}

impl SystemProperties {
    /// Properties of a freshly materialized object: only the identifier is known.
    pub fn new(id: String) -> (props: SystemProperties)
        ensures
            props@ == (SystemPropertiesView {
                id: id@,
                version: None,
                revision: None,
                created_at: None,
                updated_at: None,
            }),
    {
        SystemProperties { id, version: None, revision: None, created_at: None, updated_at: None }
    }

    /// Properties with an identifier and a version.
    pub fn with_version(id: String, version: i32) -> (props: SystemProperties)
        ensures
            props@ == (SystemPropertiesView {
                id: id@,
                version: Some(version),
                revision: None,
                created_at: None,
                updated_at: None,
            }),
    {
        SystemProperties {
            id,
            version: Some(version),
            revision: None,
            created_at: None,
            updated_at: None,
        }
    }
}

/// A content type: the schema of one category of entries.
#[derive(Clone, Debug, PartialEq, Eq)]
pub struct ContentType {
    pub name: String,
    pub description: Option<String>,
    pub display_field: Option<String>,
    pub fields: Vec<Field>,
    pub system_properties: SystemProperties,
}

/// The mathematical value of a [`ContentType`].
pub struct ContentTypeView {
    pub name: Seq<char>,
    pub description: Option<Seq<char>>,
    pub display_field: Option<Seq<char>>,
    pub fields: Seq<FieldView>,
    pub system_properties: SystemPropertiesView,
}

impl ContentTypeView {
    /// The identifiers of the fields, in declared order.
    pub open spec fn field_ids(self) -> Seq<Seq<char>> {
        self.fields.map_values(|f: FieldView| f.id)
    }

    /// The field with the given identifier.
    pub open spec fn field(self, id: Seq<char>) -> Option<FieldView> {
        match position(self.field_ids(), id) {
            Some(i) => Some(self.fields[i]),
            None => None,
        }
    }

    /// The required fields, in declared order.
    pub open spec fn required_fields(self) -> Seq<FieldView> {
        self.fields.filter(|f: FieldView| f.required)
    }

    /// The field that the display-field identifier names.
    pub open spec fn display(self) -> Option<FieldView> {
        match self.display_field {
            Some(id) => self.field(id),
            None => None,
        }
    }

    /// Field identifiers are unique, and a display field, where one is named, exists.
    pub open spec fn well_formed(self) -> bool {
        &&& self.field_ids().no_duplicates()
        &&& (self.display_field matches Some(id) ==> self.field_ids().contains(id))
    }
}

impl DeepView for ContentType {
    type V = ContentTypeView;

    open spec fn deep_view(&self) -> ContentTypeView {
        ContentTypeView {
            name: self.name@,
            description: self.description.deep_view(),
            display_field: self.display_field.deep_view(),
            fields: self.fields.deep_view(),
            system_properties: self.system_properties@,
        }
    }
}

impl View for ContentType {
    type V = ContentTypeView;

    open spec fn view(&self) -> ContentTypeView {
        self.deep_view()
    }
}

impl ContentType {
    /// Position of the first field with the given identifier.
    fn field_index(&self, id: &str) -> (found: Option<usize>)
        ensures
            match found {
                Some(i) => position(self@.field_ids(), id@) == Some(i as int) && i
                    < self.fields.len(),
                None => position(self@.field_ids(), id@) is None,
            },
    {
        let mut i: usize = 0;
        while i < self.fields.len()
            invariant
                i <= self.fields.len(),
                self@.field_ids().len() == self.fields.len(),
                forall|j: int| 0 <= j < i ==> self@.field_ids()[j] != id@,
            decreases self.fields.len() - i,
        {
            if str_eq(self.fields[i].id.as_str(), id) {
                proof {
                    assert(self@.field_ids()[i as int] == id@);
                    assert(is_first_at(self@.field_ids(), id@, i as int));
                    lemma_position_found(self@.field_ids(), id@, i as int);
                }
                return Some(i);
            }
            i += 1;
        }
        proof {
            lemma_position_absent(self@.field_ids(), id@);
        }
        None
    }

    /// Looks a field up by its identifier.
    pub fn field(&self, id: &str) -> (found: Option<&Field>)
        ensures
            found.deep_view() == self@.field(id@),
    {
        match self.field_index(id) {
            Some(i) => Some(&self.fields[i]),
            None => None,
        }
    }

    /// The fields that are marked required, in declared order.
    pub fn required_fields(&self) -> (required: Vec<&Field>)
        ensures
            required.deep_view() == self@.required_fields(),
    {
        let mut out: Vec<&Field> = Vec::new();
        let mut i: usize = 0;
        let ghost pred = |f: FieldView| f.required;
        proof {
            assert(self@.fields.take(0) =~= Seq::empty());
            assert(out.deep_view() =~= Seq::<FieldView>::empty());
            assert(Seq::<FieldView>::empty().filter(pred) =~= Seq::<FieldView>::empty()) by {
                reveal(Seq::filter);
            }
        }
        while i < self.fields.len()
            invariant
                i <= self.fields.len(),
                self@.fields.len() == self.fields.len(),
                pred == |f: FieldView| f.required,
                out.deep_view() == self@.fields.take(i as int).filter(pred),
            decreases self.fields.len() - i,
        {
            let ghost before = out.deep_view();
            if self.fields[i].required {
                out.push(&self.fields[i]);
                assert(out.deep_view() =~= before.push(self@.fields[i as int]));
            }
            proof {
                let prefix = self@.fields.take(i as int);
                let one = seq![self@.fields[i as int]];
                assert(self@.fields.take(i as int + 1) =~= prefix + one);
                Seq::filter_distributes_over_add(prefix, one, pred);
                reveal_with_fuel(Seq::filter, 2);
                assert(one.drop_last() =~= Seq::empty());
                assert(one.filter(pred) =~= if pred(one[0]) { one } else { Seq::empty() });
                assert(out.deep_view() =~= prefix.filter(pred) + one.filter(pred));
            }
            i += 1;
        }
        proof {
            assert(self@.fields.take(i as int) =~= self@.fields);
        }
        out
    }

    /// Resolves the display field to the field it names.
    pub fn display_field(&self) -> (found: Option<&Field>)
        ensures
            found.deep_view() == self@.display(),
    {
        match &self.display_field {
            Some(id) => self.field(id.as_str()),
            None => None,
        }
    }

    /// Checks the invariant of a content type.
    pub fn is_well_formed(&self) -> (ok: bool)
        ensures
            ok == self@.well_formed(),
    {
        let mut i: usize = 0;
        while i < self.fields.len()
            invariant
                i <= self.fields.len(),
                self@.field_ids().len() == self.fields.len(),
                forall|a: int, b: int|
                    0 <= a < b < i ==> self@.field_ids()[a] != self@.field_ids()[b],
            decreases self.fields.len() - i,
        {
            match self.field_index(self.fields[i].id.as_str()) {
                Some(first) => {
                    proof {
                        crate::seqs::lemma_position(self@.field_ids(), self.fields[i as int].id@);
                    }
                    if first != i {
                        assert(self@.field_ids()[first as int] == self@.field_ids()[i as int]);
                        assert(!self@.field_ids().no_duplicates());
                        return false;
                    }
                },
                None => {
                    proof {
                        crate::seqs::lemma_position(self@.field_ids(), self.fields[i as int].id@);
                        assert(self@.field_ids()[i as int] == self.fields[i as int].id@);
                    }
                    return false;
                },
            }
            i += 1;
        }
        assert(self@.field_ids().no_duplicates());
        match &self.display_field {
            Some(id) => {
                let found = self.field_index(id.as_str());
                proof {
                    crate::seqs::lemma_position(self@.field_ids(), id@);
                }
                found.is_some()
            },
            None => true,
        }
    }
}

} // verus!
