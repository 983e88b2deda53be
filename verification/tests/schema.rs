use content_analyzer::content_types::{
    ContentType, Field, FieldType, SystemProperties, Timestamp, Validation,
};

fn plain(id: &str, type_: &str, required: bool) -> Field {
    Field {
        id: id.to_string(),
        name: id.to_uppercase(),
        type_: type_.to_string(),
        required,
        localized: false,
        validations: Vec::<Validation>::new(),
        disabled: false,
        omitted: false,
    }
}

fn article(display: Option<&str>, fields: Vec<Field>) -> ContentType {
    ContentType {
        name: "Article".to_string(),
        description: Some("An article".to_string()),
        display_field: display.map(|d| d.to_string()),
        fields,
        system_properties: SystemProperties::with_version("article".to_string(), 3),
    }
}

#[test]
fn system_properties_new_knows_only_the_id() {
    let props = SystemProperties::new("abc".to_string());
    assert_eq!(
        props,
        SystemProperties {
            id: "abc".to_string(),
            version: None,
            revision: None,
            created_at: None,
            updated_at: None
        }
    );
}

#[test]
fn system_properties_with_version_sets_the_version() {
    let props = SystemProperties::with_version("abc".to_string(), 7);
    assert_eq!(props.id, "abc");
    assert_eq!(props.version, Some(7));
    assert_eq!(props.revision, None);
    assert_eq!(props.created_at, None);
    assert_eq!(props.updated_at, None);
    let later = SystemProperties {
        updated_at: Some(Timestamp { seconds: 10, nanos: 5 }),
        ..props.clone()
    };
    assert_ne!(later, props);
}

#[test]
fn field_lookup_by_id() {
    let ct = article(None, vec![plain("title", "Symbol", true), plain("body", "Text", false)]);
    assert_eq!(ct.field("body").map(|f| f.name.as_str()), Some("BODY"));
    assert_eq!(ct.field("title").map(|f| f.type_.as_str()), Some("Symbol"));
    assert!(ct.field("Title").is_none());
    assert!(ct.field("").is_none());
}

#[test]
fn field_lookup_takes_the_first_of_two() {
    let mut second = plain("title", "Text", false);
    second.name = "SECOND".to_string();
    let ct = article(None, vec![plain("title", "Symbol", true), second]);
    assert_eq!(ct.field("title").map(|f| f.name.as_str()), Some("TITLE"));
    assert!(!ct.is_well_formed());
}

#[test]
fn required_fields_in_declared_order() {
    let ct = article(
        None,
        vec![
            plain("a", "Symbol", true),
            plain("b", "Symbol", false),
            plain("c", "Symbol", true),
            plain("d", "Symbol", false),
        ],
    );
    let ids: Vec<&str> = ct.required_fields().iter().map(|f| f.id.as_str()).collect();
    assert_eq!(ids, vec!["a", "c"]);
    assert!(article(None, vec![]).required_fields().is_empty());
    assert!(article(None, vec![plain("x", "Symbol", false)]).required_fields().is_empty());
}

#[test]
fn display_field_resolution() {
    let ct = article(Some("body"), vec![plain("title", "Symbol", true), plain("body", "Text", false)]);
    assert_eq!(ct.display_field().map(|f| f.id.as_str()), Some("body"));
    assert!(ct.is_well_formed());
    let dangling = article(Some("missing"), vec![plain("title", "Symbol", true)]);
    assert!(dangling.display_field().is_none());
    assert!(!dangling.is_well_formed());
    let none = article(None, vec![plain("title", "Symbol", true)]);
    assert!(none.display_field().is_none());
    assert!(none.is_well_formed());
}

#[test]
fn field_type_tags() {
    let tags = [
        ("Symbol", FieldType::Symbol),
        ("Text", FieldType::Text),
        ("Integer", FieldType::Integer),
        ("Number", FieldType::Number),
        ("Boolean", FieldType::Boolean),
        ("Date", FieldType::Date),
        ("Link", FieldType::Link),
        ("Array", FieldType::Array),
        ("Object", FieldType::Object),
        ("Location", FieldType::Location),
        ("RichText", FieldType::RichText),
    ];
    for (tag, kind) in tags {
        assert_eq!(plain("f", tag, false).field_type(), Some(kind));
    }
    assert_eq!(plain("f", "link", false).field_type(), None);
    assert_eq!(plain("f", "", false).field_type(), None);
}

#[test]
fn active_fields() {
    let mut f = plain("f", "Symbol", false);
    assert!(f.is_active());
    f.disabled = true;
    assert!(!f.is_active());
    f.disabled = false;
    f.omitted = true;
    assert!(!f.is_active());
}
