use content_analyzer::entry::{Entry, EntryField, FieldValue, LinkKind, NodeKey, Payload};
use content_analyzer::json::Json;
use content_analyzer::node::ErrorKind;
use content_analyzer::parse::{
    parse_payload, read_entry, read_field_value, read_placeholder, Placeholder, Problem, Section,
    StructuralError,
};

fn t(s: &str) -> Json {
    Json::Text(s.to_string())
}

fn o(members: Vec<(&str, Json)>) -> Json {
    Json::Object(members.into_iter().map(|(k, v)| (k.to_string(), v)).collect())
}

fn placeholder(kind: &str, id: &str) -> Json {
    o(vec![("sys", o(vec![("type", t("Link")), ("linkType", t(kind)), ("id", t(id))]))])
}

fn k(kind: LinkKind, id: &str) -> NodeKey {
    NodeKey { kind, id: id.to_string() }
}

fn bare(id: &str) -> Json {
    o(vec![("sys", o(vec![("id", t(id))]))])
}

#[test]
fn placeholders_are_recognised() {
    assert_eq!(
        read_placeholder(&placeholder("Entry", "e1")),
        Placeholder::Target(k(LinkKind::Entry, "e1"))
    );
    assert_eq!(
        read_placeholder(&placeholder("Asset", "a1")),
        Placeholder::Target(k(LinkKind::Asset, "a1"))
    );
    assert_eq!(read_placeholder(&placeholder("ContentType", "c1")), Placeholder::NotALink);
    assert_eq!(read_placeholder(&t("Link")), Placeholder::NotALink);
    assert_eq!(read_placeholder(&o(vec![("sys", o(vec![("id", t("x"))]))])), Placeholder::NotALink);
    assert_eq!(
        read_placeholder(&o(vec![("sys", o(vec![("type", t("Link")), ("linkType", t("Entry"))]))])),
        Placeholder::Malformed
    );
    assert_eq!(
        read_placeholder(&o(vec![(
            "sys",
            o(vec![("type", t("Link")), ("linkType", t("Entry")), ("id", Json::Integer(4))])
        )])),
        Placeholder::Malformed
    );
}

#[test]
fn field_values_are_classified() {
    assert_eq!(read_field_value(&t("x")), Some(FieldValue::Leaf(t("x"))));
    assert_eq!(
        read_field_value(&placeholder("Entry", "e")),
        Some(FieldValue::Link(k(LinkKind::Entry, "e")))
    );
    assert_eq!(
        read_field_value(&Json::Array(vec![placeholder("Entry", "e"), placeholder("Asset", "a")])),
        Some(FieldValue::Links(vec![k(LinkKind::Entry, "e"), k(LinkKind::Asset, "a")]))
    );
    let empty = Json::Array(vec![]);
    assert_eq!(read_field_value(&empty), Some(FieldValue::Leaf(Json::Array(vec![]))));
    let mixed = Json::Array(vec![placeholder("Entry", "e"), t("plain")]);
    assert_eq!(read_field_value(&mixed), Some(FieldValue::Leaf(mixed.clone())));
    let broken = o(vec![("sys", o(vec![("type", t("Link")), ("linkType", t("Asset"))]))]);
    assert_eq!(read_field_value(&broken), None);
    assert_eq!(read_field_value(&Json::Array(vec![placeholder("Entry", "e"), broken.clone()])), None);
    let broken_then_plain = Json::Array(vec![broken, t("plain")]);
    assert_eq!(
        read_field_value(&broken_then_plain),
        Some(FieldValue::Leaf(broken_then_plain.clone()))
    );
}

#[test]
fn entry_is_read_with_kind_type_and_fields() {
    let raw = o(vec![
        (
            "sys",
            o(vec![
                ("id", t("post1")),
                ("type", t("Entry")),
                ("contentType", placeholder("ContentType", "blogPost")),
            ]),
        ),
        ("fields", o(vec![("title", t("Hello")), ("author", placeholder("Entry", "jane"))])),
    ]);
    assert_eq!(
        read_entry(&raw, Section::Items),
        Ok(Entry {
            key: k(LinkKind::Entry, "post1"),
            content_type: Some("blogPost".to_string()),
            fields: vec![
                EntryField { id: "title".to_string(), value: FieldValue::Leaf(t("Hello")) },
                EntryField {
                    id: "author".to_string(),
                    value: FieldValue::Link(k(LinkKind::Entry, "jane"))
                },
            ],
        })
    );
    let entry = read_entry(&raw, Section::Items).unwrap();
    assert_eq!(entry.field_value("title"), Some(&FieldValue::Leaf(t("Hello"))));
    assert_eq!(entry.field_value("missing"), None);
}

#[test]
fn entry_kind_comes_from_the_section_or_the_type_tag() {
    let asset = o(vec![("sys", o(vec![("id", t("x")), ("type", t("Asset"))]))]);
    assert_eq!(read_entry(&asset, Section::Items).unwrap().key.kind, LinkKind::Asset);
    assert_eq!(read_entry(&asset, Section::IncludedEntries).unwrap().key.kind, LinkKind::Entry);
    assert_eq!(read_entry(&bare("x"), Section::Items).unwrap().key.kind, LinkKind::Entry);
    assert_eq!(read_entry(&bare("x"), Section::IncludedAssets).unwrap().key.kind, LinkKind::Asset);
    assert_eq!(read_entry(&bare("x"), Section::Items).unwrap().content_type, None);
    assert!(read_entry(&bare("x"), Section::Items).unwrap().fields.is_empty());
}

#[test]
fn entry_problems() {
    assert_eq!(read_entry(&t("x"), Section::Items), Err(Problem::NotAnObject));
    assert_eq!(read_entry(&o(vec![]), Section::Items), Err(Problem::MissingSys));
    assert_eq!(read_entry(&o(vec![("sys", t("x"))]), Section::Items), Err(Problem::MissingSys));
    assert_eq!(
        read_entry(&o(vec![("sys", o(vec![("type", t("Entry"))]))]), Section::Items),
        Err(Problem::MissingSysId)
    );
    assert_eq!(
        read_entry(&o(vec![("sys", o(vec![("id", Json::Integer(1))]))]), Section::Items),
        Err(Problem::MissingSysId)
    );
    assert_eq!(
        read_entry(&o(vec![("sys", o(vec![("id", t("a"))])), ("fields", t("no"))]), Section::Items),
        Err(Problem::FieldsNotObject)
    );
    let broken = o(vec![("sys", o(vec![("type", t("Link")), ("linkType", t("Entry"))]))]);
    assert_eq!(
        read_entry(
            &o(vec![("sys", o(vec![("id", t("a"))])), ("fields", o(vec![("f", broken)]))]),
            Section::Items
        ),
        Err(Problem::MalformedLink)
    );
    assert!(read_entry(
        &o(vec![("sys", o(vec![("id", t("a"))])), ("fields", Json::Null)]),
        Section::Items
    )
    .unwrap()
    .fields
    .is_empty());
}

#[test]
fn payload_without_includes_has_an_empty_pool() {
    let envelope = o(vec![("items", Json::Array(vec![bare("a"), bare("b")]))]);
    let payload = parse_payload(&envelope).unwrap();
    assert_eq!(payload.items.len(), 2);
    assert!(payload.includes.is_empty());
    let with_null = o(vec![("items", Json::Array(vec![])), ("includes", Json::Null)]);
    assert_eq!(parse_payload(&with_null), Ok(Payload { items: vec![], includes: vec![] }));
    let with_empty = o(vec![("items", Json::Array(vec![])), ("includes", o(vec![]))]);
    assert_eq!(parse_payload(&with_empty), Ok(Payload { items: vec![], includes: vec![] }));
}

#[test]
fn pool_holds_entries_then_assets() {
    let envelope = o(vec![
        ("items", Json::Array(vec![bare("top")])),
        (
            "includes",
            o(vec![("Asset", Json::Array(vec![bare("pic")])), ("Entry", Json::Array(vec![bare("e1"), bare("e2")]))]),
        ),
    ]);
    let payload = parse_payload(&envelope).unwrap();
    let pool: Vec<(LinkKind, &str)> =
        payload.includes.iter().map(|e| (e.key.kind, e.key.id.as_str())).collect();
    assert_eq!(
        pool,
        vec![(LinkKind::Entry, "e1"), (LinkKind::Entry, "e2"), (LinkKind::Asset, "pic")]
    );
}

#[test]
fn payload_faults() {
    assert_eq!(parse_payload(&Json::Array(vec![])), Err(StructuralError::PayloadNotObject));
    assert_eq!(parse_payload(&o(vec![("total", Json::Integer(0))])), Err(StructuralError::ItemsMissing));
    assert_eq!(parse_payload(&o(vec![("items", Json::Null)])), Err(StructuralError::ItemsNotArray));
    assert_eq!(
        parse_payload(&o(vec![("items", o(vec![]))])),
        Err(StructuralError::ItemsNotArray)
    );
    assert_eq!(
        parse_payload(&o(vec![("items", Json::Array(vec![])), ("includes", Json::Array(vec![]))])),
        Err(StructuralError::IncludesMalformed)
    );
    assert_eq!(
        parse_payload(&o(vec![
            ("items", Json::Array(vec![])),
            ("includes", o(vec![("Entry", t("no"))]))
        ])),
        Err(StructuralError::IncludesMalformed)
    );
    assert_eq!(
        parse_payload(&o(vec![
            ("items", Json::Array(vec![bare("a")])),
            ("includes", o(vec![("Asset", Json::Array(vec![bare("ok"), bare("fine"), Json::Null]))]))
        ])),
        Err(StructuralError::Entry {
            section: Section::IncludedAssets,
            index: 2,
            problem: Problem::NotAnObject
        })
    );
    assert_eq!(
        parse_payload(&o(vec![
            ("items", Json::Array(vec![bare("a")])),
            ("includes", o(vec![("Entry", Json::Array(vec![o(vec![])]))]))
        ])),
        Err(StructuralError::Entry {
            section: Section::IncludedEntries,
            index: 0,
            problem: Problem::MissingSys
        })
    );
}

#[test]
fn first_fault_is_reported() {
    let envelope = o(vec![
        ("items", Json::Array(vec![bare("a"), t("bad"), o(vec![])])),
        ("includes", t("also bad")),
    ]);
    assert_eq!(
        parse_payload(&envelope),
        Err(StructuralError::Entry {
            section: Section::Items,
            index: 1,
            problem: Problem::NotAnObject
        })
    );
}

#[test]
fn structural_faults_describe_themselves() {
    assert_eq!(StructuralError::PayloadNotObject.describe(), "the payload is not an object");
    assert_eq!(StructuralError::ItemsMissing.describe(), "the payload has no items");
    assert_eq!(
        StructuralError::ItemsNotArray.describe(),
        "the items of the payload are not an array"
    );
    assert_eq!(
        StructuralError::IncludesMalformed.describe(),
        "the includes of the payload are malformed"
    );
    let at = |problem: Problem| {
        StructuralError::Entry { section: Section::Items, index: 0, problem }.describe()
    };
    assert_eq!(at(Problem::NotAnObject), "an entry is not an object");
    assert_eq!(at(Problem::MissingSys), "an entry has no system properties");
    assert_eq!(at(Problem::MissingSysId), "an entry has no identifier");
    assert_eq!(at(Problem::FieldsNotObject), "the fields of an entry are not an object");
    assert_eq!(at(Problem::MalformedLink), "a link of an entry has no identifier");
    assert_eq!(StructuralError::ItemsMissing.error_kind(), ErrorKind::Structure);
}
