use content_analyzer::content_types::{
    ContentType, Field, Regex, Size, SystemProperties, Timestamp, Validation,
};
use content_analyzer::json::Json;
use content_analyzer::wire::{
    read_content_type, read_field, read_schema, read_validation, timestamp_of, write_content_type,
    write_field, write_validation, Member, SchemaError,
};

fn s(x: &str) -> Json {
    Json::Text(x.to_string())
}

fn ob(members: Vec<(&str, Json)>) -> Json {
    Json::Object(members.into_iter().map(|(k, v)| (k.to_string(), v)).collect())
}

fn without(value: &Json, key: &str) -> Json {
    match value {
        Json::Object(members) => {
            Json::Object(members.iter().filter(|m| m.0 != key).cloned().collect())
        }
        other => other.clone(),
    }
}

fn with(value: &Json, key: &str, new: Json) -> Json {
    match value {
        Json::Object(members) => Json::Object(
            members
                .iter()
                .map(|m| if m.0 == key { (m.0.clone(), new.clone()) } else { m.clone() })
                .collect(),
        ),
        other => other.clone(),
    }
}

fn title_field_json() -> Json {
    ob(vec![
        ("id", s("title")),
        ("name", s("Title")),
        ("type", s("Symbol")),
        ("required", Json::Bool(true)),
        ("localized", Json::Bool(false)),
        (
            "validations",
            Json::Array(vec![
                ob(vec![("unique", Json::Bool(true))]),
                ob(vec![("size", ob(vec![("min", Json::Integer(1)), ("max", Json::Integer(10))]))]),
                ob(vec![("regex", ob(vec![("pattern", s("^[a-z]+$")), ("flags", s("i"))]))]),
                ob(vec![("in", Json::Array(vec![s("a"), s("b")]))]),
            ]),
        ),
        ("disabled", Json::Bool(false)),
        ("omitted", Json::Bool(false)),
    ])
}

fn author_field_json() -> Json {
    ob(vec![
        ("id", s("author")),
        ("name", s("Author")),
        ("type", s("Link")),
        ("linkType", s("Entry")),
        ("required", Json::Bool(false)),
        ("localized", Json::Bool(false)),
        (
            "validations",
            Json::Array(vec![ob(vec![("linkContentType", Json::Array(vec![s("Author")]))])]),
        ),
        ("disabled", Json::Bool(false)),
        ("omitted", Json::Bool(true)),
    ])
}

fn blog_json() -> Json {
    ob(vec![
        (
            "sys",
            ob(vec![
                ("id", s("blogPost")),
                ("type", s("ContentType")),
                ("version", Json::Integer(4)),
                ("revision", Json::Integer(2)),
                ("createdAt", s("2021-03-04T12:00:00Z")),
                ("updatedAt", s("2021-03-05T13:30:15.250+02:00")),
            ]),
        ),
        ("name", s("BlogPost")),
        ("description", s("A post")),
        ("displayField", s("title")),
        ("fields", Json::Array(vec![title_field_json(), author_field_json()])),
    ])
}

fn bare_validation() -> Validation {
    Validation { unique: None, size: None, regex: None, link_content_type: None, in_: None }
}

fn blog() -> ContentType {
    ContentType {
        name: "BlogPost".to_string(),
        description: Some("A post".to_string()),
        display_field: Some("title".to_string()),
        fields: vec![
            Field {
                id: "title".to_string(),
                name: "Title".to_string(),
                type_: "Symbol".to_string(),
                required: true,
                localized: false,
                validations: vec![
                    Validation { unique: Some(true), ..bare_validation() },
                    Validation { size: Some(Size { min: Some(1), max: Some(10) }), ..bare_validation() },
                    Validation {
                        regex: Some(Regex {
                            pattern: "^[a-z]+$".to_string(),
                            flags: Some("i".to_string()),
                        }),
                        ..bare_validation()
                    },
                    Validation {
                        in_: Some(vec!["a".to_string(), "b".to_string()]),
                        ..bare_validation()
                    },
                ],
                disabled: false,
                omitted: false,
            },
            Field {
                id: "author".to_string(),
                name: "Author".to_string(),
                type_: "Link".to_string(),
                required: false,
                localized: false,
                validations: vec![Validation {
                    link_content_type: Some(vec!["Author".to_string()]),
                    ..bare_validation()
                }],
                disabled: false,
                omitted: true,
            },
        ],
        system_properties: SystemProperties {
            id: "blogPost".to_string(),
            version: Some(4),
            revision: Some(2),
            created_at: Some(Timestamp { seconds: 1614859200, nanos: 0 }),
            updated_at: Some(Timestamp { seconds: 1614943815, nanos: 250_000_000 }),
        },
    }
}

#[test]
fn content_type_is_read_from_its_wire_form() {
    assert_eq!(read_content_type(&blog_json()), Ok(blog()));
}

#[test]
fn absent_and_null_optional_members_are_no_value() {
    let minimal = ob(vec![
        ("name", s("Bare")),
        ("fields", Json::Array(vec![])),
        ("sys", ob(vec![("id", s("bare"))])),
    ]);
    let expected = ContentType {
        name: "Bare".to_string(),
        description: None,
        display_field: None,
        fields: vec![],
        system_properties: SystemProperties::new("bare".to_string()),
    };
    assert_eq!(read_content_type(&minimal), Ok(expected.clone()));
    let with_nulls = ob(vec![
        ("name", s("Bare")),
        ("description", Json::Null),
        ("displayField", Json::Null),
        ("fields", Json::Array(vec![])),
        (
            "sys",
            ob(vec![
                ("id", s("bare")),
                ("version", Json::Null),
                ("revision", Json::Null),
                ("createdAt", Json::Null),
                ("updatedAt", Json::Null),
            ]),
        ),
    ]);
    assert_eq!(read_content_type(&with_nulls), Ok(expected));
    let empty_validation = ob(vec![
        ("unique", Json::Null),
        ("size", Json::Null),
        ("regex", Json::Null),
        ("linkContentType", Json::Null),
        ("in", Json::Null),
    ]);
    assert_eq!(read_validation(&empty_validation), Ok(bare_validation()));
    assert_eq!(read_validation(&ob(vec![])), Ok(bare_validation()));
    let open_size = ob(vec![("size", ob(vec![("max", Json::Integer(3))]))]);
    assert_eq!(
        read_validation(&open_size),
        Ok(Validation { size: Some(Size { min: None, max: Some(3) }), ..bare_validation() })
    );
    let no_flags = ob(vec![("regex", ob(vec![("pattern", s("x"))]))]);
    assert_eq!(
        read_validation(&no_flags),
        Ok(Validation {
            regex: Some(Regex { pattern: "x".to_string(), flags: None }),
            ..bare_validation()
        })
    );
}

#[test]
fn missing_members_are_named() {
    let blog = blog_json();
    assert_eq!(read_content_type(&s("x")), Err(SchemaError::NotAnObject));
    assert_eq!(read_content_type(&without(&blog, "name")), Err(SchemaError::Missing(Member::Name)));
    assert_eq!(
        read_content_type(&without(&blog, "fields")),
        Err(SchemaError::Missing(Member::Fields))
    );
    assert_eq!(read_content_type(&without(&blog, "sys")), Err(SchemaError::Missing(Member::Sys)));
    assert_eq!(
        read_content_type(&with(&blog, "sys", ob(vec![("version", Json::Integer(1))]))),
        Err(SchemaError::Missing(Member::Id))
    );
    let field = title_field_json();
    assert_eq!(read_field(&without(&field, "id")), Err(SchemaError::Missing(Member::FieldId)));
    assert_eq!(read_field(&without(&field, "name")), Err(SchemaError::Missing(Member::FieldName)));
    assert_eq!(read_field(&without(&field, "type")), Err(SchemaError::Missing(Member::FieldType)));
    assert_eq!(
        read_field(&without(&field, "required")),
        Err(SchemaError::Missing(Member::Required))
    );
    assert_eq!(
        read_field(&without(&field, "localized")),
        Err(SchemaError::Missing(Member::Localized))
    );
    assert_eq!(
        read_field(&without(&field, "validations")),
        Err(SchemaError::Missing(Member::Validations))
    );
    assert_eq!(
        read_field(&without(&field, "disabled")),
        Err(SchemaError::Missing(Member::Disabled))
    );
    assert_eq!(read_field(&without(&field, "omitted")), Err(SchemaError::Missing(Member::Omitted)));
    assert_eq!(
        read_validation(&ob(vec![("regex", ob(vec![("flags", s("i"))]))])),
        Err(SchemaError::Missing(Member::Pattern))
    );
    assert_eq!(read_schema(&ob(vec![])), Err(SchemaError::Missing(Member::Items)));
}

#[test]
fn members_of_the_wrong_type_are_named() {
    let blog = blog_json();
    let bad = |key: &str, value: Json| read_content_type(&with(&blog, key, value));
    assert_eq!(bad("name", Json::Integer(1)), Err(SchemaError::Malformed(Member::Name)));
    assert_eq!(bad("description", Json::Bool(true)), Err(SchemaError::Malformed(Member::Description)));
    assert_eq!(bad("displayField", Json::Integer(0)), Err(SchemaError::Malformed(Member::DisplayField)));
    assert_eq!(bad("fields", ob(vec![])), Err(SchemaError::Malformed(Member::Fields)));
    assert_eq!(bad("fields", Json::Array(vec![Json::Null])), Err(SchemaError::Malformed(Member::Fields)));
    assert_eq!(bad("sys", s("x")), Err(SchemaError::Malformed(Member::Sys)));
    let sys = |members: Vec<(&str, Json)>| read_content_type(&with(&blog, "sys", ob(members)));
    assert_eq!(sys(vec![("id", Json::Integer(1))]), Err(SchemaError::Malformed(Member::Id)));
    assert_eq!(
        sys(vec![("id", s("a")), ("version", s("1"))]),
        Err(SchemaError::Malformed(Member::Version))
    );
    assert_eq!(
        sys(vec![("id", s("a")), ("version", Json::Integer(1 << 31))]),
        Err(SchemaError::Malformed(Member::Version))
    );
    assert_eq!(
        sys(vec![("id", s("a")), ("revision", Json::Decimal("1.5".to_string()))]),
        Err(SchemaError::Malformed(Member::Revision))
    );
    assert_eq!(
        sys(vec![("id", s("a")), ("createdAt", s("yesterday"))]),
        Err(SchemaError::Malformed(Member::CreatedAt))
    );
    assert_eq!(
        sys(vec![("id", s("a")), ("updatedAt", Json::Integer(5))]),
        Err(SchemaError::Malformed(Member::UpdatedAt))
    );
    let field = title_field_json();
    let f = |key: &str, value: Json| read_field(&with(&field, key, value));
    assert_eq!(read_field(&Json::Null), Err(SchemaError::Malformed(Member::Fields)));
    assert_eq!(f("id", Json::Null), Err(SchemaError::Malformed(Member::FieldId)));
    assert_eq!(f("name", Json::Null), Err(SchemaError::Malformed(Member::FieldName)));
    assert_eq!(f("type", Json::Bool(true)), Err(SchemaError::Malformed(Member::FieldType)));
    assert_eq!(f("required", s("true")), Err(SchemaError::Malformed(Member::Required)));
    assert_eq!(f("localized", Json::Null), Err(SchemaError::Malformed(Member::Localized)));
    assert_eq!(f("validations", Json::Null), Err(SchemaError::Malformed(Member::Validations)));
    assert_eq!(
        f("validations", Json::Array(vec![s("x")])),
        Err(SchemaError::Malformed(Member::Validations))
    );
    assert_eq!(f("disabled", Json::Integer(0)), Err(SchemaError::Malformed(Member::Disabled)));
    assert_eq!(f("omitted", Json::Integer(0)), Err(SchemaError::Malformed(Member::Omitted)));
    let v = |key: &str, value: Json| read_validation(&ob(vec![(key, value)]));
    assert_eq!(v("unique", s("yes")), Err(SchemaError::Malformed(Member::Unique)));
    assert_eq!(v("size", Json::Integer(3)), Err(SchemaError::Malformed(Member::Size)));
    assert_eq!(v("size", ob(vec![("min", s("1"))])), Err(SchemaError::Malformed(Member::Min)));
    assert_eq!(
        v("size", ob(vec![("max", Json::Integer(i64::MIN))])),
        Err(SchemaError::Malformed(Member::Max))
    );
    assert_eq!(v("regex", s("^a$")), Err(SchemaError::Malformed(Member::Regex)));
    assert_eq!(
        v("regex", ob(vec![("pattern", Json::Null)])),
        Err(SchemaError::Malformed(Member::Pattern))
    );
    assert_eq!(
        v("regex", ob(vec![("pattern", s("a")), ("flags", Json::Integer(1))])),
        Err(SchemaError::Malformed(Member::Flags))
    );
    assert_eq!(v("linkContentType", s("Author")), Err(SchemaError::Malformed(Member::LinkContentType)));
    assert_eq!(
        v("in", Json::Array(vec![s("a"), Json::Integer(2)])),
        Err(SchemaError::Malformed(Member::In))
    );
    assert_eq!(read_schema(&ob(vec![("items", ob(vec![]))])), Err(SchemaError::Malformed(Member::Items)));
}

#[test]
fn first_fault_in_reading_order_is_returned() {
    let broken = with(&with(&blog_json(), "name", Json::Null), "sys", Json::Null);
    assert_eq!(read_content_type(&broken), Err(SchemaError::Malformed(Member::Name)));
    let fields = Json::Array(vec![
        title_field_json(),
        without(&title_field_json(), "omitted"),
        without(&title_field_json(), "id"),
    ]);
    assert_eq!(
        read_content_type(&with(&blog_json(), "fields", fields)),
        Err(SchemaError::Missing(Member::Omitted))
    );
}

#[test]
fn timestamps_are_read_as_instants() {
    let read = |text: &str| {
        read_content_type(&ob(vec![
            ("name", s("T")),
            ("fields", Json::Array(vec![])),
            ("sys", ob(vec![("id", s("t")), ("createdAt", s(text))])),
        ]))
        .map(|ct| ct.system_properties.created_at)
    };
    assert_eq!(read("1970-01-01T00:00:00Z"), Ok(Some(Timestamp { seconds: 0, nanos: 0 })));
    assert_eq!(read("1970-01-01T00:00:01.5Z"), Ok(Some(Timestamp { seconds: 1, nanos: 500_000_000 })));
    assert_eq!(read("1970-01-01T01:00:00+01:00"), Ok(Some(Timestamp { seconds: 0, nanos: 0 })));
    assert_eq!(read("1969-12-31T23:59:59Z"), Ok(Some(Timestamp { seconds: -1, nanos: 0 })));
    assert_eq!(read("2021-03-04T12:00:00.000Z"), Ok(Some(Timestamp { seconds: 1614859200, nanos: 0 })));
    assert_eq!(read("2021-03-04"), Err(SchemaError::Malformed(Member::CreatedAt)));
    assert_eq!(read(""), Err(SchemaError::Malformed(Member::CreatedAt)));
}

#[test]
fn parsed_instants_become_timestamps() {
    assert_eq!(
        timestamp_of(Some((5, 6)), Member::UpdatedAt),
        Ok(Some(Timestamp { seconds: 5, nanos: 6 }))
    );
    assert_eq!(
        timestamp_of(None, Member::UpdatedAt),
        Err(SchemaError::Malformed(Member::UpdatedAt))
    );
}

#[test]
fn content_type_is_written_in_its_wire_form() {
    let minimal = ContentType {
        name: "Bare".to_string(),
        description: None,
        display_field: Some("x".to_string()),
        fields: vec![],
        system_properties: SystemProperties {
            id: "bare".to_string(),
            version: Some(2),
            revision: None,
            created_at: Some(Timestamp { seconds: 1614859200, nanos: 250_000_000 }),
            updated_at: None,
        },
    };
    assert_eq!(
        write_content_type(&minimal),
        ob(vec![
            ("name", s("Bare")),
            ("description", Json::Null),
            ("displayField", s("x")),
            ("fields", Json::Array(vec![])),
            (
                "sys",
                ob(vec![
                    ("id", s("bare")),
                    ("version", Json::Integer(2)),
                    ("revision", Json::Null),
                    ("createdAt", s("2021-03-04T12:00:00.250Z")),
                    ("updatedAt", Json::Null),
                ])
            ),
        ])
    );
}

#[test]
fn validation_and_field_are_written_member_by_member() {
    let v = Validation {
        unique: Some(false),
        size: Some(Size { min: None, max: Some(-3) }),
        regex: Some(Regex { pattern: "a|b".to_string(), flags: None }),
        link_content_type: Some(vec![]),
        in_: Some(vec!["x".to_string()]),
    };
    let expected = ob(vec![
        ("unique", Json::Bool(false)),
        ("size", ob(vec![("min", Json::Null), ("max", Json::Integer(-3))])),
        ("regex", ob(vec![("pattern", s("a|b")), ("flags", Json::Null)])),
        ("linkContentType", Json::Array(vec![])),
        ("in", Json::Array(vec![s("x")])),
    ]);
    assert_eq!(write_validation(&v), expected);
    let f = Field {
        id: "f".to_string(),
        name: "F".to_string(),
        type_: "Text".to_string(),
        required: true,
        localized: true,
        validations: vec![v],
        disabled: true,
        omitted: false,
    };
    assert_eq!(
        write_field(&f),
        ob(vec![
            ("id", s("f")),
            ("name", s("F")),
            ("type", s("Text")),
            ("required", Json::Bool(true)),
            ("localized", Json::Bool(true)),
            ("validations", Json::Array(vec![expected])),
            ("disabled", Json::Bool(true)),
            ("omitted", Json::Bool(false)),
        ])
    );
}

#[test]
fn nothing_is_lost_on_the_wire() {
    let blog = blog();
    assert_eq!(read_content_type(&write_content_type(&blog)), Ok(blog.clone()));
    let bare = ContentType {
        name: String::new(),
        description: None,
        display_field: None,
        fields: vec![],
        system_properties: SystemProperties::with_version("v".to_string(), i32::MIN),
    };
    assert_eq!(read_content_type(&write_content_type(&bare)), Ok(bare));
    for f in &blog.fields {
        assert_eq!(read_field(&write_field(f)).as_ref(), Ok(f));
        for v in &f.validations {
            assert_eq!(read_validation(&write_validation(v)).as_ref(), Ok(v));
        }
    }
}

#[test]
fn schema_is_read_from_a_collection() {
    let collection = ob(vec![
        ("total", Json::Integer(2)),
        (
            "items",
            Json::Array(vec![
                blog_json(),
                ob(vec![
                    ("name", s("Author")),
                    ("fields", Json::Array(vec![])),
                    ("sys", ob(vec![("id", s("author"))])),
                ]),
            ]),
        ),
    ]);
    let schema = read_schema(&collection).unwrap();
    assert_eq!(schema.len(), 2);
    assert_eq!(schema[0], blog());
    assert_eq!(schema[1].name, "Author");
    let broken = ob(vec![("items", Json::Array(vec![blog_json(), Json::Null]))]);
    assert_eq!(read_schema(&broken), Err(SchemaError::NotAnObject));
    assert_eq!(read_schema(&ob(vec![("items", Json::Array(vec![]))])), Ok(vec![]));
}
