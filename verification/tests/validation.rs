use proto_reconcile::conformance::resolves_alike;
use proto_reconcile::descriptor::{
    Cardinality, FieldDescriptor, FieldKind, MessageDescriptor, PrimitiveKind, Registry,
};
use proto_reconcile::json::{JsonNumber, JsonValue};
use proto_reconcile::text::same_name;
use proto_reconcile::valid_proto::{
    is_ignored, is_valid_primitive, validate_field, validate_json, validate_message, ErrorType,
    ValidationError,
};

fn text(s: &str) -> JsonValue {
    JsonValue::Text(s.to_string())
}

fn whole(n: u64) -> JsonValue {
    JsonValue::Number(JsonNumber::PosInt(n))
}

fn object(members: Vec<(&str, JsonValue)>) -> JsonValue {
    JsonValue::Object(members.into_iter().map(|(k, v)| (k.to_string(), v)).collect())
}

fn scalar(name: &str, kind: PrimitiveKind) -> FieldDescriptor {
    FieldDescriptor {
        json_name: Some(name.to_string()),
        kind: FieldKind::Primitive(kind),
        cardinality: Cardinality::Singular,
    }
}

fn repeated_scalar(name: &str, kind: PrimitiveKind) -> FieldDescriptor {
    FieldDescriptor {
        json_name: Some(name.to_string()),
        kind: FieldKind::Primitive(kind),
        cardinality: Cardinality::Repeated,
    }
}

fn nested(name: &str, target: &str, cardinality: Cardinality) -> FieldDescriptor {
    FieldDescriptor {
        json_name: Some(name.to_string()),
        kind: FieldKind::Message(Some(target.to_string())),
        cardinality,
    }
}

fn message(name: &str, fields: Vec<FieldDescriptor>) -> MessageDescriptor {
    MessageDescriptor { name: Some(name.to_string()), fields }
}

fn error(field: &str, error_type: ErrorType) -> ValidationError {
    ValidationError { field: field.to_string(), error_type }
}

fn create_test_descriptor() -> Registry {
    let top_level = message(
        "TopLevel",
        vec![
            scalar("name", PrimitiveKind::Text),
            nested("items", ".SubMessage", Cardinality::Repeated),
        ],
    );
    let sub_message = message(
        "SubMessage",
        vec![
            scalar("id", PrimitiveKind::Int32),
            scalar("description", PrimitiveKind::Text),
            nested("details", ".SubDescriptorProto", Cardinality::Repeated),
        ],
    );
    let sub_descriptor = message("SubDescriptorProto", vec![scalar("value", PrimitiveKind::Text)]);
    Registry::from_messages(vec![top_level, sub_message, sub_descriptor])
}

fn conforming_document() -> JsonValue {
    object(vec![
        ("name", text("test")),
        (
            "items",
            JsonValue::Array(vec![
                object(vec![
                    ("id", whole(1)),
                    ("description", text("first")),
                    (
                        "details",
                        JsonValue::Array(vec![
                            object(vec![("value", text("a"))]),
                            object(vec![("value", text("b"))]),
                        ]),
                    ),
                ]),
                object(vec![
                    ("id", whole(2)),
                    ("description", text("second")),
                    ("details", JsonValue::Array(vec![object(vec![("value", text("c"))])])),
                ]),
            ]),
        ),
    ])
}

fn members_of(value: JsonValue) -> Vec<(String, JsonValue)> {
    match value {
        JsonValue::Object(members) => members,
        _ => panic!("not an object"),
    }
}

fn items_of(value: JsonValue) -> Vec<JsonValue> {
    match value {
        JsonValue::Array(items) => items,
        _ => panic!("not an array"),
    }
}

#[test]
fn test_nested_and_repeated_validation_with_sub_descriptor() {
    let registry = create_test_descriptor();

    // The members of each object stand sorted by key, as a parsed document
    // lists them.
    let json_value = object(vec![
        ("extra", text("field")),
        (
            "items",
            JsonValue::Array(vec![
                object(vec![
                    ("description", text("first")),
                    (
                        "details",
                        JsonValue::Array(vec![
                            object(vec![("value", text("a"))]),
                            object(vec![("value", whole(42))]),
                        ]),
                    ),
                    ("id", whole(1)),
                ]),
                object(vec![
                    ("description", text("second")),
                    (
                        "details",
                        JsonValue::Array(vec![
                            object(vec![("value", text("b"))]),
                            object(vec![("extra", text("field"))]),
                        ]),
                    ),
                    ("id", text("two")),
                ]),
            ]),
        ),
        ("name", text("test")),
    ]);

    let errors = validate_json(&registry, "TopLevel", &json_value, vec![]);

    assert_eq!(errors.len(), 5);
    assert_eq!(
        errors[0],
        ValidationError { field: "extra".to_string(), error_type: ErrorType::AdditionalField }
    );
    assert_eq!(
        errors[1],
        ValidationError {
            field: "items[0].details[1].value".to_string(),
            error_type: ErrorType::WrongDataType,
        }
    );
    assert_eq!(
        errors[2],
        ValidationError {
            field: "items[1].details[1].extra".to_string(),
            error_type: ErrorType::AdditionalField,
        }
    );
    assert_eq!(
        errors[3],
        ValidationError {
            field: "items[1].details[1].value".to_string(),
            error_type: ErrorType::MissingField,
        }
    );
    assert_eq!(
        errors[4],
        ValidationError {
            field: "items[1].id".to_string(),
            error_type: ErrorType::WrongDataType,
        }
    );
}

#[test]
fn errors_follow_the_order_of_the_document() {
    let registry = create_test_descriptor();
    let document = object(vec![
        ("name", text("test")),
        (
            "items",
            JsonValue::Array(vec![
                object(vec![
                    ("id", whole(1)),
                    ("description", text("first")),
                    (
                        "details",
                        JsonValue::Array(vec![
                            object(vec![("value", text("a"))]),
                            object(vec![("value", whole(42))]),
                        ]),
                    ),
                ]),
                object(vec![
                    ("id", text("two")),
                    ("description", text("second")),
                    (
                        "details",
                        JsonValue::Array(vec![
                            object(vec![("value", text("b"))]),
                            object(vec![("extra", text("field"))]),
                        ]),
                    ),
                ]),
            ]),
        ),
        ("extra", text("field")),
    ]);
    let errors = validate_json(&registry, "TopLevel", &document, vec![]);
    assert_eq!(
        errors,
        vec![
            error("items[0].details[1].value", ErrorType::WrongDataType),
            error("items[1].id", ErrorType::WrongDataType),
            error("items[1].details[1].extra", ErrorType::AdditionalField),
            error("items[1].details[1].value", ErrorType::MissingField),
            error("extra", ErrorType::AdditionalField),
        ]
    );
}

#[test]
fn first_pass_comes_before_second_pass() {
    let registry = create_test_descriptor();
    let document = object(vec![("surplus", whole(1)), ("items", text("none"))]);
    let errors = validate_json(&registry, "TopLevel", &document, vec![]);
    assert_eq!(
        errors,
        vec![
            error("surplus", ErrorType::AdditionalField),
            error("items", ErrorType::WrongDataType),
            error("name", ErrorType::MissingField),
        ]
    );
}

#[test]
fn conforming_document_has_no_errors() {
    let registry = create_test_descriptor();
    let errors = validate_json(&registry, "TopLevel", &conforming_document(), vec![]);
    assert_eq!(errors, vec![]);
}

#[test]
fn ignored_keys_take_no_part() {
    let registry = create_test_descriptor();
    let mut members = members_of(conforming_document());
    members.insert(0, ("_id".to_string(), text("doc-1")));
    members.push(("_rev".to_string(), text("1-abc")));
    let document = JsonValue::Object(members);
    let ignore = vec!["_id".to_string(), "_rev".to_string()];
    assert_eq!(validate_json(&registry, "TopLevel", &document, ignore), vec![]);
    assert_eq!(
        validate_json(&registry, "TopLevel", &document, vec![]),
        vec![
            error("_id", ErrorType::AdditionalField),
            error("_rev", ErrorType::AdditionalField),
        ]
    );
}

#[test]
fn ignored_field_is_not_missing_and_not_checked() {
    let registry = create_test_descriptor();
    let absent = object(vec![("items", JsonValue::Array(vec![]))]);
    assert_eq!(
        validate_json(&registry, "TopLevel", &absent, vec!["name".to_string()]),
        vec![error("items", ErrorType::MissingArrayField)]
    );
    let wrong = object(vec![("name", whole(3))]);
    assert_eq!(validate_json(&registry, "TopLevel", &wrong, vec!["name".to_string()]), vec![]);
    assert_eq!(
        validate_json(&registry, "TopLevel", &wrong, vec![]),
        vec![error("name", ErrorType::WrongDataType)]
    );
}

#[test]
fn removing_a_field_yields_one_missing_field() {
    let registry = create_test_descriptor();
    let mut members = members_of(conforming_document());
    members.remove(0);
    let errors = validate_json(&registry, "TopLevel", &JsonValue::Object(members), vec![]);
    assert_eq!(errors, vec![error("name", ErrorType::MissingField)]);
}

#[test]
fn removing_a_nested_field_yields_its_dotted_path() {
    let registry = create_test_descriptor();
    let mut members = members_of(conforming_document());
    let (key, items) = members.remove(1);
    let mut items = items_of(items);
    let mut second = members_of(items.remove(1));
    second.remove(1);
    items.push(JsonValue::Object(second));
    members.push((key, JsonValue::Array(items)));
    let errors = validate_json(&registry, "TopLevel", &JsonValue::Object(members), vec![]);
    assert_eq!(errors, vec![error("items[1].description", ErrorType::MissingField)]);
}

#[test]
fn removing_a_repeated_field_yields_nothing() {
    let registry = create_test_descriptor();
    let mut members = members_of(conforming_document());
    members.remove(1);
    let errors = validate_json(&registry, "TopLevel", &JsonValue::Object(members), vec![]);
    assert_eq!(errors, vec![]);
}

#[test]
fn adding_a_key_yields_one_additional_field() {
    let registry = create_test_descriptor();
    let mut members = members_of(conforming_document());
    members.insert(1, ("surplus".to_string(), JsonValue::Null));
    let errors = validate_json(&registry, "TopLevel", &JsonValue::Object(members), vec![]);
    assert_eq!(errors, vec![error("surplus", ErrorType::AdditionalField)]);
}

#[test]
fn adding_a_nested_key_leaves_siblings_alone() {
    let registry = create_test_descriptor();
    let mut members = members_of(conforming_document());
    let (key, items) = members.remove(1);
    let mut items = items_of(items);
    let mut first = members_of(items.remove(0));
    let (details_key, details) = first.remove(2);
    let mut details = items_of(details);
    let mut inner = members_of(details.remove(1));
    inner.push(("surplus".to_string(), whole(1)));
    details.push(JsonValue::Object(inner));
    first.push((details_key, JsonValue::Array(details)));
    items.insert(0, JsonValue::Object(first));
    members.push((key, JsonValue::Array(items)));
    members.push(("extra".to_string(), whole(0)));
    let errors = validate_json(&registry, "TopLevel", &JsonValue::Object(members), vec![]);
    assert_eq!(
        errors,
        vec![
            error("items[0].details[1].surplus", ErrorType::AdditionalField),
            error("extra", ErrorType::AdditionalField),
        ]
    );
}

#[test]
fn corrupted_element_is_reported_at_its_index() {
    let registry = Registry::from_messages(vec![message(
        "Series",
        vec![repeated_scalar("points", PrimitiveKind::Int32)],
    )]);
    let mut points: Vec<JsonValue> = (0..12).map(whole).collect();
    points[10] = text("ten");
    let document = object(vec![("points", JsonValue::Array(points))]);
    let errors = validate_json(&registry, "Series", &document, vec![]);
    assert_eq!(errors, vec![error("points[10]", ErrorType::InvalidArrayElement)]);
}

#[test]
fn corrupted_message_element_is_reported_at_its_index() {
    let registry = create_test_descriptor();
    let mut members = members_of(conforming_document());
    let (key, items) = members.remove(1);
    let mut items = items_of(items);
    items[1] = whole(7);
    members.push((key, JsonValue::Array(items)));
    let errors = validate_json(&registry, "TopLevel", &JsonValue::Object(members), vec![]);
    assert_eq!(errors, vec![error("items[1]", ErrorType::WrongDataType)]);
}

#[test]
fn type_name_is_resolved_whatever_its_case() {
    let registry = Registry::from_messages(vec![message(
        "Table",
        vec![scalar("name", PrimitiveKind::Text)],
    )]);
    let document = object(vec![("name", whole(1)), ("other", whole(2))]);
    let expected = vec![
        error("name", ErrorType::WrongDataType),
        error("other", ErrorType::AdditionalField),
    ];
    assert_eq!(validate_json(&registry, "Table", &document, vec![]), expected);
    assert_eq!(validate_json(&registry, "TABLE", &document, vec![]), expected);
    assert_eq!(validate_json(&registry, "table", &document, vec![]), expected);
}

#[test]
fn spellings_of_a_table_name_resolve_alike() {
    let registry = Registry::from_messages(vec![message(
        "Table",
        vec![scalar("name", PrimitiveKind::Text)],
    )]);
    assert!(resolves_alike(&registry, "Table", "TABLE"));
    assert!(resolves_alike(&registry, "TABLE", "table"));
    assert!(resolves_alike(&registry, "table", "Table"));
    assert!(!resolves_alike(&registry, "Table", "Tables"));
    assert!(!resolves_alike(&registry, "Other", "OTHER"));
    assert!(same_name("Other", "OTHER"));
    assert!(same_name("", ""));
    assert!(!same_name("Table", "Tab1e"));
    assert!(!same_name("Table", ".Table"));
}

#[test]
fn unknown_type_is_reported_under_the_name_as_given() {
    let registry = create_test_descriptor();
    let document = conforming_document();
    assert_eq!(
        validate_json(&registry, "Missing", &document, vec![]),
        vec![error("Missing", ErrorType::MissingField)]
    );
    assert_eq!(
        validate_json(&registry, ".TopLevel", &document, vec![]),
        vec![error(".TopLevel", ErrorType::MissingField)]
    );
}

#[test]
fn root_that_is_no_object_has_the_wrong_type() {
    let registry = create_test_descriptor();
    assert_eq!(
        validate_json(&registry, "TopLevel", &JsonValue::Array(vec![]), vec![]),
        vec![error("", ErrorType::WrongDataType)]
    );
}

#[test]
fn empty_array_is_flagged_for_messages_only() {
    let registry = Registry::from_messages(vec![
        message(
            "Holder",
            vec![
                nested("parts", "Part", Cardinality::Repeated),
                repeated_scalar("tags", PrimitiveKind::Text),
            ],
        ),
        message("Part", vec![]),
    ]);
    let document = object(vec![
        ("parts", JsonValue::Array(vec![])),
        ("tags", JsonValue::Array(vec![])),
    ]);
    assert_eq!(
        validate_json(&registry, "Holder", &document, vec![]),
        vec![error("parts", ErrorType::MissingArrayField)]
    );
}

#[test]
fn repeated_field_must_be_an_array() {
    let registry = create_test_descriptor();
    let document = object(vec![("name", text("n")), ("items", object(vec![]))]);
    assert_eq!(
        validate_json(&registry, "TopLevel", &document, vec![]),
        vec![error("items", ErrorType::WrongDataType)]
    );
}

#[test]
fn unresolved_nested_type_is_accepted() {
    let registry = Registry::from_messages(vec![message(
        "Holder",
        vec![
            nested("one", "Nowhere", Cardinality::Singular),
            nested("many", "Nowhere", Cardinality::Repeated),
            FieldDescriptor {
                json_name: Some("bare".to_string()),
                kind: FieldKind::Message(None),
                cardinality: Cardinality::Singular,
            },
        ],
    )]);
    let document = object(vec![
        ("one", whole(1)),
        ("many", JsonValue::Array(vec![whole(1), text("x")])),
        ("bare", JsonValue::Null),
    ]);
    assert_eq!(validate_json(&registry, "Holder", &document, vec![]), vec![]);
}

#[test]
fn nested_type_name_loses_its_dots_and_its_case() {
    let registry = Registry::from_messages(vec![
        message("Holder", vec![nested("part", "..PART", Cardinality::Singular)]),
        message("Part", vec![scalar("size", PrimitiveKind::Int32)]),
    ]);
    let document = object(vec![("part", object(vec![]))]);
    assert_eq!(
        validate_json(&registry, "holder", &document, vec![]),
        vec![error("part.size", ErrorType::MissingField)]
    );
}

#[test]
fn singular_message_field_must_be_an_object() {
    let registry = Registry::from_messages(vec![
        message("Holder", vec![nested("part", "Part", Cardinality::Singular)]),
        message("Part", vec![]),
    ]);
    let document = object(vec![("part", whole(1))]);
    assert_eq!(
        validate_json(&registry, "Holder", &document, vec![]),
        vec![error("part", ErrorType::WrongDataType)]
    );
}

#[test]
fn later_message_and_later_field_win() {
    let registry = Registry::from_messages(vec![
        message("Thing", vec![scalar("a", PrimitiveKind::Text)]),
        MessageDescriptor { name: None, fields: vec![] },
        message(
            "THING",
            vec![
                scalar("b", PrimitiveKind::Text),
                FieldDescriptor {
                    json_name: None,
                    kind: FieldKind::Primitive(PrimitiveKind::Bool),
                    cardinality: Cardinality::Singular,
                },
                scalar("b", PrimitiveKind::Bool),
            ],
        ),
    ]);
    assert_eq!(
        validate_json(&registry, "thing", &object(vec![("b", JsonValue::Bool(true))]), vec![]),
        vec![]
    );
    assert_eq!(
        validate_json(&registry, "thing", &object(vec![]), vec![]),
        vec![error("b", ErrorType::MissingField)]
    );
    assert_eq!(
        validate_json(&registry, "thing", &object(vec![("a", text("x"))]), vec![]),
        vec![error("a", ErrorType::AdditionalField), error("b", ErrorType::MissingField)]
    );
}

#[test]
fn scalars_are_checked_by_kind() {
    let big = JsonValue::Number(JsonNumber::PosInt(i64::MAX as u64 + 1));
    let most = JsonValue::Number(JsonNumber::PosInt(i64::MAX as u64));
    let negative = JsonValue::Number(JsonNumber::NegInt(-5));
    let float = JsonValue::Number(JsonNumber::Float(1.5f64.to_bits()));
    assert!(is_valid_primitive(PrimitiveKind::Text, &text("")));
    assert!(!is_valid_primitive(PrimitiveKind::Text, &whole(1)));
    assert!(is_valid_primitive(PrimitiveKind::Int32, &whole(5_000_000_000)));
    assert!(is_valid_primitive(PrimitiveKind::Int32, &most));
    assert!(is_valid_primitive(PrimitiveKind::Int32, &negative));
    assert!(!is_valid_primitive(PrimitiveKind::Int32, &big));
    assert!(!is_valid_primitive(PrimitiveKind::Int32, &float));
    assert!(!is_valid_primitive(PrimitiveKind::Int32, &text("1")));
    assert!(is_valid_primitive(PrimitiveKind::Float, &float));
    assert!(is_valid_primitive(PrimitiveKind::Float, &whole(1)));
    assert!(is_valid_primitive(PrimitiveKind::Float, &big));
    assert!(!is_valid_primitive(PrimitiveKind::Float, &JsonValue::Null));
    assert!(is_valid_primitive(PrimitiveKind::Bool, &JsonValue::Bool(false)));
    assert!(!is_valid_primitive(PrimitiveKind::Bool, &whole(0)));
    assert!(!is_valid_primitive(PrimitiveKind::Other, &whole(0)));
    assert!(!is_valid_primitive(PrimitiveKind::Other, &text("x")));
    assert!(!is_valid_primitive(PrimitiveKind::Other, &JsonValue::Null));
}

#[test]
fn validate_message_appends_below_the_given_path() {
    let registry = create_test_descriptor();
    let part = message("Part", vec![scalar("size", PrimitiveKind::Int32)]);
    let mut errors = vec![error("before", ErrorType::AdditionalField)];
    validate_message(
        &part,
        &object(vec![("colour", text("red"))]),
        &registry,
        &vec![],
        "parent".to_string(),
        &mut errors,
    );
    assert_eq!(
        errors,
        vec![
            error("before", ErrorType::AdditionalField),
            error("parent.colour", ErrorType::AdditionalField),
            error("parent.size", ErrorType::MissingField),
        ]
    );
}

#[test]
fn validate_field_reports_at_the_given_path() {
    let registry = create_test_descriptor();
    let mut errors = Vec::new();
    validate_field(
        &repeated_scalar("flags", PrimitiveKind::Bool),
        &JsonValue::Array(vec![JsonValue::Bool(true), whole(1), JsonValue::Null]),
        &registry,
        &vec![],
        "a.flags",
        &mut errors,
    );
    validate_field(&scalar("n", PrimitiveKind::Float), &text("x"), &registry, &vec![], "a.n", &mut errors);
    assert_eq!(
        errors,
        vec![
            error("a.flags[1]", ErrorType::InvalidArrayElement),
            error("a.flags[2]", ErrorType::InvalidArrayElement),
            error("a.n", ErrorType::WrongDataType),
        ]
    );
}

#[test]
fn ignore_list_is_searched_by_name() {
    let list = vec!["_id".to_string(), "_rev".to_string()];
    assert!(is_ignored(&list, &"_rev".to_string()));
    assert!(!is_ignored(&list, &"_REV".to_string()));
    assert!(!is_ignored(&vec![], &"_id".to_string()));
}
