use proto_reconcile::descriptor::{
    Cardinality, FieldDescriptor, FieldKind, MessageDescriptor, PrimitiveKind, Registry,
};
use proto_reconcile::json::{JsonNumber, JsonValue};
use proto_reconcile::pipeline::{action, Action, Outcome, Reconciler, State};
use proto_reconcile::valid_proto::{ErrorType, ValidationError};

fn schema() -> Registry {
    Registry::from_messages(vec![MessageDescriptor {
        name: Some("Person".to_string()),
        fields: vec![
            FieldDescriptor {
                json_name: Some("name".to_string()),
                kind: FieldKind::Primitive(PrimitiveKind::Text),
                cardinality: Cardinality::Singular,
            },
            FieldDescriptor {
                json_name: Some("age".to_string()),
                kind: FieldKind::Primitive(PrimitiveKind::Int32),
                cardinality: Cardinality::Singular,
            },
        ],
    }])
}

fn person(name: JsonValue, age: JsonValue) -> JsonValue {
    JsonValue::Object(vec![
        ("_id".to_string(), JsonValue::Text("person-1".to_string())),
        ("_rev".to_string(), JsonValue::Text("1-a".to_string())),
        ("name".to_string(), name),
        ("age".to_string(), age),
    ])
}

fn valid_person() -> JsonValue {
    person(JsonValue::Text("Ada".to_string()), JsonValue::Number(JsonNumber::PosInt(36)))
}

fn invalid_person() -> JsonValue {
    person(JsonValue::Text("Ada".to_string()), JsonValue::Text("36".to_string()))
}

fn run(preview: bool) -> Reconciler {
    Reconciler::new(schema(), "person", vec![], preview)
}

#[test]
fn standing_names_come_before_the_callers() {
    let reconciler = Reconciler::new(schema(), "person", vec!["created".to_string()], true);
    assert_eq!(
        reconciler.ignore_list(),
        &vec!["_id".to_string(), "_rev".to_string(), "created".to_string()]
    );
    assert_eq!(reconciler.table_name(), "person");
    assert!(reconciler.is_preview());
    assert!(!Reconciler::new(schema(), "person", vec![], false).is_preview());
}

#[test]
fn valid_document_is_unchanged() {
    let state = run(false).start(&valid_person());
    assert_eq!(state, State::Done(Outcome::Unchanged));
    assert_eq!(action(&state), Action::Stop);
}

#[test]
fn valid_document_stays_unchanged_on_every_run() {
    for preview in [false, true] {
        let reconciler = run(preview);
        for _ in 0..3 {
            let state = reconciler.start(&valid_person());
            assert_eq!(state, State::Done(Outcome::Unchanged));
            assert_eq!(action(&state), Action::Stop);
        }
    }
}

#[test]
fn invalid_document_waits_for_its_transform() {
    let state = run(false).start(&invalid_person());
    assert_eq!(state, State::Invalid);
    assert_eq!(action(&state), Action::Transform);
}

#[test]
fn failed_transform_ends_the_document() {
    let reconciler = run(false);
    let state = reconciler.transformed(reconciler.start(&invalid_person()), None);
    assert_eq!(state, State::Done(Outcome::TransformFailed));
    assert_eq!(action(&state), Action::Stop);
}

#[test]
fn replacement_that_is_still_invalid_is_rejected_with_its_own_errors() {
    let reconciler = run(false);
    let replacement = JsonValue::Object(vec![
        ("name".to_string(), JsonValue::Null),
        ("years".to_string(), JsonValue::Number(JsonNumber::PosInt(36))),
    ]);
    let state = reconciler.transformed(reconciler.start(&invalid_person()), Some(&replacement));
    assert_eq!(
        state,
        State::Done(Outcome::RejectedAfterTransform(vec![
            ValidationError { field: "name".to_string(), error_type: ErrorType::WrongDataType },
            ValidationError { field: "years".to_string(), error_type: ErrorType::AdditionalField },
            ValidationError { field: "age".to_string(), error_type: ErrorType::MissingField },
        ]))
    );
    assert_eq!(action(&state), Action::Stop);
}

#[test]
fn valid_replacement_is_written() {
    let reconciler = run(false);
    let state = reconciler.transformed(reconciler.start(&invalid_person()), Some(&valid_person()));
    assert_eq!(state, State::Approved);
    assert_eq!(action(&state), Action::Write);
    assert_eq!(reconciler.written(state, true), State::Done(Outcome::Updated));
}

#[test]
fn refused_write_is_a_failed_update() {
    let reconciler = run(false);
    let state = reconciler.transformed(reconciler.start(&invalid_person()), Some(&valid_person()));
    assert_eq!(reconciler.written(state, false), State::Done(Outcome::UpdateFailed));
}

#[test]
fn preview_writes_nothing() {
    let reconciler = run(true);
    let state = reconciler.transformed(reconciler.start(&invalid_person()), Some(&valid_person()));
    assert_eq!(state, State::Done(Outcome::Unchanged));
    assert_eq!(action(&state), Action::Stop);
}

#[test]
fn written_document_is_unchanged_on_the_next_run() {
    let reconciler = run(false);
    let replacement = valid_person();
    let state = reconciler.transformed(reconciler.start(&invalid_person()), Some(&replacement));
    assert_eq!(reconciler.written(state, true), State::Done(Outcome::Updated));
    assert_eq!(reconciler.start(&replacement), State::Done(Outcome::Unchanged));
}

#[test]
fn events_out_of_turn_change_nothing() {
    let reconciler = run(false);
    assert_eq!(reconciler.transformed(State::Fetched, Some(&valid_person())), State::Fetched);
    assert_eq!(reconciler.transformed(State::Approved, None), State::Approved);
    assert_eq!(reconciler.written(State::Fetched, true), State::Fetched);
    assert_eq!(reconciler.written(State::Invalid, true), State::Invalid);
    assert_eq!(
        reconciler.written(State::Done(Outcome::TransformFailed), true),
        State::Done(Outcome::TransformFailed)
    );
    assert_eq!(
        reconciler.transformed(State::Done(Outcome::Updated), None),
        State::Done(Outcome::Updated)
    );
    assert_eq!(action(&State::Fetched), Action::Validate);
}

#[test]
fn unknown_table_makes_every_document_invalid() {
    let reconciler = Reconciler::new(schema(), "people", vec![], false);
    assert_eq!(reconciler.start(&valid_person()), State::Invalid);
    let state = reconciler.transformed(State::Invalid, Some(&valid_person()));
    assert_eq!(
        state,
        State::Done(Outcome::RejectedAfterTransform(vec![ValidationError {
            field: "people".to_string(),
            error_type: ErrorType::MissingField,
        }]))
    );
}
