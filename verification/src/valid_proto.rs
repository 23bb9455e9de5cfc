//! The structural validator: compares a document with a message type and
//! lists, with the path of each, the places where they differ.

use vstd::prelude::*;
use vstd::string::*;

use crate::descriptor::{
    field_named, resolved, Cardinality, FieldDescriptor, FieldKind, FieldModel, KindModel,
    MessageDescriptor, MessageModel, PrimitiveKind, Registry,
};
use crate::json::{member_keys, JsonModel, JsonValue};
use crate::text::{
    child_path, element_path, index_path, join_path, last_index, trim_leading_dots,
    without_leading_dots,
};

verus! {

/// The ways in which a document can differ from its message type.
#[derive(Clone, Copy, Debug, PartialEq, Eq)]
pub enum ErrorType {
    /// The document has a key that the message has no field for.
    AdditionalField,
    /// The document lacks a field that is not repeated, or the message type
    /// itself is unknown.
    MissingField,
    /// A value has another type than its field.
    WrongDataType,
    /// The array of a repeated message field is empty.
    MissingArrayField,
    /// An element of a repeated scalar field has another type than the field.
    InvalidArrayElement,
}

/// One difference between a document and its message type.
#[derive(Debug, PartialEq, Eq)]
pub struct ValidationError {
    /// The path of the value in the document, such as `items[2].value`.
    pub field: String,
    pub error_type: ErrorType,
}

/// The model of a [`ValidationError`].
pub struct ErrorModel {
    pub field: Seq<char>,
    pub error_type: ErrorType,
}

impl View for ValidationError {
    type V = ErrorModel;

    open spec fn view(&self) -> ErrorModel {
        ErrorModel { field: self.field@, error_type: self.error_type }
    }
}

/// The models of a list of errors.
pub open spec fn errors_view(errors: Seq<ValidationError>) -> Seq<ErrorModel> {
    errors.map_values(|e: ValidationError| e@)
}

/// The names in an ignore list.
pub open spec fn names_of(list: Seq<String>) -> Seq<Seq<char>> {
    list.map_values(|s: String| s@)
}

/// An error of the given kind at `path`.
pub open spec fn error_at(path: Seq<char>, error_type: ErrorType) -> ErrorModel {
    ErrorModel { field: path, error_type }
}

/// Whether a document value is accepted for a scalar field: a string for
/// `Text`, an integer that fits 64 bits for `Int32`, any number for `Float`, a
/// boolean for `Bool`, and nothing else.
pub open spec fn valid_primitive(kind: PrimitiveKind, value: JsonModel) -> bool {
    match (kind, value) {
        (PrimitiveKind::Text, JsonModel::Text(_)) => true,
        (PrimitiveKind::Int32, JsonModel::Number(n)) => n.fits_i64(),
        (PrimitiveKind::Float, JsonModel::Number(_)) => true,
        (PrimitiveKind::Bool, JsonModel::Bool(_)) => true,
        _ => false,
    }
}

/// The message that the type name of a field resolves to: leading dots are
/// dropped and the case does not count.
pub open spec fn nested_message(
    registry: Map<Seq<char>, MessageModel>,
    target: Option<Seq<char>>,
) -> Option<MessageModel> {
    match target {
        Some(name) => resolved(registry, without_leading_dots(name)),
        None => None,
    }
}

/// Whether an object lists the key `name`.
pub open spec fn has_key(members: Seq<(Seq<char>, JsonModel)>, name: Seq<char>) -> bool {
    last_index(member_keys(members), name, members.len()) is Some
}

/// Whether the field at `index` is reported as missing from an object: it has
/// a JSON name that is not ignored and that no later field has too, it is not
/// repeated, and the object does not list its name.
pub open spec fn is_missing(
    fields: Seq<FieldModel>,
    members: Seq<(Seq<char>, JsonModel)>,
    ignore: Seq<Seq<char>>,
    index: int,
) -> bool {
    &&& 0 <= index < fields.len()
    &&& fields[index].json_name matches Some(name)
    &&& !ignore.contains(name)
    &&& field_named(fields, name) == Some(index)
    &&& fields[index].cardinality != Cardinality::Repeated
    &&& !has_key(members, name)
}

/// The errors of the second pass over the first `n` fields of a message: one
/// `MissingField` for each field that is missing, in schema order.
pub open spec fn missing_errors(
    fields: Seq<FieldModel>,
    members: Seq<(Seq<char>, JsonModel)>,
    ignore: Seq<Seq<char>>,
    path: Seq<char>,
    n: nat,
) -> Seq<ErrorModel>
    decreases n,
{
    if n == 0 || n > fields.len() {
        Seq::empty()
    } else {
        let before = missing_errors(fields, members, ignore, path, (n - 1) as nat);
        if is_missing(fields, members, ignore, n - 1) {
            before.push(
                error_at(child_path(path, fields[n - 1].json_name->0), ErrorType::MissingField),
            )
        } else {
            before
        }
    }
}

/// The errors of a value held against a message type at `path`: for anything
/// but an object one `WrongDataType`; for an object the errors of its members
/// in document order, then the missing fields in schema order.
pub open spec fn message_errors(
    registry: Map<Seq<char>, MessageModel>,
    message: MessageModel,
    value: JsonModel,
    ignore: Seq<Seq<char>>,
    path: Seq<char>,
) -> Seq<ErrorModel>
    decreases value, 0nat,
{
    match value {
        JsonModel::Object(members) => present_errors(
            registry,
            message,
            members,
            ignore,
            path,
            members.len(),
        ) + missing_errors(message.fields, members, ignore, path, message.fields.len()),
        _ => seq![error_at(path, ErrorType::WrongDataType)],
    }
}

/// The errors of the first pass over the first `n` members of an object.
pub open spec fn present_errors(
    registry: Map<Seq<char>, MessageModel>,
    message: MessageModel,
    members: Seq<(Seq<char>, JsonModel)>,
    ignore: Seq<Seq<char>>,
    path: Seq<char>,
    n: nat,
) -> Seq<ErrorModel>
    decreases members, n,
{
    if n == 0 || n > members.len() {
        Seq::empty()
    } else {
        present_errors(registry, message, members, ignore, path, (n - 1) as nat) + member_errors(
            registry,
            message,
            members[n - 1].0,
            members[n - 1].1,
            ignore,
            path,
        )
    }
}

/// The errors of one member of an object: none for an ignored key, one
/// `AdditionalField` for a key without a field, else the errors of the value
/// held against the field.
pub open spec fn member_errors(
    registry: Map<Seq<char>, MessageModel>,
    message: MessageModel,
    key: Seq<char>,
    value: JsonModel,
    ignore: Seq<Seq<char>>,
    path: Seq<char>,
) -> Seq<ErrorModel>
    decreases value, 2nat,
{
    if ignore.contains(key) {
        Seq::empty()
    } else {
        match field_named(message.fields, key) {
            Some(index) => field_errors(
                registry,
                message.fields[index],
                value,
                ignore,
                child_path(path, key),
            ),
            None => seq![error_at(child_path(path, key), ErrorType::AdditionalField)],
        }
    }
}

/// The errors of a value held against a field at `path`.
pub open spec fn field_errors(
    registry: Map<Seq<char>, MessageModel>,
    field: FieldModel,
    value: JsonModel,
    ignore: Seq<Seq<char>>,
    path: Seq<char>,
) -> Seq<ErrorModel>
    decreases value, 1nat,
{
    match field.cardinality {
        Cardinality::Repeated => match value {
            JsonModel::Array(items) => empty_array_errors(field, items, path) + element_errors(
                registry,
                field,
                items,
                ignore,
                path,
                items.len(),
            ),
            _ => seq![error_at(path, ErrorType::WrongDataType)],
        },
        Cardinality::Singular => match field.kind {
            KindModel::Message(target) => match nested_message(registry, target) {
                Some(nested) => message_errors(registry, nested, value, ignore, path),
                None => Seq::empty(),
            },
            KindModel::Primitive(kind) => if valid_primitive(kind, value) {
                Seq::empty()
            } else {
                seq![error_at(path, ErrorType::WrongDataType)]
            },
        },
    }
}

/// One `MissingArrayField` where the array of a repeated message field is
/// empty.
pub open spec fn empty_array_errors(
    field: FieldModel,
    items: Seq<JsonModel>,
    path: Seq<char>,
) -> Seq<ErrorModel> {
    if items.len() == 0 && field.kind is Message {
        seq![error_at(path, ErrorType::MissingArrayField)]
    } else {
        Seq::empty()
    }
}

/// The errors of the first `n` elements of the array of a repeated field.
pub open spec fn element_errors(
    registry: Map<Seq<char>, MessageModel>,
    field: FieldModel,
    items: Seq<JsonModel>,
    ignore: Seq<Seq<char>>,
    path: Seq<char>,
    n: nat,
) -> Seq<ErrorModel>
    decreases items, n,
{
    if n == 0 || n > items.len() {
        Seq::empty()
    } else {
        element_errors(registry, field, items, ignore, path, (n - 1) as nat) + item_errors(
            registry,
            field,
            items[n - 1],
            ignore,
            element_path(path, (n - 1) as nat),
        )
    }
}

/// The errors of one element of the array of a repeated field, at the
/// element's own path: those of the nested message, none where its type does
/// not resolve; for a scalar one `InvalidArrayElement` where it is not valid.
pub open spec fn item_errors(
    registry: Map<Seq<char>, MessageModel>,
    field: FieldModel,
    item: JsonModel,
    ignore: Seq<Seq<char>>,
    path: Seq<char>,
) -> Seq<ErrorModel>
    decreases item, 1nat,
{
    match field.kind {
        KindModel::Message(target) => match nested_message(registry, target) {
            Some(nested) => message_errors(registry, nested, item, ignore, path),
            None => Seq::empty(),
        },
        KindModel::Primitive(kind) => if valid_primitive(kind, item) {
            Seq::empty()
        } else {
            seq![error_at(path, ErrorType::InvalidArrayElement)]
        },
    }
}

/// The errors of a document held against the message type `table_name`: where
/// the name does not resolve, one `MissingField` whose path is the name as
/// given.
pub open spec fn validation_errors(
    registry: Map<Seq<char>, MessageModel>,
    table_name: Seq<char>,
    document: JsonModel,
    ignore: Seq<Seq<char>>,
) -> Seq<ErrorModel> {
    match resolved(registry, table_name) {
        Some(message) => message_errors(registry, message, document, ignore, Seq::empty()),
        None => seq![error_at(table_name, ErrorType::MissingField)],
    }
}

/// Whether `name` is in the ignore list.
pub fn is_ignored(ignore_list: &Vec<String>, name: &String) -> (result: bool)
    ensures
        result == names_of(ignore_list@).contains(name@),
{
    let mut i: usize = 0;
    while i < ignore_list.len()
        invariant
            i <= ignore_list@.len(),
            forall|j: int| 0 <= j < i ==> names_of(ignore_list@)[j] != name@,
        decreases ignore_list@.len() - i,
    {
        if ignore_list[i] == *name {
            assert(names_of(ignore_list@)[i as int] == name@);
            return true;
        }
        i += 1;
    }
    false
}

/// Checks a document value against a scalar type.
pub fn is_valid_primitive(kind: PrimitiveKind, value: &JsonValue) -> (result: bool)
    ensures
        result == valid_primitive(kind, value@),
{
    match kind {
        PrimitiveKind::Text => match value {
            JsonValue::Text(_) => true,
            _ => false,
        },
        PrimitiveKind::Int32 => match value {
            JsonValue::Number(n) => n.is_i64(),
            _ => false,
        },
        PrimitiveKind::Float => match value {
            JsonValue::Number(_) => true,
            _ => false,
        },
        PrimitiveKind::Bool => match value {
            JsonValue::Bool(_) => true,
            _ => false,
        },
        PrimitiveKind::Other => false,
    }
}

fn push_error(errors: &mut Vec<ValidationError>, field: String, error_type: ErrorType)
    ensures
        errors_view(final(errors)@) == errors_view(old(errors)@).push(error_at(field@, error_type)),
{
    errors.push(ValidationError { field, error_type });
    assert(errors_view(errors@) =~= errors_view(old(errors)@).push(error_at(field@, error_type)));
}

fn resolve_nested<'a>(registry: &'a Registry, target: &Option<String>) -> (result: Option<
    &'a MessageDescriptor,
>)
    ensures
        match result {
            Some(message) => nested_message(registry@, crate::descriptor::text_of(*target))
                == Some(message@),
            None => nested_message(registry@, crate::descriptor::text_of(*target)) is None,
        },
{
    match target {
        Some(name) => registry.resolve(trim_leading_dots(name.as_str())),
        None => None,
    }
}

/// Validates a value against a message type and appends what it finds to
/// `errors`.
pub fn validate_message(
    message: &MessageDescriptor,
    json_value: &JsonValue,
    registry: &Registry,
    ignore_list: &Vec<String>,
    parent_path: String,
    errors: &mut Vec<ValidationError>,
)
    ensures
        errors_view(final(errors)@) == errors_view(old(errors)@) + message_errors(
            registry@,
            message@,
            json_value@,
            names_of(ignore_list@),
            parent_path@,
        ),
    decreases json_value, 0nat,
{
    let ghost start = errors_view(errors@);
    let ghost ignore = names_of(ignore_list@);
    match json_value {
        JsonValue::Object(members) => {
            proof {
                json_value.lemma_view_object();
            }
            let ghost model = json_value@->Object_0;
            let mut i: usize = 0;
            while i < members.len()
                invariant
                    i <= members@.len(),
                    *json_value == JsonValue::Object(*members),
                    json_value@ == JsonModel::Object(model),
                    model.len() == members@.len(),
                    forall|j: int|
                        0 <= j < members@.len() ==> (#[trigger] model[j]) == (
                            members@[j].0@,
                            members@[j].1@,
                        ),
                    ignore == names_of(ignore_list@),
                    errors_view(errors@) == start + present_errors(
                        registry@,
                        message@,
                        model,
                        ignore,
                        parent_path@,
                        i as nat,
                    ),
                decreases members@.len() - i,
            {
                let key: &String = &members[i].0;
                let ghost before = errors_view(errors@);
                let ghost earlier = present_errors(
                    registry@,
                    message@,
                    model,
                    ignore,
                    parent_path@,
                    i as nat,
                );
                let ghost here = member_errors(
                    registry@,
                    message@,
                    model[i as int].0,
                    model[i as int].1,
                    ignore,
                    parent_path@,
                );
                if !is_ignored(ignore_list, key) {
                    let field_path: String = join_path(parent_path.as_str(), key.as_str());
                    match message.find_field(key) {
                        Some(index) => {
                            assert(decreases_to!(json_value => json_value->Object_0@[i as int].1));
                            assert(message@.fields[index as int] == message.fields@[index as int]@);
                            validate_field(
                                &message.fields[index],
                                &members[i].1,
                                registry,
                                ignore_list,
                                field_path.as_str(),
                                errors,
                            );
                        },
                        None => {
                            push_error(errors, field_path, ErrorType::AdditionalField);
                            assert(before.push(
                                error_at(
                                    child_path(parent_path@, key@),
                                    ErrorType::AdditionalField,
                                ),
                            ) =~= before + here);
                        },
                    }
                } else {
                    assert(before =~= before + here);
                }
                assert(errors_view(errors@) == before + here);
                assert(start + earlier + here =~= start + (earlier + here));
                i += 1;
            }
            let ghost first_pass = errors_view(errors@);
            let mut j: usize = 0;
            while j < message.fields.len()
                invariant
                    j <= message.fields@.len(),
                    json_value@ == JsonModel::Object(model),
                    ignore == names_of(ignore_list@),
                    message@.fields.len() == message.fields@.len(),
                    errors_view(errors@) == first_pass + missing_errors(
                        message@.fields,
                        model,
                        ignore,
                        parent_path@,
                        j as nat,
                    ),
                decreases message.fields@.len() - j,
            {
                let field: &FieldDescriptor = &message.fields[j];
                assert(message@.fields[j as int] == field@);
                let ghost before = errors_view(errors@);
                let ghost earlier = missing_errors(
                    message@.fields,
                    model,
                    ignore,
                    parent_path@,
                    j as nat,
                );
                let mut missing: bool = false;
                match &field.json_name {
                    Some(name) => {
                        let last: bool = match message.find_field(name) {
                            Some(index) => index == j,
                            None => false,
                        };
                        let singular: bool = match field.cardinality {
                            Cardinality::Singular => true,
                            Cardinality::Repeated => false,
                        };
                        if last && singular && !is_ignored(ignore_list, name) {
                            missing = json_value.get(name.as_str()).is_none();
                        }
                        assert(missing == is_missing(message@.fields, model, ignore, j as int));
                        if missing {
                            let field_path: String = join_path(
                                parent_path.as_str(),
                                name.as_str(),
                            );
                            push_error(errors, field_path, ErrorType::MissingField);
                        }
                    },
                    None => {},
                }
                assert(errors_view(errors@) == if is_missing(
                    message@.fields,
                    model,
                    ignore,
                    j as int,
                ) {
                    before.push(
                        error_at(
                            child_path(parent_path@, message@.fields[j as int].json_name->0),
                            ErrorType::MissingField,
                        ),
                    )
                } else {
                    before
                });
                assert(errors_view(errors@) =~= first_pass + missing_errors(
                    message@.fields,
                    model,
                    ignore,
                    parent_path@,
                    (j + 1) as nat,
                ));
                j += 1;
            }
            assert(errors_view(errors@) =~= start + message_errors(
                registry@,
                message@,
                json_value@,
                ignore,
                parent_path@,
            ));
        },
        _ => {
            push_error(errors, parent_path, ErrorType::WrongDataType);
            assert(start.push(error_at(parent_path@, ErrorType::WrongDataType)) =~= start
                + message_errors(registry@, message@, json_value@, ignore, parent_path@));
        },
    }
}

/// Validates a value against one field of a message and appends what it finds
/// to `errors`.
pub fn validate_field(
    field: &FieldDescriptor,
    value: &JsonValue,
    registry: &Registry,
    ignore_list: &Vec<String>,
    field_path: &str,
    errors: &mut Vec<ValidationError>,
)
    ensures
        errors_view(final(errors)@) == errors_view(old(errors)@) + field_errors(
            registry@,
            field@,
            value@,
            names_of(ignore_list@),
            field_path@,
        ),
    decreases value, 1nat,
{
    let ghost start = errors_view(errors@);
    let ghost ignore = names_of(ignore_list@);
    let ghost expected = field_errors(registry@, field@, value@, ignore, field_path@);
    match field.cardinality {
        Cardinality::Repeated => match value {
            JsonValue::Array(items) => {
                proof {
                    value.lemma_view_array();
                }
                let ghost model = value@->Array_0;
                let is_message: bool = match &field.kind {
                    FieldKind::Message(_) => true,
                    FieldKind::Primitive(_) => false,
                };
                if items.len() == 0 && is_message {
                    push_error(errors, String::from_str(field_path), ErrorType::MissingArrayField);
                }
                let ghost first = empty_array_errors(field@, model, field_path@);
                assert(errors_view(errors@) =~= start + first);
                let mut i: usize = 0;
                while i < items.len()
                    invariant
                        i <= items@.len(),
                        *value == JsonValue::Array(*items),
                        value@ == JsonModel::Array(model),
                        model.len() == items@.len(),
                        forall|j: int|
                            0 <= j < items@.len() ==> (#[trigger] model[j]) == items@[j]@,
                        ignore == names_of(ignore_list@),
                        errors_view(errors@) == start + first + element_errors(
                            registry@,
                            field@,
                            model,
                            ignore,
                            field_path@,
                            i as nat,
                        ),
                    decreases items@.len() - i,
                {
                    let item_path: String = index_path(field_path, i);
                    let ghost before = errors_view(errors@);
                    let ghost earlier = element_errors(
                        registry@,
                        field@,
                        model,
                        ignore,
                        field_path@,
                        i as nat,
                    );
                    let ghost here = item_errors(
                        registry@,
                        field@,
                        model[i as int],
                        ignore,
                        item_path@,
                    );
                    match &field.kind {
                        FieldKind::Message(target) => {
                            match resolve_nested(registry, target) {
                                Some(nested) => {
                                    assert(decreases_to!(value => value->Array_0@[i as int]));
                                    validate_message(
                                        nested,
                                        &items[i],
                                        registry,
                                        ignore_list,
                                        item_path,
                                        errors,
                                    );
                                },
                                None => {
                                    assert(before =~= before + here);
                                },
                            }
                        },
                        FieldKind::Primitive(kind) => {
                            if !is_valid_primitive(*kind, &items[i]) {
                                push_error(errors, item_path, ErrorType::InvalidArrayElement);
                                assert(before.push(
                                    error_at(
                                        element_path(field_path@, i as nat),
                                        ErrorType::InvalidArrayElement,
                                    ),
                                ) =~= before + here);
                            } else {
                                assert(before =~= before + here);
                            }
                        },
                    }
                    assert(errors_view(errors@) == before + here);
                    assert(start + first + earlier + here =~= start + first + (earlier + here));
                    i += 1;
                }
                assert(errors_view(errors@) =~= start + expected);
            },
            _ => {
                push_error(errors, String::from_str(field_path), ErrorType::WrongDataType);
                assert(errors_view(errors@) =~= start + expected);
            },
        },
        Cardinality::Singular => match &field.kind {
            FieldKind::Message(target) => {
                match resolve_nested(registry, target) {
                    Some(nested) => {
                        validate_message(
                            nested,
                            value,
                            registry,
                            ignore_list,
                            String::from_str(field_path),
                            errors,
                        );
                    },
                    None => {
                        assert(start =~= start + expected);
                    },
                }
            },
            FieldKind::Primitive(kind) => {
                if !is_valid_primitive(*kind, value) {
                    push_error(errors, String::from_str(field_path), ErrorType::WrongDataType);
                    assert(errors_view(errors@) =~= start + expected);
                } else {
                    assert(start =~= start + expected);
                }
            },
        },
    }
}

/// Validates a document against the message type `table_name` of the
/// registry. Keys and fields named in `ignore_list` take no part. The errors
/// come in the order of the traversal: for each object its members in document
/// order, then its missing fields in schema order.
pub fn validate_json(
    registry: &Registry,
    table_name: &str,
    json_value: &JsonValue,
    ignore_list: Vec<String>,
) -> (errors: Vec<ValidationError>)
    ensures
        errors_view(errors@) == validation_errors(
            registry@,
            table_name@,
            json_value@,
            names_of(ignore_list@),
        ),
{
    validate_with(registry, table_name, json_value, &ignore_list)
}

/// `validate_json` with a borrowed ignore list.
pub(crate) fn validate_with(
    registry: &Registry,
    table_name: &str,
    json_value: &JsonValue,
    ignore_list: &Vec<String>,
) -> (errors: Vec<ValidationError>)
    ensures
        errors_view(errors@) == validation_errors(
            registry@,
            table_name@,
            json_value@,
            names_of(ignore_list@),
        ),
{
    let mut errors: Vec<ValidationError> = Vec::new();
    assert(errors_view(errors@) =~= Seq::empty());
    match registry.resolve(table_name) {
        Some(message) => {
            let root: String = String::new();
            validate_message(message, json_value, registry, ignore_list, root, &mut errors);
            assert(errors_view(errors@) =~= validation_errors(
                registry@,
                table_name@,
                json_value@,
                names_of(ignore_list@),
            ));
        },
        None => {
            push_error(&mut errors, String::from_str(table_name), ErrorType::MissingField);
            assert(errors_view(errors@) =~= validation_errors(
                registry@,
                table_name@,
                json_value@,
                names_of(ignore_list@),
            ));
        },
    }
    errors
}

} // verus!
