//! What the validator finds, stated of documents rather than of runs: which
//! documents it accepts, and what one change to an accepted document costs.

use vstd::prelude::*;
use vstd::string::*;

use crate::descriptor::{
    field_named, resolved, Cardinality, FieldModel, KindModel, MessageModel, Registry,
};
use crate::json::JsonModel;
use crate::text::{child_path, element_path, lowercase, same_name};
use crate::valid_proto::{
    element_errors, field_errors, is_missing, item_errors, member_errors, message_errors,
    missing_errors, nested_message, present_errors, valid_primitive, validation_errors,
};

verus! {

/// Whether a value matches a message type: it is an object, each of its keys
/// that is not ignored has a field that its value matches, and it lists every
/// field that is not repeated nor ignored.
pub open spec fn message_conforms(
    registry: Map<Seq<char>, MessageModel>,
    message: MessageModel,
    value: JsonModel,
    ignore: Seq<Seq<char>>,
) -> bool
    decreases value, 0nat,
{
    &&& value matches JsonModel::Object(members)
    &&& forall|i: int|
        0 <= i < members.len() ==> member_conforms(
            registry,
            message,
            (#[trigger] members[i]).0,
            members[i].1,
            ignore,
        )
    &&& forall|j: int|
        0 <= j < message.fields.len() ==> !#[trigger] is_missing(
            message.fields,
            members,
            ignore,
            j,
        )
}

/// Whether a member of an object matches a message type: its key is ignored,
/// or has a field that the value matches.
pub open spec fn member_conforms(
    registry: Map<Seq<char>, MessageModel>,
    message: MessageModel,
    key: Seq<char>,
    value: JsonModel,
    ignore: Seq<Seq<char>>,
) -> bool
    decreases value, 3nat,
{
    ignore.contains(key) || match field_named(message.fields, key) {
        Some(index) => field_conforms(registry, message.fields[index], value, ignore),
        None => false,
    }
}

/// Whether a value matches a field. For a repeated field it is an array whose
/// elements match, and one of messages is not empty; for a message field it
/// matches the message, where the type resolves; for a scalar field it is a
/// valid scalar.
pub open spec fn field_conforms(
    registry: Map<Seq<char>, MessageModel>,
    field: FieldModel,
    value: JsonModel,
    ignore: Seq<Seq<char>>,
) -> bool
    decreases value, 2nat,
{
    match field.cardinality {
        Cardinality::Repeated => {
            &&& value matches JsonModel::Array(items)
            &&& !(items.len() == 0 && field.kind is Message)
            &&& forall|i: int|
                0 <= i < items.len() ==> item_conforms(
                    registry,
                    field,
                    #[trigger] items[i],
                    ignore,
                )
        },
        Cardinality::Singular => item_conforms(registry, field, value, ignore),
    }
}

/// Whether a single value matches the kind of a field.
pub open spec fn item_conforms(
    registry: Map<Seq<char>, MessageModel>,
    field: FieldModel,
    item: JsonModel,
    ignore: Seq<Seq<char>>,
) -> bool
    decreases item, 1nat,
{
    match field.kind {
        KindModel::Message(target) => match nested_message(registry, target) {
            Some(nested) => message_conforms(registry, nested, item, ignore),
            None => true,
        },
        KindModel::Primitive(kind) => valid_primitive(kind, item),
    }
}

/// Whether a document matches the message type `table_name` of the registry.
pub open spec fn document_conforms(
    registry: Map<Seq<char>, MessageModel>,
    table_name: Seq<char>,
    document: JsonModel,
    ignore: Seq<Seq<char>>,
) -> bool {
    match resolved(registry, table_name) {
        Some(message) => message_conforms(registry, message, document, ignore),
        None => false,
    }
}

/// The second pass reports nothing for the first `n` fields exactly when none
/// of them is missing.
proof fn lemma_missing_conformance(
    fields: Seq<FieldModel>,
    members: Seq<(Seq<char>, JsonModel)>,
    ignore: Seq<Seq<char>>,
    path: Seq<char>,
    n: nat,
)
    requires
        n <= fields.len(),
    ensures
        (forall|j: int| 0 <= j < n ==> !#[trigger] is_missing(fields, members, ignore, j))
            <==> missing_errors(fields, members, ignore, path, n).len() == 0,
    decreases n,
{
    if n > 0 {
        lemma_missing_conformance(fields, members, ignore, path, (n - 1) as nat);
    }
}

/// A value matches a message type exactly when the validator finds no error
/// in it, at whatever path the value stands.
pub proof fn lemma_message_conformance(
    registry: Map<Seq<char>, MessageModel>,
    message: MessageModel,
    value: JsonModel,
    ignore: Seq<Seq<char>>,
    path: Seq<char>,
)
    ensures
        message_conforms(registry, message, value, ignore) <==> message_errors(
            registry,
            message,
            value,
            ignore,
            path,
        ).len() == 0,
    decreases value, 0nat,
{
    match value {
        JsonModel::Object(members) => {
            lemma_present_conformance(registry, message, members, ignore, path, members.len());
            lemma_missing_conformance(
                message.fields,
                members,
                ignore,
                path,
                message.fields.len(),
            );
        },
        _ => {},
    }
}

pub proof fn lemma_present_conformance(
    registry: Map<Seq<char>, MessageModel>,
    message: MessageModel,
    members: Seq<(Seq<char>, JsonModel)>,
    ignore: Seq<Seq<char>>,
    path: Seq<char>,
    n: nat,
)
    requires
        n <= members.len(),
    ensures
        (forall|i: int|
            0 <= i < n ==> member_conforms(
                registry,
                message,
                (#[trigger] members[i]).0,
                members[i].1,
                ignore,
            )) <==> present_errors(registry, message, members, ignore, path, n).len() == 0,
    decreases members, n,
{
    if n > 0 {
        lemma_present_conformance(registry, message, members, ignore, path, (n - 1) as nat);
        lemma_member_conformance(
            registry,
            message,
            members[n - 1].0,
            members[n - 1].1,
            ignore,
            path,
        );
    }
}

/// A member matches a message type exactly when the validator finds no error
/// in it.
pub proof fn lemma_member_conformance(
    registry: Map<Seq<char>, MessageModel>,
    message: MessageModel,
    key: Seq<char>,
    value: JsonModel,
    ignore: Seq<Seq<char>>,
    path: Seq<char>,
)
    ensures
        member_conforms(registry, message, key, value, ignore) <==> member_errors(
            registry,
            message,
            key,
            value,
            ignore,
            path,
        ).len() == 0,
    decreases value, 3nat,
{
    if !ignore.contains(key) {
        match field_named(message.fields, key) {
            Some(index) => {
                lemma_field_conformance(
                    registry,
                    message.fields[index],
                    value,
                    ignore,
                    child_path(path, key),
                );
            },
            None => {},
        }
    }
}

/// A value matches a field exactly when the validator finds no error in it.
pub proof fn lemma_field_conformance(
    registry: Map<Seq<char>, MessageModel>,
    field: FieldModel,
    value: JsonModel,
    ignore: Seq<Seq<char>>,
    path: Seq<char>,
)
    ensures
        field_conforms(registry, field, value, ignore) <==> field_errors(
            registry,
            field,
            value,
            ignore,
            path,
        ).len() == 0,
    decreases value, 2nat,
{
    match field.cardinality {
        Cardinality::Repeated => match value {
            JsonModel::Array(items) => {
                lemma_elements_conformance(registry, field, items, ignore, path, items.len());
            },
            _ => {},
        },
        Cardinality::Singular => match field.kind {
            KindModel::Message(target) => match nested_message(registry, target) {
                Some(nested) => {
                    lemma_message_conformance(registry, nested, value, ignore, path);
                },
                None => {},
            },
            KindModel::Primitive(_) => {},
        },
    }
}

proof fn lemma_elements_conformance(
    registry: Map<Seq<char>, MessageModel>,
    field: FieldModel,
    items: Seq<JsonModel>,
    ignore: Seq<Seq<char>>,
    path: Seq<char>,
    n: nat,
)
    requires
        n <= items.len(),
    ensures
        (forall|i: int|
            0 <= i < n ==> item_conforms(registry, field, #[trigger] items[i], ignore))
            <==> element_errors(registry, field, items, ignore, path, n).len() == 0,
    decreases items, n,
{
    if n > 0 {
        lemma_elements_conformance(registry, field, items, ignore, path, (n - 1) as nat);
        lemma_item_conformance(
            registry,
            field,
            items[n - 1],
            ignore,
            element_path(path, (n - 1) as nat),
        );
    }
}

/// An element matches the kind of a repeated field exactly when the validator
/// finds no error in it.
pub proof fn lemma_item_conformance(
    registry: Map<Seq<char>, MessageModel>,
    field: FieldModel,
    item: JsonModel,
    ignore: Seq<Seq<char>>,
    path: Seq<char>,
)
    ensures
        item_conforms(registry, field, item, ignore) <==> item_errors(
            registry,
            field,
            item,
            ignore,
            path,
        ).len() == 0,
    decreases item, 1nat,
{
    match field.kind {
        KindModel::Message(target) => match nested_message(registry, target) {
            Some(nested) => {
                lemma_message_conformance(registry, nested, item, ignore, path);
            },
            None => {},
        },
        KindModel::Primitive(_) => {},
    }
}

/// Schema conformance: the validator returns the empty list for a document
/// exactly when the document matches its message type.
pub proof fn lemma_schema_conformance(
    registry: Map<Seq<char>, MessageModel>,
    table_name: Seq<char>,
    document: JsonModel,
    ignore: Seq<Seq<char>>,
)
    ensures
        document_conforms(registry, table_name, document, ignore) <==> validation_errors(
            registry,
            table_name,
            document,
            ignore,
        ).len() == 0,
{
    match resolved(registry, table_name) {
        Some(message) => {
            lemma_message_conformance(registry, message, document, ignore, Seq::empty());
        },
        None => {},
    }
}

/// Case-insensitive resolution: two names that agree in lower case and
/// resolve give the same errors for every document.
pub proof fn lemma_case_insensitive_resolution(
    registry: Map<Seq<char>, MessageModel>,
    first: Seq<char>,
    second: Seq<char>,
    document: JsonModel,
    ignore: Seq<Seq<char>>,
)
    requires
        lowercase(first) == lowercase(second),
        resolved(registry, first) is Some,
    ensures
        validation_errors(registry, first, document, ignore) == validation_errors(
            registry,
            second,
            document,
            ignore,
        ),
{
}

/// Whether two spellings of a table name stand for the same message type of
/// the registry: they agree when the case of their letters is left aside, and
/// the registry has a message type of that name. Every document then has the
/// same errors under the one spelling as under the other, and neither
/// spelling is reported as unknown.
pub fn resolves_alike(registry: &Registry, first: &str, second: &str) -> (alike: bool)
    ensures
        alike == (lowercase(first@) == lowercase(second@) && resolved(registry@, first@) is Some),
        alike ==> resolved(registry@, second@) == resolved(registry@, first@),
        alike ==> forall|document: JsonModel, ignore: Seq<Seq<char>>|
            #[trigger] validation_errors(registry@, first@, document, ignore)
                == validation_errors(registry@, second@, document, ignore),
{
    let alike: bool = same_name(first, second) && registry.resolve(first).is_some();
    proof {
        if alike {
            assert forall|document: JsonModel, ignore: Seq<Seq<char>>|
                #[trigger] validation_errors(registry@, first@, document, ignore)
                    == validation_errors(registry@, second@, document, ignore) by {
                lemma_case_insensitive_resolution(registry@, first@, second@, document, ignore);
            }
        }
    }
    alike
}

} // verus!
