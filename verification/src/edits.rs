//! How the errors of a document change when one place in it changes: the
//! errors of the changed place are replaced by new ones, and every other error
//! stays where it was.

use vstd::prelude::*;

use crate::conformance::{
    document_conforms, field_conforms, lemma_field_conformance, lemma_message_conformance,
    lemma_present_conformance, member_conforms, message_conforms,
};
use crate::descriptor::{
    field_named, field_names, resolved, Cardinality, FieldModel, KindModel, MessageModel,
};
use crate::json::{member_keys, JsonModel};
use crate::text::{child_path, element_path, last_index, lemma_last_index};
use crate::valid_proto::{
    element_errors, empty_array_errors, error_at, field_errors, has_key, is_missing, item_errors,
    member_errors, message_errors, missing_errors, nested_message, present_errors,
    valid_primitive, validation_errors, ErrorModel, ErrorType,
};

verus! {

/// `errors` with the `count` errors from position `at` on replaced by
/// `fresh`.
pub open spec fn spliced(
    errors: Seq<ErrorModel>,
    at: int,
    count: int,
    fresh: Seq<ErrorModel>,
) -> Seq<ErrorModel> {
    errors.take(at) + fresh + errors.skip(at + count)
}

/// The errors of the first pass over the members from `lo` up to `hi`.
pub open spec fn present_range(
    registry: Map<Seq<char>, MessageModel>,
    message: MessageModel,
    members: Seq<(Seq<char>, JsonModel)>,
    ignore: Seq<Seq<char>>,
    path: Seq<char>,
    lo: int,
    hi: int,
) -> Seq<ErrorModel>
    decreases hi - lo,
{
    if hi <= lo || lo < 0 || hi > members.len() {
        Seq::empty()
    } else {
        present_range(registry, message, members, ignore, path, lo, hi - 1) + member_errors(
            registry,
            message,
            members[hi - 1].0,
            members[hi - 1].1,
            ignore,
            path,
        )
    }
}

/// The errors of the elements from `lo` up to `hi` of the array of a repeated
/// field.
pub open spec fn element_range(
    registry: Map<Seq<char>, MessageModel>,
    field: FieldModel,
    items: Seq<JsonModel>,
    ignore: Seq<Seq<char>>,
    path: Seq<char>,
    lo: int,
    hi: int,
) -> Seq<ErrorModel>
    decreases hi - lo,
{
    if hi <= lo || lo < 0 || hi > items.len() {
        Seq::empty()
    } else {
        element_range(registry, field, items, ignore, path, lo, hi - 1) + item_errors(
            registry,
            field,
            items[hi - 1],
            ignore,
            element_path(path, (hi - 1) as nat),
        )
    }
}

proof fn lemma_present_split(
    registry: Map<Seq<char>, MessageModel>,
    message: MessageModel,
    members: Seq<(Seq<char>, JsonModel)>,
    ignore: Seq<Seq<char>>,
    path: Seq<char>,
    lo: int,
    mid: int,
    hi: int,
)
    requires
        0 <= lo <= mid <= hi <= members.len(),
    ensures
        present_range(registry, message, members, ignore, path, lo, hi) == present_range(
            registry,
            message,
            members,
            ignore,
            path,
            lo,
            mid,
        ) + present_range(registry, message, members, ignore, path, mid, hi),
        present_errors(registry, message, members, ignore, path, hi as nat) == present_range(
            registry,
            message,
            members,
            ignore,
            path,
            0,
            hi,
        ),
    decreases hi - mid, hi,
{
    let whole = present_range(registry, message, members, ignore, path, lo, hi);
    let left = present_range(registry, message, members, ignore, path, lo, mid);
    let right = present_range(registry, message, members, ignore, path, mid, hi);
    if hi > mid {
        lemma_present_split(registry, message, members, ignore, path, lo, mid, hi - 1);
        let last = member_errors(
            registry,
            message,
            members[hi - 1].0,
            members[hi - 1].1,
            ignore,
            path,
        );
        let shorter = present_range(registry, message, members, ignore, path, mid, hi - 1);
        assert(whole =~= left + (shorter + last));
    } else {
        assert(whole =~= left + right);
        if hi > 0 {
            lemma_present_split(registry, message, members, ignore, path, 0, hi - 1, hi - 1);
        }
    }
}

proof fn lemma_present_shift(
    registry: Map<Seq<char>, MessageModel>,
    message: MessageModel,
    members: Seq<(Seq<char>, JsonModel)>,
    other: Seq<(Seq<char>, JsonModel)>,
    ignore: Seq<Seq<char>>,
    path: Seq<char>,
    lo: int,
    hi: int,
    by: int,
)
    requires
        0 <= lo <= hi <= members.len(),
        0 <= lo + by,
        hi + by <= other.len(),
        forall|j: int| lo <= j < hi ==> #[trigger] members[j] == other[j + by],
    ensures
        present_range(registry, message, members, ignore, path, lo, hi) == present_range(
            registry,
            message,
            other,
            ignore,
            path,
            lo + by,
            hi + by,
        ),
    decreases hi - lo,
{
    if hi > lo {
        lemma_present_shift(registry, message, members, other, ignore, path, lo, hi - 1, by);
        assert(members[hi - 1] == other[hi - 1 + by]);
    }
}

proof fn lemma_element_split(
    registry: Map<Seq<char>, MessageModel>,
    field: FieldModel,
    items: Seq<JsonModel>,
    ignore: Seq<Seq<char>>,
    path: Seq<char>,
    lo: int,
    mid: int,
    hi: int,
)
    requires
        0 <= lo <= mid <= hi <= items.len(),
    ensures
        element_range(registry, field, items, ignore, path, lo, hi) == element_range(
            registry,
            field,
            items,
            ignore,
            path,
            lo,
            mid,
        ) + element_range(registry, field, items, ignore, path, mid, hi),
        element_errors(registry, field, items, ignore, path, hi as nat) == element_range(
            registry,
            field,
            items,
            ignore,
            path,
            0,
            hi,
        ),
    decreases hi - mid, hi,
{
    let whole = element_range(registry, field, items, ignore, path, lo, hi);
    let left = element_range(registry, field, items, ignore, path, lo, mid);
    let right = element_range(registry, field, items, ignore, path, mid, hi);
    if hi > mid {
        lemma_element_split(registry, field, items, ignore, path, lo, mid, hi - 1);
        let last = item_errors(
            registry,
            field,
            items[hi - 1],
            ignore,
            element_path(path, (hi - 1) as nat),
        );
        let shorter = element_range(registry, field, items, ignore, path, mid, hi - 1);
        assert(whole =~= left + (shorter + last));
    } else {
        assert(whole =~= left + right);
        if hi > 0 {
            lemma_element_split(registry, field, items, ignore, path, 0, hi - 1, hi - 1);
        }
    }
}

proof fn lemma_element_same(
    registry: Map<Seq<char>, MessageModel>,
    field: FieldModel,
    items: Seq<JsonModel>,
    other: Seq<JsonModel>,
    ignore: Seq<Seq<char>>,
    path: Seq<char>,
    lo: int,
    hi: int,
)
    requires
        0 <= lo <= hi <= items.len(),
        hi <= other.len(),
        forall|j: int| lo <= j < hi ==> #[trigger] items[j] == other[j],
    ensures
        element_range(registry, field, items, ignore, path, lo, hi) == element_range(
            registry,
            field,
            other,
            ignore,
            path,
            lo,
            hi,
        ),
    decreases hi - lo,
{
    if hi > lo {
        lemma_element_same(registry, field, items, other, ignore, path, lo, hi - 1);
        assert(items[hi - 1] == other[hi - 1]);
    }
}

/// An object lists a key exactly when one of its members has it.
pub proof fn lemma_has_key(members: Seq<(Seq<char>, JsonModel)>, name: Seq<char>)
    ensures
        has_key(members, name) <==> exists|i: int|
            0 <= i < members.len() && (#[trigger] members[i]).0 == name,
{
    let keys = member_keys(members);
    lemma_last_index(keys, name, members.len());
    if has_key(members, name) {
        let i = last_index(keys, name, members.len())->0;
        assert(members[i].0 == name);
    } else {
        assert forall|i: int| 0 <= i < members.len() implies (#[trigger] members[i]).0 != name by {
            assert(keys[i] != name);
        }
    }
}

/// The second pass gives the same errors for two objects that list the same
/// field names.
proof fn lemma_missing_same(
    fields: Seq<FieldModel>,
    members: Seq<(Seq<char>, JsonModel)>,
    other: Seq<(Seq<char>, JsonModel)>,
    ignore: Seq<Seq<char>>,
    path: Seq<char>,
    n: nat,
)
    requires
        n <= fields.len(),
        forall|j: int|
            0 <= j < n ==> #[trigger] is_missing(fields, members, ignore, j) == is_missing(
                fields,
                other,
                ignore,
                j,
            ),
    ensures
        missing_errors(fields, members, ignore, path, n) == missing_errors(
            fields,
            other,
            ignore,
            path,
            n,
        ),
    decreases n,
{
    if n > 0 {
        lemma_missing_same(fields, members, other, ignore, path, (n - 1) as nat);
        assert(is_missing(fields, members, ignore, n - 1) == is_missing(
            fields,
            other,
            ignore,
            n - 1,
        ));
    }
}

/// A field that `is_missing` speaks of carries the name under which the
/// search finds it.
proof fn lemma_field_of_name(fields: Seq<FieldModel>, name: Seq<char>)
    ensures
        match field_named(fields, name) {
            Some(index) => 0 <= index < fields.len() && fields[index].json_name == Some(name),
            None => forall|j: int| 0 <= j < fields.len() ==> fields[j].json_name != Some(name),
        },
{
    lemma_last_index(field_names(fields), Some(name), fields.len());
    if field_named(fields, name) is None {
        assert forall|j: int| 0 <= j < fields.len() implies fields[j].json_name != Some(
            name,
        ) by {
            assert(field_names(fields)[j] != Some(name));
        }
    }
}

/// Additional field: a key that is not ignored and that the message has no
/// field for, put into an object at any position, adds exactly one
/// `AdditionalField` with the key's path to the errors of the object, at the
/// place of the new member in the first pass. Every other error stays.
pub proof fn lemma_additional_field(
    registry: Map<Seq<char>, MessageModel>,
    message: MessageModel,
    members: Seq<(Seq<char>, JsonModel)>,
    ignore: Seq<Seq<char>>,
    path: Seq<char>,
    at: int,
    key: Seq<char>,
    value: JsonModel,
)
    requires
        0 <= at <= members.len(),
        !ignore.contains(key),
        field_named(message.fields, key) is None,
    ensures
        present_errors(registry, message, members, ignore, path, at as nat).len()
            <= message_errors(registry, message, JsonModel::Object(members), ignore, path).len(),
        message_errors(
            registry,
            message,
            JsonModel::Object(members.insert(at, (key, value))),
            ignore,
            path,
        ) == message_errors(registry, message, JsonModel::Object(members), ignore, path).insert(
            present_errors(registry, message, members, ignore, path, at as nat).len() as int,
            error_at(child_path(path, key), ErrorType::AdditionalField),
        ),
{
    let longer = members.insert(at, (key, value));
    let n = members.len() as int;
    let fields = message.fields;
    let before = present_range(registry, message, members, ignore, path, 0, at);
    let after = present_range(registry, message, members, ignore, path, at, n);
    let missing = missing_errors(fields, members, ignore, path, fields.len());
    let added = error_at(child_path(path, key), ErrorType::AdditionalField);
    lemma_present_split(registry, message, members, ignore, path, 0, at, n);
    lemma_present_split(registry, message, members, ignore, path, 0, at, at);
    lemma_present_split(registry, message, longer, ignore, path, 0, at, n + 1);
    lemma_present_split(registry, message, longer, ignore, path, at, at + 1, n + 1);
    lemma_present_shift(registry, message, longer, members, ignore, path, 0, at, 0);
    lemma_present_shift(registry, message, longer, members, ignore, path, at + 1, n + 1, -1);
    assert(present_range(registry, message, longer, ignore, path, at, at + 1) =~= seq![added]) by {
        assert(longer[at] == (key, value));
        assert(present_range(registry, message, longer, ignore, path, at, at)
            =~= Seq::<ErrorModel>::empty());
    }
    lemma_field_of_name(fields, key);
    assert forall|j: int| 0 <= j < fields.len() implies #[trigger] is_missing(
        fields,
        members,
        ignore,
        j,
    ) == is_missing(fields, longer, ignore, j) by {
        if fields[j].json_name is Some {
            let name = fields[j].json_name->0;
            lemma_has_key(members, name);
            lemma_has_key(longer, name);
            if has_key(members, name) {
                let i = choose|i: int| 0 <= i < members.len() && (#[trigger] members[i]).0 == name;
                if i < at {
                    assert(longer[i].0 == name);
                } else {
                    assert(longer[i + 1].0 == name);
                }
            }
            if has_key(longer, name) {
                let i = choose|i: int| 0 <= i < longer.len() && (#[trigger] longer[i]).0 == name;
                if i < at {
                    assert(members[i].0 == name);
                } else {
                    assert(i != at);
                    assert(members[i - 1].0 == name);
                }
            }
        }
    }
    lemma_missing_same(fields, members, longer, ignore, path, fields.len());
    let old_errors = message_errors(registry, message, JsonModel::Object(members), ignore, path);
    let new_errors = message_errors(registry, message, JsonModel::Object(longer), ignore, path);
    assert(old_errors =~= before + after + missing);
    assert(new_errors =~= before + seq![added] + after + missing);
    assert(new_errors =~= old_errors.insert(before.len() as int, added));
}

/// Where exactly one field is missing, the second pass reports that field
/// and nothing else.
proof fn lemma_single_missing(
    fields: Seq<FieldModel>,
    members: Seq<(Seq<char>, JsonModel)>,
    ignore: Seq<Seq<char>>,
    path: Seq<char>,
    index: int,
    n: nat,
)
    requires
        n <= fields.len(),
        forall|j: int|
            0 <= j < n ==> #[trigger] is_missing(fields, members, ignore, j) == (j == index),
    ensures
        missing_errors(fields, members, ignore, path, n) == if 0 <= index < n {
            seq![error_at(child_path(path, fields[index].json_name->0), ErrorType::MissingField)]
        } else {
            Seq::empty()
        },
    decreases n,
{
    if n > 0 {
        lemma_single_missing(fields, members, ignore, path, index, (n - 1) as nat);
        assert(is_missing(fields, members, ignore, n - 1) == (n - 1 == index));
    }
}

/// Missing field: an object that matches its message type and lists no key
/// twice, with one member taken out whose key is not ignored and whose field
/// is not repeated, has exactly one error: `MissingField` at the path of that
/// key.
pub proof fn lemma_missing_field(
    registry: Map<Seq<char>, MessageModel>,
    message: MessageModel,
    members: Seq<(Seq<char>, JsonModel)>,
    ignore: Seq<Seq<char>>,
    path: Seq<char>,
    at: int,
)
    requires
        message_conforms(registry, message, JsonModel::Object(members), ignore),
        member_keys(members).no_duplicates(),
        0 <= at < members.len(),
        !ignore.contains(members[at].0),
        field_named(message.fields, members[at].0) matches Some(index)
            && message.fields[index].cardinality != Cardinality::Repeated,
    ensures
        message_errors(
            registry,
            message,
            JsonModel::Object(members.remove(at)),
            ignore,
            path,
        ) == seq![error_at(child_path(path, members[at].0), ErrorType::MissingField)],
{
    let shorter = members.remove(at);
    let fields = message.fields;
    let key = members[at].0;
    let index = field_named(fields, key)->0;
    lemma_field_of_name(fields, key);
    assert(JsonModel::Object(members)->Object_0 == members);
    assert forall|i: int| 0 <= i < shorter.len() implies member_conforms(
        registry,
        message,
        (#[trigger] shorter[i]).0,
        shorter[i].1,
        ignore,
    ) by {
        if i < at {
            assert(shorter[i] == members[i]);
        } else {
            assert(shorter[i] == members[i + 1]);
        }
    }
    lemma_present_conformance(registry, message, shorter, ignore, path, shorter.len());
    assert forall|j: int| 0 <= j < fields.len() implies #[trigger] is_missing(
        fields,
        shorter,
        ignore,
        j,
    ) == (j == index) by {
        assert(!is_missing(fields, members, ignore, j));
        if fields[j].json_name is Some {
            let name = fields[j].json_name->0;
            lemma_has_key(members, name);
            lemma_has_key(shorter, name);
            if has_key(shorter, name) {
                let i = choose|i: int| 0 <= i < shorter.len() && (#[trigger] shorter[i]).0 == name;
                let k = if i < at {
                    i
                } else {
                    i + 1
                };
                assert(shorter[i] == members[k]);
                assert(member_keys(members)[k] == name);
                assert(member_keys(members)[at] == key);
            } else if has_key(members, name) {
                let i = choose|i: int| 0 <= i < members.len() && (#[trigger] members[i]).0 == name;
                if i < at {
                    assert(shorter[i].0 == name);
                } else if i > at {
                    assert(shorter[i - 1].0 == name);
                }
            }
        }
    }
    lemma_single_missing(fields, shorter, ignore, path, index, fields.len());
    assert(message_errors(registry, message, JsonModel::Object(shorter), ignore, path)
        =~= seq![error_at(child_path(path, key), ErrorType::MissingField)]);
}

/// Replacing the middle of three parts is a splice at the end of the first.
proof fn lemma_splice_middle(
    before: Seq<ErrorModel>,
    gone: Seq<ErrorModel>,
    fresh: Seq<ErrorModel>,
    after: Seq<ErrorModel>,
)
    ensures
        (before + gone + after).subrange(before.len() as int, (before.len() + gone.len()) as int)
            == gone,
        before + fresh + after == spliced(
            before + gone + after,
            before.len() as int,
            gone.len() as int,
            fresh,
        ),
{
    let errors = before + gone + after;
    assert(errors.subrange(before.len() as int, (before.len() + gone.len()) as int) =~= gone);
    assert(errors.take(before.len() as int) =~= before);
    assert(errors.skip((before.len() + gone.len()) as int) =~= after);
}

/// A change to the value of one member of an object replaces the errors of
/// that member and leaves every other error of the object where it was.
pub proof fn lemma_member_replaced(
    registry: Map<Seq<char>, MessageModel>,
    message: MessageModel,
    members: Seq<(Seq<char>, JsonModel)>,
    ignore: Seq<Seq<char>>,
    path: Seq<char>,
    at: int,
    value: JsonModel,
)
    requires
        0 <= at < members.len(),
    ensures
        ({
            let errors = message_errors(
                registry,
                message,
                JsonModel::Object(members),
                ignore,
                path,
            );
            let start = present_errors(registry, message, members, ignore, path, at as nat).len();
            let gone = member_errors(
                registry,
                message,
                members[at].0,
                members[at].1,
                ignore,
                path,
            );
            let fresh = member_errors(registry, message, members[at].0, value, ignore, path);
            &&& start + gone.len() <= errors.len()
            &&& errors.subrange(start as int, (start + gone.len()) as int) == gone
            &&& message_errors(
                registry,
                message,
                JsonModel::Object(members.update(at, (members[at].0, value))),
                ignore,
                path,
            ) == spliced(errors, start as int, gone.len() as int, fresh)
        }),
{
    let changed = members.update(at, (members[at].0, value));
    let n = members.len() as int;
    let fields = message.fields;
    let before = present_range(registry, message, members, ignore, path, 0, at);
    let gone = member_errors(registry, message, members[at].0, members[at].1, ignore, path);
    let fresh = member_errors(registry, message, members[at].0, value, ignore, path);
    let after = present_range(registry, message, members, ignore, path, at + 1, n);
    let missing = missing_errors(fields, members, ignore, path, fields.len());
    assert(present_errors(registry, message, members, ignore, path, at as nat) == before) by {
        lemma_present_split(registry, message, members, ignore, path, 0, at, at);
    }
    assert(present_errors(registry, message, members, ignore, path, n as nat) == before + gone
        + after) by {
        lemma_present_split(registry, message, members, ignore, path, 0, at, n);
        lemma_present_split(registry, message, members, ignore, path, at, at + 1, n);
        assert(present_range(registry, message, members, ignore, path, at, at)
            =~= Seq::<ErrorModel>::empty());
        assert(present_range(registry, message, members, ignore, path, at, at + 1) =~= gone);
    }
    assert(present_errors(registry, message, changed, ignore, path, n as nat) == before + fresh
        + after) by {
        lemma_present_split(registry, message, changed, ignore, path, 0, at, n);
        lemma_present_split(registry, message, changed, ignore, path, at, at + 1, n);
        lemma_present_shift(registry, message, changed, members, ignore, path, 0, at, 0);
        lemma_present_shift(registry, message, changed, members, ignore, path, at + 1, n, 0);
        assert(changed[at] == (members[at].0, value));
        assert(present_range(registry, message, changed, ignore, path, at, at)
            =~= Seq::<ErrorModel>::empty());
        assert(present_range(registry, message, changed, ignore, path, at, at + 1) =~= fresh);
    }
    assert(missing_errors(fields, changed, ignore, path, fields.len()) == missing) by {
        assert(member_keys(changed) =~= member_keys(members));
        lemma_missing_same(fields, members, changed, ignore, path, fields.len());
    }
    let errors = message_errors(registry, message, JsonModel::Object(members), ignore, path);
    let result = message_errors(registry, message, JsonModel::Object(changed), ignore, path);
    assert(errors =~= before + gone + (after + missing));
    assert(result =~= before + fresh + (after + missing));
    lemma_splice_middle(before, gone, fresh, after + missing);
}

/// A change to one element of the array of a repeated field replaces the
/// errors of that element and leaves every other error of the array where it
/// was.
pub proof fn lemma_element_replaced(
    registry: Map<Seq<char>, MessageModel>,
    field: FieldModel,
    items: Seq<JsonModel>,
    ignore: Seq<Seq<char>>,
    path: Seq<char>,
    at: int,
    item: JsonModel,
)
    requires
        field.cardinality == Cardinality::Repeated,
        0 <= at < items.len(),
    ensures
        ({
            let errors = field_errors(registry, field, JsonModel::Array(items), ignore, path);
            let start = element_errors(registry, field, items, ignore, path, at as nat).len();
            let gone = item_errors(
                registry,
                field,
                items[at],
                ignore,
                element_path(path, at as nat),
            );
            let fresh = item_errors(registry, field, item, ignore, element_path(path, at as nat));
            &&& start + gone.len() <= errors.len()
            &&& errors.subrange(start as int, (start + gone.len()) as int) == gone
            &&& field_errors(
                registry,
                field,
                JsonModel::Array(items.update(at, item)),
                ignore,
                path,
            ) == spliced(errors, start as int, gone.len() as int, fresh)
        }),
{
    let changed = items.update(at, item);
    let n = items.len() as int;
    let before = element_range(registry, field, items, ignore, path, 0, at);
    let gone = item_errors(registry, field, items[at], ignore, element_path(path, at as nat));
    let fresh = item_errors(registry, field, item, ignore, element_path(path, at as nat));
    let after = element_range(registry, field, items, ignore, path, at + 1, n);
    lemma_element_split(registry, field, items, ignore, path, 0, at, n);
    lemma_element_split(registry, field, items, ignore, path, 0, at, at);
    lemma_element_split(registry, field, items, ignore, path, at, at + 1, n);
    lemma_element_split(registry, field, changed, ignore, path, 0, at, n);
    lemma_element_split(registry, field, changed, ignore, path, at, at + 1, n);
    lemma_element_same(registry, field, changed, items, ignore, path, 0, at);
    lemma_element_same(registry, field, changed, items, ignore, path, at + 1, n);
    assert(element_range(registry, field, items, ignore, path, at, at + 1) =~= gone) by {
        assert(element_range(registry, field, items, ignore, path, at, at)
            =~= Seq::<ErrorModel>::empty());
    }
    assert(element_range(registry, field, changed, ignore, path, at, at + 1) =~= fresh) by {
        assert(changed[at] == item);
        assert(element_range(registry, field, changed, ignore, path, at, at)
            =~= Seq::<ErrorModel>::empty());
    }
    let errors = field_errors(registry, field, JsonModel::Array(items), ignore, path);
    let result = field_errors(registry, field, JsonModel::Array(changed), ignore, path);
    assert(empty_array_errors(field, items, path) =~= Seq::<ErrorModel>::empty());
    assert(empty_array_errors(field, changed, path) =~= Seq::<ErrorModel>::empty());
    assert(errors =~= before + gone + after);
    assert(result =~= before + fresh + after);
    lemma_splice_middle(before, gone, fresh, after);
}

/// Whether `item` has another type than the kind of `field` asks for: it is
/// not a valid scalar of a scalar field, or not an object where the field
/// holds a message whose type resolves.
pub open spec fn has_wrong_type(
    registry: Map<Seq<char>, MessageModel>,
    field: FieldModel,
    item: JsonModel,
) -> bool {
    match field.kind {
        KindModel::Primitive(kind) => !valid_primitive(kind, item),
        KindModel::Message(target) => nested_message(registry, target) is Some && !(item
            is Object),
    }
}

/// The error that an element of the wrong type gives.
pub open spec fn wrong_type_error(field: FieldModel, path: Seq<char>) -> ErrorModel {
    match field.kind {
        KindModel::Primitive(_) => error_at(path, ErrorType::InvalidArrayElement),
        KindModel::Message(_) => error_at(path, ErrorType::WrongDataType),
    }
}

/// Array element indexing: in an array that matches its repeated field, an
/// element at index `at` that is given the wrong type yields exactly one
/// error, whose path is that of the array followed by `[at]`. The other
/// elements stay free of errors.
pub proof fn lemma_corrupted_element(
    registry: Map<Seq<char>, MessageModel>,
    field: FieldModel,
    items: Seq<JsonModel>,
    ignore: Seq<Seq<char>>,
    path: Seq<char>,
    at: int,
    item: JsonModel,
)
    requires
        field.cardinality == Cardinality::Repeated,
        field_conforms(registry, field, JsonModel::Array(items), ignore),
        0 <= at < items.len(),
        has_wrong_type(registry, field, item),
    ensures
        field_errors(registry, field, JsonModel::Array(items.update(at, item)), ignore, path)
            == seq![wrong_type_error(field, element_path(path, at as nat))],
{
    lemma_field_conformance(registry, field, JsonModel::Array(items), ignore, path);
    lemma_element_replaced(registry, field, items, ignore, path, at, item);
    let errors = field_errors(registry, field, JsonModel::Array(items), ignore, path);
    let fresh = item_errors(registry, field, item, ignore, element_path(path, at as nat));
    assert(fresh =~= seq![wrong_type_error(field, element_path(path, at as nat))]);
    assert(spliced(errors, 0, 0, fresh) =~= fresh);
}

/// One step from a value that is held against a message type to a value
/// inside it that is held against a message type too: into the member at
/// position `member` and, where that member is the array of a repeated field,
/// on into its element at position `element`.
pub struct Hop {
    pub member: int,
    pub element: Option<int>,
}

/// Whether `value` has the place that `hop` leads to.
pub open spec fn hop_fits(value: JsonModel, hop: Hop) -> bool {
    &&& value is Object
    &&& 0 <= hop.member < value->Object_0.len()
    &&& match hop.element {
        Some(index) => {
            &&& value->Object_0[hop.member].1 is Array
            &&& 0 <= index < value->Object_0[hop.member].1->Array_0.len()
        },
        None => true,
    }
}

/// The value one hop below `value`.
pub open spec fn hop_value(value: JsonModel, hop: Hop) -> JsonModel {
    let inner = value->Object_0[hop.member].1;
    match hop.element {
        Some(index) => inner->Array_0[index],
        None => inner,
    }
}

/// `value` with `fresh` in place of the value one hop below.
pub open spec fn hop_replaced(value: JsonModel, hop: Hop, fresh: JsonModel) -> JsonModel {
    let members = value->Object_0;
    let inner = match hop.element {
        Some(index) => JsonModel::Array(members[hop.member].1->Array_0.update(index, fresh)),
        None => fresh,
    };
    JsonModel::Object(members.update(hop.member, (members[hop.member].0, inner)))
}

/// The message type and the path under which the validator holds the value
/// one hop below `value`, where it comes to that value and holds it against a
/// message type at all: the key is not ignored and has a field of a message
/// type that resolves, and the hop goes into an element exactly where the
/// field is repeated.
pub open spec fn hop_visit(
    registry: Map<Seq<char>, MessageModel>,
    message: MessageModel,
    value: JsonModel,
    ignore: Seq<Seq<char>>,
    path: Seq<char>,
    hop: Hop,
) -> Option<(MessageModel, Seq<char>)> {
    if !hop_fits(value, hop) || ignore.contains(value->Object_0[hop.member].0) {
        None
    } else {
        let key = value->Object_0[hop.member].0;
        match field_named(message.fields, key) {
            Some(index) => match message.fields[index].kind {
                KindModel::Message(target) => match nested_message(registry, target) {
                    Some(nested) => match (message.fields[index].cardinality, hop.element) {
                        (Cardinality::Singular, None) => Some((nested, child_path(path, key))),
                        (Cardinality::Repeated, Some(element)) => Some(
                            (nested, element_path(child_path(path, key), element as nat)),
                        ),
                        _ => None,
                    },
                    None => None,
                },
                KindModel::Primitive(_) => None,
            },
            None => None,
        }
    }
}

/// The value at the end of `hops` below `value`.
pub open spec fn value_at(value: JsonModel, hops: Seq<Hop>) -> JsonModel
    decreases hops.len(),
{
    if hops.len() == 0 {
        value
    } else {
        value_at(hop_value(value, hops[0]), hops.drop_first())
    }
}

/// `value` with `fresh` in place of the value at the end of `hops`.
pub open spec fn replaced_at(value: JsonModel, hops: Seq<Hop>, fresh: JsonModel) -> JsonModel
    decreases hops.len(),
{
    if hops.len() == 0 {
        fresh
    } else {
        hop_replaced(
            value,
            hops[0],
            replaced_at(hop_value(value, hops[0]), hops.drop_first(), fresh),
        )
    }
}

/// The message type and the path under which the validator holds the value at
/// the end of `hops`, where it comes to it.
pub open spec fn visited_as(
    registry: Map<Seq<char>, MessageModel>,
    message: MessageModel,
    value: JsonModel,
    ignore: Seq<Seq<char>>,
    path: Seq<char>,
    hops: Seq<Hop>,
) -> Option<(MessageModel, Seq<char>)>
    decreases hops.len(),
{
    if hops.len() == 0 {
        Some((message, path))
    } else {
        match hop_visit(registry, message, value, ignore, path, hops[0]) {
            Some(place) => visited_as(
                registry,
                place.0,
                hop_value(value, hops[0]),
                ignore,
                place.1,
                hops.drop_first(),
            ),
            None => None,
        }
    }
}

/// A splice inside a part that is itself spliced in is one splice.
proof fn lemma_splice_nested(
    errors: Seq<ErrorModel>,
    outer: int,
    part: Seq<ErrorModel>,
    inner: int,
    gone: Seq<ErrorModel>,
    fresh: Seq<ErrorModel>,
)
    requires
        0 <= outer,
        outer + part.len() <= errors.len(),
        errors.subrange(outer, outer + part.len()) == part,
        0 <= inner,
        inner + gone.len() <= part.len(),
        part.subrange(inner, inner + gone.len()) == gone,
    ensures
        errors.subrange(outer + inner, outer + inner + gone.len()) == gone,
        spliced(errors, outer, part.len() as int, spliced(part, inner, gone.len() as int, fresh))
            == spliced(errors, outer + inner, gone.len() as int, fresh),
{
    assert forall|i: int| 0 <= i < part.len() implies part[i] == errors[outer + i] by {
        assert(errors.subrange(outer, outer + part.len())[i] == errors[outer + i]);
    }
    assert forall|i: int| 0 <= i < gone.len() implies gone[i] == errors[outer + inner + i] by {
        assert(part.subrange(inner, inner + gone.len())[i] == part[inner + i]);
    }
    assert(errors.subrange(outer + inner, outer + inner + gone.len()) =~= gone);
    assert(spliced(
        errors,
        outer,
        part.len() as int,
        spliced(part, inner, gone.len() as int, fresh),
    ) =~= spliced(errors, outer + inner, gone.len() as int, fresh));
}

/// A change one hop below a value replaces the errors of the changed place
/// and leaves every other error where it was. The result is the position of
/// the first of the replaced errors.
pub proof fn lemma_hop_replaced(
    registry: Map<Seq<char>, MessageModel>,
    message: MessageModel,
    value: JsonModel,
    ignore: Seq<Seq<char>>,
    path: Seq<char>,
    hop: Hop,
    fresh: JsonModel,
) -> (at: nat)
    requires
        hop_visit(registry, message, value, ignore, path, hop) is Some,
    ensures
        ({
            let place = hop_visit(registry, message, value, ignore, path, hop)->0;
            let errors = message_errors(registry, message, value, ignore, path);
            let gone = message_errors(
                registry,
                place.0,
                hop_value(value, hop),
                ignore,
                place.1,
            );
            &&& at + gone.len() <= errors.len()
            &&& errors.subrange(at as int, (at + gone.len()) as int) == gone
            &&& message_errors(
                registry,
                message,
                hop_replaced(value, hop, fresh),
                ignore,
                path,
            ) == spliced(
                errors,
                at as int,
                gone.len() as int,
                message_errors(registry, place.0, fresh, ignore, place.1),
            )
        }),
{
    let members = value->Object_0;
    assert(value == JsonModel::Object(members));
    let key = members[hop.member].0;
    let inner = members[hop.member].1;
    let index = field_named(message.fields, key)->0;
    let field = message.fields[index];
    let below = child_path(path, key);
    let errors = message_errors(registry, message, value, ignore, path);
    let start = present_errors(registry, message, members, ignore, path, hop.member as nat).len();
    match hop.element {
        None => {
            lemma_member_replaced(registry, message, members, ignore, path, hop.member, fresh);
            start
        },
        Some(element) => {
            let items = inner->Array_0;
            assert(inner == JsonModel::Array(items));
            let changed = JsonModel::Array(items.update(element, fresh));
            lemma_member_replaced(registry, message, members, ignore, path, hop.member, changed);
            lemma_element_replaced(registry, field, items, ignore, below, element, fresh);
            let part = field_errors(registry, field, inner, ignore, below);
            let within = element_errors(
                registry,
                field,
                items,
                ignore,
                below,
                element as nat,
            ).len();
            let gone = item_errors(
                registry,
                field,
                items[element],
                ignore,
                element_path(below, element as nat),
            );
            let new = item_errors(
                registry,
                field,
                fresh,
                ignore,
                element_path(below, element as nat),
            );
            assert(part == member_errors(registry, message, key, inner, ignore, path));
            lemma_splice_nested(errors, start as int, part, within as int, gone, new);
            (start + within) as nat
        },
    }
}

/// A change at any depth replaces the errors of the changed place and leaves
/// every other error of the document where it was: the errors after the
/// change are those before it, with the errors that the validator had for the
/// old value at its path replaced by those that it has for the new one. The
/// result is the position of the first of the replaced errors.
pub proof fn lemma_change_in_place(
    registry: Map<Seq<char>, MessageModel>,
    message: MessageModel,
    value: JsonModel,
    ignore: Seq<Seq<char>>,
    path: Seq<char>,
    hops: Seq<Hop>,
    fresh: JsonModel,
) -> (at: nat)
    requires
        visited_as(registry, message, value, ignore, path, hops) is Some,
    ensures
        ({
            let place = visited_as(registry, message, value, ignore, path, hops)->0;
            let errors = message_errors(registry, message, value, ignore, path);
            let gone = message_errors(
                registry,
                place.0,
                value_at(value, hops),
                ignore,
                place.1,
            );
            &&& at + gone.len() <= errors.len()
            &&& errors.subrange(at as int, (at + gone.len()) as int) == gone
            &&& message_errors(
                registry,
                message,
                replaced_at(value, hops, fresh),
                ignore,
                path,
            ) == spliced(
                errors,
                at as int,
                gone.len() as int,
                message_errors(registry, place.0, fresh, ignore, place.1),
            )
        }),
    decreases hops.len(),
{
    let errors = message_errors(registry, message, value, ignore, path);
    if hops.len() == 0 {
        let new = message_errors(registry, message, fresh, ignore, path);
        assert(errors.subrange(0, errors.len() as int) =~= errors);
        assert(spliced(errors, 0, errors.len() as int, new) =~= new);
        0
    } else {
        let hop = hops[0];
        let rest = hops.drop_first();
        let next = hop_visit(registry, message, value, ignore, path, hop)->0;
        let below = hop_value(value, hop);
        let place = visited_as(registry, next.0, below, ignore, next.1, rest)->0;
        let inner = lemma_change_in_place(registry, next.0, below, ignore, next.1, rest, fresh);
        let changed = replaced_at(below, rest, fresh);
        let outer = lemma_hop_replaced(registry, message, value, ignore, path, hop, changed);
        let part = message_errors(registry, next.0, below, ignore, next.1);
        let gone = message_errors(registry, place.0, value_at(below, rest), ignore, place.1);
        let new = message_errors(registry, place.0, fresh, ignore, place.1);
        lemma_splice_nested(errors, outer as int, part, inner as int, gone, new);
        (outer + inner) as nat
    }
}

/// The message type and the path under which the validator holds the value at
/// the end of `hops` in a document, where it comes to it.
pub open spec fn document_place(
    registry: Map<Seq<char>, MessageModel>,
    table_name: Seq<char>,
    document: JsonModel,
    ignore: Seq<Seq<char>>,
    hops: Seq<Hop>,
) -> Option<(MessageModel, Seq<char>)> {
    match resolved(registry, table_name) {
        Some(message) => visited_as(registry, message, document, ignore, Seq::empty(), hops),
        None => None,
    }
}

/// Where nothing was wrong before, what is wrong after a change is what is
/// wrong with the changed place.
proof fn lemma_change_in_conforming(
    registry: Map<Seq<char>, MessageModel>,
    table_name: Seq<char>,
    document: JsonModel,
    ignore: Seq<Seq<char>>,
    hops: Seq<Hop>,
    fresh: JsonModel,
)
    requires
        document_conforms(registry, table_name, document, ignore),
        document_place(registry, table_name, document, ignore, hops) is Some,
    ensures
        ({
            let place = document_place(registry, table_name, document, ignore, hops)->0;
            &&& message_conforms(registry, place.0, value_at(document, hops), ignore)
            &&& validation_errors(
                registry,
                table_name,
                replaced_at(document, hops, fresh),
                ignore,
            ) == message_errors(registry, place.0, fresh, ignore, place.1)
        }),
{
    let message = resolved(registry, table_name)->0;
    let place = document_place(registry, table_name, document, ignore, hops)->0;
    let root = Seq::<char>::empty();
    lemma_message_conformance(registry, message, document, ignore, root);
    let at = lemma_change_in_place(registry, message, document, ignore, root, hops, fresh);
    lemma_message_conformance(registry, place.0, value_at(document, hops), ignore, place.1);
    let errors = message_errors(registry, message, document, ignore, root);
    let new = message_errors(registry, place.0, fresh, ignore, place.1);
    assert(spliced(errors, at as int, 0, new) =~= new);
}

/// Missing field, at any depth: in a document that matches its message type,
/// taking a member out of an object that lists no key twice, where the key is
/// not ignored and its field is not repeated, yields exactly one error:
/// `MissingField` at the path of that key.
pub proof fn lemma_missing_field_anywhere(
    registry: Map<Seq<char>, MessageModel>,
    table_name: Seq<char>,
    document: JsonModel,
    ignore: Seq<Seq<char>>,
    hops: Seq<Hop>,
    at: int,
)
    requires
        document_conforms(registry, table_name, document, ignore),
        document_place(registry, table_name, document, ignore, hops) is Some,
        value_at(document, hops) is Object,
        member_keys(value_at(document, hops)->Object_0).no_duplicates(),
        0 <= at < value_at(document, hops)->Object_0.len(),
        !ignore.contains(value_at(document, hops)->Object_0[at].0),
        ({
            let place = document_place(registry, table_name, document, ignore, hops)->0;
            let fields = place.0.fields;
            let key = value_at(document, hops)->Object_0[at].0;
            field_named(fields, key) is Some ==> fields[field_named(fields, key)->0].cardinality
                != Cardinality::Repeated
        }),
    ensures
        ({
            let place = document_place(registry, table_name, document, ignore, hops)->0;
            let members = value_at(document, hops)->Object_0;
            validation_errors(
                registry,
                table_name,
                replaced_at(document, hops, JsonModel::Object(members.remove(at))),
                ignore,
            ) == seq![error_at(child_path(place.1, members[at].0), ErrorType::MissingField)]
        }),
{
    let place = document_place(registry, table_name, document, ignore, hops)->0;
    let members = value_at(document, hops)->Object_0;
    assert(value_at(document, hops) == JsonModel::Object(members));
    let fresh = JsonModel::Object(members.remove(at));
    lemma_change_in_conforming(registry, table_name, document, ignore, hops, fresh);
    assert(member_conforms(registry, place.0, members[at].0, members[at].1, ignore));
    lemma_missing_field(registry, place.0, members, ignore, place.1, at);
}

/// Inserting into a part of a sequence inserts into the sequence.
proof fn lemma_splice_insert(
    errors: Seq<ErrorModel>,
    at: int,
    part: Seq<ErrorModel>,
    inner: int,
    added: ErrorModel,
)
    requires
        0 <= at,
        at + part.len() <= errors.len(),
        errors.subrange(at, at + part.len()) == part,
        0 <= inner <= part.len(),
    ensures
        spliced(errors, at, part.len() as int, part.insert(inner, added)) == errors.insert(
            at + inner,
            added,
        ),
{
    assert forall|i: int| 0 <= i < part.len() implies part[i] == errors[at + i] by {
        assert(errors.subrange(at, at + part.len())[i] == errors[at + i]);
    }
    assert(spliced(errors, at, part.len() as int, part.insert(inner, added)) =~= errors.insert(
        at + inner,
        added,
    ));
}

/// Additional field, at any depth: a key that is not ignored and that the
/// message type of an object has no field for, put into that object at any
/// position, adds exactly one error to those of the document:
/// `AdditionalField` at the dotted path of the key. Every other error stays,
/// in its order. The result is the position of the new error.
pub proof fn lemma_additional_field_anywhere(
    registry: Map<Seq<char>, MessageModel>,
    table_name: Seq<char>,
    document: JsonModel,
    ignore: Seq<Seq<char>>,
    hops: Seq<Hop>,
    at: int,
    key: Seq<char>,
    value: JsonModel,
) -> (position: nat)
    requires
        document_place(registry, table_name, document, ignore, hops) is Some,
        value_at(document, hops) is Object,
        0 <= at <= value_at(document, hops)->Object_0.len(),
        !ignore.contains(key),
        ({
            let place = document_place(registry, table_name, document, ignore, hops)->0;
            field_named(place.0.fields, key) is None
        }),
    ensures
        ({
            let place = document_place(registry, table_name, document, ignore, hops)->0;
            let members = value_at(document, hops)->Object_0;
            let errors = validation_errors(registry, table_name, document, ignore);
            &&& position <= errors.len()
            &&& validation_errors(
                registry,
                table_name,
                replaced_at(document, hops, JsonModel::Object(members.insert(at, (key, value)))),
                ignore,
            ) == errors.insert(
                position as int,
                error_at(child_path(place.1, key), ErrorType::AdditionalField),
            )
        }),
{
    let message = resolved(registry, table_name)->0;
    let place = document_place(registry, table_name, document, ignore, hops)->0;
    let members = value_at(document, hops)->Object_0;
    assert(value_at(document, hops) == JsonModel::Object(members));
    let fresh = JsonModel::Object(members.insert(at, (key, value)));
    let root = Seq::<char>::empty();
    let outer = lemma_change_in_place(registry, message, document, ignore, root, hops, fresh);
    lemma_additional_field(registry, place.0, members, ignore, place.1, at, key, value);
    let errors = message_errors(registry, message, document, ignore, root);
    let part = message_errors(registry, place.0, JsonModel::Object(members), ignore, place.1);
    let inner = present_errors(registry, place.0, members, ignore, place.1, at as nat).len();
    let added = error_at(child_path(place.1, key), ErrorType::AdditionalField);
    lemma_splice_insert(errors, outer as int, part, inner as int, added);
    (outer + inner) as nat
}

/// Array element indexing, at any depth: in a document that matches its
/// message type, giving the element at index `element` of the array of a
/// repeated field the wrong type yields exactly one error, whose path is that
/// of the array followed by `[element]`. The other elements stay free of
/// errors.
pub proof fn lemma_corrupted_element_anywhere(
    registry: Map<Seq<char>, MessageModel>,
    table_name: Seq<char>,
    document: JsonModel,
    ignore: Seq<Seq<char>>,
    hops: Seq<Hop>,
    member: int,
    element: int,
    item: JsonModel,
)
    requires
        document_conforms(registry, table_name, document, ignore),
        document_place(registry, table_name, document, ignore, hops) is Some,
        value_at(document, hops) is Object,
        0 <= member < value_at(document, hops)->Object_0.len(),
        ({
            let place = document_place(registry, table_name, document, ignore, hops)->0;
            let fields = place.0.fields;
            let held = value_at(document, hops)->Object_0[member];
            &&& !ignore.contains(held.0)
            &&& field_named(fields, held.0) is Some
            &&& fields[field_named(fields, held.0)->0].cardinality == Cardinality::Repeated
            &&& held.1 is Array
            &&& 0 <= element < held.1->Array_0.len()
            &&& has_wrong_type(registry, fields[field_named(fields, held.0)->0], item)
        }),
    ensures
        ({
            let place = document_place(registry, table_name, document, ignore, hops)->0;
            let members = value_at(document, hops)->Object_0;
            let key = members[member].0;
            let field = place.0.fields[field_named(place.0.fields, key)->0];
            let items = members[member].1->Array_0;
            validation_errors(
                registry,
                table_name,
                replaced_at(
                    document,
                    hops,
                    JsonModel::Object(
                        members.update(
                            member,
                            (key, JsonModel::Array(items.update(element, item))),
                        ),
                    ),
                ),
                ignore,
            ) == seq![
                wrong_type_error(field, element_path(child_path(place.1, key), element as nat)),
            ]
        }),
{
    let place = document_place(registry, table_name, document, ignore, hops)->0;
    let members = value_at(document, hops)->Object_0;
    assert(value_at(document, hops) == JsonModel::Object(members));
    let key = members[member].0;
    let field = place.0.fields[field_named(place.0.fields, key)->0];
    let items = members[member].1->Array_0;
    assert(members[member].1 == JsonModel::Array(items));
    let changed = JsonModel::Array(items.update(element, item));
    let fresh = JsonModel::Object(members.update(member, (key, changed)));
    let below = child_path(place.1, key);
    lemma_change_in_conforming(registry, table_name, document, ignore, hops, fresh);
    lemma_message_conformance(registry, place.0, JsonModel::Object(members), ignore, place.1);
    assert(member_conforms(registry, place.0, members[member].0, members[member].1, ignore));
    lemma_member_replaced(registry, place.0, members, ignore, place.1, member, changed);
    lemma_corrupted_element(registry, field, items, ignore, below, element, item);
    let errors = message_errors(registry, place.0, JsonModel::Object(members), ignore, place.1);
    let new = member_errors(registry, place.0, key, changed, ignore, place.1);
    let start = present_errors(registry, place.0, members, ignore, place.1, member as nat).len();
    assert(spliced(errors, start as int, 0, new) =~= new);
}

} // verus!
