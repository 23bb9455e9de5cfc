//! The document tree: objects, arrays and scalars, with its mathematical model.

use vstd::prelude::*;
use vstd::string::*;

use crate::text::last_index;

verus! {

/// A JSON number: a non-negative integer, a negative integer, or a finite
/// binary64 value held by its bit pattern.
#[derive(Clone, Copy, Debug, PartialEq, Eq)]
pub enum JsonNumber {
    PosInt(u64),
    NegInt(i64),
    Float(u64),
}

impl JsonNumber {
    /// Whether the number is an integer that a signed 64-bit integer can hold.
    pub open spec fn fits_i64(self) -> bool {
        match self {
            JsonNumber::PosInt(v) => v <= i64::MAX,
            JsonNumber::NegInt(_) => true,
            JsonNumber::Float(_) => false,
        }
    }

    /// Whether the number is an integer between `i64::MIN` and `i64::MAX`.
    pub fn is_i64(&self) -> (result: bool)
        ensures
            result == self.fits_i64(),
    {
        match self {
            JsonNumber::PosInt(v) => *v <= 0x7fff_ffff_ffff_ffffu64,
            JsonNumber::NegInt(_) => true,
            JsonNumber::Float(_) => false,
        }
    }

    /// The number as an unsigned 64-bit integer, where it is one.
    pub open spec fn unsigned_value(self) -> Option<u64> {
        match self {
            JsonNumber::PosInt(v) => Some(v),
            JsonNumber::NegInt(_) => None,
            JsonNumber::Float(_) => None,
        }
    }

    /// The number as an unsigned 64-bit integer, where it is one.
    pub fn as_u64(&self) -> (result: Option<u64>)
        ensures
            result == self.unsigned_value(),
    {
        match self {
            JsonNumber::PosInt(v) => Some(*v),
            JsonNumber::NegInt(_) => None,
            JsonNumber::Float(_) => None,
        }
    }
}

/// A document or a part of one. The members of an object are kept in the order
/// in which the document lists them.
#[derive(Debug, PartialEq)]
pub enum JsonValue {
    Null,
    Bool(bool),
    Number(JsonNumber),
    Text(String),
    Array(Vec<JsonValue>),
    Object(Vec<(String, JsonValue)>),
}

/// The mathematical model of a [`JsonValue`].
pub enum JsonModel {
    Null,
    Bool(bool),
    Number(JsonNumber),
    Text(Seq<char>),
    Array(Seq<JsonModel>),
    Object(Seq<(Seq<char>, JsonModel)>),
}

/// The models of the first `n` of `items`.
pub open spec fn items_model(items: Seq<JsonValue>, n: nat) -> Seq<JsonModel>
    decreases items, n,
{
    if n == 0 || n > items.len() {
        Seq::empty()
    } else {
        items_model(items, (n - 1) as nat).push(model_of(items[n - 1]))
    }
}

/// The keys and the models of the first `n` of `members`.
pub open spec fn members_model(members: Seq<(String, JsonValue)>, n: nat) -> Seq<
    (Seq<char>, JsonModel),
>
    decreases members, n,
{
    if n == 0 || n > members.len() {
        Seq::empty()
    } else {
        members_model(members, (n - 1) as nat).push(
            (members[n - 1].0@, model_of(members[n - 1].1)),
        )
    }
}

/// The model of a value: the same tree over sequences.
pub open spec fn model_of(value: JsonValue) -> JsonModel
    decreases value, 0nat,
{
    match value {
        JsonValue::Null => JsonModel::Null,
        JsonValue::Bool(b) => JsonModel::Bool(b),
        JsonValue::Number(n) => JsonModel::Number(n),
        JsonValue::Text(s) => JsonModel::Text(s@),
        JsonValue::Array(items) => JsonModel::Array(items_model(items@, items@.len())),
        JsonValue::Object(members) => JsonModel::Object(
            members_model(members@, members@.len()),
        ),
    }
}

impl View for JsonValue {
    type V = JsonModel;

    open spec fn view(&self) -> JsonModel {
        model_of(*self)
    }
}

/// `items_model` keeps the length and the order.
pub proof fn lemma_items_model(items: Seq<JsonValue>, n: nat)
    requires
        n <= items.len(),
    ensures
        items_model(items, n).len() == n,
        forall|i: int| 0 <= i < n ==> (#[trigger] items_model(items, n)[i]) == items[i]@,
    decreases n,
{
    if n > 0 {
        lemma_items_model(items, (n - 1) as nat);
    }
}

/// `members_model` keeps the length and the order.
pub proof fn lemma_members_model(members: Seq<(String, JsonValue)>, n: nat)
    requires
        n <= members.len(),
    ensures
        members_model(members, n).len() == n,
        forall|i: int|
            0 <= i < n ==> (#[trigger] members_model(members, n)[i]) == (
                members[i].0@,
                members[i].1@,
            ),
    decreases n,
{
    if n > 0 {
        lemma_members_model(members, (n - 1) as nat);
    }
}

/// The keys of an object's members, in their order.
pub open spec fn member_keys(members: Seq<(Seq<char>, JsonModel)>) -> Seq<Seq<char>> {
    Seq::new(members.len(), |i: int| members[i].0)
}

impl JsonModel {
    /// The value of the member `key` where `self` is an object that has one;
    /// of several members with that key, the last.
    pub open spec fn member(self, key: Seq<char>) -> Option<JsonModel> {
        match self {
            JsonModel::Object(members) => match last_index(
                member_keys(members),
                key,
                members.len(),
            ) {
                Some(i) => Some(members[i].1),
                None => None,
            },
            _ => None,
        }
    }

    /// The characters of a string value.
    pub open spec fn as_text(self) -> Option<Seq<char>> {
        match self {
            JsonModel::Text(s) => Some(s),
            _ => None,
        }
    }
}

impl JsonValue {
    /// The model of an array lists the models of its items.
    pub proof fn lemma_view_array(self)
        requires
            self is Array,
        ensures
            self@ is Array,
            self@->Array_0.len() == self->Array_0@.len(),
            forall|i: int|
                0 <= i < self->Array_0@.len() ==> (#[trigger] self@->Array_0[i])
                    == self->Array_0@[i]@,
    {
        lemma_items_model(self->Array_0@, self->Array_0@.len());
    }

    /// The model of an object lists the keys and the models of its members.
    pub proof fn lemma_view_object(self)
        requires
            self is Object,
        ensures
            self@ is Object,
            self@->Object_0.len() == self->Object_0@.len(),
            forall|i: int|
                0 <= i < self->Object_0@.len() ==> (#[trigger] self@->Object_0[i]) == (
                    self->Object_0@[i].0@,
                    self->Object_0@[i].1@,
                ),
    {
        lemma_members_model(self->Object_0@, self->Object_0@.len());
    }

    /// Looks up the member `key` of an object. Any other value has no members.
    pub fn get(&self, key: &str) -> (result: Option<&JsonValue>)
        ensures
            match result {
                Some(value) => self@.member(key@) == Some(value@),
                None => self@.member(key@) is None,
            },
    {
        match self {
            JsonValue::Object(members) => {
                let wanted: String = String::from_str(key);
                let ghost keys = member_keys(self@->Object_0);
                proof {
                    self.lemma_view_object();
                }
                let mut i: usize = members.len();
                while i > 0
                    invariant
                        i <= members.len(),
                        wanted@ == key@,
                        self@ == JsonModel::Object(self@->Object_0),
                        keys == member_keys(self@->Object_0),
                        keys.len() == members.len(),
                        forall|j: int|
                            0 <= j < members.len() ==> keys[j] == (#[trigger] members[j]).0@,
                        forall|j: int|
                            0 <= j < members.len() ==> (self@->Object_0)[j].1
                                == (#[trigger] members[j]).1@,
                        last_index(keys, key@, members.len() as nat) == last_index(
                            keys,
                            key@,
                            i as nat,
                        ),
                    decreases i,
                {
                    i -= 1;
                    if members[i].0 == wanted {
                        return Some(&members[i].1);
                    }
                }
                None
            },
            _ => None,
        }
    }

    /// The text of a string value.
    pub fn as_str(&self) -> (result: Option<&str>)
        ensures
            match result {
                Some(s) => self@.as_text() == Some(s@),
                None => self@.as_text() is None,
            },
    {
        match self {
            JsonValue::Text(s) => Some(s.as_str()),
            _ => None,
        }
    }

    /// A deep copy of the value.
    pub fn duplicate(&self) -> (copy: JsonValue)
        ensures
            copy@ == self@,
        decreases self,
    {
        match self {
            JsonValue::Null => JsonValue::Null,
            JsonValue::Bool(b) => JsonValue::Bool(*b),
            JsonValue::Number(n) => JsonValue::Number(*n),
            JsonValue::Text(s) => JsonValue::Text(s.clone()),
            JsonValue::Array(items) => {
                let mut copies: Vec<JsonValue> = Vec::new();
                let mut i: usize = 0;
                proof {
                    self.lemma_view_array();
                }
                while i < items.len()
                    invariant
                        i <= items.len(),
                        *self == JsonValue::Array(*items),
                        copies.len() == i,
                        forall|j: int| 0 <= j < i ==> (#[trigger] copies[j])@ == items[j]@,
                    decreases items.len() - i,
                {
                    assert(decreases_to!(self => self->Array_0@[i as int]));
                    copies.push(items[i].duplicate());
                    i += 1;
                }
                let copy = JsonValue::Array(copies);
                proof {
                    copy.lemma_view_array();
                }
                assert(copy@->Array_0 =~= self@->Array_0);
                copy
            },
            JsonValue::Object(members) => {
                let mut copies: Vec<(String, JsonValue)> = Vec::new();
                let mut i: usize = 0;
                proof {
                    self.lemma_view_object();
                }
                while i < members.len()
                    invariant
                        i <= members.len(),
                        *self == JsonValue::Object(*members),
                        copies.len() == i,
                        forall|j: int|
                            0 <= j < i ==> (#[trigger] copies[j]).0@ == members[j].0@
                                && copies[j].1@ == members[j].1@,
                    decreases members.len() - i,
                {
                    assert(decreases_to!(self => self->Object_0@[i as int].1));
                    copies.push((members[i].0.clone(), members[i].1.duplicate()));
                    i += 1;
                }
                let copy = JsonValue::Object(copies);
                proof {
                    copy.lemma_view_object();
                }
                assert(copy@->Object_0 =~= self@->Object_0);
                copy
            },
        }
    }
}

} // verus!
