//! Message descriptors and the registry that resolves type names to them.

use vstd::prelude::*;
use vstd::string::*;

use crate::text::{last_index, lemma_last_index, lowercase, to_lowercase};

verus! {

/// The scalar types that a field can have. `Other` stands for every scalar
/// type that no document value is accepted for.
#[derive(Clone, Copy, Debug, PartialEq, Eq)]
pub enum PrimitiveKind {
    Text,
    Int32,
    Float,
    Bool,
    Other,
}

/// What a field holds: a scalar, or a message named by its type name.
#[derive(Debug, PartialEq, Eq)]
pub enum FieldKind {
    Primitive(PrimitiveKind),
    Message(Option<String>),
}

/// Whether a field holds one value or an array of them.
#[derive(Clone, Copy, Debug, PartialEq, Eq)]
pub enum Cardinality {
    Singular,
    Repeated,
}

/// One field of a message: the key expected in a document, the kind of its
/// value, and its cardinality. A field without a JSON name takes no part in
/// validation.
#[derive(Debug, PartialEq, Eq)]
pub struct FieldDescriptor {
    pub json_name: Option<String>,
    pub kind: FieldKind,
    pub cardinality: Cardinality,
}

/// A message type: its name and its fields in schema order.
#[derive(Debug, PartialEq, Eq)]
pub struct MessageDescriptor {
    pub name: Option<String>,
    pub fields: Vec<FieldDescriptor>,
}

/// The model of a [`FieldKind`].
pub enum KindModel {
    Primitive(PrimitiveKind),
    Message(Option<Seq<char>>),
}

/// The model of a [`FieldDescriptor`].
pub struct FieldModel {
    pub json_name: Option<Seq<char>>,
    pub kind: KindModel,
    pub cardinality: Cardinality,
}

/// The model of a [`MessageDescriptor`].
pub struct MessageModel {
    pub name: Option<Seq<char>>,
    pub fields: Seq<FieldModel>,
}

/// The characters of an optional string.
pub open spec fn text_of(s: Option<String>) -> Option<Seq<char>> {
    match s {
        Some(s) => Some(s@),
        None => None,
    }
}

impl View for FieldKind {
    type V = KindModel;

    open spec fn view(&self) -> KindModel {
        match self {
            FieldKind::Primitive(p) => KindModel::Primitive(*p),
            FieldKind::Message(target) => KindModel::Message(text_of(*target)),
        }
    }
}

impl View for FieldDescriptor {
    type V = FieldModel;

    open spec fn view(&self) -> FieldModel {
        FieldModel {
            json_name: text_of(self.json_name),
            kind: self.kind@,
            cardinality: self.cardinality,
        }
    }
}

impl View for MessageDescriptor {
    type V = MessageModel;

    open spec fn view(&self) -> MessageModel {
        MessageModel {
            name: text_of(self.name),
            fields: self.fields@.map_values(|f: FieldDescriptor| f@),
        }
    }
}

/// The JSON names of `fields`, in schema order.
pub open spec fn field_names(fields: Seq<FieldModel>) -> Seq<Option<Seq<char>>> {
    fields.map_values(|f: FieldModel| f.json_name)
}

/// The position of the field that a document key `name` stands for: of several
/// fields with that JSON name, the last.
pub open spec fn field_named(fields: Seq<FieldModel>, name: Seq<char>) -> Option<int> {
    last_index(field_names(fields), Some(name), fields.len())
}

impl MessageDescriptor {
    /// Finds the field that the document key `name` stands for.
    pub fn find_field(&self, name: &String) -> (result: Option<usize>)
        ensures
            match result {
                Some(i) => i < self.fields@.len() && field_named(self@.fields, name@) == Some(
                    i as int,
                ),
                None => field_named(self@.fields, name@) is None,
            },
    {
        let ghost names = field_names(self@.fields);
        let mut i: usize = self.fields.len();
        while i > 0
            invariant
                i <= self.fields@.len(),
                names == field_names(self@.fields),
                last_index(names, Some(name@), self.fields@.len() as nat) == last_index(
                    names,
                    Some(name@),
                    i as nat,
                ),
            decreases i,
        {
            i -= 1;
            let found: bool = match &self.fields[i].json_name {
                Some(json_name) => *json_name == *name,
                None => false,
            };
            assert(found == (names[i as int] == Some(name@)));
            if found {
                return Some(i);
            }
        }
        None
    }
}

/// The message types of a schema by lower-cased name. No name is entered
/// twice.
pub struct Registry {
    entries: Vec<(String, MessageDescriptor)>,
}

/// The keys of the registry's entries, in the order in which they were added.
pub closed spec fn entry_keys(entries: Seq<(String, MessageDescriptor)>) -> Seq<Seq<char>> {
    entries.map_values(|e: (String, MessageDescriptor)| e.0@)
}

/// The mapping that a list of messages gives when they are added one by one:
/// a message without a name is passed over, and of two messages whose names
/// agree in lower case the later one stays.
pub open spec fn registry_of(messages: Seq<MessageModel>) -> Map<Seq<char>, MessageModel>
    decreases messages.len(),
{
    if messages.len() == 0 {
        Map::empty()
    } else {
        let rest = registry_of(messages.drop_last());
        match messages.last().name {
            Some(name) => rest.insert(lowercase(name), messages.last()),
            None => rest,
        }
    }
}

/// The models of a list of messages.
pub open spec fn message_models(messages: Seq<MessageDescriptor>) -> Seq<MessageModel> {
    messages.map_values(|m: MessageDescriptor| m@)
}

impl View for Registry {
    type V = Map<Seq<char>, MessageModel>;

    closed spec fn view(&self) -> Map<Seq<char>, MessageModel> {
        let keys = entry_keys(self.entries@);
        Map::new(
            |k: Seq<char>| last_index(keys, k, keys.len()) is Some,
            |k: Seq<char>| self.entries@[last_index(keys, k, keys.len())->0].1@,
        )
    }
}

/// The message that a type name resolves to: the entry for the name in lower
/// case.
pub open spec fn resolved(registry: Map<Seq<char>, MessageModel>, name: Seq<char>) -> Option<
    MessageModel,
> {
    if registry.contains_key(lowercase(name)) {
        Some(registry[lowercase(name)])
    } else {
        None
    }
}

proof fn lemma_last_index_push<T>(s: Seq<T>, y: T, x: T)
    ensures
        last_index(s.push(y), x, s.len() + 1) == if y == x {
            Some(s.len() as int)
        } else {
            last_index(s, x, s.len())
        },
{
    lemma_last_index_prefix(s, s.push(y), x, s.len());
}

proof fn lemma_last_index_prefix<T>(s: Seq<T>, t: Seq<T>, x: T, n: nat)
    requires
        n <= s.len(),
        n <= t.len(),
        forall|i: int| 0 <= i < n ==> s[i] == t[i],
    ensures
        last_index(s, x, n) == last_index(t, x, n),
    decreases n,
{
    if n > 0 {
        lemma_last_index_prefix(s, t, x, (n - 1) as nat);
    }
}

fn reversed<T>(items: Vec<T>) -> (result: Vec<T>)
    ensures
        result@.len() == items@.len(),
        forall|i: int| 0 <= i < items@.len() ==> result@[i] == items@[items@.len() - 1 - i],
{
    let mut rest = items;
    let mut result: Vec<T> = Vec::new();
    while rest.len() > 0
        invariant
            rest@.len() + result@.len() == items@.len(),
            forall|i: int| 0 <= i < rest@.len() ==> rest@[i] == items@[i],
            forall|i: int| 0 <= i < result@.len() ==> result@[i] == items@[items@.len() - 1 - i],
        decreases rest@.len(),
    {
        let item = rest.pop().unwrap();
        result.push(item);
    }
    result
}

impl Registry {
    /// No two entries have the same key.
    #[verifier::type_invariant]
    spec fn distinct_keys(self) -> bool {
        entry_keys(self.entries@).no_duplicates()
    }

    /// A registry without entries.
    pub fn new() -> (registry: Registry)
        ensures
            registry@ == Map::<Seq<char>, MessageModel>::empty(),
    {
        let registry = Registry { entries: Vec::new() };
        assert(registry@ =~= Map::<Seq<char>, MessageModel>::empty());
        registry
    }

    /// The position of the entry with the key `key`.
    fn position(&self, key: &String) -> (result: Option<usize>)
        ensures
            match result {
                Some(i) => i < self.entries@.len() && last_index(
                    entry_keys(self.entries@),
                    key@,
                    self.entries@.len(),
                ) == Some(i as int),
                None => last_index(entry_keys(self.entries@), key@, self.entries@.len()) is None,
            },
    {
        let ghost keys = entry_keys(self.entries@);
        let mut i: usize = self.entries.len();
        while i > 0
            invariant
                i <= self.entries@.len(),
                keys == entry_keys(self.entries@),
                last_index(keys, key@, keys.len()) == last_index(keys, key@, i as nat),
            decreases i,
        {
            i -= 1;
            if self.entries[i].0 == *key {
                return Some(i);
            }
        }
        None
    }

    /// The registry with one more message, entered under its name in lower
    /// case in place of an entry that has that key already. A message without
    /// a name is not entered.
    pub fn with_message(self, message: MessageDescriptor) -> (registry: Registry)
        ensures
            registry@ == match message@.name {
                Some(name) => self@.insert(lowercase(name), message@),
                None => self@,
            },
    {
        let key: Option<String> = match &message.name {
            Some(name) => Some(to_lowercase(name.as_str())),
            None => None,
        };
        match key {
            Some(key) => {
                let ghost before = entry_keys(self.entries@);
                let ghost added = key@;
                proof {
                    use_type_invariant(&self);
                    lemma_last_index(before, added, before.len());
                    assert forall|k: Seq<char>|
                        last_index(before, k, before.len()) is Some implies {
                            &&& 0 <= last_index(before, k, before.len())->0 < before.len()
                            &&& before[last_index(before, k, before.len())->0] == k
                        } by {
                        lemma_last_index(before, k, before.len());
                    }
                }
                let found: Option<usize> = self.position(&key);
                let mut entries: Vec<(String, MessageDescriptor)> = self.entries;
                match found {
                    Some(i) => {
                        entries.set(i, (key, message));
                        assert(entry_keys(entries@) =~= before);
                        let registry = Registry { entries };
                        assert(registry@ =~= self@.insert(added, message@));
                        registry
                    },
                    None => {
                        entries.push((key, message));
                        assert(entry_keys(entries@) =~= before.push(added));
                        assert forall|k: Seq<char>|
                            last_index(before.push(added), k, before.len() + 1) == if added == k {
                                Some(before.len() as int)
                            } else {
                                last_index(before, k, before.len())
                            } by {
                            lemma_last_index_push(before, added, k);
                        }
                        let registry = Registry { entries };
                        assert(registry@ =~= self@.insert(added, message@));
                        registry
                    },
                }
            },
            None => self,
        }
    }

    /// Builds the registry of a list of messages, added in their order.
    pub fn from_messages(messages: Vec<MessageDescriptor>) -> (registry: Registry)
        ensures
            registry@ == registry_of(message_models(messages@)),
    {
        let mut registry = Registry::new();
        let ghost all = message_models(messages@);
        let ghost mut done: Seq<MessageModel> = Seq::empty();
        let mut rest = reversed(messages);
        while rest.len() > 0
            invariant
                done.len() + rest@.len() == all.len(),
                done == all.subrange(0, done.len() as int),
                forall|i: int|
                    0 <= i < rest@.len() ==> (#[trigger] rest@[i])@ == all[all.len() - 1 - i],
                registry@ == registry_of(done),
            decreases rest@.len(),
        {
            let message = rest.pop().unwrap();
            proof {
                let next = done.push(message@);
                assert(next.drop_last() =~= done);
                assert(next =~= all.subrange(0, next.len() as int));
                done = next;
            }
            registry = registry.with_message(message);
        }
        assert(done =~= all);
        registry
    }

    /// Resolves a type name, whatever its case.
    pub fn resolve(&self, name: &str) -> (result: Option<&MessageDescriptor>)
        ensures
            match result {
                Some(message) => resolved(self@, name@) == Some(message@),
                None => resolved(self@, name@) is None,
            },
    {
        let key: String = to_lowercase(name);
        match self.position(&key) {
            Some(i) => Some(&self.entries[i].1),
            None => None,
        }
    }
}

} // verus!
