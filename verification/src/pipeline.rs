//! The reconciliation of one document: validate, transform what is invalid,
//! validate again, and write what has become valid. The transform and the
//! write are done by the caller; this module decides what comes next.

use vstd::prelude::*;
use vstd::string::*;

use crate::descriptor::{MessageModel, Registry};
use crate::json::{JsonModel, JsonValue};
use crate::valid_proto::{
    errors_view, names_of, validate_with, validation_errors, ErrorModel, ValidationError,
};

verus! {

/// How the reconciliation of a document ended.
#[derive(Debug, PartialEq, Eq)]
pub enum Outcome {
    /// The document was valid as fetched, or a preview run stopped before the
    /// write. Nothing was written.
    Unchanged,
    /// The transformed document was valid and the store accepted it.
    Updated,
    /// The transformed document was still invalid. The errors are those of the
    /// second validation.
    RejectedAfterTransform(Vec<ValidationError>),
    /// The transform failed.
    TransformFailed,
    /// The store refused the write.
    UpdateFailed,
}

/// Where the reconciliation of a document stands.
#[derive(Debug, PartialEq, Eq)]
pub enum State {
    /// The document has been fetched and not looked at yet.
    Fetched,
    /// The document is invalid and waits for its transform.
    Invalid,
    /// The transformed document is valid and waits for its write.
    Approved,
    /// Nothing more is done for the document.
    Done(Outcome),
}

/// What the caller does for a document in a given state.
#[derive(Clone, Copy, Debug, PartialEq, Eq)]
pub enum Action {
    /// Hand the fetched document to `start`.
    Validate,
    /// Run the transform on the fetched document and hand the result to
    /// `transformed`.
    Transform,
    /// Write the transformed document and hand the answer to `written`.
    Write,
    /// Go on with the next document.
    Stop,
}

/// The model of an [`Outcome`].
pub enum OutcomeModel {
    Unchanged,
    Updated,
    RejectedAfterTransform(Seq<ErrorModel>),
    TransformFailed,
    UpdateFailed,
}

/// The model of a [`State`].
pub enum StateModel {
    Fetched,
    Invalid,
    Approved,
    Done(OutcomeModel),
}

/// What can happen to a document under reconciliation.
pub enum Event {
    /// The fetched document is handed in.
    Document(JsonModel),
    /// The transform returned a replacement.
    Transformed(JsonModel),
    /// The transform failed.
    TransformFailed,
    /// The store accepted the write.
    Written,
    /// The store refused the write, or could not be reached.
    WriteFailed,
}

impl View for Outcome {
    type V = OutcomeModel;

    open spec fn view(&self) -> OutcomeModel {
        match self {
            Outcome::Unchanged => OutcomeModel::Unchanged,
            Outcome::Updated => OutcomeModel::Updated,
            Outcome::RejectedAfterTransform(errors) => OutcomeModel::RejectedAfterTransform(
                errors_view(errors@),
            ),
            Outcome::TransformFailed => OutcomeModel::TransformFailed,
            Outcome::UpdateFailed => OutcomeModel::UpdateFailed,
        }
    }
}

impl View for State {
    type V = StateModel;

    open spec fn view(&self) -> StateModel {
        match self {
            State::Fetched => StateModel::Fetched,
            State::Invalid => StateModel::Invalid,
            State::Approved => StateModel::Approved,
            State::Done(outcome) => StateModel::Done(outcome@),
        }
    }
}

/// What a reconciliation run is set up with: the schema, the message type of
/// the documents, the names left out of validation, and whether the run is a
/// preview, in which nothing is written.
pub struct Reconciler {
    registry: Registry,
    table_name: String,
    ignore_list: Vec<String>,
    preview: bool,
}

/// The model of a [`Reconciler`].
pub struct ReconcilerModel {
    pub registry: Map<Seq<char>, MessageModel>,
    pub table_name: Seq<char>,
    /// The names left out of validation: the standing ones, then the caller's.
    pub ignore: Seq<Seq<char>>,
    pub preview: bool,
}

impl View for Reconciler {
    type V = ReconcilerModel;

    closed spec fn view(&self) -> ReconcilerModel {
        ReconcilerModel {
            registry: self.registry@,
            table_name: self.table_name@,
            ignore: names_of(self.ignore_list@),
            preview: self.preview,
        }
    }
}

/// The names that the store keeps in every document and that no schema lists.
pub open spec fn standing_ignore() -> Seq<Seq<char>> {
    seq!["_id"@, "_rev"@]
}

/// The errors of a document under the run's message type and ignore list.
pub open spec fn errors_of(config: ReconcilerModel, document: JsonModel) -> Seq<ErrorModel> {
    validation_errors(config.registry, config.table_name, document, config.ignore)
}

/// The state that follows `state` on `event`. A valid document is done at
/// once; an invalid one waits for its transform. A transform that fails ends
/// the work on the document, and so does a replacement that is still invalid,
/// with the errors of the replacement. A valid replacement is written, unless
/// the run is a preview. An event that the state does not wait for changes
/// nothing.
pub open spec fn next_state(
    config: ReconcilerModel,
    state: StateModel,
    event: Event,
) -> StateModel {
    match (state, event) {
        (StateModel::Fetched, Event::Document(document)) => if errors_of(config, document).len()
            == 0 {
            StateModel::Done(OutcomeModel::Unchanged)
        } else {
            StateModel::Invalid
        },
        (StateModel::Invalid, Event::Transformed(replacement)) => if errors_of(
            config,
            replacement,
        ).len() > 0 {
            StateModel::Done(OutcomeModel::RejectedAfterTransform(errors_of(config, replacement)))
        } else if config.preview {
            StateModel::Done(OutcomeModel::Unchanged)
        } else {
            StateModel::Approved
        },
        (StateModel::Invalid, Event::TransformFailed) => StateModel::Done(
            OutcomeModel::TransformFailed,
        ),
        (StateModel::Approved, Event::Written) => StateModel::Done(OutcomeModel::Updated),
        (StateModel::Approved, Event::WriteFailed) => StateModel::Done(OutcomeModel::UpdateFailed),
        _ => state,
    }
}

/// What the caller does in a state.
pub open spec fn action_of(state: StateModel) -> Action {
    match state {
        StateModel::Fetched => Action::Validate,
        StateModel::Invalid => Action::Transform,
        StateModel::Approved => Action::Write,
        StateModel::Done(_) => Action::Stop,
    }
}

/// How far a state is along the way of a document.
pub open spec fn rank(state: StateModel) -> nat {
    match state {
        StateModel::Fetched => 0,
        StateModel::Invalid => 1,
        StateModel::Approved => 2,
        StateModel::Done(_) => 3,
    }
}

/// No event takes a document back: a state is followed by itself or by a
/// later one, and a finished document stays as it is.
pub proof fn lemma_no_backward_transition(config: ReconcilerModel, state: StateModel, event: Event)
    ensures
        next_state(config, state, event) == state || rank(next_state(config, state, event)) > rank(
            state,
        ),
        state is Done ==> next_state(config, state, event) == state,
{
}

/// Reconciling a valid document is idempotent: it ends at once as
/// `Unchanged`, and the caller is asked for no transform and no write, however
/// often the run is repeated and whether or not it is a preview.
pub proof fn lemma_valid_document_is_left_alone(config: ReconcilerModel, document: JsonModel)
    requires
        errors_of(config, document).len() == 0,
    ensures
        next_state(config, StateModel::Fetched, Event::Document(document)) == StateModel::Done(
            OutcomeModel::Unchanged,
        ),
        action_of(next_state(config, StateModel::Fetched, Event::Document(document)))
            == Action::Stop,
{
}

/// Outside a preview a document ends as `Unchanged` only by being valid as
/// fetched: the one step that leads there is the validation of a document
/// without errors.
pub proof fn lemma_unchanged_means_valid(config: ReconcilerModel, state: StateModel, event: Event)
    requires
        !config.preview,
        !(state is Done),
        next_state(config, state, event) == StateModel::Done(OutcomeModel::Unchanged),
    ensures
        state is Fetched,
        event is Document,
        errors_of(config, event->Document_0).len() == 0,
{
}

/// A document that has been written is valid: after `Updated`, a new run on
/// what the store now holds ends at once as `Unchanged`.
pub proof fn lemma_written_document_is_valid(config: ReconcilerModel, replacement: JsonModel)
    requires
        next_state(config, StateModel::Invalid, Event::Transformed(replacement))
            == StateModel::Approved,
    ensures
        next_state(config, StateModel::Fetched, Event::Document(replacement)) == StateModel::Done(
            OutcomeModel::Unchanged,
        ),
{
}

/// A preview run writes nothing: no state that it reaches asks for a write.
pub proof fn lemma_preview_never_writes(config: ReconcilerModel, state: StateModel, event: Event)
    requires
        config.preview,
        !(state is Approved),
    ensures
        !(next_state(config, state, event) is Approved),
{
}

impl Reconciler {
    /// Sets up a run. The ignore list of the run is the standing one, `_id`
    /// and `_rev`, followed by the caller's.
    pub fn new(
        registry: Registry,
        table_name: &str,
        ignore_list: Vec<String>,
        preview: bool,
    ) -> (reconciler: Reconciler)
        ensures
            reconciler@ == (ReconcilerModel {
                registry: registry@,
                table_name: table_name@,
                ignore: standing_ignore() + names_of(ignore_list@),
                preview,
            }),
    {
        let mut merged: Vec<String> = Vec::new();
        merged.push(String::from_str("_id"));
        merged.push(String::from_str("_rev"));
        let mut rest: Vec<String> = ignore_list;
        let ghost given = names_of(ignore_list@);
        merged.append(&mut rest);
        assert(names_of(merged@) =~= standing_ignore() + given);
        Reconciler {
            registry,
            table_name: String::from_str(table_name),
            ignore_list: merged,
            preview,
        }
    }

    /// The names left out of validation.
    pub fn ignore_list(&self) -> (names: &Vec<String>)
        ensures
            names_of(names@) == self@.ignore,
    {
        &self.ignore_list
    }

    /// The message type that the documents are held against.
    pub fn table_name(&self) -> (name: &str)
        ensures
            name@ == self@.table_name,
    {
        self.table_name.as_str()
    }

    /// Whether the run is a preview.
    pub fn is_preview(&self) -> (preview: bool)
        ensures
            preview == self@.preview,
    {
        self.preview
    }

    /// Validates the fetched document: a valid one is done, an invalid one
    /// waits for its transform.
    pub fn start(&self, document: &JsonValue) -> (state: State)
        ensures
            state@ == next_state(self@, StateModel::Fetched, Event::Document(document@)),
    {
        let errors = validate_with(
            &self.registry,
            self.table_name.as_str(),
            document,
            &self.ignore_list,
        );
        if errors.len() == 0 {
            State::Done(Outcome::Unchanged)
        } else {
            State::Invalid
        }
    }

    /// Takes the result of the transform, `None` where it failed, and
    /// validates the replacement.
    pub fn transformed(&self, state: State, replacement: Option<&JsonValue>) -> (next: State)
        ensures
            next@ == next_state(
                self@,
                state@,
                match replacement {
                    Some(document) => Event::Transformed(document@),
                    None => Event::TransformFailed,
                },
            ),
    {
        match state {
            State::Invalid => match replacement {
                Some(document) => {
                    let errors = validate_with(
                        &self.registry,
                        self.table_name.as_str(),
                        document,
                        &self.ignore_list,
                    );
                    if errors.len() > 0 {
                        State::Done(Outcome::RejectedAfterTransform(errors))
                    } else if self.preview {
                        State::Done(Outcome::Unchanged)
                    } else {
                        State::Approved
                    }
                },
                None => State::Done(Outcome::TransformFailed),
            },
            other => other,
        }
    }

    /// Takes the answer of the store to the write.
    pub fn written(&self, state: State, accepted: bool) -> (next: State)
        ensures
            next@ == next_state(
                self@,
                state@,
                if accepted {
                    Event::Written
                } else {
                    Event::WriteFailed
                },
            ),
    {
        match state {
            State::Approved => if accepted {
                State::Done(Outcome::Updated)
            } else {
                State::Done(Outcome::UpdateFailed)
            },
            other => other,
        }
    }
}

/// What the caller does next for a document in `state`.
pub fn action(state: &State) -> (result: Action)
    ensures
        result == action_of(state@),
{
    match state {
        State::Fetched => Action::Validate,
        State::Invalid => Action::Transform,
        State::Approved => Action::Write,
        State::Done(_) => Action::Stop,
    }
}

} // verus!
