//! Deterministic caller-owned workflow state machines.
//!
//! Workflow owns workflow-local lifecycle, optimistic revision checks, and
//! effects-as-data. It does not publish events, persist snapshots, schedule
//! work, execute effects, own clocks, retry failures, or provide a global
//! workflow runtime.

use vstd::prelude::*;

use crate::errors::{CodedError, ErrorCode};
use crate::text::{decimal, is_blank, is_blank_spec, push_decimal, push_str, string_from_chars};

verus! {

#[derive(Debug, PartialEq, Eq, PartialOrd, Ord, Hash)]
pub struct WorkflowInstanceId(String);

impl View for WorkflowInstanceId {
    type V = Seq<char>;

    closed spec fn view(&self) -> Seq<char> {
        self.0@
    }
}

impl Clone for WorkflowInstanceId {
    fn clone(&self) -> (r: Self)
        ensures
            r@ == self@,
    {
        proof {
            use_type_invariant(self);
        }
        WorkflowInstanceId(self.0.clone())
    }
}

impl WorkflowInstanceId {
    #[verifier::type_invariant]
    spec fn not_blank(self) -> bool {
        !is_blank_spec(self.0@)
    }

    /// Accepts any value that is not blank.
    pub fn new(value: &str) -> (r: Result<Self, WorkflowIdError>)
        ensures
            is_blank_spec(value@) <==> r is Err,
            r matches Ok(id) ==> id@ == value@,
    {
        if is_blank(value) {
            return Err(WorkflowIdError);
        }
        Ok(WorkflowInstanceId(value.to_owned()))
    }

    pub fn as_str(&self) -> (r: &str)
        ensures
            r@ == self@,
            !is_blank_spec(r@),
    {
        proof {
            use_type_invariant(self);
        }
        self.0.as_str()
    }

    /// The identifier text.
    pub fn to_string(&self) -> (r: String)
        ensures
            r@ == self@,
    {
        self.0.clone()
    }
}

/// A workflow instance identifier was blank.
#[derive(Debug, Clone, Copy, PartialEq, Eq)]
pub struct WorkflowIdError;

impl WorkflowIdError {
    pub fn message(&self) -> (r: String)
        ensures
            r@ == "workflow instance identifier must not be empty"@,
    {
        "workflow instance identifier must not be empty".to_owned()
    }
}

impl WorkflowIdError {
    /// The stable code of this error.
    pub open spec fn code_spec(&self) -> Seq<char> {
        "VAL-WORKFLOW-001"@
    }
}

impl CodedError for WorkflowIdError {
    fn code(&self) -> (r: ErrorCode)
        ensures
            r@ == self.code_spec(),
    {
        proof {
            reveal_strlit("VAL-WORKFLOW-001");
            reveal_with_fuel(crate::errors::segments_ok, 10);
            crate::errors::lemma_valid_code("VAL-WORKFLOW-001"@);
        }
        ErrorCode::new("VAL-WORKFLOW-001")
    }
}

#[derive(Debug, Clone, Copy, PartialEq, Eq, Structural)]
pub enum WorkflowStatus {
    Running,
    Completed,
    Failed,
}

impl WorkflowStatus {
    pub open spec fn is_terminal_spec(self) -> bool {
        self is Completed || self is Failed
    }

    pub fn is_terminal(self) -> (r: bool)
        ensures
            r == self.is_terminal_spec(),
    {
        match self {
            WorkflowStatus::Running => false,
            WorkflowStatus::Completed => true,
            WorkflowStatus::Failed => true,
        }
    }

    pub open spec fn name_spec(self) -> Seq<char> {
        match self {
            WorkflowStatus::Running => "Running"@,
            WorkflowStatus::Completed => "Completed"@,
            WorkflowStatus::Failed => "Failed"@,
        }
    }

    /// The variant's name.
    pub fn name(self) -> (r: &'static str)
        ensures
            r@ == self.name_spec(),
    {
        match self {
            WorkflowStatus::Running => "Running",
            WorkflowStatus::Completed => "Completed",
            WorkflowStatus::Failed => "Failed",
        }
    }
}

/// What a definition decided: the next state, whether the workflow goes on,
/// completes or fails, and the effects to hand back to the caller.
#[derive(Debug, Clone, PartialEq, Eq)]
pub enum WorkflowTransition<S, E> {
    Continue { state: S, effects: Vec<E> },
    Complete { state: S, effects: Vec<E> },
    Fail { state: S, effects: Vec<E> },
}

impl<S, E> WorkflowTransition<S, E> {
    pub open spec fn state_spec(&self) -> S {
        match self {
            WorkflowTransition::Continue { state, .. } => *state,
            WorkflowTransition::Complete { state, .. } => *state,
            WorkflowTransition::Fail { state, .. } => *state,
        }
    }

    pub open spec fn status_spec(&self) -> WorkflowStatus {
        match self {
            WorkflowTransition::Continue { .. } => WorkflowStatus::Running,
            WorkflowTransition::Complete { .. } => WorkflowStatus::Completed,
            WorkflowTransition::Fail { .. } => WorkflowStatus::Failed,
        }
    }

    pub open spec fn effects_spec(&self) -> Seq<E> {
        match self {
            WorkflowTransition::Continue { effects, .. } => effects@,
            WorkflowTransition::Complete { effects, .. } => effects@,
            WorkflowTransition::Fail { effects, .. } => effects@,
        }
    }
}

/// The domain decision of a workflow, supplied by its user.
pub trait WorkflowDefinition {
    type State;
    type Event;
    type Effect;
    type Error;

    fn decide(&self, state: &Self::State, event: &Self::Event) -> Result<
        WorkflowTransition<Self::State, Self::Effect>,
        Self::Error,
    >;
}

#[derive(Debug, Clone, PartialEq, Eq)]
pub struct WorkflowReceipt<E> {
    revision: u64,
    status: WorkflowStatus,
    effects: Vec<E>,
}

impl<E> WorkflowReceipt<E> {
    pub closed spec fn revision_spec(&self) -> u64 {
        self.revision
    }

    pub closed spec fn status_spec(&self) -> WorkflowStatus {
        self.status
    }

    pub closed spec fn effects_spec(&self) -> Seq<E> {
        self.effects@
    }

    pub fn revision(&self) -> (r: u64)
        ensures
            r == self.revision_spec(),
    {
        self.revision
    }

    pub fn status(&self) -> (r: WorkflowStatus)
        ensures
            r == self.status_spec(),
    {
        self.status
    }

    pub fn effects(&self) -> (r: &[E])
        ensures
            r@ == self.effects_spec(),
    {
        self.effects.as_slice()
    }

    pub fn into_effects(self) -> (r: Vec<E>)
        ensures
            r@ == self.effects_spec(),
    {
        self.effects
    }
}

/// An owned checkpoint of a workflow instance.
#[derive(Debug, Clone, PartialEq, Eq)]
pub struct WorkflowSnapshot<S> {
    id: WorkflowInstanceId,
    revision: u64,
    status: WorkflowStatus,
    state: S,
}

impl<S> WorkflowSnapshot<S> {
    pub closed spec fn id_spec(&self) -> Seq<char> {
        self.id@
    }

    pub closed spec fn revision_spec(&self) -> u64 {
        self.revision
    }

    pub closed spec fn status_spec(&self) -> WorkflowStatus {
        self.status
    }

    pub closed spec fn state_spec(&self) -> S {
        self.state
    }

    /// A checkpoint with the given parts, such as one read back from storage.
    pub fn new(id: WorkflowInstanceId, revision: u64, status: WorkflowStatus, state: S) -> (r: Self)
        ensures
            r.id_spec() == id@,
            r.revision_spec() == revision,
            r.status_spec() == status,
            r.state_spec() == state,
    {
        WorkflowSnapshot { id, revision, status, state }
    }

    pub fn id(&self) -> (r: &WorkflowInstanceId)
        ensures
            r@ == self.id_spec(),
    {
        &self.id
    }

    pub fn revision(&self) -> (r: u64)
        ensures
            r == self.revision_spec(),
    {
        self.revision
    }

    pub fn status(&self) -> (r: WorkflowStatus)
        ensures
            r == self.status_spec(),
    {
        self.status
    }

    pub fn state(&self) -> (r: &S)
        ensures
            *r == self.state_spec(),
    {
        &self.state
    }
}

#[derive(Debug, Clone, PartialEq, Eq)]
pub enum WorkflowError<E> {
    Terminal(WorkflowStatus),
    RevisionConflict { expected: u64, actual: u64 },
    Definition(E),
    RevisionExhausted,
}

impl<E> WorkflowError<E> {
    /// The definition's own error, where the definition rejected the
    /// transition.
    pub fn source_error(&self) -> (r: Option<&E>)
        ensures
            match self {
                WorkflowError::Definition(e) => r == Some(e),
                _ => r is None,
            },
    {
        match self {
            WorkflowError::Definition(e) => Some(e),
            _ => None,
        }
    }

    pub open spec fn message_spec(&self, definition_detail: Seq<char>) -> Seq<char> {
        match self {
            WorkflowError::Terminal(status) => "workflow instance is terminal: "@ + status.name_spec(),
            WorkflowError::RevisionConflict { expected, actual } => "workflow revision conflict: expected "@
                + decimal(*expected as nat) + ", actual "@ + decimal(*actual as nat),
            WorkflowError::Definition(_) => "workflow definition rejected transition: "@ + definition_detail,
            WorkflowError::RevisionExhausted => "workflow revision space is exhausted"@,
        }
    }

    /// The human-readable description; `definition_detail` is the text of
    /// the definition's own error, used only for a rejected transition.
    pub fn message(&self, definition_detail: &str) -> (r: String)
        ensures
            r@ == self.message_spec(definition_detail@),
    {
        match self {
            WorkflowError::Terminal(status) => "workflow instance is terminal: ".to_owned().concat(
                status.name(),
            ),
            WorkflowError::RevisionConflict { expected, actual } => {
                let mut out: Vec<char> = Vec::new();
                push_str("workflow revision conflict: expected ", &mut out);
                push_decimal(*expected as u128, &mut out);
                push_str(", actual ", &mut out);
                push_decimal(*actual as u128, &mut out);
                string_from_chars(out.as_slice())
            },
            WorkflowError::Definition(_) => "workflow definition rejected transition: ".to_owned().concat(
                definition_detail,
            ),
            WorkflowError::RevisionExhausted => "workflow revision space is exhausted".to_owned(),
        }
    }
}

impl<E> WorkflowError<E> {
    /// The stable code of this error.
    pub open spec fn code_spec(&self) -> Seq<char> {
        match self {
            WorkflowError::Terminal(_) => "CON-WORKFLOW-001"@,
            WorkflowError::RevisionConflict { .. } => "CON-WORKFLOW-002"@,
            WorkflowError::Definition(_) => "CON-WORKFLOW-003"@,
            WorkflowError::RevisionExhausted => "RES-WORKFLOW-001"@,
        }
    }
}

impl<E> CodedError for WorkflowError<E> {
    fn code(&self) -> (r: ErrorCode)
        ensures
            r@ == self.code_spec(),
    {
        match self {
            WorkflowError::Terminal(_) => {
                proof {
                    reveal_strlit("CON-WORKFLOW-001");
                    reveal_with_fuel(crate::errors::segments_ok, 10);
                    crate::errors::lemma_valid_code("CON-WORKFLOW-001"@);
                }
                ErrorCode::new("CON-WORKFLOW-001")
            },
            WorkflowError::RevisionConflict { .. } => {
                proof {
                    reveal_strlit("CON-WORKFLOW-002");
                    reveal_with_fuel(crate::errors::segments_ok, 10);
                    crate::errors::lemma_valid_code("CON-WORKFLOW-002"@);
                }
                ErrorCode::new("CON-WORKFLOW-002")
            },
            WorkflowError::Definition(_) => {
                proof {
                    reveal_strlit("CON-WORKFLOW-003");
                    reveal_with_fuel(crate::errors::segments_ok, 10);
                    crate::errors::lemma_valid_code("CON-WORKFLOW-003"@);
                }
                ErrorCode::new("CON-WORKFLOW-003")
            },
            WorkflowError::RevisionExhausted => {
                proof {
                    reveal_strlit("RES-WORKFLOW-001");
                    reveal_with_fuel(crate::errors::segments_ok, 10);
                    crate::errors::lemma_valid_code("RES-WORKFLOW-001"@);
                }
                ErrorCode::new("RES-WORKFLOW-001")
            },
        }
    }
}

/// One workflow instance: identity, revision, lifecycle status and state.
#[derive(Debug, Clone, PartialEq, Eq)]
pub struct WorkflowInstance<S> {
    id: WorkflowInstanceId,
    revision: u64,
    status: WorkflowStatus,
    state: S,
}

/// The error a transition at `expected` is refused with before the
/// definition is consulted, if any.
pub open spec fn precheck<S, X>(w: WorkflowInstance<S>, expected: u64) -> Option<WorkflowError<X>> {
    if expected != w.revision_spec() {
        Some(WorkflowError::RevisionConflict { expected, actual: w.revision_spec() })
    } else if w.status_spec().is_terminal_spec() {
        Some(WorkflowError::Terminal(w.status_spec()))
    } else if w.revision_spec() == u64::MAX {
        Some(WorkflowError::RevisionExhausted)
    } else {
        None
    }
}

/// `r` and `after` are what applying `decision` at `expected` to `before`
/// gives: a refused transition or a definition error leaves the instance
/// unchanged; an accepted one installs the new state and status and bumps
/// the revision by one.
pub open spec fn decision_outcome<S, F, X>(
    before: WorkflowInstance<S>,
    expected: u64,
    decision: Result<WorkflowTransition<S, F>, X>,
    r: Result<WorkflowReceipt<F>, WorkflowError<X>>,
    after: WorkflowInstance<S>,
) -> bool {
    &&& after.id_spec() == before.id_spec()
    &&& match precheck::<S, X>(before, expected) {
        Some(e) => {
            &&& r == Err::<WorkflowReceipt<F>, WorkflowError<X>>(e)
            &&& after.unchanged_from(before)
        },
        None => match decision {
            Err(x) => {
                &&& r == Err::<WorkflowReceipt<F>, WorkflowError<X>>(WorkflowError::Definition(x))
                &&& after.unchanged_from(before)
            },
            Ok(t) => {
                &&& r matches Ok(receipt) && receipt.revision_spec() == before.revision_spec() + 1
                    && receipt.status_spec() == t.status_spec() && receipt.effects_spec()
                    == t.effects_spec()
                &&& after.revision_spec() == before.revision_spec() + 1
                &&& after.status_spec() == t.status_spec()
                &&& after.state_spec() == t.state_spec()
            },
        },
    }
}

impl<S> WorkflowInstance<S> {
    pub closed spec fn id_spec(&self) -> Seq<char> {
        self.id@
    }

    pub closed spec fn revision_spec(&self) -> u64 {
        self.revision
    }

    pub closed spec fn status_spec(&self) -> WorkflowStatus {
        self.status
    }

    pub closed spec fn state_spec(&self) -> S {
        self.state
    }

    pub open spec fn unchanged_from(&self, other: WorkflowInstance<S>) -> bool {
        &&& self.id_spec() == other.id_spec()
        &&& self.revision_spec() == other.revision_spec()
        &&& self.status_spec() == other.status_spec()
        &&& self.state_spec() == other.state_spec()
    }

    /// A running instance at revision 0.
    pub fn new(id: WorkflowInstanceId, initial_state: S) -> (r: Self)
        ensures
            r.id_spec() == id@,
            r.revision_spec() == 0,
            r.status_spec() == WorkflowStatus::Running,
            r.state_spec() == initial_state,
    {
        WorkflowInstance { id, revision: 0, status: WorkflowStatus::Running, state: initial_state }
    }

    /// The instance a snapshot was taken of.
    pub fn restore(snapshot: WorkflowSnapshot<S>) -> (r: Self)
        ensures
            r.id_spec() == snapshot.id_spec(),
            r.revision_spec() == snapshot.revision_spec(),
            r.status_spec() == snapshot.status_spec(),
            r.state_spec() == snapshot.state_spec(),
    {
        WorkflowInstance {
            id: snapshot.id,
            revision: snapshot.revision,
            status: snapshot.status,
            state: snapshot.state,
        }
    }

    pub fn id(&self) -> (r: &WorkflowInstanceId)
        ensures
            r@ == self.id_spec(),
    {
        &self.id
    }

    pub fn revision(&self) -> (r: u64)
        ensures
            r == self.revision_spec(),
    {
        self.revision
    }

    pub fn status(&self) -> (r: WorkflowStatus)
        ensures
            r == self.status_spec(),
    {
        self.status
    }

    pub fn state(&self) -> (r: &S)
        ensures
            *r == self.state_spec(),
    {
        &self.state
    }

    /// An owned checkpoint; its state is a clone of the current state.
    pub fn snapshot(&self) -> (r: WorkflowSnapshot<S>) where S: Clone
        ensures
            r.id_spec() == self.id_spec(),
            r.revision_spec() == self.revision_spec(),
            r.status_spec() == self.status_spec(),
            cloned(self.state_spec(), r.state_spec()),
    {
        WorkflowSnapshot {
            id: self.id.clone(),
            revision: self.revision,
            status: self.status,
            state: self.state.clone(),
        }
    }

    /// Applies a decision already taken for the event at `expected_revision`:
    /// checks the revision, the lifecycle and the revision space, then either
    /// reports the definition's error or installs the transition.
    pub fn apply_decision<F, X>(
        &mut self,
        expected_revision: u64,
        decision: Result<WorkflowTransition<S, F>, X>,
    ) -> (r: Result<WorkflowReceipt<F>, WorkflowError<X>>)
        ensures
            decision_outcome(*old(self), expected_revision, decision, r, *final(self)),
    {
        if expected_revision != self.revision {
            return Err(WorkflowError::RevisionConflict { expected: expected_revision, actual: self.revision });
        }
        if self.status.is_terminal() {
            return Err(WorkflowError::Terminal(self.status));
        }
        if self.revision == u64::MAX {
            return Err(WorkflowError::RevisionExhausted);
        }
        let next_revision = self.revision + 1;
        let transition = match decision {
            Ok(t) => t,
            Err(x) => {
                return Err(WorkflowError::Definition(x));
            },
        };
        let (state, status, effects) = match transition {
            WorkflowTransition::Continue { state, effects } => (state, WorkflowStatus::Running, effects),
            WorkflowTransition::Complete { state, effects } => (state, WorkflowStatus::Completed, effects),
            WorkflowTransition::Fail { state, effects } => (state, WorkflowStatus::Failed, effects),
        };
        self.state = state;
        self.status = status;
        self.revision = next_revision;
        Ok(WorkflowReceipt { revision: next_revision, status, effects })
    }

    /// Applies `event` at `expected_revision`. A stale revision, a terminal
    /// instance or an exhausted revision space is refused before the
    /// definition is asked; otherwise the outcome is `apply_decision` of
    /// whatever the definition decided.
    pub fn apply_at<D: WorkflowDefinition<State = S>>(
        &mut self,
        definition: &D,
        expected_revision: u64,
        event: &D::Event,
    ) -> (r: Result<WorkflowReceipt<D::Effect>, WorkflowError<D::Error>>)
        ensures
            precheck::<S, D::Error>(*old(self), expected_revision) matches Some(e) ==> {
                &&& r == Err::<WorkflowReceipt<D::Effect>, WorkflowError<D::Error>>(e)
                &&& final(self).unchanged_from(*old(self))
            },
            exists|d: Result<WorkflowTransition<S, D::Effect>, D::Error>|
                decision_outcome(*old(self), expected_revision, d, r, *final(self)),
            precheck::<S, D::Error>(*old(self), expected_revision) is None ==> exists|d: Result<
                WorkflowTransition<S, D::Effect>,
                D::Error,
            >|
                call_ensures(D::decide, (definition, &old(self).state_spec(), event), d)
                    && decision_outcome(*old(self), expected_revision, d, r, *final(self)),
    {
        let refused = if expected_revision != self.revision {
            Some(WorkflowError::RevisionConflict { expected: expected_revision, actual: self.revision })
        } else if self.status.is_terminal() {
            Some(WorkflowError::Terminal(self.status))
        } else if self.revision == u64::MAX {
            Some(WorkflowError::RevisionExhausted)
        } else {
            None
        };
        if let Some(e) = refused {
            let r = Err(e);
            proof {
                let d: Result<WorkflowTransition<S, D::Effect>, D::Error> = arbitrary();
                assert(decision_outcome(*old(self), expected_revision, d, r, *self));
            }
            return r;
        }
        let decision = definition.decide(&self.state, event);
        let ghost d = decision;
        proof {
            assert(call_ensures(D::decide, (definition, &old(self).state_spec(), event), d));
        }
        let r = self.apply_decision(expected_revision, decision);
        proof {
            assert(decision_outcome(*old(self), expected_revision, d, r, *self));
        }
        r
    }
}

/// Law: an accepted transition moves the revision forward by exactly one,
/// and a refused or rejected one changes nothing.
pub proof fn lemma_revision_advances_by_one<S, F, X>(
    before: WorkflowInstance<S>,
    expected: u64,
    decision: Result<WorkflowTransition<S, F>, X>,
    r: Result<WorkflowReceipt<F>, WorkflowError<X>>,
    after: WorkflowInstance<S>,
)
    requires
        decision_outcome(before, expected, decision, r, after),
    ensures
        r is Ok ==> after.revision_spec() == before.revision_spec() + 1 && expected == before.revision_spec(),
        r is Err ==> after.unchanged_from(before),
        r is Ok ==> !before.status_spec().is_terminal_spec(),
{
}

} // verus!
