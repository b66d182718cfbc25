use std::cell::Cell;
use std::convert::Infallible;
use std::fmt;

use audiacore::errors::CodedError;
use audiacore::workflow::{
    WorkflowDefinition, WorkflowError, WorkflowInstance, WorkflowInstanceId, WorkflowSnapshot,
    WorkflowStatus, WorkflowTransition,
};

#[derive(Debug, Clone, PartialEq, Eq)]
struct State {
    steps: u8,
}

#[derive(Debug, Clone, Copy)]
enum Event {
    Step,
    Complete,
    Fail,
}

#[derive(Debug, Clone, PartialEq, Eq)]
enum Effect {
    Progress(u8),
    Finished,
    Failed,
}

struct Definition {
    calls: Cell<usize>,
}

impl Definition {
    fn new() -> Self {
        Self { calls: Cell::new(0) }
    }

    fn calls(&self) -> usize {
        self.calls.get()
    }
}

impl WorkflowDefinition for Definition {
    type State = State;
    type Event = Event;
    type Effect = Effect;
    type Error = Infallible;

    fn decide(
        &self,
        state: &Self::State,
        event: &Self::Event,
    ) -> Result<WorkflowTransition<Self::State, Self::Effect>, Self::Error> {
        self.calls.set(self.calls.get() + 1);
        Ok(match event {
            Event::Step => {
                let steps = state.steps + 1;
                WorkflowTransition::Continue {
                    state: State { steps },
                    effects: vec![Effect::Progress(steps)],
                }
            }
            Event::Complete => WorkflowTransition::Complete {
                state: state.clone(),
                effects: vec![Effect::Finished],
            },
            Event::Fail => WorkflowTransition::Fail {
                state: state.clone(),
                effects: vec![Effect::Failed],
            },
        })
    }
}

#[derive(Debug, Clone, Copy, PartialEq, Eq)]
struct DomainError;

impl fmt::Display for DomainError {
    fn fmt(&self, f: &mut fmt::Formatter<'_>) -> fmt::Result {
        f.write_str("transition rejected")
    }
}

struct RejectingDefinition;

impl WorkflowDefinition for RejectingDefinition {
    type State = State;
    type Event = Event;
    type Effect = Effect;
    type Error = DomainError;

    fn decide(
        &self,
        _state: &Self::State,
        _event: &Self::Event,
    ) -> Result<WorkflowTransition<Self::State, Self::Effect>, Self::Error> {
        Err(DomainError)
    }
}

fn instance() -> WorkflowInstance<State> {
    WorkflowInstance::new(
        WorkflowInstanceId::new("workflow-1").unwrap(),
        State { steps: 0 },
    )
}

#[test]
fn workflow_assigns_revision_status_and_effects_deterministically() {
    let definition = Definition::new();
    let mut workflow = instance();

    let first = workflow.apply_at(&definition, 0, &Event::Step).unwrap();
    assert_eq!(first.revision(), 1);
    assert_eq!(first.status(), WorkflowStatus::Running);
    assert_eq!(first.effects(), &[Effect::Progress(1)]);
    assert_eq!(workflow.state(), &State { steps: 1 });

    let completed = workflow.apply_at(&definition, 1, &Event::Complete).unwrap();
    assert_eq!(completed.revision(), 2);
    assert_eq!(completed.status(), WorkflowStatus::Completed);
    assert_eq!(completed.effects(), &[Effect::Finished]);
}

#[test]
fn revision_conflict_and_terminal_state_reject_before_domain_logic() {
    let definition = Definition::new();
    let mut workflow = instance();

    let conflict = workflow.apply_at(&definition, 1, &Event::Step).unwrap_err();
    assert_eq!(conflict.code().as_str(), "CON-WORKFLOW-002");
    assert_eq!(definition.calls(), 0);
    assert_eq!(workflow.revision(), 0);

    workflow.apply_at(&definition, 0, &Event::Complete).unwrap();
    let calls = definition.calls();
    let terminal = workflow.apply_at(&definition, 1, &Event::Step).unwrap_err();
    assert_eq!(terminal.code().as_str(), "CON-WORKFLOW-001");
    assert_eq!(definition.calls(), calls);
    assert_eq!(workflow.revision(), 1);
}

#[test]
fn revision_exhaustion_rejects_before_domain_logic_or_mutation() {
    let definition = Definition::new();
    let mut workflow = WorkflowInstance::restore(WorkflowSnapshot::new(
        WorkflowInstanceId::new("workflow-1").unwrap(),
        u64::MAX,
        WorkflowStatus::Running,
        State { steps: 0 },
    ));
    let before = workflow.state().clone();

    let error = workflow
        .apply_at(&definition, u64::MAX, &Event::Step)
        .unwrap_err();

    assert_eq!(error.code().as_str(), "RES-WORKFLOW-001");
    assert_eq!(definition.calls(), 0);
    assert_eq!(workflow.revision(), u64::MAX);
    assert_eq!(workflow.state(), &before);
}

#[test]
fn definition_rejection_has_stable_error_identity_and_does_not_mutate() {
    let mut workflow = instance();
    let before = workflow.clone();

    let error = workflow
        .apply_at(&RejectingDefinition, 0, &Event::Step)
        .unwrap_err();

    assert_eq!(error.code().as_str(), "CON-WORKFLOW-003");
    assert_eq!(error.source_error().unwrap().to_string(), "transition rejected");
    assert_eq!(workflow, before);
}

#[test]
fn snapshot_is_an_owned_restorable_consistency_checkpoint() {
    let definition = Definition::new();
    let mut workflow = instance();
    workflow.apply_at(&definition, 0, &Event::Step).unwrap();

    let snapshot = workflow.snapshot();
    workflow.apply_at(&definition, 1, &Event::Fail).unwrap();

    assert_eq!(snapshot.id().as_str(), "workflow-1");
    assert_eq!(snapshot.revision(), 1);
    assert_eq!(snapshot.status(), WorkflowStatus::Running);
    assert_eq!(snapshot.state(), &State { steps: 1 });
    assert_eq!(workflow.status(), WorkflowStatus::Failed);

    let restored = WorkflowInstance::restore(snapshot);
    assert_eq!(restored.id().as_str(), "workflow-1");
    assert_eq!(restored.revision(), 1);
    assert_eq!(restored.status(), WorkflowStatus::Running);
    assert_eq!(restored.state(), &State { steps: 1 });
}

#[test]
fn identifier_validation_has_stable_error_identity() {
    assert_eq!(
        WorkflowInstanceId::new(" ").unwrap_err().code().as_str(),
        "VAL-WORKFLOW-001"
    );
}

#[test]
fn failed_workflow_is_terminal_and_messages_describe_errors() {
    let definition = Definition::new();
    let mut workflow = instance();
    let failed = workflow.apply_at(&definition, 0, &Event::Fail).unwrap();
    assert_eq!(failed.status(), WorkflowStatus::Failed);
    assert!(WorkflowStatus::Failed.is_terminal());
    assert!(!WorkflowStatus::Running.is_terminal());
    assert_eq!(failed.into_effects(), vec![Effect::Failed]);

    let terminal = workflow.apply_at(&definition, 1, &Event::Step).unwrap_err();
    assert_eq!(terminal, WorkflowError::Terminal(WorkflowStatus::Failed));
    assert_eq!(terminal.message(""), "workflow instance is terminal: Failed");

    let conflict = workflow.apply_at(&definition, 7, &Event::Step).unwrap_err();
    assert_eq!(
        conflict.message(""),
        "workflow revision conflict: expected 7, actual 1"
    );
    assert_eq!(
        WorkflowError::<DomainError>::Definition(DomainError).message("transition rejected"),
        "workflow definition rejected transition: transition rejected"
    );
    assert_eq!(
        WorkflowError::<DomainError>::RevisionExhausted.message(""),
        "workflow revision space is exhausted"
    );
    assert_eq!(
        WorkflowInstanceId::new("").unwrap_err().message(),
        "workflow instance identifier must not be empty"
    );
}

#[test]
fn apply_decision_installs_a_supplied_transition() {
    let mut workflow = instance();
    let decision: Result<WorkflowTransition<State, Effect>, DomainError> =
        Ok(WorkflowTransition::Continue {
            state: State { steps: 9 },
            effects: vec![Effect::Progress(9)],
        });
    let receipt = workflow.apply_decision(0, decision).unwrap();
    assert_eq!(receipt.revision(), 1);
    assert_eq!(workflow.state(), &State { steps: 9 });
    let rejected: Result<WorkflowTransition<State, Effect>, DomainError> = Err(DomainError);
    assert_eq!(
        workflow.apply_decision(1, rejected).unwrap_err(),
        WorkflowError::Definition(DomainError)
    );
    assert_eq!(workflow.revision(), 1);
}
