use audiacore::identity::{Application, ApplicationId, CorrelationId, ExecutionContext, ExecutionId};

#[test]
fn identifiers_reject_empty_values() {
    for value in ["", " ", "\t\n"] {
        assert!(ApplicationId::new(value).is_err());
        assert!(ExecutionId::new(value).is_err());
        assert!(CorrelationId::new(value).is_err());
    }
}

#[test]
fn identifiers_preserve_non_empty_values() {
    let id = ApplicationId::new("app-one").unwrap();
    assert_eq!(id.as_str(), "app-one");
    assert_eq!(id.to_string(), "app-one");
}

#[test]
fn execution_context_carries_identity_without_runtime_semantics() {
    let execution = ExecutionContext::new(
        ExecutionId::new("exec-1").unwrap(),
        CorrelationId::new("corr-1").unwrap(),
    );

    assert_eq!(execution.execution_id().as_str(), "exec-1");
    assert_eq!(execution.correlation_id().as_str(), "corr-1");
}

#[test]
fn application_composition_is_opaque_and_replaceable() {
    let application = Application::new(ApplicationId::new("demo").unwrap(), ("events", 4_u32));

    let mapped = application.map(|(_, retention)| retention as u64);

    assert_eq!(mapped.id().as_str(), "demo");
    assert_eq!(*mapped.composition(), 4_u64);
    assert_eq!(mapped.into_composition(), 4_u64);
}

#[test]
fn identifier_error_names_its_kind() {
    let error = ExecutionId::new("\u{3000}\u{a0}").unwrap_err();
    assert_eq!(error.kind(), "execution id");
    assert_eq!(error.message(), "execution id must not be empty");
    assert!(ApplicationId::new(" a ").is_ok());
    assert_eq!(ApplicationId::new(" a ").unwrap().as_str(), " a ");
}

#[test]
fn composition_can_be_mutated_in_place() {
    let mut application = Application::new(ApplicationId::new("demo").unwrap(), vec![1_u8]);
    application.composition_mut().push(2);
    assert_eq!(application.composition(), &vec![1_u8, 2]);
    assert_eq!(application.id().as_str(), "demo");
}
