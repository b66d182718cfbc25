use std::{collections::BTreeMap, io, sync::Mutex};

use audiacore::application::{
    execute_managed_config, present_error, redacted_value, ManagedConfigComposition,
    ManagedConfigPolicy, MessageContext,
};
use audiacore::error_catalog::ErrorCatalogue;
use audiacore::errors::{CodedError, ErrorCode};
use audiacore::host::{FileHost, FileReadAuthority, FileWriteAuthority};
use audiacore::identity::{Application, ApplicationId, CorrelationId, ExecutionContext, ExecutionId};
use audiacore::managed_config::{ManagedConfigApplyResult, ManagedConfigTarget};
use audiacore::reconcile::OwnerId;
use audiacore::sensitive::Sensitive;
use audiacore::template::TemplateValue;

#[derive(Debug)]
struct ExampleError(ErrorCode);

impl CodedError for ExampleError {
    fn code(&self) -> ErrorCode {
        self.0
    }
}

#[test]
fn sensitive_message_values_are_redacted_without_exposure() {
    let mut catalogue = ErrorCatalogue::new();
    catalogue
        .register_yaml(
            "test/errors.yaml",
            r#"
CON-MCONFIG-001:
  message: "Owner {owner} used token {token}."
  resolution: "Correct the ownership identity."
"#,
        )
        .unwrap();

    let secret = Sensitive::new("never-show-this".to_owned());
    let mut context = MessageContext::new();
    context.insert_public("owner", TemplateValue::String("app".to_owned()));
    context.insert_sensitive("token", &secret);

    let presented = present_error(
        &catalogue,
        &ExampleError(ErrorCode::new("CON-MCONFIG-001")),
        &context,
    );

    assert!(presented.configured());
    assert_eq!(presented.message(), "Owner app used token [REDACTED].");
    assert!(!presented.message().contains(secret.expose().as_str()));
}

#[test]
fn presentation_failure_preserves_original_code_without_diagnostic_text() {
    let catalogue = ErrorCatalogue::new();
    let error = ExampleError(ErrorCode::new("IO-MCONFIG-001"));
    let presented = present_error(&catalogue, &error, &MessageContext::new());

    assert!(!presented.configured());
    assert_eq!(presented.code().as_str(), error.code().as_str());
    assert_eq!(presented.kind(), "io");
    assert_eq!(presented.message(), "Error IO-MCONFIG-001.");
    assert!(!presented.message().contains("missing"));
}

#[test]
fn missing_message_parameter_falls_back_without_changing_error_identity() {
    let mut catalogue = ErrorCatalogue::new();
    catalogue
        .register_yaml(
            "test/errors.yaml",
            r#"
CON-MCONFIG-001:
  message: "Owner {owner} is invalid."
  resolution: "Correct the owner."
"#,
        )
        .unwrap();
    let error = ExampleError(ErrorCode::new("CON-MCONFIG-001"));

    let presented = present_error(&catalogue, &error, &MessageContext::new());

    assert!(!presented.configured());
    assert_eq!(presented.code().as_str(), error.code().as_str());
    assert_eq!(presented.message(), "Error CON-MCONFIG-001.");
}

#[test]
fn fallback_resolution_and_configured_kind() {
    let catalogue = ErrorCatalogue::new();
    let presented = present_error(
        &catalogue,
        &ExampleError(ErrorCode::new("CON-MCONFIG-001")),
        &MessageContext::new(),
    );
    assert_eq!(presented.kind(), "constraint");
    assert_eq!(
        presented.resolution(),
        "Use the stable error code with diagnostic logs to identify the underlying condition."
    );
    assert!(matches!(
        redacted_value(&Sensitive::new(1_u8)),
        TemplateValue::String(s) if s == "[REDACTED]"
    ));
}

#[derive(Default)]
struct MemoryFileHost {
    files: Mutex<BTreeMap<String, Vec<u8>>>,
}

impl FileHost for MemoryFileHost {
    type Error = io::Error;

    fn read_optional(&self, _a: &FileReadAuthority, path: &str) -> io::Result<Option<Vec<u8>>> {
        Ok(self.files.lock().unwrap().get(path).cloned())
    }

    fn write(&self, _a: &FileWriteAuthority, path: &str, bytes: &[u8]) -> io::Result<()> {
        self.files.lock().unwrap().insert(path.to_owned(), bytes.to_vec());
        Ok(())
    }

    fn remove(&self, _a: &FileWriteAuthority, path: &str) -> io::Result<()> {
        self.files.lock().unwrap().remove(path);
        Ok(())
    }
}

#[test]
fn executing_the_same_policy_twice_creates_then_does_nothing() {
    let application = Application::new(
        ApplicationId::new("smoke").unwrap(),
        ManagedConfigComposition::new(
            MemoryFileHost::default(),
            FileReadAuthority::new("/root").unwrap(),
            FileWriteAuthority::new("/root").unwrap(),
            ErrorCatalogue::new(),
        ),
    );
    let execution = ExecutionContext::new(
        ExecutionId::new("smoke-1").unwrap(),
        CorrelationId::new("smoke-correlation").unwrap(),
    );
    let policy = ManagedConfigPolicy::new(
        ManagedConfigTarget::new("hello.txt", OwnerId::new("owner").unwrap()),
        Some(b"hello".to_vec()),
    );
    assert_eq!(policy.desired(), Some(&b"hello"[..]));
    assert_eq!(
        execute_managed_config(&application, &execution, &policy).unwrap(),
        ManagedConfigApplyResult::Created
    );
    assert_eq!(
        execute_managed_config(&application, &execution, &policy).unwrap(),
        ManagedConfigApplyResult::Noop
    );
    let stored = application
        .composition()
        .host()
        .read_optional(application.composition().read_authority(), "hello.txt")
        .unwrap();
    assert_eq!(stored, Some(b"hello".to_vec()));
    let remove = ManagedConfigPolicy::new(policy.target().clone(), None);
    assert_eq!(
        execute_managed_config(&application, &execution, &remove).unwrap(),
        ManagedConfigApplyResult::Deleted
    );
}
