use std::{collections::BTreeMap, io, sync::Mutex};

use audiacore::errors::CodedError;
use audiacore::host::{FileHost, FileReadAuthority, FileWriteAuthority};
use audiacore::managed_config::{
    apply, observe, plan, ManagedConfigApplyResult, ManagedConfigError, ManagedConfigTarget,
};
use audiacore::reconcile::{OwnerId, ReconcileAction};

#[derive(Default)]
struct MemoryFileHost {
    files: Mutex<BTreeMap<String, Vec<u8>>>,
}

impl FileHost for MemoryFileHost {
    type Error = io::Error;

    fn read_optional(
        &self,
        _authority: &FileReadAuthority,
        path: &str,
    ) -> Result<Option<Vec<u8>>, Self::Error> {
        Ok(self.files.lock().unwrap().get(path).cloned())
    }

    fn write(
        &self,
        _authority: &FileWriteAuthority,
        path: &str,
        bytes: &[u8],
    ) -> Result<(), Self::Error> {
        self.files
            .lock()
            .unwrap()
            .insert(path.to_owned(), bytes.to_vec());
        Ok(())
    }

    fn remove(&self, _authority: &FileWriteAuthority, path: &str) -> Result<(), Self::Error> {
        self.files.lock().unwrap().remove(path);
        Ok(())
    }
}

struct FailingFileHost;

impl FileHost for FailingFileHost {
    type Error = io::Error;

    fn read_optional(
        &self,
        _authority: &FileReadAuthority,
        _path: &str,
    ) -> Result<Option<Vec<u8>>, Self::Error> {
        Err(io::Error::other("observe failed"))
    }

    fn write(
        &self,
        _authority: &FileWriteAuthority,
        _path: &str,
        _bytes: &[u8],
    ) -> Result<(), Self::Error> {
        Err(io::Error::other("write failed"))
    }

    fn remove(&self, _authority: &FileWriteAuthority, _path: &str) -> Result<(), Self::Error> {
        Err(io::Error::other("remove failed"))
    }
}

fn authority_root() -> &'static str {
    "/audiacore-managed-config-test"
}

fn read_authority() -> FileReadAuthority {
    FileReadAuthority::new(authority_root()).unwrap()
}

fn write_authority() -> FileWriteAuthority {
    FileWriteAuthority::new(authority_root()).unwrap()
}

fn target(owner: &str) -> ManagedConfigTarget {
    ManagedConfigTarget::new("app.conf", OwnerId::new(owner).unwrap())
}

fn host_error_text<E: std::fmt::Display>(error: ManagedConfigError<E>) -> String {
    match error {
        ManagedConfigError::Host(source) => source.to_string(),
        ManagedConfigError::OwnershipMismatch { .. } => panic!("expected a host error"),
    }
}

#[test]
fn create_replace_delete_flow_is_explicit() {
    let host = MemoryFileHost::default();
    let target = target("application-config");

    let observed = observe(&host, &read_authority(), &target).unwrap();
    let create = plan(&target, &observed, &Some(b"one".to_vec()));
    assert_eq!(
        apply(&host, &write_authority(), &target, &create).unwrap(),
        ManagedConfigApplyResult::Created
    );

    let observed = observe(&host, &read_authority(), &target).unwrap();
    let replace = plan(&target, &observed, &Some(b"two".to_vec()));
    assert_eq!(
        apply(&host, &write_authority(), &target, &replace).unwrap(),
        ManagedConfigApplyResult::Replaced
    );

    let observed = observe(&host, &read_authority(), &target).unwrap();
    let delete = plan(&target, &observed, &None);
    assert_eq!(
        apply(&host, &write_authority(), &target, &delete).unwrap(),
        ManagedConfigApplyResult::Deleted
    );
    assert_eq!(observe(&host, &read_authority(), &target).unwrap(), None);
}

#[test]
fn unchanged_desired_bytes_produce_noop_without_host_mutation() {
    let host = MemoryFileHost::default();
    let target = target("application-config");
    host.write(&write_authority(), target.path(), b"same").unwrap();

    let observed = observe(&host, &read_authority(), &target).unwrap();
    let planned = plan(&target, &observed, &Some(b"same".to_vec()));
    assert_eq!(planned.action(), &ReconcileAction::Noop);
    assert_eq!(
        apply(&host, &write_authority(), &target, &planned).unwrap(),
        ManagedConfigApplyResult::Noop
    );
    assert_eq!(observe(&host, &read_authority(), &target).unwrap(), observed);
}

#[test]
fn ownership_mismatch_rejects_before_host_mutation() {
    let host = MemoryFileHost::default();
    let source = target("source-owner");
    let destination = target("destination-owner");
    let planned = plan(&source, &None, &Some(b"value".to_vec()));

    let error = apply(&host, &write_authority(), &destination, &planned).unwrap_err();

    assert_eq!(error.code().as_str(), "CON-MCONFIG-001");
    assert_eq!(observe(&host, &read_authority(), &destination).unwrap(), None);
}

#[test]
fn observe_and_apply_host_failures_share_stable_boundary_identity() {
    let target = target("application-config");
    let observe_error = observe(&FailingFileHost, &read_authority(), &target).unwrap_err();
    assert_eq!(observe_error.code().as_str(), "IO-MCONFIG-001");
    assert_eq!(host_error_text(observe_error), "observe failed");

    let planned = plan(&target, &None, &Some(b"value".to_vec()));
    let apply_error = apply(&FailingFileHost, &write_authority(), &target, &planned).unwrap_err();
    assert_eq!(apply_error.code().as_str(), "IO-MCONFIG-001");
    assert_eq!(
        apply_error.message("write failed"),
        "managed configuration host error: write failed"
    );
    assert_eq!(host_error_text(apply_error), "write failed");
}

#[test]
fn ownership_mismatch_names_both_owners() {
    let source = target("source-owner");
    let destination = target("destination-owner");
    let planned = plan(&source, &Some(b"x".to_vec()), &Some(b"x".to_vec()));
    let error = apply(&FailingFileHost, &write_authority(), &destination, &planned).unwrap_err();
    assert_eq!(
        error.message(""),
        "managed configuration ownership mismatch: expected destination-owner, actual source-owner"
    );
    assert!(error.source_error().is_none());
    assert_eq!(planned.owner().as_str(), "source-owner");
}

#[test]
fn a_noop_plan_never_touches_the_host() {
    let target = target("owner");
    let planned = plan(&target, &None, &None);
    assert_eq!(planned.action(), &ReconcileAction::Noop);
    assert_eq!(
        apply(&FailingFileHost, &write_authority(), &target, &planned).unwrap(),
        ManagedConfigApplyResult::Noop
    );
    let delete = plan(&target, &Some(b"x".to_vec()), &None);
    assert_eq!(delete.action(), &ReconcileAction::Delete);
    assert_eq!(
        host_error_text(apply(&FailingFileHost, &write_authority(), &target, &delete).unwrap_err()),
        "remove failed"
    );
}
