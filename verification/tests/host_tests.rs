use audiacore::errors::CodedError;
use audiacore::host::{FileAuthorityError, FileReadAuthority, FileWriteAuthority};

fn absolute_root() -> String {
    "/audiacore-test".to_owned()
}

#[test]
fn read_and_write_authorities_keep_their_grants_distinct() {
    let root = absolute_root();
    let read = FileReadAuthority::new(&root).unwrap();
    let write = FileWriteAuthority::new(&root).unwrap();

    assert_eq!(read.root(), root.as_str());
    assert_eq!(write.root(), root.as_str());
}

#[test]
fn relative_roots_are_rejected_with_stable_identity() {
    let error = FileReadAuthority::new("relative/root").unwrap_err();
    assert_eq!(error.code().as_str(), "VAL-HOST-FILE-001");
}

#[test]
fn relative_write_roots_are_rejected_too() {
    let error = FileWriteAuthority::new("").unwrap_err();
    assert_eq!(error, FileAuthorityError::RootNotAbsolute(String::new()));
    assert_eq!(
        FileReadAuthority::new("rel").unwrap_err().message(),
        "file authority root must be absolute: \"rel\""
    );
}
