//! Narrow host-facility contracts with explicit authority scopes.
//!
//! Defines permission-bearing boundaries only; never performs native I/O.
//! Paths use `/`-separated syntax, where an absolute path starts at the root.

use vstd::prelude::*;

use crate::errors::{CodedError, ErrorCode};

verus! {

/// An absolute path starts at the root directory.
pub open spec fn is_absolute_path(p: Seq<char>) -> bool {
    p.len() > 0 && p[0] == '/'
}

pub fn is_absolute(p: &str) -> (r: bool)
    ensures
        r == is_absolute_path(p@),
{
    let v = crate::text::chars_of(p);
    v.len() > 0 && v[0] == '/'
}

#[derive(Debug, Clone, PartialEq, Eq)]
pub enum FileAuthorityError {
    RootNotAbsolute(String),
}

impl FileAuthorityError {
    /// The human-readable description; the root appears quoted, with `\`
    /// and `"` escaped.
    pub fn message(&self) -> (r: String)
        ensures
            self matches FileAuthorityError::RootNotAbsolute(p) ==> r@ == "file authority root must be absolute: "@
                + crate::text::quoted_spec(p@),
    {
        match self {
            FileAuthorityError::RootNotAbsolute(p) => {
                let mut out: Vec<char> = Vec::new();
                crate::text::push_str("file authority root must be absolute: ", &mut out);
                crate::text::push_quoted(p.as_str(), &mut out);
                crate::text::string_from_chars(out.as_slice())
            },
        }
    }
}

impl FileAuthorityError {
    /// The stable code of this error.
    pub open spec fn code_spec(&self) -> Seq<char> {
        "VAL-HOST-FILE-001"@
    }
}

impl CodedError for FileAuthorityError {
    fn code(&self) -> (r: ErrorCode)
        ensures
            r@ == self.code_spec(),
    {
        proof {
            reveal_strlit("VAL-HOST-FILE-001");
            reveal_with_fuel(crate::errors::segments_ok, 12);
            crate::errors::lemma_valid_code("VAL-HOST-FILE-001"@);
        }
        ErrorCode::new("VAL-HOST-FILE-001")
    }
}

fn validate_file_root(root: &str) -> (r: Result<(), FileAuthorityError>)
    ensures
        is_absolute_path(root@) <==> r is Ok,
        r matches Err(FileAuthorityError::RootNotAbsolute(p)) ==> p@ == root@,
{
    if is_absolute(root) {
        Ok(())
    } else {
        Err(FileAuthorityError::RootNotAbsolute(root.to_owned()))
    }
}

/// Permission to observe files beneath one explicit absolute root.
///
/// There is intentionally no lexical `allows(path)` helper: containment is
/// enforced by the concrete host at the effect boundary.
#[derive(Debug, Clone, PartialEq, Eq)]
pub struct FileReadAuthority {
    root: String,
}

impl FileReadAuthority {
    pub closed spec fn root_spec(&self) -> Seq<char> {
        self.root@
    }

    pub fn new(root: &str) -> (r: Result<Self, FileAuthorityError>)
        ensures
            is_absolute_path(root@) <==> r is Ok,
            r matches Ok(a) ==> a.root_spec() == root@,
            r matches Err(FileAuthorityError::RootNotAbsolute(p)) ==> p@ == root@,
    {
        validate_file_root(root)?;
        Ok(FileReadAuthority { root: root.to_owned() })
    }

    pub fn root(&self) -> (r: &str)
        ensures
            r@ == self.root_spec(),
    {
        self.root.as_str()
    }
}

/// Permission to create, replace or remove files beneath one explicit root.
#[derive(Debug, Clone, PartialEq, Eq)]
pub struct FileWriteAuthority {
    root: String,
}

impl FileWriteAuthority {
    pub closed spec fn root_spec(&self) -> Seq<char> {
        self.root@
    }

    pub fn new(root: &str) -> (r: Result<Self, FileAuthorityError>)
        ensures
            is_absolute_path(root@) <==> r is Ok,
            r matches Ok(a) ==> a.root_spec() == root@,
            r matches Err(FileAuthorityError::RootNotAbsolute(p)) ==> p@ == root@,
    {
        validate_file_root(root)?;
        Ok(FileWriteAuthority { root: root.to_owned() })
    }

    pub fn root(&self) -> (r: &str)
        ensures
            r@ == self.root_spec(),
    {
        self.root.as_str()
    }
}

/// Filesystem effect boundary, implemented by the application's hosts.
/// Nothing is promised of what a host returns.
pub trait FileHost {
    type Error;

    fn read_optional(&self, authority: &FileReadAuthority, path: &str) -> Result<Option<Vec<u8>>, Self::Error>;

    fn write(&self, authority: &FileWriteAuthority, path: &str, bytes: &[u8]) -> Result<(), Self::Error>;

    fn remove(&self, authority: &FileWriteAuthority, path: &str) -> Result<(), Self::Error>;
}

} // verus!
