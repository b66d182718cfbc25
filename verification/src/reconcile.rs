//! Pure desired-versus-observed reconciliation planning.
//!
//! Produces effect intent as data. Owns no resource identity, authority, host
//! access, persistence, or presentation semantics.

use vstd::prelude::*;

use crate::identity::IdentifierError;
use crate::text::{is_blank, is_blank_spec};
use vstd::std_specs::cmp::PartialEqSpec;

verus! {

#[derive(Debug, Clone, PartialEq, Eq)]
pub enum ReconcileAction<T> {
    Noop,
    Create(T),
    Replace(T),
    Delete,
}

/// Plans the effect that brings the observed state to the desired one:
/// nothing when both are absent or equal, create when only the desired one
/// is present, delete when only the observed one is, replace otherwise.
pub fn plan<T: Clone + PartialEq>(desired: Option<&T>, observed: Option<&T>) -> (r: ReconcileAction<T>)
    ensures
        match (desired, observed) {
            (None, None) => r is Noop,
            (None, Some(_)) => r is Delete,
            (Some(d), None) => r matches ReconcileAction::Create(x) && cloned(*d, x),
            (Some(d), Some(o)) => {
                &&& r is Noop || (r matches ReconcileAction::Replace(x) && cloned(*d, x))
                &&& T::obeys_eq_spec() ==> (r is Noop <==> d.eq_spec(o))
            },
        },
{
    match (desired, observed) {
        (None, None) => ReconcileAction::Noop,
        (Some(d), None) => ReconcileAction::Create(d.clone()),
        (None, Some(_)) => ReconcileAction::Delete,
        (Some(d), Some(o)) => {
            if *d == *o {
                ReconcileAction::Noop
            } else {
                ReconcileAction::Replace(d.clone())
            }
        },
    }
}

/// Identity of the owner of a managed resource.
#[derive(Debug, PartialEq, Eq, PartialOrd, Ord, Hash)]
pub struct OwnerId(String);

impl View for OwnerId {
    type V = Seq<char>;

    closed spec fn view(&self) -> Seq<char> {
        self.0@
    }
}

impl Clone for OwnerId {
    fn clone(&self) -> (r: Self)
        ensures
            r@ == self@,
    {
        proof {
            use_type_invariant(self);
        }
        OwnerId(self.0.clone())
    }
}

impl OwnerId {
    #[verifier::type_invariant]
    spec fn not_blank(self) -> bool {
        !is_blank_spec(self.0@)
    }

    pub fn new(value: &str) -> (r: Result<Self, IdentifierError>)
        ensures
            is_blank_spec(value@) <==> r is Err,
            r matches Ok(id) ==> id@ == value@,
            r matches Err(e) ==> e.kind_spec() == "owner id"@,
    {
        if is_blank(value) {
            return Err(IdentifierError::empty("owner id"));
        }
        Ok(OwnerId(value.to_owned()))
    }

    pub fn as_str(&self) -> (r: &str)
        ensures
            r@ == self@,
            !is_blank_spec(r@),
    {
        proof {
            use_type_invariant(self);
        }
        self.0.as_str()
    }

    /// Whether two owners are the same identity.
    pub fn same_as(&self, other: &OwnerId) -> (r: bool)
        ensures
            r == (self@ == other@),
    {
        crate::text::str_eq(self.0.as_str(), other.0.as_str())
    }
}

} // verus!
