//! Universal application and execution identity plus opaque composition.
//!
//! This module owns no capability, policy, authority, lifecycle, diagnostic,
//! I/O, runtime, serialization, or provider semantics.

use vstd::prelude::*;

use crate::text::{is_blank, is_blank_spec};

verus! {

/// An identifier was blank (empty after trimming white space).
#[derive(Debug, Clone, PartialEq, Eq)]
pub struct IdentifierError {
    kind: &'static str,
}

impl IdentifierError {
    pub closed spec fn kind_spec(&self) -> Seq<char> {
        self.kind@
    }

    pub(crate) fn empty(kind: &'static str) -> (r: Self)
        ensures
            r.kind_spec() == kind@,
    {
        IdentifierError { kind }
    }

    pub fn kind(&self) -> (r: &'static str)
        ensures
            r@ == self.kind_spec(),
    {
        self.kind
    }

    /// The human-readable description: `<kind> must not be empty`.
    pub fn message(&self) -> (r: String)
        ensures
            r@ == self.kind_spec() + " must not be empty"@,
    {
        let s = self.kind.to_owned();
        s.concat(" must not be empty")
    }
}

#[derive(Debug, PartialEq, Eq, PartialOrd, Ord, Hash)]
pub struct ApplicationId(String);

impl Clone for ApplicationId {
    fn clone(&self) -> (r: Self)
        ensures
            r@ == self@,
    {
        proof {
            use_type_invariant(self);
        }
        ApplicationId(self.0.clone())
    }
}

impl View for ApplicationId {
    type V = Seq<char>;

    closed spec fn view(&self) -> Seq<char> {
        self.0@
    }
}

impl ApplicationId {
    #[verifier::type_invariant]
    spec fn not_blank(self) -> bool {
        !is_blank_spec(self.0@)
    }

    /// Accepts any value that is not blank.
    pub fn new(value: &str) -> (r: Result<Self, IdentifierError>)
        ensures
            is_blank_spec(value@) <==> r is Err,
            r matches Ok(id) ==> id@ == value@,
            r matches Err(e) ==> e.kind_spec() == "application id"@,
    {
        if is_blank(value) {
            return Err(IdentifierError::empty("application id"));
        }
        Ok(ApplicationId(value.to_owned()))
    }

    pub fn as_str(&self) -> (r: &str)
        ensures
            r@ == self@,
            !is_blank_spec(r@),
    {
        proof {
            use_type_invariant(self);
        }
        self.0.as_str()
    }

    /// The displayed form: the identifier itself.
    pub fn to_string(&self) -> (r: String)
        ensures
            r@ == self@,
    {
        self.0.clone()
    }
}

#[derive(Debug, PartialEq, Eq, PartialOrd, Ord, Hash)]
pub struct ExecutionId(String);

impl Clone for ExecutionId {
    fn clone(&self) -> (r: Self)
        ensures
            r@ == self@,
    {
        proof {
            use_type_invariant(self);
        }
        ExecutionId(self.0.clone())
    }
}

impl View for ExecutionId {
    type V = Seq<char>;

    closed spec fn view(&self) -> Seq<char> {
        self.0@
    }
}

impl ExecutionId {
    #[verifier::type_invariant]
    spec fn not_blank(self) -> bool {
        !is_blank_spec(self.0@)
    }

    pub fn new(value: &str) -> (r: Result<Self, IdentifierError>)
        ensures
            is_blank_spec(value@) <==> r is Err,
            r matches Ok(id) ==> id@ == value@,
            r matches Err(e) ==> e.kind_spec() == "execution id"@,
    {
        if is_blank(value) {
            return Err(IdentifierError::empty("execution id"));
        }
        Ok(ExecutionId(value.to_owned()))
    }

    pub fn as_str(&self) -> (r: &str)
        ensures
            r@ == self@,
            !is_blank_spec(r@),
    {
        proof {
            use_type_invariant(self);
        }
        self.0.as_str()
    }

    pub fn to_string(&self) -> (r: String)
        ensures
            r@ == self@,
    {
        self.0.clone()
    }
}

#[derive(Debug, PartialEq, Eq, PartialOrd, Ord, Hash)]
pub struct CorrelationId(String);

impl Clone for CorrelationId {
    fn clone(&self) -> (r: Self)
        ensures
            r@ == self@,
    {
        proof {
            use_type_invariant(self);
        }
        CorrelationId(self.0.clone())
    }
}

impl View for CorrelationId {
    type V = Seq<char>;

    closed spec fn view(&self) -> Seq<char> {
        self.0@
    }
}

impl CorrelationId {
    #[verifier::type_invariant]
    spec fn not_blank(self) -> bool {
        !is_blank_spec(self.0@)
    }

    pub fn new(value: &str) -> (r: Result<Self, IdentifierError>)
        ensures
            is_blank_spec(value@) <==> r is Err,
            r matches Ok(id) ==> id@ == value@,
            r matches Err(e) ==> e.kind_spec() == "correlation id"@,
    {
        if is_blank(value) {
            return Err(IdentifierError::empty("correlation id"));
        }
        Ok(CorrelationId(value.to_owned()))
    }

    pub fn as_str(&self) -> (r: &str)
        ensures
            r@ == self@,
            !is_blank_spec(r@),
    {
        proof {
            use_type_invariant(self);
        }
        self.0.as_str()
    }

    pub fn to_string(&self) -> (r: String)
        ensures
            r@ == self@,
    {
        self.0.clone()
    }
}

/// Identity of one execution: no runtime semantics.
#[derive(Debug, Clone, PartialEq, Eq)]
pub struct ExecutionContext {
    execution_id: ExecutionId,
    correlation_id: CorrelationId,
}

impl ExecutionContext {
    pub closed spec fn execution_id_spec(&self) -> ExecutionId {
        self.execution_id
    }

    pub closed spec fn correlation_id_spec(&self) -> CorrelationId {
        self.correlation_id
    }

    pub fn new(execution_id: ExecutionId, correlation_id: CorrelationId) -> (r: Self)
        ensures
            r.execution_id_spec() == execution_id,
            r.correlation_id_spec() == correlation_id,
    {
        ExecutionContext { execution_id, correlation_id }
    }

    pub fn execution_id(&self) -> (r: &ExecutionId)
        ensures
            *r == self.execution_id_spec(),
    {
        &self.execution_id
    }

    pub fn correlation_id(&self) -> (r: &CorrelationId)
        ensures
            *r == self.correlation_id_spec(),
    {
        &self.correlation_id
    }
}

/// An application identity with an opaque caller-chosen composition.
#[derive(Debug, Clone, PartialEq, Eq)]
pub struct Application<C> {
    id: ApplicationId,
    composition: C,
}

impl<C> Application<C> {
    pub closed spec fn id_spec(&self) -> ApplicationId {
        self.id
    }

    pub closed spec fn composition_spec(&self) -> C {
        self.composition
    }

    pub fn new(id: ApplicationId, composition: C) -> (r: Self)
        ensures
            r.id_spec() == id,
            r.composition_spec() == composition,
    {
        Application { id, composition }
    }

    pub fn id(&self) -> (r: &ApplicationId)
        ensures
            *r == self.id_spec(),
    {
        &self.id
    }

    pub fn composition(&self) -> (r: &C)
        ensures
            *r == self.composition_spec(),
    {
        &self.composition
    }

    /// Mutable access to the caller-owned composition; the identity is kept.
    pub fn composition_mut(&mut self) -> (r: &mut C)
        ensures
            *r == old(self).composition_spec(),
            final(self).id_spec() == old(self).id_spec(),
            final(self).composition_spec() == *final(r),
    {
        &mut self.composition
    }

    pub fn into_composition(self) -> (r: C)
        ensures
            r == self.composition_spec(),
    {
        self.composition
    }

    /// Replaces the composition by `map` of it, keeping the identity.
    pub fn map<D, F: FnOnce(C) -> D>(self, map: F) -> (r: Application<D>)
        requires
            map.requires((self.composition_spec(),)),
        ensures
            r.id_spec() == self.id_spec(),
            map.ensures((self.composition_spec(),), r.composition_spec()),
    {
        let composition = map(self.composition);
        Application { id: self.id, composition }
    }
}

} // verus!
