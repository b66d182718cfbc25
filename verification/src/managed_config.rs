//! Managed configuration reconciliation over narrow file-host authority.
//!
//! Observes optional bytes, plans desired presence through the pure
//! reconciliation layer, and applies one resulting file effect. Does not parse
//! configuration, watch files, retry, schedule, or coordinate writers.

use vstd::prelude::*;

use crate::errors::{CodedError, ErrorCode};
use crate::host::{FileHost, FileReadAuthority, FileWriteAuthority};
use crate::reconcile::{plan as reconcile_presence, OwnerId, ReconcileAction};
use vstd::std_specs::cmp::PartialEqSpec;

verus! {

#[derive(Debug, Clone, PartialEq, Eq)]
pub struct ManagedConfigTarget {
    path: String,
    owner: OwnerId,
}

impl ManagedConfigTarget {
    pub closed spec fn path_spec(&self) -> Seq<char> {
        self.path@
    }

    pub closed spec fn owner_spec(&self) -> Seq<char> {
        self.owner@
    }

    pub fn new(path: &str, owner: OwnerId) -> (r: Self)
        ensures
            r.path_spec() == path@,
            r.owner_spec() == owner@,
    {
        ManagedConfigTarget { path: path.to_owned(), owner }
    }

    pub fn path(&self) -> (r: &str)
        ensures
            r@ == self.path_spec(),
    {
        self.path.as_str()
    }

    pub fn owner(&self) -> (r: &OwnerId)
        ensures
            r@ == self.owner_spec(),
    {
        &self.owner
    }
}

/// The planned effect, as data over byte contents.
pub open spec fn action_view(a: ReconcileAction<Vec<u8>>) -> ReconcileAction<Seq<u8>> {
    match a {
        ReconcileAction::Noop => ReconcileAction::Noop,
        ReconcileAction::Create(b) => ReconcileAction::Create(b@),
        ReconcileAction::Replace(b) => ReconcileAction::Replace(b@),
        ReconcileAction::Delete => ReconcileAction::Delete,
    }
}

/// Presence planning over contents: nothing when both are absent or equal,
/// create, replace or delete otherwise.
pub open spec fn presence_plan(desired: Option<Seq<u8>>, observed: Option<Seq<u8>>) -> ReconcileAction<Seq<u8>> {
    match (desired, observed) {
        (None, None) => ReconcileAction::Noop,
        (Some(d), None) => ReconcileAction::Create(d),
        (None, Some(_)) => ReconcileAction::Delete,
        (Some(d), Some(o)) => if d == o {
            ReconcileAction::Noop
        } else {
            ReconcileAction::Replace(d)
        },
    }
}

pub open spec fn bytes_view(b: Option<Vec<u8>>) -> Option<Seq<u8>> {
    match b {
        Some(v) => Some(v@),
        None => None,
    }
}

#[derive(Debug, Clone, PartialEq, Eq)]
pub struct ManagedConfigPlan {
    owner: OwnerId,
    action: ReconcileAction<Vec<u8>>,
}

impl ManagedConfigPlan {
    pub closed spec fn owner_spec(&self) -> Seq<char> {
        self.owner@
    }

    pub closed spec fn action_spec(&self) -> ReconcileAction<Seq<u8>> {
        action_view(self.action)
    }

    pub fn owner(&self) -> (r: &OwnerId)
        ensures
            r@ == self.owner_spec(),
    {
        &self.owner
    }

    pub fn action(&self) -> (r: &ReconcileAction<Vec<u8>>)
        ensures
            action_view(*r) == self.action_spec(),
    {
        &self.action
    }
}

#[derive(Debug, Clone, Copy, PartialEq, Eq, Structural)]
pub enum ManagedConfigApplyResult {
    Noop,
    Created,
    Replaced,
    Deleted,
}

/// The result that applying an action reports when its effect succeeds.
pub open spec fn applied(a: ReconcileAction<Seq<u8>>) -> ManagedConfigApplyResult {
    match a {
        ReconcileAction::Noop => ManagedConfigApplyResult::Noop,
        ReconcileAction::Create(_) => ManagedConfigApplyResult::Created,
        ReconcileAction::Replace(_) => ManagedConfigApplyResult::Replaced,
        ReconcileAction::Delete => ManagedConfigApplyResult::Deleted,
    }
}

#[derive(Debug)]
pub enum ManagedConfigError<E> {
    Host(E),
    OwnershipMismatch { expected: OwnerId, actual: OwnerId },
}

impl<E> ManagedConfigError<E> {
    /// The human-readable description; `host_detail` is the text of the
    /// host's own error, used only for a host failure.
    pub fn message(&self, host_detail: &str) -> (r: String)
        ensures
            self is Host ==> r@ == "managed configuration host error: "@ + host_detail@,
            self matches ManagedConfigError::OwnershipMismatch { expected, actual } ==> r@
                == "managed configuration ownership mismatch: expected "@ + expected@ + ", actual "@ + actual@,
    {
        match self {
            ManagedConfigError::Host(_) => "managed configuration host error: ".to_owned().concat(host_detail),
            ManagedConfigError::OwnershipMismatch { expected, actual } => "managed configuration ownership mismatch: expected ".to_owned()
                .concat(expected.as_str()).concat(", actual ").concat(actual.as_str()),
        }
    }

    /// The host's own error, where the host failed.
    pub fn source_error(&self) -> (r: Option<&E>)
        ensures
            match self {
                ManagedConfigError::Host(e) => r == Some(e),
                _ => r is None,
            },
    {
        match self {
            ManagedConfigError::Host(e) => Some(e),
            _ => None,
        }
    }
}

impl<E> ManagedConfigError<E> {
    /// The stable code of this error.
    pub open spec fn code_spec(&self) -> Seq<char> {
        match self {
            ManagedConfigError::Host(_) => "IO-MCONFIG-001"@,
            ManagedConfigError::OwnershipMismatch { .. } => "CON-MCONFIG-001"@,
        }
    }
}

impl<E> CodedError for ManagedConfigError<E> {
    fn code(&self) -> (r: ErrorCode)
        ensures
            r@ == self.code_spec(),
    {
        match self {
            ManagedConfigError::Host(_) => {
                proof {
                    reveal_strlit("IO-MCONFIG-001");
                    reveal_with_fuel(crate::errors::segments_ok, 10);
                    crate::errors::lemma_valid_code("IO-MCONFIG-001"@);
                }
                ErrorCode::new("IO-MCONFIG-001")
            },
            ManagedConfigError::OwnershipMismatch { .. } => {
                proof {
                    reveal_strlit("CON-MCONFIG-001");
                    reveal_with_fuel(crate::errors::segments_ok, 10);
                    crate::errors::lemma_valid_code("CON-MCONFIG-001"@);
                }
                ErrorCode::new("CON-MCONFIG-001")
            },
        }
    }
}

/// What a host read result is reported as: the bytes read, or the host's
/// error as `Host`.
pub open spec fn observation_of<E>(read: Result<Option<Vec<u8>>, E>) -> Result<Option<Vec<u8>>, ManagedConfigError<E>> {
    match read {
        Ok(b) => Ok(b),
        Err(e) => Err(ManagedConfigError::Host(e)),
    }
}

/// Whether `read` is a result that the host's `read_optional` may give for
/// `path` under `authority`.
pub open spec fn host_read<H: FileHost>(host: &H, authority: &FileReadAuthority, path: Seq<char>, read: Result<Option<Vec<u8>>, H::Error>) -> bool {
    exists|p: &str| p@ == path && call_ensures(H::read_optional, (host, authority, p), read)
}

/// Reads the target through the host; a host failure becomes `Host`.
pub fn observe<H: FileHost>(host: &H, authority: &FileReadAuthority, target: &ManagedConfigTarget) -> (r: Result<Option<Vec<u8>>, ManagedConfigError<H::Error>>)
    ensures
        r matches Err(e) ==> e is Host,
        exists|read: Result<Option<Vec<u8>>, H::Error>| host_read(host, authority, target.path_spec(), read) && r == observation_of(read),
{
    let path = target.path();
    let read = host.read_optional(authority, path);
    proof {
        assert(call_ensures(H::read_optional, (host, authority, path), read));
        assert(host_read(host, authority, target.path_spec(), read));
    }
    observed_outcome(read)
}

/// The observation reported for a host read result.
pub fn observed_outcome<E>(read: Result<Option<Vec<u8>>, E>) -> (r: Result<Option<Vec<u8>>, ManagedConfigError<E>>)
    ensures
        read matches Ok(b) ==> r matches Ok(x) && x == b,
        read matches Err(e) ==> r matches Err(ManagedConfigError::Host(x)) && x == e,
        r == observation_of(read),
{
    match read {
        Ok(bytes) => Ok(bytes),
        Err(e) => Err(ManagedConfigError::Host(e)),
    }
}

proof fn lemma_bytes_clone(a: Vec<u8>, b: Vec<u8>)
    requires
        a.len() == b.len(),
        forall|i| #![all_triggers] 0 <= i < a.len() ==> cloned::<u8>(a[i], b[i]),
    ensures
        a@ == b@,
{
    assert(a@ =~= b@);
}

/// Plans the effect that brings `observed` to `desired` for the target's owner.
pub fn plan(target: &ManagedConfigTarget, observed: &Option<Vec<u8>>, desired: &Option<Vec<u8>>) -> (r: ManagedConfigPlan)
    ensures
        r.owner_spec() == target.owner_spec(),
        r.action_spec() == presence_plan(bytes_view(*desired), bytes_view(*observed)),
{
    let action = reconcile_presence(desired.as_ref(), observed.as_ref());
    let ghost dd = *desired;
    let ghost oo = *observed;
    let ghost aa = action;
    proof {
        match (dd, oo) {
            (Some(d), Some(o)) => {
                if d@ == o@ {
                    assert(d.eq_spec(&o));
                } else {
                    if d.eq_spec(&o) {
                        assert(d@ =~= o@);
                    }
                }
                match aa {
                    ReconcileAction::Replace(x) => {
                        lemma_bytes_clone(d, x);
                    },
                    _ => {},
                }
            },
            (Some(d), None) => {
                match aa {
                    ReconcileAction::Create(x) => {
                        lemma_bytes_clone(d, x);
                    },
                    _ => {},
                }
            },
            _ => {},
        }
    }
    ManagedConfigPlan { owner: target.owner().clone(), action }
}

/// What applying `a` reports when its host effect returned `effect`.
pub open spec fn effect_outcome<E>(a: ReconcileAction<Seq<u8>>, effect: Result<(), E>) -> Result<ManagedConfigApplyResult, ManagedConfigError<E>> {
    match effect {
        Ok(_) => Ok(applied(a)),
        Err(e) => Err(ManagedConfigError::Host(e)),
    }
}

/// Whether `effect` is a result that the host's `write` may give for writing
/// `bytes` to `path` under `authority`.
pub open spec fn host_write<H: FileHost>(host: &H, authority: &FileWriteAuthority, path: Seq<char>, bytes: Seq<u8>, effect: Result<(), H::Error>) -> bool {
    exists|p: &str, b: &[u8]| p@ == path && b@ == bytes && call_ensures(H::write, (host, authority, p, b), effect)
}

/// Whether `effect` is a result that the host's `remove` may give for
/// removing `path` under `authority`.
pub open spec fn host_remove<H: FileHost>(host: &H, authority: &FileWriteAuthority, path: Seq<char>, effect: Result<(), H::Error>) -> bool {
    exists|p: &str| p@ == path && call_ensures(H::remove, (host, authority, p), effect)
}

/// `r` is what performing `action` on `path` through `host` gives: no host
/// call for `Noop`; one write of the planned bytes for `Create` and
/// `Replace`; one removal for `Delete`; the call's error becomes `Host`.
pub open spec fn performed<H: FileHost>(
    host: &H,
    authority: &FileWriteAuthority,
    path: Seq<char>,
    action: ReconcileAction<Seq<u8>>,
    r: Result<ManagedConfigApplyResult, ManagedConfigError<H::Error>>,
) -> bool {
    match action {
        ReconcileAction::Noop => r == Ok::<ManagedConfigApplyResult, ManagedConfigError<H::Error>>(ManagedConfigApplyResult::Noop),
        ReconcileAction::Create(b) => exists|e: Result<(), H::Error>| host_write(host, authority, path, b, e) && r == effect_outcome(action, e),
        ReconcileAction::Replace(b) => exists|e: Result<(), H::Error>| host_write(host, authority, path, b, e) && r == effect_outcome(action, e),
        ReconcileAction::Delete => exists|e: Result<(), H::Error>| host_remove(host, authority, path, e) && r == effect_outcome(action, e),
    }
}

/// The outcome of applying `action` given the result of its host effect.
pub fn applied_outcome<E>(action: &ReconcileAction<Vec<u8>>, effect: Result<(), E>) -> (r: Result<ManagedConfigApplyResult, ManagedConfigError<E>>)
    ensures
        effect is Ok ==> r == Ok::<ManagedConfigApplyResult, ManagedConfigError<E>>(applied(action_view(*action))),
        effect matches Err(e) ==> r matches Err(ManagedConfigError::Host(x)) && x == e,
        r == effect_outcome(action_view(*action), effect),
{
    match effect {
        Err(e) => Err(ManagedConfigError::Host(e)),
        Ok(()) => Ok(match action {
            ReconcileAction::Noop => ManagedConfigApplyResult::Noop,
            ReconcileAction::Create(_) => ManagedConfigApplyResult::Created,
            ReconcileAction::Replace(_) => ManagedConfigApplyResult::Replaced,
            ReconcileAction::Delete => ManagedConfigApplyResult::Deleted,
        }),
    }
}

/// Applies a plan to its target: a plan for another owner is refused before
/// any effect; `Noop` performs none; otherwise one write of the planned
/// bytes or one removal, at the target's path.
pub fn apply<H: FileHost>(host: &H, authority: &FileWriteAuthority, target: &ManagedConfigTarget, plan: &ManagedConfigPlan) -> (r: Result<ManagedConfigApplyResult, ManagedConfigError<H::Error>>)
    ensures
        plan.owner_spec() != target.owner_spec() ==> (r matches Err(ManagedConfigError::OwnershipMismatch { expected, actual })
            && expected@ == target.owner_spec() && actual@ == plan.owner_spec()),
        plan.owner_spec() == target.owner_spec() ==> {
            &&& plan.action_spec() is Noop ==> r == Ok::<ManagedConfigApplyResult, ManagedConfigError<H::Error>>(ManagedConfigApplyResult::Noop)
            &&& r matches Ok(res) ==> res == applied(plan.action_spec())
            &&& r matches Err(e) ==> e is Host
            &&& performed(host, authority, target.path_spec(), plan.action_spec(), r)
        },
{
    if !plan.owner().same_as(target.owner()) {
        return Err(ManagedConfigError::OwnershipMismatch { expected: target.owner().clone(), actual: plan.owner().clone() });
    }
    let path = target.path();
    match plan.action() {
        ReconcileAction::Noop => Ok(ManagedConfigApplyResult::Noop),
        ReconcileAction::Create(bytes) => {
            let b = bytes.as_slice();
            let e = host.write(authority, path, b);
            proof {
                assert(call_ensures(H::write, (host, authority, path, b), e));
                assert(host_write(host, authority, target.path_spec(), b@, e));
            }
            applied_outcome(plan.action(), e)
        },
        ReconcileAction::Replace(bytes) => {
            let b = bytes.as_slice();
            let e = host.write(authority, path, b);
            proof {
                assert(call_ensures(H::write, (host, authority, path, b), e));
                assert(host_write(host, authority, target.path_spec(), b@, e));
            }
            applied_outcome(plan.action(), e)
        },
        ReconcileAction::Delete => {
            let e = host.remove(authority, path);
            proof {
                assert(call_ensures(H::remove, (host, authority, path), e));
                assert(host_remove(host, authority, target.path_spec(), e));
            }
            applied_outcome(plan.action(), e)
        },
    }
}

/// The contents after performing `a` on contents `observed`.
pub open spec fn after_action(a: ReconcileAction<Seq<u8>>, observed: Option<Seq<u8>>) -> Option<Seq<u8>> {
    match a {
        ReconcileAction::Noop => observed,
        ReconcileAction::Create(d) => Some(d),
        ReconcileAction::Replace(d) => Some(d),
        ReconcileAction::Delete => None,
    }
}

/// Law: performing the planned effect brings the observed contents to the
/// desired ones, after which planning again yields no effect; and a plan is
/// a no-op exactly when the contents already are the desired ones.
pub proof fn lemma_plan_converges(desired: Option<Seq<u8>>, observed: Option<Seq<u8>>)
    ensures
        after_action(presence_plan(desired, observed), observed) == desired,
        presence_plan(desired, after_action(presence_plan(desired, observed), observed)) is Noop,
        presence_plan(desired, observed) is Noop <==> desired == observed,
{
}

} // verus!
