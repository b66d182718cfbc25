//! Deterministic caller-owned deadline and timer semantics.
//!
//! Callers supply absolute timestamps explicitly. This module does not read a
//! clock, sleep, schedule work, spawn tasks, or register global timers.

use vstd::prelude::*;

use crate::errors::{CodedError, ErrorCode};
use crate::text::{
    is_blank, is_blank_spec, lemma_seq_lt_irreflexive, lemma_seq_lt_total, lemma_seq_lt_transitive,
    seq_lt, str_eq, str_less,
};

verus! {

/// A point in time, in milliseconds on the caller's clock.
#[derive(Debug, Clone, Copy, PartialEq, Eq, Structural, PartialOrd, Ord, Hash)]
pub struct Timestamp(u64);

impl Timestamp {
    pub closed spec fn millis(self) -> u64 {
        self.0
    }

    pub fn from_millis(value: u64) -> (r: Self)
        ensures
            r.millis() == value,
    {
        Timestamp(value)
    }

    pub fn as_millis(self) -> (r: u64)
        ensures
            r == self.millis(),
    {
        self.0
    }
}

/// The moment at which something falls due.
#[derive(Debug, Clone, Copy, PartialEq, Eq, Structural, PartialOrd, Ord, Hash)]
pub struct Deadline(Timestamp);

impl Deadline {
    pub closed spec fn millis(self) -> u64 {
        self.0.millis()
    }

    pub open spec fn is_due_spec(self, now: Timestamp) -> bool {
        now.millis() >= self.millis()
    }

    pub fn at(timestamp: Timestamp) -> (r: Self)
        ensures
            r.millis() == timestamp.millis(),
    {
        Deadline(timestamp)
    }

    pub fn timestamp(self) -> (r: Timestamp)
        ensures
            r.millis() == self.millis(),
    {
        self.0
    }

    /// Due once the caller's `now` has reached the deadline.
    pub fn is_due(self, now: Timestamp) -> (r: bool)
        ensures
            r == self.is_due_spec(now),
    {
        now.0 >= self.0.0
    }
}

#[derive(Debug, PartialEq, Eq, PartialOrd, Ord, Hash)]
pub struct TimerId(String);

impl View for TimerId {
    type V = Seq<char>;

    closed spec fn view(&self) -> Seq<char> {
        self.0@
    }
}

impl Clone for TimerId {
    fn clone(&self) -> (r: Self)
        ensures
            r@ == self@,
    {
        proof {
            use_type_invariant(self);
        }
        TimerId(self.0.clone())
    }
}

impl TimerId {
    #[verifier::type_invariant]
    spec fn not_blank(self) -> bool {
        !is_blank_spec(self.0@)
    }

    /// Accepts any value that is not blank.
    pub fn new(value: &str) -> (r: Result<Self, TimerIdError>)
        ensures
            is_blank_spec(value@) <==> r is Err,
            r matches Ok(id) ==> id@ == value@,
    {
        if is_blank(value) {
            return Err(TimerIdError);
        }
        Ok(TimerId(value.to_owned()))
    }

    pub fn as_str(&self) -> (r: &str)
        ensures
            r@ == self@,
            !is_blank_spec(r@),
    {
        proof {
            use_type_invariant(self);
        }
        self.0.as_str()
    }
}

/// A timer identifier was blank.
#[derive(Debug, Clone, Copy, PartialEq, Eq)]
pub struct TimerIdError;

impl TimerIdError {
    pub fn message(&self) -> (r: String)
        ensures
            r@ == "timer identifier must not be empty"@,
    {
        "timer identifier must not be empty".to_owned()
    }
}

impl TimerIdError {
    /// The stable code of this error.
    pub open spec fn code_spec(&self) -> Seq<char> {
        "VAL-TIME-001"@
    }
}

impl CodedError for TimerIdError {
    fn code(&self) -> (r: ErrorCode)
        ensures
            r@ == self.code_spec(),
    {
        proof {
            reveal_strlit("VAL-TIME-001");
            reveal_with_fuel(crate::errors::segments_ok, 8);
            crate::errors::lemma_valid_code("VAL-TIME-001"@);
        }
        ErrorCode::new("VAL-TIME-001")
    }
}

/// Timer identifiers in strictly ascending order.
pub open spec fn ids_ascending(s: Seq<(TimerId, Deadline)>) -> bool {
    forall|i: int, j: int| 0 <= i < j < s.len() ==> seq_lt(#[trigger] s[i].0@, #[trigger] s[j].0@)
}

/// Some entry of `s` is armed under `k`.
pub open spec fn has_id(s: Seq<(TimerId, Deadline)>, k: Seq<char>) -> bool {
    exists|i: int| 0 <= i < s.len() && (#[trigger] s[i]).0@ == k
}

/// An index of `s` armed under `k`, where there is one.
pub open spec fn id_index(s: Seq<(TimerId, Deadline)>, k: Seq<char>) -> int {
    choose|i: int| 0 <= i < s.len() && (#[trigger] s[i]).0@ == k
}

/// The timers of `s` as a map from identifier to deadline.
pub open spec fn timer_map(s: Seq<(TimerId, Deadline)>) -> Map<Seq<char>, Deadline> {
    Map::new(|k: Seq<char>| has_id(s, k), |k: Seq<char>| s[id_index(s, k)].1)
}

/// In ascending order an entry is the only one with its identifier, so the
/// map holds its deadline.
pub proof fn lemma_timer_map_at(s: Seq<(TimerId, Deadline)>, i: int)
    requires
        ids_ascending(s),
        0 <= i < s.len(),
    ensures
        timer_map(s).contains_key(s[i].0@),
        timer_map(s)[s[i].0@] == s[i].1,
{
    let k = s[i].0@;
    assert(has_id(s, k));
    let j = id_index(s, k);
    if j < i {
        assert(seq_lt(s[j].0@, s[i].0@));
        lemma_seq_lt_irreflexive(k);
    } else if i < j {
        assert(seq_lt(s[i].0@, s[j].0@));
        lemma_seq_lt_irreflexive(k);
    }
    assert(j == i);
    assert(timer_map(s).contains_key(k));
    assert(timer_map(s)[k] == s[j].1);
}

/// Identifiers of `s` all order strictly before those from index `i` on,
/// when `key` orders before `s[i]`.
proof fn lemma_before_tail(s: Seq<(TimerId, Deadline)>, i: int, key: Seq<char>)
    requires
        ids_ascending(s),
        0 <= i < s.len(),
        seq_lt(key, s[i].0@),
    ensures
        forall|m: int| i <= m < s.len() ==> seq_lt(key, #[trigger] s[m].0@),
{
    assert forall|m: int| i <= m < s.len() implies seq_lt(key, #[trigger] s[m].0@) by {
        if m > i {
            lemma_seq_lt_transitive(key, s[i].0@, s[m].0@);
        }
    }
}

/// The ordering key of a timer: its identifier and deadline instant.
pub open spec fn due_key(e: (TimerId, Deadline)) -> (Seq<char>, u64) {
    (e.0@, e.1.millis())
}

/// `a` falls due before `b`: an earlier instant, or the same instant and a
/// smaller identifier.
pub open spec fn due_before(a: (Seq<char>, u64), b: (Seq<char>, u64)) -> bool {
    a.1 < b.1 || (a.1 == b.1 && seq_lt(a.0, b.0))
}

/// The timers of `m` that are not yet due at `now`.
pub open spec fn pending(m: Map<Seq<char>, Deadline>, now: Timestamp) -> Map<Seq<char>, Deadline> {
    Map::new(|k: Seq<char>| m.contains_key(k) && !m[k].is_due_spec(now), |k: Seq<char>| m[k])
}

/// Entries of `s` taken at the strictly increasing indices `src`.
pub open spec fn picked(out: Seq<(TimerId, Deadline)>, s: Seq<(TimerId, Deadline)>, src: Seq<int>) -> bool {
    &&& out.len() == src.len()
    &&& forall|a: int| 0 <= a < src.len() ==> 0 <= #[trigger] src[a] < s.len() && out[a] == s[src[a]]
    &&& forall|a: int, b: int| 0 <= a < b < src.len() ==> #[trigger] src[a] < #[trigger] src[b]
}

/// Splits `rest` into the entries not due and those due at `now`, each in
/// the order of `rest`.
fn split_due(rest: Vec<(TimerId, Deadline)>, now: Timestamp) -> (res: (
    Vec<(TimerId, Deadline)>,
    Vec<(TimerId, Deadline)>,
    Ghost<Seq<int>>,
    Ghost<Seq<int>>,
))
    ensures
        picked(res.0@, rest@, res.2@),
        picked(res.1@, rest@, res.3@),
        forall|a: int| 0 <= a < res.0@.len() ==> !(#[trigger] res.0@[a]).1.is_due_spec(now),
        forall|a: int| 0 <= a < res.1@.len() ==> (#[trigger] res.1@[a]).1.is_due_spec(now),
        forall|m: int| 0 <= m < rest@.len() && !(#[trigger] rest@[m]).1.is_due_spec(now) ==> exists|a: int| 0 <= a < res.2@.len() && #[trigger] res.2@[a] == m,
        forall|m: int| 0 <= m < rest@.len() && (#[trigger] rest@[m]).1.is_due_spec(now) ==> exists|a: int| 0 <= a < res.3@.len() && #[trigger] res.3@[a] == m,
{
    let ghost s = rest@;
    let mut rest = rest;
    let mut kept: Vec<(TimerId, Deadline)> = Vec::new();
    let mut due: Vec<(TimerId, Deadline)> = Vec::new();
    let ghost mut ksrc: Seq<int> = Seq::empty();
    let ghost mut dsrc: Seq<int> = Seq::empty();
    while rest.len() > 0
        invariant
            rest@.len() <= s.len(),
            rest@ == s.skip(s.len() - rest@.len()),
            picked(kept@, s, ksrc),
            picked(due@, s, dsrc),
            forall|a: int| 0 <= a < ksrc.len() ==> #[trigger] ksrc[a] < s.len() - rest@.len(),
            forall|a: int| 0 <= a < dsrc.len() ==> #[trigger] dsrc[a] < s.len() - rest@.len(),
            forall|a: int| 0 <= a < kept@.len() ==> !(#[trigger] kept@[a]).1.is_due_spec(now),
            forall|a: int| 0 <= a < due@.len() ==> (#[trigger] due@[a]).1.is_due_spec(now),
            forall|m: int| 0 <= m < s.len() - rest@.len() && !(#[trigger] s[m]).1.is_due_spec(now) ==> exists|a: int| 0 <= a < ksrc.len() && #[trigger] ksrc[a] == m,
            forall|m: int| 0 <= m < s.len() - rest@.len() && (#[trigger] s[m]).1.is_due_spec(now) ==> exists|a: int| 0 <= a < dsrc.len() && #[trigger] dsrc[a] == m,
        decreases rest.len(),
    {
        let ghost n = s.len() - rest@.len();
        let e = rest.remove(0);
        proof {
            assert(e == s[n]);
            assert(rest@ =~= s.skip(n + 1));
        }
        if e.1.is_due(now) {
            due.push(e);
            proof {
                let prev = dsrc;
                dsrc = dsrc.push(n);
                assert forall|m: int| 0 <= m < n + 1 && (#[trigger] s[m]).1.is_due_spec(now) implies exists|a: int| 0 <= a < dsrc.len() && #[trigger] dsrc[a] == m by {
                    if m == n {
                        assert(dsrc[dsrc.len() - 1] == m);
                    } else {
                        assert(s[m] == s[m]);
                        let a = choose|a: int| 0 <= a < prev.len() && #[trigger] prev[a] == m;
                        assert(dsrc[a] == m);
                    }
                }
                assert forall|m: int| 0 <= m < n + 1 && !(#[trigger] s[m]).1.is_due_spec(now) implies exists|a: int| 0 <= a < ksrc.len() && #[trigger] ksrc[a] == m by {
                    assert(m != n);
                }
            }
        } else {
            kept.push(e);
            proof {
                let prev = ksrc;
                ksrc = ksrc.push(n);
                assert forall|m: int| 0 <= m < n + 1 && !(#[trigger] s[m]).1.is_due_spec(now) implies exists|a: int| 0 <= a < ksrc.len() && #[trigger] ksrc[a] == m by {
                    if m == n {
                        assert(ksrc[ksrc.len() - 1] == m);
                    } else {
                        assert(s[m] == s[m]);
                        let a = choose|a: int| 0 <= a < prev.len() && #[trigger] prev[a] == m;
                        assert(ksrc[a] == m);
                    }
                }
                assert forall|m: int| 0 <= m < n + 1 && (#[trigger] s[m]).1.is_due_spec(now) implies exists|a: int| 0 <= a < dsrc.len() && #[trigger] dsrc[a] == m by {
                    assert(m != n);
                }
            }
        }
    }
    (kept, due, Ghost(ksrc), Ghost(dsrc))
}

/// Entries in strictly ascending `due_before` order.
pub open spec fn in_due_order(s: Seq<(TimerId, Deadline)>) -> bool {
    forall|a: int, b: int| 0 <= a < b < s.len() ==> due_before(due_key(#[trigger] s[a]), due_key(#[trigger] s[b]))
}

/// The first index of `out` whose instant is later than `millis`, given
/// that `out` is in due order.
fn insertion_point(out: &Vec<(TimerId, Deadline)>, millis: u64) -> (p: usize)
    requires
        in_due_order(out@),
    ensures
        p <= out@.len(),
        forall|a: int| 0 <= a < p ==> (#[trigger] out@[a]).1.millis() <= millis,
        forall|a: int| p <= a < out@.len() ==> (#[trigger] out@[a]).1.millis() > millis,
{
    let mut p: usize = 0;
    while p < out.len()
        invariant
            p <= out@.len(),
            in_due_order(out@),
            forall|a: int| 0 <= a < p ==> (#[trigger] out@[a]).1.millis() <= millis,
        decreases out.len() - p,
    {
        if out[p].1.timestamp().as_millis() > millis {
            proof {
                assert forall|a: int| p <= a < out@.len() implies (#[trigger] out@[a]).1.millis() > millis by {
                    if a > p {
                        assert(due_before(due_key(out@[p as int]), due_key(out@[a])));
                    }
                }
            }
            return p;
        }
        p = p + 1;
    }
    p
}

/// Reorders entries with ascending identifiers into due order.
fn order_due(due: Vec<(TimerId, Deadline)>) -> (res: (Vec<(TimerId, Deadline)>, Ghost<Seq<int>>))
    requires
        ids_ascending(due@),
    ensures
        in_due_order(res.0@),
        res.0@.len() == res.1@.len(),
        forall|a: int| 0 <= a < res.1@.len() ==> 0 <= #[trigger] res.1@[a] < due@.len() && res.0@[a] == due@[res.1@[a]],
        forall|a: int, b: int| 0 <= a < b < res.1@.len() ==> #[trigger] res.1@[a] != #[trigger] res.1@[b],
        forall|m: int| 0 <= m < due@.len() ==> #[trigger] res.1@.contains(m),
{
    let ghost d = due@;
    let mut pend = due;
    let mut out: Vec<(TimerId, Deadline)> = Vec::new();
    let ghost mut osrc: Seq<int> = Seq::empty();
    while pend.len() > 0
        invariant
            pend@.len() <= d.len(),
            pend@ == d.skip(d.len() - pend@.len()),
            ids_ascending(d),
            in_due_order(out@),
            out@.len() == osrc.len(),
            forall|a: int| 0 <= a < osrc.len() ==> 0 <= #[trigger] osrc[a] < d.len() - pend@.len() && out@[a] == d[osrc[a]],
            forall|a: int, b: int| 0 <= a < b < osrc.len() ==> #[trigger] osrc[a] != #[trigger] osrc[b],
            forall|m: int| 0 <= m < d.len() - pend@.len() ==> #[trigger] osrc.contains(m),
        decreases pend.len(),
    {
        let ghost n = d.len() - pend@.len();
        let e = pend.remove(0);
        proof {
            assert(e == d[n]);
            assert(pend@ =~= d.skip(n + 1));
        }
        let p = insertion_point(&out, e.1.timestamp().as_millis());
        let ghost before = out@;
        let ghost prev = osrc;
        out.insert(p, e);
        proof {
            osrc = osrc.insert(p as int, n);
            let t = out@;
            assert forall|a: int, b: int| 0 <= a < b < t.len() implies due_before(due_key(#[trigger] t[a]), due_key(#[trigger] t[b])) by {
                if b < p {
                    assert(t[a] == before[a] && t[b] == before[b]);
                } else if b == p {
                    assert(t[a] == before[a] && t[b] == e);
                    if before[a].1.millis() == e.1.millis() {
                        assert(before[a] == d[prev[a]]);
                        assert(seq_lt(d[prev[a]].0@, d[n].0@));
                    }
                } else if a < p {
                    assert(t[a] == before[a] && t[b] == before[b - 1]);
                } else if a == p {
                    assert(t[a] == e && t[b] == before[b - 1]);
                } else {
                    assert(t[a] == before[a - 1] && t[b] == before[b - 1]);
                }
            }
            assert forall|a: int| 0 <= a < osrc.len() implies 0 <= #[trigger] osrc[a] < n + 1 && out@[a] == d[osrc[a]] by {
                if a < p {
                    assert(osrc[a] == prev[a]);
                } else if a > p {
                    assert(osrc[a] == prev[a - 1]);
                }
            }
            assert forall|a: int, b: int| 0 <= a < b < osrc.len() implies #[trigger] osrc[a] != #[trigger] osrc[b] by {
                if a < p && b < p {
                    assert(osrc[a] == prev[a] && osrc[b] == prev[b]);
                } else if a < p && b > p {
                    assert(osrc[a] == prev[a] && osrc[b] == prev[b - 1]);
                } else if a > p {
                    assert(osrc[a] == prev[a - 1] && osrc[b] == prev[b - 1]);
                } else if a < p && b == p {
                    assert(osrc[a] == prev[a]);
                } else {
                    assert(osrc[b] == prev[b - 1]);
                }
            }
            assert forall|m: int| 0 <= m < n + 1 implies #[trigger] osrc.contains(m) by {
                if m == n {
                    assert(osrc[p as int] == m);
                } else {
                    assert(prev.contains(m));
                    let a = choose|a: int| 0 <= a < prev.len() && prev[a] == m;
                    if a < p {
                        assert(osrc[a] == m);
                    } else {
                        assert(osrc[a + 1] == m);
                    }
                }
            }
        }
    }
    (out, Ghost(osrc))
}

/// The identifiers of `entries`, in order.
fn ids_of(entries: Vec<(TimerId, Deadline)>) -> (r: Vec<TimerId>)
    ensures
        r@.len() == entries@.len(),
        forall|a: int| 0 <= a < r@.len() ==> #[trigger] r@[a] == entries@[a].0,
{
    let ghost d = entries@;
    let mut pend = entries;
    let mut r: Vec<TimerId> = Vec::new();
    while pend.len() > 0
        invariant
            pend@.len() <= d.len(),
            pend@ == d.skip(d.len() - pend@.len()),
            r@.len() == d.len() - pend@.len(),
            forall|a: int| 0 <= a < r@.len() ==> #[trigger] r@[a] == d[a].0,
        decreases pend.len(),
    {
        let ghost n = d.len() - pend@.len();
        let (id, _) = pend.remove(0);
        proof {
            assert(pend@ =~= d.skip(n + 1));
        }
        r.push(id);
    }
    r
}

/// The identifier texts of `ids`, in order.
pub open spec fn id_views(ids: Seq<TimerId>) -> Seq<Seq<char>> {
    ids.map_values(|t: TimerId| t@)
}

/// A set of armed timers, each identifier at most once.
#[derive(Debug)]
pub struct TimerSet {
    timers: Vec<(TimerId, Deadline)>,
}

impl View for TimerSet {
    type V = Map<Seq<char>, Deadline>;

    closed spec fn view(&self) -> Map<Seq<char>, Deadline> {
        timer_map(self.timers@)
    }
}

impl TimerSet {
    #[verifier::type_invariant]
    spec fn ascending(self) -> bool {
        ids_ascending(self.timers@)
    }

    pub fn new() -> (r: Self)
        ensures
            r@ == Map::<Seq<char>, Deadline>::empty(),
    {
        let r = TimerSet { timers: Vec::new() };
        proof {
            assert(r@ =~= Map::<Seq<char>, Deadline>::empty());
        }
        r
    }

    /// The first index whose identifier does not order before `key`.
    fn position(timers: &Vec<(TimerId, Deadline)>, key: &str) -> (i: usize)
        requires
            ids_ascending(timers@),
        ensures
            i <= timers@.len(),
            forall|j: int| 0 <= j < i ==> seq_lt(#[trigger] timers@[j].0@, key@),
            i < timers@.len() ==> !seq_lt(timers@[i as int].0@, key@),
    {
        let mut i: usize = 0;
        while i < timers.len()
            invariant
                i <= timers@.len(),
                forall|j: int| 0 <= j < i ==> seq_lt(#[trigger] timers@[j].0@, key@),
            decreases timers.len() - i,
        {
            if !str_less(timers[i].0.as_str(), key) {
                return i;
            }
            i = i + 1;
        }
        i
    }

    /// Arms `id` at `deadline`, returning the deadline it replaced.
    pub fn arm(&mut self, id: TimerId, deadline: Deadline) -> (r: Option<Deadline>)
        ensures
            final(self)@ == old(self)@.insert(id@, deadline),
            r == (if old(self)@.contains_key(id@) { Some(old(self)@[id@]) } else { None::<Deadline> }),
    {
        proof {
            use_type_invariant(&*self);
        }
        let mut v: Vec<(TimerId, Deadline)> = Vec::new();
        std::mem::swap(&mut v, &mut self.timers);
        let ghost s = v@;
        let i = Self::position(&v, id.as_str());
        if i < v.len() && str_eq(v[i].0.as_str(), id.as_str()) {
            let previous = v[i].1;
            let ghost key = id@;
            v.set(i, (id, deadline));
            proof {
                let t = v@;
                assert forall|a: int, b: int| 0 <= a < b < t.len() implies seq_lt(#[trigger] t[a].0@, #[trigger] t[b].0@) by {
                    assert(s[a].0@ == t[a].0@ && s[b].0@ == t[b].0@);
                }
                lemma_timer_map_at(s, i as int);
                lemma_timer_map_at(t, i as int);
                assert forall|k: Seq<char>| #[trigger] has_id(t, k) <==> (k == key || has_id(s, k)) by {
                    if has_id(s, k) {
                        let j = choose|j: int| 0 <= j < s.len() && (#[trigger] s[j]).0@ == k;
                        assert(t[j].0@ == k);
                    }
                    if has_id(t, k) {
                        let j = choose|j: int| 0 <= j < t.len() && (#[trigger] t[j]).0@ == k;
                        assert(s[j].0@ == k);
                    }
                }
                assert forall|k: Seq<char>| k != key && has_id(s, k) implies #[trigger] timer_map(t)[k] == timer_map(s)[k] by {
                    let j = choose|j: int| 0 <= j < s.len() && (#[trigger] s[j]).0@ == k;
                    lemma_timer_map_at(s, j);
                    lemma_timer_map_at(t, j);
                }
                assert(timer_map(t) =~= timer_map(s).insert(key, deadline));
            }
            self.timers = v;
            Some(previous)
        } else {
            let ghost key = id@;
            proof {
                if i < s.len() {
                    lemma_seq_lt_total(s[i as int].0@, key);
                    lemma_before_tail(s, i as int, key);
                }
                assert forall|j: int| 0 <= j < s.len() implies (#[trigger] s[j]).0@ != key by {
                    if j < i {
                        lemma_seq_lt_irreflexive(key);
                    } else {
                        assert(seq_lt(key, s[j].0@));
                        lemma_seq_lt_irreflexive(key);
                    }
                }
                assert(!has_id(s, key));
            }
            v.insert(i, (id, deadline));
            proof {
                let t = v@;
                assert forall|a: int, b: int| 0 <= a < b < t.len() implies seq_lt(#[trigger] t[a].0@, #[trigger] t[b].0@) by {
                    if b < i {
                        assert(t[a] == s[a] && t[b] == s[b]);
                    } else if b == i {
                        assert(t[a] == s[a]);
                    } else if a < i {
                        assert(t[a] == s[a] && t[b] == s[b - 1]);
                        lemma_seq_lt_transitive(s[a].0@, key, s[b - 1].0@);
                    } else if a == i {
                        assert(t[b] == s[b - 1]);
                    } else {
                        assert(t[a] == s[a - 1] && t[b] == s[b - 1]);
                    }
                }
                lemma_timer_map_at(t, i as int);
                assert forall|k: Seq<char>| #[trigger] has_id(t, k) <==> (k == key || has_id(s, k)) by {
                    if has_id(s, k) {
                        let j = choose|j: int| 0 <= j < s.len() && (#[trigger] s[j]).0@ == k;
                        if j < i {
                            assert(t[j] == s[j]);
                        } else {
                            assert(t[j + 1] == s[j]);
                        }
                    }
                    if has_id(t, k) && k != key {
                        let j = choose|j: int| 0 <= j < t.len() && (#[trigger] t[j]).0@ == k;
                        if j < i {
                            assert(s[j] == t[j]);
                        } else {
                            assert(s[j - 1] == t[j]);
                        }
                    }
                }
                assert forall|k: Seq<char>| k != key && has_id(s, k) implies #[trigger] timer_map(t)[k] == timer_map(s)[k] by {
                    let j = choose|j: int| 0 <= j < s.len() && (#[trigger] s[j]).0@ == k;
                    lemma_timer_map_at(s, j);
                    if j < i {
                        assert(t[j] == s[j]);
                        lemma_timer_map_at(t, j);
                    } else {
                        assert(t[j + 1] == s[j]);
                        lemma_timer_map_at(t, j + 1);
                    }
                }
                assert(timer_map(t) =~= timer_map(s).insert(key, deadline));
            }
            self.timers = v;
            None
        }
    }

    /// Disarms `id`, returning its deadline if it was armed.
    pub fn cancel(&mut self, id: &TimerId) -> (r: Option<Deadline>)
        ensures
            final(self)@ == old(self)@.remove(id@),
            r == (if old(self)@.contains_key(id@) { Some(old(self)@[id@]) } else { None::<Deadline> }),
    {
        proof {
            use_type_invariant(&*self);
        }
        let mut v: Vec<(TimerId, Deadline)> = Vec::new();
        std::mem::swap(&mut v, &mut self.timers);
        let ghost s = v@;
        let ghost key = id@;
        let i = Self::position(&v, id.as_str());
        if i < v.len() && str_eq(v[i].0.as_str(), id.as_str()) {
            let (_, previous) = v.remove(i);
            proof {
                let t = v@;
                assert forall|a: int, b: int| 0 <= a < b < t.len() implies seq_lt(#[trigger] t[a].0@, #[trigger] t[b].0@) by {
                    if b < i {
                        assert(t[a] == s[a] && t[b] == s[b]);
                    } else if a < i {
                        assert(t[a] == s[a] && t[b] == s[b + 1]);
                    } else {
                        assert(t[a] == s[a + 1] && t[b] == s[b + 1]);
                    }
                }
                lemma_timer_map_at(s, i as int);
                assert forall|k: Seq<char>| #[trigger] has_id(t, k) <==> (k != key && has_id(s, k)) by {
                    if has_id(s, k) && k != key {
                        let j = choose|j: int| 0 <= j < s.len() && (#[trigger] s[j]).0@ == k;
                        if j < i {
                            assert(t[j] == s[j]);
                        } else {
                            assert(j != i);
                            assert(t[j - 1] == s[j]);
                        }
                    }
                    if has_id(t, k) {
                        let j = choose|j: int| 0 <= j < t.len() && (#[trigger] t[j]).0@ == k;
                        if j < i {
                            assert(s[j] == t[j]);
                            assert(seq_lt(s[j].0@, s[i as int].0@));
                        } else {
                            assert(s[j + 1] == t[j]);
                            assert(seq_lt(s[i as int].0@, s[j + 1].0@));
                        }
                        lemma_seq_lt_irreflexive(key);
                    }
                }
                assert forall|k: Seq<char>| k != key && has_id(s, k) implies #[trigger] timer_map(t)[k] == timer_map(s)[k] by {
                    let j = choose|j: int| 0 <= j < s.len() && (#[trigger] s[j]).0@ == k;
                    lemma_timer_map_at(s, j);
                    if j < i {
                        assert(t[j] == s[j]);
                        lemma_timer_map_at(t, j);
                    } else {
                        assert(j != i);
                        assert(t[j - 1] == s[j]);
                        lemma_timer_map_at(t, j - 1);
                    }
                }
                assert(timer_map(t) =~= timer_map(s).remove(key));
            }
            self.timers = v;
            Some(previous)
        } else {
            proof {
                if i < s.len() {
                    lemma_seq_lt_total(s[i as int].0@, key);
                    lemma_before_tail(s, i as int, key);
                }
                assert forall|j: int| 0 <= j < s.len() implies (#[trigger] s[j]).0@ != key by {
                    if j < i {
                        lemma_seq_lt_irreflexive(key);
                    } else {
                        assert(seq_lt(key, s[j].0@));
                        lemma_seq_lt_irreflexive(key);
                    }
                }
                assert(!has_id(s, key));
                assert(timer_map(s) =~= timer_map(s).remove(key));
            }
            self.timers = v;
            None
        }
    }

    /// The earliest armed deadline.
    pub fn next_deadline(&self) -> (r: Option<Deadline>)
        ensures
            r is None <==> self@.dom() == Set::<Seq<char>>::empty(),
            r matches Some(d) ==> exists|k: Seq<char>| #[trigger] self@.contains_key(k) && self@[k] == d,
            r matches Some(d) ==> forall|k: Seq<char>| #[trigger] self@.contains_key(k) ==> d.millis() <= self@[k].millis(),
    {
        proof {
            use_type_invariant(self);
        }
        let ghost s = self.timers@;
        if self.timers.len() == 0 {
            proof {
                assert(self@.dom() =~= Set::<Seq<char>>::empty());
            }
            return None;
        }
        let mut best: Deadline = self.timers[0].1;
        let mut at: usize = 0;
        let mut i: usize = 1;
        while i < self.timers.len()
            invariant
                s == self.timers@,
                1 <= i <= s.len(),
                at < i,
                best == s[at as int].1,
                forall|j: int| 0 <= j < i ==> best.millis() <= (#[trigger] s[j]).1.millis(),
            decreases s.len() - i,
        {
            if self.timers[i].1.timestamp().as_millis() < best.timestamp().as_millis() {
                best = self.timers[i].1;
                at = i;
            }
            i = i + 1;
        }
        proof {
            lemma_timer_map_at(s, at as int);
            assert(self@.contains_key(s[at as int].0@));
            assert forall|k: Seq<char>| #[trigger] self@.contains_key(k) implies best.millis() <= self@[k].millis() by {
                let j = id_index(s, k);
                lemma_timer_map_at(s, j);
            }
        }
        Some(best)
    }

    /// Removes every timer due at `now` and returns their identifiers,
    /// earliest deadline first and, at equal deadlines, in identifier order.
    pub fn drain_due(&mut self, now: Timestamp) -> (r: Vec<TimerId>)
        ensures
            final(self)@ == pending(old(self)@, now),
            forall|k: Seq<char>| #[trigger] id_views(r@).contains(k) <==> (old(self)@.contains_key(k) && old(self)@[k].is_due_spec(now)),
            forall|i: int, j: int| 0 <= i < j < r@.len() ==> due_before(
                (#[trigger] id_views(r@)[i], old(self)@[id_views(r@)[i]].millis()),
                (#[trigger] id_views(r@)[j], old(self)@[id_views(r@)[j]].millis()),
            ),
    {
        proof {
            use_type_invariant(&*self);
        }
        let mut v: Vec<(TimerId, Deadline)> = Vec::new();
        std::mem::swap(&mut v, &mut self.timers);
        let ghost s = v@;
        let ghost m = timer_map(s);
        let (kept, due, Ghost(ksrc), Ghost(dsrc)) = split_due(v, now);
        proof {
            assert forall|a: int, b: int| 0 <= a < b < kept@.len() implies seq_lt(#[trigger] kept@[a].0@, #[trigger] kept@[b].0@) by {
                assert(ksrc[a] < ksrc[b]);
            }
            assert forall|a: int, b: int| 0 <= a < b < due@.len() implies seq_lt(#[trigger] due@[a].0@, #[trigger] due@[b].0@) by {
                assert(dsrc[a] < dsrc[b]);
            }
        }
        let ghost dq = due@;
        let (out, Ghost(osrc)) = order_due(due);
        let ghost oq = out@;
        let r = ids_of(out);
        proof {
            let kq = kept@;
            assert forall|a: int| 0 <= a < oq.len() implies m.contains_key(#[trigger] oq[a].0@) && m[oq[a].0@] == oq[a].1 && oq[a].1.is_due_spec(now) by {
                let x = dsrc[osrc[a]];
                assert(oq[a] == dq[osrc[a]]);
                assert(dq[osrc[a]] == s[x]);
                lemma_timer_map_at(s, x);
            }
            assert forall|k: Seq<char>| #[trigger] has_id(kq, k) <==> (m.contains_key(k) && !m[k].is_due_spec(now)) by {
                if has_id(kq, k) {
                    let a = choose|a: int| 0 <= a < kq.len() && (#[trigger] kq[a]).0@ == k;
                    lemma_timer_map_at(s, ksrc[a]);
                }
                if m.contains_key(k) && !m[k].is_due_spec(now) {
                    let j = id_index(s, k);
                    lemma_timer_map_at(s, j);
                    assert(!s[j].1.is_due_spec(now));
                    let a = choose|a: int| 0 <= a < ksrc.len() && #[trigger] ksrc[a] == j;
                    assert(kq[a].0@ == k);
                }
            }
            assert forall|k: Seq<char>| has_id(kq, k) implies #[trigger] timer_map(kq)[k] == m[k] by {
                let a = choose|a: int| 0 <= a < kq.len() && (#[trigger] kq[a]).0@ == k;
                lemma_timer_map_at(s, ksrc[a]);
                lemma_timer_map_at(kq, a);
            }
            assert(timer_map(kq) =~= pending(m, now));
            let ids = id_views(r@);
            assert forall|i: int| 0 <= i < ids.len() implies #[trigger] ids[i] == oq[i].0@ by {
                assert(r@[i] == oq[i].0);
            }
            assert forall|k: Seq<char>| #[trigger] ids.contains(k) <==> (m.contains_key(k) && m[k].is_due_spec(now)) by {
                if ids.contains(k) {
                    let i = choose|i: int| 0 <= i < ids.len() && ids[i] == k;
                    assert(ids[i] == oq[i].0@);
                    assert(m.contains_key(oq[i].0@));
                }
                if m.contains_key(k) && m[k].is_due_spec(now) {
                    let j = id_index(s, k);
                    lemma_timer_map_at(s, j);
                    let a = choose|a: int| 0 <= a < dsrc.len() && #[trigger] dsrc[a] == j;
                    assert(osrc.contains(a));
                    let i = choose|i: int| 0 <= i < osrc.len() && osrc[i] == a;
                    assert(oq[i] == dq[a]);
                    assert(ids[i] == k);
                }
            }
            assert forall|i: int, j: int| 0 <= i < j < ids.len() implies due_before(
                (#[trigger] ids[i], m[ids[i]].millis()),
                (#[trigger] ids[j], m[ids[j]].millis()),
            ) by {
                assert(due_before(due_key(oq[i]), due_key(oq[j])));
                assert(m.contains_key(oq[i].0@));
                assert(m.contains_key(oq[j].0@));
            }
        }
        self.timers = kept;
        r
    }
}

/// Law: once the due timers are drained at `now`, none of the remaining
/// ones is due at `now`, so draining again at the same time removes nothing.
pub proof fn lemma_drained_set_has_nothing_due(m: Map<Seq<char>, Deadline>, now: Timestamp)
    ensures
        forall|k: Seq<char>| #[trigger] pending(m, now).contains_key(k) ==> !pending(m, now)[k].is_due_spec(now),
        pending(pending(m, now), now) == pending(m, now),
{
    assert(pending(pending(m, now), now) =~= pending(m, now));
}

/// Law: cancelling a timer right after arming it hands back the deadline
/// just armed and leaves the other timers as they were before arming.
pub proof fn lemma_cancel_undoes_arm(m: Map<Seq<char>, Deadline>, k: Seq<char>, d: Deadline)
    ensures
        m.insert(k, d).contains_key(k),
        m.insert(k, d)[k] == d,
        m.insert(k, d).remove(k) == m.remove(k),
{
    assert(m.insert(k, d).remove(k) =~= m.remove(k));
}

} // verus!
