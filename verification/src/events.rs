//! Caller-owned ordered domain-event streams with explicit retention policy.
//!
//! Owns event identity, correlation/causation metadata, monotonic sequence
//! assignment, bounded in-memory retention and cursor paging. It is not a
//! bus, broker, publisher, subscription registry, durable store or transport.

use std::collections::VecDeque;

use vstd::prelude::*;

use crate::errors::{CodedError, ErrorCode};
use crate::identity::CorrelationId;
use crate::text::{decimal, is_blank, is_blank_spec, push_decimal, push_str, string_from_chars};

verus! {

/// An event identifier was blank.
#[derive(Debug, Clone, Copy, PartialEq, Eq)]
pub struct EventIdError(&'static str);

impl EventIdError {
    pub closed spec fn label_spec(&self) -> Seq<char> {
        self.0@
    }

    pub fn label(&self) -> (r: &'static str)
        ensures
            r@ == self.label_spec(),
    {
        self.0
    }

    pub fn message(&self) -> (r: String)
        ensures
            r@ == self.label_spec() + " must not be empty"@,
    {
        self.0.to_owned().concat(" must not be empty")
    }
}

impl EventIdError {
    /// The stable code of this error.
    pub open spec fn code_spec(&self) -> Seq<char> {
        "VAL-EVENT-001"@
    }
}

impl CodedError for EventIdError {
    fn code(&self) -> (r: ErrorCode)
        ensures
            r@ == self.code_spec(),
    {
        proof {
            reveal_strlit("VAL-EVENT-001");
            reveal_with_fuel(crate::errors::segments_ok, 8);
            crate::errors::lemma_valid_code("VAL-EVENT-001"@);
        }
        ErrorCode::new("VAL-EVENT-001")
    }
}

#[derive(Debug, PartialEq, Eq, PartialOrd, Ord, Hash)]
pub struct EventId(String);

impl View for EventId {
    type V = Seq<char>;

    closed spec fn view(&self) -> Seq<char> {
        self.0@
    }
}

impl Clone for EventId {
    fn clone(&self) -> (r: Self)
        ensures
            r@ == self@,
    {
        proof {
            use_type_invariant(self);
        }
        EventId(self.0.clone())
    }
}

impl EventId {
    #[verifier::type_invariant]
    spec fn not_blank(self) -> bool {
        !is_blank_spec(self.0@)
    }

    pub fn new(value: &str) -> (r: Result<Self, EventIdError>)
        ensures
            is_blank_spec(value@) <==> r is Err,
            r matches Ok(id) ==> id@ == value@,
            r matches Err(e) ==> e.label_spec() == "event id"@,
    {
        if is_blank(value) {
            return Err(EventIdError("event id"));
        }
        Ok(EventId(value.to_owned()))
    }

    pub fn as_str(&self) -> (r: &str)
        ensures
            r@ == self@,
            !is_blank_spec(r@),
    {
        proof {
            use_type_invariant(self);
        }
        self.0.as_str()
    }

    /// The identifier text.
    pub fn to_string(&self) -> (r: String)
        ensures
            r@ == self@,
    {
        self.0.clone()
    }
}

#[derive(Debug, PartialEq, Eq, PartialOrd, Ord, Hash)]
pub struct EventStreamId(String);

impl View for EventStreamId {
    type V = Seq<char>;

    closed spec fn view(&self) -> Seq<char> {
        self.0@
    }
}

impl Clone for EventStreamId {
    fn clone(&self) -> (r: Self)
        ensures
            r@ == self@,
    {
        proof {
            use_type_invariant(self);
        }
        EventStreamId(self.0.clone())
    }
}

impl EventStreamId {
    #[verifier::type_invariant]
    spec fn not_blank(self) -> bool {
        !is_blank_spec(self.0@)
    }

    pub fn new(value: &str) -> (r: Result<Self, EventIdError>)
        ensures
            is_blank_spec(value@) <==> r is Err,
            r matches Ok(id) ==> id@ == value@,
            r matches Err(e) ==> e.label_spec() == "event stream id"@,
    {
        if is_blank(value) {
            return Err(EventIdError("event stream id"));
        }
        Ok(EventStreamId(value.to_owned()))
    }

    pub fn as_str(&self) -> (r: &str)
        ensures
            r@ == self@,
            !is_blank_spec(r@),
    {
        proof {
            use_type_invariant(self);
        }
        self.0.as_str()
    }

    /// The identifier text.
    pub fn to_string(&self) -> (r: String)
        ensures
            r@ == self@,
    {
        self.0.clone()
    }
}

#[derive(Debug, PartialEq, Eq, PartialOrd, Ord, Hash)]
pub struct CausationId(String);

impl View for CausationId {
    type V = Seq<char>;

    closed spec fn view(&self) -> Seq<char> {
        self.0@
    }
}

impl Clone for CausationId {
    fn clone(&self) -> (r: Self)
        ensures
            r@ == self@,
    {
        proof {
            use_type_invariant(self);
        }
        CausationId(self.0.clone())
    }
}

impl CausationId {
    #[verifier::type_invariant]
    spec fn not_blank(self) -> bool {
        !is_blank_spec(self.0@)
    }

    pub fn new(value: &str) -> (r: Result<Self, EventIdError>)
        ensures
            is_blank_spec(value@) <==> r is Err,
            r matches Ok(id) ==> id@ == value@,
            r matches Err(e) ==> e.label_spec() == "causation id"@,
    {
        if is_blank(value) {
            return Err(EventIdError("causation id"));
        }
        Ok(CausationId(value.to_owned()))
    }

    pub fn as_str(&self) -> (r: &str)
        ensures
            r@ == self@,
            !is_blank_spec(r@),
    {
        proof {
            use_type_invariant(self);
        }
        self.0.as_str()
    }

    /// The identifier text.
    pub fn to_string(&self) -> (r: String)
        ensures
            r@ == self@,
    {
        self.0.clone()
    }
}

/// Position of an event in its stream; the first event is 1.
#[derive(Debug, Clone, Copy, PartialEq, Eq, Structural, PartialOrd, Ord, Hash)]
pub struct EventSequence(u64);

impl EventSequence {
    pub closed spec fn value(self) -> u64 {
        self.0
    }

    pub fn new(value: u64) -> (r: Self)
        ensures
            r.value() == value,
    {
        EventSequence(value)
    }

    pub fn get(self) -> (r: u64)
        ensures
            r == self.value(),
    {
        self.0
    }
}

/// The last sequence a reader has seen; 0 before the first event.
#[derive(Debug, Clone, Copy, Default, PartialEq, Eq, Structural, PartialOrd, Ord, Hash)]
pub struct EventCursor(u64);

impl EventCursor {
    pub closed spec fn value(self) -> u64 {
        self.0
    }

    pub fn start() -> (r: Self)
        ensures
            r.value() == 0,
    {
        EventCursor(0)
    }

    pub fn new(last_seen_sequence: u64) -> (r: Self)
        ensures
            r.value() == last_seen_sequence,
    {
        EventCursor(last_seen_sequence)
    }

    pub fn from_sequence(sequence: EventSequence) -> (r: Self)
        ensures
            r.value() == sequence.value(),
            r == EventCursor::from_sequence_spec(sequence.value()),
    {
        EventCursor(sequence.get())
    }

    pub fn get(self) -> (r: u64)
        ensures
            r == self.value(),
    {
        self.0
    }
}

/// Retention policy: unbounded, or keep at most a positive number of the
/// most recent events.
#[derive(Debug, Clone, Copy, PartialEq, Eq, Structural)]
pub struct EventPolicy {
    retention_limit: Option<usize>,
}

impl EventPolicy {
    #[verifier::type_invariant]
    spec fn positive_limit(self) -> bool {
        self.retention_limit matches Some(n) ==> n > 0
    }

    pub closed spec fn limit(self) -> Option<usize> {
        self.retention_limit
    }

    pub fn unbounded() -> (r: Self)
        ensures
            r.limit() is None,
    {
        EventPolicy { retention_limit: None }
    }

    pub fn bounded(retention_limit: usize) -> (r: Result<Self, EventStreamError>)
        ensures
            retention_limit == 0 ==> r == Err::<Self, EventStreamError>(EventStreamError::ZeroRetentionLimit),
            retention_limit > 0 ==> (r matches Ok(p) && p.limit() == Some(retention_limit)),
    {
        if retention_limit == 0 {
            return Err(EventStreamError::ZeroRetentionLimit);
        }
        Ok(EventPolicy { retention_limit: Some(retention_limit) })
    }

    pub fn retention_limit(self) -> (r: Option<usize>)
        ensures
            r == self.limit(),
            r matches Some(n) ==> n > 0,
    {
        proof {
            use_type_invariant(self);
        }
        self.retention_limit
    }
}

impl Default for EventPolicy {
    fn default() -> (r: Self)
        ensures
            r.limit() is None,
    {
        EventPolicy::unbounded()
    }
}

/// One event with its identity and metadata.
#[derive(Debug, Clone, PartialEq, Eq)]
pub struct EventEnvelope<E> {
    event_id: EventId,
    stream_id: EventStreamId,
    sequence: EventSequence,
    correlation_id: CorrelationId,
    causation_id: Option<CausationId>,
    payload: E,
}

pub open spec fn causation_view(c: Option<CausationId>) -> Option<Seq<char>> {
    match c {
        Some(id) => Some(id@),
        None => None,
    }
}

impl<E> EventEnvelope<E> {
    pub closed spec fn event_id_spec(&self) -> Seq<char> {
        self.event_id@
    }

    pub closed spec fn stream_id_spec(&self) -> Seq<char> {
        self.stream_id@
    }

    pub closed spec fn sequence_spec(&self) -> u64 {
        self.sequence.0
    }

    pub closed spec fn correlation_id_spec(&self) -> Seq<char> {
        self.correlation_id@
    }

    pub closed spec fn causation_id_spec(&self) -> Option<Seq<char>> {
        causation_view(self.causation_id)
    }

    pub closed spec fn payload_spec(&self) -> E {
        self.payload
    }

    pub fn event_id(&self) -> (r: &EventId)
        ensures
            r@ == self.event_id_spec(),
    {
        &self.event_id
    }

    pub fn stream_id(&self) -> (r: &EventStreamId)
        ensures
            r@ == self.stream_id_spec(),
    {
        &self.stream_id
    }

    pub fn sequence(&self) -> (r: EventSequence)
        ensures
            r.value() == self.sequence_spec(),
    {
        self.sequence
    }

    pub fn correlation_id(&self) -> (r: &CorrelationId)
        ensures
            r@ == self.correlation_id_spec(),
    {
        &self.correlation_id
    }

    pub fn causation_id(&self) -> (r: Option<&CausationId>)
        ensures
            match self.causation_id_spec() {
                Some(c) => r matches Some(id) && id@ == c,
                None => r is None,
            },
    {
        match &self.causation_id {
            Some(id) => Some(id),
            None => None,
        }
    }

    pub fn payload(&self) -> (r: &E)
        ensures
            *r == self.payload_spec(),
    {
        &self.payload
    }
}

#[derive(Debug, Clone, PartialEq, Eq, Structural)]
pub enum EventStreamError {
    ZeroRetentionLimit,
    ZeroPageLimit,
    CursorExpired { cursor: EventCursor, oldest_available: EventSequence },
    CursorAhead { cursor: EventCursor, latest_available: EventSequence },
    SequenceExhausted,
}

impl EventStreamError {
    pub open spec fn message_spec(&self) -> Seq<char> {
        match self {
            EventStreamError::ZeroRetentionLimit => "event retention limit must be greater than zero"@,
            EventStreamError::ZeroPageLimit => "event page limit must be greater than zero"@,
            EventStreamError::CursorExpired { cursor, oldest_available } => "event cursor "@ + decimal(
                cursor.value() as nat,
            ) + " expired; oldest available sequence is "@ + decimal(oldest_available.value() as nat),
            EventStreamError::CursorAhead { cursor, latest_available } => "event cursor "@ + decimal(
                cursor.value() as nat,
            ) + " is ahead of latest available sequence "@ + decimal(latest_available.value() as nat),
            EventStreamError::SequenceExhausted => "event sequence space is exhausted"@,
        }
    }

    /// The human-readable description of the error.
    pub fn message(&self) -> (r: String)
        ensures
            r@ == self.message_spec(),
    {
        match self {
            EventStreamError::ZeroRetentionLimit => "event retention limit must be greater than zero".to_owned(),
            EventStreamError::ZeroPageLimit => "event page limit must be greater than zero".to_owned(),
            EventStreamError::CursorExpired { cursor, oldest_available } => {
                let mut out: Vec<char> = Vec::new();
                push_str("event cursor ", &mut out);
                push_decimal(cursor.get() as u128, &mut out);
                push_str(" expired; oldest available sequence is ", &mut out);
                push_decimal(oldest_available.get() as u128, &mut out);
                string_from_chars(out.as_slice())
            },
            EventStreamError::CursorAhead { cursor, latest_available } => {
                let mut out: Vec<char> = Vec::new();
                push_str("event cursor ", &mut out);
                push_decimal(cursor.get() as u128, &mut out);
                push_str(" is ahead of latest available sequence ", &mut out);
                push_decimal(latest_available.get() as u128, &mut out);
                string_from_chars(out.as_slice())
            },
            EventStreamError::SequenceExhausted => "event sequence space is exhausted".to_owned(),
        }
    }
}

impl EventStreamError {
    /// The stable code of this error.
    pub open spec fn code_spec(&self) -> Seq<char> {
        match self {
            EventStreamError::ZeroRetentionLimit => "VAL-EVENT-002"@,
            EventStreamError::ZeroPageLimit => "VAL-EVENT-003"@,
            EventStreamError::CursorExpired { .. } => "CON-EVENT-001"@,
            EventStreamError::CursorAhead { .. } => "CON-EVENT-002"@,
            EventStreamError::SequenceExhausted => "RES-EVENT-001"@,
        }
    }
}

impl CodedError for EventStreamError {
    fn code(&self) -> (r: ErrorCode)
        ensures
            r@ == self.code_spec(),
    {
        match self {
            EventStreamError::ZeroRetentionLimit => {
                proof {
                    reveal_strlit("VAL-EVENT-002");
                    reveal_with_fuel(crate::errors::segments_ok, 8);
                    crate::errors::lemma_valid_code("VAL-EVENT-002"@);
                }
                ErrorCode::new("VAL-EVENT-002")
            },
            EventStreamError::ZeroPageLimit => {
                proof {
                    reveal_strlit("VAL-EVENT-003");
                    reveal_with_fuel(crate::errors::segments_ok, 8);
                    crate::errors::lemma_valid_code("VAL-EVENT-003"@);
                }
                ErrorCode::new("VAL-EVENT-003")
            },
            EventStreamError::CursorExpired { .. } => {
                proof {
                    reveal_strlit("CON-EVENT-001");
                    reveal_with_fuel(crate::errors::segments_ok, 8);
                    crate::errors::lemma_valid_code("CON-EVENT-001"@);
                }
                ErrorCode::new("CON-EVENT-001")
            },
            EventStreamError::CursorAhead { .. } => {
                proof {
                    reveal_strlit("CON-EVENT-002");
                    reveal_with_fuel(crate::errors::segments_ok, 8);
                    crate::errors::lemma_valid_code("CON-EVENT-002"@);
                }
                ErrorCode::new("CON-EVENT-002")
            },
            EventStreamError::SequenceExhausted => {
                proof {
                    reveal_strlit("RES-EVENT-001");
                    reveal_with_fuel(crate::errors::segments_ok, 8);
                    crate::errors::lemma_valid_code("RES-EVENT-001"@);
                }
                ErrorCode::new("RES-EVENT-001")
            },
        }
    }
}

/// A page of retained events after a cursor.
#[derive(Debug)]
pub struct EventPage<'a, E> {
    events: Vec<&'a EventEnvelope<E>>,
    next_cursor: EventCursor,
    has_more: bool,
}

impl<'a, E> EventPage<'a, E> {
    pub closed spec fn events_spec(&self) -> Seq<EventEnvelope<E>> {
        self.events@.map_values(|e: &'a EventEnvelope<E>| *e)
    }

    pub closed spec fn next_cursor_spec(&self) -> EventCursor {
        self.next_cursor
    }

    pub closed spec fn has_more_spec(&self) -> bool {
        self.has_more
    }

    pub fn events(&self) -> (r: &[&'a EventEnvelope<E>])
        ensures
            r@.map_values(|e: &'a EventEnvelope<E>| *e) == self.events_spec(),
    {
        self.events.as_slice()
    }

    pub fn next_cursor(&self) -> (r: EventCursor)
        ensures
            r == self.next_cursor_spec(),
    {
        self.next_cursor
    }

    pub fn has_more(&self) -> (r: bool)
        ensures
            r == self.has_more_spec(),
    {
        self.has_more
    }
}

/// The events of `s`, in order, whose sequence is after `cursor`.
pub open spec fn events_after<E>(s: Seq<EventEnvelope<E>>, cursor: u64) -> Seq<EventEnvelope<E>>
    decreases s.len(),
{
    if s.len() == 0 {
        Seq::empty()
    } else if s[0].sequence_spec() > cursor {
        seq![s[0]] + events_after(s.drop_first(), cursor)
    } else {
        events_after(s.drop_first(), cursor)
    }
}

/// Sequences of `s` are `first`, `first + 1`, ... in order.
pub open spec fn consecutive_from<E>(s: Seq<EventEnvelope<E>>, first: int) -> bool {
    forall|i: int| 0 <= i < s.len() ==> (#[trigger] s[i]).sequence_spec() == first + i
}

proof fn lemma_events_after<E>(s: Seq<EventEnvelope<E>>, first: int, cursor: u64)
    requires
        consecutive_from(s, first),
    ensures
        cursor < first ==> events_after(s, cursor) == s,
        first <= cursor && cursor + 1 - first < s.len() ==> events_after(s, cursor) == s.skip(cursor + 1 - first),
        first <= cursor && cursor + 1 - first >= s.len() ==> events_after(s, cursor).len() == 0,
    decreases s.len(),
{
    if s.len() > 0 {
        let t = s.drop_first();
        assert(consecutive_from(t, first + 1)) by {
            assert forall|i: int| 0 <= i < t.len() implies (#[trigger] t[i]).sequence_spec() == first + 1 + i by {
                assert(t[i] == s[i + 1]);
            }
        }
        lemma_events_after(t, first + 1, cursor);
        assert(s[0].sequence_spec() == first);
        if cursor < first {
            assert(seq![s[0]] + t =~= s);
        } else if cursor + 1 - first < s.len() {
            if cursor == first {
                assert(t =~= s.skip(1));
            } else {
                assert(t.skip(cursor + 1 - (first + 1)) =~= s.skip(cursor + 1 - first));
            }
        }
    }
}

/// Law: when a page of `count` events is taken after `cursor` from a stream
/// whose sequences are consecutive, the next page, taken after the last
/// sequence of this one, starts with exactly the events this page left out,
/// so successive pages visit every retained event once and in order; and
/// that next cursor lies between the oldest and the latest retained
/// sequence, where a page is always served.
pub proof fn lemma_next_page_continues<E>(s: Seq<EventEnvelope<E>>, first: int, cursor: u64, count: int)
    requires
        consecutive_from(s, first),
        first - 1 <= cursor,
        0 < count <= events_after(s, cursor).len(),
    ensures
        events_after(s, events_after(s, cursor)[count - 1].sequence_spec()) == events_after(s, cursor).skip(count),
        s.len() > 0,
        s[0].sequence_spec() <= events_after(s, cursor)[count - 1].sequence_spec() <= s.last().sequence_spec(),
{
    lemma_events_after(s, first, cursor);
    let a = events_after(s, cursor);
    let k = cursor + 1 - first;
    assert(a == s.skip(k)) by {
        if cursor < first {
            assert(s.skip(0) =~= s);
        }
    }
    assert(a[count - 1] == s[k + count - 1]);
    let next = a[count - 1].sequence_spec();
    assert(next == cursor + count);
    lemma_events_after(s, first, next);
    if next + 1 - first < s.len() {
        assert(s.skip(next + 1 - first) =~= a.skip(count));
    } else {
        assert(a.skip(count).len() == 0);
    }
}

/// Number of events kept after appending to `len` events under `limit`.
pub open spec fn kept_after_append(len: nat, limit: Option<usize>) -> nat {
    match limit {
        Some(n) => if len + 1 > n { n as nat } else { len + 1 },
        None => len + 1,
    }
}

/// An ordered stream of events with monotonic sequences and explicit retention.
#[derive(Debug)]
pub struct EventStream<E> {
    stream_id: EventStreamId,
    events: VecDeque<EventEnvelope<E>>,
    next_sequence: u64,
    policy: EventPolicy,
}

impl<E> EventStream<E> {
    /// Retained events carry the stream's identity and consecutive sequences
    /// ending just before the next one to assign; a bounded policy's limit is
    /// respected.
    #[verifier::type_invariant]
    spec fn well_formed(self) -> bool {
        &&& self.next_sequence >= 1
        &&& self.events@.len() < self.next_sequence
        &&& consecutive_from(self.events@, self.next_sequence - self.events@.len())
        &&& forall|i: int| 0 <= i < self.events@.len() ==> (#[trigger] self.events@[i]).stream_id_spec() == self.stream_id@
        &&& self.policy.limit() matches Some(n) ==> self.events@.len() <= n
    }

    pub closed spec fn events_spec(&self) -> Seq<EventEnvelope<E>> {
        self.events@
    }

    /// Retained events have consecutive sequences ending just before the
    /// next sequence, and all carry the stream's identity.
    pub open spec fn retained_in_order(&self) -> bool {
        &&& self.events_spec().len() < self.next_sequence_spec()
        &&& self.policy_spec().limit() matches Some(n) ==> self.events_spec().len() <= n
        &&& consecutive_from(self.events_spec(), self.next_sequence_spec() - self.events_spec().len())
        &&& forall|i: int| 0 <= i < self.events_spec().len() ==> (#[trigger] self.events_spec()[i]).stream_id_spec() == self.stream_id_spec()
    }

    pub closed spec fn next_sequence_spec(&self) -> u64 {
        self.next_sequence
    }

    pub closed spec fn stream_id_spec(&self) -> Seq<char> {
        self.stream_id@
    }

    pub closed spec fn policy_spec(&self) -> EventPolicy {
        self.policy
    }

    pub fn new(stream_id: EventStreamId, policy: EventPolicy) -> (r: Self)
        ensures
            r.events_spec().len() == 0,
            r.next_sequence_spec() == 1,
            r.stream_id_spec() == stream_id@,
            r.policy_spec() == policy,
            r.retained_in_order(),
    {
        EventStream { stream_id, events: VecDeque::new(), next_sequence: 1, policy }
    }

    /// An empty stream whose next event gets `next_sequence`, for resuming
    /// numbering where an earlier stream left off.
    pub fn resume(stream_id: EventStreamId, policy: EventPolicy, next_sequence: u64) -> (r: Self)
        requires
            next_sequence >= 1,
        ensures
            r.events_spec().len() == 0,
            r.next_sequence_spec() == next_sequence,
            r.stream_id_spec() == stream_id@,
            r.policy_spec() == policy,
            r.retained_in_order(),
    {
        EventStream { stream_id, events: VecDeque::new(), next_sequence, policy }
    }

    pub fn stream_id(&self) -> (r: &EventStreamId)
        ensures
            r@ == self.stream_id_spec(),
    {
        &self.stream_id
    }

    pub fn policy(&self) -> (r: EventPolicy)
        ensures
            r == self.policy_spec(),
    {
        self.policy
    }

    /// The sequence the next appended event will get.
    pub fn next_sequence(&self) -> (r: u64)
        ensures
            r == self.next_sequence_spec(),
    {
        self.next_sequence
    }

    pub fn len(&self) -> (r: usize)
        ensures
            r == self.events_spec().len(),
    {
        self.events.len()
    }

    pub fn is_empty(&self) -> (r: bool)
        ensures
            r == (self.events_spec().len() == 0),
    {
        self.events.len() == 0
    }

    pub fn oldest_sequence(&self) -> (r: Option<EventSequence>)
        ensures
            self.events_spec().len() == 0 ==> r is None,
            self.events_spec().len() > 0 ==> (r matches Some(s) && s.value() == self.events_spec()[0].sequence_spec()),
    {
        if self.events.len() == 0 {
            None
        } else {
            Some(self.events[0].sequence())
        }
    }

    pub fn last_sequence(&self) -> (r: Option<EventSequence>)
        ensures
            self.events_spec().len() == 0 ==> r is None,
            self.events_spec().len() > 0 ==> (r matches Some(s) && s.value() == self.events_spec().last().sequence_spec()),
    {
        if self.events.len() == 0 {
            None
        } else {
            Some(self.events[self.events.len() - 1].sequence())
        }
    }

    /// The retained event at `index`, oldest first.
    pub fn get(&self, index: usize) -> (r: Option<&EventEnvelope<E>>)
        ensures
            index < self.events_spec().len() ==> r == Some(&self.events_spec()[index as int]),
            index >= self.events_spec().len() ==> r is None,
            self.retained_in_order(),
    {
        proof {
            use_type_invariant(self);
        }
        if index < self.events.len() {
            Some(&self.events[index])
        } else {
            None
        }
    }

    /// The retained events, oldest first.
    pub fn iter(&self) -> (r: std::collections::vec_deque::Iter<'_, EventEnvelope<E>>)
        ensures
            vstd::std_specs::iter::IteratorSpec::remaining(&r) == self.events_spec().as_ref(),
            self.retained_in_order(),
    {
        proof {
            use_type_invariant(self);
            broadcast use vstd::std_specs::vecdeque::group_vec_dequeue_axioms;
        }
        self.events.iter()
    }

    /// Appends an event with the next sequence; a bounded stream then drops
    /// its oldest events beyond the limit. The sequence space never wraps:
    /// when it is exhausted nothing changes.
    pub fn append(&mut self, event_id: EventId, correlation_id: CorrelationId, causation_id: Option<CausationId>, payload: E) -> (r: Result<EventSequence, EventStreamError>)
        ensures
            final(self).stream_id_spec() == old(self).stream_id_spec(),
            final(self).policy_spec() == old(self).policy_spec(),
            final(self).retained_in_order(),
            old(self).next_sequence_spec() == u64::MAX ==> {
                &&& r == Err::<EventSequence, EventStreamError>(EventStreamError::SequenceExhausted)
                &&& final(self).events_spec() == old(self).events_spec()
                &&& final(self).next_sequence_spec() == old(self).next_sequence_spec()
            },
            old(self).next_sequence_spec() < u64::MAX ==> {
                let n = old(self).events_spec().len() + 1;
                let k = kept_after_append(old(self).events_spec().len(), old(self).policy_spec().limit());
                let e = final(self).events_spec();
                &&& r matches Ok(s) && s.value() == old(self).next_sequence_spec()
                &&& final(self).next_sequence_spec() == old(self).next_sequence_spec() + 1
                &&& e.len() == k
                &&& forall|i: int| 0 <= i < k - 1 ==> #[trigger] e[i] == old(self).events_spec()[n - k + i]
                &&& e.last().event_id_spec() == event_id@
                &&& e.last().stream_id_spec() == old(self).stream_id_spec()
                &&& e.last().sequence_spec() == old(self).next_sequence_spec()
                &&& e.last().correlation_id_spec() == correlation_id@
                &&& e.last().causation_id_spec() == causation_view(causation_id)
                &&& e.last().payload_spec() == payload
            },
    {
        proof {
            use_type_invariant(&*self);
        }
        if self.next_sequence == u64::MAX {
            return Err(EventStreamError::SequenceExhausted);
        }
        let sequence = EventSequence::new(self.next_sequence);
        let next_sequence = self.next_sequence + 1;
        let limit = self.policy.retention_limit();
        let ghost old_events = self.events@;
        let mut events: VecDeque<EventEnvelope<E>> = VecDeque::new();
        std::mem::swap(&mut events, &mut self.events);
        let envelope = EventEnvelope {
            event_id,
            stream_id: self.stream_id.clone(),
            sequence,
            correlation_id,
            causation_id,
            payload,
        };
        events.push_back(envelope);
        let ghost appended = events@;
        match limit {
            Some(limit) => {
                while events.len() > limit
                    invariant
                        limit > 0,
                        limit >= old_events.len(),
                        appended == old_events.push(envelope),
                        events@.len() <= appended.len(),
                        appended.len() <= limit + 1,
                        events@.len() >= limit || events@.len() == appended.len(),
                        events@ == appended.skip(appended.len() - events@.len()),
                    decreases events.len(),
                {
                    events.pop_front();
                    proof {
                        assert(events@ =~= appended.skip(appended.len() - events@.len()));
                    }
                }
            },
            None => {},
        }
        proof {
            assert(appended.skip(0) =~= appended);
            let n = appended.len();
            let k = events@.len();
            assert forall|i: int| 0 <= i < k implies (#[trigger] events@[i]).sequence_spec() == next_sequence - k + i by {
                assert(events@[i] == appended[n - k + i]);
            }
            assert forall|i: int| 0 <= i < k implies (#[trigger] events@[i]).stream_id_spec() == self.stream_id@ by {
                assert(events@[i] == appended[n - k + i]);
            }
            assert forall|i: int| 0 <= i < k - 1 implies #[trigger] events@[i] == old_events[n - k + i] by {
                assert(events@[i] == appended[n - k + i]);
            }
            assert(events@.last() == envelope);
        }
        self.next_sequence = next_sequence;
        self.events = events;
        Ok(sequence)
    }

    /// At most `limit` retained events after `cursor`, oldest first.
    pub fn page_after(&self, cursor: EventCursor, limit: usize) -> (r: Result<EventPage<'_, E>, EventStreamError>)
        ensures
            self.retained_in_order(),
            limit == 0 ==> r == Err::<EventPage<'_, E>, EventStreamError>(EventStreamError::ZeroPageLimit),
            limit > 0 && self.events_spec().len() == 0 && cursor.value() > 0 ==> (r matches Err(
                EventStreamError::CursorAhead { cursor: c, latest_available: l },
            ) && c == cursor && l.value() == 0),
            limit > 0 && self.events_spec().len() > 0 && cursor.value() + 1 < self.events_spec()[0].sequence_spec() ==> (r matches Err(
                EventStreamError::CursorExpired { cursor: c, oldest_available: o },
            ) && c == cursor && o.value() == self.events_spec()[0].sequence_spec()),
            limit > 0 && self.events_spec().len() > 0 && cursor.value() + 1 >= self.events_spec()[0].sequence_spec()
                && cursor.value() > self.events_spec().last().sequence_spec() ==> (r matches Err(
                EventStreamError::CursorAhead { cursor: c, latest_available: l },
            ) && c == cursor && l.value() == self.events_spec().last().sequence_spec()),
            r matches Ok(page) ==> {
                let after = events_after(self.events_spec(), cursor.value());
                let count = if after.len() < limit { after.len() } else { limit as nat };
                &&& page.events_spec() == after.take(count as int)
                &&& page.next_cursor_spec() == (if count == 0 { cursor } else { EventCursor::from_sequence_spec(after[count - 1].sequence_spec()) })
                &&& page.next_cursor_spec().value() == (if count == 0 { cursor.value() } else { after[count - 1].sequence_spec() })
                &&& page.has_more_spec() == (after.len() > limit)
            },
            limit > 0 && (self.events_spec().len() == 0 ==> cursor.value() == 0)
                && (self.events_spec().len() > 0 ==> (cursor.value() + 1 >= self.events_spec()[0].sequence_spec()
                && cursor.value() <= self.events_spec().last().sequence_spec())) ==> r is Ok,
    {
        proof {
            use_type_invariant(self);
        }
        if limit == 0 {
            return Err(EventStreamError::ZeroPageLimit);
        }
        let len = self.events.len();
        if len == 0 {
            if cursor.get() > 0 {
                return Err(EventStreamError::CursorAhead { cursor, latest_available: EventSequence::new(0) });
            }
            proof {
                assert(events_after(self.events@, cursor.value()).len() == 0);
            }
            let page = EventPage { events: Vec::new(), next_cursor: cursor, has_more: false };
            proof {
                assert(page.events_spec() =~= Seq::<EventEnvelope<E>>::empty());
            }
            return Ok(page);
        }
        let oldest = self.events[0].sequence().get();
        let latest = self.events[len - 1].sequence().get();
        if cursor.get() < oldest - 1 {
            return Err(EventStreamError::CursorExpired { cursor, oldest_available: EventSequence::new(oldest) });
        }
        if cursor.get() > latest {
            return Err(EventStreamError::CursorAhead { cursor, latest_available: EventSequence::new(latest) });
        }
        let start: usize = (cursor.get() + 1 - oldest) as usize;
        let end: usize = if len - start < limit { len } else { start + limit };
        let mut events: Vec<&EventEnvelope<E>> = Vec::new();
        let mut i = start;
        while i < end
            invariant
                start <= i <= end <= len,
                len == self.events@.len(),
                events@.map_values(|e: &EventEnvelope<E>| *e) == self.events@.subrange(start as int, i as int),
            decreases end - i,
        {
            let ghost before = events@;
            let item = &self.events[i];
            events.push(item);
            proof {
                assert(events@ == before.push(item));
                assert(*item == self.events@[i as int]);
                assert(events@.map_values(|e: &EventEnvelope<E>| *e) =~= before.map_values(|e: &EventEnvelope<E>| *e).push(*item));
                assert(events@.map_values(|e: &EventEnvelope<E>| *e) =~= self.events@.subrange(start as int, i + 1));
            }
            i = i + 1;
        }
        let next_cursor = if end > start {
            EventCursor::from_sequence(self.events[end - 1].sequence())
        } else {
            cursor
        };
        let has_more = end < len;
        proof {
            let first = self.next_sequence - len;
            lemma_events_after(self.events@, first, cursor.value());
            let after = events_after(self.events@, cursor.value());
            if start < len {
                assert(after == self.events@.skip(start as int));
                assert(after.take((end - start) as int) =~= self.events@.subrange(start as int, end as int));
            } else {
                assert(after.len() == 0);
            }
        }
        Ok(EventPage { events, next_cursor, has_more })
    }
}

impl EventCursor {
    /// The cursor positioned at sequence `value`.
    pub closed spec fn from_sequence_spec(value: u64) -> EventCursor {
        EventCursor(value)
    }
}

/// A cursor made from a sequence is positioned at that sequence, and a
/// cursor is determined by its position.
pub proof fn lemma_cursor_position(value: u64, a: EventCursor, b: EventCursor)
    ensures
        EventCursor::from_sequence_spec(value).value() == value,
        a.value() == b.value() ==> a == b,
{
}

} // verus!
