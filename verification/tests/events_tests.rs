use audiacore::errors::CodedError;
use audiacore::events::{
    CausationId, EventCursor, EventId, EventPolicy, EventSequence, EventStream, EventStreamError,
    EventStreamId,
};
use audiacore::identity::CorrelationId;

#[derive(Debug, Clone, PartialEq, Eq)]
enum JobEvent {
    Started,
    Progress(u8),
    Completed,
}

fn stream(policy: EventPolicy) -> EventStream<JobEvent> {
    EventStream::new(EventStreamId::new("job-42").unwrap(), policy)
}

fn append(stream: &mut EventStream<JobEvent>, id: u64, payload: JobEvent) {
    stream
        .append(
            EventId::new(&format!("event-{id}")).unwrap(),
            CorrelationId::new("corr-42").unwrap(),
            None,
            payload,
        )
        .unwrap();
}

#[test]
fn policy_is_explicit_and_stream_assigns_monotonic_order() {
    let policy = EventPolicy::unbounded();
    let mut events = stream(policy);
    append(&mut events, 1, JobEvent::Started);
    append(&mut events, 2, JobEvent::Completed);

    assert_eq!(events.policy(), policy);
    assert_eq!(events.len(), 2);
    assert_eq!(events.last_sequence(), Some(EventSequence::new(2)));
    assert_eq!(events.iter().nth(1).unwrap().payload(), &JobEvent::Completed);
}

#[test]
fn bounded_retention_expires_old_cursor_and_pages_retained_evidence() {
    let mut events = stream(EventPolicy::bounded(3).unwrap());
    append(&mut events, 1, JobEvent::Started);
    append(&mut events, 2, JobEvent::Progress(1));
    append(&mut events, 3, JobEvent::Progress(2));
    append(&mut events, 4, JobEvent::Completed);

    assert_eq!(events.oldest_sequence(), Some(EventSequence::new(2)));
    let expired = events.page_after(EventCursor::start(), 2).unwrap_err();
    assert_eq!(expired.code().as_str(), "CON-EVENT-001");

    let first = events.page_after(EventCursor::new(1), 2).unwrap();
    assert_eq!(first.events().len(), 2);
    assert_eq!(first.next_cursor(), EventCursor::new(3));
    assert!(first.has_more());

    let second = events.page_after(first.next_cursor(), 2).unwrap();
    assert_eq!(second.events().len(), 1);
    assert_eq!(second.next_cursor(), EventCursor::new(4));
    assert!(!second.has_more());
}

#[test]
fn ahead_empty_and_zero_limit_have_distinct_semantics() {
    let events = stream(EventPolicy::unbounded());
    assert!(events.page_after(EventCursor::start(), 1).unwrap().events().is_empty());

    let ahead = events.page_after(EventCursor::new(1), 1).unwrap_err();
    assert_eq!(ahead.code().as_str(), "CON-EVENT-002");

    let zero = events.page_after(EventCursor::start(), 0).unwrap_err();
    assert_eq!(zero.code().as_str(), "VAL-EVENT-003");
}

#[test]
fn invalid_policy_and_identifier_have_stable_codes() {
    assert_eq!(
        EventPolicy::bounded(0).unwrap_err().code().as_str(),
        "VAL-EVENT-002"
    );
    assert_eq!(EventId::new(" ").unwrap_err().code().as_str(), "VAL-EVENT-001");
}

#[test]
fn sequence_exhaustion_never_wraps_or_appends() {
    let mut events = EventStream::resume(
        EventStreamId::new("job-42").unwrap(),
        EventPolicy::unbounded(),
        u64::MAX,
    );

    let error = events
        .append(
            EventId::new("last").unwrap(),
            CorrelationId::new("corr").unwrap(),
            None,
            JobEvent::Completed,
        )
        .unwrap_err();

    assert_eq!(error.code().as_str(), "RES-EVENT-001");
    assert!(events.is_empty());
    assert_eq!(events.next_sequence(), u64::MAX);
}

#[test]
fn appended_event_carries_its_metadata() {
    let mut events = stream(EventPolicy::unbounded());
    let sequence = events
        .append(
            EventId::new("event-1").unwrap(),
            CorrelationId::new("corr-1").unwrap(),
            Some(CausationId::new("cause-1").unwrap()),
            JobEvent::Progress(7),
        )
        .unwrap();
    assert_eq!(sequence.get(), 1);
    assert_eq!(events.next_sequence(), 2);
    let envelope = events.get(0).unwrap();
    assert_eq!(envelope.event_id().as_str(), "event-1");
    assert_eq!(envelope.stream_id().as_str(), "job-42");
    assert_eq!(envelope.sequence(), EventSequence::new(1));
    assert_eq!(envelope.correlation_id().as_str(), "corr-1");
    assert_eq!(envelope.causation_id().unwrap().as_str(), "cause-1");
    assert_eq!(envelope.payload(), &JobEvent::Progress(7));
    assert!(events.get(1).is_none());
}

#[test]
fn bounded_stream_keeps_only_the_newest_events() {
    let mut events = stream(EventPolicy::bounded(2).unwrap());
    for id in 1..=5 {
        append(&mut events, id, JobEvent::Progress(id as u8));
    }
    assert_eq!(events.len(), 2);
    assert_eq!(events.oldest_sequence(), Some(EventSequence::new(4)));
    assert_eq!(events.last_sequence(), Some(EventSequence::new(5)));
    assert_eq!(events.get(0).unwrap().payload(), &JobEvent::Progress(4));
    assert_eq!(events.next_sequence(), 6);
}

#[test]
fn page_at_latest_cursor_is_empty_and_keeps_cursor() {
    let mut events = stream(EventPolicy::unbounded());
    append(&mut events, 1, JobEvent::Started);
    append(&mut events, 2, JobEvent::Completed);
    let page = events.page_after(EventCursor::new(2), 5).unwrap();
    assert!(page.events().is_empty());
    assert_eq!(page.next_cursor(), EventCursor::new(2));
    assert!(!page.has_more());
    let all = events.page_after(EventCursor::start(), 5).unwrap();
    assert_eq!(all.events().len(), 2);
    assert_eq!(all.events()[0].payload(), &JobEvent::Started);
    assert_eq!(all.next_cursor(), EventCursor::new(2));
}

#[test]
fn stream_error_messages_name_the_sequences() {
    let mut events = stream(EventPolicy::bounded(1).unwrap());
    append(&mut events, 1, JobEvent::Started);
    append(&mut events, 2, JobEvent::Started);
    append(&mut events, 3, JobEvent::Started);
    let expired = events.page_after(EventCursor::new(0), 1).unwrap_err();
    assert_eq!(
        expired,
        EventStreamError::CursorExpired {
            cursor: EventCursor::new(0),
            oldest_available: EventSequence::new(3)
        }
    );
    assert_eq!(
        expired.message(),
        "event cursor 0 expired; oldest available sequence is 3"
    );
    let ahead = events.page_after(EventCursor::new(9), 1).unwrap_err();
    assert_eq!(
        ahead.message(),
        "event cursor 9 is ahead of latest available sequence 3"
    );
    assert_eq!(
        EventStreamError::SequenceExhausted.message(),
        "event sequence space is exhausted"
    );
    assert_eq!(
        EventId::new("").unwrap_err().message(),
        "event id must not be empty"
    );
}
