use audiacore::errors::CodedError;
use audiacore::time::{Deadline, TimerId, TimerSet, Timestamp};

#[test]
fn deadlines_are_evaluated_only_from_caller_supplied_time() {
    let deadline = Deadline::at(Timestamp::from_millis(100));

    assert!(!deadline.is_due(Timestamp::from_millis(99)));
    assert!(deadline.is_due(Timestamp::from_millis(100)));
    assert!(deadline.is_due(Timestamp::from_millis(101)));
}

#[test]
fn timer_set_orders_and_drains_due_timers_deterministically() {
    let mut timers = TimerSet::new();
    timers.arm(
        TimerId::new("later").unwrap(),
        Deadline::at(Timestamp::from_millis(20)),
    );
    timers.arm(
        TimerId::new("first-b").unwrap(),
        Deadline::at(Timestamp::from_millis(10)),
    );
    timers.arm(
        TimerId::new("first-a").unwrap(),
        Deadline::at(Timestamp::from_millis(10)),
    );

    assert_eq!(
        timers.next_deadline(),
        Some(Deadline::at(Timestamp::from_millis(10)))
    );
    assert_eq!(
        timers.drain_due(Timestamp::from_millis(10)),
        vec![
            TimerId::new("first-a").unwrap(),
            TimerId::new("first-b").unwrap(),
        ]
    );
    assert_eq!(
        timers.next_deadline(),
        Some(Deadline::at(Timestamp::from_millis(20)))
    );
    assert!(timers.drain_due(Timestamp::from_millis(19)).is_empty());
    assert_eq!(
        timers.drain_due(Timestamp::from_millis(20)),
        vec![TimerId::new("later").unwrap()]
    );
    assert_eq!(timers.next_deadline(), None);
}

#[test]
fn rearming_and_cancelling_return_the_replaced_deadline() {
    let id = TimerId::new("heartbeat").unwrap();
    let first = Deadline::at(Timestamp::from_millis(10));
    let second = Deadline::at(Timestamp::from_millis(20));
    let mut timers = TimerSet::new();

    assert_eq!(timers.arm(id.clone(), first), None);
    assert_eq!(timers.arm(id.clone(), second), Some(first));
    assert_eq!(timers.cancel(&id), Some(second));
    assert_eq!(timers.next_deadline(), None);
}

#[test]
fn timer_identifier_validation_has_stable_error_identity() {
    let error = TimerId::new(" ").unwrap_err();
    assert_eq!(error.code().as_str(), "VAL-TIME-001");
    assert_eq!(error.message(), "timer identifier must not be empty");
}

#[test]
fn drain_orders_by_deadline_before_identifier() {
    let mut timers = TimerSet::new();
    timers.arm(TimerId::new("a").unwrap(), Deadline::at(Timestamp::from_millis(30)));
    timers.arm(TimerId::new("b").unwrap(), Deadline::at(Timestamp::from_millis(5)));
    timers.arm(TimerId::new("c").unwrap(), Deadline::at(Timestamp::from_millis(5)));
    timers.arm(TimerId::new("d").unwrap(), Deadline::at(Timestamp::from_millis(40)));
    let drained = timers.drain_due(Timestamp::from_millis(35));
    let names: Vec<&str> = drained.iter().map(|id| id.as_str()).collect();
    assert_eq!(names, vec!["b", "c", "a"]);
    assert_eq!(
        timers.next_deadline(),
        Some(Deadline::at(Timestamp::from_millis(40)))
    );
    assert!(timers.drain_due(Timestamp::from_millis(35)).is_empty());
}

#[test]
fn cancelling_an_unknown_timer_changes_nothing() {
    let mut timers = TimerSet::new();
    let deadline = Deadline::at(Timestamp::from_millis(7));
    timers.arm(TimerId::new("kept").unwrap(), deadline);
    assert_eq!(timers.cancel(&TimerId::new("missing").unwrap()), None);
    assert_eq!(timers.next_deadline(), Some(deadline));
    assert_eq!(deadline.timestamp().as_millis(), 7);
}
