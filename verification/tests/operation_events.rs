use kb_app::operation_events::{append_event, is_terminal, OperationEvent, OperationEventKind, MAX_OPERATION_EVENTS};

const EVENTS_PATH: &str = "state/operations/example/events.json";

#[test]
fn append_is_ordered_and_ignores_an_identical_last_transition() {
    let mut log: Vec<OperationEvent> = Vec::new();
    let at = "2026-09-06T16:00:00Z";
    let first = append_event(&mut log, OperationEventKind::Planned, Some((0, 2)), "Plan is ready.", at, EVENTS_PATH).unwrap();
    let duplicate = append_event(
        &mut log,
        OperationEventKind::Planned,
        Some((0, 2)),
        "Different wording is not a new transition.",
        at,
        EVENTS_PATH,
    )
    .unwrap();
    let second = append_event(&mut log, OperationEventKind::Applying, Some((0, 2)), "Apply started.", at, EVENTS_PATH).unwrap();

    assert_eq!(first, duplicate);
    assert_eq!(second.id, 2);
    assert_eq!(log.len(), 2);
}

#[test]
fn new_progress_is_a_new_transition() {
    let mut log: Vec<OperationEvent> = Vec::new();
    append_event(&mut log, OperationEventKind::Progress, Some((1, 3)), "one", "t", EVENTS_PATH).unwrap();
    let next = append_event(&mut log, OperationEventKind::Progress, Some((2, 3)), "two", "t", EVENTS_PATH).unwrap();
    assert_eq!(next.id, 2);
    assert_eq!(next.completed, Some(2));
    assert_eq!(next.total, Some(3));
    let ids: Vec<u64> = log.iter().map(|e| e.id).collect();
    assert_eq!(ids, vec![1, 2]);
}

#[test]
fn a_full_log_refuses_new_transitions() {
    let mut log: Vec<OperationEvent> = Vec::new();
    for i in 0..MAX_OPERATION_EVENTS as u64 {
        append_event(&mut log, OperationEventKind::Progress, Some((i, 0)), "step", "t", EVENTS_PATH).unwrap();
    }
    assert_eq!(log.len(), MAX_OPERATION_EVENTS);
    let err = append_event(&mut log, OperationEventKind::Failed, None, "late", "t", EVENTS_PATH).unwrap_err();
    assert_eq!(err.message, format!("{EVENTS_PATH}: operation event limit exceeded"));
    assert_eq!(log.len(), MAX_OPERATION_EVENTS);
    let same = append_event(
        &mut log,
        OperationEventKind::Progress,
        Some((MAX_OPERATION_EVENTS as u64 - 1, 0)),
        "again",
        "t",
        EVENTS_PATH,
    )
    .unwrap();
    assert_eq!(same.id, MAX_OPERATION_EVENTS as u64);
}

#[test]
fn terminal_logs_end_applied_or_failed() {
    let mut log: Vec<OperationEvent> = Vec::new();
    assert!(!is_terminal(&log));
    append_event(&mut log, OperationEventKind::Applying, None, "a", "t", EVENTS_PATH).unwrap();
    assert!(!is_terminal(&log));
    append_event(&mut log, OperationEventKind::Applied, None, "b", "t", EVENTS_PATH).unwrap();
    assert!(is_terminal(&log));
    let mut failed: Vec<OperationEvent> = Vec::new();
    append_event(&mut failed, OperationEventKind::Failed, None, "c", "t", EVENTS_PATH).unwrap();
    assert!(is_terminal(&failed));
}
