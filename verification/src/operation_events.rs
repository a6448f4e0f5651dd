//! The event log of an operation: each transition is appended once, with
//! the next number, up to a limit.
use vstd::prelude::*;
use crate::error::{config_message, ErrorCode, KbError};

verus! {

/// The most events one operation's log holds.
pub const MAX_OPERATION_EVENTS: usize = 10100;

/// What an operation went through.
#[derive(Debug, Clone, Copy, PartialEq, Eq, Structural)]
pub enum OperationEventKind {
    Planned,
    Applying,
    Progress,
    Recovering,
    Applied,
    Failed,
}

/// One recorded transition: its number (from 1), kind, progress, message
/// and time.
#[derive(Debug, Clone, PartialEq, Eq)]
pub struct OperationEvent {
    pub id: u64,
    pub kind: OperationEventKind,
    pub completed: Option<u64>,
    pub total: Option<u64>,
    pub message: String,
    pub recorded_at: String,
}

/// An event as values.
pub struct EventView {
    pub id: u64,
    pub kind: OperationEventKind,
    pub completed: Option<u64>,
    pub total: Option<u64>,
    pub message: Seq<char>,
    pub recorded_at: Seq<char>,
}

pub open spec fn event_view(e: OperationEvent) -> EventView {
    EventView {
        id: e.id,
        kind: e.kind,
        completed: e.completed,
        total: e.total,
        message: e.message@,
        recorded_at: e.recorded_at@,
    }
}

pub open spec fn event_views(v: Seq<OperationEvent>) -> Seq<EventView> {
    v.map_values(|e: OperationEvent| event_view(e))
}

/// Progress as the pair of its optional parts.
pub open spec fn split_progress(progress: Option<(u64, u64)>) -> (Option<u64>, Option<u64>) {
    match progress {
        Some((c, t)) => (Some(c), Some(t)),
        None => (None, None),
    }
}

/// The last event already records this transition: same kind, same progress.
pub open spec fn repeats_last(log: Seq<EventView>, kind: OperationEventKind, progress: Option<(u64, u64)>) -> bool {
    log.len() > 0 && log.last().kind == kind && (log.last().completed, log.last().total) == split_progress(progress)
}

/// Events are numbered 1, 2, 3, ... in order.
pub open spec fn numbered_in_order(log: Seq<EventView>) -> bool {
    forall|i: int| 0 <= i < log.len() ==> #[trigger] log[i].id == i + 1
}

/// A log is terminal once its last event is `Applied` or `Failed`.
pub open spec fn terminal(log: Seq<EventView>) -> bool {
    log.len() > 0 && (log.last().kind == OperationEventKind::Applied || log.last().kind == OperationEventKind::Failed)
}

/// Append a transition to an operation's log (kept at `path`): a transition
/// that repeats the last one is that event, and nothing is added; a full log
/// is an error; otherwise the event gets the next number.
pub fn append_event(
    log: &mut Vec<OperationEvent>,
    kind: OperationEventKind,
    progress: Option<(u64, u64)>,
    message: &str,
    recorded_at: &str,
    path: &str,
) -> (r: Result<OperationEvent, KbError>)
    ensures
        repeats_last(event_views(old(log)@), kind, progress) ==> (r matches Ok(e) && event_view(e) == event_views(
            old(log)@,
        ).last()) && final(log)@ == old(log)@,
        !repeats_last(event_views(old(log)@), kind, progress) && old(log)@.len() >= MAX_OPERATION_EVENTS ==> (r matches Err(
            e,
        ) && e.code == ErrorCode::InvalidConfig && e.message@ == config_message(path@, "operation event limit exceeded"@))
            && final(log)@ == old(log)@,
        !repeats_last(event_views(old(log)@), kind, progress) && old(log)@.len() < MAX_OPERATION_EVENTS ==> ({
            let e = EventView {
                id: (old(log)@.len() + 1) as u64,
                kind,
                completed: split_progress(progress).0,
                total: split_progress(progress).1,
                message: message@,
                recorded_at: recorded_at@,
            };
            r matches Ok(x) && event_view(x) == e && event_views(final(log)@) == event_views(old(log)@).push(e)
        }),
{
    let (completed, total) = match progress {
        Some((c, t)) => (Some(c), Some(t)),
        None => (None, None),
    };
    let n = log.len();
    if n > 0 {
        let last = &log[n - 1];
        if last.kind == kind && last.completed == completed && last.total == total {
            proof {
                assert(event_views(log@).last() == event_view(log@[n - 1]));
            }
            return Ok(
                OperationEvent {
                    id: last.id,
                    kind: last.kind,
                    completed: last.completed,
                    total: last.total,
                    message: last.message.clone(),
                    recorded_at: last.recorded_at.clone(),
                },
            );
        }
        proof {
            assert(event_views(log@).last() == event_view(log@[n - 1]));
        }
    }
    if n >= MAX_OPERATION_EVENTS {
        return Err(KbError::invalid_config(path, "operation event limit exceeded"));
    }
    let event = OperationEvent {
        id: n as u64 + 1,
        kind,
        completed,
        total,
        message: message.to_owned(),
        recorded_at: recorded_at.to_owned(),
    };
    let copy = OperationEvent {
        id: n as u64 + 1,
        kind,
        completed,
        total,
        message: message.to_owned(),
        recorded_at: recorded_at.to_owned(),
    };
    let ghost before = log@;
    log.push(copy);
    proof {
        assert(event_views(log@) =~= event_views(before).push(event_view(event)));
    }
    Ok(event)
}

/// Appending keeps events numbered in order.
pub proof fn appending_keeps_events_in_order(
    before: Seq<EventView>,
    kind: OperationEventKind,
    progress: Option<(u64, u64)>,
    message: Seq<char>,
    recorded_at: Seq<char>,
)
    requires
        numbered_in_order(before),
        before.len() < MAX_OPERATION_EVENTS,
    ensures
        numbered_in_order(
            before.push(
                EventView {
                    id: (before.len() + 1) as u64,
                    kind,
                    completed: split_progress(progress).0,
                    total: split_progress(progress).1,
                    message,
                    recorded_at,
                },
            ),
        ),
{
    let e = EventView {
        id: (before.len() + 1) as u64,
        kind,
        completed: split_progress(progress).0,
        total: split_progress(progress).1,
        message,
        recorded_at,
    };
    let after = before.push(e);
    assert forall|i: int| 0 <= i < after.len() implies #[trigger] after[i].id == i + 1 by {
        if i < before.len() {
            assert(after[i] == before[i]);
        }
    }
}

/// Whether an operation's log is terminal (see `terminal`).
pub fn is_terminal(log: &Vec<OperationEvent>) -> (b: bool)
    ensures
        b == terminal(event_views(log@)),
{
    let n = log.len();
    if n == 0 {
        return false;
    }
    proof {
        assert(event_views(log@).last() == event_view(log@[n - 1]));
    }
    log[n - 1].kind == OperationEventKind::Applied || log[n - 1].kind == OperationEventKind::Failed
}

} // verus!
