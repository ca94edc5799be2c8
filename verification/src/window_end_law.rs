//! What a window counts of an attempt that did not come to its end.
use vstd::prelude::*;

use crate::measurement::{WindowModel, has_room};
use crate::phase_laws::{lemma_expired, lemma_synced, phase_valid, selection_sound, sound};
use crate::phase_model::{
    SchedulerModel, abandon_inflight_step, abandon_retry_step, attempt_start, expired, failed,
    finish_step, observed_and_synced, synced,
};
use crate::phases::{
    AttemptDisposition, AttemptOutcome, PhaseId, SelectionState, TransactionTicket, WorkerId,
    WorkerState,
};
use crate::time::Duration;

verus! {

/// What one event adds to the counters of a window.
pub struct WindowChange {
    pub attempted: int,
    pub physical_attempts: int,
    pub retry_aborts: int,
    pub abandoned: int,
    pub retry_abandoned: int,
    pub cutoff_stopped: int,
    pub grace_tail: int,
}

/// No change.
pub open spec fn unchanged() -> WindowChange {
    WindowChange {
        attempted: 0,
        physical_attempts: 0,
        retry_aborts: 0,
        abandoned: 0,
        retry_abandoned: 0,
        cutoff_stopped: 0,
        grace_tail: 0,
    }
}

/// Whether a window has changed by this and nothing else: it completed nothing, and has
/// covered what it had.
pub open spec fn changed_by(before: WindowModel, after: WindowModel, c: WindowChange) -> bool {
    &&& after.attempted == before.attempted + c.attempted
    &&& after.physical_attempts == before.physical_attempts + c.physical_attempts
    &&& after.retry_aborts == before.retry_aborts + c.retry_aborts
    &&& after.abandoned == before.abandoned + c.abandoned
    &&& after.retry_abandoned == before.retry_abandoned + c.retry_abandoned
    &&& after.cutoff_stopped == before.cutoff_stopped + c.cutoff_stopped
    &&& after.grace_tail == before.grace_tail + c.grace_tail
    &&& after.committed == before.committed
    &&& after.expected_rollbacks == before.expected_rollbacks
    &&& after.delivered_orders == before.delivered_orders
    &&& after.slowest_commit == before.slowest_commit
    &&& after.buckets == before.buckets
    &&& after.warehouses == before.warehouses
    &&& after.hot_warehouses == before.hot_warehouses
}

/// Whether no counter of a window is full.
pub open spec fn has_space(w: WindowModel) -> bool {
    has_room(w) && w.cutoff_stopped < u64::MAX
}

/// An attempt that was given up in flight: a transaction without an end while its phase
/// runs, and a late physical attempt behind it.
pub open spec fn given_up(in_time: bool) -> WindowChange {
    if in_time {
        WindowChange { attempted: 1, physical_attempts: 1, abandoned: 1, ..unchanged() }
    } else {
        WindowChange { physical_attempts: 1, grace_tail: 1, ..unchanged() }
    }
}

/// Whether the window of `phase`, and no other, has changed by this.
pub open spec fn window_changed(
    s: SchedulerModel,
    t: SchedulerModel,
    phase: PhaseId,
    j: int,
    c: WindowChange,
) -> bool {
    if phase == PhaseId::FormalWindow(j as u8) {
        has_space(s.windows[j]) ==> changed_by(s.windows[j], t.windows[j], c)
    } else {
        t.windows[j] == s.windows[j]
    }
}

/// Law: an attempt of unknown outcome counts as abandoned while its phase runs, and as a
/// late physical attempt behind it; a pending retry that is given up counts as abandoned
/// without an attempt of its own.
pub proof fn law_abandoned_attempts_are_counted(
    s: SchedulerModel,
    ticket: TransactionTicket,
    at: Duration,
    j: int,
)
    requires
        sound(s),
        0 <= j < 3,
    ensures
        abandon_inflight_step(s, ticket, at).result is Ok ==> window_changed(
            synced(s, at).state,
            abandon_inflight_step(s, ticket, at).state,
            ticket.reservation.phase,
            j,
            given_up(at.nanos < ticket.reservation.phase_deadline.nanos),
        ),
        abandon_retry_step(s, ticket, at).result is Ok ==> window_changed(
            observed_and_synced(s, at).state,
            abandon_retry_step(s, ticket, at).state,
            ticket.reservation.phase,
            j,
            WindowChange { attempted: 1, abandoned: 1, retry_abandoned: 1, ..unchanged() },
        ),
{
    lemma_synced(s, at);
    let i = ticket.reservation.worker.0 as int;
    let t = synced(s, at).state;
    let u = observed_and_synced(s, at).state;
    if abandon_inflight_step(s, ticket, at).result is Ok {
        assert(selection_sound(t, i, t.workers[i].selection->0));
    }
    if abandon_retry_step(s, ticket, at).result is Ok {
        assert(selection_sound(u, i, u.workers[i].selection->0));
    }
}

/// Law: a retryable abort counts as a physical attempt and leaves the ticket to be sent
/// again; a terminal behind its phase's deadline counts as a late physical attempt.
pub proof fn law_unfinished_attempts_are_counted(
    s: SchedulerModel,
    ticket: TransactionTicket,
    outcome: AttemptOutcome,
    at: Duration,
    j: int,
)
    requires
        sound(s),
        0 <= j < 3,
    ensures
        match finish_step(s, ticket, outcome, at).result {
            Ok(AttemptDisposition::RetrySameParameters) => {
                let t = finish_step(s, ticket, outcome, at).state;
                &&& outcome == AttemptOutcome::RetryableAbort
                &&& at.nanos < ticket.reservation.phase_deadline.nanos
                &&& t.workers[ticket.reservation.worker.0 as int].selection == Some(
                    SelectionState::RetryPending(ticket),
                )
                &&& window_changed(
                    synced(s, at).state,
                    t,
                    ticket.reservation.phase,
                    j,
                    WindowChange { physical_attempts: 1, retry_aborts: 1, ..unchanged() },
                )
            },
            Ok(AttemptDisposition::GraceTail) => {
                let t = finish_step(s, ticket, outcome, at).state;
                &&& at.nanos >= ticket.reservation.phase_deadline.nanos
                &&& t.workers[ticket.reservation.worker.0 as int].selection is None
                &&& window_changed(
                    synced(s, at).state,
                    t,
                    ticket.reservation.phase,
                    j,
                    given_up(false),
                )
            },
            _ => true,
        },
{
    lemma_synced(s, at);
    let i = ticket.reservation.worker.0 as int;
    let t = synced(s, at).state;
    if finish_step(s, ticket, outcome, at).result is Ok {
        assert(attempt_start(t, ticket) is Some);
        assert(selection_sound(t, i, t.workers[i].selection->0));
    }
}

/// Law: a failing worker gives up what it has. An attempt in flight counts as one that was
/// given up; what was only reserved or waits for a retry counts as stopped.
pub proof fn law_failing_worker_gives_up_its_selection(
    s: SchedulerModel,
    worker: WorkerId,
    phase: Option<PhaseId>,
    reason: Seq<char>,
    at: Duration,
    j: int,
)
    requires
        sound(s),
        worker.0 < s.workers.len(),
        0 <= j < 3,
    ensures
        ({
            let t = failed(s, worker, phase, reason, at);
            let i = worker.0 as int;
            &&& t.workers[i].selection is None
            &&& forall|k: int|
                0 <= k < s.workers.len() && k != i ==> #[trigger] t.workers[k] == s.workers[k]
            &&& match s.workers[i].selection {
                None => t.windows == s.windows,
                Some(SelectionState::InFlight { ticket, .. }) => window_changed(
                    s,
                    t,
                    ticket.reservation.phase,
                    j,
                    given_up(at.nanos < ticket.reservation.phase_deadline.nanos),
                ),
                Some(SelectionState::Reserved(r)) => window_changed(
                    s,
                    t,
                    r.phase,
                    j,
                    WindowChange { cutoff_stopped: 1, ..unchanged() },
                ),
                Some(SelectionState::RetryPending(ticket)) => window_changed(
                    s,
                    t,
                    ticket.reservation.phase,
                    j,
                    WindowChange { cutoff_stopped: 1, ..unchanged() },
                ),
            }
        }),
{
    let i = worker.0 as int;
    if let Some(own) = s.workers[i].selection {
        assert(selection_sound(s, i, own));
    }
}

/// Whether a worker's selection is stopped when `phase` ends: it was reserved in it or
/// waits in it for a retry.
pub open spec fn stops_with(selection: Option<SelectionState>, phase: PhaseId) -> bool {
    match selection {
        Some(SelectionState::Reserved(r)) => r.phase == phase,
        Some(SelectionState::RetryPending(ticket)) => ticket.reservation.phase == phase,
        _ => false,
    }
}

/// How many of the first `n` workers have such a selection.
pub open spec fn stopped_count(workers: Seq<WorkerState>, phase: PhaseId, n: int) -> nat
    decreases n,
{
    if n <= 0 {
        0
    } else {
        stopped_count(workers, phase, n - 1) + if stops_with(workers[n - 1].selection, phase) {
            1nat
        } else {
            0nat
        }
    }
}

/// Law: the end of a phase stops what was reserved in it and what waits in it for a retry,
/// counts each of them once as stopped in its window, and touches no attempt in flight.
pub proof fn law_end_of_a_phase_stops_selections(
    s: SchedulerModel,
    phase: PhaseId,
    at: Duration,
    n: int,
    j: int,
)
    requires
        sound(s),
        phase_valid(phase),
        0 <= n <= s.workers.len(),
        0 <= j < 3,
        s.windows[j].cutoff_stopped + s.workers.len() <= u64::MAX,
    ensures
        ({
            let t = expired(s, phase, at, n);
            &&& forall|i: int|
                0 <= i < n ==> (#[trigger] t.workers[i]).selection == if stops_with(
                    s.workers[i].selection,
                    phase,
                ) {
                    None
                } else {
                    s.workers[i].selection
                }
            &&& if phase == PhaseId::FormalWindow(j as u8) {
                changed_by(
                    s.windows[j],
                    t.windows[j],
                    WindowChange {
                        cutoff_stopped: stopped_count(s.workers, phase, n) as int,
                        ..unchanged()
                    },
                )
            } else {
                t.windows[j] == s.windows[j]
            }
        }),
        stopped_count(s.workers, phase, n) <= n,
    decreases n,
{
    if n > 0 {
        law_end_of_a_phase_stops_selections(s, phase, at, n - 1, j);
        lemma_expired(s, phase, at, n - 1);
        lemma_expired(s, phase, at, n);
        let before = expired(s, phase, at, n - 1);
        let t = expired(s, phase, at, n);
        assert(before.workers[n - 1] == s.workers[n - 1]);
        assert forall|i: int| 0 <= i < n implies (#[trigger] t.workers[i]).selection
            == if stops_with(s.workers[i].selection, phase) {
            None
        } else {
            s.workers[i].selection
        } by {
            if i < n - 1 {
                assert(t.workers[i] == before.workers[i]);
            }
        }
    }
}

} // verus!
