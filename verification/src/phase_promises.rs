//! Promises of the phase scheduler across operations.
use vstd::prelude::*;

use crate::measurement::{WindowModel, has_room};
use crate::phase_laws::{
    law_supervision_keeps_sound, lemma_expire_tail, lemma_synced, selection_sound, sound,
};
use crate::phase_model::{
    SchedulerModel, SummaryModel, abandon_inflight_step, abandon_retry_step, advance,
    all_consistent, attempt_start, begin_step, bounds, clock_fault, deadline_answer, drained,
    expire_tail, expired, failed_fault, finish_now_step, finish_step, observed,
    observed_and_synced, phase_span, phases_left, poll_step, prepare_step, reserve_step,
    retry_step, start_step, stop, summary_step, synced, walked, worker_failed_step,
};
use crate::phases::{
    AttemptDisposition, AttemptOutcome, PhaseId, PhaseScheduleConfig, PreparedSessionId,
    SchedulerError, SchedulerFault, TransactionIdentity, TransactionReservation,
    TransactionTicket, WorkerId, next_phase, official_schedule,
};
use crate::time::Duration;

verus! {

/// Each phase starts where the one before it ends.
pub proof fn law_timeline_is_continuous(
    origin: Duration,
    schedule: PhaseScheduleConfig,
    phase: PhaseId,
)
    requires
        next_phase(phase) is Some,
    ensures
        phase_span(origin, schedule, next_phase(phase)->0).0 == phase_span(
            origin,
            schedule,
            phase,
        ).1,
{
    if let PhaseId::FormalWindow(index) = phase {
        let w = schedule.measurement_window_duration.nanos as int;
        assert(w * (index + 1) == w * index + w) by (nonlinear_arith);
    }
}

/// The official timeline: thirty seconds of warmup, then three windows of a
/// hundred and fifty seconds.
pub proof fn law_official_timeline(origin: Duration)
    ensures
        phase_span(origin, official_schedule(), PhaseId::Warmup) == (
            origin.nanos as int,
            origin.nanos + 30_000_000_000,
        ),
        phase_span(origin, official_schedule(), PhaseId::FormalWindow(0)) == (
            origin.nanos + 30_000_000_000,
            origin.nanos + 180_000_000_000,
        ),
        phase_span(origin, official_schedule(), PhaseId::FormalWindow(1)) == (
            origin.nanos + 180_000_000_000,
            origin.nanos + 330_000_000_000,
        ),
        phase_span(origin, official_schedule(), PhaseId::FormalWindow(2)) == (
            origin.nanos + 330_000_000_000,
            origin.nanos + 480_000_000_000,
        ),
{
}

/// Whether `after` has the sequence numbers and the next identity of `before`.
pub open spec fn same_numbers(before: SchedulerModel, after: SchedulerModel) -> bool {
    &&& after.next_ticket_id == before.next_ticket_id
    &&& after.workers.len() == before.workers.len()
    &&& forall|i: int|
        0 <= i < before.workers.len() ==> (#[trigger] after.workers[i]).next_txn_no
            == before.workers[i].next_txn_no && after.workers[i].sequence_phase
            == before.workers[i].sequence_phase
}

proof fn lemma_expired_numbers(s: SchedulerModel, phase: PhaseId, at: Duration, n: int)
    requires
        0 <= n <= s.workers.len(),
    ensures
        same_numbers(s, expired(s, phase, at, n)),
    decreases n,
{
    if n > 0 {
        lemma_expired_numbers(s, phase, at, n - 1);
    }
}

proof fn lemma_walked_numbers(s: SchedulerModel, now: Duration)
    ensures
        same_numbers(s, walked(s, now).state),
        walked(s, now).result is Ok ==> {
            let t = walked(s, now).state;
            t.announced matches Some(phase) ==> (bounds(t, phase) matches Ok((_, deadline))
                && now.nanos < deadline.nanos)
        },
    decreases phases_left(s.announced),
{
    if let Some(phase) = s.announced {
        if let Ok((_, deadline)) = bounds(s, phase) {
            if now.nanos >= deadline.nanos {
                lemma_expired_numbers(s, phase, deadline, s.workers.len() as int);
                let next = advance(s, phase, deadline);
                assert(same_numbers(s, next.state));
                if next.result is Ok {
                    lemma_walked_numbers(next.state, now);
                }
            }
        }
    }
}

/// Bringing the phases up to a time consumes no sequence number; afterwards
/// that time lies before the deadline of the announced phase.
pub proof fn law_sync_consumes_no_number(s: SchedulerModel, now: Duration)
    ensures
        same_numbers(s, synced(s, now).state),
        same_numbers(s, observed_and_synced(s, now).state),
        observed_and_synced(s, now).result is Ok ==> {
            let t = observed_and_synced(s, now).state;
            t.announced matches Some(phase) ==> (bounds(t, phase) matches Ok((_, deadline))
                && now.nanos < deadline.nanos)
        },
{
    lemma_walked_numbers(s, now);
    lemma_walked_numbers(observed(s, now), now);
}

/// A retry returns the ticket that it was given and consumes no sequence
/// number and no identity.
pub proof fn law_retry_reuses_ticket(s: SchedulerModel, ticket: TransactionTicket, now: Duration)
    ensures
        retry_step(s, ticket, now).result matches Ok(again) ==> again == ticket,
        same_numbers(s, retry_step(s, ticket, now).state),
        same_numbers(s, abandon_retry_step(s, ticket, now).state),
{
    law_sync_consumes_no_number(s, now);
}

/// A selection takes the worker's next number of the announced phase, counted
/// from zero in each phase, and the next identity; it is made before the
/// deadline of its phase.
pub proof fn law_selection_is_numbered_per_phase(
    s: SchedulerModel,
    worker: WorkerId,
    now: Duration,
)
    requires
        sound(s),
    ensures
        reserve_step(s, worker, now).result matches Ok(r) ==> {
            let t = reserve_step(s, worker, now).state;
            let own = s.workers[worker.0 as int];
            &&& r.worker == worker
            &&& r.id == s.next_ticket_id
            &&& t.next_ticket_id == s.next_ticket_id + 1
            &&& t.announced == Some(r.phase)
            &&& r.txn_no == if own.sequence_phase == Some(r.phase) {
                own.next_txn_no
            } else {
                0
            }
            &&& t.workers[worker.0 as int].sequence_phase == Some(r.phase)
            &&& t.workers[worker.0 as int].next_txn_no == r.txn_no + 1
            &&& r.selected_at == now
            &&& now.nanos < r.phase_deadline.nanos
        },
{
    law_sync_consumes_no_number(s, now);
    lemma_synced(s, now);
}

/// Once the timeline has ended no transaction is selected, started or retried.
pub proof fn law_nothing_starts_after_the_end(
    s: SchedulerModel,
    worker: WorkerId,
    reservation: TransactionReservation,
    identity: TransactionIdentity,
    ticket: TransactionTicket,
    now: Duration,
)
    requires
        sound(s),
        s.complete,
    ensures
        reserve_step(s, worker, now).result is Err,
        begin_step(s, reservation, identity, now).result is Err,
        retry_step(s, ticket, now).result is Err,
{
}

/// A failed run answers every request of a configured worker with its failure,
/// and nothing but the last clock reading changes.
pub proof fn law_failure_is_final(
    s: SchedulerModel,
    worker: WorkerId,
    session: PreparedSessionId,
    reservation: TransactionReservation,
    identity: TransactionIdentity,
    ticket: TransactionTicket,
    outcome: AttemptOutcome,
    reason: Seq<char>,
    now: Duration,
)
    requires
        s.failure is Some,
        clock_fault(s, now) is None,
        worker.0 < s.workers.len(),
        reservation.worker == worker,
        ticket.reservation.worker == worker,
    ensures
        prepare_step(s, worker, session, now) == stop::<()>(s, failed_fault(s)->0),
        start_step(s, now) == stop::<()>(s, failed_fault(s)->0),
        poll_step(s, now) == stop::<()>(observed(s, now), failed_fault(s)->0),
        reserve_step(s, worker, now) == stop::<TransactionReservation>(
            observed(s, now),
            failed_fault(s)->0,
        ),
        begin_step(s, reservation, identity, now) == stop::<TransactionTicket>(
            observed(s, now),
            failed_fault(s)->0,
        ),
        retry_step(s, ticket, now) == stop::<TransactionTicket>(
            observed(s, now),
            failed_fault(s)->0,
        ),
        deadline_answer(s, ticket) == Err::<Duration, SchedulerFault>(failed_fault(s)->0),
        finish_step(s, ticket, outcome, now) == stop::<AttemptDisposition>(s, failed_fault(s)->0),
        finish_now_step(s, ticket, outcome, now) == stop::<AttemptDisposition>(
            observed(s, now),
            failed_fault(s)->0,
        ),
        abandon_inflight_step(s, ticket, now) == stop::<()>(s, failed_fault(s)->0),
        abandon_retry_step(s, ticket, now) == stop::<()>(observed(s, now), failed_fault(s)->0),
        worker_failed_step(s, worker, reason, now) == stop::<()>(s, failed_fault(s)->0),
        summary_step(s, now) == stop::<SummaryModel>(observed(s, now), failed_fault(s)->0),
{
}

/// Whether the counted transactions of a window are the same.
pub open spec fn same_ranking(before: WindowModel, after: WindowModel) -> bool {
    &&& after.attempted == before.attempted
    &&& after.committed == before.committed
    &&& after.expected_rollbacks == before.expected_rollbacks
    &&& after.abandoned == before.abandoned
    &&& after.delivered_orders == before.delivered_orders
    &&& after.buckets == before.buckets
    &&& after.warehouses == before.warehouses
}

/// A configured worker's terminal at or after the deadline of its phase changes
/// no counted transaction of any window; where it does not fail the run it is a grace
/// tail.
pub proof fn law_late_terminal_is_never_ranked(
    s: SchedulerModel,
    ticket: TransactionTicket,
    outcome: AttemptOutcome,
    at: Duration,
)
    requires
        sound(s),
        ticket.reservation.worker.0 < s.workers.len(),
        at.nanos >= ticket.reservation.phase_deadline.nanos,
    ensures
        finish_step(s, ticket, outcome, at).result matches Ok(disposition) ==> disposition
            == AttemptDisposition::GraceTail,
        forall|i: int|
            0 <= i < 3 ==> same_ranking(
                synced(s, at).state.windows[i],
                (#[trigger] finish_step(s, ticket, outcome, at).state.windows[i]),
            ),
{
    lemma_synced(s, at);
    let t = synced(s, at).state;
    let i = ticket.reservation.worker.0 as int;
    if attempt_start(t, ticket) is Some {
        assert(selection_sound(t, i, t.workers[i].selection->0));
    }
}

/// A summary is given only of a complete, unfailed, drained run whose accounts
/// add up; of a sound one it is refused for its accounts only where a counter
/// is full.
pub proof fn law_summary_needs_a_finished_run(s: SchedulerModel, now: Duration)
    requires
        sound(s),
    ensures
        summary_step(s, now).result is Ok ==> {
            let t = summary_step(s, now).state;
            t.complete && t.failure is None && drained(t.workers) && all_consistent(t.windows)
        },
        summary_step(s, now).result == Err::<SummaryModel, SchedulerFault>(
            SchedulerFault::Plain(SchedulerError::InconsistentMeasurementAccounting),
        ) ==> exists|i: int|
            0 <= i < 3 && !has_room(#[trigger] summary_step(s, now).state.windows[i]),
{
    law_supervision_keeps_sound(s, WorkerId(0), Seq::empty(), now);
    lemma_synced(s, now);
    lemma_expire_tail(observed_and_synced(s, now).state, now, 0);
    let t = summary_step(s, now).state;
    if summary_step(s, now).result == Err::<SummaryModel, SchedulerFault>(
        SchedulerFault::Plain(SchedulerError::InconsistentMeasurementAccounting),
    ) {
        if forall|i: int| 0 <= i < 3 ==> has_room(#[trigger] t.windows[i]) {
            assert(all_consistent(t.windows));
            lemma_never_inconsistent(s, now);
        }
    }
}

/// Only an inconsistent account makes the summary say so.
proof fn lemma_never_inconsistent(s: SchedulerModel, now: Duration)
    requires
        all_consistent(summary_step(s, now).state.windows),
    ensures
        summary_step(s, now).result != Err::<SummaryModel, SchedulerFault>(
            SchedulerFault::Plain(SchedulerError::InconsistentMeasurementAccounting),
        ),
{
    lemma_walk_faults(observed(s, now), now);
    lemma_tail_faults(observed_and_synced(s, now).state, now, 0);
}

proof fn lemma_walk_faults(s: SchedulerModel, now: Duration)
    ensures
        walked(s, now).result matches Err(fault) ==> fault == SchedulerFault::Plain(
            SchedulerError::ClockOverflow,
        ) || fault == SchedulerFault::Plain(SchedulerError::NotStarted),
    decreases phases_left(s.announced),
{
    if let Some(phase) = s.announced {
        if let Ok((_, deadline)) = bounds(s, phase) {
            if now.nanos >= deadline.nanos {
                let next = advance(s, phase, deadline);
                if next.result is Ok {
                    assert(next.state.announced == next_phase(phase));
                    lemma_walk_faults(next.state, now);
                }
            }
        }
    }
}

proof fn lemma_tail_faults(s: SchedulerModel, now: Duration, index: int)
    requires
        0 <= index,
    ensures
        expire_tail(s, now, index).result matches Err(fault) ==> fault == SchedulerFault::Plain(
            SchedulerError::ClockOverflow,
        ) || fault is RunFailed,
    decreases s.workers.len() - index,
{
    if index < s.workers.len() {
        lemma_tail_faults(s, now, index + 1);
    }
}

} // verus!
