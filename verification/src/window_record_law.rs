//! The windows of a scheduler say what its events say.
use vstd::prelude::*;

use crate::measurement::{
    WindowModel, capped, covered, window_gate, window_shaped, with_abandoned, with_commit,
    with_expected_rollback, with_grace_tail, with_retry_abandoned, with_retry_abort,
};
use crate::phase_history::{SchedulerCall, called, history, law_history_keeps_sound};
use crate::phase_laws::{
    law_fresh_is_sound, lemma_advance, lemma_closed, lemma_expired, lemma_observed_kept,
    lemma_synced, phase_valid, selection_sound, sound, windows_sound,
};
use crate::phase_model::{
    SchedulerModel, abandon_inflight_step, abandon_retry_step, active_phase, advance,
    attempt_start, begin_step, bounds, closed, contradiction_reason, drain_deadline, drain_reason,
    ended, expire_tail, expired, expires, expiry_event, failed, finish_now_step, finish_step,
    finish_synced, fresh, logged, observed, observed_and_synced, phases_left, poll_step,
    prepare_step, reserve_step, retry_fault, retry_step, start_step, sum_of, summary_step, synced,
    walked, window_account, worker_failed_step,
};
use crate::phases::{
    AttemptDisposition, AttemptOutcome, CompletionClass, LocalRuntimeLimits, PhaseId,
    PhaseScheduleConfig, PreparedSessionId, RecordedEvent, SchedulerEvent, SchedulerFault,
    SelectionState, TransactionIdentity, TransactionReservation, TransactionTicket, WorkerId,
    next_phase, schedule_valid,
};
use crate::time::Duration;
use crate::transaction::TransactionType;
use crate::window_law::covered_set;

verus! {

/// The ticket and the class of an event that ends an attempt of window `k`.
pub open spec fn finished_in(e: RecordedEvent, k: int) -> Option<
    (TransactionTicket, CompletionClass),
> {
    match e {
        RecordedEvent::Plain(SchedulerEvent::TransactionFinished { ticket, class, at }) => if
        ticket.reservation.phase == PhaseId::FormalWindow(k as u8) {
            Some((ticket, class))
        } else {
            None
        },
        _ => None,
    }
}

/// How many of the first `n` events end an attempt of window `k` in this class.
pub open spec fn finished_count(
    log: Seq<RecordedEvent>,
    n: int,
    k: int,
    class: CompletionClass,
) -> nat
    decreases n,
{
    if n <= 0 {
        0
    } else {
        finished_count(log, n - 1, k, class) + if finished_in(log[n - 1], k) matches Some((_, c))
            && c == class {
            1nat
        } else {
            0nat
        }
    }
}

/// Whether an event completes a transaction of window `k` at home warehouse `h`.
pub open spec fn completes_at(e: RecordedEvent, k: int, h: int) -> bool {
    &&& finished_in(e, k) matches Some((ticket, class))
    &&& class == CompletionClass::Committed || class == CompletionClass::ExpectedRollback
    &&& ticket.identity.home_warehouse == h
}

/// The warehouses at which a transaction of window `k` was completed.
pub open spec fn recorded_homes(log: Seq<RecordedEvent>, k: int) -> Set<int> {
    Set::new(
        |h: int|
            1 <= h <= 50 && exists|i: int|
                0 <= i < log.len() && completes_at(#[trigger] log[i], k, h),
    )
}

/// Whether a window says what the events say of it.
pub open spec fn window_recorded(w: WindowModel, log: Seq<RecordedEvent>, k: int) -> bool {
    let n = log.len() as int;
    &&& n < u64::MAX ==> {
        &&& w.committed == finished_count(log, n, k, CompletionClass::Committed)
        &&& w.expected_rollbacks == finished_count(log, n, k, CompletionClass::ExpectedRollback)
        &&& w.retry_aborts == finished_count(log, n, k, CompletionClass::RetryableAbort)
    }
    &&& covered_set(w) == recorded_homes(log, k)
}

/// Whether every window says what the events say of it.
pub open spec fn windows_recorded(s: SchedulerModel) -> bool {
    &&& s.windows.len() == 3
    &&& forall|k: int| 0 <= k < 3 ==> window_recorded(#[trigger] s.windows[k], s.log, k)
}

proof fn lemma_count_prefix(
    log: Seq<RecordedEvent>,
    e: RecordedEvent,
    n: int,
    k: int,
    class: CompletionClass,
)
    requires
        0 <= n <= log.len(),
    ensures
        finished_count(log.push(e), n, k, class) == finished_count(log, n, k, class),
        finished_count(log, n, k, class) <= n,
    decreases n,
{
    if n > 0 {
        lemma_count_prefix(log, e, n - 1, k, class);
        assert(log.push(e)[n - 1] == log[n - 1]);
    }
}

/// Whether a window changes as an event tells: by a commit, an expected rollback or a
/// retryable abort of its own, or in none of what these count.
spec fn step_fits(before: WindowModel, after: WindowModel, e: RecordedEvent, k: int) -> bool {
    match finished_in(e, k) {
        Some((ticket, CompletionClass::Committed)) => {
            &&& after.committed == capped(before.committed, 1)
            &&& after.expected_rollbacks == before.expected_rollbacks
            &&& after.retry_aborts == before.retry_aborts
            &&& after.warehouses == covered(before.warehouses, ticket.identity.home_warehouse)
        },
        Some((ticket, CompletionClass::ExpectedRollback)) => {
            &&& after.committed == before.committed
            &&& after.expected_rollbacks == capped(before.expected_rollbacks, 1)
            &&& after.retry_aborts == before.retry_aborts
            &&& after.warehouses == covered(before.warehouses, ticket.identity.home_warehouse)
        },
        Some((_, CompletionClass::RetryableAbort)) => {
            &&& after.committed == before.committed
            &&& after.expected_rollbacks == before.expected_rollbacks
            &&& after.retry_aborts == capped(before.retry_aborts, 1)
            &&& after.warehouses == before.warehouses
        },
        _ => {
            &&& after.committed == before.committed
            &&& after.expected_rollbacks == before.expected_rollbacks
            &&& after.retry_aborts == before.retry_aborts
            &&& after.warehouses == before.warehouses
        },
    }
}

proof fn lemma_homes_grow(
    before: WindowModel,
    after: WindowModel,
    log: Seq<RecordedEvent>,
    e: RecordedEvent,
    k: int,
)
    requires
        window_shaped(before),
        step_fits(before, after, e, k),
        covered_set(before) == recorded_homes(log, k),
    ensures
        covered_set(after) == recorded_homes(log.push(e), k),
{
    let grown = log.push(e);
    assert forall|h: int| covered_set(after).contains(h) <==> recorded_homes(grown, k).contains(
        h,
    ) by {
        assert(grown[log.len() as int] == e);
        if covered_set(after).contains(h) {
            if covered_set(before).contains(h) {
                assert(recorded_homes(log, k).contains(h));
                let i = choose|i: int|
                    0 <= i < log.len() && completes_at(#[trigger] log[i], k, h);
                assert(completes_at(grown[i], k, h));
            } else {
                assert(completes_at(grown[log.len() as int], k, h));
            }
        }
        if recorded_homes(grown, k).contains(h) {
            let i = choose|i: int|
                0 <= i < grown.len() && completes_at(#[trigger] grown[i], k, h);
            if i < log.len() {
                assert(completes_at(log[i], k, h));
                assert(recorded_homes(log, k).contains(h));
                assert(covered_set(before).contains(h));
            }
        }
    }
    assert(covered_set(after) =~= recorded_homes(grown, k));
}

proof fn lemma_window_step(
    before: WindowModel,
    after: WindowModel,
    log: Seq<RecordedEvent>,
    e: RecordedEvent,
    k: int,
)
    requires
        window_shaped(before),
        step_fits(before, after, e, k),
        window_recorded(before, log, k),
    ensures
        window_recorded(after, log.push(e), k),
{
    let n = log.len() as int;
    lemma_homes_grow(before, after, log, e, k);
    lemma_count_prefix(log, e, n, k, CompletionClass::Committed);
    lemma_count_prefix(log, e, n, k, CompletionClass::ExpectedRollback);
    lemma_count_prefix(log, e, n, k, CompletionClass::RetryableAbort);
    assert(log.push(e)[n] == e);
    assert(log.push(e).len() == n + 1);
}

proof fn lemma_event(s: SchedulerModel, t: SchedulerModel, e: RecordedEvent)
    requires
        sound(s),
        windows_recorded(s),
        t.log == s.log.push(e),
        t.windows.len() == 3,
        forall|k: int| 0 <= k < 3 ==> step_fits(s.windows[k], #[trigger] t.windows[k], e, k),
    ensures
        windows_recorded(t),
{
    assert forall|k: int| 0 <= k < 3 implies window_recorded(
        #[trigger] t.windows[k],
        t.log,
        k,
    ) by {
        assert(window_recorded(s.windows[k], s.log, k));
        lemma_window_step(s.windows[k], t.windows[k], s.log, e, k);
    }
}

/// An event that is not the end of an attempt, with the windows as they are.
proof fn lemma_quiet(s: SchedulerModel, t: SchedulerModel, e: SchedulerEvent)
    requires
        sound(s),
        windows_recorded(s),
        t.log == s.log.push(e@),
        t.windows == s.windows,
        !(e is TransactionFinished),
    ensures
        windows_recorded(t),
{
    assert forall|k: int| 0 <= k < 3 implies step_fits(
        s.windows[k],
        #[trigger] t.windows[k],
        e@,
        k,
    ) by {}
    lemma_event(s, t, e@);
}

proof fn lemma_expired_recorded(s: SchedulerModel, phase: PhaseId, at: Duration, n: int)
    requires
        sound(s),
        phase_valid(phase),
        windows_recorded(s),
        0 <= n <= s.workers.len(),
    ensures
        windows_recorded(expired(s, phase, at, n)),
    decreases n,
{
    if n > 0 {
        lemma_expired_recorded(s, phase, at, n - 1);
        lemma_expired(s, phase, at, n - 1);
        lemma_expired(s, phase, at, n);
        let before = expired(s, phase, at, n - 1);
        let after = expired(s, phase, at, n);
        let selection = s.workers[n - 1].selection;
        if expires(selection, phase) {
            let e = expiry_event(selection->0, at)@;
            assert forall|k: int| 0 <= k < 3 implies step_fits(
                before.windows[k],
                #[trigger] after.windows[k],
                e,
                k,
            ) by {}
            lemma_event(before, after, e);
        }
    }
}

proof fn lemma_closed_recorded(s: SchedulerModel, phase: PhaseId, deadline: Duration)
    requires
        sound(s),
        s.announced == Some(phase),
        s.origin is Some,
        windows_recorded(s),
    ensures
        windows_recorded(closed(s, phase, deadline)),
        windows_sound(closed(s, phase, deadline).windows),
{
    let n = s.workers.len() as int;
    lemma_expired_recorded(s, phase, deadline, n);
    lemma_expired(s, phase, deadline, n);
    lemma_closed(s, phase, deadline);
    let still = expired(s, phase, deadline, n);
    let end = SchedulerEvent::PhaseEnded { phase, at: deadline };
    let quiet = logged(still, end);
    lemma_quiet(still, quiet, end);
    if let PhaseId::FormalWindow(window) = phase {
        let e = SchedulerEvent::WindowGateEvaluated {
            window,
            gate: window_gate(quiet.windows[window as int]),
            at: deadline,
        };
        lemma_relogged(still, quiet, closed(s, phase, deadline), e);
    }
}

/// As [`lemma_quiet`], behind one more event.
proof fn lemma_relogged(
    s: SchedulerModel,
    t: SchedulerModel,
    u: SchedulerModel,
    e: SchedulerEvent,
)
    requires
        sound(s),
        t.windows == s.windows,
        windows_recorded(t),
        u.log == t.log.push(e@),
        u.windows == t.windows,
        !(e is TransactionFinished),
    ensures
        windows_recorded(u),
{
    assert forall|k: int| 0 <= k < 3 implies window_recorded(
        #[trigger] u.windows[k],
        u.log,
        k,
    ) by {
        assert(window_recorded(t.windows[k], t.log, k));
        assert(window_shaped(s.windows[k]));
        lemma_window_step(t.windows[k], u.windows[k], t.log, e@, k);
    }
}

proof fn lemma_advance_recorded(s: SchedulerModel, phase: PhaseId, deadline: Duration)
    requires
        sound(s),
        s.announced == Some(phase),
        s.origin is Some,
        windows_recorded(s),
    ensures
        windows_recorded(advance(s, phase, deadline).state),
{
    lemma_closed_recorded(s, phase, deadline);
    lemma_closed(s, phase, deadline);
    let n = s.workers.len() as int;
    lemma_expired(s, phase, deadline, n);
    let still = expired(s, phase, deadline, n);
    let over = closed(s, phase, deadline);
    let t = advance(s, phase, deadline).state;
    match next_phase(phase) {
        Some(next) => {
            if let Ok((at, next_deadline)) = bounds(s, next) {
                lemma_relogged(
                    still,
                    over,
                    t,
                    SchedulerEvent::PhaseStarted { phase: next, at, deadline: next_deadline },
                );
            }
        },
        None => {
            lemma_relogged(still, over, t, SchedulerEvent::TimelineCompleted { at: deadline });
        },
    }
}

proof fn lemma_walked_recorded(s: SchedulerModel, now: Duration)
    requires
        sound(s),
        s.origin is Some,
        windows_recorded(s),
    ensures
        windows_recorded(walked(s, now).state),
    decreases phases_left(s.announced),
{
    if let Some(phase) = s.announced {
        if let Ok((_, deadline)) = bounds(s, phase) {
            if now.nanos >= deadline.nanos {
                lemma_advance(s, phase, deadline);
                lemma_advance_recorded(s, phase, deadline);
                let next = advance(s, phase, deadline);
                if next.result is Ok {
                    lemma_walked_recorded(next.state, now);
                }
            }
        }
    }
}

proof fn lemma_synced_recorded(s: SchedulerModel, now: Duration)
    requires
        sound(s),
        windows_recorded(s),
    ensures
        windows_recorded(synced(s, now).state),
        windows_recorded(observed(s, now)),
        windows_recorded(synced(observed(s, now), now).state),
        windows_recorded(observed_and_synced(s, now).state),
{
    lemma_observed_kept(s, now);
    let o = observed(s, now);
    assert(o.windows == s.windows && o.log == s.log);
    if s.failure is None && s.origin is Some {
        lemma_walked_recorded(s, now);
        lemma_walked_recorded(o, now);
    }
}

proof fn lemma_ended_recorded(
    s: SchedulerModel,
    ticket: TransactionTicket,
    selection: Option<SelectionState>,
    w: WindowModel,
    class: CompletionClass,
    at: Duration,
)
    requires
        sound(s),
        windows_recorded(s),
        phase_valid(ticket.reservation.phase),
        ticket.reservation.phase matches PhaseId::FormalWindow(k) ==> step_fits(
            s.windows[k as int],
            w,
            SchedulerEvent::TransactionFinished { ticket, class, at }@,
            k as int,
        ),
    ensures
        windows_recorded(ended(s, ticket, selection, w, class, at)),
{
    let t = ended(s, ticket, selection, w, class, at);
    let e = SchedulerEvent::TransactionFinished { ticket, class, at }@;
    assert forall|k: int| 0 <= k < 3 implies step_fits(
        s.windows[k],
        #[trigger] t.windows[k],
        e,
        k,
    ) by {}
    lemma_event(s, t, e);
}

proof fn lemma_failed_recorded(
    s: SchedulerModel,
    worker: WorkerId,
    phase: Option<PhaseId>,
    reason: Seq<char>,
    at: Duration,
)
    requires
        sound(s),
        windows_recorded(s),
        worker.0 < s.workers.len(),
    ensures
        windows_recorded(failed(s, worker, phase, reason, at)),
{
    let t = failed(s, worker, phase, reason, at);
    let e = RecordedEvent::WorkerFailed { worker, phase, at, reason };
    let i = worker.0 as int;
    if let Some(own) = s.workers[i].selection {
        assert(selection_sound(s, i, own));
    }
    assert forall|k: int| 0 <= k < 3 implies step_fits(
        s.windows[k],
        #[trigger] t.windows[k],
        e,
        k,
    ) by {}
    lemma_event(s, t, e);
}

proof fn lemma_finish_recorded(
    s: SchedulerModel,
    ticket: TransactionTicket,
    outcome: AttemptOutcome,
    at: Duration,
)
    requires
        sound(s),
        windows_recorded(s),
        ticket.reservation.worker.0 < s.workers.len(),
    ensures
        windows_recorded(finish_synced(s, ticket, outcome, at).state),
{
    let i = ticket.reservation.worker.0 as int;
    let phase = ticket.reservation.phase;
    let w = window_account(s, phase);
    if attempt_start(s, ticket) is Some {
        assert(selection_sound(s, i, s.workers[i].selection->0));
        if let Ok(deadline) = drain_deadline(s, ticket) {
            lemma_failed_recorded(
                s,
                ticket.reservation.worker,
                Some(phase),
                drain_reason(deadline),
                at,
            );
        }
        lemma_failed_recorded(
            s,
            ticket.reservation.worker,
            Some(phase),
            contradiction_reason(ticket.reservation.id),
            at,
        );
        lemma_ended_recorded(s, ticket, None, with_grace_tail(w), CompletionClass::GraceTail, at);
        if at.nanos < ticket.reservation.phase_deadline.nanos {
            let latency = Duration {
                nanos: if at.nanos >= ticket.reservation.selected_at.nanos {
                    (at.nanos - ticket.reservation.selected_at.nanos) as u128
                } else {
                    0
                },
            };
            let kind = ticket.identity.transaction_type;
            let home = ticket.identity.home_warehouse;
            let offset = match phase {
                PhaseId::Warmup => None,
                PhaseId::FormalWindow(_) => Some(
                    Duration { nanos: (at.nanos - (bounds(s, phase)->Ok_0).0.nanos) as u128 },
                ),
            };
            match outcome {
                AttemptOutcome::Commit { delivery_processed } => {
                    lemma_ended_recorded(
                        s,
                        ticket,
                        None,
                        with_commit(w, kind, home, latency, delivery_processed, offset),
                        CompletionClass::Committed,
                        at,
                    );
                },
                AttemptOutcome::ExpectedRollback => {
                    lemma_ended_recorded(
                        s,
                        ticket,
                        None,
                        with_expected_rollback(w, home),
                        CompletionClass::ExpectedRollback,
                        at,
                    );
                },
                AttemptOutcome::RetryableAbort => {
                    lemma_ended_recorded(
                        s,
                        ticket,
                        Some(SelectionState::RetryPending(ticket)),
                        with_retry_abort(w),
                        CompletionClass::RetryableAbort,
                        at,
                    );
                },
            }
        }
    }
}

proof fn lemma_endings_recorded(
    s: SchedulerModel,
    ticket: TransactionTicket,
    outcome: AttemptOutcome,
    at: Duration,
)
    requires
        sound(s),
        windows_recorded(s),
    ensures
        windows_recorded(finish_step(s, ticket, outcome, at).state),
        windows_recorded(finish_now_step(s, ticket, outcome, at).state),
        windows_recorded(abandon_inflight_step(s, ticket, at).state),
        windows_recorded(abandon_retry_step(s, ticket, at).state),
{
    lemma_synced(s, at);
    lemma_synced_recorded(s, at);
    lemma_observed_kept(s, at);
    let o = observed(s, at);
    lemma_synced(o, at);
    if ticket.reservation.worker.0 < s.workers.len() {
        let i = ticket.reservation.worker.0 as int;
        let t = synced(s, at).state;
        lemma_finish_recorded(t, ticket, outcome, at);
        lemma_finish_recorded(synced(o, at).state, ticket, outcome, at);
        if attempt_start(t, ticket) is Some {
            assert(selection_sound(t, i, t.workers[i].selection->0));
            let w = window_account(t, ticket.reservation.phase);
            lemma_ended_recorded(t, ticket, None, with_abandoned(w), CompletionClass::Abandoned, at);
            lemma_ended_recorded(
                t,
                ticket,
                None,
                with_grace_tail(w),
                CompletionClass::Abandoned,
                at,
            );
        }
        let u = observed_and_synced(s, at).state;
        if retry_fault(u, ticket) is None {
            assert(selection_sound(u, i, u.workers[i].selection->0));
            let w = window_account(u, ticket.reservation.phase);
            lemma_ended_recorded(
                u,
                ticket,
                None,
                with_retry_abandoned(w),
                CompletionClass::Abandoned,
                at,
            );
        }
    }
}

proof fn lemma_tail_recorded(s: SchedulerModel, now: Duration, index: int)
    requires
        sound(s),
        windows_recorded(s),
        0 <= index,
    ensures
        windows_recorded(expire_tail(s, now, index).state),
    decreases s.workers.len() - index,
{
    if index < s.workers.len() {
        lemma_tail_recorded(s, now, index + 1);
        if let Some(SelectionState::InFlight { ticket, .. }) = s.workers[index].selection {
            if let Ok(deadline) = sum_of(
                ticket.reservation.phase_deadline,
                s.limits.phase_tail_grace,
            ) {
                lemma_failed_recorded(
                    s,
                    WorkerId(index as u16),
                    Some(ticket.reservation.phase),
                    drain_reason(deadline),
                    now,
                );
            }
        }
    }
}

proof fn lemma_supervision_recorded(
    s: SchedulerModel,
    worker: WorkerId,
    reason: Seq<char>,
    now: Duration,
)
    requires
        sound(s),
        windows_recorded(s),
    ensures
        windows_recorded(poll_step(s, now).state),
        windows_recorded(summary_step(s, now).state),
        windows_recorded(worker_failed_step(s, worker, reason, now).state),
{
    lemma_synced(s, now);
    lemma_synced_recorded(s, now);
    lemma_observed_kept(s, now);
    let t = observed_and_synced(s, now).state;
    lemma_tail_recorded(t, now, 0);
    if worker.0 < s.workers.len() {
        let o = observed(s, now);
        lemma_synced(o, now);
        let u = synced(o, now).state;
        lemma_failed_recorded(o, worker, active_phase(o, worker), reason, now);
        lemma_failed_recorded(u, worker, active_phase(u, worker), reason, now);
    }
}

proof fn lemma_requests_recorded(
    s: SchedulerModel,
    worker: WorkerId,
    reservation: TransactionReservation,
    identity: TransactionIdentity,
    ticket: TransactionTicket,
    now: Duration,
)
    requires
        sound(s),
        windows_recorded(s),
    ensures
        windows_recorded(reserve_step(s, worker, now).state),
        windows_recorded(begin_step(s, reservation, identity, now).state),
        windows_recorded(retry_step(s, ticket, now).state),
{
    lemma_synced(s, now);
    lemma_synced_recorded(s, now);
    let t = observed_and_synced(s, now).state;
    let a = reserve_step(s, worker, now);
    if a.result is Ok {
        lemma_quiet(
            t,
            a.state,
            SchedulerEvent::TransactionReserved { reservation: a.result->Ok_0, at: now },
        );
    }
    assert(windows_recorded(a.state));
    let b = begin_step(s, reservation, identity, now);
    if b.result is Ok {
        lemma_quiet(
            t,
            b.state,
            SchedulerEvent::TransactionStarted { ticket: b.result->Ok_0, retry: false, at: now },
        );
    }
    assert(windows_recorded(b.state));
    let c = retry_step(s, ticket, now);
    if c.result is Ok {
        lemma_quiet(
            t,
            c.state,
            SchedulerEvent::TransactionStarted { ticket, retry: true, at: now },
        );
    }
}

proof fn lemma_start_up_recorded(
    s: SchedulerModel,
    worker: WorkerId,
    session: PreparedSessionId,
    now: Duration,
)
    requires
        sound(s),
        windows_recorded(s),
    ensures
        windows_recorded(prepare_step(s, worker, session, now).state),
        windows_recorded(start_step(s, now).state),
{
    let a = prepare_step(s, worker, session, now).state;
    if a.log != s.log {
        lemma_quiet(s, a, SchedulerEvent::WorkerPrepared { worker, session, at: now });
    }
    let b = start_step(s, now).state;
    if b.log != s.log {
        let release = SchedulerEvent::BarrierReleased { workers: s.schedule.clients, at: now };
        let released = logged(s, release);
        lemma_quiet(s, released, release);
        if let Ok(deadline) = sum_of(now, s.schedule.warmup_duration) {
            lemma_relogged(
                s,
                released,
                b,
                SchedulerEvent::PhaseStarted { phase: PhaseId::Warmup, at: now, deadline },
            );
        }
    }
}

proof fn lemma_call_recorded(s: SchedulerModel, call: SchedulerCall)
    requires
        sound(s),
        windows_recorded(s),
    ensures
        windows_recorded(called(s, call)),
{
    match call {
        SchedulerCall::Prepare { worker, session, now } => {
            lemma_start_up_recorded(s, worker, session, now);
        },
        SchedulerCall::Start { now } => {
            lemma_start_up_recorded(s, WorkerId(0), PreparedSessionId(0), now);
        },
        SchedulerCall::Poll { now } => {
            lemma_supervision_recorded(s, WorkerId(0), Seq::empty(), now);
        },
        SchedulerCall::Reserve { worker, now } => {
            lemma_requests_recorded(s, worker, arbitrary(), arbitrary(), arbitrary(), now);
        },
        SchedulerCall::Begin { reservation, identity, now } => {
            lemma_requests_recorded(s, WorkerId(0), reservation, identity, arbitrary(), now);
        },
        SchedulerCall::Retry { ticket, now } => {
            lemma_requests_recorded(s, WorkerId(0), arbitrary(), arbitrary(), ticket, now);
        },
        SchedulerCall::Finish { ticket, outcome, at } => {
            lemma_endings_recorded(s, ticket, outcome, at);
        },
        SchedulerCall::FinishNow { ticket, outcome, now } => {
            lemma_endings_recorded(s, ticket, outcome, now);
        },
        SchedulerCall::AbandonInflight { ticket, at } => {
            lemma_endings_recorded(s, ticket, AttemptOutcome::ExpectedRollback, at);
        },
        SchedulerCall::AbandonRetry { ticket, now } => {
            lemma_endings_recorded(s, ticket, AttemptOutcome::ExpectedRollback, now);
        },
        SchedulerCall::Fail { worker, reason, now } => {
            lemma_supervision_recorded(s, worker, reason, now);
        },
        SchedulerCall::Summary { now } => {
            lemma_supervision_recorded(s, WorkerId(0), Seq::empty(), now);
        },
    }
}

/// Law: a terminal in time counts in its own window and nowhere else. It makes the
/// window's completed transactions one more, covers the ticket's home warehouse, and of a
/// commit adds the delivered orders, the time since the selection where that is the
/// longest, and for a NewOrder one to the five seconds in which it came. The warmup counts
/// nothing.
pub proof fn law_terminal_counts_in_its_window(
    s: SchedulerModel,
    ticket: TransactionTicket,
    outcome: AttemptOutcome,
    at: Duration,
    j: int,
    b: int,
)
    requires
        sound(s),
        finish_step(s, ticket, outcome, at).result == Ok::<AttemptDisposition, SchedulerFault>(
            AttemptDisposition::Finished,
        ),
        0 <= j < 3,
        0 <= b < 30,
    ensures
        ({
            let t = synced(s, at).state;
            let before = t.windows[j];
            let after = finish_step(s, ticket, outcome, at).state.windows[j];
            let own = ticket.reservation.phase == PhaseId::FormalWindow(j as u8);
            let home = ticket.identity.home_warehouse as int;
            let waited = at.nanos - ticket.reservation.selected_at.nanos;
            &&& at.nanos < ticket.reservation.phase_deadline.nanos
            &&& !own ==> after == before
            &&& own && before.committed < u64::MAX && before.expected_rollbacks < u64::MAX ==> {
                &&& after.committed + after.expected_rollbacks == before.committed
                    + before.expected_rollbacks + 1
                &&& after.committed == before.committed + if outcome is Commit {
                    1int
                } else {
                    0
                }
            }
            &&& own && 1 <= home <= 50 ==> covered_set(after) == covered_set(before).insert(home)
            &&& own ==> after.hot_warehouses == before.hot_warehouses
            &&& own && !(outcome is Commit) ==> after.delivered_orders == before.delivered_orders
                && after.slowest_commit == before.slowest_commit && after.buckets
                == before.buckets
            &&& own && (outcome matches AttemptOutcome::Commit { delivery_processed } && {
                before.delivered_orders + delivery_processed <= u64::MAX
            }) ==> after.delivered_orders == before.delivered_orders
                + outcome->delivery_processed
            &&& own && outcome is Commit ==> {
                &&& after.slowest_commit.nanos >= before.slowest_commit.nanos
                &&& after.slowest_commit.nanos >= waited
                &&& after.slowest_commit == before.slowest_commit
                    || after.slowest_commit.nanos == waited
            }
            &&& own && outcome is Commit && before.buckets[b] < u64::MAX ==> after.buckets[b]
                == before.buckets[b] + if ticket.identity.transaction_type
                == TransactionType::NewOrder && (bounds(t, ticket.reservation.phase) matches Ok(
                (started, _),
            ) && (at.nanos - started.nanos) / 5_000_000_000 == b) {
                1int
            } else {
                0
            }
        }),
{
    lemma_synced(s, at);
    let t = synced(s, at).state;
    let i = ticket.reservation.worker.0 as int;
    assert(attempt_start(t, ticket) is Some);
    assert(selection_sound(t, i, t.workers[i].selection->0));
    let before = t.windows[j];
    let after = finish_step(s, ticket, outcome, at).state.windows[j];
    let home = ticket.identity.home_warehouse as int;
    assert(window_shaped(before));
    if ticket.reservation.phase == PhaseId::FormalWindow(j as u8) && 1 <= home <= 50 {
        assert(covered_set(after) =~= covered_set(before).insert(home));
    }
}

/// Law: the windows say what the events say. After any history of a new scheduler, a
/// window's commits, expected rollbacks and retryable aborts are as many as the events
/// that end an attempt of it so, and the warehouses that it has covered are the home
/// warehouses of those that were committed or rolled back as expected.
pub proof fn law_windows_say_what_was_recorded(
    limits: LocalRuntimeLimits,
    schedule: PhaseScheduleConfig,
    hot: Seq<u16>,
    calls: Seq<SchedulerCall>,
    n: int,
)
    requires
        schedule_valid(schedule),
        hot.len() == 4,
        0 <= n <= calls.len(),
    ensures
        windows_recorded(history(fresh(limits, schedule, hot, Seq::empty()), calls, n)),
    decreases n,
{
    let s = fresh(limits, schedule, hot, Seq::empty());
    law_fresh_is_sound(limits, schedule, hot, Seq::empty());
    if n > 0 {
        law_windows_say_what_was_recorded(limits, schedule, hot, calls, n - 1);
        law_history_keeps_sound(s, calls, n - 1);
        lemma_call_recorded(history(s, calls, n - 1), calls[n - 1]);
    } else {
        assert forall|k: int| 0 <= k < 3 implies window_recorded(
            #[trigger] s.windows[k],
            s.log,
            k,
        ) by {
            assert(covered_set(s.windows[k]) =~= recorded_homes(s.log, k));
        }
    }
}

} // verus!
