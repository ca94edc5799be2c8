//! What a scheduler makes of the time.
use vstd::prelude::*;

use crate::phase_laws::{lemma_advance, lemma_observed_kept, lemma_synced, sound};
use crate::phase_model::{
    SchedulerModel, advance, bounds, expire_tail, observed, observed_and_synced, phases_left,
    poll_step, ready_count, start_step, synced, walked,
};
use crate::phases::{PhaseId, SchedulerFault, SelectionState, WorkerState, next_phase};
use crate::time::Duration;

verus! {

/// When a phase begins, in nanoseconds from the clock's epoch: the warmup with the run,
/// and each window behind the warmup and the windows before it.
pub open spec fn begins_at(s: SchedulerModel, phase: PhaseId) -> int {
    let origin = s.origin->0.nanos as int;
    match phase {
        PhaseId::Warmup => origin,
        PhaseId::FormalWindow(k) => origin + s.schedule.warmup_duration.nanos + k
            * s.schedule.measurement_window_duration.nanos,
    }
}

/// When a phase ends: its duration later.
pub open spec fn ends_at(s: SchedulerModel, phase: PhaseId) -> int {
    begins_at(s, phase) + match phase {
        PhaseId::Warmup => s.schedule.warmup_duration.nanos as int,
        PhaseId::FormalWindow(_) => s.schedule.measurement_window_duration.nanos as int,
    }
}

proof fn lemma_span(s: SchedulerModel, phase: PhaseId)
    requires
        s.origin is Some,
        bounds(s, phase) is Ok,
    ensures
        (bounds(s, phase)->Ok_0).0.nanos == begins_at(s, phase),
        (bounds(s, phase)->Ok_0).1.nanos == ends_at(s, phase),
        next_phase(phase) matches Some(next) ==> begins_at(s, next) == ends_at(s, phase),
        next_phase(phase) is None ==> phase is FormalWindow,
{
    if let PhaseId::FormalWindow(k) = phase {
        let d = s.schedule.measurement_window_duration.nanos as int;
        assert(d * k == k * d) by (nonlinear_arith);
        assert((k + 1) * d == k * d + d) by (nonlinear_arith);
        assert(0 <= k * d) by (nonlinear_arith)
            requires
                k >= 0,
                d >= 0,
        ;
    } else {
        assert(0 * s.schedule.measurement_window_duration.nanos == 0);
    }
}

proof fn lemma_walked_to(s: SchedulerModel, now: Duration)
    requires
        sound(s),
        s.origin is Some,
        s.announced matches Some(phase) ==> begins_at(s, phase) <= now.nanos,
        s.announced is None ==> ends_at(s, PhaseId::FormalWindow(2)) <= now.nanos,
        walked(s, now).result is Ok,
    ensures
        ({
            let t = walked(s, now).state;
            &&& t.announced matches Some(phase) ==> begins_at(s, phase) <= now.nanos < ends_at(
                s,
                phase,
            )
            &&& t.announced is None ==> ends_at(s, PhaseId::FormalWindow(2)) <= now.nanos
        }),
    decreases phases_left(s.announced),
{
    if let Some(phase) = s.announced {
        lemma_span(s, phase);
        let deadline = (bounds(s, phase)->Ok_0).1;
        if now.nanos >= deadline.nanos {
            lemma_advance(s, phase, deadline);
            let t = advance(s, phase, deadline).state;
            assert(t.origin == s.origin && t.schedule == s.schedule);
            lemma_walked_to(t, now);
        }
    }
}

/// Law: the announced phase is the one that holds the time. Where the clock has not gone
/// back behind the announced phase, a synchronised scheduler announces the phase that has
/// begun and has not ended, and none once the last window has ended.
pub proof fn law_announced_phase_holds_the_time(s: SchedulerModel, now: Duration)
    requires
        sound(s),
        s.origin is Some,
        s.announced matches Some(phase) ==> begins_at(s, phase) <= now.nanos,
        s.announced is None ==> ends_at(s, PhaseId::FormalWindow(2)) <= now.nanos,
        synced(s, now).result is Ok,
    ensures
        ({
            let t = synced(s, now).state;
            &&& t.announced matches Some(phase) ==> begins_at(s, phase) <= now.nanos < ends_at(
                s,
                phase,
            )
            &&& t.announced is None <==> ends_at(s, PhaseId::FormalWindow(2)) <= now.nanos
        }),
{
    lemma_walked_to(s, now);
    lemma_synced(s, now);
    let t = synced(s, now).state;
    if let Some(phase) = t.announced {
        let w = s.schedule.warmup_duration.nanos as int;
        let d = s.schedule.measurement_window_duration.nanos as int;
        match phase {
            PhaseId::Warmup => {
                assert(2 * d + d >= 0);
            },
            PhaseId::FormalWindow(k) => {
                assert(k < 3);
                assert(k * d + d <= 2 * d + d) by (nonlinear_arith)
                    requires
                        k <= 2,
                        d >= 0,
                ;
            },
        }
    }
}

proof fn lemma_ready(workers: Seq<WorkerState>, n: int)
    requires
        0 <= n <= workers.len(),
    ensures
        ready_count(workers, n) <= n,
        ready_count(workers, n) == n <==> forall|i: int|
            0 <= i < n ==> (#[trigger] workers[i]).session is Some,
    decreases n,
{
    if n > 0 {
        lemma_ready(workers, n - 1);
    }
}

/// Law: a run starts when every worker is there. It starts exactly once, with the warmup,
/// at the time of the call, and not before every configured worker has its session.
pub proof fn law_run_starts_with_every_worker(s: SchedulerModel, now: Duration)
    requires
        sound(s),
    ensures
        start_step(s, now).result is Ok ==> {
            let t = start_step(s, now).state;
            &&& s.origin is None
            &&& t.origin == Some(now)
            &&& t.announced == Some(PhaseId::Warmup)
            &&& forall|i: int|
                0 <= i < s.schedule.clients ==> (#[trigger] s.workers[i]).session is Some
            &&& t.workers == s.workers
            &&& t.windows == s.windows
        },
        (exists|i: int| 0 <= i < s.workers.len() && (#[trigger] s.workers[i]).session is None)
            && s.failure is None && s.origin is None ==> start_step(s, now).result is Err
            && start_step(s, now).state == s,
{
    lemma_ready(s.workers, s.workers.len() as int);
}

/// Whether a worker has an attempt in flight that should have ended by now: its phase's
/// deadline and the grace behind it have passed.
pub open spec fn is_overdue(s: SchedulerModel, i: int, now: Duration) -> bool {
    s.workers[i].selection matches Some(SelectionState::InFlight { ticket, .. }) && now.nanos
        >= ticket.reservation.phase_deadline.nanos + s.limits.phase_tail_grace.nanos
}

proof fn lemma_tail(s: SchedulerModel, now: Duration, index: int)
    requires
        sound(s),
        0 <= index <= s.workers.len(),
    ensures
        expire_tail(s, now, index).result is Ok ==> expire_tail(s, now, index).state == s
            && forall|i: int| index <= i < s.workers.len() ==> !is_overdue(s, i, now),
        expire_tail(s, now, index).result matches Err(SchedulerFault::RunFailed(failure)) ==> {
            let i = failure.worker.0 as int;
            &&& index <= i < s.workers.len()
            &&& is_overdue(s, i, now)
            &&& forall|j: int| index <= j < i ==> !is_overdue(s, j, now)
            &&& expire_tail(s, now, index).state.failure == Some(failure)
        },
    decreases s.workers.len() - index,
{
    if index < s.workers.len() {
        lemma_tail(s, now, index + 1);
    }
}

/// Law: a poll fails the run for an overdue attempt. It succeeds only while none is
/// overdue, and where it fails the run it is for the first worker with one.
pub proof fn law_poll_fails_overdue_attempts(s: SchedulerModel, now: Duration)
    requires
        sound(s),
        s.failure is None,
    ensures
        poll_step(s, now).result is Ok ==> forall|i: int|
            0 <= i < s.workers.len() ==> !is_overdue(poll_step(s, now).state, i, now),
        poll_step(s, now).result matches Err(SchedulerFault::RunFailed(failure)) ==> {
            let t = observed_and_synced(s, now).state;
            let i = failure.worker.0 as int;
            &&& 0 <= i < s.workers.len()
            &&& is_overdue(t, i, now)
            &&& forall|j: int| 0 <= j < i ==> !is_overdue(t, j, now)
        },
{
    lemma_synced(s, now);
    let t = observed_and_synced(s, now).state;
    if observed_and_synced(s, now).result is Ok {
        lemma_tail(t, now, 0);
    } else {
        lemma_observed_kept(s, now);
        lemma_no_failure(observed(s, now), now);
    }
}

/// Bringing the phases up to the clock fails no run.
proof fn lemma_no_failure(s: SchedulerModel, now: Duration)
    requires
        sound(s),
    ensures
        s.failure is None && s.origin is Some ==> !(walked(s, now).result matches Err(
            SchedulerFault::RunFailed(_),
        )),
    decreases phases_left(s.announced),
{
    if s.failure is None && s.origin is Some {
        if let Some(phase) = s.announced {
            if let Ok((_, deadline)) = bounds(s, phase) {
                if now.nanos >= deadline.nanos {
                    lemma_advance(s, phase, deadline);
                    let next = advance(s, phase, deadline);
                    if next.result is Ok {
                        lemma_no_failure(next.state, now);
                    }
                }
            }
        }
    }
}

} // verus!
