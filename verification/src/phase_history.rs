//! Promises of the phase scheduler over any history of calls.
use vstd::prelude::*;

use crate::phase_laws::{
    law_endings_keep_sound, law_fresh_is_sound, law_start_up_keeps_sound,
    law_supervision_keeps_sound, lemma_advance, lemma_begin_keeps_sound, lemma_observed_kept,
    lemma_reserve_keeps_sound, lemma_retry_keeps_sound, lemma_synced, phase_valid, sound,
};
use crate::phase_model::{
    SchedulerModel, SummaryModel, abandon_inflight_step, abandon_retry_step, active_phase,
    advance, begin_step, bounds, clock_fault, deadline_answer, drain_reason, expire_tail, expired,
    failed, finish_now_step, finish_step, finish_synced, fresh, next_number, observed,
    observed_and_synced, phases_left, poll_step, prepare_step, reserve_step, retry_step,
    session_of, start_step, sum_of, summary_step, synced, walked, worker_failed_step,
};
use crate::phase_promises::{law_selection_is_numbered_per_phase, same_numbers};
use crate::phases::{
    AttemptDisposition, AttemptOutcome, FailureModel, LocalRuntimeLimits, PhaseId,
    PhaseScheduleConfig, PreparedSessionId, RecordedEvent, SchedulerEvent, SchedulerFault,
    SelectionState, TransactionIdentity, TransactionReservation, TransactionTicket, WorkerId,
    reservation_of, schedule_valid,
};
use crate::time::Duration;

verus! {

/// One call of a scheduler that may change it, with the time that it read.
pub enum SchedulerCall {
    Prepare { worker: WorkerId, session: PreparedSessionId, now: Duration },
    Start { now: Duration },
    Poll { now: Duration },
    Reserve { worker: WorkerId, now: Duration },
    Begin { reservation: TransactionReservation, identity: TransactionIdentity, now: Duration },
    Retry { ticket: TransactionTicket, now: Duration },
    Finish { ticket: TransactionTicket, outcome: AttemptOutcome, at: Duration },
    FinishNow { ticket: TransactionTicket, outcome: AttemptOutcome, now: Duration },
    AbandonInflight { ticket: TransactionTicket, at: Duration },
    AbandonRetry { ticket: TransactionTicket, now: Duration },
    Fail { worker: WorkerId, reason: Seq<char>, now: Duration },
    Summary { now: Duration },
}

/// The state after a call.
pub open spec fn called(s: SchedulerModel, call: SchedulerCall) -> SchedulerModel {
    match call {
        SchedulerCall::Prepare { worker, session, now } => prepare_step(
            s,
            worker,
            session,
            now,
        ).state,
        SchedulerCall::Start { now } => start_step(s, now).state,
        SchedulerCall::Poll { now } => poll_step(s, now).state,
        SchedulerCall::Reserve { worker, now } => reserve_step(s, worker, now).state,
        SchedulerCall::Begin { reservation, identity, now } => begin_step(
            s,
            reservation,
            identity,
            now,
        ).state,
        SchedulerCall::Retry { ticket, now } => retry_step(s, ticket, now).state,
        SchedulerCall::Finish { ticket, outcome, at } => finish_step(s, ticket, outcome, at).state,
        SchedulerCall::FinishNow { ticket, outcome, now } => finish_now_step(
            s,
            ticket,
            outcome,
            now,
        ).state,
        SchedulerCall::AbandonInflight { ticket, at } => abandon_inflight_step(
            s,
            ticket,
            at,
        ).state,
        SchedulerCall::AbandonRetry { ticket, now } => abandon_retry_step(s, ticket, now).state,
        SchedulerCall::Fail { worker, reason, now } => worker_failed_step(
            s,
            worker,
            reason,
            now,
        ).state,
        SchedulerCall::Summary { now } => summary_step(s, now).state,
    }
}

/// The state after the first `n` calls.
pub open spec fn history(s: SchedulerModel, calls: Seq<SchedulerCall>, n: int) -> SchedulerModel
    decreases n,
{
    if n <= 0 {
        s
    } else {
        called(history(s, calls, n - 1), calls[n - 1])
    }
}

/// The transaction that a call reserved, if it reserved one.
pub open spec fn reserved_by(s: SchedulerModel, call: SchedulerCall) -> Option<
    TransactionReservation,
> {
    match call {
        SchedulerCall::Reserve { worker, now } => match reserve_step(s, worker, now).result {
            Ok(reservation) => Some(reservation),
            Err(_) => None,
        },
        _ => None,
    }
}

/// What the call at `k` of a history reserved.
pub open spec fn reserved_at(s: SchedulerModel, calls: Seq<SchedulerCall>, k: int) -> Option<
    TransactionReservation,
> {
    reserved_by(history(s, calls, k), calls[k])
}

/// How many of the first `n` calls reserved a transaction of a worker in a phase.
pub open spec fn reservations(
    s: SchedulerModel,
    calls: Seq<SchedulerCall>,
    n: int,
    worker: WorkerId,
    phase: PhaseId,
) -> nat
    decreases n,
{
    if n <= 0 {
        0
    } else {
        reservations(s, calls, n - 1, worker, phase) + match reserved_at(s, calls, n - 1) {
            Some(r) => if r.worker == worker && r.phase == phase {
                1nat
            } else {
                0nat
            },
            None => 0nat,
        }
    }
}

/// The worker that a call registered a session for, if it did.
pub open spec fn prepared_by(s: SchedulerModel, call: SchedulerCall) -> Option<WorkerId> {
    match call {
        SchedulerCall::Prepare { worker, session, now } => if prepare_step(
            s,
            worker,
            session,
            now,
        ).result is Ok {
            Some(worker)
        } else {
            None
        },
        _ => None,
    }
}

/// What a call leaves alone: `after` has the timeline of `before` or a later
/// point of it, and only a reservation changes numbers.
spec fn follows(before: SchedulerModel, after: SchedulerModel) -> bool {
    &&& same_numbers(before, after)
    &&& before.origin is Some ==> phases_left(after.announced) <= phases_left(before.announced)
    &&& before.origin is None ==> after.announced == before.announced
    &&& after.origin == before.origin
    &&& forall|i: int|
        0 <= i < before.workers.len() ==> ((#[trigger] after.workers[i]).selection matches Some(
            own,
        ) ==> before.workers[i].selection matches Some(old_own) && reservation_of(own)
            == reservation_of(old_own))
}

proof fn lemma_expired_follows(s: SchedulerModel, phase: PhaseId, at: Duration, n: int)
    requires
        0 <= n <= s.workers.len(),
    ensures
        follows(s, expired(s, phase, at, n)),
        expired(s, phase, at, n).announced == s.announced,
        forall|k: int|
            n <= k < s.workers.len() ==> (#[trigger] expired(s, phase, at, n).workers[k])
                == s.workers[k],
    decreases n,
{
    if n > 0 {
        lemma_expired_follows(s, phase, at, n - 1);
        let before = expired(s, phase, at, n - 1);
        let after = expired(s, phase, at, n);
        assert forall|i: int| 0 <= i < s.workers.len() implies ((
        #[trigger] after.workers[i]).selection matches Some(own)
            ==> s.workers[i].selection matches Some(old_own) && reservation_of(own)
            == reservation_of(old_own)) by {
            assert(before.workers[i].selection matches Some(own)
                ==> s.workers[i].selection matches Some(old_own) && reservation_of(own)
                == reservation_of(old_own));
        }
    }
}

proof fn lemma_walked_follows(s: SchedulerModel, now: Duration)
    requires
        sound(s),
        s.origin is Some,
    ensures
        follows(s, walked(s, now).state),
    decreases phases_left(s.announced),
{
    if let Some(phase) = s.announced {
        if let Ok((_, deadline)) = bounds(s, phase) {
            if now.nanos >= deadline.nanos {
                lemma_expired_follows(s, phase, deadline, s.workers.len() as int);
                lemma_advance(s, phase, deadline);
                let next = advance(s, phase, deadline);
                let quiet = expired(s, phase, deadline, s.workers.len() as int);
                assert(next.state.workers == quiet.workers);
                assert(follows(s, next.state));
                if next.result is Ok {
                    lemma_walked_follows(next.state, now);
                    lemma_follows_on(s, next.state, walked(next.state, now).state);
                }
            }
        }
    }
}

proof fn lemma_follows_on(a: SchedulerModel, b: SchedulerModel, c: SchedulerModel)
    requires
        follows(a, b),
        follows(b, c),
    ensures
        follows(a, c),
{
    assert forall|i: int| 0 <= i < a.workers.len() implies (#[trigger] c.workers[i]).next_txn_no
        == a.workers[i].next_txn_no && c.workers[i].sequence_phase
        == a.workers[i].sequence_phase by {
        assert(b.workers[i].next_txn_no == a.workers[i].next_txn_no);
    }
    assert forall|i: int| 0 <= i < a.workers.len() implies ((
    #[trigger] c.workers[i]).selection matches Some(own)
        ==> a.workers[i].selection matches Some(old_own) && reservation_of(own)
        == reservation_of(old_own)) by {
        assert(b.workers[i].selection matches Some(own)
            ==> a.workers[i].selection matches Some(old_own) && reservation_of(own)
            == reservation_of(old_own));
    }
}

proof fn lemma_synced_follows(s: SchedulerModel, now: Duration)
    requires
        sound(s),
    ensures
        follows(s, synced(s, now).state),
        follows(s, observed(s, now)),
        follows(s, observed_and_synced(s, now).state),
{
    lemma_observed_kept(s, now);
    assert(follows(s, s));
    assert(follows(s, observed(s, now)));
    if s.failure is None && s.origin is Some {
        lemma_walked_follows(s, now);
        lemma_walked_follows(observed(s, now), now);
        lemma_follows_on(s, observed(s, now), walked(observed(s, now), now).state);
    }
}

proof fn lemma_failed_follows(
    s: SchedulerModel,
    worker: WorkerId,
    phase: Option<PhaseId>,
    reason: Seq<char>,
    at: Duration,
)
    requires
        worker.0 < s.workers.len(),
    ensures
        follows(s, failed(s, worker, phase, reason, at)),
{
}

proof fn lemma_tail_follows(s: SchedulerModel, now: Duration, index: int)
    requires
        sound(s),
        0 <= index,
    ensures
        follows(s, expire_tail(s, now, index).state),
    decreases s.workers.len() - index,
{
    assert(follows(s, s));
    if index < s.workers.len() {
        lemma_tail_follows(s, now, index + 1);
        if let Some(SelectionState::InFlight { ticket, .. }) = s.workers[index].selection {
            if let Ok(deadline) = sum_of(
                ticket.reservation.phase_deadline,
                s.limits.phase_tail_grace,
            ) {
                lemma_failed_follows(
                    s,
                    WorkerId(index as u16),
                    Some(ticket.reservation.phase),
                    drain_reason(deadline),
                    now,
                );
            }
        }
    }
}

proof fn lemma_poll_follows(s: SchedulerModel, now: Duration)
    requires
        sound(s),
    ensures
        follows(s, poll_step(s, now).state),
        follows(s, summary_step(s, now).state),
{
    lemma_synced(s, now);
    lemma_synced_follows(s, now);
    let t = observed_and_synced(s, now).state;
    lemma_tail_follows(t, now, 0);
    lemma_follows_on(s, t, expire_tail(t, now, 0).state);
}

proof fn lemma_worker_failed_follows(
    s: SchedulerModel,
    worker: WorkerId,
    reason: Seq<char>,
    now: Duration,
)
    requires
        sound(s),
    ensures
        follows(s, worker_failed_step(s, worker, reason, now).state),
{
    lemma_observed_kept(s, now);
    lemma_synced_follows(s, now);
    lemma_synced_follows(observed(s, now), now);
    assert(follows(s, s));
    let o = observed(s, now);
    let t = if s.origin is Some {
        synced(o, now).state
    } else {
        o
    };
    lemma_follows_on(s, o, t);
    if worker.0 < s.workers.len() {
        lemma_synced(o, now);
        lemma_failed_follows(t, worker, active_phase(t, worker), reason, now);
        lemma_follows_on(s, t, failed(t, worker, active_phase(t, worker), reason, now));
    }
}

proof fn lemma_begin_follows(
    s: SchedulerModel,
    reservation: TransactionReservation,
    identity: TransactionIdentity,
    ticket: TransactionTicket,
    now: Duration,
)
    requires
        sound(s),
    ensures
        follows(s, begin_step(s, reservation, identity, now).state),
        follows(s, retry_step(s, ticket, now).state),
        follows(s, abandon_retry_step(s, ticket, now).state),
{
    lemma_synced(s, now);
    lemma_synced_follows(s, now);
    let t = observed_and_synced(s, now).state;
    assert(follows(s, s));
    if reservation.worker.0 < s.workers.len() {
        if begin_step(s, reservation, identity, now).result is Ok {
            lemma_follows_on(s, t, begin_step(s, reservation, identity, now).state);
        }
    }
    if ticket.reservation.worker.0 < s.workers.len() {
        if retry_step(s, ticket, now).result is Ok {
            lemma_follows_on(s, t, retry_step(s, ticket, now).state);
        }
        if abandon_retry_step(s, ticket, now).result is Ok {
            lemma_follows_on(s, t, abandon_retry_step(s, ticket, now).state);
        }
    }
}

proof fn lemma_finish_synced_follows(
    s: SchedulerModel,
    ticket: TransactionTicket,
    outcome: AttemptOutcome,
    at: Duration,
)
    requires
        ticket.reservation.worker.0 < s.workers.len(),
    ensures
        follows(s, finish_synced(s, ticket, outcome, at).state),
{
    assert(follows(s, s));
}

proof fn lemma_finish_follows(
    s: SchedulerModel,
    ticket: TransactionTicket,
    outcome: AttemptOutcome,
    at: Duration,
)
    requires
        sound(s),
    ensures
        follows(s, finish_step(s, ticket, outcome, at).state),
        follows(s, abandon_inflight_step(s, ticket, at).state),
{
    lemma_synced(s, at);
    lemma_synced_follows(s, at);
    let t = synced(s, at).state;
    assert(follows(s, s));
    if ticket.reservation.worker.0 < s.workers.len() {
        lemma_finish_synced_follows(t, ticket, outcome, at);
        lemma_follows_on(s, t, finish_synced(t, ticket, outcome, at).state);
        if abandon_inflight_step(s, ticket, at).result is Ok {
            lemma_follows_on(s, t, abandon_inflight_step(s, ticket, at).state);
        }
    }
}

/// Every call keeps a scheduler sound, its workers and their sessions.
pub proof fn law_calls_keep_sound(s: SchedulerModel, call: SchedulerCall)
    requires
        sound(s),
    ensures
        sound(called(s, call)),
        called(s, call).schedule == s.schedule,
        called(s, call).workers.len() == s.workers.len(),
        forall|i: int|
            0 <= i < s.workers.len() ==> (#[trigger] called(s, call).workers[i]).session
                == s.workers[i].session || s.workers[i].session is None && (prepared_by(
                s,
                call,
            ) matches Some(w) && w.0 == i),
{
    match call {
        SchedulerCall::Prepare { worker, session, now } => {
            law_start_up_keeps_sound(s, worker, session, now);
        },
        SchedulerCall::Start { now } => {
            law_start_up_keeps_sound(s, WorkerId(0), PreparedSessionId(0), now);
        },
        SchedulerCall::Poll { now } => {
            law_supervision_keeps_sound(s, WorkerId(0), Seq::empty(), now);
        },
        SchedulerCall::Reserve { worker, now } => {
            lemma_reserve_keeps_sound(s, worker, now);
        },
        SchedulerCall::Begin { reservation, identity, now } => {
            lemma_begin_keeps_sound(s, reservation, identity, now);
        },
        SchedulerCall::Retry { ticket, now } => {
            lemma_retry_keeps_sound(s, ticket, now);
        },
        SchedulerCall::Finish { ticket, outcome, at } => {
            law_endings_keep_sound(s, ticket, outcome, at);
        },
        SchedulerCall::FinishNow { ticket, outcome, now } => {
            law_endings_keep_sound(s, ticket, outcome, now);
        },
        SchedulerCall::AbandonInflight { ticket, at } => {
            law_endings_keep_sound(s, ticket, AttemptOutcome::ExpectedRollback, at);
        },
        SchedulerCall::AbandonRetry { ticket, now } => {
            law_endings_keep_sound(s, ticket, AttemptOutcome::ExpectedRollback, now);
        },
        SchedulerCall::Fail { worker, reason, now } => {
            law_supervision_keeps_sound(s, worker, reason, now);
        },
        SchedulerCall::Summary { now } => {
            law_supervision_keeps_sound(s, WorkerId(0), Seq::empty(), now);
        },
    }
}

/// A history keeps a scheduler sound, and its workers.
pub proof fn law_history_keeps_sound(s: SchedulerModel, calls: Seq<SchedulerCall>, n: int)
    requires
        sound(s),
        0 <= n <= calls.len(),
    ensures
        sound(history(s, calls, n)),
        history(s, calls, n).schedule == s.schedule,
        history(s, calls, n).workers.len() == s.workers.len(),
    decreases n,
{
    if n > 0 {
        law_history_keeps_sound(s, calls, n - 1);
        law_calls_keep_sound(history(s, calls, n - 1), calls[n - 1]);
    }
}

/// Law: a registered session stays. Whatever is called after a worker has its
/// session, it keeps that session, and no other worker has it.
pub proof fn law_sessions_stay(
    s: SchedulerModel,
    calls: Seq<SchedulerCall>,
    n: int,
    worker: WorkerId,
    session: PreparedSessionId,
)
    requires
        sound(s),
        0 <= n <= calls.len(),
        session_of(s, worker) == Some(session),
    ensures
        session_of(history(s, calls, n), worker) == Some(session),
        forall|other: WorkerId|
            other != worker ==> #[trigger] session_of(history(s, calls, n), other) != Some(session),
    decreases n,
{
    law_history_keeps_sound(s, calls, n);
    if n > 0 {
        law_sessions_stay(s, calls, n - 1, worker, session);
        let before = history(s, calls, n - 1);
        law_history_keeps_sound(s, calls, n - 1);
        law_calls_keep_sound(before, calls[n - 1]);
        assert(called(before, calls[n - 1]).workers[worker.0 as int].session
            == before.workers[worker.0 as int].session);
    }
    let t = history(s, calls, n);
    assert forall|other: WorkerId| other != worker implies #[trigger] session_of(t, other) != Some(
        session,
    ) by {
        if other.0 < t.workers.len() {
            if other.0 < worker.0 {
                assert(t.workers[other.0 as int].session is Some ==> t.workers[worker.0 as int].session
                    != t.workers[other.0 as int].session);
            } else {
                assert(t.workers[worker.0 as int].session is Some ==> t.workers[other.0 as int].session
                    != t.workers[worker.0 as int].session);
            }
        }
    }
}

/// Law: a worker that never registered has no session, nor has one that the
/// schedule does not configure.
pub proof fn law_sessions_are_registered(
    limits: LocalRuntimeLimits,
    schedule: PhaseScheduleConfig,
    hot: Seq<u16>,
    log: Seq<RecordedEvent>,
    calls: Seq<SchedulerCall>,
    n: int,
    worker: WorkerId,
)
    requires
        schedule_valid(schedule),
        hot.len() == 4,
        0 <= n <= calls.len(),
        worker.0 >= schedule.clients || forall|k: int|
            0 <= k < n ==> #[trigger] prepared_by(
                history(fresh(limits, schedule, hot, log), calls, k),
                calls[k],
            ) != Some(worker),
    ensures
        session_of(history(fresh(limits, schedule, hot, log), calls, n), worker) is None,
    decreases n,
{
    let s = fresh(limits, schedule, hot, log);
    law_fresh_is_sound(limits, schedule, hot, log);
    law_history_keeps_sound(s, calls, n);
    if n > 0 && worker.0 < schedule.clients {
        law_sessions_are_registered(limits, schedule, hot, log, calls, n - 1, worker);
        let before = history(s, calls, n - 1);
        law_history_keeps_sound(s, calls, n - 1);
        law_calls_keep_sound(before, calls[n - 1]);
        assert(prepared_by(before, calls[n - 1]) != Some(worker));
        let after = called(before, calls[n - 1]);
        assert(after.workers[worker.0 as int].session == before.workers[worker.0 as int].session
            || before.workers[worker.0 as int].session is None && (prepared_by(
            before,
            calls[n - 1],
        ) matches Some(w) && w.0 == worker.0));
    }
}

/// Any call but a reservation leaves numbers and the held reservations alone;
/// the start announces the first phase.
proof fn lemma_call_follows(s: SchedulerModel, call: SchedulerCall)
    requires
        sound(s),
        !(call is Reserve),
    ensures
        same_numbers(s, called(s, call)),
        s.origin is Some ==> phases_left(called(s, call).announced) <= phases_left(s.announced),
        s.origin is Some ==> called(s, call).origin is Some,
        forall|i: int|
            0 <= i < s.workers.len() ==> ((
            #[trigger] called(s, call).workers[i]).selection matches Some(own)
                ==> s.workers[i].selection matches Some(old_own) && reservation_of(own)
                == reservation_of(old_own)),
{
    match call {
        SchedulerCall::Prepare { worker, session, now } => {},
        SchedulerCall::Start { now } => {},
        SchedulerCall::Poll { now } => {
            lemma_poll_follows(s, now);
        },
        SchedulerCall::Reserve { worker, now } => {},
        SchedulerCall::Begin { reservation, identity, now } => {
            lemma_begin_follows(
                s,
                reservation,
                identity,
                TransactionTicket { reservation, identity },
                now,
            );
        },
        SchedulerCall::Retry { ticket, now } => {
            lemma_begin_follows(s, ticket.reservation, ticket.identity, ticket, now);
        },
        SchedulerCall::Finish { ticket, outcome, at } => {
            lemma_finish_follows(s, ticket, outcome, at);
        },
        SchedulerCall::FinishNow { ticket, outcome, now } => {
            assert(follows(s, s));
            lemma_observed_kept(s, now);
            lemma_synced_follows(s, now);
            lemma_finish_follows(observed(s, now), ticket, outcome, now);
            lemma_follows_on(
                s,
                observed(s, now),
                finish_step(observed(s, now), ticket, outcome, now).state,
            );
        },
        SchedulerCall::AbandonInflight { ticket, at } => {
            lemma_finish_follows(s, ticket, AttemptOutcome::ExpectedRollback, at);
        },
        SchedulerCall::AbandonRetry { ticket, now } => {
            lemma_begin_follows(s, ticket.reservation, ticket.identity, ticket, now);
        },
        SchedulerCall::Fail { worker, reason, now } => {
            lemma_worker_failed_follows(s, worker, reason, now);
        },
        SchedulerCall::Summary { now } => {
            lemma_poll_follows(s, now);
        },
    }
}

/// What a reservation changes: the numbers of its worker alone.
proof fn lemma_reserve_follows(s: SchedulerModel, worker: WorkerId, now: Duration)
    requires
        sound(s),
    ensures
        ({
            let step = reserve_step(s, worker, now);
            let t = step.state;
            let w = worker.0 as int;
            &&& s.origin is Some ==> phases_left(t.announced) <= phases_left(s.announced)
            &&& t.origin == s.origin
            &&& t.workers.len() == s.workers.len()
            &&& forall|i: int|
                0 <= i < s.workers.len() && i != w ==> (#[trigger] t.workers[i]).next_txn_no
                    == s.workers[i].next_txn_no && t.workers[i].sequence_phase
                    == s.workers[i].sequence_phase && (t.workers[i].selection matches Some(own)
                    ==> s.workers[i].selection matches Some(old_own) && reservation_of(own)
                    == reservation_of(old_own))
            &&& match step.result {
                Ok(r) => {
                    &&& s.origin is Some
                    &&& w < s.workers.len()
                    &&& s.next_ticket_id < u64::MAX
                    &&& t.next_ticket_id == s.next_ticket_id + 1
                    &&& r.id == s.next_ticket_id
                    &&& r.worker == worker
                    &&& phase_valid(r.phase)
                    &&& t.announced == Some(r.phase)
                    &&& r.txn_no == next_number(s.workers[w], r.phase)
                    &&& t.workers[w].sequence_phase == Some(r.phase)
                    &&& t.workers[w].next_txn_no == r.txn_no + 1
                    &&& t.workers[w].selection == Some(SelectionState::Reserved(r))
                    &&& t.log.last() == (SchedulerEvent::TransactionReserved {
                        reservation: r,
                        at: now,
                    })@
                    &&& t.log.len() > 0
                },
                Err(_) => {
                    &&& t.next_ticket_id == s.next_ticket_id
                    &&& same_numbers(s, t) || (s.next_ticket_id == u64::MAX && w < s.workers.len()
                        && t.workers[w].sequence_phase == t.announced && t.announced is Some
                        && t.workers[w].selection is None && s.origin is Some)
                    &&& same_numbers(s, t) && w < s.workers.len() ==> (
                    t.workers[w].selection matches Some(own)
                        ==> s.workers[w].selection matches Some(old_own) && reservation_of(own)
                        == reservation_of(old_own))
                },
            }
        }),
{
    lemma_synced(s, now);
    lemma_synced_follows(s, now);
    assert(follows(s, s));
    law_selection_is_numbered_per_phase(s, worker, now);
}

/// How far a phase is from the end.
spec fn rank(phase: PhaseId) -> nat {
    phases_left(Some(phase))
}

/// A worker's numbers stand for its reservations so far.
spec fn worker_counted(
    s: SchedulerModel,
    calls: Seq<SchedulerCall>,
    n: int,
    t: SchedulerModel,
    w: int,
) -> bool {
    let own = t.workers[w];
    let worker = WorkerId(w as u16);
    &&& t.origin is None ==> own.sequence_phase is None
    &&& own.sequence_phase matches Some(current) ==> phase_valid(current) && rank(current)
        >= phases_left(t.announced) && (t.next_ticket_id == u64::MAX || own.next_txn_no
        == reservations(s, calls, n, worker, current))
    &&& forall|phase: PhaseId| #[trigger]
        reservations(s, calls, n, worker, phase) > 0 ==> phase_valid(phase) && (
        own.sequence_phase matches Some(current) && rank(phase) >= rank(current))
    &&& own.selection matches Some(selection) ==> t.next_ticket_id == u64::MAX || (
    own.sequence_phase == Some(reservation_of(selection).phase) && own.next_txn_no
        == reservation_of(selection).txn_no + 1)
}

proof fn lemma_counted(s: SchedulerModel, calls: Seq<SchedulerCall>, n: int, w: int)
    requires
        sound(s),
        0 <= n <= calls.len(),
        0 <= w < s.workers.len(),
        s.origin is None,
        s.workers[w].sequence_phase is None,
        s.workers[w].selection is None,
    ensures
        worker_counted(s, calls, n, history(s, calls, n), w),
    decreases n,
{
    if n > 0 {
        lemma_counted(s, calls, n - 1, w);
        law_history_keeps_sound(s, calls, n);
        law_history_keeps_sound(s, calls, n - 1);
        lemma_worker_counted(s, calls, n, w);
    }
}

/// Every reservation so far has an identity below the next one.
proof fn lemma_ids_below(s: SchedulerModel, calls: Seq<SchedulerCall>, n: int, k: int)
    requires
        sound(s),
        0 <= k < n <= calls.len(),
    ensures
        reserved_at(s, calls, k) matches Some(r) ==> r.id < history(s, calls, n).next_ticket_id,
    decreases n,
{
    law_history_keeps_sound(s, calls, n - 1);
    let before = history(s, calls, n - 1);
    if k < n - 1 {
        lemma_ids_below(s, calls, n - 1, k);
    }
    if let SchedulerCall::Reserve { worker, now } = calls[n - 1] {
        lemma_reserve_follows(before, worker, now);
    } else {
        lemma_call_follows(before, calls[n - 1]);
    }
}

proof fn lemma_worker_counted(s: SchedulerModel, calls: Seq<SchedulerCall>, n: int, w: int)
    requires
        0 < n <= calls.len(),
        0 <= w < s.workers.len(),
        sound(history(s, calls, n - 1)),
        sound(history(s, calls, n)),
        history(s, calls, n - 1).workers.len() == s.workers.len(),
        worker_counted(s, calls, n - 1, history(s, calls, n - 1), w),
    ensures
        worker_counted(s, calls, n, history(s, calls, n), w),
{
    let before = history(s, calls, n - 1);
    let t = history(s, calls, n);
    let call = calls[n - 1];
    let own = WorkerId(w as u16);
    assert(t == called(before, call));
    assert(w < before.schedule.clients);
    assert(own.0 == w);
    let made = reserved_at(s, calls, n - 1);
    assert forall|phase: PhaseId| #[trigger] reservations(s, calls, n, own, phase)
        == reservations(s, calls, n - 1, own, phase) + if made matches Some(r) && r.worker == own
        && r.phase == phase {
        1nat
    } else {
        0nat
    } by {}
    if let SchedulerCall::Reserve { worker, now } = call {
        lemma_reserve_follows(before, worker, now);
        if worker == own {
            if let Some(r) = made {
                let old_count = reservations(s, calls, n - 1, own, r.phase);
                if before.workers[w].sequence_phase != Some(r.phase) && old_count > 0 {
                    let current = before.workers[w].sequence_phase->0;
                    assert(rank(r.phase) >= rank(current));
                    assert(rank(current) >= phases_left(before.announced));
                    assert(false);
                }
            }
        } else {
            assert(worker.0 != own.0);
        }
    } else {
        lemma_call_follows(before, call);
        if before.origin is None {
            assert(before.workers[w].sequence_phase is None);
        }
    }
}

/// Law: reservations are numbered per worker and phase. After any history of a
/// new scheduler, a reservation has the number of that worker's earlier ones in
/// its phase, a higher identity than every earlier one, and is made before the
/// end of its phase; it is the last event.
pub proof fn law_reservations_are_counted(
    limits: LocalRuntimeLimits,
    schedule: PhaseScheduleConfig,
    hot: Seq<u16>,
    log: Seq<RecordedEvent>,
    calls: Seq<SchedulerCall>,
    n: int,
    worker: WorkerId,
    now: Duration,
)
    requires
        schedule_valid(schedule),
        hot.len() == 4,
        0 <= n <= calls.len(),
    ensures
        ({
            let start = fresh(limits, schedule, hot, log);
            let step = reserve_step(history(start, calls, n), worker, now);
            step.result matches Ok(r) ==> {
                &&& r.worker == worker
                &&& r.selected_at == now
                &&& now.nanos < r.phase_deadline.nanos
                &&& r.txn_no == reservations(start, calls, n, worker, r.phase)
                &&& forall|k: int|
                    0 <= k < n ==> (#[trigger] reserved_at(start, calls, k) matches Some(earlier)
                        ==> earlier.id < r.id)
                &&& step.state.log.len() > 0
                &&& step.state.log.last() == (SchedulerEvent::TransactionReserved {
                    reservation: r,
                    at: now,
                })@
            }
        }),
{
    let start = fresh(limits, schedule, hot, log);
    law_fresh_is_sound(limits, schedule, hot, log);
    law_history_keeps_sound(start, calls, n);
    let s = history(start, calls, n);
    assert forall|k: int| 0 <= k < n implies (#[trigger] reserved_at(start, calls, k) matches Some(
        earlier,
    ) ==> earlier.id < s.next_ticket_id) by {
        lemma_ids_below(start, calls, n, k);
    }
    lemma_reserve_follows(s, worker, now);
    law_selection_is_numbered_per_phase(s, worker, now);
    if let Ok(r) = reserve_step(s, worker, now).result {
        let w = worker.0 as int;
        lemma_counted(start, calls, n, w);
        assert(WorkerId(w as u16) == worker);
        let old_count = reservations(start, calls, n, worker, r.phase);
        if s.workers[w].sequence_phase != Some(r.phase) && old_count > 0 {
            let current = s.workers[w].sequence_phase->0;
            assert(rank(r.phase) >= rank(current));
            assert(false);
        }
    }
}

/// Calls among which no reservation of a worker succeeds leave its numbers
/// alone, until identities have run out.
proof fn lemma_quiet(s: SchedulerModel, calls: Seq<SchedulerCall>, n: int, worker: WorkerId)
    requires
        sound(s),
        worker.0 < s.workers.len(),
        0 <= n <= calls.len(),
        forall|k: int|
            0 <= k < n ==> !(#[trigger] reserved_at(s, calls, k) matches Some(r) && r.worker
                == worker),
    ensures
        sound(history(s, calls, n)),
        ({
            let t = history(s, calls, n);
            let w = worker.0 as int;
            t.next_ticket_id == u64::MAX || (t.workers[w].next_txn_no == s.workers[w].next_txn_no
                && t.workers[w].sequence_phase == s.workers[w].sequence_phase)
        }),
    decreases n,
{
    law_history_keeps_sound(s, calls, n);
    if n > 0 {
        law_history_keeps_sound(s, calls, n - 1);
        lemma_quiet(s, calls, n - 1, worker);
        let before = history(s, calls, n - 1);
        let t = history(s, calls, n);
        let w = worker.0 as int;
        assert(t == called(before, calls[n - 1]));
        assert(!(reserved_at(s, calls, n - 1) matches Some(r) && r.worker == worker));
        if let SchedulerCall::Reserve { worker: other, now } = calls[n - 1] {
            lemma_reserve_follows(before, other, now);
            if other != worker {
                assert(other.0 != worker.0);
                assert(t.workers[w].next_txn_no == before.workers[w].next_txn_no);
            }
        } else {
            lemma_call_follows(before, calls[n - 1]);
            assert(t.workers[w].next_txn_no == before.workers[w].next_txn_no);
        }
    }
}

/// Law: a retry consumes no number. After any history of a new scheduler in which
/// a ticket is sent again, the next reservation of its worker, if it is in the
/// same phase, has the number behind the ticket's.
pub proof fn law_number_after_retry(
    limits: LocalRuntimeLimits,
    schedule: PhaseScheduleConfig,
    hot: Seq<u16>,
    log: Seq<RecordedEvent>,
    calls: Seq<SchedulerCall>,
    n: int,
    ticket: TransactionTicket,
    sent: Duration,
    later: Seq<SchedulerCall>,
    now: Duration,
)
    requires
        schedule_valid(schedule),
        hot.len() == 4,
        0 <= n <= calls.len(),
        ({
            let s = history(fresh(limits, schedule, hot, log), calls, n);
            let t = retry_step(s, ticket, sent).state;
            &&& retry_step(s, ticket, sent).result is Ok
            &&& forall|k: int|
                0 <= k < later.len() ==> !(#[trigger] reserved_at(t, later, k) matches Some(r)
                    && r.worker == ticket.reservation.worker)
        }),
    ensures
        ({
            let s = history(fresh(limits, schedule, hot, log), calls, n);
            let t = retry_step(s, ticket, sent).state;
            let u = history(t, later, later.len() as int);
            reserve_step(u, ticket.reservation.worker, now).result matches Ok(r) ==> r.phase
                == ticket.reservation.phase ==> r.txn_no == ticket.reservation.txn_no + 1
        }),
{
    let start = fresh(limits, schedule, hot, log);
    law_fresh_is_sound(limits, schedule, hot, log);
    law_history_keeps_sound(start, calls, n);
    let s = history(start, calls, n);
    let worker = ticket.reservation.worker;
    let w = worker.0 as int;
    let t = retry_step(s, ticket, sent).state;
    lemma_retry_keeps_sound(s, ticket, sent);
    lemma_begin_follows(s, ticket.reservation, ticket.identity, ticket, sent);
    assert(t.workers[w].selection is Some);
    lemma_counted(start, calls, n, w);
    assert(t.workers[w].next_txn_no == s.workers[w].next_txn_no);
    lemma_quiet(t, later, later.len() as int, worker);
    let u = history(t, later, later.len() as int);
    lemma_reserve_follows(u, worker, now);
    if reserve_step(u, worker, now).result is Ok {
        assert(u.next_ticket_id < u64::MAX);
        lemma_ids_grow(t, later, later.len() as int);
    }
}

proof fn lemma_ids_grow(s: SchedulerModel, calls: Seq<SchedulerCall>, n: int)
    requires
        sound(s),
        0 <= n <= calls.len(),
    ensures
        history(s, calls, n).next_ticket_id >= s.next_ticket_id,
    decreases n,
{
    if n > 0 {
        lemma_ids_grow(s, calls, n - 1);
        law_history_keeps_sound(s, calls, n - 1);
        let before = history(s, calls, n - 1);
        if let SchedulerCall::Reserve { worker, now } = calls[n - 1] {
            lemma_reserve_follows(before, worker, now);
        } else {
            lemma_call_follows(before, calls[n - 1]);
        }
    }
}

/// Whether a run answers every request of a worker at `now` with a failure.
pub open spec fn answers_with(
    s: SchedulerModel,
    failure: FailureModel,
    worker: WorkerId,
    now: Duration,
) -> bool {
    let fault = SchedulerFault::RunFailed(failure);
    &&& start_step(s, now).result == Err::<(), _>(fault)
    &&& poll_step(s, now).result == Err::<(), _>(fault)
    &&& summary_step(s, now).result == Err::<SummaryModel, _>(fault)
    &&& reserve_step(s, worker, now).result == Err::<TransactionReservation, _>(fault)
    &&& forall|session: PreparedSessionId|
        (#[trigger] prepare_step(s, worker, session, now)).result == Err::<(), _>(fault)
    &&& forall|reservation: TransactionReservation, identity: TransactionIdentity|
        reservation.worker == worker ==> (#[trigger] begin_step(
            s,
            reservation,
            identity,
            now,
        )).result == Err::<TransactionTicket, _>(fault)
    &&& forall|ticket: TransactionTicket|
        ticket.reservation.worker == worker ==> {
            &&& (#[trigger] retry_step(s, ticket, now)).result == Err::<TransactionTicket, _>(fault)
            &&& deadline_answer(s, ticket) == Err::<Duration, _>(fault)
            &&& abandon_inflight_step(s, ticket, now).result == Err::<(), _>(fault)
            &&& abandon_retry_step(s, ticket, now).result == Err::<(), _>(fault)
        }
    &&& forall|ticket: TransactionTicket, outcome: AttemptOutcome|
        ticket.reservation.worker == worker ==> {
            &&& (#[trigger] finish_step(s, ticket, outcome, now)).result == Err::<
                AttemptDisposition,
                _,
            >(fault)
            &&& finish_now_step(s, ticket, outcome, now).result == Err::<AttemptDisposition, _>(
                fault,
            )
        }
    &&& forall|reason: Seq<char>|
        (#[trigger] worker_failed_step(s, worker, reason, now)).result == Err::<(), _>(fault)
}

/// A call of a failed run changes nothing but the last clock reading.
proof fn lemma_failed_is_frozen(s: SchedulerModel, call: SchedulerCall)
    requires
        s.failure is Some,
    ensures
        called(s, call) == (SchedulerModel {
            last_observed: called(s, call).last_observed,
            ..s
        }),
{
}

/// Law: a failed run stays as it failed. Whatever is called, its failure, its
/// windows, its workers and its events stay, and every request of a configured
/// worker is answered with that failure.
pub proof fn law_failure_lasts(
    s: SchedulerModel,
    failure: FailureModel,
    calls: Seq<SchedulerCall>,
    n: int,
)
    requires
        s.failure == Some(failure),
        0 <= n <= calls.len(),
    ensures
        ({
            let t = history(s, calls, n);
            &&& t == (SchedulerModel { last_observed: t.last_observed, ..s })
            &&& forall|worker: WorkerId, now: Duration|
                worker.0 < s.workers.len() && clock_fault(t, now) is None
                    ==> #[trigger] answers_with(t, failure, worker, now)
        }),
    decreases n,
{
    if n > 0 {
        law_failure_lasts(s, failure, calls, n - 1);
        lemma_failed_is_frozen(history(s, calls, n - 1), calls[n - 1]);
    }
}

/// Law: a reported failure fails the run. While the run has not failed, a report of
/// a configured worker is answered with the failure that it makes: this worker and
/// this reason; no later call changes that failure or a window.
pub proof fn law_reported_failure_fails_the_run(
    s: SchedulerModel,
    worker: WorkerId,
    reason: Seq<char>,
    now: Duration,
    calls: Seq<SchedulerCall>,
    n: int,
)
    requires
        s.failure is None,
        worker.0 < s.workers.len(),
        clock_fault(s, now) is None,
        s.origin is Some ==> synced(observed(s, now), now).result is Ok,
        0 <= n <= calls.len(),
    ensures
        ({
            let step = worker_failed_step(s, worker, reason, now);
            let t = history(step.state, calls, n);
            exists|failure: FailureModel|
                {
                    &&& failure.worker == worker
                    &&& failure.reason == reason
                    &&& step.result == Err::<(), _>(SchedulerFault::RunFailed(failure))
                    &&& #[trigger] failed_with(t, failure)
                    &&& t.windows == step.state.windows
                    &&& forall|other: WorkerId, later: Duration|
                        other.0 < t.workers.len() && clock_fault(t, later) is None
                            ==> #[trigger] answers_with(t, failure, other, later)
                }
        }),
{
    let step = worker_failed_step(s, worker, reason, now);
    let failure = step.state.failure->0;
    law_failure_lasts(step.state, failure, calls, n);
    assert(failed_with(history(step.state, calls, n), failure));
}

/// Whether a run has failed in this way.
pub open spec fn failed_with(s: SchedulerModel, failure: FailureModel) -> bool {
    s.failure == Some(failure)
}

} // verus!
