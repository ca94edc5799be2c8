//! What every operation of the phase scheduler keeps.
use vstd::prelude::*;

use crate::measurement::{
    WindowModel, consistent, has_room, window_shaped, with_abandoned, with_commit,
    with_cutoff_stop, with_expected_rollback, with_grace_tail, with_retry_abandoned,
    with_retry_abort,
};
use crate::phase_model::{
    SchedulerModel, abandon_inflight_step, abandon_retry_step, active_phase, advance,
    attempt_start, begin_step, bounds, closed, contradiction_reason, drain_deadline, drain_reason,
    ended, expire_tail, expired, expires, expiry_event, failed, finish_now_step, finish_step,
    finish_synced, fresh, logged, observed, observed_and_synced, phases_left, poll_step,
    prepare_step, reserve_step, reserve_synced, retry_fault, retry_step, start_step, sum_of,
    summary_step, synced, walked, window_account, with_selection, with_window, worker_failed_step,
};
use crate::phases::{
    AttemptOutcome, CompletionClass, LocalRuntimeLimits, PhaseId, PhaseScheduleConfig,
    PreparedSessionId, RecordedEvent, SchedulerEvent, SelectionState, TransactionIdentity,
    TransactionReservation, TransactionTicket, WorkerId, WorkerState, next_phase, reservation_of,
    schedule_valid,
};
use crate::time::Duration;
use crate::transaction::TransactionType;

verus! {

/// Whether a phase is one of the four.
pub open spec fn phase_valid(phase: PhaseId) -> bool {
    match phase {
        PhaseId::Warmup => true,
        PhaseId::FormalWindow(index) => index < 3,
    }
}

/// Schedule, clock and phase agree.
pub open spec fn frame_sound(s: SchedulerModel) -> bool {
    &&& schedule_valid(s.schedule)
    &&& s.workers.len() == s.schedule.clients
    &&& s.announced matches Some(phase) ==> phase_valid(phase)
    &&& s.origin is None ==> s.announced is None && !s.complete
    &&& s.origin is Some ==> (s.announced is None <==> s.complete)
}

/// Every window has its shape and, until a counter is full, a consistent
/// account.
pub open spec fn windows_sound(windows: Seq<WindowModel>) -> bool {
    &&& windows.len() == 3
    &&& forall|i: int|
        0 <= i < windows.len() ==> window_shaped(#[trigger] windows[i]) && (has_room(windows[i])
            ==> consistent(windows[i]))
}

/// A worker's selection belongs to it and ends at its phase's deadline; a
/// reservation does not outlive its phase.
pub open spec fn selection_sound(s: SchedulerModel, i: int, selection: SelectionState) -> bool {
    let r = reservation_of(selection);
    &&& r.worker.0 == i
    &&& r.id < s.next_ticket_id
    &&& phase_valid(r.phase)
    &&& bounds(s, r.phase) matches Ok((_, deadline)) && r.phase_deadline == deadline
    &&& match selection {
        SelectionState::InFlight { attempt_started_at, .. } => attempt_started_at.nanos
            < r.phase_deadline.nanos,
        SelectionState::Reserved(_) => s.announced == Some(r.phase),
        SelectionState::RetryPending(_) => true,
    }
}

/// Every selection is sound.
pub open spec fn selections_sound(s: SchedulerModel) -> bool {
    forall|i: int|
        0 <= i < s.workers.len() ==> ((#[trigger] s.workers[i]).selection matches Some(selection)
            ==> selection_sound(s, i, selection))
}

/// No two selections share an identity.
pub open spec fn ids_distinct(workers: Seq<WorkerState>) -> bool {
    forall|i: int, j: int|
        0 <= i < j < workers.len() && (#[trigger] workers[i]).selection is Some && (
        #[trigger] workers[j]).selection is Some ==> reservation_of(workers[i].selection->0).id
            != reservation_of(workers[j].selection->0).id
}

/// No two workers share a session.
pub open spec fn sessions_distinct(workers: Seq<WorkerState>) -> bool {
    forall|i: int, j: int|
        0 <= i < j < workers.len() && (#[trigger] workers[i]).session is Some ==> (
        #[trigger] workers[j]).session != workers[i].session
}

/// The invariant of a scheduler.
pub open spec fn sound(s: SchedulerModel) -> bool {
    &&& frame_sound(s)
    &&& windows_sound(s.windows)
    &&& selections_sound(s)
    &&& ids_distinct(s.workers)
    &&& sessions_distinct(s.workers)
}

/// Whether `after` has the sessions, timeline and limits of `before`.
pub open spec fn same_frame(before: SchedulerModel, after: SchedulerModel) -> bool {
    &&& after.limits == before.limits
    &&& after.schedule == before.schedule
    &&& after.origin == before.origin
    &&& after.workers.len() == before.workers.len()
    &&& forall|i: int|
        0 <= i < before.workers.len() ==> (#[trigger] after.workers[i]).session
            == before.workers[i].session
}

/// Whether a window may take the place of another in a sound account.
pub open spec fn window_follows(before: WindowModel, after: WindowModel) -> bool {
    (window_shaped(before) ==> window_shaped(after)) && ((has_room(before) ==> consistent(before))
        ==> (has_room(after) ==> consistent(after)))
}

proof fn lemma_window_steps(
    w: WindowModel,
    kind: TransactionType,
    warehouse: u16,
    latency: Duration,
    delivered: u64,
    offset: Option<Duration>,
)
    ensures
        window_follows(w, with_commit(w, kind, warehouse, latency, delivered, offset)),
        window_follows(w, with_expected_rollback(w, warehouse)),
        window_follows(w, with_retry_abort(w)),
        window_follows(w, with_abandoned(w)),
        window_follows(w, with_retry_abandoned(w)),
        window_follows(w, with_grace_tail(w)),
        window_follows(w, with_cutoff_stop(w)),
{
}

/// A selection leaves or a sound one with the same identity takes its place.
proof fn lemma_selection_kept(s: SchedulerModel, i: int, selection: Option<SelectionState>)
    requires
        sound(s),
        0 <= i < s.workers.len(),
        selection matches Some(next) ==> selection_sound(s, i, next) && (
        s.workers[i].selection matches Some(current) && reservation_of(current).id
            == reservation_of(next).id),
    ensures
        sound(with_selection(s, i, selection)),
        same_frame(s, with_selection(s, i, selection)),
{
    let t = with_selection(s, i, selection);
    assert forall|k: int| 0 <= k < t.workers.len() implies ((
    #[trigger] t.workers[k]).selection matches Some(own) ==> selection_sound(t, k, own)) by {
        if k != i {
            assert(t.workers[k] == s.workers[k]);
        }
    }
    assert forall|a: int, b: int|
        0 <= a < b < t.workers.len() && (#[trigger] t.workers[a]).selection is Some && (
        #[trigger] t.workers[b]).selection is Some implies reservation_of(
        t.workers[a].selection->0,
    ).id != reservation_of(t.workers[b].selection->0).id by {
        assert(s.workers[a].selection is Some && s.workers[b].selection is Some);
    }
    assert forall|a: int, b: int|
        0 <= a < b < t.workers.len() && (#[trigger] t.workers[a]).session is Some implies (
    #[trigger] t.workers[b]).session != t.workers[a].session by {
        assert(s.workers[a].session == t.workers[a].session);
        assert(s.workers[b].session == t.workers[b].session);
    }
}

proof fn lemma_window_kept(s: SchedulerModel, phase: PhaseId, w: WindowModel)
    requires
        sound(s),
        phase_valid(phase),
        window_follows(window_account(s, phase), w),
    ensures
        sound(with_window(s, phase, w)),
        same_frame(s, with_window(s, phase, w)),
{
    let t = with_window(s, phase, w);
    assert forall|k: int| 0 <= k < t.workers.len() implies ((
    #[trigger] t.workers[k]).selection matches Some(own) ==> selection_sound(t, k, own)) by {
        assert(t.workers[k] == s.workers[k]);
    }
}

proof fn lemma_logged_kept(s: SchedulerModel, event: SchedulerEvent)
    requires
        sound(s),
    ensures
        sound(logged(s, event)),
        same_frame(s, logged(s, event)),
{
    let t = logged(s, event);
    assert forall|k: int| 0 <= k < t.workers.len() implies ((
    #[trigger] t.workers[k]).selection matches Some(own) ==> selection_sound(t, k, own)) by {
        assert(t.workers[k] == s.workers[k]);
    }
}

pub proof fn lemma_observed_kept(s: SchedulerModel, now: Duration)
    requires
        sound(s),
    ensures
        sound(observed(s, now)),
        same_frame(s, observed(s, now)),
{
    let t = observed(s, now);
    assert forall|k: int| 0 <= k < t.workers.len() implies ((
    #[trigger] t.workers[k]).selection matches Some(own) ==> selection_sound(t, k, own)) by {
        assert(t.workers[k] == s.workers[k]);
    }
}

/// What is left once the selections of the first `n` workers have expired.
pub proof fn lemma_expired(s: SchedulerModel, phase: PhaseId, at: Duration, n: int)
    requires
        sound(s),
        phase_valid(phase),
        0 <= n <= s.workers.len(),
    ensures
        sound(expired(s, phase, at, n)),
        same_frame(s, expired(s, phase, at, n)),
        expired(s, phase, at, n).announced == s.announced,
        expired(s, phase, at, n).complete == s.complete,
        expired(s, phase, at, n).failure == s.failure,
        expired(s, phase, at, n).last_observed == s.last_observed,
        expired(s, phase, at, n).next_ticket_id == s.next_ticket_id,
        forall|k: int|
            n <= k < s.workers.len() ==> #[trigger] expired(s, phase, at, n).workers[k]
                == s.workers[k],
        forall|k: int|
            0 <= k < n ==> !expires(
                (#[trigger] expired(s, phase, at, n).workers[k]).selection,
                phase,
            ),
        forall|k: int|
            0 <= k < n && !expires(s.workers[k].selection, phase) ==> #[trigger] expired(
                s,
                phase,
                at,
                n,
            ).workers[k] == s.workers[k],
    decreases n,
{
    if n > 0 {
        lemma_expired(s, phase, at, n - 1);
        let before = expired(s, phase, at, n - 1);
        let selection = s.workers[n - 1].selection;
        assert(before.workers[n - 1] == s.workers[n - 1]);
        if expires(selection, phase) {
            lemma_selection_kept(before, n - 1, None);
            let cleared = with_selection(before, n - 1, None);
            lemma_window_steps(
                window_account(before, phase),
                TransactionType::NewOrder,
                0,
                at,
                0,
                None,
            );
            lemma_window_kept(cleared, phase, with_cutoff_stop(window_account(before, phase)));
            let counted = with_window(
                cleared,
                phase,
                with_cutoff_stop(window_account(before, phase)),
            );
            lemma_logged_kept(counted, expiry_event(selection->0, at));
        }
    }
}

/// Closing a phase keeps the scheduler sound.
pub proof fn lemma_closed(s: SchedulerModel, phase: PhaseId, deadline: Duration)
    requires
        sound(s),
        s.announced == Some(phase),
        s.origin is Some,
    ensures
        same_frame(s, closed(s, phase, deadline)),
        closed(s, phase, deadline).complete == s.complete,
        closed(s, phase, deadline).failure == s.failure,
        closed(s, phase, deadline).announced == next_phase(phase),
        windows_sound(closed(s, phase, deadline).windows),
        next_phase(phase) matches Some(next) ==> phase_valid(next),
        next_phase(phase) is Some ==> sound(closed(s, phase, deadline)),
        next_phase(phase) is None ==> sound(
            (SchedulerModel { complete: true, ..closed(s, phase, deadline) }),
        ),
{
    let n = s.workers.len() as int;
    lemma_expired(s, phase, deadline, n);
    let quiet = expired(s, phase, deadline, n);
    let t = closed(s, phase, deadline);
    assert(t.workers == quiet.workers);
    assert(t.windows == quiet.windows);
    assert forall|k: int| 0 <= k < t.workers.len() implies ((
    #[trigger] t.workers[k]).selection matches Some(own) ==> selection_sound(t, k, own)) by {
        assert(!expires(quiet.workers[k].selection, phase));
        if let Some(own) = t.workers[k].selection {
            assert(selection_sound(quiet, k, own));
        }
    }
}

/// Advancing keeps the scheduler sound.
pub proof fn lemma_advance(s: SchedulerModel, phase: PhaseId, deadline: Duration)
    requires
        sound(s),
        s.announced == Some(phase),
        s.origin is Some,
    ensures
        sound(advance(s, phase, deadline).state),
        same_frame(s, advance(s, phase, deadline).state),
        advance(s, phase, deadline).state.failure == s.failure,
        advance(s, phase, deadline).state.announced == next_phase(phase),
{
    lemma_closed(s, phase, deadline);
    let ended = closed(s, phase, deadline);
    match next_phase(phase) {
        Some(next) => {
            if let Ok((at, next_deadline)) = bounds(s, next) {
                lemma_logged_kept(
                    ended,
                    SchedulerEvent::PhaseStarted { phase: next, at, deadline: next_deadline },
                );
            }
        },
        None => {
            lemma_logged_kept(
                (SchedulerModel { complete: true, ..ended }),
                SchedulerEvent::TimelineCompleted { at: deadline },
            );
        },
    }
}

/// Walking the phases keeps the scheduler sound.
pub proof fn lemma_walked(s: SchedulerModel, now: Duration)
    requires
        sound(s),
        s.origin is Some,
    ensures
        sound(walked(s, now).state),
        same_frame(s, walked(s, now).state),
        walked(s, now).state.failure == s.failure,
    decreases phases_left(s.announced),
{
    if let Some(phase) = s.announced {
        if let Ok((_, deadline)) = bounds(s, phase) {
            if now.nanos >= deadline.nanos {
                lemma_advance(s, phase, deadline);
                let next = advance(s, phase, deadline);
                if next.result is Ok {
                    lemma_walked(next.state, now);
                }
            }
        }
    }
}

/// Synchronising keeps the scheduler sound.
pub proof fn lemma_synced(s: SchedulerModel, now: Duration)
    requires
        sound(s),
    ensures
        sound(synced(s, now).state),
        same_frame(s, synced(s, now).state),
        synced(s, now).state.failure == s.failure,
        synced(s, now).result is Ok ==> s.failure is None && s.origin is Some,
        sound(observed_and_synced(s, now).state),
        same_frame(s, observed_and_synced(s, now).state),
        observed_and_synced(s, now).state.failure == s.failure,
        observed_and_synced(s, now).result is Ok ==> s.failure is None && s.origin is Some,
{
    lemma_observed_kept(s, now);
    if s.failure is None && s.origin is Some {
        lemma_walked(s, now);
        lemma_walked(observed(s, now), now);
    }
}

/// Ending an attempt keeps the scheduler sound.
proof fn lemma_ended(
    s: SchedulerModel,
    ticket: TransactionTicket,
    selection: Option<SelectionState>,
    w: WindowModel,
    class: CompletionClass,
    at: Duration,
)
    requires
        sound(s),
        phase_valid(ticket.reservation.phase),
        ticket.reservation.worker.0 < s.workers.len(),
        window_follows(window_account(s, ticket.reservation.phase), w),
        selection matches Some(next) ==> ({
            let i = ticket.reservation.worker.0 as int;
            selection_sound(s, i, next) && (s.workers[i].selection matches Some(current)
                && reservation_of(current).id == reservation_of(next).id)
        }),
    ensures
        sound(ended(s, ticket, selection, w, class, at)),
        same_frame(s, ended(s, ticket, selection, w, class, at)),
{
    let i = ticket.reservation.worker.0 as int;
    lemma_selection_kept(s, i, selection);
    let changed = with_selection(s, i, selection);
    lemma_window_kept(changed, ticket.reservation.phase, w);
    lemma_logged_kept(
        with_window(changed, ticket.reservation.phase, w),
        SchedulerEvent::TransactionFinished { ticket, class, at },
    );
}

/// Failing keeps the scheduler sound.
pub proof fn lemma_failed(
    s: SchedulerModel,
    worker: WorkerId,
    phase: Option<PhaseId>,
    reason: Seq<char>,
    at: Duration,
)
    requires
        sound(s),
        worker.0 < s.workers.len(),
    ensures
        sound(failed(s, worker, phase, reason, at)),
        same_frame(s, failed(s, worker, phase, reason, at)),
{
    let index = worker.0 as int;
    let t = failed(s, worker, phase, reason, at);
    if let Some(selection) = s.workers[index].selection {
        let own = reservation_of(selection).phase;
        let w = window_account(s, own);
        assert(selection_sound(s, index, selection));
        lemma_selection_kept(s, index, None);
        lemma_window_steps(w, TransactionType::NewOrder, 0, at, 0, None);
        let cleared = with_selection(s, index, None);
        lemma_window_kept(cleared, own, with_abandoned(w));
        lemma_window_kept(cleared, own, with_grace_tail(w));
        lemma_window_kept(cleared, own, with_cutoff_stop(w));
        let counted = with_window(
            cleared,
            own,
            match selection {
                SelectionState::InFlight { ticket, .. } => if at.nanos
                    < ticket.reservation.phase_deadline.nanos {
                    with_abandoned(w)
                } else {
                    with_grace_tail(w)
                },
                _ => with_cutoff_stop(w),
            },
        );
        assert(sound(counted));
        assert(t.workers == counted.workers);
        assert forall|k: int| 0 <= k < t.workers.len() implies ((
        #[trigger] t.workers[k]).selection matches Some(o) ==> selection_sound(t, k, o)) by {
            assert(counted.workers[k].selection matches Some(o) ==> selection_sound(counted, k, o));
        }
    } else {
        assert forall|k: int| 0 <= k < t.workers.len() implies ((
        #[trigger] t.workers[k]).selection matches Some(o) ==> selection_sound(t, k, o)) by {
            assert(s.workers[k].selection matches Some(o) ==> selection_sound(s, k, o));
        }
    }
}

/// A new scheduler is sound.
pub proof fn law_fresh_is_sound(
    limits: LocalRuntimeLimits,
    schedule: PhaseScheduleConfig,
    hot: Seq<u16>,
    log: Seq<RecordedEvent>,
)
    requires
        schedule_valid(schedule),
        hot.len() == 4,
    ensures
        sound(fresh(limits, schedule, hot, log)),
{
}

/// Registration and the release of the barrier keep the scheduler sound.
pub proof fn law_start_up_keeps_sound(
    s: SchedulerModel,
    worker: WorkerId,
    session: PreparedSessionId,
    now: Duration,
)
    requires
        sound(s),
    ensures
        sound(prepare_step(s, worker, session, now).state),
        sound(start_step(s, now).state),
        s.origin is Some ==> prepare_step(s, worker, session, now).state == s,
        s.origin is Some ==> start_step(s, now).state == s,
{
    lemma_observed_kept(s, now);
    let o = observed(s, now);
    let t = prepare_step(s, worker, session, now).state;
    if prepare_step(s, worker, session, now).result is Ok {
        assert forall|k: int| 0 <= k < t.workers.len() implies ((
        #[trigger] t.workers[k]).selection matches Some(own) ==> selection_sound(t, k, own)) by {
            assert(s.workers[k].selection matches Some(own) ==> selection_sound(s, k, own));
        }
        assert forall|a: int, b: int|
            0 <= a < b < t.workers.len() && (#[trigger] t.workers[a]).selection is Some && (
            #[trigger] t.workers[b]).selection is Some implies reservation_of(
            t.workers[a].selection->0,
        ).id != reservation_of(t.workers[b].selection->0).id by {
            assert(s.workers[a].selection is Some && s.workers[b].selection is Some);
        }
        assert forall|a: int, b: int|
            0 <= a < b < t.workers.len() && (#[trigger] t.workers[a]).session is Some implies (
        #[trigger] t.workers[b]).session != t.workers[a].session by {
            assert(s.workers[a].session != Some(session));
            assert(s.workers[b].session != Some(session));
        }
    }
    let u = start_step(s, now).state;
    if start_step(s, now).result is Ok {
        assert forall|k: int| 0 <= k < u.workers.len() implies ((
        #[trigger] u.workers[k]).selection matches Some(own) ==> selection_sound(u, k, own)) by {
            assert(s.workers[k].selection matches Some(own) ==> selection_sound(s, k, own));
        }
    }
}

/// Selecting keeps a synchronised scheduler sound.
proof fn lemma_reserve_synced(s: SchedulerModel, worker: WorkerId, now: Duration)
    requires
        sound(s),
        worker.0 < s.workers.len(),
    ensures
        sound(reserve_synced(s, worker, now).state),
        same_frame(s, reserve_synced(s, worker, now).state),
{
    let step = reserve_synced(s, worker, now);
    let t = step.state;
    let index = worker.0 as int;
    assert forall|k: int| 0 <= k < t.workers.len() implies ((
    #[trigger] t.workers[k]).selection matches Some(own) ==> selection_sound(t, k, own)) by {
        assert(s.workers[k].selection matches Some(own) ==> selection_sound(s, k, own));
    }
    assert forall|a: int, b: int|
        0 <= a < b < t.workers.len() && (#[trigger] t.workers[a]).selection is Some && (
        #[trigger] t.workers[b]).selection is Some implies reservation_of(
        t.workers[a].selection->0,
    ).id != reservation_of(t.workers[b].selection->0).id by {
        assert(s.workers[a].selection matches Some(own) ==> selection_sound(s, a, own));
        assert(s.workers[b].selection matches Some(own) ==> selection_sound(s, b, own));
    }
    assert forall|a: int, b: int|
        0 <= a < b < t.workers.len() && (#[trigger] t.workers[a]).session is Some implies (
    #[trigger] t.workers[b]).session != t.workers[a].session by {
        assert(s.workers[a].session == t.workers[a].session);
        assert(s.workers[b].session == t.workers[b].session);
    }
}

/// Selecting keeps the scheduler sound and its sessions.
pub proof fn lemma_reserve_keeps_sound(s: SchedulerModel, worker: WorkerId, now: Duration)
    requires
        sound(s),
    ensures
        sound(reserve_step(s, worker, now).state),
        same_frame(s, reserve_step(s, worker, now).state),
{
    lemma_synced(s, now);
    if worker.0 < s.workers.len() {
        lemma_reserve_synced(observed_and_synced(s, now).state, worker, now);
    }
}

/// Starting keeps the scheduler sound and its sessions.
pub proof fn lemma_begin_keeps_sound(
    s: SchedulerModel,
    reservation: TransactionReservation,
    identity: TransactionIdentity,
    now: Duration,
)
    requires
        sound(s),
    ensures
        sound(begin_step(s, reservation, identity, now).state),
        same_frame(s, begin_step(s, reservation, identity, now).state),
{
    lemma_synced(s, now);
    let t = observed_and_synced(s, now).state;
    if begin_step(s, reservation, identity, now).result is Ok {
        let i = reservation.worker.0 as int;
        let first = TransactionTicket { reservation, identity };
        let flying = SelectionState::InFlight { ticket: first, attempt_started_at: now };
        assert(selection_sound(t, i, t.workers[i].selection->0));
        lemma_selection_kept(t, i, Some(flying));
        lemma_logged_kept(
            with_selection(t, i, Some(flying)),
            SchedulerEvent::TransactionStarted { ticket: first, retry: false, at: now },
        );
    }
}

/// Retrying keeps the scheduler sound and its sessions.
pub proof fn lemma_retry_keeps_sound(s: SchedulerModel, ticket: TransactionTicket, now: Duration)
    requires
        sound(s),
    ensures
        sound(retry_step(s, ticket, now).state),
        same_frame(s, retry_step(s, ticket, now).state),
{
    lemma_synced(s, now);
    let t = observed_and_synced(s, now).state;
    if retry_step(s, ticket, now).result is Ok {
        let i = ticket.reservation.worker.0 as int;
        let flying = SelectionState::InFlight { ticket, attempt_started_at: now };
        assert(selection_sound(t, i, t.workers[i].selection->0));
        lemma_selection_kept(t, i, Some(flying));
        lemma_logged_kept(
            with_selection(t, i, Some(flying)),
            SchedulerEvent::TransactionStarted { ticket, retry: true, at: now },
        );
    }
}

/// Selecting, starting and retrying keep the scheduler sound and its sessions.
pub proof fn law_requests_keep_sound(
    s: SchedulerModel,
    worker: WorkerId,
    reservation: TransactionReservation,
    identity: TransactionIdentity,
    ticket: TransactionTicket,
    now: Duration,
)
    requires
        sound(s),
    ensures
        sound(reserve_step(s, worker, now).state),
        same_frame(s, reserve_step(s, worker, now).state),
        sound(begin_step(s, reservation, identity, now).state),
        same_frame(s, begin_step(s, reservation, identity, now).state),
        sound(retry_step(s, ticket, now).state),
        same_frame(s, retry_step(s, ticket, now).state),
{
    lemma_reserve_keeps_sound(s, worker, now);
    lemma_begin_keeps_sound(s, reservation, identity, now);
    lemma_retry_keeps_sound(s, ticket, now);
}

/// A terminal in a synchronised run keeps the scheduler sound.
proof fn lemma_finish_synced(
    s: SchedulerModel,
    ticket: TransactionTicket,
    outcome: AttemptOutcome,
    at: Duration,
)
    requires
        sound(s),
        ticket.reservation.worker.0 < s.workers.len(),
    ensures
        sound(finish_synced(s, ticket, outcome, at).state),
        same_frame(s, finish_synced(s, ticket, outcome, at).state),
{
    let i = ticket.reservation.worker.0 as int;
    let phase = ticket.reservation.phase;
    let w = window_account(s, phase);
    if attempt_start(s, ticket) is Some {
        assert(selection_sound(s, i, s.workers[i].selection->0));
        if let Ok(deadline) = drain_deadline(s, ticket) {
            lemma_failed(s, ticket.reservation.worker, Some(phase), drain_reason(deadline), at);
        }
        lemma_failed(
            s,
            ticket.reservation.worker,
            Some(phase),
            contradiction_reason(ticket.reservation.id),
            at,
        );
        let latency = Duration {
            nanos: if at.nanos >= ticket.reservation.selected_at.nanos {
                (at.nanos - ticket.reservation.selected_at.nanos) as u128
            } else {
                0
            },
        };
        let kind = ticket.identity.transaction_type;
        let home = ticket.identity.home_warehouse;
        lemma_window_steps(w, kind, home, latency, 0, None);
        lemma_ended(s, ticket, None, with_grace_tail(w), CompletionClass::GraceTail, at);
        if at.nanos < ticket.reservation.phase_deadline.nanos {
            let offset = match ticket.reservation.phase {
                PhaseId::Warmup => None,
                PhaseId::FormalWindow(_) => Some(
                    Duration { nanos: (at.nanos - (bounds(s, phase)->Ok_0).0.nanos) as u128 },
                ),
            };
            match outcome {
                AttemptOutcome::Commit { delivery_processed } => {
                    lemma_window_steps(w, kind, home, latency, delivery_processed, offset);
                    lemma_ended(
                        s,
                        ticket,
                        None,
                        with_commit(w, kind, home, latency, delivery_processed, offset),
                        CompletionClass::Committed,
                        at,
                    );
                },
                AttemptOutcome::ExpectedRollback => {
                    lemma_ended(
                        s,
                        ticket,
                        None,
                        with_expected_rollback(w, home),
                        CompletionClass::ExpectedRollback,
                        at,
                    );
                },
                AttemptOutcome::RetryableAbort => {
                    lemma_ended(
                        s,
                        ticket,
                        Some(SelectionState::RetryPending(ticket)),
                        with_retry_abort(w),
                        CompletionClass::RetryableAbort,
                        at,
                    );
                },
            }
        }
    }
}

/// Terminals and abandonments keep the scheduler sound and its sessions.
pub proof fn law_endings_keep_sound(
    s: SchedulerModel,
    ticket: TransactionTicket,
    outcome: AttemptOutcome,
    at: Duration,
)
    requires
        sound(s),
    ensures
        sound(finish_step(s, ticket, outcome, at).state),
        same_frame(s, finish_step(s, ticket, outcome, at).state),
        sound(finish_now_step(s, ticket, outcome, at).state),
        same_frame(s, finish_now_step(s, ticket, outcome, at).state),
        sound(abandon_inflight_step(s, ticket, at).state),
        same_frame(s, abandon_inflight_step(s, ticket, at).state),
        sound(abandon_retry_step(s, ticket, at).state),
        same_frame(s, abandon_retry_step(s, ticket, at).state),
{
    lemma_synced(s, at);
    lemma_observed_kept(s, at);
    let o = observed(s, at);
    lemma_synced(o, at);
    if ticket.reservation.worker.0 < s.workers.len() {
        let i = ticket.reservation.worker.0 as int;
        let t = synced(s, at).state;
        lemma_finish_synced(t, ticket, outcome, at);
        lemma_finish_synced(synced(o, at).state, ticket, outcome, at);
        if attempt_start(t, ticket) is Some {
            assert(selection_sound(t, i, t.workers[i].selection->0));
            let w = window_account(t, ticket.reservation.phase);
            lemma_window_steps(w, TransactionType::NewOrder, 0, at, 0, None);
            lemma_ended(t, ticket, None, with_abandoned(w), CompletionClass::Abandoned, at);
            lemma_ended(t, ticket, None, with_grace_tail(w), CompletionClass::Abandoned, at);
        }
        let u = observed_and_synced(s, at).state;
        if retry_fault(u, ticket) is None {
            assert(selection_sound(u, i, u.workers[i].selection->0));
            let w = window_account(u, ticket.reservation.phase);
            lemma_window_steps(w, TransactionType::NewOrder, 0, at, 0, None);
            lemma_ended(u, ticket, None, with_retry_abandoned(w), CompletionClass::Abandoned, at);
        }
    }
}

/// The search for a missed drain deadline keeps the scheduler sound.
pub proof fn lemma_expire_tail(s: SchedulerModel, now: Duration, index: int)
    requires
        sound(s),
        0 <= index,
    ensures
        sound(expire_tail(s, now, index).state),
        same_frame(s, expire_tail(s, now, index).state),
        expire_tail(s, now, index).result is Ok ==> expire_tail(s, now, index).state == s,
    decreases s.workers.len() - index,
{
    if index < s.workers.len() {
        lemma_expire_tail(s, now, index + 1);
        if let Some(SelectionState::InFlight { ticket, .. }) = s.workers[index].selection {
            if let Ok(deadline) = sum_of(
                ticket.reservation.phase_deadline,
                s.limits.phase_tail_grace,
            ) {
                lemma_failed(
                    s,
                    WorkerId(index as u16),
                    Some(ticket.reservation.phase),
                    drain_reason(deadline),
                    now,
                );
            }
        }
    }
}

/// Polling, failing and summarising keep the scheduler sound and its sessions.
pub proof fn law_supervision_keeps_sound(
    s: SchedulerModel,
    worker: WorkerId,
    reason: Seq<char>,
    now: Duration,
)
    requires
        sound(s),
    ensures
        sound(poll_step(s, now).state),
        same_frame(s, poll_step(s, now).state),
        sound(summary_step(s, now).state),
        same_frame(s, summary_step(s, now).state),
        sound(worker_failed_step(s, worker, reason, now).state),
        same_frame(s, worker_failed_step(s, worker, reason, now).state),
{
    lemma_synced(s, now);
    lemma_observed_kept(s, now);
    let t = observed_and_synced(s, now).state;
    lemma_expire_tail(t, now, 0);
    if worker.0 < s.workers.len() {
        let o = observed(s, now);
        lemma_synced(o, now);
        let u = synced(o, now).state;
        lemma_failed(o, worker, active_phase(o, worker), reason, now);
        lemma_failed(u, worker, active_phase(u, worker), reason, now);
    }
}

} // verus!
