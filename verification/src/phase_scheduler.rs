//! State machine for the single warmup plus three continuous formal windows.
use vstd::prelude::*;

use crate::measurement::{
    MeasurementSummary, WindowModel, WindowStats, consistent, window_gate, window_models,
    window_shaped, with_abandoned, with_commit, with_cutoff_stop, with_expected_rollback,
    with_grace_tail, with_retry_abandoned, with_retry_abort,
};
use crate::phase_laws::{
    law_endings_keep_sound, law_fresh_is_sound, law_start_up_keeps_sound,
    law_supervision_keeps_sound, lemma_advance, lemma_begin_keeps_sound, lemma_closed,
    lemma_expired, lemma_observed_kept, lemma_reserve_keeps_sound, lemma_retry_keeps_sound,
    lemma_synced, phase_valid, selection_sound, sound, windows_sound,
};
use crate::phase_model::{
    SchedulerModel, Step, abandon_inflight_step, abandon_retry_step, advance, all_consistent,
    attempt_start, begin_step, bounds, clock_fault, closed, contradiction_reason, counted_step,
    deadline_answer, drain_reason, drained, ended, expire_tail, expired, failed, failed_fault,
    finish_now_step, finish_step, fresh, logged, observed, observed_and_synced, phases_left,
    poll_step, prepare_step, ready_count, reserve_step, retry_fault, retry_step, running_fault,
    session_of, session_taken, shown, shown_summary, start_step, sum_of, summary_step, synced,
    walked, window_account, with_selection, with_window, worker_failed_step, worker_fault,
};
use crate::phases::{
    AttemptDisposition, AttemptOutcome, CompletionClass, EventRecorder, FailureModel,
    LocalRuntimeLimits, MonotonicClock, PhaseId, PhaseScheduleConfig, PreparedSessionId,
    SchedulerError, SchedulerEvent, SchedulerFailure, SchedulerFault, SelectionState,
    TransactionIdentity, TransactionReservation, TransactionTicket, WorkerId, WorkerState,
    is_read_only, official_schedule, schedule_valid,
};
use crate::profile::OFFICIAL_CLIENTS;
use crate::text::{join3, unsigned_text};
use crate::time::Duration;
use crate::transaction::TransactionType;

verus! {

/// A scheduler with its clock and its recorder.
pub struct Final2026Scheduler<C, R> {
    pub clock: C,
    pub recorder: R,
    pub limits: LocalRuntimeLimits,
    pub schedule: PhaseScheduleConfig,
    pub workers: Vec<WorkerState>,
    pub origin: Option<Duration>,
    pub announced_phase: Option<PhaseId>,
    pub timeline_complete: bool,
    pub last_observed: Option<Duration>,
    pub next_ticket_id: u64,
    pub windows: Vec<WindowStats>,
    pub failure: Option<SchedulerFailure>,
}

/// One entry in the account of a window.
enum WindowEntry {
    Commit {
        kind: TransactionType,
        warehouse: u16,
        latency: Duration,
        delivered: u64,
        offset: Option<Duration>,
    },
    ExpectedRollback { warehouse: u16 },
    RetryAbort,
    Abandoned,
    RetryAbandoned,
    GraceTail,
    CutoffStop,
}

/// A window after an entry.
spec fn entered(w: WindowModel, entry: WindowEntry) -> WindowModel {
    match entry {
        WindowEntry::Commit { kind, warehouse, latency, delivered, offset } => with_commit(
            w,
            kind,
            warehouse,
            latency,
            delivered,
            offset,
        ),
        WindowEntry::ExpectedRollback { warehouse } => with_expected_rollback(w, warehouse),
        WindowEntry::RetryAbort => with_retry_abort(w),
        WindowEntry::Abandoned => with_abandoned(w),
        WindowEntry::RetryAbandoned => with_retry_abandoned(w),
        WindowEntry::GraceTail => with_grace_tail(w),
        WindowEntry::CutoffStop => with_cutoff_stop(w),
    }
}

fn enter(window: &mut WindowStats, entry: WindowEntry)
    requires
        window_shaped(old(window)@),
    ensures
        final(window)@ == entered(old(window)@, entry),
{
    match entry {
        WindowEntry::Commit { kind, warehouse, latency, delivered, offset } => {
            window.record_commit_at_offset(kind, warehouse, latency, delivered, offset);
        },
        WindowEntry::ExpectedRollback { warehouse } => {
            window.record_expected_rollback(warehouse);
        },
        WindowEntry::RetryAbort => {
            window.record_retry_abort();
        },
        WindowEntry::Abandoned => {
            window.record_abandoned();
        },
        WindowEntry::RetryAbandoned => {
            window.record_retry_abandoned();
        },
        WindowEntry::GraceTail => {
            window.record_grace_tail();
        },
        WindowEntry::CutoffStop => {
            window.record_cutoff_stop();
        },
    }
}

/// The content of an optional failure.
pub open spec fn failure_model(failure: Option<SchedulerFailure>) -> Option<FailureModel> {
    match failure {
        Some(f) => Some(f@),
        None => None,
    }
}

fn checked_add(left: Duration, right: Duration) -> (r: Result<Duration, SchedulerError>)
    ensures
        shown(r) == sum_of(left, right),
        r matches Ok(total) ==> total.in_range(),
{
    match left.checked_add(right) {
        Some(total) => Ok(total),
        None => Err(SchedulerError::ClockOverflow),
    }
}

fn copy_failure(failure: &SchedulerFailure) -> (r: SchedulerFailure)
    ensures
        r@ == failure@,
{
    SchedulerFailure {
        worker: failure.worker,
        phase: failure.phase,
        reason: failure.reason.clone(),
    }
}

impl<C: MonotonicClock, R: EventRecorder> Final2026Scheduler<C, R> {
    /// The state of the scheduler.
    pub open spec fn model(&self) -> SchedulerModel {
        SchedulerModel {
            limits: self.limits,
            schedule: self.schedule,
            workers: self.workers@,
            origin: self.origin,
            announced: self.announced_phase,
            complete: self.timeline_complete,
            last_observed: self.last_observed,
            next_ticket_id: self.next_ticket_id,
            windows: window_models(self.windows@),
            failure: failure_model(self.failure),
            log: self.recorder.recorded(),
        }
    }

    /// The invariant of the scheduler.
    pub open spec fn wf(&self) -> bool {
        sound(self.model())
    }

    fn note(&mut self, event: SchedulerEvent)
        ensures
            final(self).model() == logged(old(self).model(), event),
            final(self).clock == old(self).clock,
    {
        self.recorder.record(event);
    }

    fn select(&mut self, index: usize, selection: Option<SelectionState>)
        requires
            index < old(self).workers@.len(),
        ensures
            final(self).model() == with_selection(old(self).model(), index as int, selection),
            final(self).clock == old(self).clock,
    {
        let mut worker = self.workers[index];
        worker.selection = selection;
        self.workers.set(index, worker);
    }

    fn account(&mut self, phase: PhaseId, entry: WindowEntry)
        requires
            windows_sound(old(self).model().windows),
            phase_valid(phase),
        ensures
            final(self).model() == with_window(
                old(self).model(),
                phase,
                entered(window_account(old(self).model(), phase), entry),
            ),
            final(self).clock == old(self).clock,
    {
        if let Some(index) = phase.formal_index() {
            let ghost before = self.model();
            assert(before.windows[index as int] == self.windows@[index as int]@);
            enter(&mut self.windows[index], entry);
            assert(self.model().windows =~= before.windows.update(
                index as int,
                entered(before.windows[index as int], entry),
            ));
        }
    }

    fn phase_bounds(&self, phase: PhaseId) -> (r: Result<(Duration, Duration), SchedulerError>)
        ensures
            shown(r) == bounds(self.model(), phase),
    {
        let origin = match self.origin {
            Some(origin) => origin,
            None => {
                return Err(SchedulerError::NotStarted);
            },
        };
        let ghost w = self.schedule.measurement_window_duration.nanos as int;
        match phase {
            PhaseId::Warmup => {
                let deadline = checked_add(origin, self.schedule.warmup_duration)?;
                Ok((origin, deadline))
            },
            PhaseId::FormalWindow(index) => {
                assert(w * index >= 0) by (nonlinear_arith)
                    requires
                        w >= 0,
                        index >= 0,
                ;
                let formal_origin = checked_add(origin, self.schedule.warmup_duration)?;
                let start_offset = match self.schedule.measurement_window_duration.checked_mul(
                    index as u32,
                ) {
                    Some(offset) => offset,
                    None => {
                        return Err(SchedulerError::ClockOverflow);
                    },
                };
                let start = checked_add(formal_origin, start_offset)?;
                let deadline = checked_add(start, self.schedule.measurement_window_duration)?;
                Ok((start, deadline))
            },
        }
    }

    fn ensure_not_failed(&self) -> (r: Result<(), SchedulerError>)
        ensures
            shown(r) == match failed_fault(self.model()) {
                Some(fault) => Err(fault),
                None => Ok(()),
            },
    {
        match &self.failure {
            Some(failure) => Err(SchedulerError::RunFailed(copy_failure(failure))),
            None => Ok(()),
        }
    }

    fn ensure_running(&self) -> (r: Result<(), SchedulerError>)
        ensures
            shown(r) == match running_fault(self.model()) {
                Some(fault) => Err(fault),
                None => Ok(()),
            },
    {
        self.ensure_not_failed()?;
        if self.origin.is_none() {
            return Err(SchedulerError::NotStarted);
        }
        if self.timeline_complete {
            return Err(SchedulerError::TimelineEnded);
        }
        Ok(())
    }

    fn worker_index(&self, worker: WorkerId) -> (r: Result<usize, SchedulerError>)
        ensures
            shown(r) == match worker_fault(self.model(), worker) {
                Some(fault) => Err(fault),
                None => Ok(worker.0 as usize),
            },
    {
        let index: usize = worker.value() as usize;
        if index >= self.workers.len() {
            return Err(
                SchedulerError::WorkerNotConfigured {
                    worker,
                    configured_clients: self.schedule.clients,
                },
            );
        }
        Ok(index)
    }

    fn observe(&mut self, now: Duration) -> (r: Result<(), SchedulerError>)
        ensures
            clock_fault(old(self).model(), now) is None ==> r is Ok && final(self).model()
                == observed(old(self).model(), now),
            clock_fault(old(self).model(), now) matches Some(fault) ==> shown(r) == Err::<
                (),
                SchedulerFault,
            >(fault) && final(self).model() == old(self).model(),
            final(self).clock == old(self).clock,
    {
        if let Some(previous) = self.last_observed {
            if now.nanos < previous.nanos {
                return Err(SchedulerError::ClockRegressed { previous, now });
            }
        }
        self.last_observed = Some(now);
        Ok(())
    }

    fn abandon_expired_selections(&mut self, phase: PhaseId, at: Duration)
        requires
            old(self).wf(),
            phase_valid(phase),
        ensures
            final(self).model() == expired(
                old(self).model(),
                phase,
                at,
                old(self).workers@.len() as int,
            ),
            final(self).clock == old(self).clock,
    {
        let ghost before = self.model();
        let ghost clock = self.clock;
        let mut index: usize = 0;
        while index < self.workers.len()
            invariant
                sound(before),
                phase_valid(phase),
                index <= before.workers.len(),
                self.workers@.len() == before.workers.len(),
                self.model() == expired(before, phase, at, index as int),
                self.clock == clock,
            decreases before.workers.len() - index,
        {
            proof {
                lemma_expired(before, phase, at, index as int);
            }
            let selection = self.workers[index].selection;
            let stopped = match selection {
                Some(SelectionState::Reserved(reservation)) => reservation.phase == phase,
                Some(SelectionState::RetryPending(ticket)) => ticket.phase() == phase,
                _ => false,
            };
            if stopped {
                let ghost middle = self.model();
                self.select(index, None);
                self.account(phase, WindowEntry::CutoffStop);
                match selection {
                    Some(SelectionState::Reserved(reservation)) => {
                        self.note(SchedulerEvent::ReservationAbandoned { reservation, at });
                    },
                    Some(SelectionState::RetryPending(ticket)) => {
                        self.note(
                            SchedulerEvent::TransactionFinished {
                                ticket,
                                class: CompletionClass::Abandoned,
                                at,
                            },
                        );
                    },
                    _ => {},
                }
                assert(self.model() == expired(before, phase, at, index as int + 1));
            }
            proof {
                lemma_expired(before, phase, at, index as int + 1);
            }
            index = index + 1;
        }
    }

    /// Closes `phase` at its deadline and announces the next one.
    fn advance_phase(&mut self, phase: PhaseId, deadline: Duration) -> (r: Result<
        (),
        SchedulerError,
    >)
        requires
            old(self).wf(),
            old(self).origin is Some,
            old(self).announced_phase == Some(phase),
        ensures
            (Step { state: final(self).model(), result: shown(r) }) == advance(
                old(self).model(),
                phase,
                deadline,
            ),
            final(self).clock == old(self).clock,
    {
        let ghost before = self.model();
        proof {
            lemma_expired(before, phase, deadline, before.workers.len() as int);
            lemma_closed(before, phase, deadline);
        }
        self.abandon_expired_selections(phase, deadline);
        self.note(SchedulerEvent::PhaseEnded { phase, at: deadline });
        if let PhaseId::FormalWindow(window) = phase {
            assert(self.model().windows[window as int] == self.windows@[window as int]@);
            let gate = self.windows[window as usize].gate();
            self.note(SchedulerEvent::WindowGateEvaluated { window, gate, at: deadline });
        }
        self.announced_phase = phase.next();
        assert(self.model() == closed(before, phase, deadline));
        match self.announced_phase {
            Some(next) => {
                let (start, next_deadline) = self.phase_bounds(next)?;
                self.note(
                    SchedulerEvent::PhaseStarted {
                        phase: next,
                        at: start,
                        deadline: next_deadline,
                    },
                );
            },
            None => {
                self.timeline_complete = true;
                self.note(SchedulerEvent::TimelineCompleted { at: deadline });
            },
        }
        Ok(())
    }

    fn sync_to(&mut self, now: Duration) -> (r: Result<(), SchedulerError>)
        requires
            old(self).wf(),
        ensures
            (Step { state: final(self).model(), result: shown(r) }) == synced(
                old(self).model(),
                now,
            ),
            final(self).wf(),
            final(self).clock == old(self).clock,
    {
        let ghost before = self.model();
        let ghost clock = self.clock;
        proof {
            lemma_synced(before, now);
        }
        self.ensure_not_failed()?;
        if self.origin.is_none() {
            return Err(SchedulerError::NotStarted);
        }
        loop
            invariant
                before == old(self).model(),
                clock == old(self).clock,
                self.wf(),
                self.origin is Some,
                walked(self.model(), now) == walked(before, now),
                walked(before, now) == synced(before, now),
                sound(synced(before, now).state),
                self.clock == clock,
            decreases phases_left(self.announced_phase),
        {
            let phase = match self.announced_phase {
                Some(phase) => phase,
                None => {
                    return Ok(());
                },
            };
            let (_, deadline) = self.phase_bounds(phase)?;
            if now.nanos < deadline.nanos {
                return Ok(());
            }
            proof {
                lemma_advance(self.model(), phase, deadline);
            }
            self.advance_phase(phase, deadline)?;
        }
    }

    fn fail_worker_at(
        &mut self,
        worker: WorkerId,
        phase: Option<PhaseId>,
        reason: String,
        at: Duration,
    ) -> (r: SchedulerError)
        requires
            old(self).wf(),
            worker.0 < old(self).workers@.len(),
        ensures
            final(self).model() == failed(old(self).model(), worker, phase, reason@, at),
            r@ == SchedulerFault::RunFailed(FailureModel { worker, phase, reason: reason@ }),
            final(self).clock == old(self).clock,
    {
        let index: usize = worker.value() as usize;
        if let Some(selection) = self.workers[index].selection {
            assert(selection_sound(self.model(), index as int, selection));
            let own = selection.phase();
            self.select(index, None);
            let entry = match selection {
                SelectionState::InFlight { ticket, .. } => if at.nanos
                    < ticket.phase_deadline().nanos {
                    WindowEntry::Abandoned
                } else {
                    WindowEntry::GraceTail
                },
                _ => WindowEntry::CutoffStop,
            };
            self.account(own, entry);
        }
        self.failure = Some(SchedulerFailure { worker, phase, reason: reason.clone() });
        let answer = SchedulerError::RunFailed(
            SchedulerFailure { worker, phase, reason: reason.clone() },
        );
        self.recorder.record(SchedulerEvent::WorkerFailed { worker, phase, at, reason });
        answer
    }
}

/// What a scheduler does when it reads `now` from its clock.
impl<C: MonotonicClock, R: EventRecorder> Final2026Scheduler<C, R> {
    /// Registers a session of a worker at `now`.
    pub fn worker_prepared_at(
        &mut self,
        worker: WorkerId,
        session: PreparedSessionId,
        now: Duration,
    ) -> (r: Result<(), SchedulerError>)
        requires
            old(self).wf(),
        ensures
            (Step { state: final(self).model(), result: shown(r) }) == prepare_step(
                old(self).model(),
                worker,
                session,
                now,
            ),
            final(self).wf(),
            final(self).clock == old(self).clock,
    {
        proof {
            law_start_up_keeps_sound(self.model(), worker, session, now);
        }
        self.ensure_not_failed()?;
        let index: usize = self.worker_index(worker)?;
        if self.origin.is_some() {
            return Err(SchedulerError::AlreadyStarted);
        }
        self.observe(now)?;
        let mut state = self.workers[index];
        if state.session.is_some() {
            return Err(SchedulerError::DuplicateWorker(worker));
        }
        if self.session_in_use(session) {
            return Err(SchedulerError::DuplicateSession(session));
        }
        state.session = Some(session);
        self.workers.set(index, state);
        self.note(SchedulerEvent::WorkerPrepared { worker, session, at: now });
        Ok(())
    }

    fn session_in_use(&self, session: PreparedSessionId) -> (r: bool)
        ensures
            r == session_taken(self.workers@, session),
    {
        let mut i: usize = 0;
        while i < self.workers.len()
            invariant
                i <= self.workers@.len(),
                forall|k: int| 0 <= k < i ==> (#[trigger] self.workers@[k]).session != Some(session),
            decreases self.workers@.len() - i,
        {
            if let Some(own) = self.workers[i].session {
                if own == session {
                    assert(self.workers@[i as int].session == Some(session));
                    return true;
                }
            }
            i = i + 1;
        }
        false
    }

    /// Releases the barrier at `now`.
    pub fn start_at(&mut self, now: Duration) -> (r: Result<(), SchedulerError>)
        requires
            old(self).wf(),
        ensures
            (Step { state: final(self).model(), result: shown(r) }) == start_step(
                old(self).model(),
                now,
            ),
            final(self).wf(),
            final(self).clock == old(self).clock,
    {
        proof {
            law_start_up_keeps_sound(self.model(), WorkerId(0), PreparedSessionId(0), now);
        }
        self.ensure_not_failed()?;
        if self.origin.is_some() {
            return Err(SchedulerError::AlreadyStarted);
        }
        let ready: usize = self.ready_workers();
        if ready != self.schedule.clients as usize {
            return Err(
                SchedulerError::BarrierIncomplete {
                    ready,
                    required: self.schedule.clients as usize,
                },
            );
        }
        self.observe(now)?;
        let deadline = checked_add(now, self.schedule.warmup_duration)?;
        self.origin = Some(now);
        self.announced_phase = Some(PhaseId::Warmup);
        self.note(SchedulerEvent::BarrierReleased { workers: self.schedule.clients, at: now });
        self.note(SchedulerEvent::PhaseStarted { phase: PhaseId::Warmup, at: now, deadline });
        Ok(())
    }

    /// How many workers have a session.
    pub fn ready_workers(&self) -> (r: usize)
        requires
            self.wf(),
        ensures
            r == ready_count(self.workers@, self.workers@.len() as int),
    {
        let mut ready: usize = 0;
        let mut i: usize = 0;
        while i < self.workers.len()
            invariant
                i <= self.workers@.len(),
                ready <= i,
                ready == ready_count(self.workers@, i as int),
            decreases self.workers@.len() - i,
        {
            if self.workers[i].session.is_some() {
                ready = ready + 1;
            }
            i = i + 1;
        }
        ready
    }

    fn expire_phase_tail(&mut self, now: Duration) -> (r: Result<(), SchedulerError>)
        requires
            old(self).wf(),
        ensures
            (Step { state: final(self).model(), result: shown(r) }) == expire_tail(
                old(self).model(),
                now,
                0,
            ),
            final(self).clock == old(self).clock,
    {
        let ghost before = self.model();
        let mut index: usize = 0;
        while index < self.workers.len()
            invariant
                self.wf(),
                before == old(self).model(),
                self.model() == before,
                self.clock == old(self).clock,
                index <= self.workers@.len() <= 32,
                expire_tail(before, now, 0) == expire_tail(before, now, index as int),
            decreases self.workers@.len() - index,
        {
            if let Some(SelectionState::InFlight { ticket, .. }) = self.workers[index].selection {
                let deadline = checked_add(
                    ticket.phase_deadline(),
                    self.limits.phase_tail_grace,
                )?;
                if now.nanos >= deadline.nanos {
                    let reason = drain_text(deadline);
                    let error = self.fail_worker_at(
                        WorkerId(index as u16),
                        Some(ticket.phase()),
                        reason,
                        now,
                    );
                    return Err(error);
                }
            }
            index = index + 1;
        }
        Ok(())
    }

    /// Brings the scheduler up to `now`.
    pub fn poll_at(&mut self, now: Duration) -> (r: Result<(), SchedulerError>)
        requires
            old(self).wf(),
        ensures
            (Step { state: final(self).model(), result: shown(r) }) == poll_step(
                old(self).model(),
                now,
            ),
            final(self).wf(),
            final(self).clock == old(self).clock,
    {
        proof {
            law_supervision_keeps_sound(self.model(), WorkerId(0), Seq::empty(), now);
        }
        self.observe_and_sync(now)?;
        self.expire_phase_tail(now)
    }

    fn observe_and_sync(&mut self, now: Duration) -> (r: Result<(), SchedulerError>)
        requires
            old(self).wf(),
        ensures
            (Step { state: final(self).model(), result: shown(r) }) == observed_and_synced(
                old(self).model(),
                now,
            ),
            final(self).wf(),
            final(self).clock == old(self).clock,
    {
        proof {
            lemma_synced(self.model(), now);
            lemma_observed_kept(self.model(), now);
        }
        self.observe(now)?;
        self.sync_to(now)
    }

    /// Reserves one stage-local number at `now`.
    pub fn reserve_transaction_at(&mut self, worker: WorkerId, now: Duration) -> (r: Result<
        TransactionReservation,
        SchedulerError,
    >)
        requires
            old(self).wf(),
        ensures
            (Step { state: final(self).model(), result: shown(r) }) == reserve_step(
                old(self).model(),
                worker,
                now,
            ),
            final(self).wf(),
            final(self).clock == old(self).clock,
    {
        proof {
            lemma_reserve_keeps_sound(self.model(), worker, now);
            lemma_synced(self.model(), now);
        }
        let index: usize = self.worker_index(worker)?;
        self.observe_and_sync(now)?;
        self.ensure_running()?;
        let phase = match self.announced_phase {
            Some(phase) => phase,
            None => {
                return Err(SchedulerError::TimelineEnded);
            },
        };
        let (_, deadline) = self.phase_bounds(phase)?;
        let mut state = self.workers[index];
        if state.selection.is_some() {
            return Err(SchedulerError::WorkerBusy(worker));
        }
        if state.sequence_phase != Some(phase) {
            state.sequence_phase = Some(phase);
            state.next_txn_no = 0;
        }
        let txn_no: u64 = state.next_txn_no;
        if txn_no == u64::MAX {
            return Err(SchedulerError::SequenceExhausted(worker));
        }
        state.next_txn_no = txn_no + 1;
        self.workers.set(index, state);
        let reservation = TransactionReservation {
            id: self.next_ticket_id,
            worker,
            phase,
            txn_no,
            selected_at: now,
            phase_deadline: deadline,
        };
        if self.next_ticket_id == u64::MAX {
            return Err(SchedulerError::TicketExhausted);
        }
        self.next_ticket_id = self.next_ticket_id + 1;
        self.select(index, Some(SelectionState::Reserved(reservation)));
        self.note(SchedulerEvent::TransactionReserved { reservation, at: now });
        Ok(reservation)
    }

    /// Binds a reservation and starts its first request at `now`.
    pub fn start_transaction_at(
        &mut self,
        reservation: TransactionReservation,
        identity: TransactionIdentity,
        now: Duration,
    ) -> (r: Result<TransactionTicket, SchedulerError>)
        requires
            old(self).wf(),
        ensures
            (Step { state: final(self).model(), result: shown(r) }) == begin_step(
                old(self).model(),
                reservation,
                identity,
                now,
            ),
            final(self).wf(),
            final(self).clock == old(self).clock,
    {
        proof {
            lemma_begin_keeps_sound(self.model(), reservation, identity, now);
            lemma_synced(self.model(), now);
        }
        let worker = reservation.worker;
        let index: usize = self.worker_index(worker)?;
        self.observe_and_sync(now)?;
        if now.nanos >= reservation.phase_deadline.nanos {
            return Err(SchedulerError::ReservationDeadlinePassed);
        }
        self.ensure_running()?;
        let reserved = match self.workers[index].selection {
            Some(SelectionState::Reserved(current)) => current == reservation,
            _ => false,
        };
        if !reserved {
            return Err(SchedulerError::TicketMismatch(worker));
        }
        let ticket = TransactionTicket { reservation, identity };
        self.select(index, Some(SelectionState::InFlight { ticket, attempt_started_at: now }));
        self.note(SchedulerEvent::TransactionStarted { ticket, retry: false, at: now });
        Ok(ticket)
    }

    fn check_retry(&self, ticket: TransactionTicket) -> (r: Result<(), SchedulerError>)
        requires
            ticket.reservation.worker.0 < self.workers@.len(),
        ensures
            shown(r) == match retry_fault(self.model(), ticket) {
                Some(fault) => Err(fault),
                None => Ok(()),
            },
    {
        let worker = ticket.worker();
        match self.workers[worker.value() as usize].selection {
            Some(SelectionState::RetryPending(current)) if current == ticket => Ok(()),
            Some(_) => Err(SchedulerError::TicketMismatch(worker)),
            None => Err(SchedulerError::RetryNotPending(worker)),
        }
    }

    /// Starts another attempt of a ticket at `now`.
    pub fn start_retry_at(&mut self, ticket: TransactionTicket, now: Duration) -> (r: Result<
        TransactionTicket,
        SchedulerError,
    >)
        requires
            old(self).wf(),
        ensures
            (Step { state: final(self).model(), result: shown(r) }) == retry_step(
                old(self).model(),
                ticket,
                now,
            ),
            final(self).wf(),
            final(self).clock == old(self).clock,
    {
        proof {
            lemma_retry_keeps_sound(self.model(), ticket, now);
            lemma_synced(self.model(), now);
        }
        let index: usize = self.worker_index(ticket.worker())?;
        self.observe_and_sync(now)?;
        if now.nanos >= ticket.phase_deadline().nanos {
            return Err(SchedulerError::RetryDeadlinePassed);
        }
        self.ensure_running()?;
        self.check_retry(ticket)?;
        self.select(index, Some(SelectionState::InFlight { ticket, attempt_started_at: now }));
        self.note(SchedulerEvent::TransactionStarted { ticket, retry: true, at: now });
        Ok(ticket)
    }
}

/// What a scheduler does when a request ends.
impl<C: MonotonicClock, R: EventRecorder> Final2026Scheduler<C, R> {
    fn find_attempt(&self, ticket: TransactionTicket) -> (r: Option<Duration>)
        requires
            ticket.reservation.worker.0 < self.workers@.len(),
        ensures
            r == attempt_start(self.model(), ticket),
    {
        match self.workers[ticket.worker().value() as usize].selection {
            Some(SelectionState::InFlight { ticket: current, attempt_started_at }) => if current
                == ticket {
                Some(attempt_started_at)
            } else {
                None
            },
            _ => None,
        }
    }

    /// Returns the absolute phase-tail drain deadline for an active attempt.
    pub fn attempt_deadline(&self, ticket: TransactionTicket) -> (r: Result<
        Duration,
        SchedulerError,
    >)
        ensures
            shown(r) == deadline_answer(self.model(), ticket),
    {
        self.ensure_not_failed()?;
        let _index: usize = self.worker_index(ticket.worker())?;
        if self.find_attempt(ticket).is_none() {
            return Err(SchedulerError::TicketMismatch(ticket.worker()));
        }
        checked_add(ticket.phase_deadline(), self.limits.phase_tail_grace)
    }

    /// Ends an attempt.
    fn end_attempt(
        &mut self,
        ticket: TransactionTicket,
        selection: Option<SelectionState>,
        entry: WindowEntry,
        class: CompletionClass,
        at: Duration,
    )
        requires
            old(self).wf(),
            ticket.reservation.worker.0 < old(self).workers@.len(),
            phase_valid(ticket.reservation.phase),
        ensures
            final(self).model() == ended(
                old(self).model(),
                ticket,
                selection,
                entered(window_account(old(self).model(), ticket.reservation.phase), entry),
                class,
                at,
            ),
            final(self).clock == old(self).clock,
    {
        self.select(ticket.worker().value() as usize, selection);
        self.account(ticket.phase(), entry);
        self.note(SchedulerEvent::TransactionFinished { ticket, class, at });
    }

    /// Counts a terminal that arrived inside its phase.
    fn count_terminal(
        &mut self,
        ticket: TransactionTicket,
        outcome: AttemptOutcome,
        at: Duration,
        offset: Option<Duration>,
    ) -> (r: AttemptDisposition)
        requires
            old(self).wf(),
            ticket.reservation.worker.0 < old(self).workers@.len(),
            phase_valid(ticket.reservation.phase),
        ensures
            (Step {
                state: final(self).model(),
                result: Ok::<AttemptDisposition, SchedulerFault>(r),
            }) == counted_step(old(self).model(), ticket, outcome, at, offset),
            final(self).clock == old(self).clock,
    {
        let latency = at.saturating_sub(ticket.selected_at());
        match outcome {
            AttemptOutcome::Commit { delivery_processed } => {
                self.end_attempt(
                    ticket,
                    None,
                    WindowEntry::Commit {
                        kind: ticket.identity.transaction_type(),
                        warehouse: ticket.identity.home_warehouse(),
                        latency,
                        delivered: delivery_processed,
                        offset,
                    },
                    CompletionClass::Committed,
                    at,
                );
                AttemptDisposition::Finished
            },
            AttemptOutcome::ExpectedRollback => {
                self.end_attempt(
                    ticket,
                    None,
                    WindowEntry::ExpectedRollback { warehouse: ticket.identity.home_warehouse() },
                    CompletionClass::ExpectedRollback,
                    at,
                );
                AttemptDisposition::Finished
            },
            AttemptOutcome::RetryableAbort => {
                self.end_attempt(
                    ticket,
                    Some(SelectionState::RetryPending(ticket)),
                    WindowEntry::RetryAbort,
                    CompletionClass::RetryableAbort,
                    at,
                );
                AttemptDisposition::RetrySameParameters
            },
        }
    }

    /// Handles a terminal frame using the time sampled when that frame arrived.
    ///
    /// Executors take this sample before waiting for a shared scheduler,
    /// otherwise contention can turn an on-time terminal into a grace tail.
    pub fn finish_attempt_at(
        &mut self,
        ticket: TransactionTicket,
        outcome: AttemptOutcome,
        completed_at: Duration,
    ) -> (r: Result<AttemptDisposition, SchedulerError>)
        requires
            old(self).wf(),
        ensures
            (Step { state: final(self).model(), result: shown(r) }) == finish_step(
                old(self).model(),
                ticket,
                outcome,
                completed_at,
            ),
            final(self).wf(),
            final(self).clock == old(self).clock,
    {
        proof {
            law_endings_keep_sound(self.model(), ticket, outcome, completed_at);
            lemma_synced(self.model(), completed_at);
        }
        let worker = ticket.worker();
        let index: usize = self.worker_index(worker)?;
        self.sync_to(completed_at)?;
        let attempt_started_at = match self.find_attempt(ticket) {
            Some(started) => started,
            None => {
                return Err(SchedulerError::TicketMismatch(worker));
            },
        };
        assert(selection_sound(
            self.model(),
            index as int,
            self.model().workers[index as int].selection->0,
        ));
        if completed_at.nanos < attempt_started_at.nanos {
            return Err(
                SchedulerError::CompletionBeforeAttempt { completed_at, attempt_started_at },
            );
        }
        let deadline = checked_add(ticket.phase_deadline(), self.limits.phase_tail_grace)?;
        if completed_at.nanos >= deadline.nanos {
            if is_read_only(ticket.identity.transaction_type()) {
                self.end_attempt(
                    ticket,
                    None,
                    WindowEntry::GraceTail,
                    CompletionClass::GraceTail,
                    completed_at,
                );
                return Ok(AttemptDisposition::GraceTail);
            }
            let reason = drain_text(deadline);
            let error = self.fail_worker_at(worker, Some(ticket.phase()), reason, completed_at);
            return Err(error);
        }
        let fits = match outcome {
            AttemptOutcome::Commit { .. } => !ticket.identity.expects_business_rollback(),
            AttemptOutcome::ExpectedRollback => ticket.identity.expects_business_rollback(),
            AttemptOutcome::RetryableAbort => true,
        };
        if !fits {
            let reason = contradiction_text(ticket.id());
            let error = self.fail_worker_at(worker, Some(ticket.phase()), reason, completed_at);
            return Err(error);
        }
        if completed_at.nanos >= ticket.phase_deadline().nanos {
            self.end_attempt(
                ticket,
                None,
                WindowEntry::GraceTail,
                CompletionClass::GraceTail,
                completed_at,
            );
            return Ok(AttemptDisposition::GraceTail);
        }
        let offset = match ticket.phase() {
            PhaseId::Warmup => None,
            PhaseId::FormalWindow(_) => {
                let (phase_started_at, _) = self.phase_bounds(ticket.phase())?;
                match completed_at.checked_sub(phase_started_at) {
                    Some(offset) => Some(offset),
                    None => {
                        return Err(
                            SchedulerError::CompletionBeforePhase {
                                completed_at,
                                phase_started_at,
                            },
                        );
                    },
                }
            },
        };
        Ok(self.count_terminal(ticket, outcome, completed_at, offset))
    }

    /// Handles a terminal frame that arrives when the clock shows `now`.
    pub fn finish_attempt_observed(
        &mut self,
        ticket: TransactionTicket,
        outcome: AttemptOutcome,
        now: Duration,
    ) -> (r: Result<AttemptDisposition, SchedulerError>)
        requires
            old(self).wf(),
        ensures
            (Step { state: final(self).model(), result: shown(r) }) == finish_now_step(
                old(self).model(),
                ticket,
                outcome,
                now,
            ),
            final(self).wf(),
            final(self).clock == old(self).clock,
    {
        proof {
            lemma_observed_kept(self.model(), now);
        }
        self.observe(now)?;
        self.finish_attempt_at(ticket, outcome, now)
    }

    /// Abandons an in-flight transaction whose connection outcome is unknown.
    pub fn abandon_read_only_inflight_at(
        &mut self,
        ticket: TransactionTicket,
        abandoned_at: Duration,
    ) -> (r: Result<(), SchedulerError>)
        requires
            old(self).wf(),
        ensures
            (Step { state: final(self).model(), result: shown(r) }) == abandon_inflight_step(
                old(self).model(),
                ticket,
                abandoned_at,
            ),
            final(self).wf(),
            final(self).clock == old(self).clock,
    {
        proof {
            law_endings_keep_sound(
                self.model(),
                ticket,
                AttemptOutcome::RetryableAbort,
                abandoned_at,
            );
            lemma_synced(self.model(), abandoned_at);
        }
        let index: usize = self.worker_index(ticket.worker())?;
        self.sync_to(abandoned_at)?;
        let attempt_started_at = match self.find_attempt(ticket) {
            Some(started) => started,
            None => {
                return Err(SchedulerError::TicketMismatch(ticket.worker()));
            },
        };
        assert(selection_sound(
            self.model(),
            index as int,
            self.model().workers[index as int].selection->0,
        ));
        if abandoned_at.nanos < attempt_started_at.nanos {
            return Err(
                SchedulerError::CompletionBeforeAttempt {
                    completed_at: abandoned_at,
                    attempt_started_at,
                },
            );
        }
        let entry = if abandoned_at.nanos < ticket.phase_deadline().nanos {
            WindowEntry::Abandoned
        } else {
            WindowEntry::GraceTail
        };
        self.end_attempt(ticket, None, entry, CompletionClass::Abandoned, abandoned_at);
        Ok(())
    }

    /// Abandons a pending retry at `now`.
    pub fn abandon_retry_at(&mut self, ticket: TransactionTicket, now: Duration) -> (r: Result<
        (),
        SchedulerError,
    >)
        requires
            old(self).wf(),
        ensures
            (Step { state: final(self).model(), result: shown(r) }) == abandon_retry_step(
                old(self).model(),
                ticket,
                now,
            ),
            final(self).wf(),
            final(self).clock == old(self).clock,
    {
        proof {
            law_endings_keep_sound(self.model(), ticket, AttemptOutcome::RetryableAbort, now);
            lemma_synced(self.model(), now);
        }
        let index: usize = self.worker_index(ticket.worker())?;
        self.observe_and_sync(now)?;
        self.check_retry(ticket)?;
        assert(selection_sound(
            self.model(),
            index as int,
            self.model().workers[index as int].selection->0,
        ));
        self.end_attempt(
            ticket,
            None,
            WindowEntry::RetryAbandoned,
            CompletionClass::Abandoned,
            now,
        );
        Ok(())
    }

    /// Fails the run at `now` for a worker.
    pub fn worker_failed_at(&mut self, worker: WorkerId, reason: &str, now: Duration) -> (r: Result<
        (),
        SchedulerError,
    >)
        requires
            old(self).wf(),
        ensures
            (Step { state: final(self).model(), result: shown(r) }) == worker_failed_step(
                old(self).model(),
                worker,
                reason@,
                now,
            ),
            final(self).wf(),
            final(self).clock == old(self).clock,
    {
        proof {
            law_supervision_keeps_sound(self.model(), worker, reason@, now);
            lemma_observed_kept(self.model(), now);
            lemma_synced(observed(self.model(), now), now);
        }
        self.ensure_not_failed()?;
        let index: usize = self.worker_index(worker)?;
        self.observe(now)?;
        if self.origin.is_some() {
            self.sync_to(now)?;
        }
        let phase = match self.workers[index].selection {
            Some(selection) => Some(selection.phase()),
            None => self.announced_phase,
        };
        let error = self.fail_worker_at(worker, phase, reason.to_owned(), now);
        Err(error)
    }

    fn all_drained(&self) -> (r: bool)
        ensures
            r == drained(self.workers@),
    {
        let mut i: usize = 0;
        while i < self.workers.len()
            invariant
                i <= self.workers@.len(),
                forall|k: int| 0 <= k < i ==> (#[trigger] self.workers@[k]).selection is None,
            decreases self.workers@.len() - i,
        {
            if self.workers[i].selection.is_some() {
                return false;
            }
            i = i + 1;
        }
        true
    }

    fn accounts_add_up(&self) -> (r: bool)
        ensures
            r == all_consistent(self.model().windows),
    {
        let ghost models = self.model().windows;
        let mut i: usize = 0;
        while i < self.windows.len()
            invariant
                i <= self.windows@.len(),
                models == window_models(self.windows@),
                forall|k: int| 0 <= k < i ==> consistent(#[trigger] models[k]),
            decreases self.windows@.len() - i,
        {
            assert(models[i as int] == self.windows@[i as int]@);
            if !self.windows[i].accounting_is_consistent() {
                return false;
            }
            i = i + 1;
        }
        true
    }

    /// Produces the ranked summary at `now`.
    pub fn measurement_summary_at(&mut self, now: Duration) -> (r: Result<
        MeasurementSummary,
        SchedulerError,
    >)
        requires
            old(self).wf(),
        ensures
            (Step { state: final(self).model(), result: shown_summary(r) }) == summary_step(
                old(self).model(),
                now,
            ),
            final(self).wf(),
            final(self).clock == old(self).clock,
    {
        self.poll_at(now)?;
        if !self.timeline_complete {
            return Err(SchedulerError::TimelineIncomplete);
        }
        if !self.all_drained() {
            return Err(SchedulerError::WorkersNotDrained);
        }
        if !self.accounts_add_up() {
            return Err(SchedulerError::InconsistentMeasurementAccounting);
        }
        assert forall|i: int| 0 <= i < self.windows@.len() implies window_shaped(
            (#[trigger] self.windows@[i])@,
        ) by {
            assert(self.model().windows[i] == self.windows@[i]@);
        }
        let summary = MeasurementSummary::from_windows(&self.windows);
        assert(summary@.window_gates =~= Seq::new(
            3,
            |i: int| window_gate(self.model().windows[i]),
        ));
        Ok(summary)
    }
}

/// The operations of a scheduler that reads its own clock.
impl<C: MonotonicClock, R: EventRecorder> Final2026Scheduler<C, R> {
    /// A scheduler for the official schedule.
    pub fn new(
        clock: C,
        recorder: R,
        limits: LocalRuntimeLimits,
        hot_warehouses: [u16; 4],
    ) -> (r: Self)
        ensures
            r.model() == fresh(
                limits,
                official_schedule(),
                hot_warehouses@,
                recorder.recorded(),
            ),
            r.clock == clock,
            r.wf(),
    {
        Self::build(clock, recorder, limits, hot_warehouses, PhaseScheduleConfig::official())
    }

    fn build(
        clock: C,
        recorder: R,
        limits: LocalRuntimeLimits,
        hot_warehouses: [u16; 4],
        schedule: PhaseScheduleConfig,
    ) -> (r: Self)
        requires
            schedule_valid(schedule),
        ensures
            r.model() == fresh(limits, schedule, hot_warehouses@, recorder.recorded()),
            r.clock == clock,
            r.wf(),
    {
        let ghost goal = fresh(limits, schedule, hot_warehouses@, recorder.recorded());
        let mut workers: Vec<WorkerState> = Vec::new();
        let mut i: u16 = 0;
        while i < schedule.clients
            invariant
                i <= schedule.clients,
                goal == fresh(limits, schedule, hot_warehouses@, recorder.recorded()),
                workers@ =~= goal.workers.subrange(0, i as int),
            decreases schedule.clients - i,
        {
            workers.push(
                WorkerState {
                    session: None,
                    sequence_phase: None,
                    next_txn_no: 0,
                    selection: None,
                },
            );
            i = i + 1;
        }
        let mut windows: Vec<WindowStats> = Vec::new();
        windows.push(WindowStats::new(hot_warehouses));
        windows.push(WindowStats::new(hot_warehouses));
        windows.push(WindowStats::new(hot_warehouses));
        proof {
            law_fresh_is_sound(limits, schedule, hot_warehouses@, recorder.recorded());
            assert(window_models(windows@) =~= goal.windows);
            assert(workers@ =~= goal.workers);
        }
        Final2026Scheduler {
            clock,
            recorder,
            limits,
            schedule,
            workers,
            origin: None,
            announced_phase: None,
            timeline_complete: false,
            last_observed: None,
            next_ticket_id: 0,
            windows,
            failure: None,
        }
    }

    /// A scheduler for an explicitly local, non-ranked schedule.
    pub fn new_with_schedule(
        clock: C,
        recorder: R,
        limits: LocalRuntimeLimits,
        hot_warehouses: [u16; 4],
        schedule: PhaseScheduleConfig,
    ) -> (r: Result<Self, SchedulerError>)
        ensures
            r is Ok <==> schedule_valid(schedule),
            r matches Ok(scheduler) ==> scheduler.model() == fresh(
                limits,
                schedule,
                hot_warehouses@,
                recorder.recorded(),
            ) && scheduler.clock == clock && scheduler.wf(),
            r matches Err(error) ==> error == if schedule.clients == 0 || schedule.clients
                > OFFICIAL_CLIENTS {
                SchedulerError::InvalidScheduleClients(schedule.clients)
            } else {
                SchedulerError::InvalidMeasurementWindowDuration
            },
    {
        let schedule = PhaseScheduleConfig::new(
            schedule.clients,
            schedule.warmup_duration,
            schedule.measurement_window_duration,
        )?;
        Ok(Self::build(clock, recorder, limits, hot_warehouses, schedule))
    }

    pub fn recorder(&self) -> (r: &R)
        ensures
            *r == self.recorder,
    {
        &self.recorder
    }

    pub fn windows(&self) -> (r: &Vec<WindowStats>)
        ensures
            *r == self.windows,
    {
        &self.windows
    }

    pub fn schedule(&self) -> (r: PhaseScheduleConfig)
        ensures
            r == self.schedule,
    {
        self.schedule
    }

    pub fn timeline_complete(&self) -> (r: bool)
        ensures
            r == self.timeline_complete,
    {
        self.timeline_complete
    }

    pub fn prepared_session(&self, worker: WorkerId) -> (r: Option<PreparedSessionId>)
        ensures
            r == session_of(self.model(), worker),
    {
        let index: usize = worker.value() as usize;
        if index < self.workers.len() {
            self.workers[index].session
        } else {
            None
        }
    }

    /// Registers a session only after connection, isolation setup and
    /// statement preparation.  After the barrier releases the session pool is
    /// fixed.
    pub fn worker_prepared(&mut self, worker: WorkerId, session: PreparedSessionId) -> (r: Result<
        (),
        SchedulerError,
    >)
        requires
            old(self).wf(),
        ensures
            exists|now: Duration|
                old(self).clock.reads(now) && (
                Step { state: final(self).model(), result: shown(r) }) == #[trigger] prepare_step(
                    old(self).model(),
                    worker,
                    session,
                    now,
                ),
            final(self).wf(),
            final(self).clock == old(self).clock,
    {
        let now = self.clock.now();
        self.worker_prepared_at(worker, session, now)
    }

    /// Releases the all-worker barrier and starts the sole warmup.
    pub fn start(&mut self) -> (r: Result<(), SchedulerError>)
        requires
            old(self).wf(),
        ensures
            exists|now: Duration|
                old(self).clock.reads(now) && (
                Step { state: final(self).model(), result: shown(r) }) == #[trigger] start_step(
                    old(self).model(),
                    now,
                ),
            final(self).wf(),
            final(self).clock == old(self).clock,
    {
        let now = self.clock.now();
        self.start_at(now)
    }

    /// Synchronizes phase events to the clock.
    pub fn poll(&mut self) -> (r: Result<(), SchedulerError>)
        requires
            old(self).wf(),
        ensures
            exists|now: Duration|
                old(self).clock.reads(now) && (
                Step { state: final(self).model(), result: shown(r) }) == #[trigger] poll_step(
                    old(self).model(),
                    now,
                ),
            final(self).wf(),
            final(self).clock == old(self).clock,
    {
        let now = self.clock.now();
        self.poll_at(now)
    }

    /// Reserves exactly one stage-local number for parameter generation.
    pub fn reserve_transaction(&mut self, worker: WorkerId) -> (r: Result<
        TransactionReservation,
        SchedulerError,
    >)
        requires
            old(self).wf(),
        ensures
            exists|now: Duration|
                old(self).clock.reads(now) && (
                Step { state: final(self).model(), result: shown(r) }) == #[trigger] reserve_step(
                    old(self).model(),
                    worker,
                    now,
                ),
            final(self).wf(),
            final(self).clock == old(self).clock,
    {
        let now = self.clock.now();
        self.reserve_transaction_at(worker, now)
    }

    /// Binds the complete immutable input identity and starts its first
    /// request.
    pub fn start_transaction(
        &mut self,
        reservation: TransactionReservation,
        identity: TransactionIdentity,
    ) -> (r: Result<TransactionTicket, SchedulerError>)
        requires
            old(self).wf(),
        ensures
            exists|now: Duration|
                old(self).clock.reads(now) && (
                Step { state: final(self).model(), result: shown(r) }) == #[trigger] begin_step(
                    old(self).model(),
                    reservation,
                    identity,
                    now,
                ),
            final(self).wf(),
            final(self).clock == old(self).clock,
    {
        let now = self.clock.now();
        self.start_transaction_at(reservation, identity, now)
    }

    /// Starts another physical attempt for the same immutable transaction.
    ///
    /// The returned ticket is unchanged and no stage-local sequence number is
    /// consumed.
    pub fn start_retry(&mut self, ticket: TransactionTicket) -> (r: Result<
        TransactionTicket,
        SchedulerError,
    >)
        requires
            old(self).wf(),
        ensures
            exists|now: Duration|
                old(self).clock.reads(now) && (
                Step { state: final(self).model(), result: shown(r) }) == #[trigger] retry_step(
                    old(self).model(),
                    ticket,
                    now,
                ),
            final(self).wf(),
            final(self).clock == old(self).clock,
    {
        let now = self.clock.now();
        self.start_retry_at(ticket, now)
    }

    /// Handles a complete terminal response frame for one physical attempt.
    pub fn finish_attempt(&mut self, ticket: TransactionTicket, outcome: AttemptOutcome) -> (r:
        Result<AttemptDisposition, SchedulerError>)
        requires
            old(self).wf(),
        ensures
            exists|now: Duration|
                old(self).clock.reads(now) && (
                Step { state: final(self).model(), result: shown(r) })
                    == #[trigger] finish_now_step(old(self).model(), ticket, outcome, now),
            final(self).wf(),
            final(self).clock == old(self).clock,
    {
        let now = self.clock.now();
        self.finish_attempt_observed(ticket, outcome, now)
    }

    /// Abandons a selected transaction after a retry cap or local policy.
    pub fn abandon_retry(&mut self, ticket: TransactionTicket) -> (r: Result<(), SchedulerError>)
        requires
            old(self).wf(),
        ensures
            exists|now: Duration|
                old(self).clock.reads(now) && (
                Step { state: final(self).model(), result: shown(r) })
                    == #[trigger] abandon_retry_step(old(self).model(), ticket, now),
            final(self).wf(),
            final(self).clock == old(self).clock,
    {
        let now = self.clock.now();
        self.abandon_retry_at(ticket, now)
    }

    /// Marks an I/O, protocol, or worker-task failure as a phase failure.
    pub fn worker_failed(&mut self, worker: WorkerId, reason: &str) -> (r: Result<
        (),
        SchedulerError,
    >)
        requires
            old(self).wf(),
        ensures
            exists|now: Duration|
                old(self).clock.reads(now) && (
                Step { state: final(self).model(), result: shown(r) })
                    == #[trigger] worker_failed_step(old(self).model(), worker, reason@, now),
            final(self).wf(),
            final(self).clock == old(self).clock,
    {
        let now = self.clock.now();
        self.worker_failed_at(worker, reason, now)
    }

    /// Produces the ranked summary only after the exact timeline ends and all
    /// accepted grace-tail responses have drained.
    pub fn measurement_summary(&mut self) -> (r: Result<MeasurementSummary, SchedulerError>)
        requires
            old(self).wf(),
        ensures
            exists|now: Duration|
                old(self).clock.reads(now) && (
                Step { state: final(self).model(), result: shown_summary(r) })
                    == #[trigger] summary_step(old(self).model(), now),
            final(self).wf(),
            final(self).clock == old(self).clock,
    {
        let now = self.clock.now();
        self.measurement_summary_at(now)
    }
}

fn drain_text(deadline: Duration) -> (r: String)
    requires
        deadline.in_range(),
    ensures
        r@ == drain_reason(deadline),
{
    join3(
        "local phase-tail drain deadline expired at ",
        deadline.text().as_str(),
        "; this is not an official timeout",
    )
}

fn contradiction_text(id: u64) -> (r: String)
    ensures
        r@ == contradiction_reason(id),
{
    join3(
        "terminal outcome contradicts immutable transaction ",
        unsigned_text(id).as_str(),
        " identity",
    )
}

} // verus!
