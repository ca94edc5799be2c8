//! What each operation of the phase scheduler does to its state.
use vstd::prelude::*;

use crate::measurement::{
    CombinedCoverage, MeasurementSummary, WindowGate, WindowModel, combined, consistent,
    empty_window, window_gate, with_abandoned, with_commit, with_cutoff_stop,
    with_expected_rollback, with_grace_tail, with_retry_abandoned, with_retry_abort,
};
use crate::phases::{
    AttemptDisposition, AttemptOutcome, CompletionClass, FailureModel, LocalRuntimeLimits,
    PhaseId, PhaseScheduleConfig, PreparedSessionId, RecordedEvent, SchedulerError,
    SchedulerEvent, SchedulerFault, SelectionState, TransactionIdentity, TransactionReservation,
    TransactionTicket, WorkerId, WorkerState, next_phase, read_only, reservation_of, window_of,
};
use crate::text::decimal;
use crate::time::{Duration, MAX_NANOS, duration_text};

verus! {

/// The state of a scheduler, with the events that it recorded.
#[verifier::ext_equal]
pub struct SchedulerModel {
    pub limits: LocalRuntimeLimits,
    pub schedule: PhaseScheduleConfig,
    pub workers: Seq<WorkerState>,
    pub origin: Option<Duration>,
    pub announced: Option<PhaseId>,
    pub complete: bool,
    pub last_observed: Option<Duration>,
    pub next_ticket_id: u64,
    pub windows: Seq<WindowModel>,
    pub failure: Option<FailureModel>,
    pub log: Seq<RecordedEvent>,
}

/// The state after an operation and what the operation returned.
#[verifier::ext_equal]
pub struct Step<T> {
    pub state: SchedulerModel,
    pub result: Result<T, SchedulerFault>,
}

/// A result with its error as content.
pub open spec fn shown<T>(r: Result<T, SchedulerError>) -> Result<T, SchedulerFault> {
    match r {
        Ok(value) => Ok(value),
        Err(error) => Err(error@),
    }
}

/// An operation that returns `value`.
pub open spec fn done<T>(state: SchedulerModel, value: T) -> Step<T> {
    Step { state, result: Ok(value) }
}

/// An operation that stops with a fault.
pub open spec fn stop<T>(state: SchedulerModel, fault: SchedulerFault) -> Step<T> {
    Step { state, result: Err(fault) }
}

/// An operation that stops with an error.
pub open spec fn refuse<T>(state: SchedulerModel, error: SchedulerError) -> Step<T> {
    Step { state, result: Err(SchedulerFault::Plain(error)) }
}

/// A state with one more event.
pub open spec fn logged(s: SchedulerModel, event: SchedulerEvent) -> SchedulerModel {
    SchedulerModel { log: s.log.push(event@), ..s }
}

/// A state with another selection of a worker.
pub open spec fn with_selection(
    s: SchedulerModel,
    index: int,
    selection: Option<SelectionState>,
) -> SchedulerModel {
    SchedulerModel {
        workers: s.workers.update(index, (WorkerState { selection, ..s.workers[index] })),
        ..s
    }
}

/// A state with another account of the window of `phase`, if it has one.
pub open spec fn with_window(s: SchedulerModel, phase: PhaseId, w: WindowModel) -> SchedulerModel {
    match window_of(phase) {
        Some(index) => SchedulerModel { windows: s.windows.update(index, w), ..s },
        None => s,
    }
}

/// The account of the window of a formal phase.
pub open spec fn window_account(s: SchedulerModel, phase: PhaseId) -> WindowModel {
    s.windows[window_of(phase)->0]
}

/// Why a failed run refuses an operation.
pub open spec fn failed_fault(s: SchedulerModel) -> Option<SchedulerFault> {
    match s.failure {
        Some(failure) => Some(SchedulerFault::RunFailed(failure)),
        None => None,
    }
}

/// Why a worker is refused.
pub open spec fn worker_fault(s: SchedulerModel, worker: WorkerId) -> Option<SchedulerFault> {
    if worker.0 >= s.workers.len() {
        Some(
            SchedulerFault::Plain(
                SchedulerError::WorkerNotConfigured {
                    worker,
                    configured_clients: s.schedule.clients,
                },
            ),
        )
    } else {
        None
    }
}

/// Why a clock reading is refused.
pub open spec fn clock_fault(s: SchedulerModel, now: Duration) -> Option<SchedulerFault> {
    match s.last_observed {
        Some(previous) => if now.nanos < previous.nanos {
            Some(SchedulerFault::Plain(SchedulerError::ClockRegressed { previous, now }))
        } else {
            None
        },
        None => None,
    }
}

/// Why no transaction may be selected or started.
pub open spec fn running_fault(s: SchedulerModel) -> Option<SchedulerFault> {
    if s.failure is Some {
        failed_fault(s)
    } else if s.origin is None {
        Some(SchedulerFault::Plain(SchedulerError::NotStarted))
    } else if s.complete {
        Some(SchedulerFault::Plain(SchedulerError::TimelineEnded))
    } else {
        None
    }
}

/// The sum of two spans.
pub open spec fn sum_of(a: Duration, b: Duration) -> Result<Duration, SchedulerFault> {
    if a.nanos + b.nanos <= MAX_NANOS {
        Ok(Duration { nanos: (a.nanos + b.nanos) as u128 })
    } else {
        Err(SchedulerFault::Plain(SchedulerError::ClockOverflow))
    }
}

/// Start and deadline of a phase, in nanoseconds from the clock's epoch.
pub open spec fn phase_span(origin: Duration, schedule: PhaseScheduleConfig, phase: PhaseId) -> (
    int,
    int,
) {
    match phase {
        PhaseId::Warmup => (
            origin.nanos as int,
            origin.nanos + schedule.warmup_duration.nanos,
        ),
        PhaseId::FormalWindow(index) => (
            origin.nanos + schedule.warmup_duration.nanos
                + schedule.measurement_window_duration.nanos * index,
            origin.nanos + schedule.warmup_duration.nanos
                + schedule.measurement_window_duration.nanos * index
                + schedule.measurement_window_duration.nanos,
        ),
    }
}

/// Start and deadline of a phase, once the run has started.
pub open spec fn bounds(s: SchedulerModel, phase: PhaseId) -> Result<
    (Duration, Duration),
    SchedulerFault,
> {
    match s.origin {
        None => Err(SchedulerFault::Plain(SchedulerError::NotStarted)),
        Some(origin) => {
            let (start, deadline) = phase_span(origin, s.schedule, phase);
            if deadline <= MAX_NANOS {
                Ok((Duration { nanos: start as u128 }, Duration { nanos: deadline as u128 }))
            } else {
                Err(SchedulerFault::Plain(SchedulerError::ClockOverflow))
            }
        },
    }
}

/// Whether a selection stops at the end of `phase`: it has no request in
/// flight.
pub open spec fn expires(selection: Option<SelectionState>, phase: PhaseId) -> bool {
    match selection {
        Some(SelectionState::Reserved(reservation)) => reservation.phase == phase,
        Some(SelectionState::RetryPending(ticket)) => ticket.reservation.phase == phase,
        _ => false,
    }
}

/// The event of a selection that stops at the end of its phase.
pub open spec fn expiry_event(selection: SelectionState, at: Duration) -> SchedulerEvent {
    match selection {
        SelectionState::Reserved(reservation) => SchedulerEvent::ReservationAbandoned {
            reservation,
            at,
        },
        SelectionState::RetryPending(ticket) => SchedulerEvent::TransactionFinished {
            ticket,
            class: CompletionClass::Abandoned,
            at,
        },
        SelectionState::InFlight { ticket, .. } => SchedulerEvent::TransactionFinished {
            ticket,
            class: CompletionClass::Abandoned,
            at,
        },
    }
}

/// The state once the selections of the first `n` workers that stop at the end
/// of `phase` are gone.
pub open spec fn expired(s: SchedulerModel, phase: PhaseId, at: Duration, n: int) -> SchedulerModel
    decreases n,
{
    if n <= 0 {
        s
    } else {
        let before = expired(s, phase, at, n - 1);
        let selection = s.workers[n - 1].selection;
        if expires(selection, phase) {
            logged(
                with_window(
                    with_selection(before, n - 1, None),
                    phase,
                    with_cutoff_stop(window_account(before, phase)),
                ),
                expiry_event(selection->0, at),
            )
        } else {
            before
        }
    }
}

/// The state once `phase` is closed at its deadline.
pub open spec fn closed(s: SchedulerModel, phase: PhaseId, deadline: Duration) -> SchedulerModel {
    let quiet = logged(
        expired(s, phase, deadline, s.workers.len() as int),
        SchedulerEvent::PhaseEnded { phase, at: deadline },
    );
    let judged = match phase {
        PhaseId::Warmup => quiet,
        PhaseId::FormalWindow(window) => logged(
            quiet,
            SchedulerEvent::WindowGateEvaluated {
                window,
                gate: window_gate(quiet.windows[window as int]),
                at: deadline,
            },
        ),
    };
    SchedulerModel { announced: next_phase(phase), ..judged }
}

/// The step from a closed phase into the next one.
pub open spec fn advance(s: SchedulerModel, phase: PhaseId, deadline: Duration) -> Step<()> {
    let ended = closed(s, phase, deadline);
    match next_phase(phase) {
        Some(next) => match bounds(s, next) {
            Ok((at, next_deadline)) => done(
                logged(
                    ended,
                    SchedulerEvent::PhaseStarted { phase: next, at, deadline: next_deadline },
                ),
                (),
            ),
            Err(fault) => stop(ended, fault),
        },
        None => done(
            logged(
                (SchedulerModel { complete: true, ..ended }),
                SchedulerEvent::TimelineCompleted { at: deadline },
            ),
            (),
        ),
    }
}

/// How many phases are left.
pub open spec fn phases_left(announced: Option<PhaseId>) -> nat {
    match announced {
        None => 0,
        Some(PhaseId::Warmup) => 4,
        Some(PhaseId::FormalWindow(index)) => if index >= 3 {
            1
        } else {
            (3 - index) as nat
        },
    }
}

/// Closes every phase whose deadline `now` has reached.
pub open spec fn walked(s: SchedulerModel, now: Duration) -> Step<()>
    decreases phases_left(s.announced),
    via walked_decreases
{
    match s.announced {
        None => done(s, ()),
        Some(phase) => match bounds(s, phase) {
            Err(fault) => stop(s, fault),
            Ok((_, deadline)) => if now.nanos < deadline.nanos {
                done(s, ())
            } else {
                let next = advance(s, phase, deadline);
                match next.result {
                    Err(fault) => next,
                    Ok(_) => walked(next.state, now),
                }
            },
        },
    }
}

#[via_fn]
proof fn walked_decreases(s: SchedulerModel, now: Duration) {
    if let Some(phase) = s.announced {
        if let Ok((_, deadline)) = bounds(s, phase) {
            assert(advance(s, phase, deadline).state.announced == next_phase(phase));
        }
    }
}

/// Brings the phases up to `now`.
pub open spec fn synced(s: SchedulerModel, now: Duration) -> Step<()> {
    if s.failure is Some {
        stop(s, failed_fault(s)->0)
    } else if s.origin is None {
        refuse(s, SchedulerError::NotStarted)
    } else {
        walked(s, now)
    }
}

/// A state that has read the clock.
pub open spec fn observed(s: SchedulerModel, now: Duration) -> SchedulerModel {
    SchedulerModel { last_observed: Some(now), ..s }
}

/// Reads the clock and brings the phases up to it.
pub open spec fn observed_and_synced(s: SchedulerModel, now: Duration) -> Step<()> {
    if clock_fault(s, now) is Some {
        stop(s, clock_fault(s, now)->0)
    } else {
        synced(observed(s, now), now)
    }
}

/// The state once a worker has failed.
pub open spec fn failed(
    s: SchedulerModel,
    worker: WorkerId,
    phase: Option<PhaseId>,
    reason: Seq<char>,
    at: Duration,
) -> SchedulerModel {
    let index = worker.0 as int;
    let counted = match s.workers[index].selection {
        Some(selection) => {
            let own = reservation_of(selection).phase;
            let w = window_account(s, own);
            with_window(
                with_selection(s, index, None),
                own,
                match selection {
                    SelectionState::InFlight { ticket, .. } => if at.nanos
                        < ticket.reservation.phase_deadline.nanos {
                        with_abandoned(w)
                    } else {
                        with_grace_tail(w)
                    },
                    _ => with_cutoff_stop(w),
                },
            )
        },
        None => s,
    };
    SchedulerModel {
        failure: Some(FailureModel { worker, phase, reason }),
        log: counted.log.push(RecordedEvent::WorkerFailed { worker, phase, at, reason }),
        ..counted
    }
}

/// An operation that fails the run.
pub open spec fn fail<T>(
    s: SchedulerModel,
    worker: WorkerId,
    phase: Option<PhaseId>,
    reason: Seq<char>,
    at: Duration,
) -> Step<T> {
    stop(
        failed(s, worker, phase, reason, at),
        SchedulerFault::RunFailed(FailureModel { worker, phase, reason }),
    )
}

/// The session of a worker.
pub open spec fn session_of(s: SchedulerModel, worker: WorkerId) -> Option<PreparedSessionId> {
    if worker.0 < s.workers.len() {
        s.workers[worker.0 as int].session
    } else {
        None
    }
}

/// How many of the first `n` workers have a session.
pub open spec fn ready_count(workers: Seq<WorkerState>, n: int) -> nat
    decreases n,
{
    if n <= 0 {
        0
    } else {
        ready_count(workers, n - 1) + if workers[n - 1].session is Some {
            1nat
        } else {
            0nat
        }
    }
}

/// Whether a worker holds the session.
pub open spec fn session_taken(workers: Seq<WorkerState>, session: PreparedSessionId) -> bool {
    exists|i: int| 0 <= i < workers.len() && (#[trigger] workers[i]).session == Some(session)
}

/// A worker registers its session.
pub open spec fn prepare_step(
    s: SchedulerModel,
    worker: WorkerId,
    session: PreparedSessionId,
    now: Duration,
) -> Step<()> {
    if s.failure is Some {
        stop(s, failed_fault(s)->0)
    } else if worker_fault(s, worker) is Some {
        stop(s, worker_fault(s, worker)->0)
    } else if s.origin is Some {
        refuse(s, SchedulerError::AlreadyStarted)
    } else if clock_fault(s, now) is Some {
        stop(s, clock_fault(s, now)->0)
    } else {
        let o = observed(s, now);
        let index = worker.0 as int;
        if s.workers[index].session is Some {
            refuse(o, SchedulerError::DuplicateWorker(worker))
        } else if session_taken(s.workers, session) {
            refuse(o, SchedulerError::DuplicateSession(session))
        } else {
            done(
                logged(
                    SchedulerModel {
                        workers: o.workers.update(
                            index,
                            (WorkerState { session: Some(session), ..o.workers[index] }),
                        ),
                        ..o
                    },
                    SchedulerEvent::WorkerPrepared { worker, session, at: now },
                ),
                (),
            )
        }
    }
}

/// The barrier is released.
pub open spec fn start_step(s: SchedulerModel, now: Duration) -> Step<()> {
    let ready = ready_count(s.workers, s.workers.len() as int);
    if s.failure is Some {
        stop(s, failed_fault(s)->0)
    } else if s.origin is Some {
        refuse(s, SchedulerError::AlreadyStarted)
    } else if ready != s.schedule.clients {
        refuse(
            s,
            SchedulerError::BarrierIncomplete {
                ready: ready as usize,
                required: s.schedule.clients as usize,
            },
        )
    } else if clock_fault(s, now) is Some {
        stop(s, clock_fault(s, now)->0)
    } else {
        let o = observed(s, now);
        match sum_of(now, s.schedule.warmup_duration) {
            Err(fault) => stop(o, fault),
            Ok(deadline) => done(
                logged(
                    logged(
                        SchedulerModel {
                            origin: Some(now),
                            announced: Some(PhaseId::Warmup),
                            ..o
                        },
                        SchedulerEvent::BarrierReleased { workers: s.schedule.clients, at: now },
                    ),
                    SchedulerEvent::PhaseStarted { phase: PhaseId::Warmup, at: now, deadline },
                ),
                (),
            ),
        }
    }
}

/// The text of a missed drain deadline.
pub open spec fn drain_reason(deadline: Duration) -> Seq<char> {
    "local phase-tail drain deadline expired at "@ + duration_text(deadline)
        + "; this is not an official timeout"@
}

/// The text of a terminal that contradicts its ticket.
pub open spec fn contradiction_reason(id: u64) -> Seq<char> {
    "terminal outcome contradicts immutable transaction "@ + decimal(id as nat) + " identity"@
}

/// Fails the run at the first worker from `index` on whose attempt has passed
/// its drain deadline.
pub open spec fn expire_tail(s: SchedulerModel, now: Duration, index: int) -> Step<()>
    decreases s.workers.len() - index,
{
    if index >= s.workers.len() {
        done(s, ())
    } else {
        match s.workers[index].selection {
            Some(SelectionState::InFlight { ticket, .. }) => match sum_of(
                ticket.reservation.phase_deadline,
                s.limits.phase_tail_grace,
            ) {
                Err(fault) => stop(s, fault),
                Ok(deadline) => if now.nanos < deadline.nanos {
                    expire_tail(s, now, index + 1)
                } else {
                    fail(
                        s,
                        WorkerId(index as u16),
                        Some(ticket.reservation.phase),
                        drain_reason(deadline),
                        now,
                    )
                },
            },
            _ => expire_tail(s, now, index + 1),
        }
    }
}

/// The scheduler is brought up to the clock.
pub open spec fn poll_step(s: SchedulerModel, now: Duration) -> Step<()> {
    let next = observed_and_synced(s, now);
    match next.result {
        Err(fault) => next,
        Ok(_) => expire_tail(next.state, now, 0),
    }
}

/// The sequence number that a worker takes next in `phase`.
pub open spec fn next_number(worker: WorkerState, phase: PhaseId) -> u64 {
    if worker.sequence_phase == Some(phase) {
        worker.next_txn_no
    } else {
        0
    }
}

/// A worker selects a transaction in a synchronised run.
pub open spec fn reserve_synced(
    s: SchedulerModel,
    worker: WorkerId,
    now: Duration,
) -> Step<TransactionReservation> {
    let index = worker.0 as int;
    if running_fault(s) is Some {
        stop(s, running_fault(s)->0)
    } else if s.announced is None {
        refuse(s, SchedulerError::TimelineEnded)
    } else {
        let phase = s.announced->0;
        match bounds(s, phase) {
            Err(fault) => stop(s, fault),
            Ok((_, deadline)) => {
                let own = s.workers[index];
                let number = next_number(own, phase);
                if own.selection is Some {
                    refuse(s, SchedulerError::WorkerBusy(worker))
                } else if number == u64::MAX {
                    refuse(s, SchedulerError::SequenceExhausted(worker))
                } else {
                    let numbered = SchedulerModel {
                        workers: s.workers.update(
                            index,
                            (WorkerState {
                                sequence_phase: Some(phase),
                                next_txn_no: (number + 1) as u64,
                                ..own
                            }),
                        ),
                        ..s
                    };
                    if s.next_ticket_id == u64::MAX {
                        refuse(numbered, SchedulerError::TicketExhausted)
                    } else {
                        let reservation = TransactionReservation {
                            id: s.next_ticket_id,
                            worker,
                            phase,
                            txn_no: number,
                            selected_at: now,
                            phase_deadline: deadline,
                        };
                        done(
                            logged(
                                with_selection(
                                    SchedulerModel {
                                        next_ticket_id: (s.next_ticket_id + 1) as u64,
                                        ..numbered
                                    },
                                    index,
                                    Some(SelectionState::Reserved(reservation)),
                                ),
                                SchedulerEvent::TransactionReserved { reservation, at: now },
                            ),
                            reservation,
                        )
                    }
                }
            },
        }
    }
}

/// A worker selects a transaction.
pub open spec fn reserve_step(s: SchedulerModel, worker: WorkerId, now: Duration) -> Step<
    TransactionReservation,
> {
    if worker_fault(s, worker) is Some {
        stop(s, worker_fault(s, worker)->0)
    } else {
        let next = observed_and_synced(s, now);
        match next.result {
            Err(fault) => stop(next.state, fault),
            Ok(_) => reserve_synced(next.state, worker, now),
        }
    }
}

/// A selected transaction is bound and sent.
pub open spec fn begin_step(
    s: SchedulerModel,
    reservation: TransactionReservation,
    identity: TransactionIdentity,
    now: Duration,
) -> Step<TransactionTicket> {
    let worker = reservation.worker;
    if worker_fault(s, worker) is Some {
        stop(s, worker_fault(s, worker)->0)
    } else {
        let next = observed_and_synced(s, now);
        let t = next.state;
        match next.result {
            Err(fault) => stop(t, fault),
            Ok(_) => if now.nanos >= reservation.phase_deadline.nanos {
                refuse(t, SchedulerError::ReservationDeadlinePassed)
            } else if running_fault(t) is Some {
                stop(t, running_fault(t)->0)
            } else if t.workers[worker.0 as int].selection != Some(
                SelectionState::Reserved(reservation),
            ) {
                refuse(t, SchedulerError::TicketMismatch(worker))
            } else {
                let ticket = TransactionTicket { reservation, identity };
                done(
                    logged(
                        with_selection(
                            t,
                            worker.0 as int,
                            Some(SelectionState::InFlight { ticket, attempt_started_at: now }),
                        ),
                        SchedulerEvent::TransactionStarted { ticket, retry: false, at: now },
                    ),
                    ticket,
                )
            },
        }
    }
}

/// Why a pending retry is refused.
pub open spec fn retry_fault(
    s: SchedulerModel,
    ticket: TransactionTicket,
) -> Option<SchedulerFault> {
    let worker = ticket.reservation.worker;
    match s.workers[worker.0 as int].selection {
        None => Some(SchedulerFault::Plain(SchedulerError::RetryNotPending(worker))),
        Some(selection) => if selection == SelectionState::RetryPending(ticket) {
            None
        } else {
            Some(SchedulerFault::Plain(SchedulerError::TicketMismatch(worker)))
        },
    }
}

/// Another physical attempt of a ticket is sent.
pub open spec fn retry_step(s: SchedulerModel, ticket: TransactionTicket, now: Duration) -> Step<
    TransactionTicket,
> {
    let worker = ticket.reservation.worker;
    if worker_fault(s, worker) is Some {
        stop(s, worker_fault(s, worker)->0)
    } else {
        let next = observed_and_synced(s, now);
        let t = next.state;
        match next.result {
            Err(fault) => stop(t, fault),
            Ok(_) => if now.nanos >= ticket.reservation.phase_deadline.nanos {
                refuse(t, SchedulerError::RetryDeadlinePassed)
            } else if running_fault(t) is Some {
                stop(t, running_fault(t)->0)
            } else if retry_fault(t, ticket) is Some {
                stop(t, retry_fault(t, ticket)->0)
            } else {
                done(
                    logged(
                        with_selection(
                            t,
                            worker.0 as int,
                            Some(SelectionState::InFlight { ticket, attempt_started_at: now }),
                        ),
                        SchedulerEvent::TransactionStarted { ticket, retry: true, at: now },
                    ),
                    ticket,
                )
            },
        }
    }
}

/// When the attempt of a worker's ticket started.
pub open spec fn attempt_start(s: SchedulerModel, ticket: TransactionTicket) -> Option<Duration> {
    match s.workers[ticket.reservation.worker.0 as int].selection {
        Some(SelectionState::InFlight { ticket: current, attempt_started_at }) => if current
            == ticket {
            Some(attempt_started_at)
        } else {
            None
        },
        _ => None,
    }
}

/// The drain deadline of an attempt.
pub open spec fn drain_deadline(s: SchedulerModel, ticket: TransactionTicket) -> Result<
    Duration,
    SchedulerFault,
> {
    sum_of(ticket.reservation.phase_deadline, s.limits.phase_tail_grace)
}

/// What [`Final2026Scheduler::attempt_deadline`] answers.
pub open spec fn deadline_answer(s: SchedulerModel, ticket: TransactionTicket) -> Result<
    Duration,
    SchedulerFault,
> {
    let worker = ticket.reservation.worker;
    if s.failure is Some {
        Err(failed_fault(s)->0)
    } else if worker_fault(s, worker) is Some {
        Err(worker_fault(s, worker)->0)
    } else if attempt_start(s, ticket) is None {
        Err(SchedulerFault::Plain(SchedulerError::TicketMismatch(worker)))
    } else {
        drain_deadline(s, ticket)
    }
}

/// The end of an attempt: the worker goes on with `selection`, its window with
/// `w`.
pub open spec fn ended(
    s: SchedulerModel,
    ticket: TransactionTicket,
    selection: Option<SelectionState>,
    w: WindowModel,
    class: CompletionClass,
    at: Duration,
) -> SchedulerModel {
    logged(
        with_window(
            with_selection(s, ticket.reservation.worker.0 as int, selection),
            ticket.reservation.phase,
            w,
        ),
        SchedulerEvent::TransactionFinished { ticket, class, at },
    )
}

/// The end of an attempt that is not counted.
pub open spec fn late_step(
    s: SchedulerModel,
    ticket: TransactionTicket,
    at: Duration,
) -> Step<AttemptDisposition> {
    done(
        ended(
            s,
            ticket,
            None,
            with_grace_tail(window_account(s, ticket.reservation.phase)),
            CompletionClass::GraceTail,
            at,
        ),
        AttemptDisposition::GraceTail,
    )
}

/// Whether a terminal can end a transaction of this identity.
pub open spec fn outcome_fits(outcome: AttemptOutcome, identity: TransactionIdentity) -> bool {
    match outcome {
        AttemptOutcome::Commit { .. } => !identity.expects_business_rollback,
        AttemptOutcome::ExpectedRollback => identity.expects_business_rollback,
        AttemptOutcome::RetryableAbort => true,
    }
}

/// A terminal inside its phase is counted.
pub open spec fn counted_step(
    s: SchedulerModel,
    ticket: TransactionTicket,
    outcome: AttemptOutcome,
    at: Duration,
    offset: Option<Duration>,
) -> Step<AttemptDisposition> {
    let w = window_account(s, ticket.reservation.phase);
    let latency = Duration {
        nanos: if at.nanos >= ticket.reservation.selected_at.nanos {
            (at.nanos - ticket.reservation.selected_at.nanos) as u128
        } else {
            0
        },
    };
    match outcome {
        AttemptOutcome::Commit { delivery_processed } => done(
            ended(
                s,
                ticket,
                None,
                with_commit(
                    w,
                    ticket.identity.transaction_type,
                    ticket.identity.home_warehouse,
                    latency,
                    delivery_processed,
                    offset,
                ),
                CompletionClass::Committed,
                at,
            ),
            AttemptDisposition::Finished,
        ),
        AttemptOutcome::ExpectedRollback => done(
            ended(
                s,
                ticket,
                None,
                with_expected_rollback(w, ticket.identity.home_warehouse),
                CompletionClass::ExpectedRollback,
                at,
            ),
            AttemptDisposition::Finished,
        ),
        AttemptOutcome::RetryableAbort => done(
            ended(
                s,
                ticket,
                Some(SelectionState::RetryPending(ticket)),
                with_retry_abort(w),
                CompletionClass::RetryableAbort,
                at,
            ),
            AttemptDisposition::RetrySameParameters,
        ),
    }
}

/// A terminal inside its phase: its offset in the window, then the count.
pub open spec fn on_time_step(
    s: SchedulerModel,
    ticket: TransactionTicket,
    outcome: AttemptOutcome,
    at: Duration,
) -> Step<AttemptDisposition> {
    match ticket.reservation.phase {
        PhaseId::Warmup => counted_step(s, ticket, outcome, at, None),
        PhaseId::FormalWindow(_) => match bounds(s, ticket.reservation.phase) {
            Err(fault) => stop(s, fault),
            Ok((phase_started_at, _)) => if at.nanos < phase_started_at.nanos {
                refuse(
                    s,
                    SchedulerError::CompletionBeforePhase { completed_at: at, phase_started_at },
                )
            } else {
                counted_step(
                    s,
                    ticket,
                    outcome,
                    at,
                    Some(Duration { nanos: (at.nanos - phase_started_at.nanos) as u128 }),
                )
            },
        },
    }
}

/// A terminal arrives in a synchronised run.
pub open spec fn finish_synced(
    s: SchedulerModel,
    ticket: TransactionTicket,
    outcome: AttemptOutcome,
    at: Duration,
) -> Step<AttemptDisposition> {
    let worker = ticket.reservation.worker;
    match attempt_start(s, ticket) {
        None => refuse(s, SchedulerError::TicketMismatch(worker)),
        Some(attempt_started_at) => if at.nanos < attempt_started_at.nanos {
            refuse(
                s,
                SchedulerError::CompletionBeforeAttempt { completed_at: at, attempt_started_at },
            )
        } else {
            match drain_deadline(s, ticket) {
                Err(fault) => stop(s, fault),
                Ok(deadline) => if at.nanos >= deadline.nanos {
                    if read_only(ticket.identity.transaction_type) {
                        late_step(s, ticket, at)
                    } else {
                        fail(
                            s,
                            worker,
                            Some(ticket.reservation.phase),
                            drain_reason(deadline),
                            at,
                        )
                    }
                } else if !outcome_fits(outcome, ticket.identity) {
                    fail(
                        s,
                        worker,
                        Some(ticket.reservation.phase),
                        contradiction_reason(ticket.reservation.id),
                        at,
                    )
                } else if at.nanos >= ticket.reservation.phase_deadline.nanos {
                    late_step(s, ticket, at)
                } else {
                    on_time_step(s, ticket, outcome, at)
                },
            }
        },
    }
}

/// A terminal arrives at `at`.
pub open spec fn finish_step(
    s: SchedulerModel,
    ticket: TransactionTicket,
    outcome: AttemptOutcome,
    at: Duration,
) -> Step<AttemptDisposition> {
    if worker_fault(s, ticket.reservation.worker) is Some {
        stop(s, worker_fault(s, ticket.reservation.worker)->0)
    } else {
        let next = synced(s, at);
        match next.result {
            Err(fault) => stop(next.state, fault),
            Ok(_) => finish_synced(next.state, ticket, outcome, at),
        }
    }
}

/// The clock is read when a terminal arrives.
pub open spec fn finish_now_step(
    s: SchedulerModel,
    ticket: TransactionTicket,
    outcome: AttemptOutcome,
    now: Duration,
) -> Step<AttemptDisposition> {
    if clock_fault(s, now) is Some {
        stop(s, clock_fault(s, now)->0)
    } else {
        finish_step(observed(s, now), ticket, outcome, now)
    }
}

/// An attempt with unknown outcome is given up.
pub open spec fn abandon_inflight_step(
    s: SchedulerModel,
    ticket: TransactionTicket,
    at: Duration,
) -> Step<()> {
    let worker = ticket.reservation.worker;
    if worker_fault(s, worker) is Some {
        stop(s, worker_fault(s, worker)->0)
    } else {
        let next = synced(s, at);
        let t = next.state;
        match next.result {
            Err(fault) => stop(t, fault),
            Ok(_) => match attempt_start(t, ticket) {
                None => refuse(t, SchedulerError::TicketMismatch(worker)),
                Some(attempt_started_at) => if at.nanos < attempt_started_at.nanos {
                    refuse(
                        t,
                        SchedulerError::CompletionBeforeAttempt {
                            completed_at: at,
                            attempt_started_at,
                        },
                    )
                } else {
                    let w = window_account(t, ticket.reservation.phase);
                    done(
                        ended(
                            t,
                            ticket,
                            None,
                            if at.nanos < ticket.reservation.phase_deadline.nanos {
                                with_abandoned(w)
                            } else {
                                with_grace_tail(w)
                            },
                            CompletionClass::Abandoned,
                            at,
                        ),
                        (),
                    )
                },
            },
        }
    }
}

/// A pending retry is given up.
pub open spec fn abandon_retry_step(
    s: SchedulerModel,
    ticket: TransactionTicket,
    now: Duration,
) -> Step<()> {
    let worker = ticket.reservation.worker;
    if worker_fault(s, worker) is Some {
        stop(s, worker_fault(s, worker)->0)
    } else {
        let next = observed_and_synced(s, now);
        let t = next.state;
        match next.result {
            Err(fault) => stop(t, fault),
            Ok(_) => if retry_fault(t, ticket) is Some {
                stop(t, retry_fault(t, ticket)->0)
            } else {
                done(
                    ended(
                        t,
                        ticket,
                        None,
                        with_retry_abandoned(window_account(t, ticket.reservation.phase)),
                        CompletionClass::Abandoned,
                        now,
                    ),
                    (),
                )
            },
        }
    }
}

/// The phase of a worker's selection, or else the announced one.
pub open spec fn active_phase(s: SchedulerModel, worker: WorkerId) -> Option<PhaseId> {
    match s.workers[worker.0 as int].selection {
        Some(selection) => Some(reservation_of(selection).phase),
        None => s.announced,
    }
}

/// A worker reports a failure.
pub open spec fn worker_failed_step(
    s: SchedulerModel,
    worker: WorkerId,
    reason: Seq<char>,
    now: Duration,
) -> Step<()> {
    if s.failure is Some {
        stop(s, failed_fault(s)->0)
    } else if worker_fault(s, worker) is Some {
        stop(s, worker_fault(s, worker)->0)
    } else if clock_fault(s, now) is Some {
        stop(s, clock_fault(s, now)->0)
    } else {
        let next = if s.origin is Some {
            synced(observed(s, now), now)
        } else {
            done(observed(s, now), ())
        };
        match next.result {
            Err(fault) => next,
            Ok(_) => fail(next.state, worker, active_phase(next.state, worker), reason, now),
        }
    }
}

/// The gates of a finished run.
#[verifier::ext_equal]
pub struct SummaryModel {
    pub window_gates: Seq<WindowGate>,
    pub combined_coverage: CombinedCoverage,
}

impl View for MeasurementSummary {
    type V = SummaryModel;

    open spec fn view(&self) -> SummaryModel {
        SummaryModel {
            window_gates: self.window_gates@,
            combined_coverage: self.combined_coverage,
        }
    }
}

/// A result with summary and error as content.
pub open spec fn shown_summary(r: Result<MeasurementSummary, SchedulerError>) -> Result<
    SummaryModel,
    SchedulerFault,
> {
    match r {
        Ok(summary) => Ok(summary@),
        Err(error) => Err(error@),
    }
}

/// Whether no worker has a selection.
pub open spec fn drained(workers: Seq<WorkerState>) -> bool {
    forall|i: int| 0 <= i < workers.len() ==> (#[trigger] workers[i]).selection is None
}

/// Whether every window's account adds up.
pub open spec fn all_consistent(windows: Seq<WindowModel>) -> bool {
    forall|i: int| 0 <= i < windows.len() ==> consistent(#[trigger] windows[i])
}

/// The ranked summary is asked for.
pub open spec fn summary_step(s: SchedulerModel, now: Duration) -> Step<SummaryModel> {
    let next = poll_step(s, now);
    let t = next.state;
    match next.result {
        Err(fault) => stop(t, fault),
        Ok(_) => if !t.complete {
            refuse(t, SchedulerError::TimelineIncomplete)
        } else if !drained(t.workers) {
            refuse(t, SchedulerError::WorkersNotDrained)
        } else if !all_consistent(t.windows) {
            refuse(t, SchedulerError::InconsistentMeasurementAccounting)
        } else {
            done(
                t,
                SummaryModel {
                    window_gates: Seq::new(3, |i: int| window_gate(t.windows[i])),
                    combined_coverage: combined(t.windows),
                },
            )
        },
    }
}

/// A new scheduler.
pub open spec fn fresh(
    limits: LocalRuntimeLimits,
    schedule: PhaseScheduleConfig,
    hot: Seq<u16>,
    log: Seq<RecordedEvent>,
) -> SchedulerModel {
    SchedulerModel {
        limits,
        schedule,
        workers: Seq::new(
            schedule.clients as nat,
            |i: int|
                WorkerState {
                    session: None,
                    sequence_phase: None,
                    next_txn_no: 0,
                    selection: None,
                },
        ),
        origin: None,
        announced: None,
        complete: false,
        last_observed: None,
        next_ticket_id: 0,
        windows: Seq::new(3, |i: int| empty_window(hot)),
        failure: None,
        log,
    }
}

} // verus!
