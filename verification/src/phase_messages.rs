//! The texts of scheduler errors.
use vstd::prelude::*;

use crate::phases::{
    FailureModel, PhaseId, PreparedSessionId, SchedulerError, SchedulerFailure, WorkerId,
};
use crate::text::{decimal, join2, join3, join4, join5, join7, quote, quoted, unsigned_text};
use crate::time::duration_text;
use crate::transaction::TransactionType;

verus! {

/// A worker in a message.
pub open spec fn worker_text(worker: WorkerId) -> Seq<char> {
    "WorkerId("@ + decimal(worker.0 as nat) + ")"@
}

/// A session in a message.
pub open spec fn session_text(session: PreparedSessionId) -> Seq<char> {
    "PreparedSessionId("@ + decimal(session.0 as nat) + ")"@
}

/// A transaction family in a message.
pub open spec fn family_text(kind: TransactionType) -> Seq<char> {
    match kind {
        TransactionType::NewOrder => "NewOrder"@,
        TransactionType::Payment => "Payment"@,
        TransactionType::OrderStatus => "OrderStatus"@,
        TransactionType::Delivery => "Delivery"@,
        TransactionType::StockLevel => "StockLevel"@,
    }
}

/// A phase in a message.
pub open spec fn phase_text(phase: Option<PhaseId>) -> Seq<char> {
    match phase {
        None => "None"@,
        Some(PhaseId::Warmup) => "Some(Warmup)"@,
        Some(PhaseId::FormalWindow(index)) => "Some(FormalWindow("@ + decimal(index as nat) + "))"@,
    }
}

/// A failure in a message: worker, phase and quoted reason.
pub open spec fn failure_text(failure: FailureModel) -> Seq<char> {
    "scheduler failed: SchedulerFailure { worker: "@ + worker_text(failure.worker) + ", phase: "@
        + phase_text(failure.phase) + ", reason: "@ + quoted(failure.reason) + " }"@
}

/// The text of an error.
pub open spec fn scheduler_error_text(error: SchedulerError) -> Seq<char> {
    match error {
        SchedulerError::InvalidWorker(n) => "worker id "@ + decimal(n as nat)
            + " is outside the official 0..32 range"@,
        SchedulerError::InvalidScheduleClients(n) => "local schedule client count "@ + decimal(
            n as nat,
        ) + " must be in 1..=32"@,
        SchedulerError::InvalidMeasurementWindowDuration =>
            "local measurement-window duration must be non-zero"@,
        SchedulerError::WorkerNotConfigured { worker, configured_clients } => "worker "@
            + worker_text(worker) + " is outside this run's configured 0.."@ + decimal(
            configured_clients as nat,
        ) + " range"@,
        SchedulerError::DuplicateWorker(worker) => "worker "@ + worker_text(worker)
            + " has already registered a prepared session"@,
        SchedulerError::DuplicateSession(session) => "prepared session "@ + session_text(session)
            + " is already assigned to another worker"@,
        SchedulerError::BarrierIncomplete { ready, required } =>
            "the prepared-worker barrier is incomplete: "@ + decimal(ready as nat) + "/"@ + decimal(
            required as nat,
        ),
        SchedulerError::AlreadyStarted => "the scheduler has already started"@,
        SchedulerError::NotStarted => "the scheduler has not started"@,
        SchedulerError::ClockRegressed { previous, now } => "monotonic clock regressed from "@
            + duration_text(previous) + " to "@ + duration_text(now),
        SchedulerError::ClockOverflow => "duration arithmetic overflowed"@,
        SchedulerError::TimelineEnded => "the final measurement timeline has ended"@,
        SchedulerError::WorkerBusy(worker) => "worker "@ + worker_text(worker)
            + " already has a selected transaction"@,
        SchedulerError::TicketMismatch(worker) => "worker "@ + worker_text(worker)
            + " has no matching in-flight attempt"@,
        SchedulerError::RetryNotPending(worker) => "worker "@ + worker_text(worker)
            + " has no retry pending"@,
        SchedulerError::InvalidWarehouse(n) => "warehouse id "@ + decimal(n as nat)
            + " is outside the official 1..=50 range"@,
        SchedulerError::InvalidExpectedRollback(kind) => family_text(kind)
            + " cannot be declared as a business-expected rollback"@,
        SchedulerError::ReservationDeadlinePassed =>
            "the reserved transaction's phase deadline has passed"@,
        SchedulerError::SequenceExhausted(worker) => "worker "@ + worker_text(worker)
            + " exhausted its stage-local transaction sequence"@,
        SchedulerError::TicketExhausted =>
            "the scheduler exhausted its transaction identity space"@,
        SchedulerError::InvalidRuntimeLimit(name) => "local runtime limit "@ + name@
            + " must be non-zero"@,
        SchedulerError::RetryDeadlinePassed => "the retry's phase deadline has passed"@,
        SchedulerError::CompletionBeforeAttempt { completed_at, attempt_started_at } =>
            "terminal completion timestamp "@ + duration_text(completed_at)
            + " precedes attempt start "@ + duration_text(attempt_started_at),
        SchedulerError::CompletionBeforePhase { completed_at, phase_started_at } =>
            "terminal completion timestamp "@ + duration_text(completed_at)
            + " precedes phase start "@ + duration_text(phase_started_at),
        SchedulerError::TimelineIncomplete =>
            "the timeline has not reached its final absolute deadline"@,
        SchedulerError::WorkersNotDrained =>
            "at least one worker still has an in-flight transaction"@,
        SchedulerError::InconsistentMeasurementAccounting =>
            "ranked transaction accounting is internally inconsistent"@,
        SchedulerError::RunFailed(failure) => failure_text(failure@),
    }
}

fn describe_worker(worker: WorkerId) -> (r: String)
    ensures
        r@ == worker_text(worker),
{
    join3("WorkerId(", unsigned_text(worker.value() as u64).as_str(), ")")
}

fn describe_session(session: PreparedSessionId) -> (r: String)
    ensures
        r@ == session_text(session),
{
    join3("PreparedSessionId(", unsigned_text(session.0).as_str(), ")")
}

fn describe_family(kind: TransactionType) -> (r: &'static str)
    ensures
        r@ == family_text(kind),
{
    match kind {
        TransactionType::NewOrder => "NewOrder",
        TransactionType::Payment => "Payment",
        TransactionType::OrderStatus => "OrderStatus",
        TransactionType::Delivery => "Delivery",
        TransactionType::StockLevel => "StockLevel",
    }
}

fn describe_phase(phase: Option<PhaseId>) -> (r: String)
    ensures
        r@ == phase_text(phase),
{
    match phase {
        None => "None".to_owned(),
        Some(PhaseId::Warmup) => "Some(Warmup)".to_owned(),
        Some(PhaseId::FormalWindow(index)) => join3(
            "Some(FormalWindow(",
            unsigned_text(index as u64).as_str(),
            "))",
        ),
    }
}

fn about_worker(worker: WorkerId, rest: &str) -> (r: String)
    ensures
        r@ == "worker "@ + worker_text(worker) + rest@,
{
    join3("worker ", describe_worker(worker).as_str(), rest)
}

impl SchedulerError {
    /// The text of the error.
    pub fn message(&self) -> (r: String)
        ensures
            r@ == scheduler_error_text(*self),
    {
        match self {
            SchedulerError::InvalidWorker(n) => join3(
                "worker id ",
                unsigned_text(*n as u64).as_str(),
                " is outside the official 0..32 range",
            ),
            SchedulerError::InvalidScheduleClients(n) => join3(
                "local schedule client count ",
                unsigned_text(*n as u64).as_str(),
                " must be in 1..=32",
            ),
            SchedulerError::InvalidMeasurementWindowDuration => {
                "local measurement-window duration must be non-zero".to_owned()
            },
            SchedulerError::WorkerNotConfigured { worker, configured_clients } => join5(
                "worker ",
                describe_worker(*worker).as_str(),
                " is outside this run's configured 0..",
                unsigned_text(*configured_clients as u64).as_str(),
                " range",
            ),
            SchedulerError::DuplicateWorker(worker) => about_worker(
                *worker,
                " has already registered a prepared session",
            ),
            SchedulerError::DuplicateSession(session) => join3(
                "prepared session ",
                describe_session(*session).as_str(),
                " is already assigned to another worker",
            ),
            SchedulerError::BarrierIncomplete { ready, required } => join4(
                "the prepared-worker barrier is incomplete: ",
                unsigned_text(*ready as u64).as_str(),
                "/",
                unsigned_text(*required as u64).as_str(),
            ),
            SchedulerError::AlreadyStarted => "the scheduler has already started".to_owned(),
            SchedulerError::NotStarted => "the scheduler has not started".to_owned(),
            SchedulerError::ClockRegressed { previous, now } => join4(
                "monotonic clock regressed from ",
                previous.text().as_str(),
                " to ",
                now.text().as_str(),
            ),
            SchedulerError::ClockOverflow => "duration arithmetic overflowed".to_owned(),
            SchedulerError::TimelineEnded => "the final measurement timeline has ended".to_owned(),
            SchedulerError::WorkerBusy(worker) => about_worker(
                *worker,
                " already has a selected transaction",
            ),
            SchedulerError::TicketMismatch(worker) => about_worker(
                *worker,
                " has no matching in-flight attempt",
            ),
            SchedulerError::RetryNotPending(worker) => about_worker(
                *worker,
                " has no retry pending",
            ),
            SchedulerError::InvalidWarehouse(n) => join3(
                "warehouse id ",
                unsigned_text(*n as u64).as_str(),
                " is outside the official 1..=50 range",
            ),
            SchedulerError::InvalidExpectedRollback(kind) => join2(
                describe_family(*kind),
                " cannot be declared as a business-expected rollback",
            ),
            SchedulerError::ReservationDeadlinePassed => {
                "the reserved transaction's phase deadline has passed".to_owned()
            },
            SchedulerError::SequenceExhausted(worker) => about_worker(
                *worker,
                " exhausted its stage-local transaction sequence",
            ),
            SchedulerError::TicketExhausted => {
                "the scheduler exhausted its transaction identity space".to_owned()
            },
            SchedulerError::InvalidRuntimeLimit(name) => join3(
                "local runtime limit ",
                name,
                " must be non-zero",
            ),
            SchedulerError::RetryDeadlinePassed => "the retry's phase deadline has passed".to_owned(),
            SchedulerError::CompletionBeforeAttempt { completed_at, attempt_started_at } => join4(
                "terminal completion timestamp ",
                completed_at.text().as_str(),
                " precedes attempt start ",
                attempt_started_at.text().as_str(),
            ),
            SchedulerError::CompletionBeforePhase { completed_at, phase_started_at } => join4(
                "terminal completion timestamp ",
                completed_at.text().as_str(),
                " precedes phase start ",
                phase_started_at.text().as_str(),
            ),
            SchedulerError::TimelineIncomplete => {
                "the timeline has not reached its final absolute deadline".to_owned()
            },
            SchedulerError::WorkersNotDrained => {
                "at least one worker still has an in-flight transaction".to_owned()
            },
            SchedulerError::InconsistentMeasurementAccounting => {
                "ranked transaction accounting is internally inconsistent".to_owned()
            },
            SchedulerError::RunFailed(failure) => join7(
                "scheduler failed: SchedulerFailure { worker: ",
                describe_worker(failure.worker).as_str(),
                ", phase: ",
                describe_phase(failure.phase).as_str(),
                ", reason: ",
                quote(failure.reason.as_str()).as_str(),
                " }",
            ),
        }
    }
}

} // verus!
