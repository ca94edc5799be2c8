//! Transport-independent phase scheduler for the 2026 final profile.
//!
//! The scheduler owns no sockets and spawns no tasks.  An executor supplies a
//! monotonic clock, registers its prepared worker sessions once, and drives
//! this state machine around each request.
use vstd::prelude::*;

use crate::measurement::{
    FORMAL_WINDOW_COUNT, FORMAL_WINDOW_SECONDS, OFFICIAL_WAREHOUSE_COUNT, WindowGate,
};
use crate::profile::{OFFICIAL_CLIENTS, WARMUP_SECONDS};
use crate::time::{Duration, NANOS_PER_SECOND};
use crate::transaction::TransactionType;

verus! {

/// Timing and concurrency for one scheduler run.
///
/// Any value but [`PhaseScheduleConfig::official`] is a local, non-ranked
/// schedule.
#[derive(Debug, Clone, Copy, PartialEq, Eq, Structural)]
pub struct PhaseScheduleConfig {
    pub clients: u16,
    pub warmup_duration: Duration,
    pub measurement_window_duration: Duration,
}

/// Whether a schedule has clients within the limit and windows that last.
pub open spec fn schedule_valid(schedule: PhaseScheduleConfig) -> bool {
    1 <= schedule.clients <= OFFICIAL_CLIENTS && schedule.measurement_window_duration.nanos > 0
}

/// The schedule of the final profile.
pub open spec fn official_schedule() -> PhaseScheduleConfig {
    PhaseScheduleConfig {
        clients: OFFICIAL_CLIENTS,
        warmup_duration: Duration { nanos: (WARMUP_SECONDS * NANOS_PER_SECOND) as u128 },
        measurement_window_duration: Duration {
            nanos: (FORMAL_WINDOW_SECONDS * NANOS_PER_SECOND) as u128,
        },
    }
}

impl PhaseScheduleConfig {
    /// Builds a local, non-ranked schedule.  There are always three windows.
    pub fn new(
        clients: u16,
        warmup_duration: Duration,
        measurement_window_duration: Duration,
    ) -> (r: Result<Self, SchedulerError>)
        ensures
            r == if clients == 0 || clients > OFFICIAL_CLIENTS {
                Err(SchedulerError::InvalidScheduleClients(clients))
            } else if measurement_window_duration.nanos == 0 {
                Err(SchedulerError::InvalidMeasurementWindowDuration)
            } else {
                Ok((PhaseScheduleConfig { clients, warmup_duration, measurement_window_duration }))
            },
    {
        if clients == 0 || clients > OFFICIAL_CLIENTS {
            return Err(SchedulerError::InvalidScheduleClients(clients));
        }
        if measurement_window_duration.is_zero() {
            return Err(SchedulerError::InvalidMeasurementWindowDuration);
        }
        Ok(PhaseScheduleConfig { clients, warmup_duration, measurement_window_duration })
    }

    pub fn official() -> (r: Self)
        ensures
            r == official_schedule(),
            schedule_valid(r),
    {
        PhaseScheduleConfig {
            clients: OFFICIAL_CLIENTS,
            warmup_duration: Duration::from_secs(WARMUP_SECONDS),
            measurement_window_duration: Duration::from_secs(FORMAL_WINDOW_SECONDS),
        }
    }

    pub fn clients(self) -> (r: u16)
        ensures
            r == self.clients,
    {
        self.clients
    }

    pub fn warmup_duration(self) -> (r: Duration)
        ensures
            r == self.warmup_duration,
    {
        self.warmup_duration
    }

    pub fn measurement_window_duration(self) -> (r: Duration)
        ensures
            r == self.measurement_window_duration,
    {
        self.measurement_window_duration
    }
}

/// A source of monotonic time expressed relative to any stable epoch.
pub trait MonotonicClock {
    /// Whether a reading may give this time; any may, where a clock says no more.
    open spec fn reads(&self, at: Duration) -> bool {
        true
    }

    fn now(&self) -> (r: Duration)
        ensures
            self.reads(r),
    ;
}

/// Receives deterministic scheduler events.
pub trait EventRecorder {
    /// The events received so far.
    spec fn recorded(&self) -> Seq<RecordedEvent>;

    fn record(&mut self, event: SchedulerEvent)
        ensures
            final(self).recorded() == old(self).recorded().push(event@),
    ;
}

impl EventRecorder for Vec<SchedulerEvent> {
    open spec fn recorded(&self) -> Seq<RecordedEvent> {
        Seq::new(self@.len(), |i: int| self@[i]@)
    }

    fn record(&mut self, event: SchedulerEvent) {
        let ghost before = *self;
        self.push(event);
        assert(self.recorded() =~= before.recorded().push(event@));
    }
}

/// Runtime-only limits around the published phase schedule.
#[derive(Debug, Clone, Copy, PartialEq, Eq, Structural)]
pub struct LocalRuntimeLimits {
    pub phase_tail_grace: Duration,
}

impl LocalRuntimeLimits {
    pub fn new(phase_tail_grace: Duration) -> (r: Result<Self, SchedulerError>)
        ensures
            r == if phase_tail_grace.nanos == 0 {
                Err(SchedulerError::InvalidRuntimeLimit("phase_tail_grace"))
            } else {
                Ok((LocalRuntimeLimits { phase_tail_grace }))
            },
    {
        if phase_tail_grace.is_zero() {
            return Err(SchedulerError::InvalidRuntimeLimit("phase_tail_grace"));
        }
        Ok(LocalRuntimeLimits { phase_tail_grace })
    }
}

#[derive(Debug, Clone, Copy, PartialEq, Eq, Hash, Structural)]
pub struct WorkerId(pub u16);

impl WorkerId {
    pub fn new(value: u16) -> (r: Result<Self, SchedulerError>)
        ensures
            r == if value >= OFFICIAL_CLIENTS {
                Err(SchedulerError::InvalidWorker(value))
            } else {
                Ok(WorkerId(value))
            },
    {
        if value >= OFFICIAL_CLIENTS {
            return Err(SchedulerError::InvalidWorker(value));
        }
        Ok(WorkerId(value))
    }

    pub fn value(self) -> (r: u16)
        ensures
            r == self.0,
    {
        self.0
    }
}

/// Opaque identity of a connection that has completed negotiation, isolation
/// setup and statement preparation.
#[derive(Debug, Clone, Copy, PartialEq, Eq, Hash, Structural)]
pub struct PreparedSessionId(pub u64);

#[derive(Debug, Clone, Copy, PartialEq, Eq, Hash, Structural)]
pub enum PhaseId {
    Warmup,
    FormalWindow(u8),
}

/// The phase after `phase`.
pub open spec fn next_phase(phase: PhaseId) -> Option<PhaseId> {
    match phase {
        PhaseId::Warmup => Some(PhaseId::FormalWindow(0)),
        PhaseId::FormalWindow(index) => if index + 1 < FORMAL_WINDOW_COUNT {
            Some(PhaseId::FormalWindow((index + 1) as u8))
        } else {
            None
        },
    }
}

/// The window of a phase.
pub open spec fn window_of(phase: PhaseId) -> Option<int> {
    match phase {
        PhaseId::Warmup => None,
        PhaseId::FormalWindow(index) => Some(index as int),
    }
}

impl PhaseId {
    pub fn next(self) -> (r: Option<Self>)
        ensures
            r == next_phase(self),
    {
        match self {
            PhaseId::Warmup => Some(PhaseId::FormalWindow(0)),
            PhaseId::FormalWindow(index) => if index < 2 {
                Some(PhaseId::FormalWindow(index + 1))
            } else {
                None
            },
        }
    }

    pub fn formal_index(self) -> (r: Option<usize>)
        ensures
            r is Some == window_of(self) is Some,
            r matches Some(index) ==> index == window_of(self)->0,
    {
        match self {
            PhaseId::Warmup => None,
            PhaseId::FormalWindow(index) => Some(index as usize),
        }
    }
}

#[derive(Debug, Clone, Copy, PartialEq, Eq, Structural)]
pub struct TransactionReservation {
    pub id: u64,
    pub worker: WorkerId,
    pub phase: PhaseId,
    /// Sequence number consumed only when a new transaction is selected.
    pub txn_no: u64,
    pub selected_at: Duration,
    pub phase_deadline: Duration,
}

impl TransactionReservation {
    pub fn id(self) -> (r: u64)
        ensures
            r == self.id,
    {
        self.id
    }
}

/// Immutable accounting identity for one fully generated transaction.
///
/// `parameter_fingerprint` is a caller-defined stable digest of every bound
/// parameter.  It is part of the ticket that all retries reuse.
#[derive(Debug, Clone, Copy, PartialEq, Eq, Structural)]
pub struct TransactionIdentity {
    pub transaction_type: TransactionType,
    pub home_warehouse: u16,
    pub parameter_fingerprint: u64,
    pub expects_business_rollback: bool,
}

impl TransactionIdentity {
    pub fn new(
        transaction_type: TransactionType,
        home_warehouse: u16,
        parameter_fingerprint: u64,
        expects_business_rollback: bool,
    ) -> (r: Result<Self, SchedulerError>)
        ensures
            r == if !(1 <= home_warehouse <= OFFICIAL_WAREHOUSE_COUNT) {
                Err(SchedulerError::InvalidWarehouse(home_warehouse))
            } else if expects_business_rollback && transaction_type != TransactionType::NewOrder {
                Err(SchedulerError::InvalidExpectedRollback(transaction_type))
            } else {
                Ok(
                    (TransactionIdentity {
                        transaction_type,
                        home_warehouse,
                        parameter_fingerprint,
                        expects_business_rollback,
                    }),
                )
            },
    {
        if home_warehouse < 1 || home_warehouse as usize > OFFICIAL_WAREHOUSE_COUNT {
            return Err(SchedulerError::InvalidWarehouse(home_warehouse));
        }
        if expects_business_rollback && transaction_type != TransactionType::NewOrder {
            return Err(SchedulerError::InvalidExpectedRollback(transaction_type));
        }
        Ok(
            TransactionIdentity {
                transaction_type,
                home_warehouse,
                parameter_fingerprint,
                expects_business_rollback,
            },
        )
    }

    pub fn transaction_type(self) -> (r: TransactionType)
        ensures
            r == self.transaction_type,
    {
        self.transaction_type
    }

    pub fn home_warehouse(self) -> (r: u16)
        ensures
            r == self.home_warehouse,
    {
        self.home_warehouse
    }

    pub fn parameter_fingerprint(self) -> (r: u64)
        ensures
            r == self.parameter_fingerprint,
    {
        self.parameter_fingerprint
    }

    pub fn expects_business_rollback(self) -> (r: bool)
        ensures
            r == self.expects_business_rollback,
    {
        self.expects_business_rollback
    }
}

#[derive(Debug, Clone, Copy, PartialEq, Eq, Structural)]
pub struct TransactionTicket {
    pub reservation: TransactionReservation,
    pub identity: TransactionIdentity,
}

impl TransactionTicket {
    pub fn id(self) -> (r: u64)
        ensures
            r == self.reservation.id,
    {
        self.reservation.id
    }

    pub fn worker(self) -> (r: WorkerId)
        ensures
            r == self.reservation.worker,
    {
        self.reservation.worker
    }

    pub fn phase(self) -> (r: PhaseId)
        ensures
            r == self.reservation.phase,
    {
        self.reservation.phase
    }

    pub fn txn_no(self) -> (r: u64)
        ensures
            r == self.reservation.txn_no,
    {
        self.reservation.txn_no
    }

    pub fn selected_at(self) -> (r: Duration)
        ensures
            r == self.reservation.selected_at,
    {
        self.reservation.selected_at
    }

    pub fn phase_deadline(self) -> (r: Duration)
        ensures
            r == self.reservation.phase_deadline,
    {
        self.reservation.phase_deadline
    }

    pub fn identity(self) -> (r: TransactionIdentity)
        ensures
            r == self.identity,
    {
        self.identity
    }
}

#[derive(Debug, Clone, Copy, PartialEq, Eq, Structural)]
pub enum AttemptOutcome {
    Commit { delivery_processed: u64 },
    ExpectedRollback,
    RetryableAbort,
}

#[derive(Debug, Clone, Copy, PartialEq, Eq, Structural)]
pub enum AttemptDisposition {
    Finished,
    RetrySameParameters,
    GraceTail,
    Abandoned,
}

#[derive(Debug, Clone, Copy, PartialEq, Eq, Structural)]
pub enum CompletionClass {
    Committed,
    ExpectedRollback,
    RetryableAbort,
    Abandoned,
    GraceTail,
}

#[allow(inconsistent_fields)]
#[derive(Debug, Clone, PartialEq, Eq)]
pub enum SchedulerEvent {
    WorkerPrepared { worker: WorkerId, session: PreparedSessionId, at: Duration },
    BarrierReleased { workers: u16, at: Duration },
    PhaseStarted { phase: PhaseId, at: Duration, deadline: Duration },
    PhaseEnded { phase: PhaseId, at: Duration },
    WindowGateEvaluated { window: u8, gate: WindowGate, at: Duration },
    TransactionReserved { reservation: TransactionReservation, at: Duration },
    ReservationAbandoned { reservation: TransactionReservation, at: Duration },
    TransactionStarted { ticket: TransactionTicket, retry: bool, at: Duration },
    TransactionFinished { ticket: TransactionTicket, class: CompletionClass, at: Duration },
    WorkerFailed { worker: WorkerId, phase: Option<PhaseId>, at: Duration, reason: String },
    TimelineCompleted { at: Duration },
}

#[derive(Debug, Clone, PartialEq, Eq)]
pub struct SchedulerFailure {
    pub worker: WorkerId,
    pub phase: Option<PhaseId>,
    pub reason: String,
}

#[derive(Debug, Clone, PartialEq, Eq)]
pub enum SchedulerError {
    InvalidWorker(u16),
    InvalidScheduleClients(u16),
    InvalidMeasurementWindowDuration,
    WorkerNotConfigured { worker: WorkerId, configured_clients: u16 },
    DuplicateWorker(WorkerId),
    DuplicateSession(PreparedSessionId),
    BarrierIncomplete { ready: usize, required: usize },
    AlreadyStarted,
    NotStarted,
    ClockRegressed { previous: Duration, now: Duration },
    ClockOverflow,
    TimelineEnded,
    WorkerBusy(WorkerId),
    TicketMismatch(WorkerId),
    RetryNotPending(WorkerId),
    InvalidWarehouse(u16),
    InvalidExpectedRollback(TransactionType),
    ReservationDeadlinePassed,
    SequenceExhausted(WorkerId),
    TicketExhausted,
    InvalidRuntimeLimit(&'static str),
    RetryDeadlinePassed,
    CompletionBeforeAttempt { completed_at: Duration, attempt_started_at: Duration },
    CompletionBeforePhase { completed_at: Duration, phase_started_at: Duration },
    TimelineIncomplete,
    WorkersNotDrained,
    InconsistentMeasurementAccounting,
    RunFailed(SchedulerFailure),
}

/// The content of a [`SchedulerEvent`]; a failure's reason is its text.
pub enum RecordedEvent {
    Plain(SchedulerEvent),
    WorkerFailed { worker: WorkerId, phase: Option<PhaseId>, at: Duration, reason: Seq<char> },
}

/// The content of a [`SchedulerFailure`].
#[verifier::ext_equal]
pub struct FailureModel {
    pub worker: WorkerId,
    pub phase: Option<PhaseId>,
    pub reason: Seq<char>,
}

/// The content of a [`SchedulerError`]; a failure's reason is its text.
#[verifier::ext_equal]
pub enum SchedulerFault {
    Plain(SchedulerError),
    RunFailed(FailureModel),
}

impl View for SchedulerEvent {
    type V = RecordedEvent;

    open spec fn view(&self) -> RecordedEvent {
        match *self {
            SchedulerEvent::WorkerFailed { worker, phase, at, reason } => RecordedEvent::WorkerFailed {
                worker,
                phase,
                at,
                reason: reason@,
            },
            other => RecordedEvent::Plain(other),
        }
    }
}

impl View for SchedulerFailure {
    type V = FailureModel;

    open spec fn view(&self) -> FailureModel {
        FailureModel { worker: self.worker, phase: self.phase, reason: self.reason@ }
    }
}

impl View for SchedulerError {
    type V = SchedulerFault;

    open spec fn view(&self) -> SchedulerFault {
        match *self {
            SchedulerError::RunFailed(failure) => SchedulerFault::RunFailed(failure@),
            other => SchedulerFault::Plain(other),
        }
    }
}

/// Whether a transaction only reads.
pub open spec fn read_only(transaction_type: TransactionType) -> bool {
    transaction_type == TransactionType::OrderStatus || transaction_type
        == TransactionType::StockLevel
}

pub(crate) fn is_read_only(transaction_type: TransactionType) -> (r: bool)
    ensures
        r == read_only(transaction_type),
{
    matches!(transaction_type, TransactionType::OrderStatus | TransactionType::StockLevel)
}

/// What a worker has selected.
#[derive(Debug, Clone, Copy, PartialEq, Eq, Structural)]
pub enum SelectionState {
    Reserved(TransactionReservation),
    InFlight { ticket: TransactionTicket, attempt_started_at: Duration },
    RetryPending(TransactionTicket),
}

/// The reservation behind a selection.
pub open spec fn reservation_of(selection: SelectionState) -> TransactionReservation {
    match selection {
        SelectionState::Reserved(reservation) => reservation,
        SelectionState::InFlight { ticket, .. } => ticket.reservation,
        SelectionState::RetryPending(ticket) => ticket.reservation,
    }
}

impl SelectionState {
    pub fn phase(&self) -> (r: PhaseId)
        ensures
            r == reservation_of(*self).phase,
    {
        match self {
            SelectionState::Reserved(reservation) => reservation.phase,
            SelectionState::InFlight { ticket, .. } => ticket.phase(),
            SelectionState::RetryPending(ticket) => ticket.phase(),
        }
    }
}

#[derive(Debug, Clone, Copy, PartialEq, Eq, Structural)]
pub struct WorkerState {
    pub session: Option<PreparedSessionId>,
    pub sequence_phase: Option<PhaseId>,
    pub next_txn_no: u64,
    pub selection: Option<SelectionState>,
}

} // verus!
