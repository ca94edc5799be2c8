use std::cell::Cell;
use std::rc::Rc;
use std::time::Instant;

use tpcc_ranking::measurement::FORMAL_WINDOW_COUNT;
use tpcc_ranking::phase_scheduler::Final2026Scheduler;
use tpcc_ranking::phases::{
    AttemptDisposition, AttemptOutcome, CompletionClass, LocalRuntimeLimits, MonotonicClock,
    PhaseId, PhaseScheduleConfig, PreparedSessionId, SchedulerError, SchedulerEvent,
    SchedulerFailure, TransactionIdentity, TransactionTicket, WorkerId,
};
use tpcc_ranking::profile::OFFICIAL_CLIENTS;
use tpcc_ranking::time::Duration;
use tpcc_ranking::transaction::TransactionType;

#[derive(Clone)]
struct FakeClock(Rc<Cell<Duration>>);

impl FakeClock {
    fn default() -> Self {
        FakeClock(Rc::new(Cell::new(Duration::zero())))
    }

    fn set(&self, now: Duration) {
        self.0.set(now);
    }

    fn advance(&self, amount: Duration) {
        self.set(self.now().checked_add(amount).unwrap());
    }
}

impl MonotonicClock for FakeClock {
    fn now(&self) -> Duration {
        self.0.get()
    }
}

type TestScheduler = Final2026Scheduler<FakeClock, Vec<SchedulerEvent>>;

fn ready_scheduler(grace: Duration) -> (FakeClock, TestScheduler) {
    ready_scheduler_with_limits(LocalRuntimeLimits::new(grace).unwrap())
}

fn ready_scheduler_with_limits(limits: LocalRuntimeLimits) -> (FakeClock, TestScheduler) {
    let clock = FakeClock::default();
    let mut scheduler =
        Final2026Scheduler::new(clock.clone(), Vec::new(), limits, [1, 2, 3, 4]);
    for id in 0..OFFICIAL_CLIENTS {
        scheduler
            .worker_prepared(
                WorkerId::new(id).unwrap(),
                PreparedSessionId(u64::from(id) + 100),
            )
            .unwrap();
    }
    (clock, scheduler)
}

fn commit_payment(
    scheduler: &mut TestScheduler,
    ticket: TransactionTicket,
) -> AttemptDisposition {
    scheduler
        .finish_attempt(
            ticket,
            AttemptOutcome::Commit {
                delivery_processed: 0,
            },
        )
        .unwrap()
}

fn start_payment(
    scheduler: &mut TestScheduler,
    worker: WorkerId,
    fingerprint: u64,
) -> TransactionTicket {
    let reservation = scheduler.reserve_transaction(worker).unwrap();
    let identity =
        TransactionIdentity::new(TransactionType::Payment, 1, fingerprint, false).unwrap();
    scheduler.start_transaction(reservation, identity).unwrap()
}

fn start_expected_rollback(
    scheduler: &mut TestScheduler,
    worker: WorkerId,
    fingerprint: u64,
) -> TransactionTicket {
    let reservation = scheduler.reserve_transaction(worker).unwrap();
    let identity =
        TransactionIdentity::new(TransactionType::NewOrder, 1, fingerprint, true).unwrap();
    scheduler.start_transaction(reservation, identity).unwrap()
}

#[test]
fn barrier_requires_all_32_prepared_sessions_once() {
    let clock = FakeClock::default();
    let mut scheduler = Final2026Scheduler::new(
        clock,
        Vec::new(),
        LocalRuntimeLimits::new(Duration::from_secs(5)).unwrap(),
        [1, 2, 3, 4],
    );
    for id in 0..OFFICIAL_CLIENTS - 1 {
        scheduler
            .worker_prepared(WorkerId::new(id).unwrap(), PreparedSessionId(u64::from(id)))
            .unwrap();
    }
    assert_eq!(
        scheduler.start(),
        Err(SchedulerError::BarrierIncomplete {
            ready: 31,
            required: 32
        })
    );

    let final_worker = WorkerId::new(31).unwrap();
    scheduler
        .worker_prepared(final_worker, PreparedSessionId(31))
        .unwrap();
    scheduler.start().unwrap();
    assert_eq!(
        scheduler.worker_prepared(final_worker, PreparedSessionId(999)),
        Err(SchedulerError::AlreadyStarted)
    );
    assert_eq!(
        scheduler.prepared_session(final_worker),
        Some(PreparedSessionId(31))
    );
}

#[test]
fn fake_clock_emits_exact_continuous_30_plus_three_by_150_timeline() {
    let wall_start = Instant::now();
    let (clock, mut scheduler) = ready_scheduler(Duration::from_secs(5));
    clock.set(Duration::from_secs(7));
    scheduler.start().unwrap();
    clock.advance(Duration::from_secs(30 + 3 * 150));
    scheduler.poll().unwrap();

    let starts: Vec<_> = scheduler
        .recorder()
        .iter()
        .filter_map(|event| match event {
            SchedulerEvent::PhaseStarted {
                phase,
                at,
                deadline,
            } => Some((*phase, *at, *deadline)),
            _ => None,
        })
        .collect();
    assert_eq!(
        starts,
        vec![
            (
                PhaseId::Warmup,
                Duration::from_secs(7),
                Duration::from_secs(37)
            ),
            (
                PhaseId::FormalWindow(0),
                Duration::from_secs(37),
                Duration::from_secs(187)
            ),
            (
                PhaseId::FormalWindow(1),
                Duration::from_secs(187),
                Duration::from_secs(337)
            ),
            (
                PhaseId::FormalWindow(2),
                Duration::from_secs(337),
                Duration::from_secs(487)
            ),
        ]
    );

    let ends: Vec<_> = scheduler
        .recorder()
        .iter()
        .filter_map(|event| match event {
            SchedulerEvent::PhaseEnded { phase, at } => Some((*phase, *at)),
            _ => None,
        })
        .collect();
    assert_eq!(
        ends,
        vec![
            (PhaseId::Warmup, Duration::from_secs(37)),
            (PhaseId::FormalWindow(0), Duration::from_secs(187)),
            (PhaseId::FormalWindow(1), Duration::from_secs(337)),
            (PhaseId::FormalWindow(2), Duration::from_secs(487)),
        ]
    );
    let gate_times: Vec<_> = scheduler
        .recorder()
        .iter()
        .filter_map(|event| match event {
            SchedulerEvent::WindowGateEvaluated { window, at, .. } => Some((*window, *at)),
            _ => None,
        })
        .collect();
    assert_eq!(
        gate_times,
        vec![
            (0, Duration::from_secs(187)),
            (1, Duration::from_secs(337)),
            (2, Duration::from_secs(487)),
        ]
    );
    assert!(wall_start.elapsed() < std::time::Duration::from_secs(1));
}

#[test]
fn local_non_ranked_schedule_uses_two_workers_and_three_continuous_windows() {
    let clock = FakeClock::default();
    let schedule = PhaseScheduleConfig::new(2, Duration::zero(), Duration::from_secs(1)).unwrap();
    let mut scheduler = Final2026Scheduler::new_with_schedule(
        clock.clone(),
        Vec::new(),
        LocalRuntimeLimits::new(Duration::from_secs(1)).unwrap(),
        [1, 2, 3, 4],
        schedule,
    )
    .unwrap();

    for id in 0..2 {
        scheduler
            .worker_prepared(WorkerId::new(id).unwrap(), PreparedSessionId(u64::from(id)))
            .unwrap();
    }
    let unconfigured = WorkerId::new(2).unwrap();
    assert_eq!(
        scheduler.worker_prepared(unconfigured, PreparedSessionId(2)),
        Err(SchedulerError::WorkerNotConfigured {
            worker: unconfigured,
            configured_clients: 2,
        })
    );
    assert_eq!(scheduler.prepared_session(unconfigured), None);

    scheduler.start().unwrap();
    assert_eq!(scheduler.schedule(), schedule);
    clock.set(Duration::from_secs(3));
    scheduler.poll().unwrap();

    let starts: Vec<_> = scheduler
        .recorder()
        .iter()
        .filter_map(|event| match event {
            SchedulerEvent::PhaseStarted {
                phase,
                at,
                deadline,
            } => Some((*phase, *at, *deadline)),
            _ => None,
        })
        .collect();
    assert_eq!(
        starts,
        vec![
            (PhaseId::Warmup, Duration::zero(), Duration::zero()),
            (
                PhaseId::FormalWindow(0),
                Duration::zero(),
                Duration::from_secs(1),
            ),
            (
                PhaseId::FormalWindow(1),
                Duration::from_secs(1),
                Duration::from_secs(2),
            ),
            (
                PhaseId::FormalWindow(2),
                Duration::from_secs(2),
                Duration::from_secs(3),
            ),
        ]
    );
    let gate_times: Vec<_> = scheduler
        .recorder()
        .iter()
        .filter_map(|event| match event {
            SchedulerEvent::WindowGateEvaluated { window, at, .. } => Some((*window, *at)),
            _ => None,
        })
        .collect();
    assert_eq!(
        gate_times,
        vec![
            (0, Duration::from_secs(1)),
            (1, Duration::from_secs(2)),
            (2, Duration::from_secs(3)),
        ]
    );
    assert!(scheduler.recorder().iter().any(|event| {
        matches!(
            event,
            SchedulerEvent::BarrierReleased {
                workers: 2,
                at: Duration { nanos: 0 }
            }
        )
    }));
}

#[test]
fn local_schedule_validation_keeps_three_windows_fixed() {
    assert_eq!(
        PhaseScheduleConfig::new(0, Duration::zero(), Duration::from_secs(1)),
        Err(SchedulerError::InvalidScheduleClients(0))
    );
    assert_eq!(
        PhaseScheduleConfig::new(OFFICIAL_CLIENTS + 1, Duration::zero(), Duration::from_secs(1),),
        Err(SchedulerError::InvalidScheduleClients(OFFICIAL_CLIENTS + 1))
    );
    assert_eq!(
        PhaseScheduleConfig::new(1, Duration::zero(), Duration::zero()),
        Err(SchedulerError::InvalidMeasurementWindowDuration)
    );
    assert_eq!(FORMAL_WINDOW_COUNT, 3);
}

#[test]
fn transaction_sequence_resets_per_stage_without_rebuilding_sessions() {
    let (clock, mut scheduler) = ready_scheduler(Duration::from_secs(5));
    scheduler.start().unwrap();
    let worker = WorkerId::new(0).unwrap();
    let session = scheduler.prepared_session(worker);

    let first = start_payment(&mut scheduler, worker, 1);
    assert_eq!((first.phase(), first.txn_no()), (PhaseId::Warmup, 0));
    commit_payment(&mut scheduler, first);
    let second = start_payment(&mut scheduler, worker, 2);
    assert_eq!(second.txn_no(), 1);
    commit_payment(&mut scheduler, second);

    clock.set(Duration::from_secs(30));
    let window_zero = start_payment(&mut scheduler, worker, 3);
    assert_eq!(
        (window_zero.phase(), window_zero.txn_no()),
        (PhaseId::FormalWindow(0), 0)
    );
    commit_payment(&mut scheduler, window_zero);

    clock.set(Duration::from_secs(180));
    let window_one = start_payment(&mut scheduler, worker, 4);
    assert_eq!(
        (window_one.phase(), window_one.txn_no()),
        (PhaseId::FormalWindow(1), 0)
    );
    assert_eq!(scheduler.prepared_session(worker), session);
}

#[test]
fn new_order_stability_bucket_uses_the_terminal_completion_offset() {
    let (clock, mut scheduler) = ready_scheduler(Duration::from_secs(5));
    scheduler.start().unwrap();
    clock.set(Duration::from_secs(30));
    let worker = WorkerId::new(0).unwrap();
    let reservation = scheduler.reserve_transaction(worker).unwrap();
    let identity =
        TransactionIdentity::new(TransactionType::NewOrder, 1, 0x5000, false).unwrap();
    let ticket = scheduler.start_transaction(reservation, identity).unwrap();

    clock.set(Duration::from_secs(35));
    assert_eq!(
        scheduler
            .finish_attempt(
                ticket,
                AttemptOutcome::Commit {
                    delivery_processed: 0,
                },
            )
            .unwrap(),
        AttemptDisposition::Finished
    );
    assert_eq!(scheduler.windows()[0].new_order_stability_buckets[0], 0);
    assert_eq!(scheduler.windows()[0].new_order_stability_buckets[1], 1);
}

#[test]
fn retry_reuses_ticket_and_does_not_consume_sequence_number() {
    let (clock, mut scheduler) = ready_scheduler(Duration::from_secs(5));
    scheduler.start().unwrap();
    clock.set(Duration::from_secs(30));
    let worker = WorkerId::new(3).unwrap();
    let ticket = start_payment(&mut scheduler, worker, 0xfeed);
    assert_eq!(
        scheduler
            .finish_attempt(ticket, AttemptOutcome::RetryableAbort)
            .unwrap(),
        AttemptDisposition::RetrySameParameters
    );
    assert_eq!(scheduler.start_retry(ticket).unwrap(), ticket);
    assert_eq!(
        commit_payment(&mut scheduler, ticket),
        AttemptDisposition::Finished
    );
    let next = start_payment(&mut scheduler, worker, 0xbeef);
    assert_eq!(next.txn_no(), ticket.txn_no() + 1);
    assert_eq!(ticket.identity().parameter_fingerprint(), 0xfeed);
    assert_eq!(scheduler.windows()[0].retry_aborts, 1);
    assert_eq!(scheduler.windows()[0].committed, 1);
}

#[test]
fn phase_tail_deadline_is_shared_across_retries() {
    let (clock, mut scheduler) =
        ready_scheduler_with_limits(LocalRuntimeLimits::new(Duration::from_secs(10)).unwrap());
    scheduler.start().unwrap();
    clock.set(Duration::from_secs(30));
    let ticket = start_payment(&mut scheduler, WorkerId::new(3).unwrap(), 0xabc);
    assert_eq!(
        scheduler.attempt_deadline(ticket).unwrap(),
        Duration::from_secs(190)
    );

    scheduler
        .finish_attempt(ticket, AttemptOutcome::RetryableAbort)
        .unwrap();
    clock.set(Duration::from_secs(179));
    scheduler.start_retry(ticket).unwrap();
    assert_eq!(
        scheduler.attempt_deadline(ticket).unwrap(),
        Duration::from_secs(190)
    );
}

#[test]
fn phase_tail_grace_sets_the_attempt_drain_deadline() {
    let (clock, mut scheduler) =
        ready_scheduler_with_limits(LocalRuntimeLimits::new(Duration::from_secs(5)).unwrap());
    scheduler.start().unwrap();
    clock.set(Duration::from_secs(179));
    let ticket = start_payment(&mut scheduler, WorkerId::new(3).unwrap(), 0xdef);
    assert_eq!(
        scheduler.attempt_deadline(ticket).unwrap(),
        Duration::from_secs(185)
    );
}

#[test]
fn immutable_identity_rejects_false_business_rollback_accounting() {
    assert_eq!(
        TransactionIdentity::new(TransactionType::Payment, 1, 9, true),
        Err(SchedulerError::InvalidExpectedRollback(
            TransactionType::Payment
        ))
    );

    let (clock, mut scheduler) = ready_scheduler(Duration::from_secs(5));
    scheduler.start().unwrap();
    clock.set(Duration::from_secs(30));
    let ticket = start_payment(&mut scheduler, WorkerId::new(4).unwrap(), 0x1234);
    let error = scheduler
        .finish_attempt(ticket, AttemptOutcome::ExpectedRollback)
        .unwrap_err();
    assert!(matches!(error, SchedulerError::RunFailed(_)));
    assert_eq!(scheduler.windows()[0].expected_rollbacks, 0);
    assert_eq!(scheduler.windows()[0].abandoned, 1);
}

#[test]
fn reservation_crossing_a_boundary_is_a_cutoff_before_any_request() {
    let (clock, mut scheduler) = ready_scheduler(Duration::from_secs(5));
    scheduler.start().unwrap();
    clock.set(Duration::from_secs(30));
    let worker = WorkerId::new(6).unwrap();
    let reservation = scheduler.reserve_transaction(worker).unwrap();
    let identity = TransactionIdentity::new(TransactionType::Payment, 1, 60, false).unwrap();

    clock.set(Duration::from_secs(180));
    assert_eq!(
        scheduler.start_transaction(reservation, identity),
        Err(SchedulerError::ReservationDeadlinePassed)
    );
    assert_eq!(scheduler.windows()[0].abandoned, 0);
    assert_eq!(scheduler.windows()[0].cutoff_stopped, 1);
    assert_eq!(scheduler.windows()[0].attempted, 0);
    let next = start_payment(&mut scheduler, worker, 61);
    assert_eq!((next.phase(), next.txn_no()), (PhaseId::FormalWindow(1), 0));
}

#[test]
fn final_deadline_reports_normal_reservation_and_retry_cutoffs() {
    let (clock, mut scheduler) = ready_scheduler(Duration::from_secs(5));
    scheduler.start().unwrap();
    let final_deadline = Duration::from_secs(30 + 3 * 150);
    let worker = WorkerId::new(6).unwrap();

    clock.set(final_deadline.saturating_sub(Duration::from_millis(1)));
    let reservation = scheduler.reserve_transaction(worker).unwrap();
    let identity = TransactionIdentity::new(TransactionType::Payment, 1, 60, false).unwrap();
    clock.set(final_deadline);
    assert_eq!(
        scheduler.start_transaction(reservation, identity),
        Err(SchedulerError::ReservationDeadlinePassed)
    );

    let (retry_clock, mut retry_scheduler) = ready_scheduler(Duration::from_secs(5));
    retry_scheduler.start().unwrap();
    retry_clock.set(final_deadline.saturating_sub(Duration::from_millis(1)));
    let ticket = start_payment(&mut retry_scheduler, worker, 61);
    retry_scheduler
        .finish_attempt(ticket, AttemptOutcome::RetryableAbort)
        .unwrap();
    retry_clock.set(final_deadline);
    assert_eq!(
        retry_scheduler.start_retry(ticket),
        Err(SchedulerError::RetryDeadlinePassed)
    );
}

#[test]
fn abandoning_a_pending_retry_does_not_invent_another_attempt() {
    let (clock, mut scheduler) = ready_scheduler(Duration::from_secs(5));
    scheduler.start().unwrap();
    clock.set(Duration::from_secs(30));
    let ticket = start_payment(&mut scheduler, WorkerId::new(7).unwrap(), 0x77);

    scheduler
        .finish_attempt(ticket, AttemptOutcome::RetryableAbort)
        .unwrap();
    scheduler.abandon_retry(ticket).unwrap();

    assert_eq!(scheduler.windows()[0].retry_aborts, 1);
    assert_eq!(scheduler.windows()[0].abandoned, 1);
    assert_eq!(scheduler.windows()[0].attempted, 1);
    assert_eq!(scheduler.windows()[0].physical_attempts, 1);
    assert_eq!(scheduler.windows()[0].retry_abandoned, 1);
    assert_eq!(scheduler.windows()[0].cutoff_stopped, 0);
    assert!(scheduler.windows()[0].accounting_is_consistent());
}

#[test]
fn late_terminal_is_grace_tail_and_never_enters_ranked_counts() {
    let (clock, mut scheduler) = ready_scheduler(Duration::from_secs(10));
    scheduler.start().unwrap();
    clock.set(Duration::from_secs(30));
    let worker = WorkerId::new(5).unwrap();
    let ticket = start_payment(&mut scheduler, worker, 5);

    clock.set(Duration::from_secs(181));
    assert_eq!(
        commit_payment(&mut scheduler, ticket),
        AttemptDisposition::GraceTail
    );
    assert_eq!(scheduler.windows()[0].grace_tail, 1);
    assert_eq!(scheduler.windows()[0].attempted, 0);
    assert_eq!(scheduler.windows()[0].physical_attempts, 1);
    assert_eq!(scheduler.windows()[0].committed, 0);
    assert_eq!(scheduler.windows()[0].completed(), 0);

    let next = start_payment(&mut scheduler, worker, 6);
    assert_eq!((next.phase(), next.txn_no()), (PhaseId::FormalWindow(1), 0));
}

#[test]
fn terminal_arrival_sample_prevents_mutex_wait_misclassification() {
    let (clock, mut scheduler) = ready_scheduler(Duration::from_secs(10));
    scheduler.start().unwrap();
    clock.set(Duration::from_secs(30));
    let ticket = start_payment(&mut scheduler, WorkerId::new(5).unwrap(), 0x51);

    let completed_at = Duration::from_secs(179);
    clock.set(Duration::from_secs(181));
    assert_eq!(
        scheduler
            .finish_attempt_at(
                ticket,
                AttemptOutcome::Commit {
                    delivery_processed: 0,
                },
                completed_at,
            )
            .unwrap(),
        AttemptDisposition::Finished
    );
    assert_eq!(scheduler.windows()[0].committed, 1);
    assert_eq!(scheduler.windows()[0].grace_tail, 0);
    assert!(scheduler.recorder().iter().any(|event| {
        matches!(
            event,
            SchedulerEvent::TransactionFinished {
                ticket: completed,
                class: CompletionClass::Committed,
                at,
            } if *completed == ticket && *at == completed_at
        )
    }));
}

#[test]
fn later_worker_cannot_expire_an_already_arrived_terminal() {
    let (clock, mut scheduler) =
        ready_scheduler_with_limits(LocalRuntimeLimits::new(Duration::from_secs(10)).unwrap());
    scheduler.start().unwrap();
    clock.set(Duration::from_secs(30));
    let first = start_payment(&mut scheduler, WorkerId::new(5).unwrap(), 0x61);
    let first_completed_at = Duration::from_secs(32);

    clock.set(Duration::from_secs(32));
    let second = start_payment(&mut scheduler, WorkerId::new(6).unwrap(), 0x62);
    scheduler
        .finish_attempt_at(
            second,
            AttemptOutcome::Commit {
                delivery_processed: 0,
            },
            Duration::from_secs(34),
        )
        .unwrap();

    assert_eq!(
        scheduler
            .finish_attempt_at(
                first,
                AttemptOutcome::Commit {
                    delivery_processed: 0,
                },
                first_completed_at,
            )
            .unwrap(),
        AttemptDisposition::Finished
    );
    assert_eq!(scheduler.windows()[0].committed, 2);
}

#[test]
fn sampled_terminal_at_attempt_deadline_is_fatal() {
    let (clock, mut scheduler) =
        ready_scheduler_with_limits(LocalRuntimeLimits::new(Duration::from_secs(10)).unwrap());
    scheduler.start().unwrap();
    clock.set(Duration::from_secs(30));
    let ticket = start_payment(&mut scheduler, WorkerId::new(5).unwrap(), 0x63);

    let error = scheduler
        .finish_attempt_at(
            ticket,
            AttemptOutcome::Commit {
                delivery_processed: 0,
            },
            Duration::from_secs(190),
        )
        .unwrap_err();
    let SchedulerError::RunFailed(failure) = error else {
        panic!("expected absolute attempt deadline failure");
    };
    assert!(failure.reason.contains("not an official timeout"));
    assert_eq!(scheduler.windows()[0].abandoned, 0);
    assert_eq!(scheduler.windows()[0].grace_tail, 1);
}

#[test]
fn read_only_attempt_at_tail_deadline_is_excluded_as_grace_tail() {
    let (clock, mut scheduler) =
        ready_scheduler_with_limits(LocalRuntimeLimits::new(Duration::from_secs(10)).unwrap());
    scheduler.start().unwrap();
    clock.set(Duration::from_secs(30));
    let worker = WorkerId::new(5).unwrap();
    let reservation = scheduler.reserve_transaction(worker).unwrap();
    let identity =
        TransactionIdentity::new(TransactionType::StockLevel, 1, 0x64, false).unwrap();
    let ticket = scheduler.start_transaction(reservation, identity).unwrap();

    assert_eq!(
        scheduler
            .finish_attempt_at(
                ticket,
                AttemptOutcome::Commit {
                    delivery_processed: 0,
                },
                Duration::from_secs(190),
            )
            .unwrap(),
        AttemptDisposition::GraceTail
    );
    assert_eq!(scheduler.windows()[0].attempted, 0);
    assert_eq!(scheduler.windows()[0].abandoned, 0);
    assert_eq!(scheduler.windows()[0].grace_tail, 1);
    assert_eq!(scheduler.windows()[0].committed, 0);
    let next = start_payment(&mut scheduler, worker, 0x65);
    assert_eq!(next.phase(), PhaseId::FormalWindow(1));
}

#[test]
fn unknown_outcome_abandon_applies_to_write_attempts_like_the_official_client() {
    let (clock, mut scheduler) = ready_scheduler(Duration::from_secs(5));
    scheduler.start().unwrap();
    clock.set(Duration::from_secs(30));
    let worker = WorkerId::new(6).unwrap();
    let reservation = scheduler.reserve_transaction(worker).unwrap();
    let identity =
        TransactionIdentity::new(TransactionType::OrderStatus, 1, 0x66, false).unwrap();
    let read_only = scheduler.start_transaction(reservation, identity).unwrap();
    scheduler
        .abandon_read_only_inflight_at(read_only, Duration::from_secs(185))
        .unwrap();
    assert_eq!(scheduler.windows()[0].abandoned, 0);
    assert_eq!(scheduler.windows()[0].grace_tail, 1);

    // The scheduler mirrors the official client, which abandons timed-out
    // write attempts too (the executor best-effort ABORTs and rebuilds the
    // session so the server rolls back an in-flight transaction). A
    // Payment whose connection outcome is unknown is therefore abandonable
    // and never counted as committed.
    let write = start_payment(&mut scheduler, worker, 0x67);
    scheduler
        .abandon_read_only_inflight_at(write, Duration::from_secs(186))
        .unwrap();
    // The write attempt started inside FormalWindow(1) (phase deadline
    // 330s), so 186s is an in-window abandonment, not a grace tail.
    assert_eq!(scheduler.windows()[0].abandoned, 0);
    assert_eq!(scheduler.windows()[0].grace_tail, 1);
    assert_eq!(scheduler.windows()[1].abandoned, 1);
    assert_eq!(scheduler.windows()[1].grace_tail, 0);
}

#[test]
fn grace_tail_still_rejects_terminal_identity_mismatch() {
    let (clock, mut scheduler) = ready_scheduler(Duration::from_secs(10));
    scheduler.start().unwrap();
    clock.set(Duration::from_secs(30));
    let ticket = start_expected_rollback(&mut scheduler, WorkerId::new(5).unwrap(), 0x52);

    let error = scheduler
        .finish_attempt_at(
            ticket,
            AttemptOutcome::Commit {
                delivery_processed: 0,
            },
            Duration::from_secs(181),
        )
        .unwrap_err();
    assert!(matches!(error, SchedulerError::RunFailed(_)));
    assert_eq!(scheduler.windows()[0].grace_tail, 1);
    assert_eq!(scheduler.windows()[0].abandoned, 0);
}

#[test]
fn final_deadline_starts_no_more_transactions_and_summary_uses_gates() {
    let (clock, mut scheduler) = ready_scheduler(Duration::from_secs(10));
    scheduler.start().unwrap();
    clock.set(Duration::from_secs(30 + 3 * 150));
    assert_eq!(
        scheduler.reserve_transaction(WorkerId::new(0).unwrap()),
        Err(SchedulerError::TimelineEnded)
    );

    let summary = scheduler.measurement_summary().unwrap();
    assert_eq!(summary.window_gates.len(), FORMAL_WINDOW_COUNT);
    assert!(summary.window_gates.iter().all(|gate| !gate.passed()));
    assert_eq!(summary.combined_coverage.required_warehouses, 0);
    assert!(summary.combined_coverage.passed());
}

#[test]
fn worker_failure_fails_the_active_phase() {
    let (_clock, mut scheduler) = ready_scheduler(Duration::from_secs(10));
    scheduler.start().unwrap();
    let worker = WorkerId::new(9).unwrap();
    let error = scheduler
        .worker_failed(worker, "socket closed")
        .unwrap_err();
    assert_eq!(
        error,
        SchedulerError::RunFailed(SchedulerFailure {
            worker,
            phase: Some(PhaseId::Warmup),
            reason: "socket closed".to_string(),
        })
    );
    assert!(matches!(
        scheduler.reserve_transaction(WorkerId::new(0).unwrap()),
        Err(SchedulerError::RunFailed(_))
    ));
}

#[test]
fn local_response_grace_is_a_failure_limit_not_a_ranked_constant() {
    let (clock, mut scheduler) = ready_scheduler(Duration::from_secs(2));
    scheduler.start().unwrap();
    clock.set(Duration::from_secs(30));
    let worker = WorkerId::new(7).unwrap();
    start_payment(&mut scheduler, worker, 7);

    clock.set(Duration::from_secs(183));
    let error = scheduler.poll().unwrap_err();
    let SchedulerError::RunFailed(failure) = error else {
        panic!("expected local response-grace failure");
    };
    assert!(failure.reason.contains("not an official timeout"));
    assert_eq!(failure.phase, Some(PhaseId::FormalWindow(0)));
}

#[test]
fn scheduler_does_not_apply_one_timeout_across_multiple_wire_requests() {
    let (clock, mut scheduler) =
        ready_scheduler_with_limits(LocalRuntimeLimits::new(Duration::from_secs(10)).unwrap());
    scheduler.start().unwrap();
    let worker = WorkerId::new(8).unwrap();
    start_payment(&mut scheduler, worker, 8);

    clock.set(Duration::from_secs(3));
    scheduler.poll().unwrap();
    assert!(scheduler.failure.is_none());
}

#[test]
fn local_runtime_limits_reject_zero_without_claiming_official_values() {
    assert_eq!(
        LocalRuntimeLimits::new(Duration::zero()),
        Err(SchedulerError::InvalidRuntimeLimit("phase_tail_grace"))
    );
}

#[test]
fn spans_are_written_in_their_largest_unit() {
    assert_eq!(Duration::zero().text(), "0ns");
    assert_eq!(Duration::from_millis(1_500).text(), "1.5s");
    assert_eq!(Duration::from_millis(20).text(), "20ms");
    assert_eq!(Duration { nanos: 1_050 }.text(), "1.05\u{b5}s");
    assert_eq!(
        Duration::from_secs(u64::MAX).text(),
        format!("{:?}", std::time::Duration::from_secs(u64::MAX))
    );
}
