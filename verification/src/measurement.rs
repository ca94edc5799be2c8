//! Accounting of the formal measurement windows.
use vstd::prelude::*;

use crate::profile::{CoverageScope, coverage_for, coverage_requirement};
use crate::time::Duration;
use crate::transaction::TransactionType;

verus! {

pub const FORMAL_WINDOW_COUNT: usize = 3;

pub const FORMAL_WINDOW_SECONDS: u64 = 150;

pub const OFFICIAL_HOT_WAREHOUSE_COUNT: usize = 4;

pub const OFFICIAL_WAREHOUSE_COUNT: usize = 50;

/// Width of one stability bucket: five seconds.
pub const STABILITY_BUCKET_NANOS: u128 = 5_000_000_000;

pub const STABILITY_BUCKET_COUNT: usize = 30;

/// Counters of one window. They stay at their maximum once they reach it.
#[derive(Debug, Clone, PartialEq, Eq)]
pub struct WindowStats {
    pub hot_warehouses: [u16; 4],
    /// Transactions that count: completed or abandoned inside the window.
    pub attempted: u64,
    /// Attempts that reached the server.
    pub physical_attempts: u64,
    pub committed: u64,
    pub expected_rollbacks: u64,
    pub retry_aborts: u64,
    pub abandoned: u64,
    /// Abandoned while a retry was pending.
    pub retry_abandoned: u64,
    /// Stopped at the cutoff before another request.
    pub cutoff_stopped: u64,
    /// Finished after the window.
    pub grace_tail: u64,
    pub delivered_orders: u64,
    /// Latency of the slowest commit.
    pub slowest_commit: Duration,
    /// Committed NewOrders by completion offset.
    pub new_order_stability_buckets: Vec<u64>,
    /// Warehouses with a completed transaction.
    pub warehouses: Vec<bool>,
}

/// The content of a [`WindowStats`].
#[verifier::ext_equal]
pub struct WindowModel {
    pub hot_warehouses: Seq<u16>,
    pub attempted: u64,
    pub physical_attempts: u64,
    pub committed: u64,
    pub expected_rollbacks: u64,
    pub retry_aborts: u64,
    pub abandoned: u64,
    pub retry_abandoned: u64,
    pub cutoff_stopped: u64,
    pub grace_tail: u64,
    pub delivered_orders: u64,
    pub slowest_commit: Duration,
    pub buckets: Seq<u64>,
    pub warehouses: Seq<bool>,
}

impl View for WindowStats {
    type V = WindowModel;

    open spec fn view(&self) -> WindowModel {
        WindowModel {
            hot_warehouses: self.hot_warehouses@,
            attempted: self.attempted,
            physical_attempts: self.physical_attempts,
            committed: self.committed,
            expected_rollbacks: self.expected_rollbacks,
            retry_aborts: self.retry_aborts,
            abandoned: self.abandoned,
            retry_abandoned: self.retry_abandoned,
            cutoff_stopped: self.cutoff_stopped,
            grace_tail: self.grace_tail,
            delivered_orders: self.delivered_orders,
            slowest_commit: self.slowest_commit,
            buckets: self.new_order_stability_buckets@,
            warehouses: self.warehouses@,
        }
    }
}

/// Addition that stops at the maximum.
pub open spec fn capped(a: u64, b: int) -> u64 {
    if a + b > u64::MAX {
        u64::MAX
    } else {
        (a + b) as u64
    }
}

fn capped_add(a: u64, b: u64) -> (r: u64)
    ensures
        r == capped(a, b as int),
{
    match a.checked_add(b) {
        Some(r) => r,
        None => u64::MAX,
    }
}

/// A window with its thirty buckets, fifty warehouses and four hot ones.
pub open spec fn window_shaped(w: WindowModel) -> bool {
    w.buckets.len() == 30 && w.warehouses.len() == 50 && w.hot_warehouses.len() == 4
}

/// A window in which nothing happened.
pub open spec fn empty_window(hot: Seq<u16>) -> WindowModel {
    WindowModel {
        hot_warehouses: hot,
        attempted: 0,
        physical_attempts: 0,
        committed: 0,
        expected_rollbacks: 0,
        retry_aborts: 0,
        abandoned: 0,
        retry_abandoned: 0,
        cutoff_stopped: 0,
        grace_tail: 0,
        delivered_orders: 0,
        slowest_commit: Duration { nanos: 0 },
        buckets: Seq::new(30, |i: int| 0u64),
        warehouses: Seq::new(50, |i: int| false),
    }
}

/// Marks a warehouse as covered.
pub open spec fn covered(warehouses: Seq<bool>, warehouse: u16) -> Seq<bool> {
    if 1 <= warehouse <= warehouses.len() {
        warehouses.update(warehouse - 1, true)
    } else {
        warehouses
    }
}

/// Counts a commit in the bucket of its completion offset.
pub open spec fn bucketed(buckets: Seq<u64>, offset: Option<Duration>) -> Seq<u64> {
    match offset {
        Some(at) => {
            let i = at.nanos as int / STABILITY_BUCKET_NANOS as int;
            if i < buckets.len() {
                buckets.update(i, capped(buckets[i], 1))
            } else {
                buckets
            }
        },
        None => buckets,
    }
}

/// A window after a commit.
pub open spec fn with_commit(
    w: WindowModel,
    kind: TransactionType,
    warehouse: u16,
    latency: Duration,
    delivered: u64,
    offset: Option<Duration>,
) -> WindowModel {
    WindowModel {
        attempted: capped(w.attempted, 1),
        physical_attempts: capped(w.physical_attempts, 1),
        committed: capped(w.committed, 1),
        delivered_orders: capped(w.delivered_orders, delivered as int),
        slowest_commit: if latency.nanos > w.slowest_commit.nanos {
            latency
        } else {
            w.slowest_commit
        },
        buckets: if kind == TransactionType::NewOrder {
            bucketed(w.buckets, offset)
        } else {
            w.buckets
        },
        warehouses: covered(w.warehouses, warehouse),
        ..w
    }
}

/// A window after an expected rollback.
pub open spec fn with_expected_rollback(w: WindowModel, warehouse: u16) -> WindowModel {
    WindowModel {
        attempted: capped(w.attempted, 1),
        physical_attempts: capped(w.physical_attempts, 1),
        expected_rollbacks: capped(w.expected_rollbacks, 1),
        warehouses: covered(w.warehouses, warehouse),
        ..w
    }
}

/// A window after an abort that will be retried.
pub open spec fn with_retry_abort(w: WindowModel) -> WindowModel {
    WindowModel {
        physical_attempts: capped(w.physical_attempts, 1),
        retry_aborts: capped(w.retry_aborts, 1),
        ..w
    }
}

/// A window after an attempt that was given up in flight.
pub open spec fn with_abandoned(w: WindowModel) -> WindowModel {
    WindowModel {
        attempted: capped(w.attempted, 1),
        physical_attempts: capped(w.physical_attempts, 1),
        abandoned: capped(w.abandoned, 1),
        ..w
    }
}

/// A window after a pending retry was given up.
pub open spec fn with_retry_abandoned(w: WindowModel) -> WindowModel {
    WindowModel {
        attempted: capped(w.attempted, 1),
        abandoned: capped(w.abandoned, 1),
        retry_abandoned: capped(w.retry_abandoned, 1),
        ..w
    }
}

/// A window after a late terminal.
pub open spec fn with_grace_tail(w: WindowModel) -> WindowModel {
    WindowModel {
        physical_attempts: capped(w.physical_attempts, 1),
        grace_tail: capped(w.grace_tail, 1),
        ..w
    }
}

/// A window after a selection was stopped at the cutoff.
pub open spec fn with_cutoff_stop(w: WindowModel) -> WindowModel {
    WindowModel { cutoff_stopped: capped(w.cutoff_stopped, 1), ..w }
}

/// Every counted transaction has one ending, and every physical attempt one
/// result.
pub open spec fn consistent(w: WindowModel) -> bool {
    &&& w.attempted == w.committed + w.expected_rollbacks + w.abandoned
    &&& w.retry_abandoned <= w.abandoned
    &&& w.physical_attempts == w.committed + w.expected_rollbacks + w.retry_aborts + (w.abandoned
        - w.retry_abandoned) + w.grace_tail
}

/// No counter is at its maximum yet.
pub open spec fn has_room(w: WindowModel) -> bool {
    w.attempted < u64::MAX && w.physical_attempts < u64::MAX && w.committed < u64::MAX
        && w.expected_rollbacks < u64::MAX && w.retry_aborts < u64::MAX && w.abandoned < u64::MAX
        && w.retry_abandoned < u64::MAX && w.grace_tail < u64::MAX
}

/// Every way to account for an attempt keeps a window consistent, as long as
/// its counters have room.
pub proof fn law_accounting_stays_consistent(
    w: WindowModel,
    kind: TransactionType,
    warehouse: u16,
    latency: Duration,
    delivered: u64,
    offset: Option<Duration>,
)
    requires
        consistent(w),
        has_room(w),
    ensures
        consistent(with_commit(w, kind, warehouse, latency, delivered, offset)),
        consistent(with_expected_rollback(w, warehouse)),
        consistent(with_retry_abort(w)),
        consistent(with_abandoned(w)),
        consistent(with_retry_abandoned(w)),
        consistent(with_grace_tail(w)),
        consistent(with_cutoff_stop(w)),
{
}

/// A late terminal never enters the counted transactions.
pub proof fn law_grace_tail_is_not_counted(w: WindowModel)
    ensures
        with_grace_tail(w).attempted == w.attempted,
        with_grace_tail(w).committed == w.committed,
        completed_count(with_grace_tail(w)) == completed_count(w),
        with_grace_tail(w).warehouses == w.warehouses,
{
}

/// Committed transactions and expected rollbacks.
pub open spec fn completed_count(w: WindowModel) -> u64 {
    capped(w.committed, w.expected_rollbacks as int)
}

/// How many of the first `n` entries are set.
pub open spec fn set_count(flags: Seq<bool>, n: int) -> nat
    decreases n,
{
    if n <= 0 {
        0
    } else {
        set_count(flags, n - 1) + if flags[n - 1] {
            1nat
        } else {
            0nat
        }
    }
}

/// Whether every hot warehouse is covered.
pub open spec fn hot_covered(hot: Seq<u16>, warehouses: Seq<bool>) -> bool {
    forall|i: int| 0 <= i < hot.len() ==> 1 <= #[trigger] hot[i] <= warehouses.len() && warehouses[hot[i] - 1]
}

/// What a coverage gate compares.
#[derive(Debug, Clone, Copy, PartialEq, Eq, Structural)]
pub struct WindowGate {
    pub completed: u64,
    pub distinct_warehouses: u16,
    pub required_warehouses: u16,
    pub hot_required: bool,
    pub hot_covered: bool,
}

/// Coverage over all windows.
#[derive(Debug, Clone, Copy, PartialEq, Eq, Structural)]
pub struct CombinedCoverage {
    pub completed: u64,
    pub distinct_warehouses: u16,
    pub required_warehouses: u16,
    pub hot_required: bool,
    pub hot_covered: bool,
}

impl WindowGate {
    /// Something completed and the coverage requirement is met.
    pub open spec fn passes(self) -> bool {
        self.completed > 0 && self.distinct_warehouses >= self.required_warehouses && (
        self.hot_required ==> self.hot_covered)
    }

    pub fn passed(&self) -> (r: bool)
        ensures
            r == self.passes(),
    {
        self.completed > 0 && self.distinct_warehouses >= self.required_warehouses && (
        !self.hot_required || self.hot_covered)
    }
}

impl CombinedCoverage {
    /// The coverage requirement is met.
    pub open spec fn passes(self) -> bool {
        self.distinct_warehouses >= self.required_warehouses && (self.hot_required
            ==> self.hot_covered)
    }

    pub fn passed(&self) -> (r: bool)
        ensures
            r == self.passes(),
    {
        self.distinct_warehouses >= self.required_warehouses && (!self.hot_required
            || self.hot_covered)
    }
}

/// What a window must cover, and what it covers.
pub open spec fn window_gate(w: WindowModel) -> WindowGate {
    let need = coverage_for(CoverageScope::MeasurementWindow, completed_count(w) as int);
    WindowGate {
        completed: completed_count(w),
        distinct_warehouses: set_count(w.warehouses, w.warehouses.len() as int) as u16,
        required_warehouses: need.minimum_distinct_warehouses,
        hot_required: need.require_all_hot_warehouses,
        hot_covered: hot_covered(w.hot_warehouses, w.warehouses),
    }
}

proof fn lemma_set_count_bound(flags: Seq<bool>, n: int)
    requires
        0 <= n,
    ensures
        set_count(flags, n) <= n,
    decreases n,
{
    if n > 0 {
        lemma_set_count_bound(flags, n - 1);
    }
}

fn count_set(flags: &Vec<bool>) -> (r: u16)
    requires
        flags@.len() <= 50,
    ensures
        r == set_count(flags@, flags@.len() as int),
{
    let mut n: u16 = 0;
    let mut i: usize = 0;
    while i < flags.len()
        invariant
            i <= flags.len() <= 50,
            n <= i,
            n == set_count(flags@, i as int),
        decreases flags.len() - i,
    {
        if flags[i] {
            n = n + 1;
        }
        i = i + 1;
    }
    n
}

fn all_hot_covered(hot: &[u16; 4], warehouses: &Vec<bool>) -> (r: bool)
    ensures
        r == hot_covered(hot@, warehouses@),
{
    let mut i: usize = 0;
    while i < 4
        invariant
            i <= 4,
            hot@.len() == 4,
            forall|k: int|
                0 <= k < i ==> 1 <= #[trigger] hot@[k] <= warehouses@.len() && warehouses@[hot@[k]
                    - 1],
        decreases 4 - i,
    {
        let warehouse: usize = hot[i] as usize;
        if warehouse < 1 || warehouse > warehouses.len() || !warehouses[warehouse - 1] {
            assert(hot@[i as int] == warehouse);
            return false;
        }
        i = i + 1;
    }
    true
}

impl WindowStats {
    pub fn new(hot_warehouses: [u16; 4]) -> (r: Self)
        ensures
            r@ == empty_window(hot_warehouses@),
            window_shaped(r@),
    {
        let mut buckets: Vec<u64> = Vec::new();
        let mut i: usize = 0;
        while i < STABILITY_BUCKET_COUNT
            invariant
                i <= 30,
                buckets@ == Seq::new(i as nat, |k: int| 0u64),
            decreases 30 - i,
        {
            buckets.push(0);
            i = i + 1;
        }
        let mut warehouses: Vec<bool> = Vec::new();
        let mut j: usize = 0;
        while j < OFFICIAL_WAREHOUSE_COUNT
            invariant
                j <= 50,
                warehouses@ == Seq::new(j as nat, |k: int| false),
            decreases 50 - j,
        {
            warehouses.push(false);
            j = j + 1;
        }
        WindowStats {
            hot_warehouses,
            attempted: 0,
            physical_attempts: 0,
            committed: 0,
            expected_rollbacks: 0,
            retry_aborts: 0,
            abandoned: 0,
            retry_abandoned: 0,
            cutoff_stopped: 0,
            grace_tail: 0,
            delivered_orders: 0,
            slowest_commit: Duration::zero(),
            new_order_stability_buckets: buckets,
            warehouses,
        }
    }

    fn cover(&mut self, warehouse: u16)
        ensures
            final(self)@ == (WindowModel {
                warehouses: covered(old(self)@.warehouses, warehouse),
                ..old(self)@
            }),
    {
        let slot: usize = warehouse as usize;
        if slot >= 1 && slot <= self.warehouses.len() {
            self.warehouses.set(slot - 1, true);
        }
    }

    pub fn record_commit_at_offset(
        &mut self,
        kind: TransactionType,
        warehouse: u16,
        latency: Duration,
        delivered: u64,
        offset: Option<Duration>,
    )
        requires
            window_shaped(old(self)@),
        ensures
            final(self)@ == with_commit(
                old(self)@,
                kind,
                warehouse,
                latency,
                delivered,
                offset,
            ),
            window_shaped(final(self)@),
    {
        self.attempted = capped_add(self.attempted, 1);
        self.physical_attempts = capped_add(self.physical_attempts, 1);
        self.committed = capped_add(self.committed, 1);
        self.delivered_orders = capped_add(self.delivered_orders, delivered);
        if latency.nanos > self.slowest_commit.nanos {
            self.slowest_commit = latency;
        }
        if kind == TransactionType::NewOrder {
            if let Some(at) = offset {
                let bucket: u128 = at.nanos / STABILITY_BUCKET_NANOS;
                if bucket < 30 {
                    let slot: usize = bucket as usize;
                    let count: u64 = capped_add(self.new_order_stability_buckets[slot], 1);
                    self.new_order_stability_buckets.set(slot, count);
                }
            }
        }
        self.cover(warehouse);
    }

    pub fn record_expected_rollback(&mut self, warehouse: u16)
        ensures
            final(self)@ == with_expected_rollback(old(self)@, warehouse),
            window_shaped(old(self)@) ==> window_shaped(final(self)@),
    {
        self.attempted = capped_add(self.attempted, 1);
        self.physical_attempts = capped_add(self.physical_attempts, 1);
        self.expected_rollbacks = capped_add(self.expected_rollbacks, 1);
        self.cover(warehouse);
    }

    pub fn record_retry_abort(&mut self)
        ensures
            final(self)@ == with_retry_abort(old(self)@),
    {
        self.physical_attempts = capped_add(self.physical_attempts, 1);
        self.retry_aborts = capped_add(self.retry_aborts, 1);
    }

    pub fn record_abandoned(&mut self)
        ensures
            final(self)@ == with_abandoned(old(self)@),
    {
        self.attempted = capped_add(self.attempted, 1);
        self.physical_attempts = capped_add(self.physical_attempts, 1);
        self.abandoned = capped_add(self.abandoned, 1);
    }

    pub fn record_retry_abandoned(&mut self)
        ensures
            final(self)@ == with_retry_abandoned(old(self)@),
    {
        self.attempted = capped_add(self.attempted, 1);
        self.abandoned = capped_add(self.abandoned, 1);
        self.retry_abandoned = capped_add(self.retry_abandoned, 1);
    }

    pub fn record_grace_tail(&mut self)
        ensures
            final(self)@ == with_grace_tail(old(self)@),
    {
        self.physical_attempts = capped_add(self.physical_attempts, 1);
        self.grace_tail = capped_add(self.grace_tail, 1);
    }

    pub fn record_cutoff_stop(&mut self)
        ensures
            final(self)@ == with_cutoff_stop(old(self)@),
    {
        self.cutoff_stopped = capped_add(self.cutoff_stopped, 1);
    }

    pub fn completed(&self) -> (r: u64)
        ensures
            r == completed_count(self@),
    {
        capped_add(self.committed, self.expected_rollbacks)
    }

    pub fn accounting_is_consistent(&self) -> (r: bool)
        ensures
            r == consistent(self@),
    {
        let endings: u128 = self.committed as u128 + self.expected_rollbacks as u128
            + self.abandoned as u128;
        if self.attempted as u128 != endings || self.retry_abandoned > self.abandoned {
            return false;
        }
        let results: u128 = self.committed as u128 + self.expected_rollbacks as u128
            + self.retry_aborts as u128 + (self.abandoned - self.retry_abandoned) as u128
            + self.grace_tail as u128;
        self.physical_attempts as u128 == results
    }

    pub fn gate(&self) -> (r: WindowGate)
        requires
            window_shaped(self@),
        ensures
            r == window_gate(self@),
    {
        let completed: u64 = self.completed();
        let need = coverage_requirement(CoverageScope::MeasurementWindow, completed);
        WindowGate {
            completed,
            distinct_warehouses: count_set(&self.warehouses),
            required_warehouses: need.minimum_distinct_warehouses,
            hot_required: need.require_all_hot_warehouses,
            hot_covered: all_hot_covered(&self.hot_warehouses, &self.warehouses),
        }
    }
}

/// The ranked result of a run.
#[derive(Debug, Clone, PartialEq, Eq)]
pub struct MeasurementSummary {
    pub window_gates: Vec<WindowGate>,
    pub combined_coverage: CombinedCoverage,
}

/// The contents of a list of windows.
pub open spec fn window_models(windows: Seq<WindowStats>) -> Seq<WindowModel> {
    Seq::new(windows.len(), |i: int| windows[i]@)
}

/// Completed transactions of the first `n` windows.
pub open spec fn total_completed(windows: Seq<WindowModel>, n: int) -> u64
    decreases n,
{
    if n <= 0 {
        0
    } else {
        capped(total_completed(windows, n - 1), completed_count(windows[n - 1]) as int)
    }
}

/// Warehouses covered in any of the windows.
pub open spec fn any_covered(windows: Seq<WindowModel>) -> Seq<bool> {
    Seq::new(
        50,
        |p: int|
            exists|i: int| 0 <= i < windows.len() && (#[trigger] windows[i]).warehouses[p],
    )
}

/// Coverage over all windows.
pub open spec fn combined(windows: Seq<WindowModel>) -> CombinedCoverage {
    let completed = total_completed(windows, windows.len() as int);
    let need = coverage_for(CoverageScope::CombinedWindows, completed as int);
    CombinedCoverage {
        completed,
        distinct_warehouses: set_count(any_covered(windows), 50) as u16,
        required_warehouses: need.minimum_distinct_warehouses,
        hot_required: need.require_all_hot_warehouses,
        hot_covered: hot_covered(windows[0].hot_warehouses, any_covered(windows)),
    }
}

fn covered_anywhere(windows: &Vec<WindowStats>, p: usize) -> (r: bool)
    requires
        p < 50,
        forall|i: int| 0 <= i < windows@.len() ==> window_shaped((#[trigger] windows@[i])@),
    ensures
        r == any_covered(window_models(windows@))[p as int],
{
    let ghost models = window_models(windows@);
    let mut i: usize = 0;
    while i < windows.len()
        invariant
            i <= windows.len(),
            p < 50,
            models == window_models(windows@),
            forall|k: int| 0 <= k < windows@.len() ==> window_shaped((#[trigger] windows@[k])@),
            forall|k: int| 0 <= k < i ==> !(#[trigger] models[k]).warehouses[p as int],
        decreases windows.len() - i,
    {
        assert(window_shaped(windows@[i as int]@));
        assert(models[i as int] == windows@[i as int]@);
        if windows[i].warehouses[p] {
            return true;
        }
        i = i + 1;
    }
    false
}

impl MeasurementSummary {
    pub fn from_windows(windows: &Vec<WindowStats>) -> (r: Self)
        requires
            windows@.len() == 3,
            forall|i: int| 0 <= i < windows@.len() ==> window_shaped((#[trigger] windows@[i])@),
        ensures
            r.window_gates@ == Seq::new(3, |i: int| window_gate(windows@[i]@)),
            r.combined_coverage == combined(window_models(windows@)),
    {
        let ghost models = window_models(windows@);
        let mut window_gates: Vec<WindowGate> = Vec::new();
        let mut completed: u64 = 0;
        let mut i: usize = 0;
        while i < windows.len()
            invariant
                i <= windows.len() == 3,
                models == window_models(windows@),
                forall|k: int| 0 <= k < windows@.len() ==> window_shaped((#[trigger] windows@[k])@),
                window_gates@ == Seq::new(i as nat, |k: int| window_gate(windows@[k]@)),
                completed == total_completed(models, i as int),
            decreases windows.len() - i,
        {
            assert(window_shaped(windows@[i as int]@));
            window_gates.push(windows[i].gate());
            completed = capped_add(completed, windows[i].completed());
            i = i + 1;
        }
        let mut union: Vec<bool> = Vec::new();
        let mut p: usize = 0;
        while p < OFFICIAL_WAREHOUSE_COUNT
            invariant
                p <= 50,
                models == window_models(windows@),
                forall|k: int| 0 <= k < windows@.len() ==> window_shaped((#[trigger] windows@[k])@),
                union@ == any_covered(models).subrange(0, p as int),
            decreases 50 - p,
        {
            union.push(covered_anywhere(windows, p));
            assert(union@ =~= any_covered(models).subrange(0, p as int + 1));
            p = p + 1;
        }
        assert(union@ =~= any_covered(models));
        let need = coverage_requirement(CoverageScope::CombinedWindows, completed);
        MeasurementSummary {
            window_gates,
            combined_coverage: CombinedCoverage {
                completed,
                distinct_warehouses: count_set(&union),
                required_warehouses: need.minimum_distinct_warehouses,
                hot_required: need.require_all_hot_warehouses,
                hot_covered: all_hot_covered(&windows[0].hot_warehouses, &union),
            },
        }
    }
}

} // verus!
