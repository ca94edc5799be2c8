//! The account of a window says what happened in it.
use vstd::prelude::*;
use vstd::set_lib::*;

use crate::measurement::{
    WindowModel, any_covered, combined, empty_window, set_count, total_completed, window_gate,
    window_shaped, with_abandoned, with_commit, with_cutoff_stop, with_expected_rollback,
    with_grace_tail, with_retry_abandoned, with_retry_abort,
};
use crate::time::Duration;
use crate::transaction::TransactionType;

verus! {

/// What a window is told.
pub enum WindowEvent {
    Commit {
        kind: TransactionType,
        warehouse: u16,
        latency: Duration,
        delivered: u64,
        offset: Option<Duration>,
    },
    ExpectedRollback { warehouse: u16 },
    RetryAbort,
    Abandoned,
    RetryAbandoned,
    GraceTail,
    CutoffStop,
}

/// A window after one event.
pub open spec fn told(w: WindowModel, e: WindowEvent) -> WindowModel {
    match e {
        WindowEvent::Commit { kind, warehouse, latency, delivered, offset } => with_commit(
            w,
            kind,
            warehouse,
            latency,
            delivered,
            offset,
        ),
        WindowEvent::ExpectedRollback { warehouse } => with_expected_rollback(w, warehouse),
        WindowEvent::RetryAbort => with_retry_abort(w),
        WindowEvent::Abandoned => with_abandoned(w),
        WindowEvent::RetryAbandoned => with_retry_abandoned(w),
        WindowEvent::GraceTail => with_grace_tail(w),
        WindowEvent::CutoffStop => with_cutoff_stop(w),
    }
}

/// A window after the first `n` events.
pub open spec fn told_all(hot: Seq<u16>, events: Seq<WindowEvent>, n: int) -> WindowModel
    decreases n,
{
    if n <= 0 {
        empty_window(hot)
    } else {
        told(told_all(hot, events, n - 1), events[n - 1])
    }
}

/// How many of the first `n` events are of a kind.
pub open spec fn tally(
    events: Seq<WindowEvent>,
    n: int,
    kind: spec_fn(WindowEvent) -> bool,
) -> nat
    decreases n,
{
    if n <= 0 {
        0
    } else {
        tally(events, n - 1, kind) + if kind(events[n - 1]) {
            1nat
        } else {
            0nat
        }
    }
}

/// The warehouse of a transaction that was completed: committed, or rolled back as it
/// was expected to be.
pub open spec fn completed_at(e: WindowEvent) -> Option<int> {
    match e {
        WindowEvent::Commit { warehouse, .. } => Some(warehouse as int),
        WindowEvent::ExpectedRollback { warehouse } => Some(warehouse as int),
        _ => None,
    }
}

/// The home warehouses of the transactions that were completed.
pub open spec fn home_warehouses(events: Seq<WindowEvent>, n: int) -> Set<int> {
    Set::new(
        |h: int|
            exists|i: int| 0 <= i < n && completed_at(#[trigger] events[i]) == Some(h),
    )
}

/// Orders delivered by the commits among the first `n` events.
pub open spec fn delivered_sum(events: Seq<WindowEvent>, n: int) -> nat
    decreases n,
{
    if n <= 0 {
        0
    } else {
        delivered_sum(events, n - 1) + match events[n - 1] {
            WindowEvent::Commit { delivered, .. } => delivered as nat,
            _ => 0nat,
        }
    }
}

/// The warehouses that a window has covered.
pub open spec fn covered_set(w: WindowModel) -> Set<int> {
    Set::new(|h: int| 1 <= h <= 50 && w.warehouses[h - 1])
}

/// Law: a completed transaction covers its home warehouse. After a commit or an
/// expected rollback the covered warehouses are those before and that one; nothing
/// else covers one.
pub proof fn law_completion_covers_its_warehouse(w: WindowModel, e: WindowEvent)
    requires
        window_shaped(w),
    ensures
        window_shaped(told(w, e)),
        told(w, e).hot_warehouses == w.hot_warehouses,
        match completed_at(e) {
            Some(h) => if 1 <= h <= 50 {
                covered_set(told(w, e)) == covered_set(w).insert(h)
            } else {
                covered_set(told(w, e)) == covered_set(w)
            },
            None => covered_set(told(w, e)) == covered_set(w),
        },
{
    match completed_at(e) {
        Some(h) => {
            if 1 <= h <= 50 {
                assert(covered_set(told(w, e)) =~= covered_set(w).insert(h));
            } else {
                assert(covered_set(told(w, e)) =~= covered_set(w));
            }
        },
        None => {
            assert(covered_set(told(w, e)) =~= covered_set(w));
        },
    }
}

/// Whether every completed transaction has one of the fifty warehouses.
pub open spec fn at_home(events: Seq<WindowEvent>) -> bool {
    forall|i: int|
        0 <= i < events.len() ==> (completed_at(#[trigger] events[i]) matches Some(h) ==> 1 <= h
            <= 50)
}

proof fn lemma_covered(hot: Seq<u16>, events: Seq<WindowEvent>, n: int)
    requires
        hot.len() == 4,
        0 <= n <= events.len(),
        at_home(events),
    ensures
        window_shaped(told_all(hot, events, n)),
        told_all(hot, events, n).hot_warehouses == hot,
        covered_set(told_all(hot, events, n)) == home_warehouses(events, n),
    decreases n,
{
    let w = told_all(hot, events, n);
    if n > 0 {
        lemma_covered(hot, events, n - 1);
        let before = told_all(hot, events, n - 1);
        let e = events[n - 1];
        law_completion_covers_its_warehouse(before, e);
        assert forall|h: int| home_warehouses(events, n).contains(h) <==> covered_set(w).contains(
            h,
        ) by {
            if home_warehouses(events, n).contains(h) {
                let i = choose|i: int|
                    0 <= i < n && completed_at(#[trigger] events[i]) == Some(h);
                if i < n - 1 {
                    assert(home_warehouses(events, n - 1).contains(h));
                }
            }
            if covered_set(w).contains(h) {
                if completed_at(e) == Some(h) {
                    assert(completed_at(events[n - 1]) == Some(h));
                } else {
                    assert(home_warehouses(events, n - 1).contains(h));
                }
            }
        }
    }
    assert(covered_set(w) =~= home_warehouses(events, n));
}

/// A count of flags is the size of the set that they mark.
proof fn lemma_flags(flags: Seq<bool>, n: int)
    requires
        0 <= n <= flags.len(),
    ensures
        ({
            let marked = Set::new(|h: int| 1 <= h <= n && flags[h - 1]);
            &&& marked.finite()
            &&& marked.len() == set_count(flags, n)
        }),
    decreases n,
{
    let marked = Set::new(|h: int| 1 <= h <= n && flags[h - 1]);
    if n > 0 {
        lemma_flags(flags, n - 1);
        let before = Set::new(|h: int| 1 <= h <= n - 1 && flags[h - 1]);
        if flags[n - 1] {
            assert(marked =~= before.insert(n));
        } else {
            assert(marked =~= before);
        }
    } else {
        assert(marked =~= Set::empty());
    }
}

proof fn lemma_flags_bound(flags: Seq<bool>, n: int)
    requires
        0 <= n,
    ensures
        set_count(flags, n) <= n,
    decreases n,
{
    if n > 0 {
        lemma_flags_bound(flags, n - 1);
    }
}

/// Whether an event is a commit.
pub open spec fn is_commit(e: WindowEvent) -> bool {
    e is Commit
}

/// Whether an event completes a transaction.
pub open spec fn is_completion(e: WindowEvent) -> bool {
    completed_at(e) is Some
}

/// Whether an event counts as a transaction of the window.
pub open spec fn is_counted(e: WindowEvent) -> bool {
    is_completion(e) || e is Abandoned || e is RetryAbandoned
}

/// Whether an event is the result of an attempt that reached the server.
pub open spec fn is_attempt(e: WindowEvent) -> bool {
    is_completion(e) || e is RetryAbort || e is Abandoned || e is GraceTail
}

/// Whether an event is a committed NewOrder in one of the stability buckets.
pub open spec fn in_bucket(e: WindowEvent, b: int) -> bool {
    e matches WindowEvent::Commit { kind, offset, .. } && kind == TransactionType::NewOrder && (
    offset matches Some(at) && at.nanos as int / 5_000_000_000 == b)
}

/// The counters of a window are what they count.
pub open spec fn counters_tell(w: WindowModel, events: Seq<WindowEvent>, n: int) -> bool {
    &&& w.committed == tally(events, n, |e: WindowEvent| is_commit(e))
    &&& w.expected_rollbacks == tally(events, n, |e: WindowEvent| e is ExpectedRollback)
    &&& w.retry_aborts == tally(events, n, |e: WindowEvent| e is RetryAbort)
    &&& w.abandoned == tally(
        events,
        n,
        |e: WindowEvent| e is Abandoned || e is RetryAbandoned,
    )
    &&& w.retry_abandoned == tally(events, n, |e: WindowEvent| e is RetryAbandoned)
    &&& w.grace_tail == tally(events, n, |e: WindowEvent| e is GraceTail)
    &&& w.cutoff_stopped == tally(events, n, |e: WindowEvent| e is CutoffStop)
    &&& w.attempted == tally(events, n, |e: WindowEvent| is_counted(e))
    &&& w.physical_attempts == tally(events, n, |e: WindowEvent| is_attempt(e))
}

proof fn lemma_tally_bound(
    events: Seq<WindowEvent>,
    n: int,
    kind: spec_fn(WindowEvent) -> bool,
)
    requires
        0 <= n,
    ensures
        tally(events, n, kind) <= n,
    decreases n,
{
    if n > 0 {
        lemma_tally_bound(events, n - 1, kind);
    }
}

proof fn lemma_counters(hot: Seq<u16>, events: Seq<WindowEvent>, n: int)
    requires
        0 <= n <= events.len(),
        events.len() < u64::MAX,
    ensures
        counters_tell(told_all(hot, events, n), events, n),
    decreases n,
{
    if n > 0 {
        lemma_counters(hot, events, n - 1);
        lemma_tally_bound(events, n - 1, |e: WindowEvent| is_commit(e));
        lemma_tally_bound(events, n - 1, |e: WindowEvent| e is ExpectedRollback);
        lemma_tally_bound(events, n - 1, |e: WindowEvent| e is RetryAbort);
        lemma_tally_bound(
            events,
            n - 1,
            |e: WindowEvent| e is Abandoned || e is RetryAbandoned,
        );
        lemma_tally_bound(events, n - 1, |e: WindowEvent| e is RetryAbandoned);
        lemma_tally_bound(events, n - 1, |e: WindowEvent| e is GraceTail);
        lemma_tally_bound(events, n - 1, |e: WindowEvent| e is CutoffStop);
        lemma_tally_bound(events, n - 1, |e: WindowEvent| is_counted(e));
        lemma_tally_bound(events, n - 1, |e: WindowEvent| is_attempt(e));
    }
}

proof fn lemma_completed(events: Seq<WindowEvent>, n: int)
    requires
        0 <= n,
    ensures
        tally(events, n, |e: WindowEvent| is_completion(e)) == tally(
            events,
            n,
            |e: WindowEvent| is_commit(e),
        ) + tally(events, n, |e: WindowEvent| e is ExpectedRollback),
    decreases n,
{
    if n > 0 {
        lemma_completed(events, n - 1);
    }
}

/// Law: every counter of a window is the number of the events that it counts.
pub proof fn law_counters_count_their_events(hot: Seq<u16>, events: Seq<WindowEvent>)
    requires
        events.len() < u64::MAX,
    ensures
        counters_tell(
            told_all(hot, events, events.len() as int),
            events,
            events.len() as int,
        ),
{
    lemma_counters(hot, events, events.len() as int);
}

/// Law: a window's coverage says what was completed in it and where. It counts the
/// commits and the expected rollbacks; its distinct warehouses are as many as the
/// different home warehouses of these; and the hot warehouses are covered exactly if
/// each is one of them.
pub proof fn law_gate_tells_what_was_completed(hot: Seq<u16>, events: Seq<WindowEvent>)
    requires
        hot.len() == 4,
        at_home(events),
        events.len() < u64::MAX,
    ensures
        ({
            let n = events.len() as int;
            let gate = window_gate(told_all(hot, events, n));
            let homes = home_warehouses(events, n);
            &&& homes.finite()
            &&& gate.completed == tally(events, n, |e: WindowEvent| is_completion(e))
            &&& gate.distinct_warehouses == homes.len()
            &&& gate.hot_covered <==> forall|i: int|
                0 <= i < 4 ==> homes.contains(#[trigger] hot[i] as int)
        }),
{
    let n = events.len() as int;
    let w = told_all(hot, events, n);
    lemma_covered(hot, events, n);
    lemma_counters(hot, events, n);
    lemma_completed(events, n);
    lemma_tally_bound(events, n, |e: WindowEvent| is_completion(e));
    lemma_flags(w.warehouses, 50);
    lemma_flags_bound(w.warehouses, 50);
    assert(Set::new(|h: int| 1 <= h <= 50 && w.warehouses[h - 1]) =~= covered_set(w));
    assert forall|i: int| 0 <= i < 4 implies (covered_set(w).contains(#[trigger] hot[i] as int)
        <==> 1 <= hot[i] <= 50 && w.warehouses[hot[i] - 1]) by {}
}

/// Law: a window sums the delivered orders and keeps the slowest commit and, for each
/// five seconds of it, the number of NewOrders committed in them.
pub proof fn law_window_details(hot: Seq<u16>, events: Seq<WindowEvent>, n: int)
    requires
        0 <= n <= events.len(),
        events.len() < u64::MAX,
    ensures
        ({
            let w = told_all(hot, events, n);
            &&& delivered_sum(events, n) <= u64::MAX ==> w.delivered_orders == delivered_sum(
                events,
                n,
            )
            &&& forall|i: int|
                0 <= i < n && (#[trigger] events[i]) is Commit ==> events[i]->latency.nanos
                    <= w.slowest_commit.nanos
            &&& w.slowest_commit.nanos == 0 || exists|i: int|
                0 <= i < n && (#[trigger] events[i]) is Commit && events[i]->latency
                    == w.slowest_commit
            &&& w.buckets.len() == 30
            &&& forall|b: int|
                0 <= b < 30 ==> #[trigger] w.buckets[b] == tally(
                    events,
                    n,
                    |e: WindowEvent| in_bucket(e, b),
                )
        }),
    decreases n,
{
    if n > 0 {
        law_window_details(hot, events, n - 1);
        let before = told_all(hot, events, n - 1);
        let w = told_all(hot, events, n);
        let e = events[n - 1];
        assert forall|b: int| 0 <= b < 30 implies #[trigger] w.buckets[b] == tally(
            events,
            n,
            |e: WindowEvent| in_bucket(e, b),
        ) by {
            assert(before.buckets[b] == tally(events, n - 1, |e: WindowEvent| in_bucket(e, b)));
            lemma_tally_bound(events, n - 1, |e: WindowEvent| in_bucket(e, b));
        }
        if w.slowest_commit.nanos != 0 {
            if w.slowest_commit == before.slowest_commit && before.slowest_commit.nanos != 0 {
                let i = choose|i: int|
                    0 <= i < n - 1 && (#[trigger] events[i]) is Commit && events[i]->latency
                        == before.slowest_commit;
                assert(events[i] is Commit);
            } else {
                assert(events[n - 1] is Commit);
            }
        }
    }
}

/// Whether `required` and `hot` are asked of `samples` completed transactions where `full`
/// warehouses are asked of four hundred or more: the least number of warehouses in
/// proportion, and the hot ones from four hundred on.
pub open spec fn asked_of(samples: int, full: int, required: u16, hot: bool) -> bool {
    &&& hot <==> samples >= 400
    &&& if samples >= 400 {
        required == full
    } else {
        required * 400 >= full * samples && (required - 1) * 400 < full * samples
    }
}

/// Law: a window's coverage counts the warehouses that it has seen and asks for 45 of
/// them; it is enough exactly if something was completed, enough warehouses are covered and,
/// from four hundred transactions on, every hot one is.
pub proof fn law_gate_of_a_window(w: WindowModel)
    requires
        window_shaped(w),
        w.committed + w.expected_rollbacks <= u64::MAX,
    ensures
        ({
            let gate = window_gate(w);
            let done = w.committed + w.expected_rollbacks;
            let homes = covered_set(w);
            let hot = forall|i: int|
                0 <= i < w.hot_warehouses.len() ==> homes.contains(
                    #[trigger] w.hot_warehouses[i] as int,
                );
            &&& homes.finite()
            &&& gate.completed == done
            &&& gate.distinct_warehouses == homes.len()
            &&& gate.hot_covered == hot
            &&& asked_of(done, 45, gate.required_warehouses, gate.hot_required)
            &&& gate.passes() <==> done > 0 && homes.len() >= gate.required_warehouses && (done
                >= 400 ==> hot)
        }),
{
    lemma_flags(w.warehouses, 50);
    lemma_flags_bound(w.warehouses, 50);
    assert(Set::new(|h: int| 1 <= h <= 50 && w.warehouses[h - 1]) =~= covered_set(w));
    assert forall|i: int| 0 <= i < w.hot_warehouses.len() implies (covered_set(w).contains(
        #[trigger] w.hot_warehouses[i] as int,
    ) <==> 1 <= w.hot_warehouses[i] <= 50 && w.warehouses[w.hot_warehouses[i] - 1]) by {}
}

/// Law: the combined coverage counts what was completed in the three windows together and
/// the warehouses that any of them has covered, and asks for all 50.
pub proof fn law_combined_coverage(windows: Seq<WindowModel>)
    requires
        windows.len() == 3,
        forall|i: int| 0 <= i < 3 ==> window_shaped(#[trigger] windows[i]),
        windows[0].committed + windows[0].expected_rollbacks + windows[1].committed
            + windows[1].expected_rollbacks + windows[2].committed + windows[2].expected_rollbacks
            <= u64::MAX,
    ensures
        ({
            let all = combined(windows);
            let done = windows[0].committed + windows[0].expected_rollbacks + windows[1].committed
                + windows[1].expected_rollbacks + windows[2].committed
                + windows[2].expected_rollbacks;
            let homes = covered_set(windows[0]).union(covered_set(windows[1])).union(
                covered_set(windows[2]),
            );
            let hot = forall|i: int|
                0 <= i < windows[0].hot_warehouses.len() ==> homes.contains(
                    #[trigger] windows[0].hot_warehouses[i] as int,
                );
            &&& homes.finite()
            &&& all.completed == done
            &&& all.distinct_warehouses == homes.len()
            &&& all.hot_covered == hot
            &&& asked_of(done, 50, all.required_warehouses, all.hot_required)
            &&& all.passes() <==> homes.len() >= all.required_warehouses && (done >= 400 ==> hot)
        }),
{
    let flags = any_covered(windows);
    let homes = covered_set(windows[0]).union(covered_set(windows[1])).union(
        covered_set(windows[2]),
    );
    reveal_with_fuel(total_completed, 4);
    lemma_flags(flags, 50);
    lemma_flags_bound(flags, 50);
    assert forall|h: int| homes.contains(h) <==> 1 <= h <= 50 && flags[h - 1] by {
        assert(window_shaped(windows[0]) && window_shaped(windows[1]) && window_shaped(windows[2]));
        if 1 <= h <= 50 && flags[h - 1] {
            let i = choose|i: int|
                0 <= i < windows.len() && (#[trigger] windows[i]).warehouses[h - 1];
            assert(covered_set(windows[i]).contains(h));
        }
    }
    assert(Set::new(|h: int| 1 <= h <= 50 && flags[h - 1]) =~= homes);
    let hot = windows[0].hot_warehouses;
    assert forall|i: int| 0 <= i < hot.len() implies (homes.contains(#[trigger] hot[i] as int)
        <==> 1 <= hot[i] <= 50 && flags[hot[i] - 1]) by {}
}

} // verus!
