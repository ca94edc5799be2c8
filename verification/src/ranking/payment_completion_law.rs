//! Payments that have a serial order are sealed.
use vstd::prelude::*;
use vstd::set_lib::{lemma_int_range, lemma_subset_equality, set_int_range};

use crate::ranking::payment_endpoints::{
    BufferedTerminal, EndpointChain, PaymentChains, PaymentTerminalEvidence, advanced, buffered,
    chain_sound, enqueued, extended, first_minimal, fresh_payments, is_loop, is_minimal,
    lemma_advanced_sound, lemma_enqueued_sound, lemma_first_minimal, lemma_fresh_payments_sound,
    payment_collector_sound, payment_config_fault, payment_record_fault, payment_seal_fault,
    payments_drained, payments_sound, swap_removed, terminal_sound,
};
use crate::ranking::payment_order_law::payments_fed;
use crate::ranking::payment_serial_law::{arranges, lemma_walked_prefix, walked};

verus! {

/// Every Payment of a list is sound by itself.
pub open spec fn all_sound(warehouses: u16, list: Seq<PaymentTerminalEvidence>) -> bool {
    forall|i: int|
        0 <= i < list.len() ==> terminal_sound(warehouses, buffered(#[trigger] list[i]))
}

/// Places in a list.
pub open spec fn places(seq: Seq<int>, list: Seq<PaymentTerminalEvidence>) -> bool {
    forall|i: int| 0 <= i < seq.len() ==> 0 <= #[trigger] seq[i] < list.len()
}

/// Where both rows of every Payment end after `n` steps of a walk.
pub open spec fn walk_state(
    m: PaymentChains,
    list: Seq<PaymentTerminalEvidence>,
    seq: Seq<int>,
    n: int,
) -> (Seq<EndpointChain>, Seq<EndpointChain>) {
    walked(m, list, seq, n)->0
}

/// What a walk reaches later lies nowhere behind what it reached before.
pub proof fn lemma_between(
    m: PaymentChains,
    list: Seq<PaymentTerminalEvidence>,
    seq: Seq<int>,
    i: int,
    j: int,
)
    requires
        payments_sound(m),
        all_sound(m.warehouses, list),
        places(seq, list),
        0 <= i <= j <= seq.len(),
        walked(m, list, seq, j) is Some,
    ensures
        walked(m, list, seq, i) is Some,
        walk_state(m, list, seq, i).0.len() == m.warehouses,
        walk_state(m, list, seq, i).1.len() == 10 * m.warehouses,
        walk_state(m, list, seq, j).0.len() == m.warehouses,
        walk_state(m, list, seq, j).1.len() == 10 * m.warehouses,
        forall|w: int|
            0 <= w < m.warehouses ==> (#[trigger] walk_state(m, list, seq, i).0[w]).endpoint_bits
                <= walk_state(m, list, seq, j).0[w].endpoint_bits,
        forall|d: int|
            0 <= d < 10 * m.warehouses ==> (#[trigger] walk_state(
                m,
                list,
                seq,
                i,
            ).1[d]).endpoint_bits <= walk_state(m, list, seq, j).1[d].endpoint_bits,
    decreases j,
{
    if j > 0 {
        if i < j {
            lemma_between(m, list, seq, i, j - 1);
        } else {
            lemma_between(m, list, seq, i - 1, j - 1);
        }
        let x = list[seq[j - 1]];
        assert(terminal_sound(m.warehouses, buffered(x)));
        let before = walk_state(m, list, seq, j - 1);
        let after = walk_state(m, list, seq, j);
        assert forall|w: int| 0 <= w < m.warehouses implies (
        #[trigger] before.0[w]).endpoint_bits <= after.0[w].endpoint_bits by {}
        assert forall|d: int| 0 <= d < 10 * m.warehouses implies (
        #[trigger] before.1[d]).endpoint_bits <= after.1[d].endpoint_bits by {}
        if i < j {
            assert forall|w: int| 0 <= w < m.warehouses implies (#[trigger] walk_state(
                m,
                list,
                seq,
                i,
            ).0[w]).endpoint_bits <= after.0[w].endpoint_bits by {
                assert(before.0[w].endpoint_bits <= after.0[w].endpoint_bits);
            }
            assert forall|d: int| 0 <= d < 10 * m.warehouses implies (#[trigger] walk_state(
                m,
                list,
                seq,
                i,
            ).1[d]).endpoint_bits <= after.1[d].endpoint_bits by {
                assert(before.1[d].endpoint_bits <= after.1[d].endpoint_bits);
            }
        }
    }
}

/// A walk depends on the chains alone.
proof fn lemma_same_chains(
    a: PaymentChains,
    b: PaymentChains,
    list: Seq<PaymentTerminalEvidence>,
    seq: Seq<int>,
    n: int,
)
    requires
        a.warehouse_chains == b.warehouse_chains,
        a.district_chains == b.district_chains,
    ensures
        walked(a, list, seq, n) == walked(b, list, seq, n),
    decreases n,
{
    if n > 0 {
        lemma_same_chains(a, b, list, seq, n - 1);
    }
}

/// Walks that agree somewhere agree on what follows.
proof fn lemma_same_suffix(
    m: PaymentChains,
    list: Seq<PaymentTerminalEvidence>,
    a: Seq<int>,
    b: Seq<int>,
    i: int,
    n: int,
)
    requires
        0 <= i <= n,
        walked(m, list, a, i) == walked(m, list, b, i),
        forall|k: int| i <= k < n ==> a[k] == b[k],
    ensures
        walked(m, list, a, n) == walked(m, list, b, n),
    decreases n - i,
{
    if i < n {
        lemma_same_suffix(m, list, a, b, i, n - 1);
    }
}

/// The rest of a walk behind its first step.
proof fn lemma_after_first(
    m: PaymentChains,
    next: PaymentChains,
    list: Seq<PaymentTerminalEvidence>,
    seq: Seq<int>,
    rest: Seq<int>,
    n: int,
)
    requires
        0 <= n <= rest.len(),
        seq == seq![seq[0]] + rest,
        seq.len() > 0,
        walked(m, list, seq, 1) == Some((next.warehouse_chains, next.district_chains)),
    ensures
        walked(next, list, rest, n) == walked(m, list, seq, n + 1),
    decreases n,
{
    if n > 0 {
        lemma_after_first(m, next, list, seq, rest, n - 1);
        assert(seq[n] == rest[n - 1]);
    }
}

/// Two Payments can change places: on a row that they share both keep the total.
spec fn swappable(a: BufferedTerminal, b: BufferedTerminal) -> bool {
    &&& a.warehouse_index == b.warehouse_index ==> is_loop(a.warehouse) && is_loop(b.warehouse)
        && a.warehouse.before_bits == b.warehouse.before_bits
    &&& a.district_index == b.district_index ==> is_loop(a.district) && is_loop(b.district)
        && a.district.before_bits == b.district.before_bits
}

proof fn lemma_swap(
    m: PaymentChains,
    list: Seq<PaymentTerminalEvidence>,
    seq: Seq<int>,
    j: int,
)
    requires
        payments_sound(m),
        all_sound(m.warehouses, list),
        places(seq, list),
        1 <= j < seq.len(),
        swappable(buffered(list[seq[j - 1]]), buffered(list[seq[j]])),
        walked(m, list, seq, seq.len() as int) is Some,
    ensures
        walked(
            m,
            list,
            seq.update(j - 1, seq[j]).update(j, seq[j - 1]),
            seq.len() as int,
        ) is Some,
{
    let other = seq.update(j - 1, seq[j]).update(j, seq[j - 1]);
    let n = seq.len() as int;
    lemma_between(m, list, seq, j + 1, n);
    lemma_between(m, list, seq, j, n);
    lemma_between(m, list, seq, j - 1, j + 1);
    lemma_walked_prefix(m, list, seq, other, j - 1);
    let u = buffered(list[seq[j - 1]]);
    let t = buffered(list[seq[j]]);
    assert(terminal_sound(m.warehouses, u) && terminal_sound(m.warehouses, t));
    let s0 = walk_state(m, list, seq, j - 1);
    let w = t.warehouse_index as int;
    let d = t.district_index as int;
    let v = u.warehouse_index as int;
    let e = u.district_index as int;
    assert(walked(m, list, other, j) == Some(
        (
            s0.0.update(w, extended(s0.0[w], t.warehouse)),
            s0.1.update(d, extended(s0.1[d], t.district)),
        ),
    ));
    let s2 = walk_state(m, list, seq, j + 1);
    let r1 = walk_state(m, list, other, j);
    assert(walked(m, list, other, j + 1) == Some(
        (
            r1.0.update(v, extended(r1.0[v], u.warehouse)),
            r1.1.update(e, extended(r1.1[e], u.district)),
        ),
    ));
    let r2 = walk_state(m, list, other, j + 1);
    assert(r2.0 =~= s2.0);
    assert(r2.1 =~= s2.1);
    lemma_same_suffix(m, list, seq, other, j + 1, n);
}

/// A Payment that can change places with all before it can go first.
proof fn lemma_front(
    m: PaymentChains,
    list: Seq<PaymentTerminalEvidence>,
    seq: Seq<int>,
    j: int,
)
    requires
        payments_sound(m),
        all_sound(m.warehouses, list),
        places(seq, list),
        0 <= j < seq.len(),
        forall|i: int|
            0 <= i < j ==> swappable(buffered(list[#[trigger] seq[i]]), buffered(list[seq[j]])),
        walked(m, list, seq, seq.len() as int) is Some,
    ensures
        walked(m, list, seq![seq[j]] + seq.remove(j), seq.len() as int) is Some,
    decreases j,
{
    if j == 0 {
        assert(seq![seq[0]] + seq.remove(0) =~= seq);
    } else {
        assert(swappable(buffered(list[seq[j - 1]]), buffered(list[seq[j]])));
        lemma_swap(m, list, seq, j);
        let other = seq.update(j - 1, seq[j]).update(j, seq[j - 1]);
        assert forall|i: int| 0 <= i < j - 1 implies swappable(
            buffered(list[#[trigger] other[i]]),
            buffered(list[other[j - 1]]),
        ) by {
            assert(other[i] == seq[i]);
        }
        lemma_front(m, list, other, j - 1);
        assert(other.remove(j - 1) =~= seq.remove(j));
    }
}

/// A Payment that starts where its rows end, and leaves no update behind that
/// keeps a total, can go first.
proof fn lemma_take(
    m: PaymentChains,
    next: PaymentChains,
    list: Seq<PaymentTerminalEvidence>,
    rest: Seq<int>,
    j: int,
)
    requires
        payments_sound(m),
        all_sound(m.warehouses, list),
        places(rest, list),
        0 <= j < rest.len(),
        walked(m, list, rest, rest.len() as int) is Some,
        ({
            let t = buffered(list[rest[j]]);
            let w = t.warehouse_index as int;
            let d = t.district_index as int;
            &&& t.warehouse.before_bits == m.warehouse_chains[w].endpoint_bits
            &&& t.district.before_bits == m.district_chains[d].endpoint_bits
            &&& next.warehouse_chains == m.warehouse_chains.update(
                w,
                extended(m.warehouse_chains[w], t.warehouse),
            )
            &&& next.district_chains == m.district_chains.update(
                d,
                extended(m.district_chains[d], t.district),
            )
            &&& forall|k: int|
                0 <= k < rest.len() && k != j ==> !left_behind(
                    t,
                    buffered(list[#[trigger] rest[k]]),
                )
        }),
    ensures
        walked(next, list, rest.remove(j), rest.len() - 1) is Some,
{
    let t = buffered(list[rest[j]]);
    let w = t.warehouse_index as int;
    let d = t.district_index as int;
    let n = rest.len() as int;
    assert(terminal_sound(m.warehouses, t));
    assert forall|i: int| 0 <= i < j implies swappable(
        buffered(list[#[trigger] rest[i]]),
        t,
    ) by {
        let u = buffered(list[rest[i]]);
        assert(terminal_sound(m.warehouses, u));
        lemma_between(m, list, rest, j + 1, n);
        lemma_between(m, list, rest, j, n);
        lemma_between(m, list, rest, i + 1, j);
        lemma_between(m, list, rest, i, i + 1);
        lemma_between(m, list, rest, 0, i);
        let at_start = walk_state(m, list, rest, 0);
        let at_i = walk_state(m, list, rest, i);
        let past_i = walk_state(m, list, rest, i + 1);
        let at_j = walk_state(m, list, rest, j);
        assert(at_j.0[w].endpoint_bits == t.warehouse.before_bits);
        assert(at_j.1[d].endpoint_bits == t.district.before_bits);
        assert(at_start.0[w].endpoint_bits <= at_i.0[w].endpoint_bits);
        assert(at_i.0[w].endpoint_bits <= past_i.0[w].endpoint_bits);
        assert(past_i.0[w].endpoint_bits <= at_j.0[w].endpoint_bits);
        assert(at_start.1[d].endpoint_bits <= at_i.1[d].endpoint_bits);
        assert(at_i.1[d].endpoint_bits <= past_i.1[d].endpoint_bits);
        assert(past_i.1[d].endpoint_bits <= at_j.1[d].endpoint_bits);
        assert(!left_behind(t, u));
    }
    lemma_front(m, list, rest, j);
    let seq = seq![rest[j]] + rest.remove(j);
    assert(seq.len() == n);
    assert(seq[0] == rest[j]);
    assert(walked(m, list, seq, 0) == Some((m.warehouse_chains, m.district_chains)));
    assert(walked(m, list, seq, 1) == Some((next.warehouse_chains, next.district_chains)));
    lemma_after_first(m, next, list, seq, rest.remove(j), n - 1);
}

/// An update that keeps a total which a Payment leaves.
spec fn left_behind(t: BufferedTerminal, u: BufferedTerminal) -> bool {
    ||| !is_loop(t.warehouse) && u.warehouse_index == t.warehouse_index
        && u.warehouse.before_bits == t.warehouse.before_bits && is_loop(u.warehouse)
    ||| !is_loop(t.district) && u.district_index == t.district_index && u.district.before_bits
        == t.district.before_bits && is_loop(u.district)
}

/// The Payments at `waiting` wait after `n` arrivals, and a walk over `rest` takes
/// them and those to come.
spec fn completable(
    m: PaymentChains,
    list: Seq<PaymentTerminalEvidence>,
    waiting: Seq<int>,
    rest: Seq<int>,
    n: int,
) -> bool {
    &&& m.pending.len() == waiting.len()
    &&& forall|i: int|
        0 <= i < waiting.len() ==> #[trigger] m.pending[i] == buffered(list[waiting[i]])
    &&& forall|i: int| 0 <= i < waiting.len() ==> 0 <= #[trigger] waiting[i] < n
    &&& waiting.no_duplicates()
    &&& places(rest, list)
    &&& rest.no_duplicates()
    &&& forall|i: int| 0 <= i < waiting.len() ==> rest.contains(#[trigger] waiting[i])
    &&& forall|v: int| n <= v < list.len() ==> #[trigger] rest.contains(v)
    &&& forall|k: int|
        0 <= k < rest.len() ==> (#[trigger] rest[k]) >= n || waiting.contains(rest[k])
    &&& walked(m, list, rest, rest.len() as int) is Some
}

/// No Payment to come starts behind the chains.
spec fn ahead(m: PaymentChains, list: Seq<PaymentTerminalEvidence>, n: int) -> bool {
    forall|y: int|
        n <= y < list.len() ==> ({
            let b = buffered(#[trigger] list[y]);
            &&& m.warehouse_chains[b.warehouse_index as int].endpoint_bits
                <= b.warehouse.before_bits
            &&& m.district_chains[b.district_index as int].endpoint_bits <= b.district.before_bits
        })
}

proof fn lemma_advance_completable(
    m: PaymentChains,
    list: Seq<PaymentTerminalEvidence>,
    waiting: Seq<int>,
    rest: Seq<int>,
    n: int,
    i: int,
) -> (less: Seq<int>)
    requires
        payments_sound(m),
        all_sound(m.warehouses, list),
        completable(m, list, waiting, rest, n),
        0 <= n <= list.len(),
        0 <= i < m.pending.len(),
        is_minimal(m, m.pending[i]),
        ahead(advanced(m, i), list, n),
    ensures
        completable(advanced(m, i), list, swap_removed(waiting, i), less, n),
{
    let x = waiting[i];
    let t = m.pending[i];
    assert(t == buffered(list[x]));
    assert(terminal_sound(m.warehouses, t));
    assert(rest.contains(x));
    let j = choose|j: int| 0 <= j < rest.len() && rest[j] == x;
    let next = advanced(m, i);
    let fewer = swap_removed(waiting, i);
    let less = rest.remove(j);
    assert forall|k: int| 0 <= k < rest.len() && k != j implies !left_behind(
        t,
        buffered(list[#[trigger] rest[k]]),
    ) by {
        let u = buffered(list[rest[k]]);
        if rest[k] >= n {
            let y = rest[k];
            assert(ahead(next, list, n));
            assert(next.warehouse_chains[u.warehouse_index as int].endpoint_bits
                <= u.warehouse.before_bits) by {
                assert(0 <= y < list.len());
                let b = buffered(list[y]);
                assert(b == u);
            }
        } else {
            assert(waiting.contains(rest[k]));
            let p = choose|p: int| 0 <= p < waiting.len() && waiting[p] == rest[k];
            assert(m.pending[p] == u);
        }
    }
    lemma_take(m, next, list, rest, j);
    assert forall|k: int| 0 <= k < fewer.len() implies #[trigger] next.pending[k] == buffered(
        list[fewer[k]],
    ) by {
        if k == i {
            assert(m.pending[waiting.len() - 1] == buffered(list[waiting[waiting.len() - 1]]));
        } else {
            assert(m.pending[k] == buffered(list[waiting[k]]));
        }
    }
    assert(fewer.no_duplicates());
    assert(less.no_duplicates());
    assert forall|k: int| 0 <= k < fewer.len() implies less.contains(#[trigger] fewer[k]) by {
        let v = fewer[k];
        let from = if k == i {
            waiting.len() - 1
        } else {
            k
        };
        assert(v == waiting[from]);
        assert(rest.contains(waiting[from]));
        let p = choose|p: int| 0 <= p < rest.len() && rest[p] == v;
        assert(p != j);
        assert(less[if p < j { p } else { p - 1 }] == v);
    }
    assert forall|v: int| n <= v < list.len() implies #[trigger] less.contains(v) by {
        assert(rest.contains(v));
        let p = choose|p: int| 0 <= p < rest.len() && rest[p] == v;
        assert(p != j);
        assert(less[if p < j { p } else { p - 1 }] == v);
    }
    assert forall|k: int| 0 <= k < less.len() implies (#[trigger] less[k]) >= n || fewer.contains(
        less[k],
    ) by {
        let from = if k < j {
            k
        } else {
            k + 1
        };
        let v = rest[from];
        assert(less[k] == v);
        assert(v != x);
        if v < n {
            assert(waiting.contains(v));
            let p = choose|p: int| 0 <= p < waiting.len() && waiting[p] == v;
            assert(p != i);
            if p == waiting.len() - 1 {
                assert(fewer[i] == v);
            } else {
                assert(fewer[p] == v);
            }
        }
    }
    less
}

/// As long as Payments wait that a walk takes, one of them can go.
proof fn lemma_one_can_go(
    m: PaymentChains,
    list: Seq<PaymentTerminalEvidence>,
    waiting: Seq<int>,
    rest: Seq<int>,
)
    requires
        payments_sound(m),
        all_sound(m.warehouses, list),
        completable(m, list, waiting, rest, list.len() as int),
        m.pending.len() > 0,
    ensures
        first_minimal(m, 0) is Some,
{
    let n = rest.len() as int;
    assert(rest.contains(waiting[0]));
    assert(n > 0);
    lemma_between(m, list, rest, 1, n);
    lemma_between(m, list, rest, 0, 1);
    let x = rest[0];
    let t = buffered(list[x]);
    assert(terminal_sound(m.warehouses, t));
    assert(walked(m, list, rest, 0) == Some((m.warehouse_chains, m.district_chains)));
    assert(waiting.contains(x));
    let i = choose|i: int| 0 <= i < waiting.len() && waiting[i] == x;
    assert(m.pending[i] == t);
    assert forall|k: int| 0 <= k < m.pending.len() implies !left_behind(
        t,
        #[trigger] m.pending[k],
    ) by {
        let u = m.pending[k];
        assert(u == buffered(list[waiting[k]]));
        assert(rest.contains(waiting[k]));
        let p = choose|p: int| 0 <= p < rest.len() && rest[p] == waiting[k];
        if p > 0 && left_behind(t, u) {
            assert(terminal_sound(m.warehouses, u));
            lemma_between(m, list, rest, p + 1, n);
            lemma_between(m, list, rest, 1, p);
            let first = walk_state(m, list, rest, 1);
            let at_p = walk_state(m, list, rest, p);
            let w = t.warehouse_index as int;
            let d = t.district_index as int;
            assert(first.0[w].endpoint_bits <= at_p.0[w].endpoint_bits);
            assert(first.1[d].endpoint_bits <= at_p.1[d].endpoint_bits);
            assert(false);
        }
    }
    assert(is_minimal(m, t));
    lemma_first_minimal(m, 0);
}

proof fn lemma_all_go(
    m: PaymentChains,
    list: Seq<PaymentTerminalEvidence>,
    waiting: Seq<int>,
    rest: Seq<int>,
)
    requires
        payments_sound(m),
        all_sound(m.warehouses, list),
        completable(m, list, waiting, rest, list.len() as int),
    ensures
        payments_drained(m).pending.len() == 0,
        payments_drained(m).poisoned == m.poisoned,
    decreases m.pending.len(),
{
    lemma_first_minimal(m, 0);
    if m.pending.len() > 0 {
        lemma_one_can_go(m, list, waiting, rest);
        let i = first_minimal(m, 0)->0;
        lemma_advanced_sound(m, i);
        let n = list.len() as int;
        let less = lemma_advance_completable(m, list, waiting, rest, n, i);
        lemma_all_go(advanced(m, i), list, swap_removed(waiting, i), less);
    }
}

/// Accepted Payments are sound, and so is the collector.
pub proof fn lemma_fed_sound(m: PaymentChains, list: Seq<PaymentTerminalEvidence>, n: int)
    requires
        payment_collector_sound(m),
        0 <= n <= list.len(),
        payments_fed(m, list, n) is Some,
    ensures
        payment_collector_sound(payments_fed(m, list, n)->0),
        payments_fed(m, list, n)->0.warehouses == m.warehouses,
        payments_fed(m, list, n)->0.poisoned == m.poisoned,
        forall|i: int|
            0 <= i < n ==> terminal_sound(m.warehouses, buffered(#[trigger] list[i])),
    decreases n,
{
    if n > 0 {
        lemma_fed_sound(m, list, n - 1);
        let before = payments_fed(m, list, n - 1)->0;
        let t = list[n - 1];
        let queued = enqueued(before, buffered(t));
        lemma_enqueued_sound(before, t);
        if queued.pending.len() > before.terminal_limit {
            lemma_first_minimal(queued, 0);
            lemma_advanced_sound(queued, first_minimal(queued, 0)->0);
        }
    }
}

/// The chains never move back while Payments come in.
proof fn lemma_fed_moves_on(m: PaymentChains, list: Seq<PaymentTerminalEvidence>, n: int, y: int)
    requires
        payment_collector_sound(m),
        0 <= n <= y <= list.len(),
        payments_fed(m, list, y) is Some,
    ensures
        payments_fed(m, list, n) is Some,
        forall|w: int|
            0 <= w < m.warehouses ==> (#[trigger] (payments_fed(
                m,
                list,
                n,
            )->0).warehouse_chains[w]).endpoint_bits <= (payments_fed(
                m,
                list,
                y,
            )->0).warehouse_chains[w].endpoint_bits,
        forall|d: int|
            0 <= d < 10 * m.warehouses ==> (#[trigger] (payments_fed(
                m,
                list,
                n,
            )->0).district_chains[d]).endpoint_bits <= (payments_fed(
                m,
                list,
                y,
            )->0).district_chains[d].endpoint_bits,
    decreases y,
{
    if n < y {
        lemma_fed_moves_on(m, list, n, y - 1);
        lemma_fed_sound(m, list, y - 1);
        lemma_fed_sound(m, list, y);
        let before = payments_fed(m, list, y - 1)->0;
        let after = payments_fed(m, list, y)->0;
        let start = payments_fed(m, list, n)->0;
        let queued = enqueued(before, buffered(list[y - 1]));
        lemma_enqueued_sound(before, list[y - 1]);
        lemma_first_minimal(queued, 0);
        if queued.pending.len() > before.terminal_limit {
            let i = first_minimal(queued, 0)->0;
            assert(terminal_sound(m.warehouses, queued.pending[i]));
        }
        assert forall|w: int| 0 <= w < m.warehouses implies (
        #[trigger] start.warehouse_chains[w]).endpoint_bits
            <= after.warehouse_chains[w].endpoint_bits by {
            assert(before.warehouse_chains[w].endpoint_bits
                <= after.warehouse_chains[w].endpoint_bits);
        }
        assert forall|d: int| 0 <= d < 10 * m.warehouses implies (
        #[trigger] start.district_chains[d]).endpoint_bits
            <= after.district_chains[d].endpoint_bits by {
            assert(before.district_chains[d].endpoint_bits
                <= after.district_chains[d].endpoint_bits);
        }
    }
}

/// What was accepted later did not start behind the chains.
proof fn lemma_fed_ahead(m: PaymentChains, list: Seq<PaymentTerminalEvidence>, n: int)
    requires
        payment_collector_sound(m),
        0 <= n <= list.len(),
        payments_fed(m, list, list.len() as int) is Some,
    ensures
        payments_fed(m, list, n) is Some,
        ahead(payments_fed(m, list, n)->0, list, n),
{
    let end = list.len() as int;
    lemma_fed_moves_on(m, list, n, end);
    lemma_fed_sound(m, list, end);
    let s = payments_fed(m, list, n)->0;
    assert forall|y: int| n <= y < list.len() implies ({
        let b = buffered(#[trigger] list[y]);
        &&& s.warehouse_chains[b.warehouse_index as int].endpoint_bits <= b.warehouse.before_bits
        &&& s.district_chains[b.district_index as int].endpoint_bits <= b.district.before_bits
    }) by {
        let b = buffered(list[y]);
        lemma_fed_moves_on(m, list, y + 1, end);
        lemma_fed_moves_on(m, list, y, end);
        lemma_fed_moves_on(m, list, n, y);
        lemma_fed_sound(m, list, y);
        let at = payments_fed(m, list, y)->0;
        assert(terminal_sound(m.warehouses, b));
        let w = b.warehouse_index as int;
        let d = b.district_index as int;
        assert(chain_sound(at.warehouse_chains[w], 0x4892_7c00));
        assert(chain_sound(at.district_chains[d], 0x46ea_6000));
        assert(payment_record_fault(at, list[y]) is None);
        assert(s.warehouse_chains[w].endpoint_bits <= at.warehouse_chains[w].endpoint_bits);
        assert(s.district_chains[d].endpoint_bits <= at.district_chains[d].endpoint_bits);
    }
}

proof fn lemma_fed_completable(
    m: PaymentChains,
    list: Seq<PaymentTerminalEvidence>,
    order: Seq<int>,
    n: int,
) -> (r: (Seq<int>, Seq<int>))
    requires
        payment_collector_sound(m),
        m.pending.len() == 0,
        0 <= n <= list.len(),
        payments_fed(m, list, list.len() as int) is Some,
        order.no_duplicates(),
        places(order, list),
        forall|v: int| 0 <= v < list.len() ==> #[trigger] order.contains(v),
        walked(m, list, order, order.len() as int) is Some,
    ensures
        payments_fed(m, list, n) is Some,
        completable(payments_fed(m, list, n)->0, list, r.0, r.1, n),
    decreases n,
{
    lemma_fed_moves_on(m, list, n, list.len() as int);
    lemma_fed_sound(m, list, list.len() as int);
    if n == 0 {
        (Seq::empty(), order)
    } else {
        let (waiting, rest) = lemma_fed_completable(m, list, order, n - 1);
        let before = payments_fed(m, list, n - 1)->0;
        let queued = enqueued(before, buffered(list[n - 1]));
        let more = waiting.push(n - 1);
        lemma_fed_sound(m, list, n - 1);
        lemma_enqueued_sound(before, list[n - 1]);
        lemma_same_chains(before, queued, list, rest, rest.len() as int);
        assert(completable(queued, list, more, rest, n)) by {
            assert(rest.contains(n - 1));
            assert forall|k: int| 0 <= k < rest.len() implies (#[trigger] rest[k]) >= n
                || more.contains(rest[k]) by {
                if rest[k] == n - 1 {
                    assert(more[waiting.len() as int] == rest[k]);
                } else if rest[k] < n - 1 {
                    assert(waiting.contains(rest[k]));
                    let p = choose|p: int| 0 <= p < waiting.len() && waiting[p] == rest[k];
                    assert(more[p] == rest[k]);
                }
            }
        }
        if queued.pending.len() <= before.terminal_limit {
            (more, rest)
        } else {
            lemma_first_minimal(queued, 0);
            let i = first_minimal(queued, 0)->0;
            lemma_fed_ahead(m, list, n);
            let less = lemma_advance_completable(queued, list, more, rest, n, i);
            (swap_removed(more, i), less)
        }
    }
}

/// An arrangement names every place.
pub proof fn lemma_arrangement_covers(order: Seq<int>, n: nat)
    requires
        arranges(order, n),
    ensures
        order.no_duplicates(),
        forall|v: int| 0 <= v < n ==> #[trigger] order.contains(v),
{
    assert(order.no_duplicates());
    order.unique_seq_to_set();
    lemma_int_range(0, n as int);
    let named = order.to_set();
    assert(named.subset_of(set_int_range(0, n as int))) by {
        assert forall|v: int| named.contains(v) implies set_int_range(0, n as int).contains(v) by {
            assert(order.contains(v));
            let i = choose|i: int| 0 <= i < order.len() && order[i] == v;
            assert(0 <= order[i] < n);
        }
    }
    lemma_subset_equality(named, set_int_range(0, n as int));
    assert forall|v: int| 0 <= v < n implies #[trigger] order.contains(v) by {
        assert(set_int_range(0, n as int).contains(v));
        assert(named.contains(v));
    }
}

/// Law: accepted Payments that have a common serial order are sealed. With
/// [`law_sealed_payments_have_a_serial_order`], accepted Payments can be sealed
/// exactly if they have one.
///
/// [`law_sealed_payments_have_a_serial_order`]: crate::ranking::payment_serial_law::law_sealed_payments_have_a_serial_order
pub proof fn law_serial_payments_are_sealed(
    warehouses: u16,
    clients: u16,
    list: Seq<PaymentTerminalEvidence>,
    order: Seq<int>,
)
    requires
        payment_config_fault(warehouses, clients) is None,
        payments_fed(fresh_payments(warehouses, clients), list, list.len() as int) is Some,
        arranges(order, list.len()),
        walked(fresh_payments(warehouses, clients), list, order, list.len() as int) is Some,
    ensures
        payment_seal_fault(
            payments_fed(fresh_payments(warehouses, clients), list, list.len() as int)->0,
        ) is None,
{
    let start = fresh_payments(warehouses, clients);
    let n = list.len() as int;
    lemma_fresh_payments_sound(warehouses, clients);
    lemma_arrangement_covers(order, list.len());
    lemma_fed_sound(start, list, n);
    let (waiting, rest) = lemma_fed_completable(start, list, order, n);
    lemma_all_go(payments_fed(start, list, n)->0, list, waiting, rest);
}

} // verus!
