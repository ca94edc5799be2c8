//! The order in which Payments arrive does not matter.
use vstd::multiset::*;
use vstd::prelude::*;

use crate::ranking::payment_endpoints::{
    BufferedTerminal, EndpointChain, PaymentChains, PaymentTerminalEvidence, advanced, buffered,
    chain_sound, enqueued, extended, first_minimal, fresh_payments, is_minimal,
    lemma_advanced_sound, lemma_enqueued_sound, lemma_first_minimal, lemma_fresh_payments_sound,
    moves_forward, payment_collector_sound, payment_config_fault, payment_record_fault,
    payment_recorded, payment_seal_fault, payments_drained, payments_sound, sealed_payments,
    swap_removed, terminal_sound,
};

verus! {

/// The collector after the first `n` Payments of a list, if all were accepted.
pub open spec fn payments_fed(
    m: PaymentChains,
    list: Seq<PaymentTerminalEvidence>,
    n: int,
) -> Option<PaymentChains>
    decreases n,
{
    if n <= 0 {
        Some(m)
    } else {
        match payments_fed(m, list, n - 1) {
            None => None,
            Some(before) => if payment_record_fault(before, list[n - 1]) is None {
                Some(payment_recorded(before, list[n - 1]))
            } else {
                None
            },
        }
    }
}

/// The Payments on one warehouse.
spec fn on_warehouse(s: Multiset<BufferedTerminal>, w: int) -> Multiset<BufferedTerminal> {
    s.filter(|t: BufferedTerminal| t.warehouse_index == w)
}

/// The Payments on one district.
spec fn on_district(s: Multiset<BufferedTerminal>, d: int) -> Multiset<BufferedTerminal> {
    s.filter(|t: BufferedTerminal| t.district_index == d)
}

/// A chain is what some updates of a warehouse make of it: as many, up to the
/// largest total.
spec fn warehouse_told(chain: EndpointChain, s: Multiset<BufferedTerminal>, w: int) -> bool {
    &&& chain.update_count == on_warehouse(s, w).len()
    &&& forall|t: BufferedTerminal| #[trigger]
        on_warehouse(s, w).count(t) > 0 ==> t.warehouse.after_bits <= chain.endpoint_bits
    &&& chain.endpoint_bits == chain.root_bits || exists|t: BufferedTerminal| #[trigger]
        on_warehouse(s, w).count(t) > 0 && t.warehouse.after_bits == chain.endpoint_bits
}

/// A chain is what some updates of a district make of it.
spec fn district_told(chain: EndpointChain, s: Multiset<BufferedTerminal>, d: int) -> bool {
    &&& chain.update_count == on_district(s, d).len()
    &&& forall|t: BufferedTerminal| #[trigger]
        on_district(s, d).count(t) > 0 ==> t.district.after_bits <= chain.endpoint_bits
    &&& chain.endpoint_bits == chain.root_bits || exists|t: BufferedTerminal| #[trigger]
        on_district(s, d).count(t) > 0 && t.district.after_bits == chain.endpoint_bits
}

/// The Payments of a history are applied or wait, and the chains are what those
/// applied make of them.
spec fn accounted(
    m: PaymentChains,
    history: Multiset<BufferedTerminal>,
    applied: Multiset<BufferedTerminal>,
) -> bool {
    &&& history == applied.add(m.pending.to_multiset())
    &&& forall|w: int|
        0 <= w < m.warehouse_chains.len() ==> warehouse_told(
            #[trigger] m.warehouse_chains[w],
            applied,
            w,
        )
    &&& forall|d: int|
        0 <= d < m.district_chains.len() ==> district_told(
            #[trigger] m.district_chains[d],
            applied,
            d,
        )
}

proof fn lemma_swap_removed(s: Seq<BufferedTerminal>, i: int)
    requires
        0 <= i < s.len(),
    ensures
        s.to_multiset() == swap_removed(s, i).to_multiset().insert(s[i]),
{
    let t = swap_removed(s, i);
    s.to_multiset_ensures();
    t.to_multiset_ensures();
    let front = s.drop_last();
    front.to_multiset_ensures();
    assert(front.push(s.last()) =~= s);
    if i == s.len() - 1 {
        assert(t =~= front);
    } else {
        let x = t.remove(i);
        x.to_multiset_ensures();
        assert(x =~= front.remove(i));
        assert(t.remove(i).to_multiset() =~= t.to_multiset().remove(t[i]));
        assert(front.remove(i).to_multiset() =~= front.to_multiset().remove(front[i]));
        assert(t[i] == s.last());
        assert(front[i] == s[i]);
        assert(t.contains(t[i]));
        assert(front.contains(front[i]));
        assert(t.to_multiset() =~= x.to_multiset().insert(s.last()));
        assert(front.to_multiset() =~= x.to_multiset().insert(s[i]));
        assert(s.to_multiset() =~= x.to_multiset().insert(s[i]).insert(s.last()));
        assert(s.to_multiset() =~= t.to_multiset().insert(s[i]));
    }
}

proof fn lemma_warehouse_extended(
    chain: EndpointChain,
    s: Multiset<BufferedTerminal>,
    w: int,
    t: BufferedTerminal,
)
    requires
        warehouse_told(chain, s, w),
        chain.update_count < u64::MAX,
        t.warehouse_index == w,
        t.warehouse.before_bits == chain.endpoint_bits,
        moves_forward(t.warehouse),
    ensures
        warehouse_told(extended(chain, t.warehouse), s.insert(t), w),
{
    let after = s.insert(t);
    assert(on_warehouse(after, w) =~= on_warehouse(s, w).insert(t));
    assert(on_warehouse(after, w).count(t) > 0);
    assert forall|x: BufferedTerminal| #[trigger] on_warehouse(after, w).count(x) > 0 implies
        x.warehouse.after_bits <= extended(chain, t.warehouse).endpoint_bits by {
        if x != t {
            assert(on_warehouse(s, w).count(x) > 0);
        }
    }
}

proof fn lemma_district_extended(
    chain: EndpointChain,
    s: Multiset<BufferedTerminal>,
    d: int,
    t: BufferedTerminal,
)
    requires
        district_told(chain, s, d),
        chain.update_count < u64::MAX,
        t.district_index == d,
        t.district.before_bits == chain.endpoint_bits,
        moves_forward(t.district),
    ensures
        district_told(extended(chain, t.district), s.insert(t), d),
{
    let after = s.insert(t);
    assert(on_district(after, d) =~= on_district(s, d).insert(t));
    assert(on_district(after, d).count(t) > 0);
    assert forall|x: BufferedTerminal| #[trigger] on_district(after, d).count(x) > 0 implies
        x.district.after_bits <= extended(chain, t.district).endpoint_bits by {
        if x != t {
            assert(on_district(s, d).count(x) > 0);
        }
    }
}

proof fn lemma_advanced_accounted(
    m: PaymentChains,
    i: int,
    history: Multiset<BufferedTerminal>,
    applied: Multiset<BufferedTerminal>,
)
    requires
        payments_sound(m),
        accounted(m, history, applied),
        0 <= i < m.pending.len(),
        is_minimal(m, m.pending[i]),
    ensures
        accounted(advanced(m, i), history, applied.insert(m.pending[i])),
{
    let t = m.pending[i];
    let next = advanced(m, i);
    let after = applied.insert(t);
    assert(terminal_sound(m.warehouses, t));
    lemma_advanced_sound(m, i);
    lemma_swap_removed(m.pending, i);
    assert(history =~= after.add(next.pending.to_multiset()));
    assert forall|w: int| 0 <= w < next.warehouse_chains.len() implies warehouse_told(
        #[trigger] next.warehouse_chains[w],
        after,
        w,
    ) by {
        assert(warehouse_told(m.warehouse_chains[w], applied, w));
        if w == t.warehouse_index {
            lemma_warehouse_extended(m.warehouse_chains[w], applied, w, t);
        } else {
            assert(on_warehouse(after, w) =~= on_warehouse(applied, w));
        }
    }
    assert forall|d: int| 0 <= d < next.district_chains.len() implies district_told(
        #[trigger] next.district_chains[d],
        after,
        d,
    ) by {
        assert(district_told(m.district_chains[d], applied, d));
        if d == t.district_index {
            lemma_district_extended(m.district_chains[d], applied, d, t);
        } else {
            assert(on_district(after, d) =~= on_district(applied, d));
        }
    }
}

proof fn lemma_drained_accounted(
    m: PaymentChains,
    history: Multiset<BufferedTerminal>,
    applied: Multiset<BufferedTerminal>,
) -> (end: Multiset<BufferedTerminal>)
    requires
        payments_sound(m),
        accounted(m, history, applied),
    ensures
        accounted(payments_drained(m), history, end),
        payments_sound(payments_drained(m)),
        payments_drained(m).warehouses == m.warehouses,
        payments_drained(m).terminal_count == m.terminal_count,
    decreases m.pending.len(),
{
    lemma_first_minimal(m, 0);
    match first_minimal(m, 0) {
        Some(i) => {
            lemma_advanced_sound(m, i);
            lemma_advanced_accounted(m, i, history, applied);
            lemma_drained_accounted(advanced(m, i), history, applied.insert(m.pending[i]))
        },
        None => applied,
    }
}

/// The Payments of a list as they wait.
spec fn history_of(list: Seq<PaymentTerminalEvidence>, n: int) -> Multiset<BufferedTerminal>
    decreases n,
{
    if n <= 0 {
        Multiset::empty()
    } else {
        history_of(list, n - 1).insert(buffered(list[n - 1]))
    }
}

proof fn lemma_fed_accounted(m: PaymentChains, list: Seq<PaymentTerminalEvidence>, n: int) -> (end:
    Multiset<BufferedTerminal>)
    requires
        payment_collector_sound(m),
        m.pending.len() == 0,
        0 <= n <= list.len(),
        accounted(m, Multiset::empty(), Multiset::empty()),
        payments_fed(m, list, n) is Some,
    ensures
        payment_collector_sound(payments_fed(m, list, n)->0),
        accounted(payments_fed(m, list, n)->0, history_of(list, n), end),
        payments_fed(m, list, n)->0.warehouses == m.warehouses,
        payments_fed(m, list, n)->0.terminal_count == m.terminal_count + n,
    decreases n,
{
    if n == 0 {
        Multiset::empty()
    } else {
        let applied = lemma_fed_accounted(m, list, n - 1);
        let before = payments_fed(m, list, n - 1)->0;
        let t = list[n - 1];
        let b = buffered(t);
        let queued = enqueued(before, b);
        lemma_enqueued_sound(before, t);
        before.pending.to_multiset_ensures();
        assert(queued.pending.to_multiset() =~= before.pending.to_multiset().insert(b));
        assert(history_of(list, n) =~= applied.add(queued.pending.to_multiset()));
        assert(accounted(queued, history_of(list, n), applied));
        if queued.pending.len() <= before.terminal_limit {
            applied
        } else {
            lemma_first_minimal(queued, 0);
            let i = first_minimal(queued, 0)->0;
            lemma_advanced_sound(queued, i);
            lemma_advanced_accounted(queued, i, history_of(list, n), applied);
            applied.insert(queued.pending[i])
        }
    }
}

proof fn lemma_history_without(list: Seq<PaymentTerminalEvidence>, j: int)
    requires
        0 <= j < list.len(),
    ensures
        history_of(list, list.len() as int) == history_of(
            list.remove(j),
            list.len() - 1,
        ).insert(buffered(list[j])),
    decreases list.len(),
{
    let n = list.len() as int;
    let front = list.drop_last();
    lemma_history_prefix(list, front, n - 1);
    if j == n - 1 {
        assert(list.remove(j) =~= front);
    } else {
        lemma_history_without(front, j);
        let less = list.remove(j);
        assert(less.drop_last() =~= front.remove(j));
        assert(less.last() == list.last());
        lemma_history_prefix(less, less.drop_last(), n - 2);
        assert(history_of(list, n) =~= history_of(less, n - 1).insert(buffered(list[j])));
    }
}

proof fn lemma_history_prefix(
    a: Seq<PaymentTerminalEvidence>,
    b: Seq<PaymentTerminalEvidence>,
    n: int,
)
    requires
        forall|i: int| 0 <= i < n ==> a[i] == b[i],
    ensures
        history_of(a, n) == history_of(b, n),
    decreases n,
{
    if n > 0 {
        lemma_history_prefix(a, b, n - 1);
    }
}

proof fn lemma_history_rearranged(
    a: Seq<PaymentTerminalEvidence>,
    b: Seq<PaymentTerminalEvidence>,
)
    requires
        a.to_multiset() == b.to_multiset(),
    ensures
        a.len() == b.len(),
        history_of(a, a.len() as int) == history_of(b, b.len() as int),
    decreases a.len(),
{
    a.to_multiset_ensures();
    b.to_multiset_ensures();
    if a.len() > 0 {
        let last = a.last();
        assert(a.contains(last));
        assert(b.to_multiset().count(last) > 0);
        assert(b.contains(last));
        let j = choose|j: int| 0 <= j < b.len() && b[j] == last;
        let front = a.remove(a.len() - 1);
        let rest = b.remove(j);
        assert(front.to_multiset() =~= a.to_multiset().remove(last));
        assert(rest.to_multiset() =~= b.to_multiset().remove(last));
        lemma_history_rearranged(front, rest);
        lemma_history_without(a, a.len() - 1);
        lemma_history_without(b, j);
    }
}

/// Where a list of Payments and a rearrangement of it are both accepted and
/// sealed, the sealed chains are the same: the order of arrival does not matter.
pub proof fn law_payment_order_does_not_matter(
    warehouses: u16,
    clients: u16,
    a: Seq<PaymentTerminalEvidence>,
    b: Seq<PaymentTerminalEvidence>,
)
    requires
        payment_config_fault(warehouses, clients) is None,
        a.to_multiset() == b.to_multiset(),
        payments_fed(fresh_payments(warehouses, clients), a, a.len() as int) matches Some(x)
            && payment_seal_fault(x) is None,
        payments_fed(fresh_payments(warehouses, clients), b, b.len() as int) matches Some(y)
            && payment_seal_fault(y) is None,
    ensures
        sealed_payments(payments_fed(fresh_payments(warehouses, clients), a, a.len() as int)->0)
            == sealed_payments(
            payments_fed(fresh_payments(warehouses, clients), b, b.len() as int)->0,
        ),
{
    let m = fresh_payments(warehouses, clients);
    lemma_fresh_payments_sound(warehouses, clients);
    let none = Multiset::<BufferedTerminal>::empty();
    m.pending.to_multiset_ensures();
    assert(m.pending.to_multiset() =~= none);
    assert(none =~= none.add(m.pending.to_multiset()));
    assert forall|w: int| 0 <= w < m.warehouse_chains.len() implies warehouse_told(
        #[trigger] m.warehouse_chains[w],
        none,
        w,
    ) by {
        assert(on_warehouse(none, w) =~= none);
    }
    assert forall|d: int| 0 <= d < m.district_chains.len() implies district_told(
        #[trigger] m.district_chains[d],
        none,
        d,
    ) by {
        assert(on_district(none, d) =~= none);
    }
    assert(accounted(m, none, none));
    let x = payments_fed(m, a, a.len() as int)->0;
    let y = payments_fed(m, b, b.len() as int)->0;
    let from_a = lemma_fed_accounted(m, a, a.len() as int);
    let from_b = lemma_fed_accounted(m, b, b.len() as int);
    lemma_history_rearranged(a, b);
    let history = history_of(a, a.len() as int);
    let all_a = lemma_drained_accounted(x, history, from_a);
    let all_b = lemma_drained_accounted(y, history, from_b);
    let p = payments_drained(x);
    let q = payments_drained(y);
    p.pending.to_multiset_ensures();
    q.pending.to_multiset_ensures();
    assert(p.pending.to_multiset() =~= none);
    assert(q.pending.to_multiset() =~= none);
    assert(all_a =~= history);
    assert(all_b =~= history);
    assert forall|w: int| 0 <= w < warehouses implies p.warehouse_chains[w]
        == q.warehouse_chains[w] by {
        assert(warehouse_told(p.warehouse_chains[w], history, w));
        assert(warehouse_told(q.warehouse_chains[w], history, w));
        assert(chain_sound(p.warehouse_chains[w], 0x4892_7c00));
        assert(chain_sound(q.warehouse_chains[w], 0x4892_7c00));
    }
    assert forall|d: int| 0 <= d < 10 * warehouses implies p.district_chains[d]
        == q.district_chains[d] by {
        assert(district_told(p.district_chains[d], history, d));
        assert(district_told(q.district_chains[d], history, d));
        assert(chain_sound(p.district_chains[d], 0x46ea_6000));
        assert(chain_sound(q.district_chains[d], 0x46ea_6000));
    }
    assert(p.warehouse_chains =~= q.warehouse_chains);
    assert(p.district_chains =~= q.district_chains);
}

} // verus!
