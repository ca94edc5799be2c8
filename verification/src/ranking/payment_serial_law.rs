//! Sealed Payments have one common serial order on both of their rows.
use vstd::prelude::*;

use crate::binary32::sum;
use crate::ranking::payment_endpoints::{
    EndpointChain, PaymentChains, PaymentTerminalEvidence, advanced, buffered, enqueued, extended,
    first_minimal, fresh_payments, is_minimal, lemma_first_minimal, payment_config_fault,
    payment_seal_fault, payments_drained, sealed_payments, swap_removed,
};
use crate::ranking::payment_order_law::payments_fed;

verus! {

/// Both kinds of chains after the Payments of a list, taken at the first `n`
/// places of an order, if each starts where its two rows end.
pub open spec fn walked(
    start: PaymentChains,
    list: Seq<PaymentTerminalEvidence>,
    order: Seq<int>,
    n: int,
) -> Option<(Seq<EndpointChain>, Seq<EndpointChain>)>
    decreases n,
{
    if n <= 0 {
        Some((start.warehouse_chains, start.district_chains))
    } else {
        match walked(start, list, order, n - 1) {
            None => None,
            Some((warehouses, districts)) => {
                let t = buffered(list[order[n - 1]]);
                let w = t.warehouse_index as int;
                let d = t.district_index as int;
                if warehouses[w].endpoint_bits == t.warehouse.before_bits
                    && districts[d].endpoint_bits == t.district.before_bits {
                    Some(
                        (
                            warehouses.update(w, extended(warehouses[w], t.warehouse)),
                            districts.update(d, extended(districts[d], t.district)),
                        ),
                    )
                } else {
                    None
                }
            },
        }
    }
}

/// Every place below `n` occurs once.
pub open spec fn arranges(order: Seq<int>, n: nat) -> bool {
    &&& order.len() == n
    &&& forall|i: int| 0 <= i < n ==> 0 <= #[trigger] order[i] < n
    &&& forall|i: int, j: int| 0 <= i < j < n ==> order[i] != order[j]
}

/// A collector has walked the Payments at `order`, and those at `waiting` wait.
spec fn split_up(
    start: PaymentChains,
    m: PaymentChains,
    list: Seq<PaymentTerminalEvidence>,
    order: Seq<int>,
    waiting: Seq<int>,
    n: int,
) -> bool {
    &&& order.len() + waiting.len() == n
    &&& forall|i: int| 0 <= i < order.len() ==> 0 <= #[trigger] order[i] < n
    &&& forall|i: int| 0 <= i < waiting.len() ==> 0 <= #[trigger] waiting[i] < n
    &&& forall|i: int, j: int| 0 <= i < j < order.len() ==> order[i] != order[j]
    &&& forall|i: int, j: int| 0 <= i < j < waiting.len() ==> waiting[i] != waiting[j]
    &&& forall|i: int, j: int|
        0 <= i < order.len() && 0 <= j < waiting.len() ==> order[i] != waiting[j]
    &&& m.pending.len() == waiting.len()
    &&& forall|i: int|
        0 <= i < waiting.len() ==> #[trigger] m.pending[i] == buffered(list[waiting[i]])
    &&& walked(start, list, order, order.len() as int) == Some(
        (m.warehouse_chains, m.district_chains),
    )
}

/// A walk depends on the places that it takes.
pub proof fn lemma_walked_prefix(
    start: PaymentChains,
    list: Seq<PaymentTerminalEvidence>,
    a: Seq<int>,
    b: Seq<int>,
    n: int,
)
    requires
        forall|i: int| 0 <= i < n ==> a[i] == b[i],
    ensures
        walked(start, list, a, n) == walked(start, list, b, n),
    decreases n,
{
    if n > 0 {
        lemma_walked_prefix(start, list, a, b, n - 1);
    }
}

proof fn lemma_advanced_split(
    start: PaymentChains,
    m: PaymentChains,
    list: Seq<PaymentTerminalEvidence>,
    order: Seq<int>,
    waiting: Seq<int>,
    n: int,
    i: int,
)
    requires
        split_up(start, m, list, order, waiting, n),
        0 <= i < m.pending.len(),
        is_minimal(m, m.pending[i]),
    ensures
        split_up(
            start,
            advanced(m, i),
            list,
            order.push(waiting[i]),
            swap_removed(waiting, i),
            n,
        ),
{
    let longer = order.push(waiting[i]);
    lemma_walked_prefix(start, list, order, longer, order.len() as int);
    assert(m.pending[i] == buffered(list[waiting[i]]));
    assert(waiting.last() == waiting[waiting.len() - 1]);
    assert(m.pending.last() == m.pending[m.pending.len() - 1]);
}

proof fn lemma_drained_split(
    start: PaymentChains,
    m: PaymentChains,
    list: Seq<PaymentTerminalEvidence>,
    order: Seq<int>,
    waiting: Seq<int>,
    n: int,
) -> (r: (Seq<int>, Seq<int>))
    requires
        split_up(start, m, list, order, waiting, n),
    ensures
        split_up(start, payments_drained(m), list, r.0, r.1, n),
    decreases m.pending.len(),
{
    lemma_first_minimal(m, 0);
    match first_minimal(m, 0) {
        Some(i) => {
            lemma_advanced_split(start, m, list, order, waiting, n, i);
            lemma_drained_split(
                start,
                advanced(m, i),
                list,
                order.push(waiting[i]),
                swap_removed(waiting, i),
                n,
            )
        },
        None => (order, waiting),
    }
}

proof fn lemma_fed_split(m: PaymentChains, list: Seq<PaymentTerminalEvidence>, n: int) -> (r: (
    Seq<int>,
    Seq<int>,
))
    requires
        m.pending.len() == 0,
        0 <= n <= list.len(),
        payments_fed(m, list, n) is Some,
    ensures
        split_up(m, payments_fed(m, list, n)->0, list, r.0, r.1, n),
    decreases n,
{
    if n == 0 {
        (Seq::empty(), Seq::empty())
    } else {
        let (order, waiting) = lemma_fed_split(m, list, n - 1);
        let before = payments_fed(m, list, n - 1)->0;
        let queued = enqueued(before, buffered(list[n - 1]));
        let more = waiting.push(n - 1);
        assert(split_up(m, queued, list, order, more, n));
        if queued.pending.len() <= before.terminal_limit {
            (order, more)
        } else {
            lemma_first_minimal(queued, 0);
            let i = first_minimal(queued, 0)->0;
            lemma_advanced_split(m, queued, list, order, more, n, i);
            (order.push(more[i]), swap_removed(more, i))
        }
    }
}

/// Law: sealed Payments have a common serial order. Taken in that order, every
/// Payment starts where both its warehouse and its district end, and the walk
/// ends in the sealed chains.
pub proof fn law_sealed_payments_have_a_serial_order(
    warehouses: u16,
    clients: u16,
    list: Seq<PaymentTerminalEvidence>,
)
    requires
        payment_config_fault(warehouses, clients) is None,
        payments_fed(fresh_payments(warehouses, clients), list, list.len() as int) matches Some(end)
            && payment_seal_fault(end) is None,
    ensures
        exists|order: Seq<int>|
            {
                let start = fresh_payments(warehouses, clients);
                let sealed = sealed_payments(payments_fed(start, list, list.len() as int)->0);
                &&& #[trigger] arranges(order, list.len())
                &&& walked(start, list, order, list.len() as int) == Some(
                    (sealed.warehouse_chains, sealed.district_chains),
                )
            },
{
    let start = fresh_payments(warehouses, clients);
    let end = payments_fed(start, list, list.len() as int)->0;
    let (order, waiting) = lemma_fed_split(start, list, list.len() as int);
    let (whole, rest) = lemma_drained_split(start, end, list, order, waiting, list.len() as int);
    assert(rest.len() == 0);
    assert(arranges(whole, list.len()));
}

/// Law: an accepted Payment passes by itself. Its two edges have one amount,
/// and each total is the sum of the total before it and the amount.
pub proof fn law_accepted_payments_are_exact(
    m: PaymentChains,
    list: Seq<PaymentTerminalEvidence>,
    n: int,
    i: int,
)
    requires
        0 <= i < n <= list.len(),
        payments_fed(m, list, n) is Some,
    ensures
        ({
            let t = list[i];
            &&& t.warehouse.amount_bits == t.district.amount_bits
            &&& sum(t.warehouse.before_bits, t.warehouse.amount_bits) == Some(
                t.warehouse.after_bits,
            )
            &&& sum(t.district.before_bits, t.district.amount_bits) == Some(
                t.district.after_bits,
            )
        }),
    decreases n,
{
    if i < n - 1 {
        law_accepted_payments_are_exact(m, list, n - 1, i);
    }
}

} // verus!
