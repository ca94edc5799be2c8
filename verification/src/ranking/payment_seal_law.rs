//! What a Payment collector keeps, and when and how it is sealed.
use vstd::prelude::*;

use crate::ranking::payment_completion_law::{
    all_sound, law_serial_payments_are_sealed, lemma_arrangement_covers, lemma_between,
    lemma_fed_sound, places, walk_state,
};
use crate::ranking::payment_endpoints::{
    DISTRICT_YTD_ROOT_BITS, EndpointChain, PaymentChains, PaymentEndpointError,
    PaymentTerminalEvidence, SealedPayments, WAREHOUSE_YTD_ROOT_BITS, advanced, buffered,
    enqueued, first_minimal, fresh_payments, lemma_advanced_sound, lemma_enqueued_sound,
    lemma_first_minimal, lemma_fresh_payments_sound, payment_collector_sound,
    payment_config_fault, payment_record_fault, payment_recorded, payment_seal_fault,
    payment_storage, payments_drained, payments_sound, sealed_payments, terminal_sound,
};
use crate::ranking::payment_order_law::payments_fed;
use crate::ranking::payment_serial_law::{arranges, law_sealed_payments_have_a_serial_order, walked};

verus! {

/// The collector after a Payment, accepted or refused.
pub open spec fn payment_tried(m: PaymentChains, t: PaymentTerminalEvidence) -> PaymentChains {
    if payment_record_fault(m, t) is None {
        payment_recorded(m, t)
    } else {
        PaymentChains { poisoned: true, ..m }
    }
}

/// The collector after the first `n` Payments of a list, accepted or refused.
pub open spec fn payments_tried(
    m: PaymentChains,
    list: Seq<PaymentTerminalEvidence>,
    n: int,
) -> PaymentChains
    decreases n,
{
    if n <= 0 {
        m
    } else {
        payment_tried(payments_tried(m, list, n - 1), list[n - 1])
    }
}

/// A Payment, accepted or refused, keeps the collector sound.
proof fn lemma_tried_sound(m: PaymentChains, t: PaymentTerminalEvidence)
    requires
        payment_collector_sound(m),
    ensures
        payment_collector_sound(payment_tried(m, t)),
        payment_tried(m, t).warehouses == m.warehouses,
        payment_tried(m, t).terminal_limit == m.terminal_limit,
{
    if payment_record_fault(m, t) is None {
        lemma_enqueued_sound(m, t);
        let queued = enqueued(m, buffered(t));
        if queued.pending.len() > m.terminal_limit {
            lemma_first_minimal(queued, 0);
            lemma_advanced_sound(queued, first_minimal(queued, 0)->0);
        }
    }
}

/// Law: memory is fixed. After any Payments, a collector has one chain for each
/// warehouse and each district, room for two edges of each client, and no more than
/// that waiting.
pub proof fn law_payment_memory_is_fixed(
    warehouses: u16,
    clients: u16,
    list: Seq<PaymentTerminalEvidence>,
    n: int,
)
    requires
        payment_config_fault(warehouses, clients) is None,
        0 <= n <= list.len(),
    ensures
        ({
            let m = payments_tried(fresh_payments(warehouses, clients), list, n);
            let held = payment_storage(m);
            &&& payment_collector_sound(m)
            &&& held.warehouse_slots == warehouses
            &&& held.district_slots == 10 * warehouses
            &&& held.pending_capacity == 2 * clients
            &&& held.pending_edges <= 2 * clients
        }),
    decreases n,
{
    let start = fresh_payments(warehouses, clients);
    lemma_fresh_payments_sound(warehouses, clients);
    lemma_tried_all_sound(start, list, n);
}

proof fn lemma_tried_all_sound(m: PaymentChains, list: Seq<PaymentTerminalEvidence>, n: int)
    requires
        payment_collector_sound(m),
        0 <= n <= list.len(),
    ensures
        payment_collector_sound(payments_tried(m, list, n)),
        payments_tried(m, list, n).warehouses == m.warehouses,
        payments_tried(m, list, n).terminal_limit == m.terminal_limit,
    decreases n,
{
    if n > 0 {
        lemma_tried_all_sound(m, list, n - 1);
        lemma_tried_sound(payments_tried(m, list, n - 1), list[n - 1]);
    }
}

/// Law: an accepted Payment is counted once.
pub proof fn law_accepted_payment_is_counted(m: PaymentChains, t: PaymentTerminalEvidence)
    requires
        payment_collector_sound(m),
        payment_record_fault(m, t) is None,
    ensures
        payment_storage(payment_recorded(m, t)).terminal_count == payment_storage(m).terminal_count
            + 1,
        !payment_recorded(m, t).poisoned,
{
}

/// Law: a refusal is final. A refused Payment leaves what the collector holds as it
/// was, and every later Payment, and sealing, is refused as poisoned.
pub proof fn law_refused_payment_poisons(
    m: PaymentChains,
    t: PaymentTerminalEvidence,
    later: Seq<PaymentTerminalEvidence>,
    n: int,
    next: PaymentTerminalEvidence,
)
    requires
        payment_record_fault(m, t) is Some,
        0 <= n <= later.len(),
    ensures
        ({
            let end = payments_tried(payment_tried(m, t), later, n);
            &&& end == (PaymentChains { poisoned: true, ..m })
            &&& payment_storage(end) == payment_storage(m)
            &&& payment_record_fault(end, next) == Some(PaymentEndpointError::Poisoned)
            &&& payment_seal_fault(end) == Some(PaymentEndpointError::Poisoned)
        }),
    decreases n,
{
    if n > 0 {
        law_refused_payment_poisons(m, t, later, n - 1, later[n - 1]);
    }
}

/// The Payments of a warehouse, by their places in a list.
pub open spec fn on_warehouse(list: Seq<PaymentTerminalEvidence>, w: int) -> Set<int> {
    Set::new(|p: int| 0 <= p < list.len() && buffered(list[p]).warehouse_index == w)
}

/// The Payments of a district, by their places in a list.
pub open spec fn on_district(list: Seq<PaymentTerminalEvidence>, d: int) -> Set<int> {
    Set::new(|p: int| 0 <= p < list.len() && buffered(list[p]).district_index == d)
}

/// A chain is what its updates make of its root: as many as there are, up to the
/// highest total, or the root if there are none.
pub open spec fn warehouse_made(
    chain: EndpointChain,
    list: Seq<PaymentTerminalEvidence>,
    places: Set<int>,
) -> bool {
    &&& chain.root_bits == WAREHOUSE_YTD_ROOT_BITS
    &&& places.finite()
    &&& chain.update_count == places.len()
    &&& places == Set::<int>::empty() ==> chain.endpoint_bits == WAREHOUSE_YTD_ROOT_BITS
    &&& forall|p: int| #[trigger]
        places.contains(p) ==> list[p].warehouse.after_bits <= chain.endpoint_bits
    &&& places != Set::<int>::empty() ==> exists|p: int| #[trigger]
        places.contains(p) && list[p].warehouse.after_bits == chain.endpoint_bits
}

/// A chain is what its updates make of its root: as many as there are, up to the
/// highest total, or the root if there are none.
pub open spec fn district_made(
    chain: EndpointChain,
    list: Seq<PaymentTerminalEvidence>,
    places: Set<int>,
) -> bool {
    &&& chain.root_bits == DISTRICT_YTD_ROOT_BITS
    &&& places.finite()
    &&& chain.update_count == places.len()
    &&& places == Set::<int>::empty() ==> chain.endpoint_bits == DISTRICT_YTD_ROOT_BITS
    &&& forall|p: int| #[trigger]
        places.contains(p) ==> list[p].district.after_bits <= chain.endpoint_bits
    &&& places != Set::<int>::empty() ==> exists|p: int| #[trigger]
        places.contains(p) && list[p].district.after_bits == chain.endpoint_bits
}

/// The places of a warehouse among the first `n` of an order.
spec fn warehouse_walked(
    list: Seq<PaymentTerminalEvidence>,
    order: Seq<int>,
    n: int,
    w: int,
) -> Set<int>
    decreases n,
{
    if n <= 0 {
        Set::empty()
    } else if buffered(list[order[n - 1]]).warehouse_index == w {
        warehouse_walked(list, order, n - 1, w).insert(order[n - 1])
    } else {
        warehouse_walked(list, order, n - 1, w)
    }
}

/// The places of a district among the first `n` of an order.
spec fn district_walked(
    list: Seq<PaymentTerminalEvidence>,
    order: Seq<int>,
    n: int,
    d: int,
) -> Set<int>
    decreases n,
{
    if n <= 0 {
        Set::empty()
    } else if buffered(list[order[n - 1]]).district_index == d {
        district_walked(list, order, n - 1, d).insert(order[n - 1])
    } else {
        district_walked(list, order, n - 1, d)
    }
}

proof fn lemma_warehouse_places(
    list: Seq<PaymentTerminalEvidence>,
    order: Seq<int>,
    n: int,
    w: int,
)
    requires
        0 <= n <= order.len(),
    ensures
        warehouse_walked(list, order, n, w).finite(),
        warehouse_walked(list, order, n, w).len() <= n,
        forall|p: int| #[trigger]
            warehouse_walked(list, order, n, w).contains(p) <==> buffered(list[p]).warehouse_index
                == w && exists|k: int| 0 <= k < n && #[trigger] order[k] == p,
    decreases n,
{
    if n > 0 {
        lemma_warehouse_places(list, order, n - 1, w);
        assert forall|p: int| #[trigger]
            warehouse_walked(list, order, n, w).contains(p) <==> buffered(list[p]).warehouse_index
            == w && exists|k: int| 0 <= k < n && #[trigger] order[k] == p by {
            assert(order[n - 1] == order[n - 1]);
            if exists|k: int| 0 <= k < n && #[trigger] order[k] == p {
                let k = choose|k: int| 0 <= k < n && #[trigger] order[k] == p;
                if k < n - 1 {
                    assert(exists|k: int| 0 <= k < n - 1 && #[trigger] order[k] == p);
                }
            }
        }
    }
}

proof fn lemma_district_places(
    list: Seq<PaymentTerminalEvidence>,
    order: Seq<int>,
    n: int,
    d: int,
)
    requires
        0 <= n <= order.len(),
    ensures
        district_walked(list, order, n, d).finite(),
        district_walked(list, order, n, d).len() <= n,
        forall|p: int| #[trigger]
            district_walked(list, order, n, d).contains(p) <==> buffered(list[p]).district_index
                == d && exists|k: int| 0 <= k < n && #[trigger] order[k] == p,
    decreases n,
{
    if n > 0 {
        lemma_district_places(list, order, n - 1, d);
        assert forall|p: int| #[trigger]
            district_walked(list, order, n, d).contains(p) <==> buffered(list[p]).district_index
            == d && exists|k: int| 0 <= k < n && #[trigger] order[k] == p by {
            assert(order[n - 1] == order[n - 1]);
            if exists|k: int| 0 <= k < n && #[trigger] order[k] == p {
                let k = choose|k: int| 0 <= k < n && #[trigger] order[k] == p;
                if k < n - 1 {
                    assert(exists|k: int| 0 <= k < n - 1 && #[trigger] order[k] == p);
                }
            }
        }
    }
}

/// What a walk makes of one warehouse.
proof fn lemma_walk_makes_warehouse(
    m: PaymentChains,
    list: Seq<PaymentTerminalEvidence>,
    order: Seq<int>,
    n: int,
    w: int,
)
    requires
        payments_sound(m),
        all_sound(m.warehouses, list),
        places(order, list),
        order.no_duplicates(),
        0 <= n <= order.len(),
        order.len() <= u64::MAX,
        walked(m, list, order, n) is Some,
        0 <= w < m.warehouses,
        warehouse_made(m.warehouse_chains[w], list, Set::empty()),
    ensures
        warehouse_made(
            walk_state(m, list, order, n).0[w],
            list,
            warehouse_walked(list, order, n, w),
        ),
    decreases n,
{
    if n > 0 {
        lemma_between(m, list, order, n - 1, n);
        lemma_walk_makes_warehouse(m, list, order, n - 1, w);
        lemma_warehouse_places(list, order, n - 1, w);
        let x = order[n - 1];
        let t = buffered(list[x]);
        assert(terminal_sound(m.warehouses, t));
        let before = warehouse_walked(list, order, n - 1, w);
        let after = warehouse_walked(list, order, n, w);
        if t.warehouse_index == w {
            assert(!before.contains(x));
            assert(after.contains(x));
            assert(after != Set::<int>::empty());
        }
    }
}

/// What a walk makes of one district.
proof fn lemma_walk_makes_district(
    m: PaymentChains,
    list: Seq<PaymentTerminalEvidence>,
    order: Seq<int>,
    n: int,
    d: int,
)
    requires
        payments_sound(m),
        all_sound(m.warehouses, list),
        places(order, list),
        order.no_duplicates(),
        0 <= n <= order.len(),
        order.len() <= u64::MAX,
        walked(m, list, order, n) is Some,
        0 <= d < 10 * m.warehouses,
        district_made(m.district_chains[d], list, Set::empty()),
    ensures
        district_made(
            walk_state(m, list, order, n).1[d],
            list,
            district_walked(list, order, n, d),
        ),
    decreases n,
{
    if n > 0 {
        lemma_between(m, list, order, n - 1, n);
        lemma_walk_makes_district(m, list, order, n - 1, d);
        lemma_district_places(list, order, n - 1, d);
        let x = order[n - 1];
        let t = buffered(list[x]);
        assert(terminal_sound(m.warehouses, t));
        let before = district_walked(list, order, n - 1, d);
        let after = district_walked(list, order, n, d);
        if t.district_index == d {
            assert(!before.contains(x));
            assert(after.contains(x));
            assert(after != Set::<int>::empty());
        }
    }
}

/// What a walk over all Payments makes of the rows.
proof fn lemma_serial_makes(
    warehouses: u16,
    clients: u16,
    list: Seq<PaymentTerminalEvidence>,
    order: Seq<int>,
)
    requires
        payment_config_fault(warehouses, clients) is None,
        payments_fed(fresh_payments(warehouses, clients), list, list.len() as int) is Some,
        arranges(order, list.len()),
        walked(fresh_payments(warehouses, clients), list, order, list.len() as int) is Some,
    ensures
        ({
            let (x, y) = walked(
                fresh_payments(warehouses, clients),
                list,
                order,
                list.len() as int,
            )->0;
            &&& x.len() == warehouses
            &&& y.len() == 10 * warehouses
            &&& forall|w: int|
                0 <= w < warehouses ==> warehouse_made(#[trigger] x[w], list, on_warehouse(list, w))
            &&& forall|d: int|
                0 <= d < 10 * warehouses ==> district_made(
                    #[trigger] y[d],
                    list,
                    on_district(list, d),
                )
        }),
{
    let start = fresh_payments(warehouses, clients);
    let n = list.len() as int;
    lemma_fresh_payments_sound(warehouses, clients);
    lemma_fed_sound(start, list, n);
    lemma_fed_counted(start, list, n);
    lemma_arrangement_covers(order, list.len());
    lemma_between(start, list, order, n, n);
    let (x, y) = walk_state(start, list, order, n);
    assert forall|w: int| 0 <= w < warehouses implies warehouse_made(
        #[trigger] x[w],
        list,
        on_warehouse(list, w),
    ) by {
        lemma_walk_makes_warehouse(start, list, order, n, w);
        lemma_warehouse_places(list, order, n, w);
        assert(warehouse_walked(list, order, n, w) =~= on_warehouse(list, w)) by {
            assert forall|p: int| warehouse_walked(list, order, n, w).contains(p)
                <==> on_warehouse(list, w).contains(p) by {
                if 0 <= p < n {
                    assert(order.contains(p));
                    let k = choose|k: int| 0 <= k < order.len() && order[k] == p;
                    assert(order[k] == p);
                }
            }
        }
    }
    assert forall|d: int| 0 <= d < 10 * warehouses implies district_made(
        #[trigger] y[d],
        list,
        on_district(list, d),
    ) by {
        lemma_walk_makes_district(start, list, order, n, d);
        lemma_district_places(list, order, n, d);
        assert(district_walked(list, order, n, d) =~= on_district(list, d)) by {
            assert forall|p: int| district_walked(list, order, n, d).contains(p)
                <==> on_district(list, d).contains(p) by {
                if 0 <= p < n {
                    assert(order.contains(p));
                    let k = choose|k: int| 0 <= k < order.len() && order[k] == p;
                    assert(order[k] == p);
                }
            }
        }
    }
}

/// Every accepted Payment is counted.
proof fn lemma_fed_counted(m: PaymentChains, list: Seq<PaymentTerminalEvidence>, n: int)
    requires
        0 <= n <= list.len(),
        payments_fed(m, list, n) is Some,
        !m.poisoned,
    ensures
        payments_fed(m, list, n)->0.terminal_count == m.terminal_count + n,
        !payments_fed(m, list, n)->0.poisoned,
    decreases n,
{
    if n > 0 {
        lemma_fed_counted(m, list, n - 1);
    }
}

proof fn lemma_drained_counts(m: PaymentChains)
    ensures
        payments_drained(m).terminal_count == m.terminal_count,
        payments_drained(m).poisoned == m.poisoned,
        payments_drained(m).warehouses == m.warehouses,
    decreases m.pending.len(),
{
    lemma_first_minimal(m, 0);
    if let Some(i) = first_minimal(m, 0) {
        lemma_drained_counts(advanced(m, i));
    }
}

/// Whether an order is a serial order of Payments on both of their rows.
pub open spec fn serial_order(
    warehouses: u16,
    clients: u16,
    list: Seq<PaymentTerminalEvidence>,
    order: Seq<int>,
) -> bool {
    arranges(order, list.len()) && walked(
        fresh_payments(warehouses, clients),
        list,
        order,
        list.len() as int,
    ) is Some
}

/// Law: accepted Payments are sealed exactly if they have a common serial order, and
/// are refused as disconnected else. Sealed, all of them are counted; each row has
/// as many updates as there are Payments on it and ends at the highest of their
/// totals, or at its root; and every serial order leads there.
pub proof fn law_payments_are_sealed_exactly_if_serial(
    warehouses: u16,
    clients: u16,
    list: Seq<PaymentTerminalEvidence>,
)
    requires
        payment_config_fault(warehouses, clients) is None,
        payments_fed(fresh_payments(warehouses, clients), list, list.len() as int) is Some,
    ensures
        ({
            let end = payments_fed(fresh_payments(warehouses, clients), list, list.len() as int)->0;
            let sealed = sealed_payments(end);
            &&& payment_seal_fault(end) is None <==> exists|order: Seq<int>| #[trigger]
                serial_order(warehouses, clients, list, order)
            &&& payment_seal_fault(end) matches Some(error) ==> error is Disconnected
            &&& payment_seal_fault(end) is None ==> {
                &&& sealed.warehouses == warehouses
                &&& sealed.terminal_count == list.len()
                &&& sealed.warehouse_chains.len() == warehouses
                &&& sealed.district_chains.len() == 10 * warehouses
                &&& forall|w: int|
                    0 <= w < warehouses ==> warehouse_made(
                        #[trigger] sealed.warehouse_chains[w],
                        list,
                        on_warehouse(list, w),
                    )
                &&& forall|d: int|
                    0 <= d < 10 * warehouses ==> district_made(
                        #[trigger] sealed.district_chains[d],
                        list,
                        on_district(list, d),
                    )
                &&& forall|order: Seq<int>| #[trigger]
                    serial_order(warehouses, clients, list, order) ==> walked(
                        fresh_payments(warehouses, clients),
                        list,
                        order,
                        list.len() as int,
                    ) == Some((sealed.warehouse_chains, sealed.district_chains))
            }
        }),
{
    let start = fresh_payments(warehouses, clients);
    let n = list.len() as int;
    let end = payments_fed(start, list, n)->0;
    let sealed = sealed_payments(end);
    lemma_fed_counted(start, list, n);
    lemma_drained_counts(end);
    lemma_fresh_payments_sound(warehouses, clients);
    lemma_fed_sound(start, list, n);
    assert forall|order: Seq<int>| #[trigger]
        serial_order(warehouses, clients, list, order) implies payment_seal_fault(end) is None by {
        law_serial_payments_are_sealed(warehouses, clients, list, order);
    }
    if payment_seal_fault(end) is None {
        law_sealed_payments_have_a_serial_order(warehouses, clients, list);
        let found = choose|order: Seq<int>|
            {
                &&& #[trigger] arranges(order, list.len())
                &&& walked(start, list, order, n) == Some(
                    (sealed.warehouse_chains, sealed.district_chains),
                )
            };
        assert(serial_order(warehouses, clients, list, found));
        lemma_serial_makes(warehouses, clients, list, found);
        assert forall|order: Seq<int>| #[trigger]
            serial_order(warehouses, clients, list, order) implies walked(start, list, order, n)
            == Some((sealed.warehouse_chains, sealed.district_chains)) by {
            lemma_serial_makes(warehouses, clients, list, order);
            lemma_made_alike(warehouses, list, walked(start, list, order, n)->0, sealed);
        }
    }
}

/// What the same updates make of the rows is the same.
proof fn lemma_made_alike(
    warehouses: u16,
    list: Seq<PaymentTerminalEvidence>,
    chains: (Seq<EndpointChain>, Seq<EndpointChain>),
    sealed: SealedPayments,
)
    requires
        chains.0.len() == warehouses,
        chains.1.len() == 10 * warehouses,
        sealed.warehouse_chains.len() == warehouses,
        sealed.district_chains.len() == 10 * warehouses,
        forall|w: int|
            0 <= w < warehouses ==> warehouse_made(
                #[trigger] chains.0[w],
                list,
                on_warehouse(list, w),
            ),
        forall|d: int|
            0 <= d < 10 * warehouses ==> district_made(
                #[trigger] chains.1[d],
                list,
                on_district(list, d),
            ),
        forall|w: int|
            0 <= w < warehouses ==> warehouse_made(
                #[trigger] sealed.warehouse_chains[w],
                list,
                on_warehouse(list, w),
            ),
        forall|d: int|
            0 <= d < 10 * warehouses ==> district_made(
                #[trigger] sealed.district_chains[d],
                list,
                on_district(list, d),
            ),
    ensures
        chains.0 == sealed.warehouse_chains,
        chains.1 == sealed.district_chains,
{
    assert forall|w: int| 0 <= w < warehouses implies chains.0[w]
        == sealed.warehouse_chains[w] by {
        assert(warehouse_made(chains.0[w], list, on_warehouse(list, w)));
        assert(warehouse_made(sealed.warehouse_chains[w], list, on_warehouse(list, w)));
    }
    assert forall|d: int| 0 <= d < 10 * warehouses implies chains.1[d]
        == sealed.district_chains[d] by {
        assert(district_made(chains.1[d], list, on_district(list, d)));
        assert(district_made(sealed.district_chains[d], list, on_district(list, d)));
    }
    assert(chains.0 =~= sealed.warehouse_chains);
    assert(chains.1 =~= sealed.district_chains);
}

} // verus!
