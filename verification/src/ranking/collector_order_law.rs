//! The order in which a collector is offered updates does not matter.
use vstd::multiset::*;
use vstd::prelude::*;

use crate::consistency::CustomerUpdateEvidence;
use crate::ranking::customer_chain::{
    CustomerChainModel, CustomerKey, CustomerSegment, customer_inserted, edge_fault, edge_segment,
    loaded_chain,
};
use crate::ranking::customer_order_law::{customer_fed, law_customer_order_does_not_matter};
use crate::ranking::evidence_collector::{
    CollectorModel, CollectorStep, SealedIntervalEvidence, customer_chain_of, customer_code,
    customer_key_valid, customer_recorded, law_customer_places, law_key_list_is_unique,
    law_stock_places, seal_answer, seals_customer, seals_stock, stock_chain_of, stock_code,
    stock_key_valid, stock_recorded,
};
use crate::ranking::interval_pending::Segment;
use crate::ranking::interval_runs::all_units;
use crate::ranking::runner::StockVersion;
use crate::ranking::stock_chain::{
    StockChainModel, StockKey, StockSegment, stock_edge_fault, stock_edge_segment, stock_inserted,
    unknown_stock,
};
use crate::ranking::stock_order_law::{law_stock_order_does_not_matter, stock_fed};

verus! {

/// One update that a collector is offered.
pub enum RowUpdate {
    Customer { key: CustomerKey, update: CustomerUpdateEvidence },
    Stock { key: StockKey, ordered: u8, remote: u8, before: StockVersion, after: StockVersion },
}

/// A collector after one update.
pub open spec fn row_recorded(s: CollectorModel, u: RowUpdate) -> CollectorStep {
    match u {
        RowUpdate::Customer { key, update } => customer_recorded(s, key, update),
        RowUpdate::Stock { key, ordered, remote, before, after } => stock_recorded(
            s,
            key,
            ordered,
            remote,
            before,
            after,
        ),
    }
}

/// A collector after the first `n` updates, up to the first that is refused.
pub open spec fn rows_fed(s: CollectorModel, list: Seq<RowUpdate>, n: int) -> CollectorStep
    decreases n,
{
    if n <= 0 {
        CollectorStep { state: s, fault: None }
    } else {
        let before = rows_fed(s, list, n - 1);
        if before.fault is Some {
            before
        } else {
            row_recorded(before.state, list[n - 1])
        }
    }
}

/// A collector that was offered nothing.
pub open spec fn fresh_collector(warehouses: u16, clients: u16, seed: u64) -> CollectorModel {
    CollectorModel {
        warehouses: warehouses as i32,
        limit: (clients * 25) as usize,
        seed,
        customers: Map::empty(),
        stocks: Map::empty(),
        pending: 0,
    }
}

/// What the first `n` updates are to one row.
pub open spec fn picked<E>(pick: spec_fn(RowUpdate) -> Option<E>, list: Seq<RowUpdate>, n: int) -> Seq<E>
    decreases n,
{
    if n <= 0 {
        Seq::empty()
    } else {
        match pick(list[n - 1]) {
            Some(e) => picked(pick, list, n - 1).push(e),
            None => picked(pick, list, n - 1),
        }
    }
}

/// What the first `n` updates are to one row, in no order.
spec fn picked_set<E>(
    pick: spec_fn(RowUpdate) -> Option<E>,
    list: Seq<RowUpdate>,
    n: int,
) -> Multiset<E>
    decreases n,
{
    if n <= 0 {
        Multiset::empty()
    } else {
        match pick(list[n - 1]) {
            Some(e) => picked_set(pick, list, n - 1).insert(e),
            None => picked_set(pick, list, n - 1),
        }
    }
}

proof fn lemma_picked_set<E>(pick: spec_fn(RowUpdate) -> Option<E>, list: Seq<RowUpdate>, n: int)
    ensures
        picked(pick, list, n).to_multiset() == picked_set(pick, list, n),
    decreases n,
{
    picked(pick, list, n).to_multiset_ensures();
    if n > 0 {
        lemma_picked_set(pick, list, n - 1);
        picked(pick, list, n - 1).to_multiset_ensures();
    } else {
        assert(picked(pick, list, n).to_multiset() =~= Multiset::empty());
    }
}

proof fn lemma_picked_prefix<E>(
    pick: spec_fn(RowUpdate) -> Option<E>,
    a: Seq<RowUpdate>,
    b: Seq<RowUpdate>,
    n: int,
)
    requires
        forall|i: int| 0 <= i < n ==> a[i] == b[i],
    ensures
        picked_set(pick, a, n) == picked_set(pick, b, n),
    decreases n,
{
    if n > 0 {
        lemma_picked_prefix(pick, a, b, n - 1);
    }
}

/// One more update, or none.
spec fn with_pick<E>(s: Multiset<E>, e: Option<E>) -> Multiset<E> {
    match e {
        Some(x) => s.insert(x),
        None => s,
    }
}

proof fn lemma_picked_without<E>(
    pick: spec_fn(RowUpdate) -> Option<E>,
    list: Seq<RowUpdate>,
    j: int,
)
    requires
        0 <= j < list.len(),
    ensures
        picked_set(pick, list, list.len() as int) == with_pick(
            picked_set(pick, list.remove(j), list.len() - 1),
            pick(list[j]),
        ),
    decreases list.len(),
{
    let n = list.len() as int;
    let front = list.drop_last();
    lemma_picked_prefix(pick, list, front, n - 1);
    if j == n - 1 {
        assert(list.remove(j) =~= front);
    } else {
        lemma_picked_without(pick, front, j);
        let less = list.remove(j);
        assert(less.drop_last() =~= front.remove(j));
        assert(less.last() == list.last());
        lemma_picked_prefix(pick, less, less.drop_last(), n - 2);
        assert(picked_set(pick, list, n) =~= with_pick(
            picked_set(pick, less, n - 1),
            pick(list[j]),
        ));
    }
}

proof fn lemma_picked_rearranged<E>(
    pick: spec_fn(RowUpdate) -> Option<E>,
    a: Seq<RowUpdate>,
    b: Seq<RowUpdate>,
)
    requires
        a.to_multiset() == b.to_multiset(),
    ensures
        picked_set(pick, a, a.len() as int) == picked_set(pick, b, b.len() as int),
    decreases a.len(),
{
    a.to_multiset_ensures();
    b.to_multiset_ensures();
    if a.len() > 0 {
        let last = a.last();
        assert(a.contains(last));
        assert(b.to_multiset().count(last) > 0);
        assert(b.contains(last));
        let j = choose|j: int| 0 <= j < b.len() && b[j] == last;
        let front = a.remove(a.len() - 1);
        let rest = b.remove(j);
        assert(front.to_multiset() =~= a.to_multiset().remove(last));
        assert(rest.to_multiset() =~= b.to_multiset().remove(last));
        lemma_picked_rearranged(pick, front, rest);
        lemma_picked_without(pick, a, a.len() - 1);
        lemma_picked_without(pick, b, j);
    }
}

/// The run of an update, if it is one of a customer.
pub open spec fn customer_pick(seed: u64, key: CustomerKey) -> spec_fn(RowUpdate) -> Option<CustomerSegment> {
    |u: RowUpdate|
        match u {
            RowUpdate::Customer { key: k, update } => if k == key {
                Some(edge_segment(seed, key, update))
            } else {
                None
            },
            RowUpdate::Stock { .. } => None,
        }
}

/// The run of an update, if it is one of a stock row.
pub open spec fn stock_pick(seed: u64, key: StockKey) -> spec_fn(RowUpdate) -> Option<StockSegment> {
    |u: RowUpdate|
        match u {
            RowUpdate::Customer { .. } => None,
            RowUpdate::Stock { key: k, ordered, remote, before, after } => if k == key {
                Some(stock_edge_segment(seed, key, ordered, remote, before, after))
            } else {
                None
            },
        }
}

/// The updates of a customer.
pub open spec fn customer_edges(seed: u64, key: CustomerKey, list: Seq<RowUpdate>, n: int) -> Seq<
    CustomerSegment,
> {
    picked(customer_pick(seed, key), list, n)
}

/// The updates of a stock row.
pub open spec fn stock_edges(seed: u64, key: StockKey, list: Seq<RowUpdate>, n: int) -> Seq<StockSegment> {
    picked(stock_pick(seed, key), list, n)
}

/// The chain of a customer is what its updates make of the loaded row.
pub open spec fn customer_told(s: CollectorModel, key: CustomerKey, list: Seq<RowUpdate>, n: int) -> bool {
    let edges = customer_edges(s.seed, key, list, n);
    let fed = customer_fed(loaded_chain(key), edges, edges.len() as int);
    &&& all_units(edges)
    &&& fed.fault is None
    &&& customer_chain_of(s, key) == fed.chain
    &&& s.customers.contains_key(customer_code(key) as u64) <==> edges.len() > 0
}

/// The chain of a stock row is what its updates make of an unknown row.
pub open spec fn stock_told(s: CollectorModel, key: StockKey, list: Seq<RowUpdate>, n: int) -> bool {
    let edges = stock_edges(s.seed, key, list, n);
    let fed = stock_fed(unknown_stock(key), edges, edges.len() as int);
    &&& all_units(edges)
    &&& fed.fault is None
    &&& stock_chain_of(s, key) == fed.chain
    &&& s.stocks.contains_key(stock_code(key) as u64) <==> edges.len() > 0
}

/// A collector holds the chains of its updates and no others.
pub open spec fn collector_told(s: CollectorModel, list: Seq<RowUpdate>, n: int) -> bool {
    &&& 1 <= s.warehouses <= 65_535
    &&& forall|key: CustomerKey|
        customer_key_valid(s.warehouses, key) ==> #[trigger] customer_told(s, key, list, n)
    &&& forall|key: StockKey|
        stock_key_valid(s.warehouses, key) ==> #[trigger] stock_told(s, key, list, n)
    &&& forall|c: u64| #[trigger]
        s.customers.contains_key(c) ==> exists|key: CustomerKey| #[trigger]
            customer_key_valid(s.warehouses, key) && customer_code(key) == c
    &&& forall|c: u64| #[trigger]
        s.stocks.contains_key(c) ==> exists|key: StockKey| #[trigger]
            stock_key_valid(s.warehouses, key) && stock_code(key) == c
}

proof fn lemma_customer_fed_prefix(
    chain: CustomerChainModel,
    a: Seq<CustomerSegment>,
    b: Seq<CustomerSegment>,
    n: int,
)
    requires
        forall|i: int| 0 <= i < n ==> a[i] == b[i],
    ensures
        customer_fed(chain, a, n) == customer_fed(chain, b, n),
    decreases n,
{
    if n > 0 {
        lemma_customer_fed_prefix(chain, a, b, n - 1);
    }
}

proof fn lemma_stock_fed_prefix(
    chain: StockChainModel,
    a: Seq<StockSegment>,
    b: Seq<StockSegment>,
    n: int,
)
    requires
        forall|i: int| 0 <= i < n ==> a[i] == b[i],
    ensures
        stock_fed(chain, a, n) == stock_fed(chain, b, n),
    decreases n,
{
    if n > 0 {
        lemma_stock_fed_prefix(chain, a, b, n - 1);
    }
}

/// An update that is accepted by itself is a single sound one.
proof fn lemma_customer_unit(seed: u64, key: CustomerKey, update: CustomerUpdateEvidence)
    requires
        edge_fault(update) is None,
    ensures
        edge_segment(seed, key, update).sound(),
        edge_segment(seed, key, update).to_version() == edge_segment(
            seed,
            key,
            update,
        ).from_version() + 1,
{
}

/// An update that is accepted by itself is a single sound one.
proof fn lemma_stock_unit(
    seed: u64,
    key: StockKey,
    ordered: u8,
    remote: u8,
    before: StockVersion,
    after: StockVersion,
)
    requires
        stock_edge_fault(ordered, remote, before, after) is None,
    ensures
        stock_edge_segment(seed, key, ordered, remote, before, after).sound(),
        stock_edge_segment(seed, key, ordered, remote, before, after).to_version()
            == stock_edge_segment(seed, key, ordered, remote, before, after).from_version() + 1,
{
}

proof fn lemma_customer_step(
    s: CollectorModel,
    list: Seq<RowUpdate>,
    n: int,
    key: CustomerKey,
    update: CustomerUpdateEvidence,
)
    requires
        0 <= n < list.len(),
        collector_told(s, list, n),
        list[n] == (RowUpdate::Customer { key, update }),
        customer_recorded(s, key, update).fault is None,
    ensures
        collector_told(customer_recorded(s, key, update).state, list, n + 1),
{
    let next = customer_recorded(s, key, update).state;
    let e = edge_segment(s.seed, key, update);
    let code = customer_code(key) as u64;
    lemma_customer_unit(s.seed, key, update);
    assert(next.warehouses == s.warehouses && next.seed == s.seed && next.stocks == s.stocks);
    assert forall|k: CustomerKey| customer_key_valid(next.warehouses, k) implies #[trigger]
        customer_told(next, k, list, n + 1) by {
        assert(customer_told(s, k, list, n));
        let before = customer_edges(s.seed, k, list, n);
        let after = customer_edges(s.seed, k, list, n + 1);
        if k == key {
            assert(after == before.push(e));
            lemma_customer_fed_prefix(loaded_chain(k), after, before, before.len() as int);
            assert(customer_fed(loaded_chain(k), after, after.len() as int) == customer_inserted(
                customer_chain_of(s, k),
                e,
            ));
        } else {
            law_customer_places(s.warehouses, k, key);
            assert(after == before);
            assert(customer_code(k) as u64 != code);
        }
    }
    assert forall|k: StockKey| stock_key_valid(next.warehouses, k) implies #[trigger] stock_told(
        next,
        k,
        list,
        n + 1,
    ) by {
        assert(stock_told(s, k, list, n));
        assert(stock_edges(s.seed, k, list, n + 1) == stock_edges(s.seed, k, list, n));
    }
    assert forall|c: u64| #[trigger] next.customers.contains_key(c) implies exists|
        k: CustomerKey,
    | #[trigger] customer_key_valid(next.warehouses, k) && customer_code(k) == c by {
        if c == code {
            assert(customer_key_valid(next.warehouses, key));
        } else {
            assert(s.customers.contains_key(c));
        }
    }
}

proof fn lemma_stock_step(
    s: CollectorModel,
    list: Seq<RowUpdate>,
    n: int,
    key: StockKey,
    ordered: u8,
    remote: u8,
    before_row: StockVersion,
    after_row: StockVersion,
)
    requires
        0 <= n < list.len(),
        collector_told(s, list, n),
        list[n] == (RowUpdate::Stock { key, ordered, remote, before: before_row, after: after_row }),
        stock_recorded(s, key, ordered, remote, before_row, after_row).fault is None,
    ensures
        collector_told(
            stock_recorded(s, key, ordered, remote, before_row, after_row).state,
            list,
            n + 1,
        ),
{
    let next = stock_recorded(s, key, ordered, remote, before_row, after_row).state;
    let e = stock_edge_segment(s.seed, key, ordered, remote, before_row, after_row);
    let code = stock_code(key) as u64;
    lemma_stock_unit(s.seed, key, ordered, remote, before_row, after_row);
    assert(next.warehouses == s.warehouses && next.seed == s.seed && next.customers
        == s.customers);
    assert forall|k: StockKey| stock_key_valid(next.warehouses, k) implies #[trigger] stock_told(
        next,
        k,
        list,
        n + 1,
    ) by {
        assert(stock_told(s, k, list, n));
        let before = stock_edges(s.seed, k, list, n);
        let after = stock_edges(s.seed, k, list, n + 1);
        if k == key {
            assert(after == before.push(e));
            lemma_stock_fed_prefix(unknown_stock(k), after, before, before.len() as int);
            assert(stock_fed(unknown_stock(k), after, after.len() as int) == stock_inserted(
                stock_chain_of(s, k),
                e,
            ));
        } else {
            law_stock_places(s.warehouses, k, key);
            assert(after == before);
            assert(stock_code(k) as u64 != code);
        }
    }
    assert forall|k: CustomerKey| customer_key_valid(next.warehouses, k) implies #[trigger]
        customer_told(next, k, list, n + 1) by {
        assert(customer_told(s, k, list, n));
        assert(customer_edges(s.seed, k, list, n + 1) == customer_edges(s.seed, k, list, n));
    }
    assert forall|c: u64| #[trigger] next.stocks.contains_key(c) implies exists|
        k: StockKey,
    | #[trigger] stock_key_valid(next.warehouses, k) && stock_code(k) == c by {
        if c == code {
            assert(stock_key_valid(next.warehouses, key));
        } else {
            assert(s.stocks.contains_key(c));
        }
    }
}

/// An accepted list of updates is what the collector holds.
pub proof fn lemma_rows_told(warehouses: u16, clients: u16, seed: u64, list: Seq<RowUpdate>, n: int)
    requires
        warehouses > 0,
        0 <= n <= list.len(),
        rows_fed(fresh_collector(warehouses, clients, seed), list, n).fault is None,
    ensures
        collector_told(rows_fed(fresh_collector(warehouses, clients, seed), list, n).state, list, n),
        rows_fed(fresh_collector(warehouses, clients, seed), list, n).state.warehouses
            == warehouses,
        rows_fed(fresh_collector(warehouses, clients, seed), list, n).state.seed == seed,
    decreases n,
{
    let fresh = fresh_collector(warehouses, clients, seed);
    if n > 0 {
        lemma_rows_told(warehouses, clients, seed, list, n - 1);
        let before = rows_fed(fresh, list, n - 1).state;
        match list[n - 1] {
            RowUpdate::Customer { key, update } => {
                lemma_customer_step(before, list, n - 1, key, update);
            },
            RowUpdate::Stock { key, ordered, remote, before: b, after: a } => {
                lemma_stock_step(before, list, n - 1, key, ordered, remote, b, a);
            },
        }
    } else {
        assert forall|k: CustomerKey| customer_key_valid(fresh.warehouses, k) implies #[trigger]
            customer_told(fresh, k, list, 0) by {}
        assert forall|k: StockKey| stock_key_valid(fresh.warehouses, k) implies #[trigger]
            stock_told(fresh, k, list, 0) by {}
    }
}

/// Rearranged updates make the same customer chains.
pub proof fn lemma_same_customers(s: CollectorModel, t: CollectorModel, a: Seq<RowUpdate>, b: Seq<
    RowUpdate,
>)
    requires
        collector_told(s, a, a.len() as int),
        collector_told(t, b, b.len() as int),
        s.warehouses == t.warehouses,
        s.seed == t.seed,
        a.to_multiset() == b.to_multiset(),
    ensures
        s.customers == t.customers,
{
    assert forall|k: CustomerKey| customer_key_valid(s.warehouses, k) implies (
    s.customers.contains_key(customer_code(k) as u64) <==> t.customers.contains_key(
        customer_code(k) as u64,
    )) && #[trigger] customer_chain_of(s, k) == customer_chain_of(t, k) by {
        let pick = customer_pick(s.seed, k);
        let x = customer_edges(s.seed, k, a, a.len() as int);
        let y = customer_edges(s.seed, k, b, b.len() as int);
        assert(customer_told(s, k, a, a.len() as int));
        assert(customer_told(t, k, b, b.len() as int));
        lemma_picked_set(pick, a, a.len() as int);
        lemma_picked_set(pick, b, b.len() as int);
        lemma_picked_rearranged(pick, a, b);
        law_customer_order_does_not_matter(k, x, y);
        x.to_multiset_ensures();
        y.to_multiset_ensures();
        assert(x.len() == y.len());
    }
    assert forall|c: u64| #[trigger] s.customers.contains_key(c) implies t.customers.contains_key(c)
        && s.customers[c] == t.customers[c] by {
        let k = choose|k: CustomerKey| #[trigger]
            customer_key_valid(s.warehouses, k) && customer_code(k) == c;
        assert(customer_chain_of(s, k) == customer_chain_of(t, k));
    }
    assert forall|c: u64| #[trigger] t.customers.contains_key(c) implies s.customers.contains_key(
        c,
    ) by {
        let k = choose|k: CustomerKey| #[trigger]
            customer_key_valid(t.warehouses, k) && customer_code(k) == c;
        assert(customer_chain_of(s, k) == customer_chain_of(t, k));
    }
    assert(s.customers =~= t.customers);
}

/// Rearranged updates make the same stock chains.
pub proof fn lemma_same_stocks(s: CollectorModel, t: CollectorModel, a: Seq<RowUpdate>, b: Seq<
    RowUpdate,
>)
    requires
        collector_told(s, a, a.len() as int),
        collector_told(t, b, b.len() as int),
        s.warehouses == t.warehouses,
        s.seed == t.seed,
        a.to_multiset() == b.to_multiset(),
    ensures
        s.stocks == t.stocks,
{
    assert forall|k: StockKey| stock_key_valid(s.warehouses, k) implies (s.stocks.contains_key(
        stock_code(k) as u64,
    ) <==> t.stocks.contains_key(stock_code(k) as u64)) && #[trigger] stock_chain_of(s, k)
        == stock_chain_of(t, k) by {
        let pick = stock_pick(s.seed, k);
        let x = stock_edges(s.seed, k, a, a.len() as int);
        let y = stock_edges(s.seed, k, b, b.len() as int);
        assert(stock_told(s, k, a, a.len() as int));
        assert(stock_told(t, k, b, b.len() as int));
        lemma_picked_set(pick, a, a.len() as int);
        lemma_picked_set(pick, b, b.len() as int);
        lemma_picked_rearranged(pick, a, b);
        law_stock_order_does_not_matter(k, x, y);
        x.to_multiset_ensures();
        y.to_multiset_ensures();
        assert(x.len() == y.len());
    }
    assert forall|c: u64| #[trigger] s.stocks.contains_key(c) implies t.stocks.contains_key(c)
        && s.stocks[c] == t.stocks[c] by {
        let k = choose|k: StockKey| #[trigger]
            stock_key_valid(s.warehouses, k) && stock_code(k) == c;
        assert(stock_chain_of(s, k) == stock_chain_of(t, k));
    }
    assert forall|c: u64| #[trigger] t.stocks.contains_key(c) implies s.stocks.contains_key(c) by {
        let k = choose|k: StockKey| #[trigger]
            stock_key_valid(t.warehouses, k) && stock_code(k) == c;
        assert(stock_chain_of(s, k) == stock_chain_of(t, k));
    }
    assert(s.stocks =~= t.stocks);
}

/// Where a list of updates and a rearrangement of it are both accepted and
/// sealed, the sealed evidence is the same: the order of arrival does not
/// matter.
pub proof fn law_update_order_does_not_matter(
    warehouses: u16,
    clients: u16,
    seed: u64,
    a: Seq<RowUpdate>,
    b: Seq<RowUpdate>,
    x: SealedIntervalEvidence,
    y: SealedIntervalEvidence,
)
    requires
        warehouses > 0,
        a.to_multiset() == b.to_multiset(),
        rows_fed(fresh_collector(warehouses, clients, seed), a, a.len() as int).fault is None,
        rows_fed(fresh_collector(warehouses, clients, seed), b, b.len() as int).fault is None,
        exists|customers: Seq<u64>, stocks: Seq<u64>| #[trigger]
            seal_answer(
                rows_fed(fresh_collector(warehouses, clients, seed), a, a.len() as int).state,
                customers,
                stocks,
                Ok(x),
            ),
        exists|customers: Seq<u64>, stocks: Seq<u64>| #[trigger]
            seal_answer(
                rows_fed(fresh_collector(warehouses, clients, seed), b, b.len() as int).state,
                customers,
                stocks,
                Ok(y),
            ),
    ensures
        x.customers@ == y.customers@,
        x.stocks@ == y.stocks@,
{
    let fresh = fresh_collector(warehouses, clients, seed);
    let s = rows_fed(fresh, a, a.len() as int).state;
    let t = rows_fed(fresh, b, b.len() as int).state;
    lemma_rows_told(warehouses, clients, seed, a, a.len() as int);
    lemma_rows_told(warehouses, clients, seed, b, b.len() as int);
    lemma_same_customers(s, t, a, b);
    lemma_same_stocks(s, t, a, b);
    let (ca, sa) = choose|customers: Seq<u64>, stocks: Seq<u64>| #[trigger]
        seal_answer(s, customers, stocks, Ok(x));
    let (cb, sb) = choose|customers: Seq<u64>, stocks: Seq<u64>| #[trigger]
        seal_answer(t, customers, stocks, Ok(y));
    law_key_list_is_unique(ca, cb, s.customers);
    law_key_list_is_unique(sa, sb, s.stocks);
    assert forall|i: int| 0 <= i < x.customers@.len() implies x.customers@[i]
        == y.customers@[i] by {
        assert(seals_customer(s.customers[ca[i]], x.customers@[i]));
        assert(seals_customer(t.customers[cb[i]], y.customers@[i]));
        assert(x.customers@[i].audit_digest =~= y.customers@[i].audit_digest);
    }
    assert forall|i: int| 0 <= i < x.stocks@.len() implies x.stocks@[i] == y.stocks@[i] by {
        assert(seals_stock(s.stocks[sa[i]], x.stocks@[i]));
        assert(seals_stock(t.stocks[sb[i]], y.stocks@[i]));
        assert(x.stocks@[i].audit_digest =~= y.stocks@[i].audit_digest);
    }
    assert(x.customers@ =~= y.customers@);
    assert(x.stocks@ =~= y.stocks@);
}

} // verus!
