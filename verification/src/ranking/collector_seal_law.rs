//! When a collector can be sealed, and what its sealed evidence holds.
use vstd::multiset::*;
use vstd::prelude::*;

use crate::consistency::CustomerUpdateEvidence;
use crate::ranking::collector_order_law::{
    RowUpdate, collector_told, customer_edges, customer_pick, customer_told, fresh_collector,
    law_update_order_does_not_matter, lemma_rows_told, lemma_same_customers, lemma_same_stocks,
    picked, rows_fed, stock_edges, stock_told,
};
use crate::ranking::customer_chain::{
    CustomerChainModel, CustomerKey, CustomerSegment, customer_chain_sound, customer_inserted,
    edge_fault, edge_segment, loaded_chain, prefix_end, version_total,
};
use crate::ranking::customer_order_law::{
    customer_fed, customer_lists, law_sealed_customer_row_is_one_chain, lemma_customer_fed,
    loaded_version,
};
use crate::ranking::evidence_collector::{
    CollectorModel, SealedCustomerChain, SealedIntervalEvidence, SealedStockChain,
    customer_chain_of, customer_code, customer_key_valid, customer_recorded, customers_seal_fault,
    law_key_list_is_unique, lists_keys, seal_answer, seals_customer, seals_stock, stock_chain_of,
    stock_code, stock_key_valid, stock_seal_fault, stocks_seal_fault,
};
use crate::ranking::interval_pending::{
    CollectorError, CollectorFault, Segment, collector_refusal, lemma_starts_within, repeated,
    starts_within,
};
use crate::ranking::interval_runs::{all_units, edge_map, held, holds, lemma_edge_map};
use crate::ranking::stock_chain::{
    StockChainModel, StockKey, stock_edge_segment, stock_inserted, unknown_stock,
};
use crate::ranking::stock_order_law::{
    law_sealed_stock_row_is_one_chain, lemma_stock_fed, stock_fed,
};

verus! {

/// How many runs wait for the customers with codes below `n`.
spec fn customers_waiting(customers: Map<u64, CustomerChainModel>, n: int) -> nat
    decreases n,
{
    if n <= 0 {
        0
    } else {
        customers_waiting(customers, n - 1) + if customers.contains_key((n - 1) as u64) {
            customers[(n - 1) as u64].pending.len()
        } else {
            0
        }
    }
}

/// How many runs wait for the stock rows with codes below `n`.
spec fn stocks_waiting(stocks: Map<u64, StockChainModel>, n: int) -> nat
    decreases n,
{
    if n <= 0 {
        0
    } else {
        stocks_waiting(stocks, n - 1) + if stocks.contains_key((n - 1) as u64) {
            stocks[(n - 1) as u64].pending.len()
        } else {
            0
        }
    }
}

/// The number of codes.
spec fn all_codes() -> int {
    u64::MAX + 1
}

proof fn lemma_customers_changed(
    customers: Map<u64, CustomerChainModel>,
    code: u64,
    chain: CustomerChainModel,
    n: int,
)
    requires
        0 <= n <= all_codes(),
    ensures
        customers_waiting(customers.insert(code, chain), n) + (if code < n
            && customers.contains_key(code) {
            customers[code].pending.len() as int
        } else {
            0
        }) == customers_waiting(customers, n) + (if code < n {
            chain.pending.len() as int
        } else {
            0
        }),
        code < n && customers.contains_key(code) ==> customers[code].pending.len()
            <= customers_waiting(customers, n),
    decreases n,
{
    if n > 0 {
        lemma_customers_changed(customers, code, chain, n - 1);
    }
}

proof fn lemma_stocks_changed(
    stocks: Map<u64, StockChainModel>,
    code: u64,
    chain: StockChainModel,
    n: int,
)
    requires
        0 <= n <= all_codes(),
    ensures
        stocks_waiting(stocks.insert(code, chain), n) + (if code < n && stocks.contains_key(code) {
            stocks[code].pending.len() as int
        } else {
            0
        }) == stocks_waiting(stocks, n) + (if code < n {
            chain.pending.len() as int
        } else {
            0
        }),
        code < n && stocks.contains_key(code) ==> stocks[code].pending.len() <= stocks_waiting(
            stocks,
            n,
        ),
    decreases n,
{
    if n > 0 {
        lemma_stocks_changed(stocks, code, chain, n - 1);
    }
}

/// The collector counts every run that waits.
spec fn counts_waiting(s: CollectorModel) -> bool {
    s.pending == customers_waiting(s.customers, all_codes()) + stocks_waiting(
        s.stocks,
        all_codes(),
    )
}

proof fn lemma_nothing_waits(n: int)
    ensures
        customers_waiting(Map::empty(), n) == 0,
        stocks_waiting(Map::empty(), n) == 0,
    decreases n,
{
    if n > 0 {
        lemma_nothing_waits(n - 1);
    }
}

proof fn lemma_rows_counted(warehouses: u16, clients: u16, seed: u64, list: Seq<RowUpdate>, n: int)
    requires
        0 <= n <= list.len(),
        rows_fed(fresh_collector(warehouses, clients, seed), list, n).fault is None,
    ensures
        counts_waiting(rows_fed(fresh_collector(warehouses, clients, seed), list, n).state),
        rows_fed(fresh_collector(warehouses, clients, seed), list, n).state.limit
            == fresh_collector(warehouses, clients, seed).limit,
    decreases n,
{
    let fresh = fresh_collector(warehouses, clients, seed);
    if n > 0 {
        lemma_rows_counted(warehouses, clients, seed, list, n - 1);
        let s = rows_fed(fresh, list, n - 1).state;
        match list[n - 1] {
            RowUpdate::Customer { key, update } => {
                let chain = customer_chain_of(s, key);
                let next = customer_inserted(chain, edge_segment(s.seed, key, update));
                lemma_customers_changed(
                    s.customers,
                    customer_code(key) as u64,
                    next.chain,
                    all_codes(),
                );
            },
            RowUpdate::Stock { key, ordered, remote, before, after } => {
                let chain = stock_chain_of(s, key);
                let next = stock_inserted(
                    chain,
                    stock_edge_segment(s.seed, key, ordered, remote, before, after),
                );
                lemma_stocks_changed(s.stocks, stock_code(key) as u64, next.chain, all_codes());
            },
        }
    } else {
        lemma_nothing_waits(all_codes());
    }
}

proof fn lemma_customers_seal(customers: Map<u64, CustomerChainModel>, keys: Seq<u64>, i: int)
    requires
        0 <= i <= keys.len(),
        lists_keys(keys, customers),
        customers_waiting(customers, all_codes()) == 0,
    ensures
        customers_seal_fault(customers, keys, i) is None,
    decreases keys.len() - i,
{
    if i < keys.len() {
        let chain = customers[keys[i]];
        assert(keys.contains(keys[i]));
        lemma_customers_changed(customers, keys[i], chain, all_codes());
        lemma_customers_seal(customers, keys, i + 1);
    }
}

proof fn lemma_stocks_seal(
    s: CollectorModel,
    list: Seq<RowUpdate>,
    keys: Seq<u64>,
    i: int,
)
    requires
        0 <= i <= keys.len(),
        collector_told(s, list, list.len() as int),
        lists_keys(keys, s.stocks),
        stocks_waiting(s.stocks, all_codes()) == 0,
    ensures
        stocks_seal_fault(s.stocks, keys, i) is None,
    decreases keys.len() - i,
{
    if i < keys.len() {
        let c = keys[i];
        let chain = s.stocks[c];
        assert(keys.contains(keys[i]));
        lemma_stocks_changed(s.stocks, c, chain, all_codes());
        let key = choose|key: StockKey| #[trigger]
            stock_key_valid(s.warehouses, key) && stock_code(key) == c;
        assert(stock_told(s, key, list, list.len() as int));
        let edges = stock_edges(s.seed, key, list, list.len() as int);
        let runs = lemma_stock_fed(key, edges, edges.len() as int);
        lemma_edge_map(edges, edges.len() as int);
        assert(edge_map(edges, edges.len() as int).contains_key(edges[0].from_version()));
        assert(held(runs, edges[0].from_version()));
        lemma_stocks_seal(s, list, keys, i + 1);
    }
}

/// Law: a collector that accepted all its updates can be sealed exactly if no run
/// waits.
pub proof fn law_seals_when_nothing_waits(
    warehouses: u16,
    clients: u16,
    seed: u64,
    list: Seq<RowUpdate>,
    r: Result<SealedIntervalEvidence, CollectorError>,
)
    requires
        warehouses > 0,
        rows_fed(fresh_collector(warehouses, clients, seed), list, list.len() as int).fault is None,
        exists|customers: Seq<u64>, stocks: Seq<u64>| #[trigger]
            seal_answer(
                rows_fed(fresh_collector(warehouses, clients, seed), list, list.len() as int).state,
                customers,
                stocks,
                r,
            ),
    ensures
        r is Ok <==> rows_fed(
            fresh_collector(warehouses, clients, seed),
            list,
            list.len() as int,
        ).state.pending == 0,
{
    let s = rows_fed(fresh_collector(warehouses, clients, seed), list, list.len() as int).state;
    lemma_rows_told(warehouses, clients, seed, list, list.len() as int);
    lemma_rows_counted(warehouses, clients, seed, list, list.len() as int);
    let (customers, stocks) = choose|customers: Seq<u64>, stocks: Seq<u64>| #[trigger]
        seal_answer(s, customers, stocks, r);
    if s.pending == 0 {
        lemma_customers_seal(s.customers, customers, 0);
        lemma_stocks_seal(s, list, stocks, 0);
    }
}

/// Law: two orders of the same updates that are accepted leave the same
/// collector, and sealing it gives the same answer: the same evidence, or the
/// same refusal.
pub proof fn law_every_order_seals_alike(
    warehouses: u16,
    clients: u16,
    seed: u64,
    a: Seq<RowUpdate>,
    b: Seq<RowUpdate>,
    x: Result<SealedIntervalEvidence, CollectorError>,
    y: Result<SealedIntervalEvidence, CollectorError>,
)
    requires
        warehouses > 0,
        a.to_multiset() == b.to_multiset(),
        rows_fed(fresh_collector(warehouses, clients, seed), a, a.len() as int).fault is None,
        rows_fed(fresh_collector(warehouses, clients, seed), b, b.len() as int).fault is None,
        exists|customers: Seq<u64>, stocks: Seq<u64>| #[trigger]
            seal_answer(
                rows_fed(fresh_collector(warehouses, clients, seed), a, a.len() as int).state,
                customers,
                stocks,
                x,
            ),
        exists|customers: Seq<u64>, stocks: Seq<u64>| #[trigger]
            seal_answer(
                rows_fed(fresh_collector(warehouses, clients, seed), b, b.len() as int).state,
                customers,
                stocks,
                y,
            ),
    ensures
        rows_fed(fresh_collector(warehouses, clients, seed), a, a.len() as int).state == rows_fed(
            fresh_collector(warehouses, clients, seed),
            b,
            b.len() as int,
        ).state,
        collector_refusal(x) == collector_refusal(y),
        x matches Ok(p) ==> (y matches Ok(q) && p.customers@ == q.customers@ && p.stocks@
            == q.stocks@),
{
    let fresh = fresh_collector(warehouses, clients, seed);
    let s = rows_fed(fresh, a, a.len() as int).state;
    let t = rows_fed(fresh, b, b.len() as int).state;
    lemma_rows_told(warehouses, clients, seed, a, a.len() as int);
    lemma_rows_told(warehouses, clients, seed, b, b.len() as int);
    lemma_rows_counted(warehouses, clients, seed, a, a.len() as int);
    lemma_rows_counted(warehouses, clients, seed, b, b.len() as int);
    lemma_same_customers(s, t, a, b);
    lemma_same_stocks(s, t, a, b);
    assert(s == t);
    let (ca, sa) = choose|customers: Seq<u64>, stocks: Seq<u64>| #[trigger]
        seal_answer(s, customers, stocks, x);
    let (cb, sb) = choose|customers: Seq<u64>, stocks: Seq<u64>| #[trigger]
        seal_answer(t, customers, stocks, y);
    law_key_list_is_unique(ca, cb, s.customers);
    law_key_list_is_unique(sa, sb, s.stocks);
    if let (Ok(p), Ok(q)) = (x, y) {
        law_update_order_does_not_matter(warehouses, clients, seed, a, b, p, q);
    }
}

/// Law: no predecessor of a customer is taken twice. Once an update of a customer
/// is accepted, whether joined or waiting, every later one that starts from the
/// same version is refused as a duplicate.
pub proof fn law_predecessor_is_taken_once(
    warehouses: u16,
    clients: u16,
    seed: u64,
    list: Seq<RowUpdate>,
    k: int,
    key: CustomerKey,
    first: CustomerUpdateEvidence,
    second: CustomerUpdateEvidence,
)
    requires
        warehouses > 0,
        0 <= k < list.len(),
        list[k] == (RowUpdate::Customer { key, update: first }),
        rows_fed(fresh_collector(warehouses, clients, seed), list, list.len() as int).fault is None,
        edge_fault(second) is None,
        version_total(second.before_version) == version_total(first.before_version),
    ensures
        customer_recorded(
            rows_fed(fresh_collector(warehouses, clients, seed), list, list.len() as int).state,
            key,
            second,
        ).fault == Some(
            CollectorFault::Plain(
                CollectorError::DuplicatePredecessor {
                    domain: "customer",
                    predecessor: version_total(first.before_version) as i64,
                },
            ),
        ),
{
    let n = list.len() as int;
    let fresh = fresh_collector(warehouses, clients, seed);
    let s = rows_fed(fresh, list, n).state;
    lemma_rows_told(warehouses, clients, seed, list, n);
    lemma_taken_key(fresh, list, k, n);
    assert(customer_told(s, key, list, n));
    let edges = customer_edges(seed, key, list, n);
    let e = edge_segment(seed, key, first);
    let v = edge_segment(seed, key, second);
    let j = lemma_picked_at(customer_pick(seed, key), list, n, k);
    assert(edges[j] == e);
    let runs = lemma_customer_fed(key, edges, edges.len() as int);
    lemma_edge_map(edges, edges.len() as int);
    let from = e.from_version();
    assert(edge_map(edges, edges.len() as int).contains_key(edges[j].from_version()));
    assert(held(runs, from));
    let chain = customer_chain_of(s, key);
    lemma_edge_versions(first);
    lemma_edge_versions(second);
    lemma_held_is_repeated(chain, runs, v);
}

/// A run that starts inside a chain is refused.
proof fn lemma_held_is_repeated(
    chain: CustomerChainModel,
    runs: Seq<CustomerSegment>,
    v: CustomerSegment,
)
    requires
        customer_chain_sound(chain),
        customer_lists(chain, runs),
        held(runs, v.from_version()),
    ensures
        customer_inserted(chain, v).fault == Some(repeated::<CustomerSegment>(v.from_version())),
{
    let from = v.from_version();
    let i = choose|i: int| 0 <= i < runs.len() && holds(#[trigger] runs[i], from);
    assert(runs[0].sound());
    if from >= prefix_end(chain.prefix) {
        let at = if prefix_end(chain.prefix) == loaded_version() {
            i
        } else {
            assert(prefix_end(chain.prefix) == runs[0].to_version());
            assert(i > 0);
            assert(runs[i] == chain.pending[i - 1]);
            i - 1
        };
        assert(holds(chain.pending[at], from));
        assert(chain.pending[at].from_version() > prefix_end(chain.prefix));
        lemma_starts_within(chain.pending, from);
        let m = starts_within(chain.pending, from);
        assert(m > at);
        if m - 1 > at {
            assert(chain.pending[at].to_version() < chain.pending[m - 1].from_version());
        }
    }
}

/// An update that is accepted by itself starts from its version.
proof fn lemma_edge_versions(u: CustomerUpdateEvidence)
    requires
        edge_fault(u) is None,
    ensures
        version_total(u.before_version) as i64 == version_total(u.before_version),
{
}

/// An accepted update of a customer has a valid key and is accepted by itself.
proof fn lemma_taken_key(s: CollectorModel, list: Seq<RowUpdate>, k: int, n: int)
    requires
        0 <= k < n <= list.len(),
        rows_fed(s, list, n).fault is None,
    ensures
        rows_fed(s, list, n).state.warehouses == s.warehouses,
        list[k] matches RowUpdate::Customer { key, update } ==> customer_key_valid(
            s.warehouses,
            key,
        ) && edge_fault(update) is None,
    decreases n,
{
    lemma_warehouses_kept(s, list, n);
    if k < n - 1 {
        lemma_taken_key(s, list, k, n - 1);
    } else {
        lemma_warehouses_kept(s, list, n - 1);
    }
}

proof fn lemma_warehouses_kept(s: CollectorModel, list: Seq<RowUpdate>, n: int)
    ensures
        rows_fed(s, list, n).state.warehouses == s.warehouses,
    decreases n,
{
    if n > 0 {
        lemma_warehouses_kept(s, list, n - 1);
    }
}

/// What an update is to one row stands among the updates of that row.
proof fn lemma_picked_at<E>(
    pick: spec_fn(RowUpdate) -> Option<E>,
    list: Seq<RowUpdate>,
    n: int,
    k: int,
) -> (j: int)
    requires
        0 <= k < n,
        pick(list[k]) is Some,
    ensures
        0 <= j < picked(pick, list, n).len(),
        picked(pick, list, n)[j] == pick(list[k])->0,
    decreases n,
{
    if k == n - 1 {
        picked(pick, list, n - 1).len() as int
    } else {
        lemma_picked_at(pick, list, n - 1, k)
    }
}

/// Law: sealed evidence holds one chain for every row that was updated, in the
/// order of the keys. Each chain is what all updates of its row make of the loaded
/// or unknown row, and counts each of them once.
pub proof fn law_sealed_evidence_is_complete(
    warehouses: u16,
    clients: u16,
    seed: u64,
    list: Seq<RowUpdate>,
    sealed: SealedIntervalEvidence,
)
    requires
        warehouses > 0,
        rows_fed(fresh_collector(warehouses, clients, seed), list, list.len() as int).fault is None,
        exists|customers: Seq<u64>, stocks: Seq<u64>| #[trigger]
            seal_answer(
                rows_fed(fresh_collector(warehouses, clients, seed), list, list.len() as int).state,
                customers,
                stocks,
                Ok(sealed),
            ),
    ensures
        forall|i: int, j: int|
            0 <= i < j < sealed.customers@.len() ==> customer_code(
                (#[trigger] sealed.customers@[i]).key,
            ) < customer_code((#[trigger] sealed.customers@[j]).key),
        forall|i: int, j: int|
            0 <= i < j < sealed.stocks@.len() ==> stock_code((#[trigger] sealed.stocks@[i]).key)
                < stock_code((#[trigger] sealed.stocks@[j]).key),
        forall|key: CustomerKey|
            customer_key_valid(warehouses as i32, key) && (#[trigger] customer_edges(
                seed,
                key,
                list,
                list.len() as int,
            )).len() > 0 ==> exists|i: int|
                0 <= i < sealed.customers@.len() && (#[trigger] sealed.customers@[i]).key == key,
        forall|key: StockKey|
            stock_key_valid(warehouses as i32, key) && (#[trigger] stock_edges(
                seed,
                key,
                list,
                list.len() as int,
            )).len() > 0 ==> exists|i: int|
                0 <= i < sealed.stocks@.len() && (#[trigger] sealed.stocks@[i]).key == key,
        forall|i: int|
            0 <= i < sealed.customers@.len() ==> customer_complete(
                seed,
                list,
                #[trigger] sealed.customers@[i],
            ) && customer_key_valid(warehouses as i32, sealed.customers@[i].key),
        forall|i: int|
            0 <= i < sealed.stocks@.len() ==> stock_complete(
                seed,
                list,
                #[trigger] sealed.stocks@[i],
            ) && stock_key_valid(warehouses as i32, sealed.stocks@[i].key),
{
    let n = list.len() as int;
    let s = rows_fed(fresh_collector(warehouses, clients, seed), list, n).state;
    lemma_rows_told(warehouses, clients, seed, list, n);
    let (customers, stocks) = choose|customers: Seq<u64>, stocks: Seq<u64>| #[trigger]
        seal_answer(s, customers, stocks, Ok(sealed));
    assert forall|i: int| 0 <= i < sealed.customers@.len() implies customer_complete(
        seed,
        list,
        #[trigger] sealed.customers@[i],
    ) && customer_key_valid(warehouses as i32, sealed.customers@[i].key) && customer_code(
        sealed.customers@[i].key,
    ) == customers[i] by {
        lemma_customer_sealed(s, list, customers, i, sealed.customers@[i]);
    }
    assert forall|i: int| 0 <= i < sealed.stocks@.len() implies stock_complete(
        seed,
        list,
        #[trigger] sealed.stocks@[i],
    ) && stock_key_valid(warehouses as i32, sealed.stocks@[i].key) && stock_code(
        sealed.stocks@[i].key,
    ) == stocks[i] by {
        lemma_stock_sealed(s, list, stocks, i, sealed.stocks@[i]);
    }
    assert forall|key: CustomerKey|
        customer_key_valid(warehouses as i32, key) && (#[trigger] customer_edges(
            seed,
            key,
            list,
            n,
        )).len() > 0 implies exists|i: int|
        0 <= i < sealed.customers@.len() && (#[trigger] sealed.customers@[i]).key == key by {
        assert(customer_told(s, key, list, n));
        let c = customer_code(key) as u64;
        assert(s.customers.contains_key(c));
        assert(customers.contains(c));
        let i = choose|i: int| 0 <= i < customers.len() && customers[i] == c;
        assert(customer_chain_of(s, key).key == key) by {
            let edges = customer_edges(seed, key, list, n);
            let _ = lemma_customer_fed(key, edges, edges.len() as int);
        }
        assert(seals_customer(s.customers[customers[i]], sealed.customers@[i]));
    }
    assert forall|key: StockKey|
        stock_key_valid(warehouses as i32, key) && (#[trigger] stock_edges(
            seed,
            key,
            list,
            n,
        )).len() > 0 implies exists|i: int|
        0 <= i < sealed.stocks@.len() && (#[trigger] sealed.stocks@[i]).key == key by {
        assert(stock_told(s, key, list, n));
        let c = stock_code(key) as u64;
        assert(s.stocks.contains_key(c));
        assert(stocks.contains(c));
        let i = choose|i: int| 0 <= i < stocks.len() && stocks[i] == c;
        assert(stock_chain_of(s, key).key == key) by {
            let edges = stock_edges(seed, key, list, n);
            let _ = lemma_stock_fed(key, edges, edges.len() as int);
        }
        assert(seals_stock(s.stocks[stocks[i]], sealed.stocks@[i]));
    }
}

/// Whether a sealed chain is what all updates of its customer make of the loaded
/// row, each counted once.
pub open spec fn customer_complete(
    seed: u64,
    list: Seq<RowUpdate>,
    sealed: SealedCustomerChain,
) -> bool {
    let edges = customer_edges(seed, sealed.key, list, list.len() as int);
    let fed = customer_fed(loaded_chain(sealed.key), edges, edges.len() as int);
    &&& edges.len() > 0
    &&& all_units(edges)
    &&& fed.fault is None
    &&& fed.chain.pending.len() == 0
    &&& seals_customer(fed.chain, sealed)
    &&& sealed.payment_updates + sealed.delivery_updates == edges.len()
    &&& version_total(sealed.endpoint.version) == loaded_version() + edges.len()
}

/// Whether a sealed chain is what all updates of its stock row make of it, each
/// counted once.
pub open spec fn stock_complete(
    seed: u64,
    list: Seq<RowUpdate>,
    sealed: SealedStockChain,
) -> bool {
    let edges = stock_edges(seed, sealed.key, list, list.len() as int);
    let fed = stock_fed(unknown_stock(sealed.key), edges, edges.len() as int);
    &&& edges.len() > 0
    &&& all_units(edges)
    &&& fed.fault is None
    &&& fed.chain.pending.len() == 0
    &&& seals_stock(fed.chain, sealed)
    &&& sealed.update_count == edges.len()
}

proof fn lemma_customer_sealed(
    s: CollectorModel,
    list: Seq<RowUpdate>,
    customers: Seq<u64>,
    i: int,
    sealed: SealedCustomerChain,
)
    requires
        collector_told(s, list, list.len() as int),
        lists_keys(customers, s.customers),
        customers_seal_fault(s.customers, customers, 0) is None,
        0 <= i < customers.len(),
        seals_customer(s.customers[customers[i]], sealed),
    ensures
        customer_complete(s.seed, list, sealed),
        customer_key_valid(s.warehouses, sealed.key),
        customer_code(sealed.key) == customers[i],
{
    let c = customers[i];
    assert(customers.contains(c));
    let key = choose|key: CustomerKey| #[trigger]
        customer_key_valid(s.warehouses, key) && customer_code(key) == c;
    assert(customer_told(s, key, list, list.len() as int));
    let edges = customer_edges(s.seed, key, list, list.len() as int);
    let _ = lemma_customer_fed(key, edges, edges.len() as int);
    lemma_customer_settled(s.customers, customers, 0, i);
    law_sealed_customer_row_is_one_chain(key, edges);
}

proof fn lemma_customer_settled(
    chains: Map<u64, CustomerChainModel>,
    keys: Seq<u64>,
    from: int,
    i: int,
)
    requires
        0 <= from <= i < keys.len(),
        customers_seal_fault(chains, keys, from) is None,
    ensures
        chains[keys[i]].pending.len() == 0,
    decreases i - from,
{
    if from < i {
        lemma_customer_settled(chains, keys, from + 1, i);
    }
}

proof fn lemma_stock_sealed(
    s: CollectorModel,
    list: Seq<RowUpdate>,
    stocks: Seq<u64>,
    i: int,
    sealed: SealedStockChain,
)
    requires
        collector_told(s, list, list.len() as int),
        lists_keys(stocks, s.stocks),
        stocks_seal_fault(s.stocks, stocks, 0) is None,
        0 <= i < stocks.len(),
        seals_stock(s.stocks[stocks[i]], sealed),
    ensures
        stock_complete(s.seed, list, sealed),
        stock_key_valid(s.warehouses, sealed.key),
        stock_code(sealed.key) == stocks[i],
{
    let c = stocks[i];
    assert(stocks.contains(c));
    let key = choose|key: StockKey| #[trigger]
        stock_key_valid(s.warehouses, key) && stock_code(key) == c;
    assert(stock_told(s, key, list, list.len() as int));
    let edges = stock_edges(s.seed, key, list, list.len() as int);
    let _ = lemma_stock_fed(key, edges, edges.len() as int);
    lemma_stock_settled(s.stocks, stocks, 0, i);
    law_sealed_stock_row_is_one_chain(key, edges);
}

proof fn lemma_stock_settled(
    chains: Map<u64, StockChainModel>,
    keys: Seq<u64>,
    from: int,
    i: int,
)
    requires
        0 <= from <= i < keys.len(),
        stocks_seal_fault(chains, keys, from) is None,
    ensures
        stock_seal_fault(chains[keys[i]]) is None,
    decreases i - from,
{
    if from < i {
        lemma_stock_settled(chains, keys, from + 1, i);
    }
}

} // verus!
