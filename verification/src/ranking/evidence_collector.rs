//! Bounded, order-independent validation for committed row-version evidence.
//!
//! Responses of different clients need not arrive in commit order.  Customer
//! and stock rows expose monotonic counters, so the collector joins disjoint
//! version intervals instead of keeping every event: one rooted prefix per
//! touched key and a bounded number of intervals that wait.
use vstd::prelude::*;

use crate::checks::{first, refused_if};
use crate::consistency::{CustomerUpdateEndpoint, CustomerUpdateEvidence};
use crate::keyed::{KeyedMap, ascending};
use crate::profile::ITEM_COUNT;
use crate::ranking::audit_digest::digest_lanes;
use crate::ranking::customer_chain::{
    CustomerChain, CustomerChainModel, CustomerKey, CustomerSegment, customer_chain_sound,
    customer_inserted, edge_error, edge_fault, edge_segment, loaded_chain,
};
use crate::ranking::interval_pending::{CollectorError, CollectorFault, collector_refusal};
use crate::ranking::runner::StockVersion;
use crate::ranking::stock_chain::{
    StockChain, StockChainModel, StockKey, StockSegment, stock_chain_sound, stock_edge_fault,
    stock_edge_segment, stock_inserted, unknown_stock,
};
use crate::text::{join2, join5, join7, signed_decimal, signed_text};

verus! {

pub const MAX_LINES_PER_NEW_ORDER: usize = 15;

pub const MAX_CUSTOMERS_PER_DELIVERY: usize = 10;

#[derive(Clone, Debug, PartialEq, Eq)]
pub struct SealedCustomerChain {
    pub key: CustomerKey,
    pub endpoint: CustomerUpdateEndpoint,
    pub payment_updates: u64,
    pub delivery_updates: u64,
    /// Order-independent binding for audit and canonical persistence.
    pub audit_digest: [u64; 4],
}

#[derive(Clone, Debug, PartialEq, Eq)]
pub struct SealedStockChain {
    pub key: StockKey,
    pub initial: StockVersion,
    pub endpoint: StockVersion,
    pub update_count: u64,
    /// Order-independent binding for audit and canonical persistence.
    pub audit_digest: [u64; 4],
}

#[derive(Clone, Debug, PartialEq, Eq)]
pub struct SealedIntervalEvidence {
    pub customers: Vec<SealedCustomerChain>,
    pub stocks: Vec<SealedStockChain>,
}

/// Updates of the first `n` customer chains.
pub open spec fn customer_updates(chains: Seq<SealedCustomerChain>, n: int) -> nat
    decreases n,
{
    if n <= 0 {
        0
    } else {
        customer_updates(chains, n - 1) + chains[n - 1].payment_updates as nat
            + chains[n - 1].delivery_updates as nat
    }
}

/// Updates of the first `n` stock chains.
pub open spec fn stock_updates(chains: Seq<SealedStockChain>, n: int) -> nat
    decreases n,
{
    if n <= 0 {
        0
    } else {
        stock_updates(chains, n - 1) + chains[n - 1].update_count as nat
    }
}

proof fn lemma_customer_updates_grow(chains: Seq<SealedCustomerChain>, n: int, m: int)
    requires
        0 <= n <= m,
    ensures
        customer_updates(chains, n) <= customer_updates(chains, m),
    decreases m,
{
    if n < m {
        lemma_customer_updates_grow(chains, n, m - 1);
    }
}

proof fn lemma_stock_updates_grow(chains: Seq<SealedStockChain>, n: int, m: int)
    requires
        0 <= n <= m,
    ensures
        stock_updates(chains, n) <= stock_updates(chains, m),
    decreases m,
{
    if n < m {
        lemma_stock_updates_grow(chains, n, m - 1);
    }
}

fn add_updates(left: u64, right: u64, field: &'static str) -> (r: Result<u64, CollectorError>)
    ensures
        collector_refusal(r) == refused_if(
            left + right > u64::MAX,
            edge_error(CollectorError::Overflow(field)),
        ),
        r matches Ok(total) ==> total == left + right,
{
    match left.checked_add(right) {
        Some(total) => Ok(total),
        None => Err(CollectorError::Overflow(field)),
    }
}

impl SealedIntervalEvidence {
    pub fn customer_update_count(&self) -> (r: Result<u64, CollectorError>)
        ensures
            collector_refusal(r) == refused_if(
                customer_updates(self.customers@, self.customers@.len() as int) > u64::MAX,
                edge_error(CollectorError::Overflow("customer update count")),
            ),
            r matches Ok(total) ==> total == customer_updates(
                self.customers@,
                self.customers@.len() as int,
            ),
    {
        let mut total: u64 = 0;
        let mut i: usize = 0;
        while i < self.customers.len()
            invariant
                i <= self.customers@.len(),
                total == customer_updates(self.customers@, i as int),
            decreases self.customers@.len() - i,
        {
            proof {
                lemma_customer_updates_grow(
                    self.customers@,
                    i as int + 1,
                    self.customers@.len() as int,
                );
            }
            let chain = &self.customers[i];
            let own: u64 = add_updates(
                chain.payment_updates,
                chain.delivery_updates,
                "customer update count",
            )?;
            total = add_updates(total, own, "customer update count")?;
            i = i + 1;
        }
        Ok(total)
    }

    pub fn stock_update_count(&self) -> (r: Result<u64, CollectorError>)
        ensures
            collector_refusal(r) == refused_if(
                stock_updates(self.stocks@, self.stocks@.len() as int) > u64::MAX,
                edge_error(CollectorError::Overflow("stock update count")),
            ),
            r matches Ok(total) ==> total == stock_updates(
                self.stocks@,
                self.stocks@.len() as int,
            ),
    {
        let mut total: u64 = 0;
        let mut i: usize = 0;
        while i < self.stocks.len()
            invariant
                i <= self.stocks@.len(),
                total == stock_updates(self.stocks@, i as int),
            decreases self.stocks@.len() - i,
        {
            proof {
                lemma_stock_updates_grow(self.stocks@, i as int + 1, self.stocks@.len() as int);
            }
            total = add_updates(total, self.stocks[i].update_count, "stock update count")?;
            i = i + 1;
        }
        Ok(total)
    }
}

#[derive(Clone, Copy, Debug, PartialEq, Eq, Structural)]
pub struct CollectorStorage {
    pub customer_keys: usize,
    pub stock_keys: usize,
    pub pending_intervals: usize,
}

/// One collector is shared by all ranked workers.
///
/// `pending_limit` follows from the number of workers and the rows that one
/// in-flight NewOrder and Delivery can expose.  It bounds response reordering,
/// not the number of transactions.
pub struct IntervalCollector {
    pub warehouses: i32,
    pub pending_limit: usize,
    pub audit_seed: u64,
    pub customers: KeyedMap<CustomerChain>,
    pub stocks: KeyedMap<StockChain>,
    pub pending_intervals: usize,
}

/// The content of an [`IntervalCollector`].
#[verifier::ext_equal]
pub struct CollectorModel {
    pub warehouses: i32,
    pub limit: usize,
    pub seed: u64,
    pub customers: Map<u64, CustomerChainModel>,
    pub stocks: Map<u64, StockChainModel>,
    pub pending: usize,
}

impl View for IntervalCollector {
    type V = CollectorModel;

    open spec fn view(&self) -> CollectorModel {
        CollectorModel {
            warehouses: self.warehouses,
            limit: self.pending_limit,
            seed: self.audit_seed,
            customers: self.customers@.map_values(|chain: CustomerChain| chain@),
            stocks: self.stocks@.map_values(|chain: StockChain| chain@),
            pending: self.pending_intervals,
        }
    }
}

/// A collector after a change, with the refusal if there was one.
#[verifier::ext_equal]
pub struct CollectorStep {
    pub state: CollectorModel,
    pub fault: Option<CollectorFault>,
}

/// The place of a customer among all customers.
pub open spec fn customer_code(key: CustomerKey) -> int {
    (key.warehouse_id * 10 + key.district_id - 1) * 3_000 + key.customer_id - 1
}

/// The place of a stock row among all stock rows.
pub open spec fn stock_code(key: StockKey) -> int {
    key.warehouse_id * 100_000 + key.item_id - 1
}

/// Whether a key names a customer of a run.
pub open spec fn customer_key_valid(warehouses: i32, key: CustomerKey) -> bool {
    1 <= key.warehouse_id <= warehouses && 1 <= key.district_id <= 10 && 1 <= key.customer_id
        <= 3_000
}

/// Whether a key names a stock row of a run.
pub open spec fn stock_key_valid(warehouses: i32, key: StockKey) -> bool {
    1 <= key.warehouse_id <= warehouses && 1 <= key.item_id <= ITEM_COUNT
}

/// A customer key in a message.
pub open spec fn customer_key_text(key: CustomerKey) -> Seq<char> {
    "("@ + signed_decimal(key.warehouse_id as int) + ","@ + signed_decimal(key.district_id as int)
        + ","@ + signed_decimal(key.customer_id as int) + ")"@
}

/// A stock key in a message.
pub open spec fn stock_key_text(key: StockKey) -> Seq<char> {
    "("@ + signed_decimal(key.warehouse_id as int) + ","@ + signed_decimal(key.item_id as int)
        + ")"@
}

/// Different customers have different places, in the order of their keys.
pub proof fn law_customer_places(warehouses: i32, a: CustomerKey, b: CustomerKey)
    requires
        customer_key_valid(warehouses, a),
        customer_key_valid(warehouses, b),
    ensures
        customer_code(a) == customer_code(b) ==> a == b,
        customer_code(a) < customer_code(b) <==> (a.warehouse_id < b.warehouse_id || (
        a.warehouse_id == b.warehouse_id && (a.district_id < b.district_id || (a.district_id
            == b.district_id && a.customer_id < b.customer_id)))),
{
}

/// Different stock rows have different places, in the order of their keys.
pub proof fn law_stock_places(warehouses: i32, a: StockKey, b: StockKey)
    requires
        stock_key_valid(warehouses, a),
        stock_key_valid(warehouses, b),
    ensures
        stock_code(a) == stock_code(b) ==> a == b,
        stock_code(a) < stock_code(b) <==> (a.warehouse_id < b.warehouse_id || (a.warehouse_id
            == b.warehouse_id && a.item_id < b.item_id)),
{
}

/// The chain of a customer, new if nothing is known of it.
pub open spec fn customer_chain_of(s: CollectorModel, key: CustomerKey) -> CustomerChainModel {
    let code = customer_code(key) as u64;
    if s.customers.contains_key(code) {
        s.customers[code]
    } else {
        loaded_chain(key)
    }
}

/// The chain of a stock row, new if nothing is known of it.
pub open spec fn stock_chain_of(s: CollectorModel, key: StockKey) -> StockChainModel {
    let code = stock_code(key) as u64;
    if s.stocks.contains_key(code) {
        s.stocks[code]
    } else {
        unknown_stock(key)
    }
}

/// The collector once a chain's waiting runs went from `before` to `after`.
pub open spec fn recounted(s: CollectorModel, before: nat, after: nat) -> CollectorStep {
    let count = s.pending + after - before;
    if count < 0 || count > usize::MAX {
        CollectorStep {
            state: s,
            fault: Some(edge_error(CollectorError::Overflow("pending interval count"))),
        }
    } else {
        CollectorStep {
            state: CollectorModel { pending: count as usize, ..s },
            fault: refused_if(
                count > s.limit,
                edge_error(
                    CollectorError::PendingLimit { actual: count as usize, limit: s.limit },
                ),
            ),
        }
    }
}

/// A customer update comes in.
pub open spec fn customer_recorded(
    s: CollectorModel,
    key: CustomerKey,
    update: CustomerUpdateEvidence,
) -> CollectorStep {
    if !customer_key_valid(s.warehouses, key) {
        CollectorStep {
            state: s,
            fault: Some(CollectorFault::InvalidKey("customer "@ + customer_key_text(key))),
        }
    } else if edge_fault(update) is Some {
        CollectorStep { state: s, fault: edge_fault(update) }
    } else {
        let chain = customer_chain_of(s, key);
        let next = customer_inserted(chain, edge_segment(s.seed, key, update));
        let state = CollectorModel {
            customers: s.customers.insert(customer_code(key) as u64, next.chain),
            ..s
        };
        if next.fault is Some {
            CollectorStep { state, fault: next.fault }
        } else {
            recounted(state, chain.pending.len(), next.chain.pending.len())
        }
    }
}

/// A stock update comes in.
pub open spec fn stock_recorded(
    s: CollectorModel,
    key: StockKey,
    ordered: u8,
    remote: u8,
    before: StockVersion,
    after: StockVersion,
) -> CollectorStep {
    if !stock_key_valid(s.warehouses, key) {
        CollectorStep {
            state: s,
            fault: Some(CollectorFault::InvalidKey("stock "@ + stock_key_text(key))),
        }
    } else if stock_edge_fault(ordered, remote, before, after) is Some {
        CollectorStep { state: s, fault: stock_edge_fault(ordered, remote, before, after) }
    } else {
        let chain = stock_chain_of(s, key);
        let next = stock_inserted(
            chain,
            stock_edge_segment(s.seed, key, ordered, remote, before, after),
        );
        let state = CollectorModel {
            stocks: s.stocks.insert(stock_code(key) as u64, next.chain),
            ..s
        };
        if next.fault is Some {
            CollectorStep { state, fault: next.fault }
        } else {
            recounted(state, chain.pending.len(), next.chain.pending.len())
        }
    }
}

/// Every chain is sound.
pub open spec fn collector_sound(s: CollectorModel) -> bool {
    &&& 1 <= s.warehouses <= 65_535
    &&& forall|k: u64|
        s.customers.contains_key(k) ==> customer_chain_sound(#[trigger] s.customers[k])
    &&& forall|k: u64| s.stocks.contains_key(k) ==> stock_chain_sound(#[trigger] s.stocks[k])
}

fn describe_customer(key: CustomerKey) -> (r: String)
    ensures
        r@ == customer_key_text(key),
{
    join7(
        "(",
        signed_text(key.warehouse_id as i64).as_str(),
        ",",
        signed_text(key.district_id as i64).as_str(),
        ",",
        signed_text(key.customer_id as i64).as_str(),
        ")",
    )
}

fn describe_stock(key: StockKey) -> (r: String)
    ensures
        r@ == stock_key_text(key),
{
    join5(
        "(",
        signed_text(key.warehouse_id as i64).as_str(),
        ",",
        signed_text(key.item_id as i64).as_str(),
        ")",
    )
}

impl IntervalCollector {
    pub fn new(warehouses: u16, clients: u16, audit_seed: u64) -> (r: Result<Self, CollectorError>)
        ensures
            collector_refusal(r) == first(
                refused_if(
                    warehouses == 0,
                    edge_error(
                        CollectorError::InvalidConfiguration("warehouse count must be positive"),
                    ),
                ),
                refused_if(
                    clients == 0,
                    edge_error(
                        CollectorError::InvalidConfiguration("client count must be positive"),
                    ),
                ),
            ),
            r matches Ok(collector) ==> collector_sound(collector@) && collector@ == (
            CollectorModel {
                warehouses: warehouses as i32,
                limit: (clients * 25) as usize,
                seed: audit_seed,
                customers: Map::empty(),
                stocks: Map::empty(),
                pending: 0,
            }),
    {
        if warehouses == 0 {
            return Err(CollectorError::InvalidConfiguration("warehouse count must be positive"));
        }
        if clients == 0 {
            return Err(CollectorError::InvalidConfiguration("client count must be positive"));
        }
        let rows: usize = MAX_LINES_PER_NEW_ORDER + MAX_CUSTOMERS_PER_DELIVERY;
        assert(clients * rows == clients * 25);
        let pending_limit: usize = clients as usize * rows;
        let r = IntervalCollector {
            warehouses: warehouses as i32,
            pending_limit,
            audit_seed,
            customers: KeyedMap::new(),
            stocks: KeyedMap::new(),
            pending_intervals: 0,
        };
        assert(r@.customers =~= Map::empty());
        assert(r@.stocks =~= Map::empty());
        Ok(r)
    }

    fn update_pending_count(&mut self, before: usize, after: usize) -> (r: Result<
        (),
        CollectorError,
    >)
        ensures
            (CollectorStep { state: final(self)@, fault: collector_refusal(r) }) == recounted(
                old(self)@,
                before as nat,
                after as nat,
            ),
    {
        let count = if after >= before {
            self.pending_intervals.checked_add(after - before)
        } else {
            self.pending_intervals.checked_sub(before - after)
        };
        match count {
            None => Err(CollectorError::Overflow("pending interval count")),
            Some(count) => {
                self.pending_intervals = count;
                if count > self.pending_limit {
                    return Err(
                        CollectorError::PendingLimit { actual: count, limit: self.pending_limit },
                    );
                }
                Ok(())
            },
        }
    }

    /// Takes a committed customer update in.
    pub fn record_customer(&mut self, key: CustomerKey, update: CustomerUpdateEvidence) -> (r:
        Result<(), CollectorError>)
        requires
            collector_sound(old(self)@),
        ensures
            (CollectorStep { state: final(self)@, fault: collector_refusal(r) })
                == customer_recorded(old(self)@, key, update),
            collector_sound(final(self)@),
    {
        let ghost before = self@;
        if key.warehouse_id < 1 || key.warehouse_id > self.warehouses || key.district_id < 1
            || key.district_id > 10 || key.customer_id < 1 || key.customer_id > 3_000 {
            return Err(
                CollectorError::InvalidKey(join2("customer ", describe_customer(key).as_str())),
            );
        }
        let segment = CustomerSegment::single(self.audit_seed, key, update)?;
        let code: u64 = ((key.warehouse_id as u64 * 10 + key.district_id as u64 - 1) * 3_000)
            + key.customer_id as u64 - 1;
        assert(code == customer_code(key));
        let ghost held = self.customers@;
        let mut chain = match self.customers.take(code) {
            Some(chain) => chain,
            None => CustomerChain::new(key),
        };
        assert(chain@ == customer_chain_of(before, key));
        proof {
            if before.customers.contains_key(code) {
                assert(customer_chain_sound(before.customers[code]));
            }
        }
        let waiting: usize = chain.pending.len();
        let inserted = chain.insert(segment);
        let waiting_now: usize = chain.pending.len();
        let ghost next = chain@;
        self.customers.insert(code, chain);
        assert(self@.customers =~= before.customers.insert(code, next));
        assert(self@.stocks =~= before.stocks);
        assert(collector_sound(self@)) by {
            assert forall|k: u64| self@.customers.contains_key(k) implies customer_chain_sound(
                #[trigger] self@.customers[k],
            ) by {
                if k != code {
                    assert(before.customers.contains_key(k));
                    assert(customer_chain_sound(before.customers[k]));
                }
            }
        }
        inserted?;
        self.update_pending_count(waiting, waiting_now)
    }

    /// Takes a committed stock update in.
    pub fn record_stock(
        &mut self,
        key: StockKey,
        ordered_quantity: u8,
        remote_increment: u8,
        before: StockVersion,
        after: StockVersion,
    ) -> (r: Result<(), CollectorError>)
        requires
            collector_sound(old(self)@),
        ensures
            (CollectorStep { state: final(self)@, fault: collector_refusal(r) }) == stock_recorded(
                old(self)@,
                key,
                ordered_quantity,
                remote_increment,
                before,
                after,
            ),
            collector_sound(final(self)@),
    {
        let ghost start = self@;
        if key.warehouse_id < 1 || key.warehouse_id > self.warehouses || key.item_id < 1
            || key.item_id > ITEM_COUNT as i32 {
            return Err(CollectorError::InvalidKey(join2("stock ", describe_stock(key).as_str())));
        }
        let segment = StockSegment::single(
            self.audit_seed,
            key,
            ordered_quantity,
            remote_increment,
            before,
            after,
        )?;
        let code: u64 = key.warehouse_id as u64 * 100_000 + key.item_id as u64 - 1;
        assert(code == stock_code(key));
        let mut chain = match self.stocks.take(code) {
            Some(chain) => chain,
            None => StockChain::new(key),
        };
        assert(chain@ == stock_chain_of(start, key));
        proof {
            if start.stocks.contains_key(code) {
                assert(stock_chain_sound(start.stocks[code]));
            }
        }
        let waiting: usize = chain.pending.len();
        let inserted = chain.insert(segment);
        let waiting_now: usize = chain.pending.len();
        let ghost next = chain@;
        self.stocks.insert(code, chain);
        assert(self@.stocks =~= start.stocks.insert(code, next));
        assert(self@.customers =~= start.customers);
        assert(collector_sound(self@)) by {
            assert forall|k: u64| self@.stocks.contains_key(k) implies stock_chain_sound(
                #[trigger] self@.stocks[k],
            ) by {
                if k != code {
                    assert(start.stocks.contains_key(k));
                    assert(stock_chain_sound(start.stocks[k]));
                }
            }
        }
        inserted?;
        self.update_pending_count(waiting, waiting_now)
    }

    pub fn storage(&self) -> (r: CollectorStorage)
        ensures
            r.customer_keys == self@.customers.len(),
            r.stock_keys == self@.stocks.len(),
            r.pending_intervals == self@.pending,
    {
        assert(self@.customers.dom() =~= self.customers@.dom());
        assert(self@.stocks.dom() =~= self.stocks@.dom());
        CollectorStorage {
            customer_keys: self.customers.len(),
            stock_keys: self.stocks.len(),
            pending_intervals: self.pending_intervals,
        }
    }
}

/// Whether `keys` are the keys of a map, in order.
pub open spec fn lists_keys<V>(keys: Seq<u64>, map: Map<u64, V>) -> bool {
    ascending(keys) && forall|k: u64| keys.contains(k) <==> map.contains_key(k)
}

/// Whether a sealed chain says what is known of a row.
pub open spec fn seals_customer(chain: CustomerChainModel, sealed: SealedCustomerChain) -> bool {
    &&& sealed.key == chain.key
    &&& sealed.endpoint == chain.prefix.endpoint
    &&& sealed.payment_updates == chain.prefix.payment_updates
    &&& sealed.delivery_updates == chain.prefix.delivery_updates
    &&& sealed.audit_digest@ == digest_lanes(chain.prefix.digest)
}

/// Whether a sealed chain says what is known of a row.
pub open spec fn seals_stock(chain: StockChainModel, sealed: SealedStockChain) -> bool {
    &&& sealed.key == chain.key
    &&& chain.prefix matches Some(prefix) && sealed.initial == prefix.initial && sealed.endpoint
        == prefix.endpoint && sealed.update_count == prefix.update_count
        && sealed.audit_digest@ == digest_lanes(prefix.digest)
}

/// Why a chain cannot be sealed: a run waits for its predecessor.
pub open spec fn customer_seal_fault(chain: CustomerChainModel) -> Option<CollectorFault> {
    refused_if(
        chain.pending.len() > 0,
        CollectorFault::Disconnected {
            domain: "customer",
            key: customer_key_text(chain.key),
            pending: chain.pending.len() as usize,
        },
    )
}

/// Why a chain cannot be sealed: a run waits for its predecessor.
pub open spec fn stock_seal_fault(chain: StockChainModel) -> Option<CollectorFault> {
    refused_if(
        chain.pending.len() > 0 || chain.prefix is None,
        CollectorFault::Disconnected {
            domain: "stock",
            key: stock_key_text(chain.key),
            pending: chain.pending.len() as usize,
        },
    )
}

/// The first chain from `i` on that cannot be sealed.
pub open spec fn customers_seal_fault(
    customers: Map<u64, CustomerChainModel>,
    keys: Seq<u64>,
    i: int,
) -> Option<CollectorFault>
    decreases keys.len() - i,
{
    if i >= keys.len() {
        None
    } else {
        first(
            customer_seal_fault(customers[keys[i]]),
            customers_seal_fault(customers, keys, i + 1),
        )
    }
}

/// The first chain from `i` on that cannot be sealed.
pub open spec fn stocks_seal_fault(
    stocks: Map<u64, StockChainModel>,
    keys: Seq<u64>,
    i: int,
) -> Option<CollectorFault>
    decreases keys.len() - i,
{
    if i >= keys.len() {
        None
    } else {
        first(stock_seal_fault(stocks[keys[i]]), stocks_seal_fault(stocks, keys, i + 1))
    }
}

/// Why a collector cannot be sealed.
pub open spec fn seal_fault(s: CollectorModel, customers: Seq<u64>, stocks: Seq<u64>) -> Option<
    CollectorFault,
> {
    first(
        refused_if(
            s.pending != 0,
            CollectorFault::Disconnected {
                domain: "collector",
                key: "all keys"@,
                pending: s.pending,
            },
        ),
        first(
            customers_seal_fault(s.customers, customers, 0),
            stocks_seal_fault(s.stocks, stocks, 0),
        ),
    )
}

/// Whether sealed evidence holds every chain, in the order of the keys.
pub open spec fn seals(
    s: CollectorModel,
    customers: Seq<u64>,
    stocks: Seq<u64>,
    sealed: SealedIntervalEvidence,
) -> bool {
    &&& sealed.customers@.len() == customers.len()
    &&& sealed.stocks@.len() == stocks.len()
    &&& forall|i: int|
        0 <= i < customers.len() ==> seals_customer(
            s.customers[customers[i]],
            #[trigger] sealed.customers@[i],
        )
    &&& forall|i: int|
        0 <= i < stocks.len() ==> seals_stock(s.stocks[stocks[i]], #[trigger] sealed.stocks@[i])
}

/// Whether this is what sealing answers.
pub open spec fn seal_answer(
    s: CollectorModel,
    customers: Seq<u64>,
    stocks: Seq<u64>,
    r: Result<SealedIntervalEvidence, CollectorError>,
) -> bool {
    &&& lists_keys(customers, s.customers)
    &&& lists_keys(stocks, s.stocks)
    &&& collector_refusal(r) == seal_fault(s, customers, stocks)
    &&& r matches Ok(sealed) ==> seals(s, customers, stocks, sealed)
}

fn seal_customer(chain: &CustomerChain) -> (r: Result<SealedCustomerChain, CollectorError>)
    ensures
        collector_refusal(r) == customer_seal_fault(chain@),
        r matches Ok(sealed) ==> seals_customer(chain@, sealed),
{
    if chain.pending.len() > 0 {
        return Err(
            CollectorError::Disconnected {
                domain: "customer",
                key: describe_customer(chain.key),
                pending: chain.pending.len(),
            },
        );
    }
    Ok(
        SealedCustomerChain {
            key: chain.key,
            endpoint: chain.prefix.endpoint,
            payment_updates: chain.prefix.payment_updates,
            delivery_updates: chain.prefix.delivery_updates,
            audit_digest: chain.prefix.digest.lanes(),
        },
    )
}

fn seal_stock(chain: &StockChain) -> (r: Result<SealedStockChain, CollectorError>)
    ensures
        collector_refusal(r) == stock_seal_fault(chain@),
        r matches Ok(sealed) ==> seals_stock(chain@, sealed),
{
    if chain.pending.len() > 0 {
        return Err(
            CollectorError::Disconnected {
                domain: "stock",
                key: describe_stock(chain.key),
                pending: chain.pending.len(),
            },
        );
    }
    match chain.prefix {
        None => Err(
            CollectorError::Disconnected {
                domain: "stock",
                key: describe_stock(chain.key),
                pending: 0,
            },
        ),
        Some(prefix) => Ok(
            SealedStockChain {
                key: chain.key,
                initial: prefix.initial,
                endpoint: prefix.endpoint,
                update_count: prefix.update_count,
                audit_digest: prefix.digest.lanes(),
            },
        ),
    }
}

impl IntervalCollector {
    fn seal_customers(&self, keys: &Vec<u64>) -> (r: Result<
        Vec<SealedCustomerChain>,
        CollectorError,
    >)
        requires
            lists_keys(keys@, self@.customers),
        ensures
            collector_refusal(r) == customers_seal_fault(self@.customers, keys@, 0),
            r matches Ok(sealed) ==> sealed@.len() == keys@.len() && forall|i: int|
                0 <= i < keys@.len() ==> seals_customer(
                    self@.customers[keys@[i]],
                    #[trigger] sealed@[i],
                ),
    {
        let ghost customers = self@.customers;
        let mut out: Vec<SealedCustomerChain> = Vec::new();
        let mut i: usize = 0;
        while i < keys.len()
            invariant
                i <= keys@.len(),
                customers == self@.customers,
                lists_keys(keys@, customers),
                out@.len() == i,
                customers_seal_fault(customers, keys@, 0) == customers_seal_fault(
                    customers,
                    keys@,
                    i as int,
                ),
                forall|k: int|
                    0 <= k < i ==> seals_customer(customers[keys@[k]], #[trigger] out@[k]),
            decreases keys@.len() - i,
        {
            assert(keys@.contains(keys@[i as int]));
            if let Some(chain) = self.customers.get(keys[i]) {
                assert(chain@ == customers[keys@[i as int]]);
                let sealed = seal_customer(chain)?;
                out.push(sealed);
            }
            i = i + 1;
        }
        Ok(out)
    }

    fn seal_stocks(&self, keys: &Vec<u64>) -> (r: Result<Vec<SealedStockChain>, CollectorError>)
        requires
            lists_keys(keys@, self@.stocks),
        ensures
            collector_refusal(r) == stocks_seal_fault(self@.stocks, keys@, 0),
            r matches Ok(sealed) ==> sealed@.len() == keys@.len() && forall|i: int|
                0 <= i < keys@.len() ==> seals_stock(
                    self@.stocks[keys@[i]],
                    #[trigger] sealed@[i],
                ),
    {
        let ghost stocks = self@.stocks;
        let mut out: Vec<SealedStockChain> = Vec::new();
        let mut i: usize = 0;
        while i < keys.len()
            invariant
                i <= keys@.len(),
                stocks == self@.stocks,
                lists_keys(keys@, stocks),
                out@.len() == i,
                stocks_seal_fault(stocks, keys@, 0) == stocks_seal_fault(stocks, keys@, i as int),
                forall|k: int| 0 <= k < i ==> seals_stock(stocks[keys@[k]], #[trigger] out@[k]),
            decreases keys@.len() - i,
        {
            assert(keys@.contains(keys@[i as int]));
            if let Some(chain) = self.stocks.get(keys[i]) {
                assert(chain@ == stocks[keys@[i as int]]);
                let sealed = seal_stock(chain)?;
                out.push(sealed);
            }
            i = i + 1;
        }
        Ok(out)
    }

    /// Hands the evidence out, once no run waits for its predecessor.
    pub fn seal(self) -> (r: Result<SealedIntervalEvidence, CollectorError>)
        ensures
            exists|customers: Seq<u64>, stocks: Seq<u64>|
                seal_answer(self@, customers, stocks, r),
    {
        let customer_keys = self.customers.keys();
        let stock_keys = self.stocks.keys();
        assert(lists_keys(customer_keys@, self@.customers));
        assert(lists_keys(stock_keys@, self@.stocks));
        if self.pending_intervals != 0 {
            let r = Err(
                CollectorError::Disconnected {
                    domain: "collector",
                    key: "all keys".to_owned(),
                    pending: self.pending_intervals,
                },
            );
            assert(seal_answer(self@, customer_keys@, stock_keys@, r));
            return r;
        }
        let customers = match self.seal_customers(&customer_keys) {
            Ok(customers) => customers,
            Err(error) => {
                let r = Err(error);
                assert(seal_answer(self@, customer_keys@, stock_keys@, r));
                return r;
            },
        };
        let stocks = match self.seal_stocks(&stock_keys) {
            Ok(stocks) => stocks,
            Err(error) => {
                let r = Err(error);
                assert(seal_answer(self@, customer_keys@, stock_keys@, r));
                return r;
            },
        };
        let r = Ok(SealedIntervalEvidence { customers, stocks });
        assert(seal_answer(self@, customer_keys@, stock_keys@, r));
        r
    }
}

/// Two ascending lists of the same keys are the same.
pub proof fn law_key_list_is_unique<V>(a: Seq<u64>, b: Seq<u64>, map: Map<u64, V>)
    requires
        lists_keys(a, map),
        lists_keys(b, map),
    ensures
        a == b,
    decreases a.len(),
{
    assert forall|k: u64| a.contains(k) <==> b.contains(k) by {}
    lemma_ascending_lists(a, b);
}

proof fn lemma_ascending_lists(a: Seq<u64>, b: Seq<u64>)
    requires
        ascending(a),
        ascending(b),
        forall|k: u64| a.contains(k) <==> b.contains(k),
    ensures
        a == b,
    decreases a.len(),
{
    if a.len() == 0 {
        if b.len() > 0 {
            assert(b.contains(b[0]));
        }
        assert(a =~= b);
    } else if b.len() == 0 {
        assert(a.contains(a[0]));
    } else {
        let x = a.last();
        let y = b.last();
        assert(a.contains(x) && b.contains(y));
        let i = choose|i: int| 0 <= i < b.len() && b[i] == x;
        let j = choose|j: int| 0 <= j < a.len() && a[j] == y;
        assert(b[i] == x);
        assert(a[j] == y);
        assert(x == y);
        let p = a.drop_last();
        let q = b.drop_last();
        assert forall|k: u64| p.contains(k) implies q.contains(k) by {
            let n = choose|n: int| 0 <= n < p.len() && p[n] == k;
            assert(a[n] == k);
            assert(b.contains(k));
            let m = choose|m: int| 0 <= m < b.len() && b[m] == k;
            assert(q[m] == k);
        }
        assert forall|k: u64| q.contains(k) implies p.contains(k) by {
            let n = choose|n: int| 0 <= n < q.len() && q[n] == k;
            assert(b[n] == k);
            assert(a.contains(k));
            let m = choose|m: int| 0 <= m < a.len() && a[m] == k;
            assert(p[m] == k);
        }
        lemma_ascending_lists(p, q);
        assert(a =~= p.push(x));
        assert(b =~= q.push(y));
    }
}

} // verus!
