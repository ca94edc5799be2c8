//! Both interval sections of one run, bound together and to the loaded stock.
use vstd::prelude::*;

use crate::checks::{first, refusal, refused_if};
use crate::ranking::canonical::{CoreCodecError, IntervalError};
use crate::ranking::interval_sections::{
    CanonicalCustomerChain, CanonicalStockChain, DecodedCustomerIntervals, DecodedStockIntervals,
    IntervalMetadata, SampledIntervalEvidence, SectionModel, customer_section,
    customer_section_fault, customer_section_read, decode_customer_interval_section,
    decode_stock_interval_section, stock_section, stock_section_fault, stock_section_read,
};
use crate::ranking::interval_sections_law::{
    law_customer_section_round_trip, law_stock_section_round_trip,
};
use crate::ranking::runner::StockVersion;
use crate::ranking::stock_chain::StockKey;

verus! {

/// The stock row as it was loaded: its quantity is in a table, item by item
/// within each warehouse.
pub open spec fn loaded_stock(loaded: Seq<i32>, key: StockKey) -> Option<StockVersion> {
    let at = (key.warehouse_id - 1) * 100_000 + (key.item_id - 1);
    if key.warehouse_id >= 1 && 1 <= key.item_id <= 100_000 && at < loaded.len() {
        Some(StockVersion { quantity: loaded[at], ytd_bits: 0, order_count: 0, remote_count: 0 })
    } else {
        None
    }
}

/// Whether one customer sample comes strictly before another: by rank, then by
/// key.
pub open spec fn customer_sample_before(a: CanonicalCustomerChain, b: CanonicalCustomerChain) -> bool {
    a.sample_rank < b.sample_rank || (a.sample_rank == b.sample_rank && (a.key.warehouse_id
        < b.key.warehouse_id || (a.key.warehouse_id == b.key.warehouse_id && (a.key.district_id
        < b.key.district_id || (a.key.district_id == b.key.district_id && a.key.customer_id
        < b.key.customer_id)))))
}

/// Whether one stock sample comes strictly before another: by rank, then by
/// key.
pub open spec fn stock_sample_before(a: CanonicalStockChain, b: CanonicalStockChain) -> bool {
    a.sample_rank < b.sample_rank || (a.sample_rank == b.sample_rank && (a.key.warehouse_id
        < b.key.warehouse_id || (a.key.warehouse_id == b.key.warehouse_id && a.key.item_id
        < b.key.item_id)))
}

/// Customer samples ascend strictly.
pub open spec fn customers_ascend(entries: Seq<CanonicalCustomerChain>) -> bool {
    forall|i: int|
        0 <= i < entries.len() - 1 ==> #[trigger] customer_sample_before(
            entries[i],
            entries[i + 1],
        )
}

/// Stock samples ascend strictly.
pub open spec fn stocks_ascend(entries: Seq<CanonicalStockChain>) -> bool {
    forall|i: int|
        0 <= i < entries.len() - 1 ==> #[trigger] stock_sample_before(entries[i], entries[i + 1])
}

/// Why the stock samples from `i` on are refused: they do not start at the
/// loaded row.
pub open spec fn roots_fault(
    entries: Seq<CanonicalStockChain>,
    loaded: Seq<i32>,
    i: int,
) -> Option<CoreCodecError>
    decreases entries.len() - i,
{
    if i >= entries.len() {
        None
    } else {
        first(
            refused_if(
                loaded_stock(loaded, entries[i].key) != Some(entries[i].initial),
                CoreCodecError::InvalidIntervals(
                    IntervalError::StockRootMismatch {
                        warehouse_id: entries[i].key.warehouse_id,
                        item_id: entries[i].key.item_id,
                    },
                ),
            ),
            roots_fault(entries, loaded, i + 1),
        )
    }
}

/// Why two sections are not of one run.
pub open spec fn metadata_fault(a: IntervalMetadata, b: IntervalMetadata) -> Option<CoreCodecError> {
    first(
        refused_if(
            a.warehouses != b.warehouses,
            CoreCodecError::MismatchedIntervalMetadata("warehouses"),
        ),
        first(
            refused_if(
                a.sample_seed != b.sample_seed,
                CoreCodecError::MismatchedIntervalMetadata("sample seed"),
            ),
            refused_if(
                a.policy_version != b.policy_version,
                CoreCodecError::MismatchedIntervalMetadata("sample policy version"),
            ),
        ),
    )
}

/// Why two sections are refused together.
pub open spec fn restore_fault(
    customers: SectionModel<CanonicalCustomerChain>,
    stocks: SectionModel<CanonicalStockChain>,
    loaded: Seq<i32>,
) -> Option<CoreCodecError> {
    first(
        metadata_fault(customers.metadata, stocks.metadata),
        first(
            refused_if(
                !customers_ascend(customers.entries),
                CoreCodecError::InvalidIntervals(
                    IntervalError::NonCanonicalSampleOrder { domain: "customer" },
                ),
            ),
            first(
                refused_if(
                    !stocks_ascend(stocks.entries),
                    CoreCodecError::InvalidIntervals(
                        IntervalError::NonCanonicalSampleOrder { domain: "stock" },
                    ),
                ),
                roots_fault(stocks.entries, loaded, 0),
            ),
        ),
    )
}

fn is_customer_before(a: &CanonicalCustomerChain, b: &CanonicalCustomerChain) -> (r: bool)
    ensures
        r == customer_sample_before(*a, *b),
{
    if a.sample_rank != b.sample_rank {
        return a.sample_rank < b.sample_rank;
    }
    if a.key.warehouse_id != b.key.warehouse_id {
        return a.key.warehouse_id < b.key.warehouse_id;
    }
    if a.key.district_id != b.key.district_id {
        return a.key.district_id < b.key.district_id;
    }
    a.key.customer_id < b.key.customer_id
}

fn is_stock_before(a: &CanonicalStockChain, b: &CanonicalStockChain) -> (r: bool)
    ensures
        r == stock_sample_before(*a, *b),
{
    if a.sample_rank != b.sample_rank {
        return a.sample_rank < b.sample_rank;
    }
    if a.key.warehouse_id != b.key.warehouse_id {
        return a.key.warehouse_id < b.key.warehouse_id;
    }
    a.key.item_id < b.key.item_id
}

fn check_customer_order(entries: &Vec<CanonicalCustomerChain>) -> (r: bool)
    ensures
        r == customers_ascend(entries@),
{
    let mut i: usize = 1;
    while i < entries.len()
        invariant
            1 <= i,
            i <= entries@.len() || entries@.len() == 0,
            forall|k: int|
                0 <= k < i - 1 && k < entries@.len() - 1 ==> #[trigger] customer_sample_before(
                    entries@[k],
                    entries@[k + 1],
                ),
        decreases entries@.len() - i,
    {
        if !is_customer_before(&entries[i - 1], &entries[i]) {
            assert(!customer_sample_before(entries@[i - 1], entries@[i - 1 + 1]));
            return false;
        }
        i = i + 1;
    }
    true
}

fn check_stock_order(entries: &Vec<CanonicalStockChain>) -> (r: bool)
    ensures
        r == stocks_ascend(entries@),
{
    let mut i: usize = 1;
    while i < entries.len()
        invariant
            1 <= i,
            i <= entries@.len() || entries@.len() == 0,
            forall|k: int|
                0 <= k < i - 1 && k < entries@.len() - 1 ==> #[trigger] stock_sample_before(
                    entries@[k],
                    entries@[k + 1],
                ),
        decreases entries@.len() - i,
    {
        if !is_stock_before(&entries[i - 1], &entries[i]) {
            assert(!stock_sample_before(entries@[i - 1], entries@[i - 1 + 1]));
            return false;
        }
        i = i + 1;
    }
    true
}

fn starts_loaded(entry: &CanonicalStockChain, loaded: &[i32]) -> (r: bool)
    ensures
        r == (loaded_stock(loaded@, entry.key) == Some(entry.initial)),
{
    let key = entry.key;
    if key.warehouse_id < 1 || key.item_id < 1 || key.item_id > 100_000 {
        return false;
    }
    let at: u64 = (key.warehouse_id as u64 - 1) * 100_000 + (key.item_id as u64 - 1);
    if at >= loaded.len() as u64 {
        return false;
    }
    let v = entry.initial;
    v.quantity == loaded[at as usize] && v.ytd_bits == 0 && v.order_count == 0 && v.remote_count
        == 0
}

/// Joins both sections of one run.
pub fn restore_interval_evidence(
    customers: DecodedCustomerIntervals,
    stocks: DecodedStockIntervals,
    loaded: &[i32],
) -> (r: Result<SampledIntervalEvidence, CoreCodecError>)
    ensures
        refusal(r) == restore_fault(customers@, stocks@, loaded@),
        r matches Ok(evidence) ==> evidence.customer_part() == customers@
            && evidence.stock_part() == stocks@,
{
    let metadata = customers.metadata;
    if metadata.warehouses != stocks.metadata.warehouses {
        return Err(CoreCodecError::MismatchedIntervalMetadata("warehouses"));
    }
    if metadata.sample_seed != stocks.metadata.sample_seed {
        return Err(CoreCodecError::MismatchedIntervalMetadata("sample seed"));
    }
    if metadata.policy_version != stocks.metadata.policy_version {
        return Err(CoreCodecError::MismatchedIntervalMetadata("sample policy version"));
    }
    if !check_customer_order(&customers.entries) {
        return Err(
            CoreCodecError::InvalidIntervals(
                IntervalError::NonCanonicalSampleOrder { domain: "customer" },
            ),
        );
    }
    if !check_stock_order(&stocks.entries) {
        return Err(
            CoreCodecError::InvalidIntervals(
                IntervalError::NonCanonicalSampleOrder { domain: "stock" },
            ),
        );
    }
    let mut i: usize = 0;
    while i < stocks.entries.len()
        invariant
            i <= stocks.entries@.len(),
            restore_fault(customers@, stocks@, loaded@) == roots_fault(
                stocks.entries@,
                loaded@,
                i as int,
            ),
        decreases stocks.entries@.len() - i,
    {
        if !starts_loaded(&stocks.entries[i], loaded) {
            let key = stocks.entries[i].key;
            return Err(
                CoreCodecError::InvalidIntervals(
                    IntervalError::StockRootMismatch {
                        warehouse_id: key.warehouse_id,
                        item_id: key.item_id,
                    },
                ),
            );
        }
        i = i + 1;
    }
    Ok(
        SampledIntervalEvidence {
            metadata,
            customer_update_count: customers.update_count,
            stock_update_count: stocks.update_count,
            customer_rejected: customers.rejected,
            stock_rejected: stocks.rejected,
            customers: customers.entries,
            stocks: stocks.entries,
        },
    )
}

/// Reads and joins both sections of one run.
pub fn decode_interval_sections(customer_bytes: &[u8], stock_bytes: &[u8], loaded: &[i32]) -> (r:
    Result<SampledIntervalEvidence, CoreCodecError>)
    ensures
        refusal(r) == first(
            customer_section_fault(customer_bytes@),
            first(
                stock_section_fault(stock_bytes@),
                restore_fault(
                    customer_section_read(customer_bytes@),
                    stock_section_read(stock_bytes@),
                    loaded@,
                ),
            ),
        ),
        r matches Ok(evidence) ==> evidence.customer_part() == customer_section_read(
            customer_bytes@,
        ) && evidence.stock_part() == stock_section_read(stock_bytes@),
{
    let customers = decode_customer_interval_section(customer_bytes)?;
    let stocks = decode_stock_interval_section(stock_bytes)?;
    restore_interval_evidence(customers, stocks, loaded)
}

/// Evidence that is written as two sections is read back, and the sections are
/// written again as they were.
pub proof fn law_interval_evidence_round_trip(e: SampledIntervalEvidence, loaded: Seq<i32>)
    requires
        e.customers@.len() <= 64,
        e.stocks@.len() <= 64,
        restore_fault(e.customer_part(), e.stock_part(), loaded) is None,
    ensures
        customer_section_fault(customer_section(e.customer_part())) is None,
        stock_section_fault(stock_section(e.stock_part())) is None,
        restore_fault(
            customer_section_read(customer_section(e.customer_part())),
            stock_section_read(stock_section(e.stock_part())),
            loaded,
        ) is None,
        customer_section_read(customer_section(e.customer_part())) == e.customer_part(),
        stock_section_read(stock_section(e.stock_part())) == e.stock_part(),
{
    law_customer_section_round_trip(e.customer_part());
    law_stock_section_round_trip(e.stock_part());
}

} // verus!
