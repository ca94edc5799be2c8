//! Sampled interval evidence as two sections of bytes, one for customers and
//! one for stock.
use vstd::prelude::*;

use crate::checks::{first, refusal, refused_if};
use crate::consistency::{CustomerLogicalVersion, CustomerUpdateEndpoint};
use crate::ranking::canonical::{
    CanonicalReader, CanonicalWriter, CoreCodecError, SectionKind, bounded_count_fault,
    header_fault, i32_code, i32_from, kind_number, le_at, le_bytes, le_value, lemma_le_len,
    section_header, section_reader, section_writer, trailing_fault,
};
use crate::ranking::customer_chain::CustomerKey;
use crate::ranking::runner::StockVersion;
use crate::ranking::stock_chain::StockKey;

verus! {

/// Largest encoded section of either interval.
pub const MAX_INTERVAL_SECTION_BYTES: usize = 4_096;

/// Most bytes of the customer intervals.
pub const MAX_CUSTOMER_INTERVAL_SECTION_BYTES: usize = MAX_INTERVAL_SECTION_BYTES;

/// Most bytes of the stock intervals.
pub const MAX_STOCK_INTERVAL_SECTION_BYTES: usize = MAX_INTERVAL_SECTION_BYTES;

/// Most samples of a section.
pub const MAX_INTERVAL_SAMPLES: u32 = 64;

/// What both sections of one run share.
#[derive(Clone, Copy, Debug, PartialEq, Eq, Structural)]
pub struct IntervalMetadata {
    pub warehouses: u16,
    pub sample_seed: u64,
    pub policy_version: u32,
}

/// The first key that the sample left out.
#[derive(Clone, Copy, Debug, PartialEq, Eq, Structural)]
pub struct CanonicalRejectedSample {
    pub rank: u64,
    pub key_index: u32,
}

/// A sampled customer and the end of its chain.
#[derive(Clone, Copy, Debug, PartialEq, Eq, Structural)]
pub struct CanonicalCustomerChain {
    pub key: CustomerKey,
    pub sample_rank: u64,
    pub endpoint: CustomerUpdateEndpoint,
}

/// A sampled stock row and both ends of its chain.
#[derive(Clone, Copy, Debug, PartialEq, Eq, Structural)]
pub struct CanonicalStockChain {
    pub key: StockKey,
    pub sample_rank: u64,
    pub initial: StockVersion,
    pub endpoint: StockVersion,
}

/// The customer section as it is read.
#[derive(Clone, Debug, PartialEq, Eq)]
pub struct DecodedCustomerIntervals {
    pub metadata: IntervalMetadata,
    pub update_count: u64,
    pub rejected: Option<CanonicalRejectedSample>,
    pub entries: Vec<CanonicalCustomerChain>,
}

/// The stock section as it is read.
#[derive(Clone, Debug, PartialEq, Eq)]
pub struct DecodedStockIntervals {
    pub metadata: IntervalMetadata,
    pub update_count: u64,
    pub rejected: Option<CanonicalRejectedSample>,
    pub entries: Vec<CanonicalStockChain>,
}

/// The evidence of both sections.
#[derive(Clone, Debug, PartialEq, Eq)]
pub struct SampledIntervalEvidence {
    pub metadata: IntervalMetadata,
    pub customer_update_count: u64,
    pub stock_update_count: u64,
    pub customer_rejected: Option<CanonicalRejectedSample>,
    pub stock_rejected: Option<CanonicalRejectedSample>,
    pub customers: Vec<CanonicalCustomerChain>,
    pub stocks: Vec<CanonicalStockChain>,
}

/// The content of one section.
#[verifier::ext_equal]
pub struct SectionModel<E> {
    pub metadata: IntervalMetadata,
    pub update_count: u64,
    pub rejected: Option<CanonicalRejectedSample>,
    pub entries: Seq<E>,
}

impl View for DecodedCustomerIntervals {
    type V = SectionModel<CanonicalCustomerChain>;

    open spec fn view(&self) -> SectionModel<CanonicalCustomerChain> {
        SectionModel {
            metadata: self.metadata,
            update_count: self.update_count,
            rejected: self.rejected,
            entries: self.entries@,
        }
    }
}

impl View for DecodedStockIntervals {
    type V = SectionModel<CanonicalStockChain>;

    open spec fn view(&self) -> SectionModel<CanonicalStockChain> {
        SectionModel {
            metadata: self.metadata,
            update_count: self.update_count,
            rejected: self.rejected,
            entries: self.entries@,
        }
    }
}

impl SampledIntervalEvidence {
    /// What the customer section holds.
    pub open spec fn customer_part(self) -> SectionModel<CanonicalCustomerChain> {
        SectionModel {
            metadata: self.metadata,
            update_count: self.customer_update_count,
            rejected: self.customer_rejected,
            entries: self.customers@,
        }
    }

    /// What the stock section holds.
    pub open spec fn stock_part(self) -> SectionModel<CanonicalStockChain> {
        SectionModel {
            metadata: self.metadata,
            update_count: self.stock_update_count,
            rejected: self.stock_rejected,
            entries: self.stocks@,
        }
    }
}

/// The bytes of the metadata.
pub open spec fn metadata_bytes(m: IntervalMetadata) -> Seq<u8> {
    le_bytes(m.warehouses as nat, 2) + le_bytes(m.sample_seed as nat, 8) + le_bytes(
        m.policy_version as nat,
        4,
    )
}

/// The metadata that bytes start with.
pub open spec fn metadata_read(rest: Seq<u8>) -> IntervalMetadata {
    IntervalMetadata {
        warehouses: le_at(rest, 0, 2) as u16,
        sample_seed: le_at(rest, 2, 8) as u64,
        policy_version: le_at(rest, 10, 4) as u32,
    }
}

/// The bytes of the rejected sample: a flag, then the sample if there is one.
pub open spec fn rejected_bytes(rejected: Option<CanonicalRejectedSample>) -> Seq<u8> {
    match rejected {
        None => le_bytes(0, 1),
        Some(sample) => le_bytes(1, 1) + le_bytes(sample.rank as nat, 8) + le_bytes(
            sample.key_index as nat,
            4,
        ),
    }
}

/// Why the rejected sample is refused.
pub open spec fn rejected_fault(rest: Seq<u8>, field: &'static str) -> Option<CoreCodecError> {
    first(
        refused_if(rest.len() < 1, CoreCodecError::Truncated),
        first(
            refused_if(
                rest[0] > 1,
                CoreCodecError::InvalidPresenceFlag { field, actual: rest[0] },
            ),
            refused_if(rest[0] == 1 && rest.len() < 13, CoreCodecError::Truncated),
        ),
    )
}

/// How many bytes the rejected sample takes.
pub open spec fn rejected_size(rest: Seq<u8>) -> int {
    if rest[0] == 0 {
        1
    } else {
        13
    }
}

/// The rejected sample that bytes start with.
pub open spec fn rejected_read(rest: Seq<u8>) -> Option<CanonicalRejectedSample> {
    if rest[0] == 0 {
        None
    } else {
        Some(
            CanonicalRejectedSample {
                rank: le_at(rest, 1, 8) as u64,
                key_index: le_at(rest, 9, 4) as u32,
            },
        )
    }
}

/// What follows the metadata and the update count.
pub open spec fn rejected_part(bytes: Seq<u8>) -> Seq<u8> {
    bytes.skip(7).skip(22)
}

/// What follows the rejected sample.
pub open spec fn count_part(bytes: Seq<u8>) -> Seq<u8> {
    rejected_part(bytes).skip(rejected_size(rejected_part(bytes)))
}

/// The entries and what follows them.
pub open spec fn entries_part(bytes: Seq<u8>) -> Seq<u8> {
    count_part(bytes).skip(4)
}

/// The number of entries.
pub open spec fn entry_count(bytes: Seq<u8>) -> nat {
    le_at(count_part(bytes), 0, 4)
}

/// Why the layout of a section is refused.
pub open spec fn intervals_fault(
    bytes: Seq<u8>,
    kind: SectionKind,
    rejected_field: &'static str,
    count_field: &'static str,
    entry_size: int,
) -> Option<CoreCodecError> {
    first(
        header_fault(bytes, kind, MAX_INTERVAL_SECTION_BYTES),
        first(
            refused_if(bytes.skip(7).len() < 22, CoreCodecError::Truncated),
            first(
                rejected_fault(rejected_part(bytes), rejected_field),
                first(
                    bounded_count_fault(count_part(bytes), count_field, 64),
                    first(
                        refused_if(
                            entries_part(bytes).len() < entry_size * entry_count(bytes),
                            CoreCodecError::Truncated,
                        ),
                        trailing_fault(entries_part(bytes).skip(entry_size * entry_count(bytes))),
                    ),
                ),
            ),
        ),
    )
}

/// The head of a section, up to its entries.
pub open spec fn intervals_head<E>(kind: SectionKind, s: SectionModel<E>) -> Seq<u8> {
    section_header(kind) + metadata_bytes(s.metadata) + le_bytes(s.update_count as nat, 8)
        + rejected_bytes(s.rejected) + le_bytes(s.entries.len(), 4)
}

/// The bytes of a customer entry.
pub open spec fn customer_entry_bytes(e: CanonicalCustomerChain) -> Seq<u8> {
    le_bytes(i32_code(e.key.warehouse_id), 4) + le_bytes(i32_code(e.key.district_id), 4) + le_bytes(
        i32_code(e.key.customer_id),
        4,
    ) + le_bytes(e.sample_rank as nat, 8) + le_bytes(
        i32_code(e.endpoint.version.payment_count),
        4,
    ) + le_bytes(i32_code(e.endpoint.version.delivery_count), 4) + le_bytes(
        e.endpoint.balance_bits as nat,
        4,
    ) + le_bytes(e.endpoint.ytd_payment_bits as nat, 4)
}

/// The customer entry at a position.
pub open spec fn customer_entry_at(rest: Seq<u8>, at: int) -> CanonicalCustomerChain {
    CanonicalCustomerChain {
        key: CustomerKey {
            warehouse_id: i32_from(le_at(rest, at, 4)),
            district_id: i32_from(le_at(rest, at + 4, 4)),
            customer_id: i32_from(le_at(rest, at + 8, 4)),
        },
        sample_rank: le_at(rest, at + 12, 8) as u64,
        endpoint: CustomerUpdateEndpoint {
            version: CustomerLogicalVersion {
                payment_count: i32_from(le_at(rest, at + 20, 4)),
                delivery_count: i32_from(le_at(rest, at + 24, 4)),
            },
            balance_bits: le_at(rest, at + 28, 4) as u32,
            ytd_payment_bits: le_at(rest, at + 32, 4) as u32,
        },
    }
}

/// The bytes of a stock version.
pub open spec fn stock_version_bytes(v: StockVersion) -> Seq<u8> {
    le_bytes(i32_code(v.quantity), 4) + le_bytes(v.ytd_bits as nat, 4) + le_bytes(
        i32_code(v.order_count),
        4,
    ) + le_bytes(i32_code(v.remote_count), 4)
}

/// The stock version at a position.
pub open spec fn stock_version_at(rest: Seq<u8>, at: int) -> StockVersion {
    StockVersion {
        quantity: i32_from(le_at(rest, at, 4)),
        ytd_bits: le_at(rest, at + 4, 4) as u32,
        order_count: i32_from(le_at(rest, at + 8, 4)),
        remote_count: i32_from(le_at(rest, at + 12, 4)),
    }
}

/// The bytes of a stock entry.
pub open spec fn stock_entry_bytes(e: CanonicalStockChain) -> Seq<u8> {
    le_bytes(i32_code(e.key.warehouse_id), 4) + le_bytes(i32_code(e.key.item_id), 4) + le_bytes(
        e.sample_rank as nat,
        8,
    ) + stock_version_bytes(e.initial) + stock_version_bytes(e.endpoint)
}

/// The stock entry at a position.
pub open spec fn stock_entry_at(rest: Seq<u8>, at: int) -> CanonicalStockChain {
    CanonicalStockChain {
        key: StockKey {
            warehouse_id: i32_from(le_at(rest, at, 4)),
            item_id: i32_from(le_at(rest, at + 4, 4)),
        },
        sample_rank: le_at(rest, at + 8, 8) as u64,
        initial: stock_version_at(rest, at + 16),
        endpoint: stock_version_at(rest, at + 32),
    }
}

/// The bytes of the first `n` customer entries.
pub open spec fn customer_entries_bytes(entries: Seq<CanonicalCustomerChain>, n: int) -> Seq<u8>
    decreases n,
{
    if n <= 0 {
        Seq::empty()
    } else {
        customer_entries_bytes(entries, n - 1) + customer_entry_bytes(entries[n - 1])
    }
}

/// The bytes of the first `n` stock entries.
pub open spec fn stock_entries_bytes(entries: Seq<CanonicalStockChain>, n: int) -> Seq<u8>
    decreases n,
{
    if n <= 0 {
        Seq::empty()
    } else {
        stock_entries_bytes(entries, n - 1) + stock_entry_bytes(entries[n - 1])
    }
}

/// The customer section.
pub open spec fn customer_section(s: SectionModel<CanonicalCustomerChain>) -> Seq<u8> {
    intervals_head(SectionKind::CustomerIntervals, s) + customer_entries_bytes(
        s.entries,
        s.entries.len() as int,
    )
}

/// The stock section.
pub open spec fn stock_section(s: SectionModel<CanonicalStockChain>) -> Seq<u8> {
    intervals_head(SectionKind::StockIntervals, s) + stock_entries_bytes(
        s.entries,
        s.entries.len() as int,
    )
}

/// Why a customer section is refused.
pub open spec fn customer_section_fault(bytes: Seq<u8>) -> Option<CoreCodecError> {
    intervals_fault(
        bytes,
        SectionKind::CustomerIntervals,
        "customer rejected sample",
        "customer interval samples",
        36,
    )
}

/// Why a stock section is refused.
pub open spec fn stock_section_fault(bytes: Seq<u8>) -> Option<CoreCodecError> {
    intervals_fault(
        bytes,
        SectionKind::StockIntervals,
        "Stock rejected sample",
        "Stock interval samples",
        48,
    )
}

/// The customer section in bytes.
pub open spec fn customer_section_read(bytes: Seq<u8>) -> SectionModel<CanonicalCustomerChain> {
    SectionModel {
        metadata: metadata_read(bytes.skip(7)),
        update_count: le_at(bytes.skip(7), 14, 8) as u64,
        rejected: rejected_read(rejected_part(bytes)),
        entries: Seq::new(
            entry_count(bytes),
            |i: int| customer_entry_at(entries_part(bytes), 36 * i),
        ),
    }
}

/// The stock section in bytes.
pub open spec fn stock_section_read(bytes: Seq<u8>) -> SectionModel<CanonicalStockChain> {
    SectionModel {
        metadata: metadata_read(bytes.skip(7)),
        update_count: le_at(bytes.skip(7), 14, 8) as u64,
        rejected: rejected_read(rejected_part(bytes)),
        entries: Seq::new(
            entry_count(bytes),
            |i: int| stock_entry_at(entries_part(bytes), 48 * i),
        ),
    }
}

/// Why a number of samples is refused.
pub open spec fn sample_count_fault(field: &'static str, count: nat) -> Option<CoreCodecError> {
    refused_if(
        count > 64,
        CoreCodecError::OversizedCount { field, actual: count as u64, maximum: 64 },
    )
}

/// Reading after some bytes is reading further on.
pub proof fn lemma_at_shifted(bytes: Seq<u8>, by: int, at: int, width: int)
    requires
        0 <= by,
        0 <= at,
        0 <= width,
        by + at + width <= bytes.len(),
    ensures
        le_at(bytes.skip(by), at, width) == le_at(bytes, by + at, width),
{
    assert(bytes.skip(by).subrange(at, at + width) =~= bytes.subrange(by + at, by + at + width));
}

fn encode_head(
    kind: SectionKind,
    metadata: IntervalMetadata,
    update_count: u64,
    rejected: Option<CanonicalRejectedSample>,
    count: usize,
    field: &'static str,
) -> (r: Result<CanonicalWriter, CoreCodecError>)
    ensures
        refusal(r) == sample_count_fault(field, count as nat),
        r matches Ok(writer) ==> writer.maximum == MAX_INTERVAL_SECTION_BYTES && writer@.len() <= 46 && writer@
            == section_header(kind) + metadata_bytes(metadata) + le_bytes(update_count as nat, 8)
            + rejected_bytes(rejected) + le_bytes(count as nat, 4),
{
    proof {
        lemma_le_len(kind_number(kind) as nat, 1);
        lemma_le_len(1, 2);
        lemma_le_len(metadata.warehouses as nat, 2);
        lemma_le_len(metadata.sample_seed as nat, 8);
        lemma_le_len(metadata.policy_version as nat, 4);
        lemma_le_len(update_count as nat, 8);
        lemma_le_len(0, 1);
        lemma_le_len(1, 1);
        lemma_le_len(count as nat, 4);
        if rejected is Some {
            lemma_le_len(rejected->0.rank as nat, 8);
            lemma_le_len(rejected->0.key_index as nat, 4);
        }
    }
    if count > MAX_INTERVAL_SAMPLES as usize {
        return Err(
            CoreCodecError::OversizedCount { field, actual: count as u64, maximum: 64 },
        );
    }
    let mut writer = section_writer(kind, MAX_INTERVAL_SECTION_BYTES)?;
    writer.put_u16(metadata.warehouses)?;
    writer.put_u64(metadata.sample_seed)?;
    writer.put_u32(metadata.policy_version)?;
    assert(writer@ =~= section_header(kind) + metadata_bytes(metadata));
    writer.put_u64(update_count)?;
    let ghost before = writer@;
    match rejected {
        None => {
            writer.put_u8(0)?;
        },
        Some(sample) => {
            writer.put_u8(1)?;
            writer.put_u64(sample.rank)?;
            writer.put_u32(sample.key_index)?;
        },
    }
    assert(writer@ =~= before + rejected_bytes(rejected));
    writer.put_u32(count as u32)?;
    Ok(writer)
}

pub proof fn lemma_customer_entry_len(e: CanonicalCustomerChain)
    ensures
        customer_entry_bytes(e).len() == 36,
{
    lemma_le_len(i32_code(e.key.warehouse_id), 4);
    lemma_le_len(i32_code(e.key.district_id), 4);
    lemma_le_len(i32_code(e.key.customer_id), 4);
    lemma_le_len(e.sample_rank as nat, 8);
    lemma_le_len(i32_code(e.endpoint.version.payment_count), 4);
    lemma_le_len(i32_code(e.endpoint.version.delivery_count), 4);
    lemma_le_len(e.endpoint.balance_bits as nat, 4);
    lemma_le_len(e.endpoint.ytd_payment_bits as nat, 4);
}

pub proof fn lemma_stock_version_len(v: StockVersion)
    ensures
        stock_version_bytes(v).len() == 16,
{
    lemma_le_len(i32_code(v.quantity), 4);
    lemma_le_len(v.ytd_bits as nat, 4);
    lemma_le_len(i32_code(v.order_count), 4);
    lemma_le_len(i32_code(v.remote_count), 4);
}

pub proof fn lemma_stock_entry_len(e: CanonicalStockChain)
    ensures
        stock_entry_bytes(e).len() == 48,
{
    lemma_le_len(i32_code(e.key.warehouse_id), 4);
    lemma_le_len(i32_code(e.key.item_id), 4);
    lemma_le_len(e.sample_rank as nat, 8);
    lemma_stock_version_len(e.initial);
    lemma_stock_version_len(e.endpoint);
}

fn encode_customer_entry(writer: &mut CanonicalWriter, e: &CanonicalCustomerChain) -> (r: Result<
    (),
    CoreCodecError,
>)
    requires
        old(writer)@.len() + 36 <= old(writer).maximum,
    ensures
        r is Ok,
        final(writer)@ == old(writer)@ + customer_entry_bytes(*e),
        final(writer).maximum == old(writer).maximum,
{
    let ghost before = writer@;
    proof {
        lemma_customer_entry_len(*e);
        lemma_le_len(i32_code(e.key.warehouse_id), 4);
        lemma_le_len(i32_code(e.key.district_id), 4);
        lemma_le_len(i32_code(e.key.customer_id), 4);
        lemma_le_len(e.sample_rank as nat, 8);
        lemma_le_len(i32_code(e.endpoint.version.payment_count), 4);
        lemma_le_len(i32_code(e.endpoint.version.delivery_count), 4);
        lemma_le_len(e.endpoint.balance_bits as nat, 4);
        lemma_le_len(e.endpoint.ytd_payment_bits as nat, 4);
    }
    writer.put_i32(e.key.warehouse_id)?;
    writer.put_i32(e.key.district_id)?;
    writer.put_i32(e.key.customer_id)?;
    writer.put_u64(e.sample_rank)?;
    writer.put_i32(e.endpoint.version.payment_count)?;
    writer.put_i32(e.endpoint.version.delivery_count)?;
    writer.put_u32(e.endpoint.balance_bits)?;
    writer.put_u32(e.endpoint.ytd_payment_bits)?;
    assert(writer@ =~= before + customer_entry_bytes(*e));
    Ok(())
}

fn encode_stock_version(writer: &mut CanonicalWriter, v: &StockVersion) -> (r: Result<
    (),
    CoreCodecError,
>)
    requires
        old(writer)@.len() + 16 <= old(writer).maximum,
    ensures
        r is Ok,
        final(writer)@ == old(writer)@ + stock_version_bytes(*v),
        final(writer).maximum == old(writer).maximum,
{
    let ghost before = writer@;
    proof {
        lemma_le_len(i32_code(v.quantity), 4);
        lemma_le_len(v.ytd_bits as nat, 4);
        lemma_le_len(i32_code(v.order_count), 4);
        lemma_le_len(i32_code(v.remote_count), 4);
    }
    writer.put_i32(v.quantity)?;
    writer.put_u32(v.ytd_bits)?;
    writer.put_i32(v.order_count)?;
    writer.put_i32(v.remote_count)?;
    assert(writer@ =~= before + stock_version_bytes(*v));
    Ok(())
}

fn encode_stock_entry(writer: &mut CanonicalWriter, e: &CanonicalStockChain) -> (r: Result<
    (),
    CoreCodecError,
>)
    requires
        old(writer)@.len() + 48 <= old(writer).maximum,
    ensures
        r is Ok,
        final(writer)@ == old(writer)@ + stock_entry_bytes(*e),
        final(writer).maximum == old(writer).maximum,
{
    let ghost before = writer@;
    proof {
        lemma_stock_version_len(e.initial);
        lemma_le_len(i32_code(e.key.warehouse_id), 4);
        lemma_le_len(i32_code(e.key.item_id), 4);
        lemma_le_len(e.sample_rank as nat, 8);
    }
    writer.put_i32(e.key.warehouse_id)?;
    writer.put_i32(e.key.item_id)?;
    writer.put_u64(e.sample_rank)?;
    encode_stock_version(writer, &e.initial)?;
    encode_stock_version(writer, &e.endpoint)?;
    assert(writer@ =~= before + stock_entry_bytes(*e));
    Ok(())
}

/// Writes the customer section.
pub fn encode_customer_interval_section(intervals: &SampledIntervalEvidence) -> (r: Result<
    Vec<u8>,
    CoreCodecError,
>)
    ensures
        refusal(r) == sample_count_fault("customer interval samples", intervals.customers@.len()),
        r matches Ok(bytes) ==> bytes@ == customer_section(intervals.customer_part()),
{
    let entries = &intervals.customers;
    let mut writer = encode_head(
        SectionKind::CustomerIntervals,
        intervals.metadata,
        intervals.customer_update_count,
        intervals.customer_rejected,
        entries.len(),
        "customer interval samples",
    )?;
    let ghost head = writer@;
    let mut i: usize = 0;
    assert(writer@ =~= head + customer_entries_bytes(entries@, 0));
    while i < entries.len()
        invariant
            i <= entries@.len() <= 64,
            writer.maximum == MAX_INTERVAL_SECTION_BYTES,
            head.len() <= 46,
            writer@.len() == head.len() + 36 * i,
            writer@ == head + customer_entries_bytes(entries@, i as int),
        decreases entries@.len() - i,
    {
        encode_customer_entry(&mut writer, &entries[i])?;
        proof {
            lemma_customer_entry_len(entries@[i as int]);
        }
        i = i + 1;
        assert(writer@ =~= head + customer_entries_bytes(entries@, i as int));
    }
    assert(writer@ =~= customer_section(intervals.customer_part()));
    Ok(writer.finish())
}

/// Writes the stock section.
pub fn encode_stock_interval_section(intervals: &SampledIntervalEvidence) -> (r: Result<
    Vec<u8>,
    CoreCodecError,
>)
    ensures
        refusal(r) == sample_count_fault("Stock interval samples", intervals.stocks@.len()),
        r matches Ok(bytes) ==> bytes@ == stock_section(intervals.stock_part()),
{
    let entries = &intervals.stocks;
    let mut writer = encode_head(
        SectionKind::StockIntervals,
        intervals.metadata,
        intervals.stock_update_count,
        intervals.stock_rejected,
        entries.len(),
        "Stock interval samples",
    )?;
    let ghost head = writer@;
    let mut i: usize = 0;
    assert(writer@ =~= head + stock_entries_bytes(entries@, 0));
    while i < entries.len()
        invariant
            i <= entries@.len() <= 64,
            writer.maximum == MAX_INTERVAL_SECTION_BYTES,
            head.len() <= 46,
            writer@.len() == head.len() + 48 * i,
            writer@ == head + stock_entries_bytes(entries@, i as int),
        decreases entries@.len() - i,
    {
        encode_stock_entry(&mut writer, &entries[i])?;
        proof {
            lemma_stock_entry_len(entries@[i as int]);
        }
        i = i + 1;
        assert(writer@ =~= head + stock_entries_bytes(entries@, i as int));
    }
    assert(writer@ =~= stock_section(intervals.stock_part()));
    Ok(writer.finish())
}

proof fn lemma_read_on(given: Seq<u8>, at: int, width: int)
    requires
        0 <= at,
        0 <= width,
        at + width <= given.len(),
    ensures
        le_at(given.skip(at), 0, width) == le_at(given, at, width),
        given.skip(at).skip(width) == given.skip(at + width),
        given.skip(0) == given,
{
    lemma_at_shifted(given, at, 0, width);
    assert(given.skip(at).skip(width) =~= given.skip(at + width));
    assert(given.skip(0) =~= given);
}

fn decode_customer_entry<'a>(reader: &mut CanonicalReader<'a>) -> (r: Result<
    CanonicalCustomerChain,
    CoreCodecError,
>)
    requires
        old(reader).wf(),
    ensures
        final(reader).wf(),
        final(reader).bytes == old(reader).bytes,
        refusal(r) == refused_if(old(reader).rest().len() < 36, CoreCodecError::Truncated),
        r matches Ok(e) ==> e == customer_entry_at(old(reader).rest(), 0),
        r is Ok ==> final(reader).rest() == old(reader).rest().skip(36),
{
    let ghost given = reader.rest();
    assert(given.skip(0) =~= given);
    let warehouse_id: i32 = reader.get_i32()?;
    proof {
        lemma_read_on(given, 0, 4);
    }
    let district_id: i32 = reader.get_i32()?;
    proof {
        lemma_read_on(given, 4, 4);
    }
    let customer_id: i32 = reader.get_i32()?;
    proof {
        lemma_read_on(given, 8, 4);
    }
    let sample_rank: u64 = reader.get_u64()?;
    proof {
        lemma_read_on(given, 12, 8);
    }
    let payment_count: i32 = reader.get_i32()?;
    proof {
        lemma_read_on(given, 20, 4);
    }
    let delivery_count: i32 = reader.get_i32()?;
    proof {
        lemma_read_on(given, 24, 4);
    }
    let balance_bits: u32 = reader.get_u32()?;
    proof {
        lemma_read_on(given, 28, 4);
    }
    let ytd_payment_bits: u32 = reader.get_u32()?;
    proof {
        lemma_read_on(given, 32, 4);
    }
    Ok(
        CanonicalCustomerChain {
            key: CustomerKey { warehouse_id, district_id, customer_id },
            sample_rank,
            endpoint: CustomerUpdateEndpoint {
                version: CustomerLogicalVersion { payment_count, delivery_count },
                balance_bits,
                ytd_payment_bits,
            },
        },
    )
}

fn decode_stock_version<'a>(reader: &mut CanonicalReader<'a>) -> (r: Result<
    StockVersion,
    CoreCodecError,
>)
    requires
        old(reader).wf(),
    ensures
        final(reader).wf(),
        final(reader).bytes == old(reader).bytes,
        refusal(r) == refused_if(old(reader).rest().len() < 16, CoreCodecError::Truncated),
        r matches Ok(v) ==> v == stock_version_at(old(reader).rest(), 0),
        r is Ok ==> final(reader).rest() == old(reader).rest().skip(16),
{
    let ghost given = reader.rest();
    assert(given.skip(0) =~= given);
    let quantity: i32 = reader.get_i32()?;
    proof {
        lemma_read_on(given, 0, 4);
    }
    let ytd_bits: u32 = reader.get_u32()?;
    proof {
        lemma_read_on(given, 4, 4);
    }
    let order_count: i32 = reader.get_i32()?;
    proof {
        lemma_read_on(given, 8, 4);
    }
    let remote_count: i32 = reader.get_i32()?;
    proof {
        lemma_read_on(given, 12, 4);
    }
    Ok(StockVersion { quantity, ytd_bits, order_count, remote_count })
}

pub proof fn lemma_stock_version_shifted(bytes: Seq<u8>, by: int, at: int)
    requires
        0 <= by,
        0 <= at,
        by + at + 16 <= bytes.len(),
    ensures
        stock_version_at(bytes.skip(by), at) == stock_version_at(bytes, by + at),
{
    lemma_at_shifted(bytes, by, at, 4);
    lemma_at_shifted(bytes, by, at + 4, 4);
    lemma_at_shifted(bytes, by, at + 8, 4);
    lemma_at_shifted(bytes, by, at + 12, 4);
}

fn decode_stock_entry<'a>(reader: &mut CanonicalReader<'a>) -> (r: Result<
    CanonicalStockChain,
    CoreCodecError,
>)
    requires
        old(reader).wf(),
    ensures
        final(reader).wf(),
        final(reader).bytes == old(reader).bytes,
        refusal(r) == refused_if(old(reader).rest().len() < 48, CoreCodecError::Truncated),
        r matches Ok(e) ==> e == stock_entry_at(old(reader).rest(), 0),
        r is Ok ==> final(reader).rest() == old(reader).rest().skip(48),
{
    let ghost given = reader.rest();
    assert(given.skip(0) =~= given);
    let warehouse_id: i32 = reader.get_i32()?;
    proof {
        lemma_read_on(given, 0, 4);
    }
    let item_id: i32 = reader.get_i32()?;
    proof {
        lemma_read_on(given, 4, 4);
    }
    let sample_rank: u64 = reader.get_u64()?;
    proof {
        lemma_read_on(given, 8, 8);
    }
    let initial = decode_stock_version(reader)?;
    proof {
        lemma_stock_version_shifted(given, 16, 0);
        lemma_read_on(given, 16, 16);
    }
    let endpoint = decode_stock_version(reader)?;
    proof {
        lemma_stock_version_shifted(given, 32, 0);
        lemma_read_on(given, 32, 16);
    }
    Ok(
        CanonicalStockChain {
            key: StockKey { warehouse_id, item_id },
            sample_rank,
            initial,
            endpoint,
        },
    )
}

/// What stands in front of the entries.
struct Head {
    metadata: IntervalMetadata,
    update_count: u64,
    rejected: Option<CanonicalRejectedSample>,
    count: u32,
}

fn decode_rejected_sample<'a>(reader: &mut CanonicalReader<'a>, field: &'static str) -> (r: Result<
    Option<CanonicalRejectedSample>,
    CoreCodecError,
>)
    requires
        old(reader).wf(),
    ensures
        final(reader).wf(),
        final(reader).bytes == old(reader).bytes,
        refusal(r) == rejected_fault(old(reader).rest(), field),
        r matches Ok(sample) ==> sample == rejected_read(old(reader).rest()),
        r is Ok ==> final(reader).rest() == old(reader).rest().skip(
            rejected_size(old(reader).rest()),
        ),
{
    let ghost given = reader.rest();
    assert(given.skip(0) =~= given);
    let flag: u8 = reader.get_u8()?;
    proof {
        lemma_le_byte(given, 0);
        lemma_read_on(given, 0, 1);
    }
    if flag == 0 {
        return Ok(None);
    }
    if flag > 1 {
        return Err(CoreCodecError::InvalidPresenceFlag { field, actual: flag });
    }
    let rank: u64 = reader.get_u64()?;
    proof {
        lemma_read_on(given, 1, 8);
    }
    let key_index: u32 = reader.get_u32()?;
    proof {
        lemma_read_on(given, 9, 4);
    }
    Ok(Some(CanonicalRejectedSample { rank, key_index }))
}

/// One byte stands for itself.
pub proof fn lemma_le_byte(bytes: Seq<u8>, at: int)
    requires
        0 <= at < bytes.len(),
    ensures
        le_at(bytes, at, 1) == bytes[at],
{
    let part = bytes.subrange(at, at + 1);
    assert(part.drop_first() =~= Seq::empty());
    reveal_with_fuel(le_value, 2);
}

/// Why the head of a section is refused.
spec fn head_fault(
    bytes: Seq<u8>,
    kind: SectionKind,
    rejected_field: &'static str,
    count_field: &'static str,
) -> Option<CoreCodecError> {
    first(
        header_fault(bytes, kind, MAX_INTERVAL_SECTION_BYTES),
        first(
            refused_if(bytes.skip(7).len() < 22, CoreCodecError::Truncated),
            first(
                rejected_fault(rejected_part(bytes), rejected_field),
                bounded_count_fault(count_part(bytes), count_field, 64),
            ),
        ),
    )
}

fn decode_head<'a>(
    bytes: &'a [u8],
    kind: SectionKind,
    rejected_field: &'static str,
    count_field: &'static str,
) -> (r: Result<(CanonicalReader<'a>, Head), CoreCodecError>)
    ensures
        refusal(r) == head_fault(bytes@, kind, rejected_field, count_field),
        r matches Ok((reader, head)) ==> {
            &&& reader.wf()
            &&& reader.rest() == entries_part(bytes@)
            &&& head.metadata == metadata_read(bytes@.skip(7))
            &&& head.update_count == le_at(bytes@.skip(7), 14, 8)
            &&& head.rejected == rejected_read(rejected_part(bytes@))
            &&& head.count == entry_count(bytes@)
            &&& head.count <= 64
        },
{
    let mut reader = section_reader(bytes, kind, MAX_INTERVAL_SECTION_BYTES)?;
    let ghost given = reader.rest();
    assert(given.skip(0) =~= given);
    let warehouses: u16 = reader.get_u16()?;
    proof {
        lemma_read_on(given, 0, 2);
    }
    let sample_seed: u64 = reader.get_u64()?;
    proof {
        lemma_read_on(given, 2, 8);
    }
    let policy_version: u32 = reader.get_u32()?;
    proof {
        lemma_read_on(given, 10, 4);
    }
    let update_count: u64 = reader.get_u64()?;
    proof {
        lemma_read_on(given, 14, 8);
    }
    let rejected = decode_rejected_sample(&mut reader, rejected_field)?;
    let count: u32 = reader.bounded_count(count_field, MAX_INTERVAL_SAMPLES)?;
    let metadata = IntervalMetadata { warehouses, sample_seed, policy_version };
    Ok((reader, Head { metadata, update_count, rejected, count }))
}

pub proof fn lemma_customer_entry_shifted(bytes: Seq<u8>, by: int)
    requires
        0 <= by,
        by + 36 <= bytes.len(),
    ensures
        customer_entry_at(bytes.skip(by), 0) == customer_entry_at(bytes, by),
{
    lemma_at_shifted(bytes, by, 0, 4);
    lemma_at_shifted(bytes, by, 4, 4);
    lemma_at_shifted(bytes, by, 8, 4);
    lemma_at_shifted(bytes, by, 12, 8);
    lemma_at_shifted(bytes, by, 20, 4);
    lemma_at_shifted(bytes, by, 24, 4);
    lemma_at_shifted(bytes, by, 28, 4);
    lemma_at_shifted(bytes, by, 32, 4);
}

pub proof fn lemma_stock_entry_shifted(bytes: Seq<u8>, by: int)
    requires
        0 <= by,
        by + 48 <= bytes.len(),
    ensures
        stock_entry_at(bytes.skip(by), 0) == stock_entry_at(bytes, by),
{
    lemma_at_shifted(bytes, by, 0, 4);
    lemma_at_shifted(bytes, by, 4, 4);
    lemma_at_shifted(bytes, by, 8, 8);
    lemma_stock_version_shifted(bytes, by, 16);
    lemma_stock_version_shifted(bytes, by, 32);
}

/// Reads the customer section.
pub fn decode_customer_interval_section(bytes: &[u8]) -> (r: Result<
    DecodedCustomerIntervals,
    CoreCodecError,
>)
    ensures
        refusal(r) == customer_section_fault(bytes@),
        r matches Ok(section) ==> section@ == customer_section_read(bytes@),
{
    let (mut reader, head) = decode_head(
        bytes,
        SectionKind::CustomerIntervals,
        "customer rejected sample",
        "customer interval samples",
    )?;
    let ghost body = entries_part(bytes@);
    let ghost count = entry_count(bytes@);
    let mut entries: Vec<CanonicalCustomerChain> = Vec::new();
    let mut i: u32 = 0;
    assert(body.skip(0) =~= body);
    while i < head.count
        invariant
            i <= head.count <= 64,
            count == head.count,
            count == entry_count(bytes@),
            body == entries_part(bytes@),
            head_fault(
                bytes@,
                SectionKind::CustomerIntervals,
                "customer rejected sample",
                "customer interval samples",
            ) is None,
            reader.wf(),
            36 * i <= body.len(),
            reader.rest() == body.skip(36 * i),
            entries@ =~= Seq::new(i as nat, |k: int| customer_entry_at(body, 36 * k)),
        decreases head.count - i,
    {
        let entry = decode_customer_entry(&mut reader)?;
        proof {
            lemma_customer_entry_shifted(body, 36 * i);
            assert(body.skip(36 * i).skip(36) =~= body.skip(36 * (i + 1)));
        }
        entries.push(entry);
        i = i + 1;
    }
    reader.finish()?;
    let section = DecodedCustomerIntervals {
        metadata: head.metadata,
        update_count: head.update_count,
        rejected: head.rejected,
        entries,
    };
    assert(section@ =~= customer_section_read(bytes@));
    Ok(section)
}

/// Reads the stock section.
pub fn decode_stock_interval_section(bytes: &[u8]) -> (r: Result<
    DecodedStockIntervals,
    CoreCodecError,
>)
    ensures
        refusal(r) == stock_section_fault(bytes@),
        r matches Ok(section) ==> section@ == stock_section_read(bytes@),
{
    let (mut reader, head) = decode_head(
        bytes,
        SectionKind::StockIntervals,
        "Stock rejected sample",
        "Stock interval samples",
    )?;
    let ghost body = entries_part(bytes@);
    let ghost count = entry_count(bytes@);
    let mut entries: Vec<CanonicalStockChain> = Vec::new();
    let mut i: u32 = 0;
    assert(body.skip(0) =~= body);
    while i < head.count
        invariant
            i <= head.count <= 64,
            count == head.count,
            count == entry_count(bytes@),
            body == entries_part(bytes@),
            head_fault(
                bytes@,
                SectionKind::StockIntervals,
                "Stock rejected sample",
                "Stock interval samples",
            ) is None,
            reader.wf(),
            48 * i <= body.len(),
            reader.rest() == body.skip(48 * i),
            entries@ =~= Seq::new(i as nat, |k: int| stock_entry_at(body, 48 * k)),
        decreases head.count - i,
    {
        let entry = decode_stock_entry(&mut reader)?;
        proof {
            lemma_stock_entry_shifted(body, 48 * i);
            assert(body.skip(48 * i).skip(48) =~= body.skip(48 * (i + 1)));
        }
        entries.push(entry);
        i = i + 1;
    }
    reader.finish()?;
    let section = DecodedStockIntervals {
        metadata: head.metadata,
        update_count: head.update_count,
        rejected: head.rejected,
        entries,
    };
    assert(section@ =~= stock_section_read(bytes@));
    Ok(section)
}

} // verus!
