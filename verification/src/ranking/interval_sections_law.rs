//! Interval sections that are written are read back, and those that are read
//! are written again as they were.
use vstd::prelude::*;

use crate::ranking::canonical::{
    SectionKind, bounded_count_fault, header_fault, i32_code, i32_from, le_at, le_bytes, le_radix,
    lemma_le_canonical, lemma_le_len, lemma_le_round_trip, lemma_le_widths, section_header,
};
use crate::ranking::core_artifact_law::{lemma_header_accepted, lemma_header_canonical};
use crate::ranking::interval_sections::{
    CanonicalCustomerChain, CanonicalRejectedSample, CanonicalStockChain, IntervalMetadata,
    MAX_INTERVAL_SECTION_BYTES, SectionModel, count_part, customer_entries_bytes,
    customer_entry_at, customer_entry_bytes, customer_section, customer_section_fault,
    customer_section_read, entries_part, entry_count, intervals_head, lemma_le_byte,
    metadata_bytes, metadata_read, rejected_bytes, rejected_fault, rejected_part, rejected_read,
    rejected_size, stock_entries_bytes, stock_entry_at, stock_entry_bytes, stock_section,
    stock_section_fault, stock_section_read, stock_version_at, stock_version_bytes,
};
use crate::ranking::runner::StockVersion;

verus! {

/// Signed numbers keep their bits.
proof fn lemma_codes()
    ensures
        forall|n: i32| #[trigger] i32_code(n) < le_radix(4) && i32_from(i32_code(n)) == n,
        forall|n: nat| n < 0x1_0000_0000 ==> i32_code(#[trigger] i32_from(n)) == n,
{
    lemma_le_widths();
}

proof fn lemma_customer_entry_back(e: CanonicalCustomerChain)
    ensures
        customer_entry_at(customer_entry_bytes(e), 0) == e,
        customer_entry_bytes(e).len() == 36,
{
    lemma_codes();
    lemma_le_widths();
    let bytes = customer_entry_bytes(e);
    lemma_le_len(i32_code(e.key.warehouse_id), 4);
    lemma_le_len(i32_code(e.key.district_id), 4);
    lemma_le_len(i32_code(e.key.customer_id), 4);
    lemma_le_len(e.sample_rank as nat, 8);
    lemma_le_len(i32_code(e.endpoint.version.payment_count), 4);
    lemma_le_len(i32_code(e.endpoint.version.delivery_count), 4);
    lemma_le_len(e.endpoint.balance_bits as nat, 4);
    lemma_le_len(e.endpoint.ytd_payment_bits as nat, 4);
    lemma_le_round_trip(i32_code(e.key.warehouse_id), 4);
    assert(bytes.subrange(0, 4) =~= le_bytes(i32_code(e.key.warehouse_id), 4));
    lemma_le_round_trip(i32_code(e.key.district_id), 4);
    assert(bytes.subrange(4, 8) =~= le_bytes(i32_code(e.key.district_id), 4));
    lemma_le_round_trip(i32_code(e.key.customer_id), 4);
    assert(bytes.subrange(8, 12) =~= le_bytes(i32_code(e.key.customer_id), 4));
    lemma_le_round_trip(e.sample_rank as nat, 8);
    assert(bytes.subrange(12, 20) =~= le_bytes(e.sample_rank as nat, 8));
    lemma_le_round_trip(i32_code(e.endpoint.version.payment_count), 4);
    assert(bytes.subrange(20, 24) =~= le_bytes(i32_code(e.endpoint.version.payment_count), 4));
    lemma_le_round_trip(i32_code(e.endpoint.version.delivery_count), 4);
    assert(bytes.subrange(24, 28) =~= le_bytes(i32_code(e.endpoint.version.delivery_count), 4));
    lemma_le_round_trip(e.endpoint.balance_bits as nat, 4);
    assert(bytes.subrange(28, 32) =~= le_bytes(e.endpoint.balance_bits as nat, 4));
    lemma_le_round_trip(e.endpoint.ytd_payment_bits as nat, 4);
    assert(bytes.subrange(32, 36) =~= le_bytes(e.endpoint.ytd_payment_bits as nat, 4));
}

proof fn lemma_customer_entry_canonical(part: Seq<u8>)
    requires
        part.len() == 36,
    ensures
        customer_entry_bytes(customer_entry_at(part, 0)) == part,
{
    lemma_codes();
    lemma_le_widths();
    let e = customer_entry_at(part, 0);
    lemma_le_canonical(part.subrange(0, 4));
    lemma_le_canonical(part.subrange(4, 8));
    lemma_le_canonical(part.subrange(8, 12));
    lemma_le_canonical(part.subrange(12, 20));
    lemma_le_canonical(part.subrange(20, 24));
    lemma_le_canonical(part.subrange(24, 28));
    lemma_le_canonical(part.subrange(28, 32));
    lemma_le_canonical(part.subrange(32, 36));
    assert(le_bytes(i32_code(e.key.warehouse_id), 4) == part.subrange(0, 4));
    assert(le_bytes(i32_code(e.key.district_id), 4) == part.subrange(4, 8));
    assert(le_bytes(i32_code(e.key.customer_id), 4) == part.subrange(8, 12));
    assert(le_bytes(e.sample_rank as nat, 8) == part.subrange(12, 20));
    assert(le_bytes(i32_code(e.endpoint.version.payment_count), 4) == part.subrange(20, 24));
    assert(le_bytes(i32_code(e.endpoint.version.delivery_count), 4) == part.subrange(24, 28));
    assert(le_bytes(e.endpoint.balance_bits as nat, 4) == part.subrange(28, 32));
    assert(le_bytes(e.endpoint.ytd_payment_bits as nat, 4) == part.subrange(32, 36));
    assert(customer_entry_bytes(e) =~= part);
}

proof fn lemma_stock_version_back(v: StockVersion)
    ensures
        stock_version_at(stock_version_bytes(v), 0) == v,
        stock_version_bytes(v).len() == 16,
{
    lemma_codes();
    lemma_le_widths();
    let bytes = stock_version_bytes(v);
    lemma_le_len(i32_code(v.quantity), 4);
    lemma_le_len(v.ytd_bits as nat, 4);
    lemma_le_len(i32_code(v.order_count), 4);
    lemma_le_len(i32_code(v.remote_count), 4);
    lemma_le_round_trip(i32_code(v.quantity), 4);
    assert(bytes.subrange(0, 4) =~= le_bytes(i32_code(v.quantity), 4));
    lemma_le_round_trip(v.ytd_bits as nat, 4);
    assert(bytes.subrange(4, 8) =~= le_bytes(v.ytd_bits as nat, 4));
    lemma_le_round_trip(i32_code(v.order_count), 4);
    assert(bytes.subrange(8, 12) =~= le_bytes(i32_code(v.order_count), 4));
    lemma_le_round_trip(i32_code(v.remote_count), 4);
    assert(bytes.subrange(12, 16) =~= le_bytes(i32_code(v.remote_count), 4));
}

proof fn lemma_stock_version_canonical(part: Seq<u8>)
    requires
        part.len() == 16,
    ensures
        stock_version_bytes(stock_version_at(part, 0)) == part,
{
    lemma_codes();
    lemma_le_widths();
    let v = stock_version_at(part, 0);
    lemma_le_canonical(part.subrange(0, 4));
    lemma_le_canonical(part.subrange(4, 8));
    lemma_le_canonical(part.subrange(8, 12));
    lemma_le_canonical(part.subrange(12, 16));
    assert(le_bytes(i32_code(v.quantity), 4) == part.subrange(0, 4));
    assert(le_bytes(v.ytd_bits as nat, 4) == part.subrange(4, 8));
    assert(le_bytes(i32_code(v.order_count), 4) == part.subrange(8, 12));
    assert(le_bytes(i32_code(v.remote_count), 4) == part.subrange(12, 16));
    assert(stock_version_bytes(v) =~= part);
}

/// A stock version within other bytes.
proof fn lemma_stock_version_within(bytes: Seq<u8>, at: int)
    requires
        0 <= at,
        at + 16 <= bytes.len(),
    ensures
        stock_version_at(bytes, at) == stock_version_at(bytes.subrange(at, at + 16), 0),
{
    let part = bytes.subrange(at, at + 16);
    assert(part.subrange(0, 4) =~= bytes.subrange(at, at + 4));
    assert(part.subrange(4, 8) =~= bytes.subrange(at + 4, at + 4 + 4));
    assert(part.subrange(8, 12) =~= bytes.subrange(at + 8, at + 8 + 4));
    assert(part.subrange(12, 16) =~= bytes.subrange(at + 12, at + 12 + 4));
}

proof fn lemma_stock_entry_back(e: CanonicalStockChain)
    ensures
        stock_entry_at(stock_entry_bytes(e), 0) == e,
        stock_entry_bytes(e).len() == 48,
{
    lemma_codes();
    lemma_le_widths();
    lemma_stock_version_back(e.initial);
    lemma_stock_version_back(e.endpoint);
    let bytes = stock_entry_bytes(e);
    lemma_le_len(i32_code(e.key.warehouse_id), 4);
    lemma_le_len(i32_code(e.key.item_id), 4);
    lemma_le_len(e.sample_rank as nat, 8);
    lemma_le_round_trip(i32_code(e.key.warehouse_id), 4);
    assert(bytes.subrange(0, 4) =~= le_bytes(i32_code(e.key.warehouse_id), 4));
    lemma_le_round_trip(i32_code(e.key.item_id), 4);
    assert(bytes.subrange(4, 8) =~= le_bytes(i32_code(e.key.item_id), 4));
    lemma_le_round_trip(e.sample_rank as nat, 8);
    assert(bytes.subrange(8, 16) =~= le_bytes(e.sample_rank as nat, 8));
    assert(bytes.subrange(16, 32) =~= stock_version_bytes(e.initial));
    assert(bytes.subrange(32, 48) =~= stock_version_bytes(e.endpoint));
    lemma_stock_version_within(bytes, 16);
    lemma_stock_version_within(bytes, 32);
}

proof fn lemma_stock_entry_canonical(part: Seq<u8>)
    requires
        part.len() == 48,
    ensures
        stock_entry_bytes(stock_entry_at(part, 0)) == part,
{
    lemma_codes();
    lemma_le_widths();
    let e = stock_entry_at(part, 0);
    lemma_stock_version_within(part, 16);
    lemma_stock_version_within(part, 32);
    lemma_stock_version_canonical(part.subrange(16, 32));
    lemma_stock_version_canonical(part.subrange(32, 48));
    lemma_le_canonical(part.subrange(0, 4));
    lemma_le_canonical(part.subrange(4, 8));
    lemma_le_canonical(part.subrange(8, 16));
    assert(le_bytes(i32_code(e.key.warehouse_id), 4) == part.subrange(0, 4));
    assert(le_bytes(i32_code(e.key.item_id), 4) == part.subrange(4, 8));
    assert(le_bytes(e.sample_rank as nat, 8) == part.subrange(8, 16));
    assert(stock_entry_bytes(e) =~= part);
}

/// A customer entry within other bytes.
proof fn lemma_customer_entry_within(bytes: Seq<u8>, at: int)
    requires
        0 <= at,
        at + 36 <= bytes.len(),
    ensures
        customer_entry_at(bytes, at) == customer_entry_at(bytes.subrange(at, at + 36), 0),
{
    let part = bytes.subrange(at, at + 36);
    assert(part.subrange(0, 4) =~= bytes.subrange(at, at + 4));
    assert(part.subrange(4, 8) =~= bytes.subrange(at + 4, at + 4 + 4));
    assert(part.subrange(8, 12) =~= bytes.subrange(at + 8, at + 8 + 4));
    assert(part.subrange(12, 20) =~= bytes.subrange(at + 12, at + 12 + 8));
    assert(part.subrange(20, 24) =~= bytes.subrange(at + 20, at + 20 + 4));
    assert(part.subrange(24, 28) =~= bytes.subrange(at + 24, at + 24 + 4));
    assert(part.subrange(28, 32) =~= bytes.subrange(at + 28, at + 28 + 4));
    assert(part.subrange(32, 36) =~= bytes.subrange(at + 32, at + 32 + 4));
}

/// A stock entry within other bytes.
proof fn lemma_stock_entry_within(bytes: Seq<u8>, at: int)
    requires
        0 <= at,
        at + 48 <= bytes.len(),
    ensures
        stock_entry_at(bytes, at) == stock_entry_at(bytes.subrange(at, at + 48), 0),
{
    let part = bytes.subrange(at, at + 48);
    assert(part.subrange(0, 4) =~= bytes.subrange(at, at + 4));
    assert(part.subrange(4, 8) =~= bytes.subrange(at + 4, at + 4 + 4));
    assert(part.subrange(8, 16) =~= bytes.subrange(at + 8, at + 8 + 8));
    lemma_stock_version_within(part, 16);
    lemma_stock_version_within(part, 32);
    lemma_stock_version_within(bytes, at + 16);
    lemma_stock_version_within(bytes, at + 32);
    assert(part.subrange(16, 32) =~= bytes.subrange(at + 16, at + 16 + 16));
    assert(part.subrange(32, 48) =~= bytes.subrange(at + 32, at + 32 + 16));
}

proof fn lemma_customer_entries_len(entries: Seq<CanonicalCustomerChain>, n: int)
    requires
        0 <= n <= entries.len(),
    ensures
        customer_entries_bytes(entries, n).len() == 36 * n,
    decreases n,
{
    if n > 0 {
        lemma_customer_entries_len(entries, n - 1);
        lemma_customer_entry_back(entries[n - 1]);
    }
}

proof fn lemma_customer_entries_back(entries: Seq<CanonicalCustomerChain>, n: int, i: int)
    requires
        0 <= i < n <= entries.len(),
    ensures
        customer_entries_bytes(entries, n).len() == 36 * n,
        customer_entries_bytes(entries, n).subrange(36 * i, 36 * i + 36)
            == customer_entry_bytes(entries[i]),
    decreases n,
{
    let bytes = customer_entries_bytes(entries, n);
    let before = customer_entries_bytes(entries, n - 1);
    lemma_customer_entries_len(entries, n);
    lemma_customer_entries_len(entries, n - 1);
    lemma_customer_entry_back(entries[n - 1]);
    if i < n - 1 {
        lemma_customer_entries_back(entries, n - 1, i);
        assert(bytes.subrange(36 * i, 36 * i + 36) =~= before.subrange(
            36 * i,
            36 * i + 36,
        ));
    } else {
        assert(bytes.subrange(36 * i, 36 * i + 36) =~= customer_entry_bytes(
            entries[i],
        ));
    }
}

proof fn lemma_customer_entries_canonical(
    body: Seq<u8>,
    entries: Seq<CanonicalCustomerChain>,
    n: int,
)
    requires
        0 <= n <= entries.len(),
        36 * entries.len() <= body.len(),
        forall|i: int|
            0 <= i < entries.len() ==> #[trigger] entries[i] == customer_entry_at(body, 36 * i),
    ensures
        customer_entries_bytes(entries, n) == body.take(36 * n),
    decreases n,
{
    if n > 0 {
        lemma_customer_entries_canonical(body, entries, n - 1);
        let at = 36 * (n - 1);
        let part = body.subrange(at, at + 36);
        lemma_customer_entry_within(body, at);
        lemma_customer_entry_canonical(part);
        assert(entries[n - 1] == customer_entry_at(body, at));
        assert(body.take(36 * n) =~= body.take(at) + part);
    } else {
        assert(body.take(0) =~= Seq::empty());
    }
}

proof fn lemma_stock_entries_len(entries: Seq<CanonicalStockChain>, n: int)
    requires
        0 <= n <= entries.len(),
    ensures
        stock_entries_bytes(entries, n).len() == 48 * n,
    decreases n,
{
    if n > 0 {
        lemma_stock_entries_len(entries, n - 1);
        lemma_stock_entry_back(entries[n - 1]);
    }
}

proof fn lemma_stock_entries_back(entries: Seq<CanonicalStockChain>, n: int, i: int)
    requires
        0 <= i < n <= entries.len(),
    ensures
        stock_entries_bytes(entries, n).len() == 48 * n,
        stock_entries_bytes(entries, n).subrange(48 * i, 48 * i + 48)
            == stock_entry_bytes(entries[i]),
    decreases n,
{
    let bytes = stock_entries_bytes(entries, n);
    let before = stock_entries_bytes(entries, n - 1);
    lemma_stock_entries_len(entries, n);
    lemma_stock_entries_len(entries, n - 1);
    lemma_stock_entry_back(entries[n - 1]);
    if i < n - 1 {
        lemma_stock_entries_back(entries, n - 1, i);
        assert(bytes.subrange(48 * i, 48 * i + 48) =~= before.subrange(
            48 * i,
            48 * i + 48,
        ));
    } else {
        assert(bytes.subrange(48 * i, 48 * i + 48) =~= stock_entry_bytes(
            entries[i],
        ));
    }
}

proof fn lemma_stock_entries_canonical(
    body: Seq<u8>,
    entries: Seq<CanonicalStockChain>,
    n: int,
)
    requires
        0 <= n <= entries.len(),
        48 * entries.len() <= body.len(),
        forall|i: int|
            0 <= i < entries.len() ==> #[trigger] entries[i] == stock_entry_at(body, 48 * i),
    ensures
        stock_entries_bytes(entries, n) == body.take(48 * n),
    decreases n,
{
    if n > 0 {
        lemma_stock_entries_canonical(body, entries, n - 1);
        let at = 48 * (n - 1);
        let part = body.subrange(at, at + 48);
        lemma_stock_entry_within(body, at);
        lemma_stock_entry_canonical(part);
        assert(entries[n - 1] == stock_entry_at(body, at));
        assert(body.take(48 * n) =~= body.take(at) + part);
    } else {
        assert(body.take(0) =~= Seq::empty());
    }
}

proof fn lemma_metadata_back(m: IntervalMetadata)
    ensures
        metadata_bytes(m).len() == 14,
        metadata_read(metadata_bytes(m)) == m,
{
    lemma_le_widths();
    let bytes = metadata_bytes(m);
    lemma_le_len(m.warehouses as nat, 2);
    lemma_le_len(m.sample_seed as nat, 8);
    lemma_le_len(m.policy_version as nat, 4);
    lemma_le_round_trip(m.warehouses as nat, 2);
    assert(bytes.subrange(0, 2) =~= le_bytes(m.warehouses as nat, 2));
    lemma_le_round_trip(m.sample_seed as nat, 8);
    assert(bytes.subrange(2, 10) =~= le_bytes(m.sample_seed as nat, 8));
    lemma_le_round_trip(m.policy_version as nat, 4);
    assert(bytes.subrange(10, 14) =~= le_bytes(m.policy_version as nat, 4));
}

proof fn lemma_metadata_canonical(part: Seq<u8>)
    requires
        part.len() == 14,
    ensures
        metadata_bytes(metadata_read(part)) == part,
{
    lemma_le_widths();
    let m = metadata_read(part);
    lemma_le_canonical(part.subrange(0, 2));
    lemma_le_canonical(part.subrange(2, 10));
    lemma_le_canonical(part.subrange(10, 14));
    assert(le_bytes(m.warehouses as nat, 2) == part.subrange(0, 2));
    assert(le_bytes(m.sample_seed as nat, 8) == part.subrange(2, 10));
    assert(le_bytes(m.policy_version as nat, 4) == part.subrange(10, 14));
    assert(metadata_bytes(m) =~= part);
}

proof fn lemma_metadata_within(bytes: Seq<u8>)
    requires
        14 <= bytes.len(),
    ensures
        metadata_read(bytes) == metadata_read(bytes.take(14)),
{
    let part = bytes.take(14);
    assert(part.subrange(0, 2) =~= bytes.subrange(0, 2));
    assert(part.subrange(2, 10) =~= bytes.subrange(2, 10));
    assert(part.subrange(10, 14) =~= bytes.subrange(10, 14));
}

proof fn lemma_rejected_back(
    rejected: Option<CanonicalRejectedSample>,
    tail: Seq<u8>,
    field: &'static str,
)
    ensures
        rejected_fault(rejected_bytes(rejected) + tail, field) is None,
        rejected_read(rejected_bytes(rejected) + tail) == rejected,
        (rejected_bytes(rejected) + tail).skip(rejected_size(rejected_bytes(rejected) + tail))
            == tail,
        rejected_bytes(rejected).len() <= 13,
{
    lemma_le_widths();
    let bytes = rejected_bytes(rejected) + tail;
    match rejected {
        None => {
            lemma_le_len(0, 1);
            lemma_le_round_trip(0, 1);
            assert(bytes.subrange(0, 1) =~= le_bytes(0, 1));
            lemma_le_byte(bytes, 0);
            assert(bytes.skip(1) =~= tail);
        },
        Some(sample) => {
            lemma_le_len(1, 1);
            lemma_le_len(sample.rank as nat, 8);
            lemma_le_len(sample.key_index as nat, 4);
            lemma_le_round_trip(1, 1);
            assert(bytes.subrange(0, 1) =~= le_bytes(1, 1));
            lemma_le_round_trip(sample.rank as nat, 8);
            assert(bytes.subrange(1, 9) =~= le_bytes(sample.rank as nat, 8));
            lemma_le_round_trip(sample.key_index as nat, 4);
            assert(bytes.subrange(9, 13) =~= le_bytes(sample.key_index as nat, 4));
            lemma_le_byte(bytes, 0);
            assert(bytes.skip(13) =~= tail);
        },
    }
}

proof fn lemma_rejected_canonical(rest: Seq<u8>, field: &'static str)
    requires
        rejected_fault(rest, field) is None,
    ensures
        rest == rejected_bytes(rejected_read(rest)) + rest.skip(rejected_size(rest)),
{
    lemma_le_widths();
    let flag = rest.subrange(0, 1);
    lemma_le_byte(rest, 0);
    lemma_le_canonical(flag);
    if rest[0] == 0 {
        assert(rest =~= le_bytes(0, 1) + rest.skip(1));
    } else {
        let rank = rest.subrange(1, 9);
        let index = rest.subrange(9, 13);
        lemma_le_canonical(rank);
        lemma_le_canonical(index);
        assert(rest =~= le_bytes(1, 1) + rank + index + rest.skip(13));
    }
}

/// The head of a section in front of its entries.
proof fn lemma_head_back<E>(
    kind: SectionKind,
    s: SectionModel<E>,
    body: Seq<u8>,
    rejected_field: &'static str,
    count_field: &'static str,
)
    requires
        s.entries.len() <= 64,
        body.len() <= 4_000,
    ensures
        ({
            let bytes = intervals_head(kind, s) + body;
            &&& header_fault(bytes, kind, MAX_INTERVAL_SECTION_BYTES) is None
            &&& bytes.skip(7).len() >= 22
            &&& metadata_read(bytes.skip(7)) == s.metadata
            &&& le_at(bytes.skip(7), 14, 8) == s.update_count
            &&& rejected_fault(rejected_part(bytes), rejected_field) is None
            &&& rejected_read(rejected_part(bytes)) == s.rejected
            &&& bounded_count_fault(count_part(bytes), count_field, 64) is None
            &&& entry_count(bytes) == s.entries.len()
            &&& entries_part(bytes) == body
        }),
{
    let bytes = intervals_head(kind, s) + body;
    let n = s.entries.len();
    let counted = le_bytes(n, 4) + body;
    let behind = rejected_bytes(s.rejected) + counted;
    let updates = le_bytes(s.update_count as nat, 8);
    let rest = metadata_bytes(s.metadata) + updates + behind;
    lemma_le_widths();
    lemma_le_len(n, 4);
    lemma_le_round_trip(n, 4);
    lemma_le_len(s.update_count as nat, 8);
    lemma_le_round_trip(s.update_count as nat, 8);
    lemma_metadata_back(s.metadata);
    lemma_rejected_back(s.rejected, counted, rejected_field);
    assert(bytes =~= section_header(kind) + rest);
    lemma_header_accepted(kind, rest, MAX_INTERVAL_SECTION_BYTES);
    assert(rest.take(14) =~= metadata_bytes(s.metadata));
    lemma_metadata_within(rest);
    assert(rest.subrange(14, 22) =~= updates);
    assert(rest.skip(22) =~= behind);
    assert(counted.subrange(0, 4) =~= le_bytes(n, 4));
    assert(counted.skip(4) =~= body);
}

/// A head that is accepted is the one that is written.
proof fn lemma_head_canonical<E>(
    kind: SectionKind,
    s: SectionModel<E>,
    bytes: Seq<u8>,
    rejected_field: &'static str,
    count_field: &'static str,
)
    requires
        header_fault(bytes, kind, MAX_INTERVAL_SECTION_BYTES) is None,
        bytes.skip(7).len() >= 22,
        rejected_fault(rejected_part(bytes), rejected_field) is None,
        bounded_count_fault(count_part(bytes), count_field, 64) is None,
        s.metadata == metadata_read(bytes.skip(7)),
        s.update_count == le_at(bytes.skip(7), 14, 8),
        s.rejected == rejected_read(rejected_part(bytes)),
        s.entries.len() == entry_count(bytes),
    ensures
        bytes == intervals_head(kind, s) + entries_part(bytes),
{
    let rest = bytes.skip(7);
    lemma_header_canonical(bytes, kind, MAX_INTERVAL_SECTION_BYTES);
    lemma_metadata_within(rest);
    lemma_metadata_canonical(rest.take(14));
    lemma_le_canonical(rest.subrange(14, 22));
    lemma_rejected_canonical(rejected_part(bytes), rejected_field);
    let counted = count_part(bytes);
    lemma_le_canonical(counted.subrange(0, 4));
    assert(counted =~= counted.subrange(0, 4) + entries_part(bytes));
    assert(rest =~= rest.take(14) + rest.subrange(14, 22) + rejected_part(bytes));
    assert(bytes =~= intervals_head(kind, s) + entries_part(bytes));
}

/// A customer section that is written is read back.
pub proof fn law_customer_section_round_trip(s: SectionModel<CanonicalCustomerChain>)
    requires
        s.entries.len() <= 64,
    ensures
        customer_section_fault(customer_section(s)) is None,
        customer_section_read(customer_section(s)) == s,
{
    let n = s.entries.len() as int;
    let body = customer_entries_bytes(s.entries, n);
    let bytes = customer_section(s);
    lemma_customer_entries_len(s.entries, n);
    lemma_head_back(
        SectionKind::CustomerIntervals,
        s,
        body,
        "customer rejected sample",
        "customer interval samples",
    );
    assert(body.skip(36 * n) =~= Seq::empty());
    assert forall|i: int| 0 <= i < n implies customer_entry_at(body, 36 * i) == s.entries[i] by {
        lemma_customer_entries_back(s.entries, n, i);
        lemma_customer_entry_within(body, 36 * i);
        lemma_customer_entry_back(s.entries[i]);
    }
    assert(customer_section_read(bytes) =~= s);
}

/// A customer section that is read is written again as it was.
pub proof fn law_customer_section_is_canonical(bytes: Seq<u8>)
    requires
        customer_section_fault(bytes) is None,
    ensures
        customer_section(customer_section_read(bytes)) == bytes,
        customer_section_read(bytes).entries.len() <= 64,
{
    let s = customer_section_read(bytes);
    let body = entries_part(bytes);
    let n = s.entries.len() as int;
    lemma_le_widths();
    lemma_le_canonical(bytes.skip(7).subrange(14, 22));
    lemma_head_canonical(
        SectionKind::CustomerIntervals,
        s,
        bytes,
        "customer rejected sample",
        "customer interval samples",
    );
    lemma_customer_entries_canonical(body, s.entries, n);
    assert(body.take(36 * n) =~= body);
}

/// A stock section that is written is read back.
pub proof fn law_stock_section_round_trip(s: SectionModel<CanonicalStockChain>)
    requires
        s.entries.len() <= 64,
    ensures
        stock_section_fault(stock_section(s)) is None,
        stock_section_read(stock_section(s)) == s,
{
    let n = s.entries.len() as int;
    let body = stock_entries_bytes(s.entries, n);
    let bytes = stock_section(s);
    lemma_stock_entries_len(s.entries, n);
    lemma_head_back(
        SectionKind::StockIntervals,
        s,
        body,
        "Stock rejected sample",
        "Stock interval samples",
    );
    assert(body.skip(48 * n) =~= Seq::empty());
    assert forall|i: int| 0 <= i < n implies stock_entry_at(body, 48 * i) == s.entries[i] by {
        lemma_stock_entries_back(s.entries, n, i);
        lemma_stock_entry_within(body, 48 * i);
        lemma_stock_entry_back(s.entries[i]);
    }
    assert(stock_section_read(bytes) =~= s);
}

/// A stock section that is read is written again as it was.
pub proof fn law_stock_section_is_canonical(bytes: Seq<u8>)
    requires
        stock_section_fault(bytes) is None,
    ensures
        stock_section(stock_section_read(bytes)) == bytes,
        stock_section_read(bytes).entries.len() <= 64,
{
    let s = stock_section_read(bytes);
    let body = entries_part(bytes);
    let n = s.entries.len() as int;
    lemma_le_widths();
    lemma_le_canonical(bytes.skip(7).subrange(14, 22));
    lemma_head_canonical(
        SectionKind::StockIntervals,
        s,
        bytes,
        "Stock rejected sample",
        "Stock interval samples",
    );
    lemma_stock_entries_canonical(body, s.entries, n);
    assert(body.take(48 * n) =~= body);
}

} // verus!
