//! Where the numbers of a section stand.
use vstd::prelude::*;

use crate::accumulator::NonNegativeF32Accumulator;
use crate::ranking::bounded_stats::BoundedPhysicalStats;
use crate::ranking::bounded_totals::{ClassTotals, PartitionTotals};
use crate::ranking::canonical::{
    SectionKind, header_fault, kind_number, le_at, le_bytes, le_radix, lemma_le_canonical,
    lemma_le_len, lemma_le_round_trip, lemma_le_widths, section_header, section_magic,
};
use crate::ranking::core_artifact_codec::{
    MAX_PHYSICAL_STATS_SECTION_BYTES, class_of, counter_values, group_bytes, partition_of,
    stats_read, stats_refusal, stats_section, words_at, words_bytes,
};
use crate::ranking::core_artifact_law::law_stats_section_round_trip;
use crate::ranking::interval_sections::{
    CanonicalCustomerChain, CanonicalRejectedSample, CanonicalStockChain,
    MAX_INTERVAL_SECTION_BYTES, SectionModel, count_part, customer_entry_at, customer_section,
    customer_section_read, entries_part, entry_count, intervals_fault, metadata_read,
    rejected_part, rejected_read, stock_entry_at, stock_section, stock_section_read,
    stock_version_at,
};
use crate::ranking::interval_sections_law::{
    law_customer_section_round_trip, law_stock_section_round_trip,
};
use crate::ranking::runner::StockVersion;

verus! {

/// The unsigned number in the `width` bytes of a section from `at` on.
pub open spec fn number_at(section: Seq<u8>, at: int, width: int) -> nat {
    le_at(section, at, width)
}

/// The signed number in the four bytes of a section from `at` on.
pub open spec fn signed_at(section: Seq<u8>, at: int) -> int {
    let n = le_at(section, at, 4);
    if n < 0x8000_0000 {
        n as int
    } else {
        n - 0x1_0000_0000
    }
}

/// Whether a section begins with `TCS1`, the number of its kind and the version 1.
pub open spec fn headed(section: Seq<u8>, kind: int) -> bool {
    &&& section.len() >= 7
    &&& section[0] == 84 && section[1] == 67 && section[2] == 83 && section[3] == 49
    &&& section[4] == kind
    &&& number_at(section, 5, 2) == 1
}

proof fn lemma_fits(bytes: Seq<u8>, at: int, width: int)
    requires
        0 <= at,
        0 <= width,
        at + width <= bytes.len(),
    ensures
        le_at(bytes, at, width) < le_radix(width as nat),
{
    lemma_le_canonical(bytes.subrange(at, at + width));
}

/// A number behind the first bytes stands so far behind in the whole.
proof fn lemma_skipped(bytes: Seq<u8>, k: int, at: int, width: int)
    requires
        0 <= k <= bytes.len(),
        0 <= at,
        0 <= width,
        k + at + width <= bytes.len(),
    ensures
        le_at(bytes.skip(k), at, width) == le_at(bytes, k + at, width),
        le_at(bytes, k + at, width) < le_radix(width as nat),
{
    assert(bytes.skip(k).subrange(at, at + width) =~= bytes.subrange(k + at, k + at + width));
    lemma_fits(bytes, k + at, width);
}

proof fn lemma_headed(section: Seq<u8>, kind: SectionKind, maximum: usize)
    requires
        header_fault(section, kind, maximum) is None,
    ensures
        headed(section, kind_number(kind) as int),
{
    let four = section.take(4);
    assert(four == section_magic());
    assert(section[0] == four[0] && section[1] == four[1] && section[2] == four[2] && section[3]
        == four[3]);
}

/// Whether the counters of a class stand from `at` on, eight bytes each.
pub open spec fn class_stands(section: Seq<u8>, at: int, t: ClassTotals) -> bool {
    &&& number_at(section, at, 8) == t.new_order_commits
    &&& number_at(section, at + 8, 8) == t.payment_commits
    &&& number_at(section, at + 16, 8) == t.order_status_commits
    &&& number_at(section, at + 24, 8) == t.delivery_commits
    &&& number_at(section, at + 32, 8) == t.stock_level_commits
    &&& number_at(section, at + 40, 8) == t.expected_rollbacks
    &&& number_at(section, at + 48, 8) == t.new_orders
    &&& number_at(section, at + 56, 8) == t.new_order_lines
    &&& number_at(section, at + 64, 8) == t.remote_new_order_lines
    &&& number_at(section, at + 72, 8) == t.stock_quantity_delta
    &&& number_at(section, at + 80, 8) == t.delivered_orders
    &&& number_at(section, at + 88, 8) == t.delivered_order_lines
}

/// Whether the counters of a partition stand from `at` on, eight bytes each.
pub open spec fn partition_stands(section: Seq<u8>, at: int, t: PartitionTotals) -> bool {
    &&& number_at(section, at, 8) == t.new_orders
    &&& number_at(section, at + 8, 8) == t.new_order_lines
    &&& number_at(section, at + 16, 8) == t.delivered_orders
    &&& number_at(section, at + 24, 8) == t.delivered_order_lines
}

proof fn lemma_class_stands(section: Seq<u8>, c: int, t: ClassTotals)
    requires
        0 <= c < 9,
        section.len() >= 7 + 16_864,
        class_of(words_at(section.skip(7), 96 * c, 12)) == t,
    ensures
        class_stands(section, 7 + 96 * c, t),
{
    lemma_le_widths();
    let at = 96 * c;
    assert forall|j: int| 0 <= j < 12 implies #[trigger] le_at(section.skip(7), at + 8 * j, 8)
        == le_at(section, 7 + at + 8 * j, 8) && le_at(section, 7 + at + 8 * j, 8)
        < 0x1_0000_0000_0000_0000 by {
        lemma_skipped(section, 7, at + 8 * j, 8);
    }
    let words = words_at(section.skip(7), at, 12);
    assert(words[0] == le_at(section, 7 + at + 8 * 0, 8));
    assert(words[1] == le_at(section, 7 + at + 8 * 1, 8));
    assert(words[2] == le_at(section, 7 + at + 8 * 2, 8));
    assert(words[3] == le_at(section, 7 + at + 8 * 3, 8));
    assert(words[4] == le_at(section, 7 + at + 8 * 4, 8));
    assert(words[5] == le_at(section, 7 + at + 8 * 5, 8));
    assert(words[6] == le_at(section, 7 + at + 8 * 6, 8));
    assert(words[7] == le_at(section, 7 + at + 8 * 7, 8));
    assert(words[8] == le_at(section, 7 + at + 8 * 8, 8));
    assert(words[9] == le_at(section, 7 + at + 8 * 9, 8));
    assert(words[10] == le_at(section, 7 + at + 8 * 10, 8));
    assert(words[11] == le_at(section, 7 + at + 8 * 11, 8));
}

proof fn lemma_partition_stands(section: Seq<u8>, p: int, t: PartitionTotals)
    requires
        0 <= p < 500,
        section.len() >= 7 + 16_864,
        partition_of(words_at(section.skip(7), 864 + 32 * p, 4)) == t,
    ensures
        partition_stands(section, 871 + 32 * p, t),
{
    lemma_le_widths();
    let at = 864 + 32 * p;
    assert forall|j: int| 0 <= j < 4 implies #[trigger] le_at(section.skip(7), at + 8 * j, 8)
        == le_at(section, 7 + at + 8 * j, 8) && le_at(section, 7 + at + 8 * j, 8)
        < 0x1_0000_0000_0000_0000 by {
        lemma_skipped(section, 7, at + 8 * j, 8);
    }
    let words = words_at(section.skip(7), at, 4);
    assert(words[0] == le_at(section, 7 + at + 8 * 0, 8));
    assert(words[1] == le_at(section, 7 + at + 8 * 1, 8));
    assert(words[2] == le_at(section, 7 + at + 8 * 2, 8));
    assert(words[3] == le_at(section, 7 + at + 8 * 3, 8));
}

/// The count of the first sum behind some bytes.
proof fn lemma_first_terms(a: Seq<u8>, group: Seq<NonNegativeF32Accumulator>, b: Seq<u8>)
    requires
        group.len() == 9,
    ensures
        number_at(a + group_bytes(group, 0) + b, a.len() as int, 8) == group[0].term_count,
{
    let terms = le_bytes(group[0].term_count as nat, 8);
    lemma_le_len(group[0].term_count as nat, 8);
    lemma_le_widths();
    lemma_le_round_trip(group[0].term_count as nat, 8);
    let whole = a + group_bytes(group, 0) + b;
    let sums = group_bytes(group, 0);
    assert(sums.subrange(0, 8) =~= terms);
    assert(whole.subrange(a.len() as int, a.len() as int + 8) =~= terms);
}

/// Law: the section of the physical statistics holds its numbers at fixed places: behind
/// the header the twelve counters of each of the nine classes, then the four counters of
/// each of the five hundred partitions; behind them the sums of the Payments, of the order
/// lines and of the Deliveries.
pub proof fn law_stats_section_layout(s: BoundedPhysicalStats)
    requires
        s.wf(),
        stats_refusal(s@) is None,
    ensures
        ({
            let section = stats_section(s);
            let paid = group_bytes(s.payment_history_amounts@, 0).len() as int;
            let ordered = group_bytes(s.new_order_line_amounts@, 0).len() as int;
            &&& headed(section, 1)
            &&& forall|c: int|
                0 <= c < 9 ==> class_stands(section, 7 + 96 * c, #[trigger] s.classes@[c])
            &&& forall|p: int|
                0 <= p < 500 ==> partition_stands(
                    section,
                    871 + 32 * p,
                    #[trigger] s.partitions@[p],
                )
            &&& number_at(section, 16_871, 8) == s.payment_history_amounts@[0].term_count
            &&& number_at(section, 16_871 + paid, 8) == s.new_order_line_amounts@[0].term_count
            &&& number_at(section, 16_871 + paid + ordered, 8)
                == s.delivery_customer_amounts@[0].term_count
        }),
{
    let section = stats_section(s);
    law_stats_section_round_trip(s);
    lemma_headed(section, SectionKind::PhysicalStats, MAX_PHYSICAL_STATS_SECTION_BYTES);
    let read = stats_read(section);
    assert forall|c: int| 0 <= c < 9 implies class_stands(
        section,
        7 + 96 * c,
        #[trigger] s.classes@[c],
    ) by {
        assert(read.classes[c] == s@.classes[c]);
        lemma_class_stands(section, c, s.classes@[c]);
    }
    assert forall|p: int| 0 <= p < 500 implies partition_stands(
        section,
        871 + 32 * p,
        #[trigger] s.partitions@[p],
    ) by {
        assert(read.partitions[p] == s@.partitions[p]);
        lemma_partition_stands(section, p, s.partitions@[p]);
    }
    lemma_sums_stand(s);
}

proof fn lemma_sums_stand(s: BoundedPhysicalStats)
    requires
        s.payment_history_amounts@.len() == 9,
        s.new_order_line_amounts@.len() == 9,
        s.delivery_customer_amounts@.len() == 9,
    ensures
        ({
            let section = stats_section(s);
            let paid = group_bytes(s.payment_history_amounts@, 0).len() as int;
            let ordered = group_bytes(s.new_order_line_amounts@, 0).len() as int;
            &&& number_at(section, 16_871, 8) == s.payment_history_amounts@[0].term_count
            &&& number_at(section, 16_871 + paid, 8) == s.new_order_line_amounts@[0].term_count
            &&& number_at(section, 16_871 + paid + ordered, 8)
                == s.delivery_customer_amounts@[0].term_count
        }),
{
    let section = stats_section(s);
    let head = section_header(SectionKind::PhysicalStats) + words_bytes(
        counter_values(s.classes@, s.partitions@),
        2_108,
    );
    lemma_header_len(SectionKind::PhysicalStats);
    lemma_words_bytes_len(counter_values(s.classes@, s.partitions@), 2_108);
    let p = group_bytes(s.payment_history_amounts@, 0);
    let l = group_bytes(s.new_order_line_amounts@, 0);
    let d = group_bytes(s.delivery_customer_amounts@, 0);
    lemma_first_terms(head, s.payment_history_amounts@, l + d);
    lemma_first_terms(head + p, s.new_order_line_amounts@, d);
    lemma_first_terms(head + p + l, s.delivery_customer_amounts@, Seq::empty());
    assert(section =~= head + p + (l + d));
    assert(section =~= head + p + l + d);
    assert(section =~= (head + p + l) + d + Seq::<u8>::empty());
}

proof fn lemma_header_len(kind: SectionKind)
    ensures
        section_header(kind).len() == 7,
{
    lemma_le_len(kind_number(kind) as nat, 1);
    lemma_le_len(1, 2);
}

proof fn lemma_words_bytes_len(values: Seq<u64>, n: int)
    requires
        0 <= n,
    ensures
        words_bytes(values, n).len() == 8 * n,
    decreases n,
{
    if n > 0 {
        lemma_words_bytes_len(values, n - 1);
        lemma_le_len(values[n - 1] as nat, 8);
    }
}

/// Where the number of entries of a section stands: behind the flag of the rejected sample,
/// and behind the sample where there is one.
pub open spec fn count_place(rejected: Option<CanonicalRejectedSample>) -> int {
    match rejected {
        None => 30,
        Some(_) => 42,
    }
}

/// Whether the head of a section of samples stands as it should.
pub open spec fn head_stands<E>(section: Seq<u8>, s: SectionModel<E>) -> bool {
    let place = count_place(s.rejected);
    &&& number_at(section, 7, 2) == s.metadata.warehouses
    &&& number_at(section, 9, 8) == s.metadata.sample_seed
    &&& number_at(section, 17, 4) == s.metadata.policy_version
    &&& number_at(section, 21, 8) == s.update_count
    &&& match s.rejected {
        None => section[29] == 0,
        Some(sample) => section[29] == 1 && number_at(section, 30, 8) == sample.rank && number_at(
            section,
            38,
            4,
        ) == sample.key_index,
    }
    &&& number_at(section, place, 4) == s.entries.len()
}

proof fn lemma_head_stands<E>(
    section: Seq<u8>,
    kind: SectionKind,
    rejected_field: &'static str,
    count_field: &'static str,
    size: int,
    s: SectionModel<E>,
)
    requires
        size >= 0,
        intervals_fault(section, kind, rejected_field, count_field, size) is None,
        metadata_read(section.skip(7)) == s.metadata,
        le_at(section.skip(7), 14, 8) as u64 == s.update_count,
        rejected_read(rejected_part(section)) == s.rejected,
        entry_count(section) == s.entries.len(),
    ensures
        headed(section, kind_number(kind) as int),
        head_stands(section, s),
        entries_part(section) == section.skip(count_place(s.rejected) + 4),
        section.len() == count_place(s.rejected) + 4 + size * s.entries.len(),
{
    lemma_headed(section, kind, MAX_INTERVAL_SECTION_BYTES);
    lemma_le_widths();
    let rest = section.skip(7);
    lemma_skipped(section, 7, 0, 2);
    lemma_skipped(section, 7, 2, 8);
    lemma_skipped(section, 7, 10, 4);
    lemma_skipped(section, 7, 14, 8);
    let part = rejected_part(section);
    assert(part =~= section.skip(29));
    assert(part[0] == section[29]);
    let place = count_place(s.rejected);
    if part[0] != 0 {
        lemma_skipped(section, 29, 1, 8);
        lemma_skipped(section, 29, 9, 4);
    }
    assert(count_part(section) =~= section.skip(place));
    lemma_skipped(section, place, 0, 4);
    assert(entries_part(section) =~= section.skip(place + 4));
}

/// Whether a customer stands from `at` on.
pub open spec fn customer_stands(section: Seq<u8>, at: int, e: CanonicalCustomerChain) -> bool {
    &&& signed_at(section, at) == e.key.warehouse_id
    &&& signed_at(section, at + 4) == e.key.district_id
    &&& signed_at(section, at + 8) == e.key.customer_id
    &&& number_at(section, at + 12, 8) == e.sample_rank
    &&& signed_at(section, at + 20) == e.endpoint.version.payment_count
    &&& signed_at(section, at + 24) == e.endpoint.version.delivery_count
    &&& number_at(section, at + 28, 4) == e.endpoint.balance_bits
    &&& number_at(section, at + 32, 4) == e.endpoint.ytd_payment_bits
}

/// Law: a section of customers holds its head and its samples at fixed places, 36 bytes
/// for each customer: its key, its rank, its two counters, its balance and what it paid.
pub proof fn law_customer_section_layout(s: SectionModel<CanonicalCustomerChain>)
    requires
        s.entries.len() <= 64,
    ensures
        ({
            let section = customer_section(s);
            &&& headed(section, 2)
            &&& head_stands(section, s)
            &&& section.len() == count_place(s.rejected) + 4 + 36 * s.entries.len()
            &&& forall|i: int|
                0 <= i < s.entries.len() ==> customer_stands(
                    section,
                    count_place(s.rejected) + 4 + 36 * i,
                    #[trigger] s.entries[i],
                )
        }),
{
    let section = customer_section(s);
    law_customer_section_round_trip(s);
    let read = customer_section_read(section);
    assert(read.entries.len() == s.entries.len());
    lemma_head_stands(
        section,
        SectionKind::CustomerIntervals,
        "customer rejected sample",
        "customer interval samples",
        36,
        s,
    );
    let start = count_place(s.rejected) + 4;
    assert forall|i: int| 0 <= i < s.entries.len() implies customer_stands(
        section,
        start + 36 * i,
        #[trigger] s.entries[i],
    ) by {
        assert(read.entries[i] == s.entries[i]);
        assert(36 * i + 36 <= 36 * s.entries.len());
        lemma_customer_stands(section, start, 36 * i, s.entries[i]);
    }
}

proof fn lemma_customer_stands(
    section: Seq<u8>,
    start: int,
    at: int,
    e: CanonicalCustomerChain,
)
    requires
        0 <= start,
        0 <= at,
        start + at + 36 <= section.len(),
        customer_entry_at(section.skip(start), at) == e,
    ensures
        customer_stands(section, start + at, e),
{
    lemma_le_widths();
    lemma_skipped(section, start, at, 4);
    lemma_skipped(section, start, at + 4, 4);
    lemma_skipped(section, start, at + 8, 4);
    lemma_skipped(section, start, at + 12, 8);
    lemma_skipped(section, start, at + 20, 4);
    lemma_skipped(section, start, at + 24, 4);
    lemma_skipped(section, start, at + 28, 4);
    lemma_skipped(section, start, at + 32, 4);
}

/// Whether a version of a stock row stands from `at` on.
pub open spec fn version_stands(section: Seq<u8>, at: int, v: StockVersion) -> bool {
    &&& signed_at(section, at) == v.quantity
    &&& number_at(section, at + 4, 4) == v.ytd_bits
    &&& signed_at(section, at + 8) == v.order_count
    &&& signed_at(section, at + 12) == v.remote_count
}

/// Whether a stock row stands from `at` on.
pub open spec fn stock_stands(section: Seq<u8>, at: int, e: CanonicalStockChain) -> bool {
    &&& signed_at(section, at) == e.key.warehouse_id
    &&& signed_at(section, at + 4) == e.key.item_id
    &&& number_at(section, at + 8, 8) == e.sample_rank
    &&& version_stands(section, at + 16, e.initial)
    &&& version_stands(section, at + 32, e.endpoint)
}

/// Law: a section of stock rows holds its head and its samples at fixed places, 48 bytes
/// for each row: its key, its rank, how it was and how it is.
pub proof fn law_stock_section_layout(s: SectionModel<CanonicalStockChain>)
    requires
        s.entries.len() <= 64,
    ensures
        ({
            let section = stock_section(s);
            &&& headed(section, 3)
            &&& head_stands(section, s)
            &&& section.len() == count_place(s.rejected) + 4 + 48 * s.entries.len()
            &&& forall|i: int|
                0 <= i < s.entries.len() ==> stock_stands(
                    section,
                    count_place(s.rejected) + 4 + 48 * i,
                    #[trigger] s.entries[i],
                )
        }),
{
    let section = stock_section(s);
    law_stock_section_round_trip(s);
    let read = stock_section_read(section);
    assert(read.entries.len() == s.entries.len());
    lemma_head_stands(
        section,
        SectionKind::StockIntervals,
        "Stock rejected sample",
        "Stock interval samples",
        48,
        s,
    );
    let start = count_place(s.rejected) + 4;
    assert forall|i: int| 0 <= i < s.entries.len() implies stock_stands(
        section,
        start + 48 * i,
        #[trigger] s.entries[i],
    ) by {
        assert(read.entries[i] == s.entries[i]);
        assert(48 * i + 48 <= 48 * s.entries.len());
        lemma_stock_stands(section, start, 48 * i, s.entries[i]);
    }
}

proof fn lemma_version_stands(section: Seq<u8>, start: int, at: int, v: StockVersion)
    requires
        0 <= start,
        0 <= at,
        start + at + 16 <= section.len(),
        stock_version_at(section.skip(start), at) == v,
    ensures
        version_stands(section, start + at, v),
{
    lemma_le_widths();
    lemma_skipped(section, start, at, 4);
    lemma_skipped(section, start, at + 4, 4);
    lemma_skipped(section, start, at + 8, 4);
    lemma_skipped(section, start, at + 12, 4);
}

proof fn lemma_stock_stands(section: Seq<u8>, start: int, at: int, e: CanonicalStockChain)
    requires
        0 <= start,
        0 <= at,
        start + at + 48 <= section.len(),
        stock_entry_at(section.skip(start), at) == e,
    ensures
        stock_stands(section, start + at, e),
{
    lemma_le_widths();
    lemma_skipped(section, start, at, 4);
    lemma_skipped(section, start, at + 4, 4);
    lemma_skipped(section, start, at + 8, 8);
    lemma_version_stands(section, start, at + 16, e.initial);
    lemma_version_stands(section, start, at + 32, e.endpoint);
}

} // verus!
