//! The physical statistics as a section of bytes.
//!
//! Every section holds one part of the evidence. It is no artifact by itself:
//! that also binds the other sections and the metadata of the run.
use vstd::prelude::*;

use crate::accumulator::{
    NonNegativeF32Accumulator, SumModel, lemma_shortest, shortest, words_fault, words_value,
};
use crate::checks::{first, refusal, refused_if};
use crate::ranking::bounded_stats::{
    BoundedPhysicalStats, StatsModel, group_wf, stats_fault, sums_of,
};
use crate::ranking::bounded_totals::{ClassTotals, PartitionTotals};
use crate::ranking::canonical::{
    CanonicalReader, CanonicalWriter, CoreCodecError, MAX_CORE_SECTION_BYTES, SectionKind,
    bounded_count_fault, header_fault, le_at, le_bytes, le_value, lemma_le_canonical,
    lemma_le_len, lemma_le_round_trip, lemma_le_widths, section_header, section_reader,
    section_writer, trailing_fault,
};

verus! {

/// Most bytes of the physical statistics.
pub const MAX_PHYSICAL_STATS_SECTION_BYTES: usize = MAX_CORE_SECTION_BYTES;

/// Most words of a sum.
pub const MAX_ACCUMULATOR_WORDS: u32 = 6;

/// The bytes of the first `n` numbers.
pub open spec fn words_bytes(values: Seq<u64>, n: int) -> Seq<u8>
    decreases n,
{
    if n <= 0 {
        Seq::empty()
    } else {
        words_bytes(values, n - 1) + le_bytes(values[n - 1] as nat, 8)
    }
}

/// The `n` numbers from `at` on.
pub open spec fn words_at(bytes: Seq<u8>, at: int, n: nat) -> Seq<u64> {
    Seq::new(n, |i: int| le_at(bytes, at + 8 * i, 8) as u64)
}

pub proof fn lemma_words_len(values: Seq<u64>, n: int)
    requires
        0 <= n,
    ensures
        words_bytes(values, n).len() == 8 * n,
    decreases n,
{
    if n > 0 {
        lemma_words_len(values, n - 1);
        lemma_le_len(values[n - 1] as nat, 8);
    }
}

proof fn lemma_words_prefix(a: Seq<u64>, b: Seq<u64>, n: int)
    requires
        forall|i: int| 0 <= i < n ==> a[i] == b[i],
    ensures
        words_bytes(a, n) == words_bytes(b, n),
    decreases n,
{
    if n > 0 {
        lemma_words_prefix(a, b, n - 1);
    }
}

/// Numbers that are written in front of other bytes are read back.
pub proof fn lemma_words_read_back(values: Seq<u64>, n: int, tail: Seq<u8>)
    requires
        0 <= n <= values.len(),
    ensures
        words_bytes(values, n).len() == 8 * n,
        words_at(words_bytes(values, n) + tail, 0, n as nat) == values.take(n),
    decreases n,
{
    lemma_words_len(values, n);
    let bytes = words_bytes(values, n) + tail;
    if n > 0 {
        let last = le_bytes(values[n - 1] as nat, 8);
        lemma_le_len(values[n - 1] as nat, 8);
        lemma_words_read_back(values, n - 1, last + tail);
        lemma_words_len(values, n - 1);
        let before = words_bytes(values, n - 1) + (last + tail);
        assert(bytes =~= before);
        lemma_le_widths();
        lemma_le_round_trip(values[n - 1] as nat, 8);
        assert(bytes.subrange(8 * (n - 1), 8 * n) =~= last);
        assert forall|i: int| 0 <= i < n implies words_at(bytes, 0, n as nat)[i] == values[i] by {
            if i < n - 1 {
                assert(words_at(before, 0, (n - 1) as nat)[i] == values.take(n - 1)[i]);
            } else {
                assert(0 + 8 * i + 8 == 8 * n);
            }
        }
    }
    assert(words_at(bytes, 0, n as nat) =~= values.take(n));
}

/// Numbers that are read are written again as they were.
pub proof fn lemma_words_canonical(bytes: Seq<u8>, n: int)
    requires
        0 <= n,
        8 * n <= bytes.len(),
    ensures
        words_bytes(words_at(bytes, 0, n as nat), n) == bytes.take(8 * n),
    decreases n,
{
    let values = words_at(bytes, 0, n as nat);
    if n > 0 {
        lemma_words_canonical(bytes, n - 1);
        lemma_words_prefix(values, words_at(bytes, 0, (n - 1) as nat), n - 1);
        let part = bytes.subrange(8 * (n - 1), 8 * n);
        lemma_le_canonical(part);
        lemma_le_widths();
        assert(0 + 8 * (n - 1) + 8 == 8 * n);
        assert(le_at(bytes, 0 + 8 * (n - 1), 8) == le_value(part));
        assert(values[n - 1] as nat == le_value(part));
        assert(bytes.take(8 * n) =~= bytes.take(8 * (n - 1)) + part);
    } else {
        assert(bytes.take(0) =~= words_bytes(values, 0));
    }
}

/// Writes numbers one after the other.
fn put_words(writer: &mut CanonicalWriter, values: &[u64]) -> (r: Result<(), CoreCodecError>)
    requires
        old(writer)@.len() + 8 * values@.len() <= old(writer).maximum,
    ensures
        r is Ok,
        final(writer)@ == old(writer)@ + words_bytes(values@, values@.len() as int),
        final(writer).maximum == old(writer).maximum,
{
    let ghost before = writer@;
    let mut i: usize = 0;
    assert(writer@ =~= before + words_bytes(values@, 0));
    while i < values.len()
        invariant
            i <= values@.len(),
            before == old(writer)@,
            before.len() + 8 * values@.len() <= writer.maximum,
            writer.maximum == old(writer).maximum,
            writer@ == before + words_bytes(values@, i as int),
        decreases values@.len() - i,
    {
        proof {
            lemma_words_len(values@, i as int);
            lemma_le_len(values@[i as int] as nat, 8);
        }
        writer.put_u64(values[i])?;
        i = i + 1;
        assert(writer@ =~= before + words_bytes(values@, i as int));
    }
    Ok(())
}

/// Reads numbers one after the other.
fn get_words<'a>(reader: &mut CanonicalReader<'a>, n: usize) -> (r: Result<Vec<u64>, CoreCodecError>)
    requires
        old(reader).wf(),
        n <= 0x1000,
    ensures
        final(reader).wf(),
        final(reader).bytes == old(reader).bytes,
        refusal(r) == refused_if(
            old(reader).rest().len() < 8 * n,
            CoreCodecError::Truncated,
        ),
        r matches Ok(values) ==> values@ == words_at(old(reader).rest(), 0, n as nat),
        r is Ok ==> final(reader).rest() == old(reader).rest().skip(8 * n),
{
    let ghost given = reader.rest();
    let mut values: Vec<u64> = Vec::new();
    let mut i: usize = 0;
    assert(given.skip(0) =~= given);
    while i < n
        invariant
            i <= n,
            reader.wf(),
            reader.bytes == old(reader).bytes,
            given == old(reader).rest(),
            8 * i <= given.len(),
            reader.rest() == given.skip(8 * i),
            values@ =~= words_at(given, 0, i as nat),
        decreases n - i,
    {
        let value: u64 = reader.get_u64()?;
        proof {
            assert(given.skip(8 * i).subrange(0, 8) =~= given.subrange(8 * i, 8 * i + 8));
            assert(given.skip(8 * i).skip(8) =~= given.skip(8 * (i + 1)));
        }
        values.push(value);
        i = i + 1;
    }
    Ok(values)
}

/// The counters of a class, in the order in which they are written.
pub open spec fn class_counters(t: ClassTotals) -> Seq<u64> {
    seq![
        t.new_order_commits,
        t.payment_commits,
        t.order_status_commits,
        t.delivery_commits,
        t.stock_level_commits,
        t.expected_rollbacks,
        t.new_orders,
        t.new_order_lines,
        t.remote_new_order_lines,
        t.stock_quantity_delta,
        t.delivered_orders,
        t.delivered_order_lines,
    ]
}

/// The class with these counters.
pub open spec fn class_of(v: Seq<u64>) -> ClassTotals {
    ClassTotals {
        new_order_commits: v[0],
        payment_commits: v[1],
        order_status_commits: v[2],
        delivery_commits: v[3],
        stock_level_commits: v[4],
        expected_rollbacks: v[5],
        new_orders: v[6],
        new_order_lines: v[7],
        remote_new_order_lines: v[8],
        stock_quantity_delta: v[9],
        delivered_orders: v[10],
        delivered_order_lines: v[11],
    }
}

/// The counters of a partition, in the order in which they are written.
pub open spec fn partition_counters(t: PartitionTotals) -> Seq<u64> {
    seq![t.new_orders, t.new_order_lines, t.delivered_orders, t.delivered_order_lines]
}

/// The partition with these counters.
pub open spec fn partition_of(v: Seq<u64>) -> PartitionTotals {
    PartitionTotals {
        new_orders: v[0],
        new_order_lines: v[1],
        delivered_orders: v[2],
        delivered_order_lines: v[3],
    }
}

/// All counters: nine classes of twelve, then five hundred partitions of four.
pub open spec fn counter_values(classes: Seq<ClassTotals>, partitions: Seq<PartitionTotals>) -> Seq<
    u64,
> {
    Seq::new(
        2_108,
        |i: int|
            if i < 108 {
                class_counters(classes[i / 12])[i % 12]
            } else {
                partition_counters(partitions[(i - 108) / 4])[(i - 108) % 4]
            },
    )
}

/// The bytes of a sum: its terms, then its words.
pub open spec fn sum_bytes(a: NonNegativeF32Accumulator) -> Seq<u8> {
    let words = shortest(a.words@);
    le_bytes(a.term_count as nat, 8) + le_bytes(words.len(), 4) + words_bytes(
        words,
        words.len() as int,
    )
}

/// The bytes of the sums from `i` on.
pub open spec fn group_bytes(group: Seq<NonNegativeF32Accumulator>, i: int) -> Seq<u8>
    decreases group.len() - i,
{
    if i >= group.len() {
        Seq::empty()
    } else {
        sum_bytes(group[i]) + group_bytes(group, i + 1)
    }
}

/// The section of the physical statistics.
pub open spec fn stats_section(s: BoundedPhysicalStats) -> Seq<u8> {
    section_header(SectionKind::PhysicalStats) + words_bytes(
        counter_values(s.classes@, s.partitions@),
        2_108,
    ) + group_bytes(s.payment_history_amounts@, 0) + group_bytes(s.new_order_line_amounts@, 0)
        + group_bytes(s.delivery_customer_amounts@, 0)
}

/// Why a sum is refused.
pub open spec fn sum_read_fault(rest: Seq<u8>, field: &'static str) -> Option<CoreCodecError> {
    let terms = le_at(rest, 0, 8) as u64;
    let count = le_at(rest, 8, 4);
    let words = words_at(rest, 12, count);
    first(
        refused_if(rest.len() < 8, CoreCodecError::Truncated),
        first(
            bounded_count_fault(rest.skip(8), field, 6),
            first(
                refused_if(rest.len() < 12 + 8 * count, CoreCodecError::Truncated),
                match words_fault(terms, words) {
                    Some(source) => Some(CoreCodecError::InvalidAccumulator { field, source }),
                    None => None,
                },
            ),
        ),
    )
}

/// How many bytes a sum takes.
pub open spec fn sum_size(rest: Seq<u8>) -> int {
    12 + 8 * le_at(rest, 8, 4) as int
}

/// The sum that bytes start with.
pub open spec fn sum_read(rest: Seq<u8>) -> SumModel {
    let words = words_at(rest, 12, le_at(rest, 8, 4));
    SumModel { terms: le_at(rest, 0, 8), total: words_value(words, words.len() as int) }
}

/// Why one of `n` sums is refused.
pub open spec fn group_read_fault(rest: Seq<u8>, field: &'static str, n: int) -> Option<CoreCodecError>
    decreases n,
{
    if n <= 0 {
        None
    } else {
        first(sum_read_fault(rest, field), group_read_fault(rest.skip(sum_size(rest)), field, n - 1))
    }
}

/// What is left behind `n` sums.
pub open spec fn group_rest(rest: Seq<u8>, n: int) -> Seq<u8>
    decreases n,
{
    if n <= 0 {
        rest
    } else {
        group_rest(rest.skip(sum_size(rest)), n - 1)
    }
}

/// The `n` sums that bytes start with.
pub open spec fn group_read(rest: Seq<u8>, n: int) -> Seq<SumModel>
    decreases n,
{
    if n <= 0 {
        Seq::empty()
    } else {
        seq![sum_read(rest)] + group_read(rest.skip(sum_size(rest)), n - 1)
    }
}

/// What follows the counters.
pub open spec fn sums_part(bytes: Seq<u8>) -> Seq<u8> {
    bytes.skip(7).skip(16_864)
}

/// The statistics in a section.
pub open spec fn stats_read(bytes: Seq<u8>) -> StatsModel {
    let rest = bytes.skip(7);
    let payments = sums_part(bytes);
    let lines = group_rest(payments, 9);
    let deliveries = group_rest(lines, 9);
    StatsModel {
        classes: Seq::new(9, |c: int| class_of(words_at(rest, 96 * c, 12))),
        partitions: Seq::new(500, |p: int| partition_of(words_at(rest, 864 + 32 * p, 4))),
        payments: group_read(payments, 9),
        lines: group_read(lines, 9),
        deliveries: group_read(deliveries, 9),
    }
}

/// Why the layout of a section of physical statistics is refused.
pub open spec fn stats_layout_fault(bytes: Seq<u8>) -> Option<CoreCodecError> {
    let payments = sums_part(bytes);
    let lines = group_rest(payments, 9);
    let deliveries = group_rest(lines, 9);
    first(
        header_fault(bytes, SectionKind::PhysicalStats, MAX_PHYSICAL_STATS_SECTION_BYTES),
        first(
            refused_if(bytes.skip(7).len() < 16_864, CoreCodecError::Truncated),
            first(
                group_read_fault(payments, "Payment/history amount", 9),
                first(
                    group_read_fault(lines, "NewOrder line amount", 9),
                    first(
                        group_read_fault(deliveries, "Delivery customer amount", 9),
                        trailing_fault(group_rest(deliveries, 9)),
                    ),
                ),
            ),
        ),
    )
}

/// Why statistics are refused as a section.
pub open spec fn stats_refusal(s: StatsModel) -> Option<CoreCodecError> {
    match stats_fault(s) {
        Some(error) => Some(CoreCodecError::InvalidPhysicalStats(error)),
        None => None,
    }
}

/// Why a section of physical statistics is refused.
pub open spec fn stats_section_fault(bytes: Seq<u8>) -> Option<CoreCodecError> {
    first(stats_layout_fault(bytes), stats_refusal(stats_read(bytes)))
}

fn encode_class_totals(writer: &mut CanonicalWriter, t: ClassTotals) -> (r: Result<
    (),
    CoreCodecError,
>)
    requires
        old(writer)@.len() + 96 <= old(writer).maximum,
    ensures
        r is Ok,
        final(writer)@ == old(writer)@ + words_bytes(class_counters(t), 12),
        final(writer).maximum == old(writer).maximum,
{
    let values: [u64; 12] = [
        t.new_order_commits,
        t.payment_commits,
        t.order_status_commits,
        t.delivery_commits,
        t.stock_level_commits,
        t.expected_rollbacks,
        t.new_orders,
        t.new_order_lines,
        t.remote_new_order_lines,
        t.stock_quantity_delta,
        t.delivered_orders,
        t.delivered_order_lines,
    ];
    assert(values@ =~= class_counters(t));
    put_words(writer, values.as_slice())
}

fn decode_class_totals<'a>(reader: &mut CanonicalReader<'a>) -> (r: Result<
    ClassTotals,
    CoreCodecError,
>)
    requires
        old(reader).wf(),
    ensures
        final(reader).wf(),
        final(reader).bytes == old(reader).bytes,
        refusal(r) == refused_if(old(reader).rest().len() < 96, CoreCodecError::Truncated),
        r matches Ok(t) ==> t == class_of(words_at(old(reader).rest(), 0, 12)),
        r is Ok ==> final(reader).rest() == old(reader).rest().skip(96),
{
    let v = get_words(reader, 12)?;
    Ok(
        ClassTotals {
            new_order_commits: v[0],
            payment_commits: v[1],
            order_status_commits: v[2],
            delivery_commits: v[3],
            stock_level_commits: v[4],
            expected_rollbacks: v[5],
            new_orders: v[6],
            new_order_lines: v[7],
            remote_new_order_lines: v[8],
            stock_quantity_delta: v[9],
            delivered_orders: v[10],
            delivered_order_lines: v[11],
        },
    )
}

fn encode_partition_totals(writer: &mut CanonicalWriter, t: PartitionTotals) -> (r: Result<
    (),
    CoreCodecError,
>)
    requires
        old(writer)@.len() + 32 <= old(writer).maximum,
    ensures
        r is Ok,
        final(writer)@ == old(writer)@ + words_bytes(partition_counters(t), 4),
        final(writer).maximum == old(writer).maximum,
{
    let values: [u64; 4] = [
        t.new_orders,
        t.new_order_lines,
        t.delivered_orders,
        t.delivered_order_lines,
    ];
    assert(values@ =~= partition_counters(t));
    put_words(writer, values.as_slice())
}

fn decode_partition_totals<'a>(reader: &mut CanonicalReader<'a>) -> (r: Result<
    PartitionTotals,
    CoreCodecError,
>)
    requires
        old(reader).wf(),
    ensures
        final(reader).wf(),
        final(reader).bytes == old(reader).bytes,
        refusal(r) == refused_if(old(reader).rest().len() < 32, CoreCodecError::Truncated),
        r matches Ok(t) ==> t == partition_of(words_at(old(reader).rest(), 0, 4)),
        r is Ok ==> final(reader).rest() == old(reader).rest().skip(32),
{
    let v = get_words(reader, 4)?;
    Ok(
        PartitionTotals {
            new_orders: v[0],
            new_order_lines: v[1],
            delivered_orders: v[2],
            delivered_order_lines: v[3],
        },
    )
}

pub proof fn lemma_sum_len(a: NonNegativeF32Accumulator)
    ensures
        sum_bytes(a).len() == 12 + 8 * shortest(a.words@).len(),
        shortest(a.words@).len() <= 6,
{
    lemma_shortest(a.words@);
    lemma_le_len(a.term_count as nat, 8);
    lemma_le_len(shortest(a.words@).len(), 4);
    lemma_words_len(shortest(a.words@), shortest(a.words@).len() as int);
}

fn encode_accumulator(writer: &mut CanonicalWriter, a: &NonNegativeF32Accumulator) -> (r: Result<
    (),
    CoreCodecError,
>)
    requires
        old(writer)@.len() + 60 <= old(writer).maximum,
    ensures
        r is Ok,
        final(writer)@ == old(writer)@ + sum_bytes(*a),
        final(writer).maximum == old(writer).maximum,
        final(writer)@.len() <= old(writer)@.len() + 60,
{
    let ghost before = writer@;
    let (term_count, words) = a.to_words();
    proof {
        lemma_sum_len(*a);
        lemma_le_len(term_count as nat, 8);
        lemma_le_len(words@.len(), 4);
    }
    writer.put_u64(term_count)?;
    writer.put_u32(words.len() as u32)?;
    put_words(writer, words.as_slice())?;
    assert(writer@ =~= before + sum_bytes(*a));
    Ok(())
}

fn decode_accumulator<'a>(reader: &mut CanonicalReader<'a>, field: &'static str) -> (r: Result<
    NonNegativeF32Accumulator,
    CoreCodecError,
>)
    requires
        old(reader).wf(),
    ensures
        final(reader).wf(),
        final(reader).bytes == old(reader).bytes,
        refusal(r) == sum_read_fault(old(reader).rest(), field),
        r matches Ok(a) ==> a.wf() && a@ == sum_read(old(reader).rest()),
        r is Ok ==> final(reader).rest() == old(reader).rest().skip(
            sum_size(old(reader).rest()),
        ),
{
    let ghost rest = reader.rest();
    let term_count: u64 = reader.get_u64()?;
    let ghost behind = reader.rest();
    let count: u32 = reader.bounded_count(field, MAX_ACCUMULATOR_WORDS)?;
    let ghost tail = reader.rest();
    proof {
        assert(behind.subrange(0, 4) =~= rest.subrange(8, 12));
        assert(tail =~= rest.skip(12));
        lemma_le_widths();
        lemma_le_canonical(rest.subrange(0, 8));
    }
    let words = get_words(reader, count as usize)?;
    proof {
        assert forall|i: int| 0 <= i < count implies words@[i] == words_at(
            rest,
            12,
            count as nat,
        )[i] by {
            assert(tail.subrange(8 * i, 8 * i + 8) =~= rest.subrange(12 + 8 * i, 12 + 8 * i + 8));
        }
        assert(words@ =~= words_at(rest, 12, count as nat));
        assert(reader.rest() =~= rest.skip(sum_size(rest)));
    }
    match NonNegativeF32Accumulator::from_words(term_count, words.as_slice()) {
        Ok(sum) => Ok(sum),
        Err(source) => Err(CoreCodecError::InvalidAccumulator { field, source }),
    }
}

fn encode_group(writer: &mut CanonicalWriter, group: &[NonNegativeF32Accumulator; 9]) -> (r: Result<
    (),
    CoreCodecError,
>)
    requires
        old(writer)@.len() + 540 <= old(writer).maximum,
    ensures
        r is Ok,
        final(writer)@ == old(writer)@ + group_bytes(group@, 0),
        final(writer).maximum == old(writer).maximum,
        final(writer)@.len() <= old(writer)@.len() + 540,
{
    let ghost before = writer@;
    let mut i: usize = 0;
    while i < 9
        invariant
            i <= 9,
            group@.len() == 9,
            before == old(writer)@,
            writer.maximum == old(writer).maximum,
            before.len() + 540 <= writer.maximum,
            writer@.len() <= before.len() + 60 * i,
            writer@ + group_bytes(group@, i as int) =~= before + group_bytes(group@, 0),
        decreases 9 - i,
    {
        encode_accumulator(writer, &group[i])?;
        i = i + 1;
    }
    assert(writer@ =~= before + group_bytes(group@, 0));
    Ok(())
}

fn decode_group<'a>(reader: &mut CanonicalReader<'a>, field: &'static str) -> (r: Result<
    [NonNegativeF32Accumulator; 9],
    CoreCodecError,
>)
    requires
        old(reader).wf(),
    ensures
        final(reader).wf(),
        final(reader).bytes == old(reader).bytes,
        refusal(r) == group_read_fault(old(reader).rest(), field, 9),
        r matches Ok(group) ==> group_wf(group@) && sums_of(group@) == group_read(
            old(reader).rest(),
            9,
        ),
        r is Ok ==> final(reader).rest() == group_rest(old(reader).rest(), 9),
{
    let ghost given = reader.rest();
    let empty = NonNegativeF32Accumulator::new();
    let mut group: [NonNegativeF32Accumulator; 9] = [
        empty,
        empty,
        empty,
        empty,
        empty,
        empty,
        empty,
        empty,
        empty,
    ];
    let mut i: usize = 0;
    while i < 9
        invariant
            i <= 9,
            reader.wf(),
            reader.bytes == old(reader).bytes,
            given == old(reader).rest(),
            group@.len() == 9,
            forall|k: int| 0 <= k < i ==> (#[trigger] group@[k]).wf(),
            group_read_fault(given, field, 9) == group_read_fault(reader.rest(), field, 9 - i),
            group_rest(given, 9) == group_rest(reader.rest(), 9 - i),
            group_read(given, 9) =~= sums_of(group@.take(i as int)) + group_read(
                reader.rest(),
                9 - i,
            ),
        decreases 9 - i,
    {
        let ghost before = group@;
        let sum = decode_accumulator(reader, field)?;
        group[i] = sum;
        assert(sums_of(group@.take(i as int + 1)) =~= sums_of(before.take(i as int)).push(sum@));
        i = i + 1;
    }
    assert(group@.take(9) =~= group@);
    Ok(group)
}

proof fn lemma_counters_split(
    classes: Seq<ClassTotals>,
    partitions: Seq<PartitionTotals>,
    from: int,
    values: Seq<u64>,
    n: int,
)
    requires
        0 <= n <= values.len(),
        0 <= from,
        from + values.len() <= 2_108,
        forall|i: int|
            0 <= i < values.len() ==> counter_values(classes, partitions)[from + i] == values[i],
    ensures
        words_bytes(counter_values(classes, partitions), from + n) == words_bytes(
            counter_values(classes, partitions),
            from,
        ) + words_bytes(values, n),
    decreases n,
{
    let all = counter_values(classes, partitions);
    if n > 0 {
        lemma_counters_split(classes, partitions, from, values, n - 1);
        assert(all[from + (n - 1)] == values[n - 1]);
        assert(words_bytes(all, from + n) =~= words_bytes(all, from) + words_bytes(values, n));
    } else {
        assert(words_bytes(all, from) =~= words_bytes(all, from) + words_bytes(values, 0));
    }
}

fn encode_counters(writer: &mut CanonicalWriter, stats: &BoundedPhysicalStats) -> (r: Result<
    (),
    CoreCodecError,
>)
    requires
        old(writer)@.len() + 16_864 <= old(writer).maximum,
    ensures
        r is Ok,
        final(writer)@ == old(writer)@ + words_bytes(
            counter_values(stats.classes@, stats.partitions@),
            2_108,
        ),
        final(writer).maximum == old(writer).maximum,
{
    let ghost before = writer@;
    let ghost all = counter_values(stats.classes@, stats.partitions@);
    assert(writer@ =~= before + words_bytes(all, 0));
    let mut c: usize = 0;
    while c < 9
        invariant
            c <= 9,
            all == counter_values(stats.classes@, stats.partitions@),
            before == old(writer)@,
            writer.maximum == old(writer).maximum,
            before.len() + 16_864 <= writer.maximum,
            writer@ == before + words_bytes(all, 12 * c),
        decreases 9 - c,
    {
        let ghost values = class_counters(stats.classes@[c as int]);
        proof {
            lemma_words_len(all, 12 * c);
            assert forall|i: int| 0 <= i < 12 implies all[12 * c + i] == values[i] by {
                assert((12 * c + i) / 12 == c && (12 * c + i) % 12 == i);
            }
            lemma_counters_split(stats.classes@, stats.partitions@, 12 * c, values, 12);
        }
        encode_class_totals(writer, stats.classes[c])?;
        c = c + 1;
        assert(writer@ =~= before + words_bytes(all, 12 * c));
    }
    let mut p: usize = 0;
    while p < 500
        invariant
            p <= 500,
            all == counter_values(stats.classes@, stats.partitions@),
            before == old(writer)@,
            writer.maximum == old(writer).maximum,
            before.len() + 16_864 <= writer.maximum,
            writer@ == before + words_bytes(all, 108 + 4 * p),
        decreases 500 - p,
    {
        let ghost values = partition_counters(stats.partitions@[p as int]);
        proof {
            lemma_words_len(all, 108 + 4 * p);
            assert forall|i: int| 0 <= i < 4 implies all[108 + 4 * p + i] == values[i] by {
                assert((4 * p + i) / 4 == p && (4 * p + i) % 4 == i);
            }
            lemma_counters_split(stats.classes@, stats.partitions@, 108 + 4 * p, values, 4);
        }
        encode_partition_totals(writer, stats.partitions[p])?;
        p = p + 1;
        assert(writer@ =~= before + words_bytes(all, 108 + 4 * p));
    }
    Ok(())
}

/// Writes consistent statistics as a section.
pub fn encode_physical_stats_section(stats: &BoundedPhysicalStats) -> (r: Result<
    Vec<u8>,
    CoreCodecError,
>)
    requires
        stats.wf(),
    ensures
        refusal(r) == stats_refusal(stats@),
        r matches Ok(bytes) ==> bytes@ == stats_section(*stats),
{
    match stats.validate() {
        Ok(()) => {},
        Err(error) => {
            return Err(CoreCodecError::InvalidPhysicalStats(error));
        },
    }
    proof {
        lemma_le_len(1, 1);
        lemma_le_len(1, 2);
        lemma_words_len(counter_values(stats.classes@, stats.partitions@), 2_108);
    }
    let mut writer = section_writer(
        SectionKind::PhysicalStats,
        MAX_PHYSICAL_STATS_SECTION_BYTES,
    )?;
    encode_counters(&mut writer, stats)?;
    encode_group(&mut writer, &stats.payment_history_amounts)?;
    encode_group(&mut writer, &stats.new_order_line_amounts)?;
    encode_group(&mut writer, &stats.delivery_customer_amounts)?;
    assert(writer@ =~= stats_section(*stats));
    Ok(writer.finish())
}

/// Classes and partitions as they are read.
struct Counters {
    classes: [ClassTotals; 9],
    partitions: [PartitionTotals; 500],
}

fn decode_counters<'a>(reader: &mut CanonicalReader<'a>) -> (r: Result<Counters, CoreCodecError>)
    requires
        old(reader).wf(),
    ensures
        final(reader).wf(),
        final(reader).bytes == old(reader).bytes,
        refusal(r) == refused_if(old(reader).rest().len() < 16_864, CoreCodecError::Truncated),
        r matches Ok(k) ==> k.classes@ == Seq::new(
            9,
            |c: int| class_of(words_at(old(reader).rest(), 96 * c, 12)),
        ) && k.partitions@ == Seq::new(
            500,
            |p: int| partition_of(words_at(old(reader).rest(), 864 + 32 * p, 4)),
        ),
        r is Ok ==> final(reader).rest() == old(reader).rest().skip(16_864),
{
    let ghost given = reader.rest();
    let mut classes: [ClassTotals; 9] = [ClassTotals::none(); 9];
    let mut partitions: [PartitionTotals; 500] = [PartitionTotals::none(); 500];
    assert(given.skip(0) =~= given);
    let mut c: usize = 0;
    while c < 9
        invariant
            c <= 9,
            reader.wf(),
            reader.bytes == old(reader).bytes,
            given == old(reader).rest(),
            96 * c <= given.len(),
            reader.rest() == given.skip(96 * c),
            forall|k: int|
                0 <= k < c ==> #[trigger] classes@[k] == class_of(words_at(given, 96 * k, 12)),
        decreases 9 - c,
    {
        let totals = decode_class_totals(reader)?;
        proof {
            lemma_words_shifted(given, 96 * c, 12);
            assert(given.skip(96 * c).skip(96) =~= given.skip(96 * (c + 1)));
        }
        classes[c] = totals;
        c = c + 1;
    }
    let mut p: usize = 0;
    while p < 500
        invariant
            p <= 500,
            reader.wf(),
            reader.bytes == old(reader).bytes,
            given == old(reader).rest(),
            864 + 32 * p <= given.len(),
            reader.rest() == given.skip(864 + 32 * p),
            forall|k: int|
                0 <= k < p ==> #[trigger] partitions@[k] == partition_of(
                    words_at(given, 864 + 32 * k, 4),
                ),
        decreases 500 - p,
    {
        let totals = decode_partition_totals(reader)?;
        proof {
            lemma_words_shifted(given, 864 + 32 * p, 4);
            assert(given.skip(864 + 32 * p).skip(32) =~= given.skip(864 + 32 * (p + 1)));
        }
        partitions[p] = totals;
        p = p + 1;
    }
    assert(classes@ =~= Seq::new(9, |k: int| class_of(words_at(given, 96 * k, 12))));
    assert(partitions@ =~= Seq::new(
        500,
        |k: int| partition_of(words_at(given, 864 + 32 * k, 4)),
    ));
    Ok(Counters { classes, partitions })
}

pub proof fn lemma_words_shifted(bytes: Seq<u8>, at: int, n: nat)
    requires
        0 <= at <= bytes.len(),
        at + 8 * n <= bytes.len(),
    ensures
        words_at(bytes.skip(at), 0, n) == words_at(bytes, at, n),
{
    assert forall|i: int| 0 <= i < n implies words_at(bytes.skip(at), 0, n)[i] == words_at(
        bytes,
        at,
        n,
    )[i] by {
        assert(bytes.skip(at).subrange(0 + 8 * i, 0 + 8 * i + 8) =~= bytes.subrange(
            at + 8 * i,
            at + 8 * i + 8,
        ));
    }
    assert(words_at(bytes.skip(at), 0, n) =~= words_at(bytes, at, n));
}

/// Reads a section of statistics and checks that they are consistent.
pub fn decode_physical_stats_section(bytes: &[u8]) -> (r: Result<
    BoundedPhysicalStats,
    CoreCodecError,
>)
    ensures
        refusal(r) == stats_section_fault(bytes@),
        r matches Ok(stats) ==> stats.wf() && stats@ == stats_read(bytes@),
{
    let mut reader = section_reader(
        bytes,
        SectionKind::PhysicalStats,
        MAX_PHYSICAL_STATS_SECTION_BYTES,
    )?;
    let counters = decode_counters(&mut reader)?;
    let payment_history_amounts = decode_group(&mut reader, "Payment/history amount")?;
    let new_order_line_amounts = decode_group(&mut reader, "NewOrder line amount")?;
    let delivery_customer_amounts = decode_group(&mut reader, "Delivery customer amount")?;
    reader.finish()?;
    let stats = BoundedPhysicalStats {
        classes: counters.classes,
        partitions: counters.partitions,
        payment_history_amounts,
        new_order_line_amounts,
        delivery_customer_amounts,
    };
    assert(stats@ =~= stats_read(bytes@));
    match stats.validate() {
        Ok(()) => Ok(stats),
        Err(error) => Err(CoreCodecError::InvalidPhysicalStats(error)),
    }
}

} // verus!
