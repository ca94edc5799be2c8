//! A section of statistics that is written is read back, and one that is read
//! is written again as it was.
use vstd::prelude::*;

use crate::accumulator::{
    NonNegativeF32Accumulator, law_words_are_determined, law_words_round_trip, lemma_padded,
    shortest, words_value,
};
use crate::ranking::bounded_stats::{BoundedPhysicalStats, group_wf, sums_of};
use crate::ranking::bounded_totals::{ClassTotals, PartitionTotals};
use crate::ranking::canonical::{
    SectionKind, header_fault, kind_number, le_at, le_bytes, lemma_le_canonical, lemma_le_len,
    lemma_le_round_trip, lemma_le_widths, section_header, section_magic,
};
use crate::ranking::core_artifact_codec::{
    MAX_PHYSICAL_STATS_SECTION_BYTES, class_counters, class_of, counter_values, group_bytes,
    group_read, group_read_fault, group_rest, lemma_sum_len, lemma_words_canonical,
    lemma_words_len, lemma_words_read_back, lemma_words_shifted, partition_counters, partition_of,
    stats_layout_fault, stats_read, stats_refusal, stats_section, stats_section_fault, sum_bytes,
    sum_read, sum_read_fault, sum_size, sums_part, words_at, words_bytes,
};

verus! {

/// A header in front of other bytes is accepted.
pub proof fn lemma_header_accepted(kind: SectionKind, tail: Seq<u8>, maximum: usize)
    requires
        7 + tail.len() <= maximum,
    ensures
        header_fault(section_header(kind) + tail, kind, maximum) is None,
        (section_header(kind) + tail).skip(7) == tail,
        section_header(kind).len() == 7,
{
    let number = kind_number(kind) as nat;
    lemma_le_len(number, 1);
    lemma_le_len(1, 2);
    lemma_le_widths();
    lemma_le_round_trip(number, 1);
    lemma_le_round_trip(1, 2);
    let bytes = section_header(kind) + tail;
    assert(bytes.take(4) =~= section_magic());
    reveal_with_fuel(le_bytes, 2);
    assert(bytes[4] == le_bytes(number, 1)[0]);
    assert(bytes.subrange(5, 7) =~= le_bytes(1, 2));
    assert(bytes.skip(7) =~= tail);
}

/// A header that is accepted is the one that is written.
pub proof fn lemma_header_canonical(bytes: Seq<u8>, kind: SectionKind, maximum: usize)
    requires
        header_fault(bytes, kind, maximum) is None,
    ensures
        bytes == section_header(kind) + bytes.skip(7),
        7 <= bytes.len() <= maximum,
{
    let part = bytes.subrange(5, 7);
    lemma_le_canonical(part);
    reveal_with_fuel(le_bytes, 2);
    assert(le_bytes(kind_number(kind) as nat, 1) =~= seq![bytes[4]]);
    let again = section_header(kind) + bytes.skip(7);
    lemma_le_len(1, 2);
    assert(section_header(kind).len() == 7);
    assert forall|i: int| 0 <= i < bytes.len() implies again[i] == bytes[i] by {
        if i < 4 {
            assert(bytes.take(4)[i] == section_magic()[i]);
        } else if i == 4 {
        } else if i < 7 {
            assert(part[i - 5] == le_bytes(1, 2)[i - 5]);
        }
    }
    assert(again =~= bytes);
}

/// A sum in front of other bytes is read back.
proof fn lemma_sum_reads_back(a: NonNegativeF32Accumulator, tail: Seq<u8>, field: &'static str)
    requires
        a.wf(),
    ensures
        sum_read_fault(sum_bytes(a) + tail, field) is None,
        sum_read(sum_bytes(a) + tail) == a@,
        (sum_bytes(a) + tail).skip(sum_size(sum_bytes(a) + tail)) == tail,
{
    let words = shortest(a.words@);
    let n = words.len();
    let rest = sum_bytes(a) + tail;
    lemma_sum_len(a);
    lemma_le_len(a.term_count as nat, 8);
    lemma_le_len(n, 4);
    lemma_words_len(words, n as int);
    lemma_le_widths();
    lemma_le_round_trip(a.term_count as nat, 8);
    lemma_le_round_trip(n, 4);
    assert(rest.subrange(0, 8) =~= le_bytes(a.term_count as nat, 8));
    assert(rest.subrange(8, 12) =~= le_bytes(n, 4));
    assert(rest.skip(8).subrange(0, 4) =~= le_bytes(n, 4));
    assert(rest.skip(12) =~= words_bytes(words, n as int) + tail);
    lemma_words_read_back(words, n as int, tail);
    lemma_words_shifted(rest, 12, n);
    assert(words.take(n as int) =~= words);
    law_words_round_trip(a);
    assert(rest.skip(sum_size(rest)) =~= tail);
}

/// A sum that is read is written again as it was.
proof fn lemma_sum_canonical(rest: Seq<u8>, a: NonNegativeF32Accumulator, field: &'static str)
    requires
        sum_read_fault(rest, field) is None,
        a@ == sum_read(rest),
    ensures
        rest == sum_bytes(a) + rest.skip(sum_size(rest)),
{
    let count = le_at(rest, 8, 4);
    let words = words_at(rest, 12, count);
    let head = rest.subrange(0, 8);
    let middle = rest.subrange(8, 12);
    assert(rest.skip(8).subrange(0, 4) =~= middle);
    lemma_le_canonical(head);
    lemma_le_canonical(middle);
    lemma_le_widths();
    lemma_shortest_determined(a, words);
    lemma_words_shifted(rest, 12, count);
    lemma_words_canonical(rest.skip(12), count as int);
    let body = rest.skip(12).take(8 * count as int);
    assert(sum_bytes(a) =~= head + middle + body);
    assert(rest =~= head + middle + body + rest.skip(sum_size(rest)));
}

/// The words of a sum are the only shortest words with its value.
proof fn lemma_shortest_determined(a: NonNegativeF32Accumulator, words: Seq<u64>)
    requires
        words.len() <= 6,
        shortest(words) == words,
        a@.total == words_value(words, words.len() as int),
    ensures
        shortest(a.words@) == words,
{
    let padded = words + Seq::new((6 - words.len()) as nat, |i: int| 0u64);
    lemma_padded(words, padded, 6);
    law_words_are_determined(a.words@, padded, 6);
    assert(a.words@ =~= padded);
    lemma_padding_drops(words, (6 - words.len()) as nat);
}

proof fn lemma_padding_drops(words: Seq<u64>, n: nat)
    requires
        shortest(words) == words,
    ensures
        shortest(words + Seq::new(n, |i: int| 0u64)) == words,
    decreases n,
{
    let padded = words + Seq::new(n, |i: int| 0u64);
    if n == 0 {
        assert(padded =~= words);
    } else {
        assert(padded.drop_last() =~= words + Seq::new((n - 1) as nat, |i: int| 0u64));
        lemma_padding_drops(words, (n - 1) as nat);
    }
}

proof fn lemma_group_reads_back(
    group: Seq<NonNegativeF32Accumulator>,
    i: int,
    tail: Seq<u8>,
    field: &'static str,
)
    requires
        0 <= i <= group.len(),
        group_wf(group),
    ensures
        group_read_fault(group_bytes(group, i) + tail, field, group.len() - i) is None,
        group_rest(group_bytes(group, i) + tail, group.len() - i) == tail,
        group_read(group_bytes(group, i) + tail, group.len() - i) == sums_of(group).skip(i),
    decreases group.len() - i,
{
    let rest = group_bytes(group, i) + tail;
    if i < group.len() {
        let later = group_bytes(group, i + 1) + tail;
        assert(rest =~= sum_bytes(group[i]) + later);
        lemma_sum_reads_back(group[i], later, field);
        lemma_group_reads_back(group, i + 1, tail, field);
        assert(sums_of(group).skip(i) =~= seq![group[i]@] + sums_of(group).skip(i + 1));
    } else {
        assert(rest =~= tail);
        assert(sums_of(group).skip(i) =~= Seq::empty());
    }
}

proof fn lemma_group_canonical(
    rest: Seq<u8>,
    group: Seq<NonNegativeF32Accumulator>,
    i: int,
    field: &'static str,
)
    requires
        0 <= i <= group.len(),
        group_read_fault(rest, field, group.len() - i) is None,
        group_read(rest, group.len() - i) == sums_of(group).skip(i),
    ensures
        rest == group_bytes(group, i) + group_rest(rest, group.len() - i),
    decreases group.len() - i,
{
    let n = group.len() - i;
    if i < group.len() {
        let later = rest.skip(sum_size(rest));
        let read = group_read(rest, n);
        assert(read[0] == sum_read(rest));
        assert(read[0] == sums_of(group).skip(i)[0]);
        lemma_sum_canonical(rest, group[i], field);
        assert(group_read(later, n - 1) =~= read.skip(1));
        assert(sums_of(group).skip(i).skip(1) =~= sums_of(group).skip(i + 1));
        lemma_group_canonical(later, group, i + 1, field);
        assert(rest =~= group_bytes(group, i) + group_rest(rest, n));
    } else {
        assert(rest =~= group_bytes(group, i) + rest);
    }
}

proof fn lemma_group_len(group: Seq<NonNegativeF32Accumulator>, i: int)
    requires
        0 <= i <= group.len(),
    ensures
        group_bytes(group, i).len() <= 60 * (group.len() - i),
    decreases group.len() - i,
{
    if i < group.len() {
        lemma_sum_len(group[i]);
        lemma_group_len(group, i + 1);
    }
}

proof fn lemma_counters_read_back(
    rest: Seq<u8>,
    classes: Seq<ClassTotals>,
    partitions: Seq<PartitionTotals>,
)
    requires
        classes.len() == 9,
        partitions.len() == 500,
        words_at(rest, 0, 2_108) == counter_values(classes, partitions),
    ensures
        Seq::new(9, |c: int| class_of(words_at(rest, 96 * c, 12))) == classes,
        Seq::new(500, |p: int| partition_of(words_at(rest, 864 + 32 * p, 4))) == partitions,
{
    let all = counter_values(classes, partitions);
    let read = words_at(rest, 0, 2_108);
    assert forall|c: int| 0 <= c < 9 implies class_of(words_at(rest, 96 * c, 12))
        == classes[c] by {
        assert forall|i: int| 0 <= i < 12 implies words_at(rest, 96 * c, 12)[i] == class_counters(
            classes[c],
        )[i] by {
            let k = 12 * c + i;
            assert(k / 12 == c && k % 12 == i);
            assert(0 <= k < 108);
            assert(all[k] == class_counters(classes[c])[i]);
            assert(read[k] == le_at(rest, 0 + 8 * k, 8) as u64);
            assert(96 * c + 8 * i == 0 + 8 * k);
            assert(words_at(rest, 96 * c, 12)[i] == le_at(rest, 96 * c + 8 * i, 8) as u64);
        }
        assert(words_at(rest, 96 * c, 12) =~= class_counters(classes[c]));
    }
    assert forall|p: int| 0 <= p < 500 implies partition_of(words_at(rest, 864 + 32 * p, 4))
        == partitions[p] by {
        assert forall|i: int| 0 <= i < 4 implies words_at(rest, 864 + 32 * p, 4)[i]
            == partition_counters(partitions[p])[i] by {
            let k = 108 + 4 * p + i;
            assert((k - 108) / 4 == p && (k - 108) % 4 == i);
            assert(108 <= k < 2_108);
            assert(all[k] == partition_counters(partitions[p])[i]);
            assert(read[k] == le_at(rest, 0 + 8 * k, 8) as u64);
            assert(864 + 32 * p + 8 * i == 0 + 8 * k);
            assert(words_at(rest, 864 + 32 * p, 4)[i] == le_at(
                rest,
                864 + 32 * p + 8 * i,
                8,
            ) as u64);
        }
        assert(words_at(rest, 864 + 32 * p, 4) =~= partition_counters(partitions[p]));
    }
    assert(Seq::new(9, |c: int| class_of(words_at(rest, 96 * c, 12))) =~= classes);
    assert(Seq::new(500, |p: int| partition_of(words_at(rest, 864 + 32 * p, 4))) =~= partitions);
}

proof fn lemma_counters_canonical(
    rest: Seq<u8>,
    classes: Seq<ClassTotals>,
    partitions: Seq<PartitionTotals>,
)
    requires
        classes == Seq::new(9, |c: int| class_of(words_at(rest, 96 * c, 12))),
        partitions == Seq::new(500, |p: int| partition_of(words_at(rest, 864 + 32 * p, 4))),
    ensures
        counter_values(classes, partitions) == words_at(rest, 0, 2_108),
{
    let all = counter_values(classes, partitions);
    assert forall|k: int| 0 <= k < 2_108 implies all[k] == words_at(rest, 0, 2_108)[k] by {
        if k < 108 {
            let c = k / 12;
            let i = k % 12;
            assert(classes[c] == class_of(words_at(rest, 96 * c, 12)));
            assert(class_counters(classes[c])[i] == words_at(rest, 96 * c, 12)[i]);
            assert(96 * c + 8 * i == 0 + 8 * k);
        } else {
            let p = (k - 108) / 4;
            let i = (k - 108) % 4;
            assert(partitions[p] == partition_of(words_at(rest, 864 + 32 * p, 4)));
            assert(partition_counters(partitions[p])[i] == words_at(rest, 864 + 32 * p, 4)[i]);
            assert(864 + 32 * p + 8 * i == 0 + 8 * k);
        }
    }
    assert(all =~= words_at(rest, 0, 2_108));
}

#[verifier::spinoff_prover]
proof fn lemma_layout_read_back(s: BoundedPhysicalStats)
    requires
        s.wf(),
    ensures
        stats_layout_fault(stats_section(s)) is None,
        stats_read(stats_section(s)) == s@,
{
    let header = section_header(SectionKind::PhysicalStats);
    let all = counter_values(s.classes@, s.partitions@);
    let counters = words_bytes(all, 2_108);
    let p = group_bytes(s.payment_history_amounts@, 0);
    let l = group_bytes(s.new_order_line_amounts@, 0);
    let d = group_bytes(s.delivery_customer_amounts@, 0);
    let bytes = stats_section(s);
    let sums = p + (l + (d + Seq::<u8>::empty()));
    lemma_words_read_back(all, 2_108, sums);
    lemma_group_len(s.payment_history_amounts@, 0);
    lemma_group_len(s.new_order_line_amounts@, 0);
    lemma_group_len(s.delivery_customer_amounts@, 0);
    assert(bytes =~= header + (counters + sums));
    lemma_header_accepted(SectionKind::PhysicalStats, counters + sums, MAX_PHYSICAL_STATS_SECTION_BYTES);
    assert((counters + sums).skip(16_864) =~= sums);
    assert(all.take(2_108) =~= all);
    lemma_counters_read_back(counters + sums, s.classes@, s.partitions@);
    lemma_group_reads_back(
        s.payment_history_amounts@,
        0,
        l + (d + Seq::<u8>::empty()),
        "Payment/history amount",
    );
    lemma_group_reads_back(
        s.new_order_line_amounts@,
        0,
        d + Seq::<u8>::empty(),
        "NewOrder line amount",
    );
    lemma_group_reads_back(
        s.delivery_customer_amounts@,
        0,
        Seq::<u8>::empty(),
        "Delivery customer amount",
    );
    assert(sums_of(s.payment_history_amounts@).skip(0) =~= s@.payments);
    assert(sums_of(s.new_order_line_amounts@).skip(0) =~= s@.lines);
    assert(sums_of(s.delivery_customer_amounts@).skip(0) =~= s@.deliveries);
    assert(stats_read(bytes) =~= s@);
}

proof fn lemma_whole_group(
    rest: Seq<u8>,
    group: Seq<NonNegativeF32Accumulator>,
    field: &'static str,
)
    requires
        group.len() == 9,
        group_read_fault(rest, field, 9) is None,
        sums_of(group) == group_read(rest, 9),
    ensures
        rest == group_bytes(group, 0) + group_rest(rest, 9),
{
    assert(sums_of(group).skip(0) =~= group_read(rest, 9));
    lemma_group_canonical(rest, group, 0, field);
}

proof fn lemma_counters_written(
    rest: Seq<u8>,
    classes: Seq<ClassTotals>,
    partitions: Seq<PartitionTotals>,
)
    requires
        rest.len() >= 16_864,
        classes == Seq::new(9, |c: int| class_of(words_at(rest, 96 * c, 12))),
        partitions == Seq::new(500, |p: int| partition_of(words_at(rest, 864 + 32 * p, 4))),
    ensures
        rest == words_bytes(counter_values(classes, partitions), 2_108) + rest.skip(16_864),
{
    lemma_counters_canonical(rest, classes, partitions);
    lemma_words_canonical(rest, 2_108);
    assert(rest =~= rest.take(16_864) + rest.skip(16_864));
}

proof fn lemma_joined(h: Seq<u8>, c: Seq<u8>, p: Seq<u8>, l: Seq<u8>, d: Seq<u8>)
    ensures
        h + (c + (p + (l + (d + Seq::<u8>::empty())))) == h + c + p + l + d,
{
    assert(h + (c + (p + (l + (d + Seq::<u8>::empty())))) =~= h + c + p + l + d);
}

#[verifier::spinoff_prover]
proof fn lemma_layout_canonical(bytes: Seq<u8>, s: BoundedPhysicalStats)
    requires
        stats_layout_fault(bytes) is None,
        s@ == stats_read(bytes),
    ensures
        stats_section(s) == bytes,
{
    let rest = bytes.skip(7);
    let payments = sums_part(bytes);
    let lines = group_rest(payments, 9);
    let deliveries = group_rest(lines, 9);
    lemma_header_canonical(bytes, SectionKind::PhysicalStats, MAX_PHYSICAL_STATS_SECTION_BYTES);
    lemma_counters_written(rest, s.classes@, s.partitions@);
    lemma_whole_group(payments, s.payment_history_amounts@, "Payment/history amount");
    lemma_whole_group(lines, s.new_order_line_amounts@, "NewOrder line amount");
    lemma_whole_group(deliveries, s.delivery_customer_amounts@, "Delivery customer amount");
    assert(group_rest(deliveries, 9) =~= Seq::empty());
    lemma_joined(
        section_header(SectionKind::PhysicalStats),
        words_bytes(counter_values(s.classes@, s.partitions@), 2_108),
        group_bytes(s.payment_history_amounts@, 0),
        group_bytes(s.new_order_line_amounts@, 0),
        group_bytes(s.delivery_customer_amounts@, 0),
    );
}

/// Consistent statistics that are written as a section are read back.
pub proof fn law_stats_section_round_trip(s: BoundedPhysicalStats)
    requires
        s.wf(),
        stats_refusal(s@) is None,
    ensures
        stats_section_fault(stats_section(s)) is None,
        stats_read(stats_section(s)) == s@,
{
    lemma_layout_read_back(s);
}

/// A section that is read is written again as it was: there is one section for
/// all statistics.
pub proof fn law_stats_section_is_canonical(bytes: Seq<u8>, s: BoundedPhysicalStats)
    requires
        stats_section_fault(bytes) is None,
        s@ == stats_read(bytes),
    ensures
        stats_refusal(s@) is None,
        stats_section(s) == bytes,
{
    lemma_layout_canonical(bytes, s);
}

} // verus!
