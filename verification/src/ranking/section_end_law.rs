//! A section of physical statistics ends where it ends: no shorter one is read,
//! and nothing may follow it.
use vstd::prelude::*;

use crate::ranking::canonical::{CoreCodecError, SectionKind, header_fault, le_at, section_name};
use crate::ranking::core_artifact_codec::{
    MAX_PHYSICAL_STATS_SECTION_BYTES, group_read_fault, group_rest, stats_section_fault,
    sum_read_fault, sum_size, sums_part, words_at,
};

verus! {

proof fn lemma_at_extended(bytes: Seq<u8>, more: Seq<u8>, at: int, width: int)
    requires
        0 <= at,
        0 <= width,
        at + width <= bytes.len(),
    ensures
        le_at(bytes + more, at, width) == le_at(bytes, at, width),
{
    assert((bytes + more).subrange(at, at + width) =~= bytes.subrange(at, at + width));
}

proof fn lemma_sum_extended(rest: Seq<u8>, more: Seq<u8>, field: &'static str)
    requires
        sum_read_fault(rest, field) is None,
    ensures
        sum_read_fault(rest + more, field) is None,
        (rest + more).skip(sum_size(rest + more)) == rest.skip(sum_size(rest)) + more,
        sum_size(rest) <= rest.len(),
{
    let long = rest + more;
    assert(rest.skip(8).subrange(0, 4) =~= rest.subrange(8, 12));
    assert(long.skip(8).subrange(0, 4) =~= rest.subrange(8, 12));
    lemma_at_extended(rest, more, 0, 8);
    lemma_at_extended(rest, more, 8, 4);
    let count = le_at(rest, 8, 4);
    assert forall|i: int| 0 <= i < count implies words_at(long, 12, count)[i] == words_at(
        rest,
        12,
        count,
    )[i] by {
        lemma_at_extended(rest, more, 12 + 8 * i, 8);
    }
    assert(words_at(long, 12, count) =~= words_at(rest, 12, count));
    assert(long.skip(sum_size(long)) =~= rest.skip(sum_size(rest)) + more);
}

proof fn lemma_group_extended(rest: Seq<u8>, more: Seq<u8>, field: &'static str, n: int)
    requires
        group_read_fault(rest, field, n) is None,
    ensures
        group_read_fault(rest + more, field, n) is None,
        group_rest(rest + more, n) == group_rest(rest, n) + more,
    decreases n,
{
    if n > 0 {
        lemma_sum_extended(rest, more, field);
        lemma_group_extended(rest.skip(sum_size(rest)), more, field, n - 1);
    }
}

proof fn lemma_header_extended(bytes: Seq<u8>, more: Seq<u8>, kind: SectionKind, maximum: usize)
    requires
        header_fault(bytes, kind, maximum) is None,
        bytes.len() + more.len() <= maximum,
    ensures
        header_fault(bytes + more, kind, maximum) is None,
        (bytes + more).skip(7) == bytes.skip(7) + more,
{
    assert((bytes + more).take(4) =~= bytes.take(4));
    lemma_at_extended(bytes, more, 5, 2);
    assert((bytes + more).skip(7) =~= bytes.skip(7) + more);
}

/// Law: nothing may follow a section. A section of physical statistics with more
/// bytes behind it is refused for these bytes, or for its size where it grows too
/// large.
pub proof fn law_nothing_follows_a_stats_section(bytes: Seq<u8>, more: Seq<u8>)
    requires
        stats_section_fault(bytes) is None,
        more.len() > 0,
    ensures
        stats_section_fault(bytes + more) == Some(
            if bytes.len() + more.len() <= MAX_PHYSICAL_STATS_SECTION_BYTES {
                CoreCodecError::TrailingBytes { remaining: more.len() as usize }
            } else {
                CoreCodecError::OversizedSection {
                    section: section_name(SectionKind::PhysicalStats),
                    actual: (bytes.len() + more.len()) as usize,
                    maximum: MAX_PHYSICAL_STATS_SECTION_BYTES,
                }
            },
        ),
{
    if bytes.len() + more.len() <= MAX_PHYSICAL_STATS_SECTION_BYTES {
        let kind = SectionKind::PhysicalStats;
        let payments = sums_part(bytes);
        let lines = group_rest(payments, 9);
        let deliveries = group_rest(lines, 9);
        lemma_header_extended(bytes, more, kind, MAX_PHYSICAL_STATS_SECTION_BYTES);
        assert(sums_part(bytes + more) =~= payments + more);
        lemma_group_extended(payments, more, "Payment/history amount", 9);
        lemma_group_extended(lines, more, "NewOrder line amount", 9);
        lemma_group_extended(deliveries, more, "Delivery customer amount", 9);
        assert(group_rest(deliveries, 9) + more =~= more);
    }
}

/// Law: every proper prefix of a section of physical statistics is refused.
pub proof fn law_no_prefix_is_a_stats_section(bytes: Seq<u8>, k: int)
    requires
        stats_section_fault(bytes) is None,
        0 <= k < bytes.len(),
    ensures
        stats_section_fault(bytes.take(k)) is Some,
{
    if stats_section_fault(bytes.take(k)) is None {
        law_nothing_follows_a_stats_section(bytes.take(k), bytes.skip(k));
        assert(bytes.take(k) + bytes.skip(k) =~= bytes);
    }
}

} // verus!
