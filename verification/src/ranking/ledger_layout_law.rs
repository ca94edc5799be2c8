//! The layout of a ledger's text.
use vstd::prelude::*;

use crate::fields::{all_hex, joined, law_hex_round_trip, lemma_hex_spans, text_lines};
use crate::ranking::ledger_event_text::{event_text, word_text};
use crate::ranking::ledger_rules::ledger_fault;
use crate::ranking::ledger_text::{
    ledger_line, ledger_text, named_line, partition_name, partition_values, words_text,
};
use crate::ranking::ledger_text_law::{
    lemma_text_lines, lemma_text_size, lemma_words_text, lemma_writable,
};
use crate::ranking::run_ledger::LedgerModel;
use crate::text::{decimal, hex_digits};

verus! {

/// Whether a line holds a list of amounts: its name, then eight lower-case
/// hexadecimal digits for each amount, in order, and nothing else.
pub open spec fn amounts_line(
    line: Seq<char>,
    name: Seq<char>,
    amounts: Seq<u32>,
    count: i64,
) -> bool {
    let start = name.len() + 1;
    &&& amounts.len() == count
    &&& line.len() == start + 8 * count
    &&& line.take(start as int) == name.push('=')
    &&& all_hex(line.skip(start as int))
    &&& forall|k: int|
        0 <= k < amounts.len() ==> line.skip(start as int).subrange(8 * k, 8 * k + 8)
            == hex_digits(#[trigger] amounts[k] as nat, 8)
}

proof fn lemma_words_at(words: Seq<u32>, k: int)
    requires
        0 <= k < words.len(),
    ensures
        words_text(words).len() == 8 * words.len(),
        words_text(words).subrange(8 * k, 8 * k + 8) == hex_digits(words[k] as nat, 8),
    decreases words.len(),
{
    let s = words_text(words);
    let head = words_text(words.drop_last());
    let last = word_text(words.last());
    lemma_words_text(words);
    lemma_words_text(words.drop_last());
    lemma_hex_spans();
    law_hex_round_trip(words.last() as nat, 8);
    assert(s == head + last);
    if k < words.len() - 1 {
        lemma_words_at(words.drop_last(), k);
        assert(s.subrange(8 * k, 8 * k + 8) =~= head.subrange(8 * k, 8 * k + 8));
    } else {
        assert(s.subrange(8 * k, 8 * k + 8) =~= last);
    }
}

proof fn lemma_amounts_line(name: Seq<char>, amounts: Seq<u32>, count: i64)
    requires
        amounts.len() == count,
    ensures
        amounts_line(named_line(name, words_text(amounts)), name, amounts, count),
{
    let text = words_text(amounts);
    let line = named_line(name, text);
    let start = name.len() as int + 1;
    lemma_words_text(amounts);
    assert(line.take(start) =~= name.push('='));
    assert(line.skip(start) =~= text);
    assert forall|k: int| 0 <= k < amounts.len() implies line.skip(start).subrange(
        8 * k,
        8 * k + 8,
    ) == hex_digits(#[trigger] amounts[k] as nat, 8) by {
        lemma_words_at(amounts, k);
    }
}

/// The key of a partition as it is written.
pub open spec fn partition_key_text(w: int, d: int) -> Seq<char> {
    "partition"@.push('.') + decimal(w as nat).push('.') + decimal(d as nat)
}

proof fn lemma_partition_name(w: int, d: int)
    requires
        1 <= w <= 50,
        1 <= d <= 10,
    ensures
        partition_name(10 * (w - 1) + d - 1) == partition_key_text(w, d),
{
    let i = 10 * (w - 1) + d - 1;
    assert(i / 10 + 1 == w && i % 10 + 1 == d);
    let parts = seq!["partition"@, decimal(w as nat), decimal(d as nat)];
    let two = parts.drop_last();
    assert(two.drop_last() =~= seq!["partition"@]);
    assert(joined(seq!["partition"@], '.') == "partition"@);
    assert(joined(two, '.') == joined(two.drop_last(), '.').push('.') + two.last());
    assert(joined(parts, '.') == joined(two, '.').push('.') + parts.last());
    assert(joined(parts, '.') =~= partition_key_text(w, d));
}

proof fn lemma_counts(m: LedgerModel)
    requires
        ledger_fault(m) is None,
    ensures
        m.new_order_line_amount_bits.len() == m.new_order_lines,
        m.payment_amount_bits.len() == m.payments,
        m.delivery_customer_amount_bits.len() == m.delivered_orders,
{
}

proof fn lemma_first_lines(m: LedgerModel)
    requires
        m.new_order_line_amount_bits.len() == m.new_order_lines,
        m.payment_amount_bits.len() == m.payments,
        m.delivery_customer_amount_bits.len() == m.delivered_orders,
    ensures
        ledger_line(m, 0) == "RMDB_TPCC_RUN_LEDGER_V2"@,
        amounts_line(
            ledger_line(m, 13),
            "new_order_line_amount_bits"@,
            m.new_order_line_amount_bits,
            m.new_order_lines,
        ),
        amounts_line(
            ledger_line(m, 14),
            "payment_amount_bits"@,
            m.payment_amount_bits,
            m.payments,
        ),
        amounts_line(
            ledger_line(m, 15),
            "delivery_customer_amount_bits"@,
            m.delivery_customer_amount_bits,
            m.delivered_orders,
        ),
{
    lemma_amounts_line(
        "new_order_line_amount_bits"@,
        m.new_order_line_amount_bits,
        m.new_order_lines,
    );
    lemma_amounts_line("payment_amount_bits"@, m.payment_amount_bits, m.payments);
    lemma_amounts_line(
        "delivery_customer_amount_bits"@,
        m.delivery_customer_amount_bits,
        m.delivered_orders,
    );
}

proof fn lemma_partition_line(m: LedgerModel, w: int, d: int)
    requires
        1 <= w <= 50,
        1 <= d <= 10,
    ensures
        ledger_line(m, 16 + 10 * (w - 1) + d - 1) == partition_key_text(w, d).push('=') + joined(
            partition_values(m.partitions[10 * (w - 1) + d - 1]),
            ',',
        ),
{
    lemma_partition_name(w, d);
}

proof fn lemma_event_line(m: LedgerModel, i: int)
    requires
        0 <= i,
    ensures
        ledger_line(m, 516 + i) == ("event."@ + decimal(i as nat)).push('=') + event_text(
            m.events[i],
        ),
{
}

/// The lines of a text are the lines that were written.
proof fn lemma_lines_written(m: LedgerModel)
    requires
        ledger_fault(m) is None,
        ledger_text(m).len() <= usize::MAX,
    ensures
        text_lines(ledger_text(m)).len() == 516 + m.events.len(),
        forall|k: int|
            0 <= k < 516 + m.events.len() ==> #[trigger] text_lines(ledger_text(m))[k]
                == ledger_line(m, k),
{
    lemma_text_size(m);
    lemma_writable(m);
    lemma_text_lines(m);
}

/// Law: the text of a consistent ledger has one header line, fifteen lines for the
/// run, five hundred for the partitions, in the order of their keys, and one for
/// each event, in order. Every amount stands as eight lower-case hexadecimal digits.
pub proof fn law_ledger_text_layout(m: LedgerModel)
    requires
        ledger_fault(m) is None,
        ledger_text(m).len() <= usize::MAX,
    ensures
        ({
            let lines = text_lines(ledger_text(m));
            &&& lines.len() == 516 + m.events.len()
            &&& lines[0] == "RMDB_TPCC_RUN_LEDGER_V2"@
            &&& amounts_line(
                lines[13],
                "new_order_line_amount_bits"@,
                m.new_order_line_amount_bits,
                m.new_order_lines,
            )
            &&& amounts_line(
                lines[14],
                "payment_amount_bits"@,
                m.payment_amount_bits,
                m.payments,
            )
            &&& amounts_line(
                lines[15],
                "delivery_customer_amount_bits"@,
                m.delivery_customer_amount_bits,
                m.delivered_orders,
            )
            &&& forall|w: int, d: int|
                1 <= w <= 50 && 1 <= d <= 10 ==> lines[16 + 10 * (w - 1) + d - 1]
                    == #[trigger] partition_key_text(w, d).push('=') + joined(
                    partition_values(m.partitions[10 * (w - 1) + d - 1]),
                    ',',
                )
            &&& forall|i: int|
                0 <= i < m.events.len() ==> lines[516 + i] == ("event."@ + decimal(
                    i as nat,
                )).push('=') + event_text(#[trigger] m.events[i])
        }),
{
    lemma_lines_written(m);
    lemma_counts(m);
    lemma_first_lines(m);
    let lines = text_lines(ledger_text(m));
    assert forall|w: int, d: int| 1 <= w <= 50 && 1 <= d <= 10 implies lines[16 + 10 * (w - 1) + d
        - 1] == #[trigger] partition_key_text(w, d).push('=') + joined(
        partition_values(m.partitions[10 * (w - 1) + d - 1]),
        ',',
    ) by {
        lemma_partition_line(m, w, d);
    }
    assert forall|i: int| 0 <= i < m.events.len() implies lines[516 + i] == ("event."@ + decimal(
        i as nat,
    )).push('=') + event_text(#[trigger] m.events[i]) by {
        lemma_event_line(m, i);
    }
}

} // verus!
