//! Reading the text of a consistent ledger gives the ledger back.
use vstd::prelude::*;

use crate::fields::{
    all_hex, free_of, is_hex_digit, joined, law_decimal_round_trip, law_hex_round_trip,
    law_lines_of_terminated, law_split_joined, lemma_hex_byte_len, lemma_hex_spans, number_value,
    terminated, text_lines,
};
use crate::ranking::ledger::{EventModel, PartitionDelta, amounts_fault, delta_fault, event_fault};
use crate::ranking::ledger_event_law::{
    is_mark, is_plain, law_event_text_round_trip, lemma_decimal_plain, lemma_joined_free,
    lemma_plain_free, plain,
};
use crate::ranking::ledger_event_text::{event_text, word_text};
use crate::ranking::ledger_rules::{
    amount_lists_fault, counters_fault, event_rules_fault, ledger_fault, partition_rules_fault,
};
use crate::ranking::ledger_text::{
    DecodeModel, amount_words_fault, assemble_fault, count_fault, count_of, counts_fault,
    decode_fault, decode_line_fault, decode_line_next, decode_lines_fault, decode_lines_next,
    decode_start, decode_value, decoded_ledger, event_key_fault, event_name, event_suffix,
    event_texts_fault, find_char, format_header, global_index, global_name, global_order,
    global_text, ledger_line, ledger_lines, ledger_text, line_key, line_value,
    missing_global_fault, missing_partition_fault, named_line, partition_delta_of,
    partition_key_fault, partition_key_position, partition_name, partition_value_fault,
    partition_values, starts_with, words_fault, words_of, words_text,
};
use crate::ranking::run_ledger::LedgerModel;
use crate::text::decimal;

verus! {

/// What the proofs use of the field names.
pub open spec fn name_facts() -> bool {
    &&& global_name(0).len() == 10 && global_name(0)[0] == 'n'
    &&& global_name(1).len() == 15 && global_name(1)[0] == 'n'
    &&& global_name(2).len() == 22 && global_name(2)[0] == 'r'
    &&& global_name(3).len() == 15 && global_name(3)[0] == 's'
    &&& global_name(4).len() == 8 && global_name(4)[0] == 'p'
    &&& global_name(5).len() == 16 && global_name(5)[0] == 'd' && global_name(5)[7] == 'y'
    &&& global_name(6).len() == 16 && global_name(6)[0] == 'd' && global_name(6)[7] == 'e'
    &&& global_name(7).len() == 21 && global_name(7)[0] == 'd'
    &&& global_name(8).len() == 20 && global_name(8)[0] == 'o'
    &&& global_name(9).len() == 19 && global_name(9)[0] == 's'
    &&& global_name(10).len() == 18 && global_name(10)[0] == 'e' && global_name(10)[1] == 'x'
    &&& global_name(11).len() == 26 && global_name(11)[0] == 'n'
    &&& global_name(12).len() == 19 && global_name(12)[0] == 'p' && global_name(12)[2] == 'y'
    &&& global_name(13).len() == 29 && global_name(13)[0] == 'd'
    &&& global_name(14).len() == 11 && global_name(14)[0] == 'e' && global_name(14)[1] == 'v'
    &&& global_name(14)[5] == '_'
}

proof fn lemma_name_facts()
    ensures
        name_facts(),
{
    reveal_strlit("new_orders");
    reveal_strlit("new_order_lines");
    reveal_strlit("remote_new_order_lines");
    reveal_strlit("stock_ytd_delta");
    reveal_strlit("payments");
    reveal_strlit("delivery_commits");
    reveal_strlit("delivered_orders");
    reveal_strlit("delivered_order_lines");
    reveal_strlit("order_status_commits");
    reveal_strlit("stock_level_commits");
    reveal_strlit("expected_rollbacks");
    reveal_strlit("new_order_line_amount_bits");
    reveal_strlit("payment_amount_bits");
    reveal_strlit("delivery_customer_amount_bits");
    reveal_strlit("event_count");
}

/// A letter, a digit or an underscore.
pub open spec fn is_word_char(c: char) -> bool {
    is_plain(c) || c == '_'
}

pub open spec fn wordy(s: Seq<char>) -> bool {
    forall|i: int| 0 <= i < s.len() ==> is_word_char(#[trigger] s[i])
}

proof fn lemma_names_wordy_a()
    ensures
        wordy("new_orders"@),
        wordy("new_order_lines"@),
        wordy("remote_new_order_lines"@),
        wordy("stock_ytd_delta"@),
        wordy("payments"@),
{
    reveal_strlit("new_orders");
    reveal_strlit("new_order_lines");
    reveal_strlit("remote_new_order_lines");
    reveal_strlit("stock_ytd_delta");
    reveal_strlit("payments");
}

proof fn lemma_names_wordy_b()
    ensures
        wordy("delivery_commits"@),
        wordy("delivered_orders"@),
        wordy("delivered_order_lines"@),
        wordy("order_status_commits"@),
        wordy("stock_level_commits"@),
{
    reveal_strlit("delivery_commits");
    reveal_strlit("delivered_orders");
    reveal_strlit("delivered_order_lines");
    reveal_strlit("order_status_commits");
    reveal_strlit("stock_level_commits");
}

proof fn lemma_names_wordy_c()
    ensures
        wordy("expected_rollbacks"@),
        wordy("new_order_line_amount_bits"@),
        wordy("payment_amount_bits"@),
        wordy("delivery_customer_amount_bits"@),
        wordy("event_count"@),
{
    reveal_strlit("expected_rollbacks");
    reveal_strlit("new_order_line_amount_bits");
    reveal_strlit("payment_amount_bits");
    reveal_strlit("delivery_customer_amount_bits");
    reveal_strlit("event_count");
}

proof fn lemma_global_name(i: int)
    requires
        0 <= i < 15,
    ensures
        wordy(global_name(i)),
        global_index(global_name(i), 0) == Some(i),
        !starts_with(global_name(i), "partition."@),
        !starts_with(global_name(i), "event."@),
        global_name(i).len() > 0,
{
    lemma_names_wordy_a();
    lemma_names_wordy_b();
    lemma_names_wordy_c();
    lemma_name_facts();
    reveal_strlit("partition.");
    reveal_strlit("event.");
    assert(i == 0 || i == 1 || i == 2 || i == 3 || i == 4 || i == 5 || i == 6 || i == 7 || i == 8
        || i == 9 || i == 10 || i == 11 || i == 12 || i == 13 || i == 14);
    let name = global_name(i);
    if starts_with(name, "partition."@) {
        let head = name.subrange(0, 10);
        assert(head[0] == name[0] && head[2] == name[2]);
        assert("partition."@[0] == 'p' && "partition."@[2] == 'r');
    }
    if starts_with(name, "event."@) {
        let head = name.subrange(0, 6);
        assert(head[0] == name[0] && head[1] == name[1] && head[5] == name[5]);
        assert("event."@[0] == 'e' && "event."@[1] == 'v' && "event."@[5] == '.');
    }
    lemma_global_index_from(i, 0);
}

proof fn lemma_global_index_from(i: int, j: int)
    requires
        0 <= j <= i < 15,
        name_facts(),
    ensures
        global_index(global_name(i), j) == Some(i),
    decreases i - j,
{
    if j < i {
        lemma_names_differ(j, i);
        lemma_global_index_from(i, j + 1);
    }
}

proof fn lemma_names_differ(j: int, i: int)
    requires
        0 <= j < i < 15,
        name_facts(),
    ensures
        global_name(j) != global_name(i),
{
    assert(j == 0 || j == 1 || j == 2 || j == 3 || j == 4 || j == 5 || j == 6 || j == 7 || j == 8
        || j == 9 || j == 10 || j == 11 || j == 12 || j == 13);
    assert(i == 1 || i == 2 || i == 3 || i == 4 || i == 5 || i == 6 || i == 7 || i == 8 || i == 9
        || i == 10 || i == 11 || i == 12 || i == 13 || i == 14);
    if global_name(j) == global_name(i) {
        assert(global_name(j).len() == global_name(i).len());
        assert(global_name(j)[0] == global_name(i)[0]);
        assert(global_name(j)[7] == global_name(i)[7]);
    }
}

proof fn lemma_wordy_free(s: Seq<char>, other: char)
    requires
        wordy(s),
        is_mark(other),
    ensures
        free_of(s, other),
{
    assert forall|i: int| 0 <= i < s.len() implies #[trigger] s[i] != other by {
        assert(is_word_char(s[i]));
    }
}

proof fn lemma_find_char(s: Seq<char>, c: char, at: int, i: int)
    requires
        0 <= i <= at < s.len(),
        s[at] == c,
        forall|k: int| 0 <= k < at ==> #[trigger] s[k] != c,
    ensures
        find_char(s, c, i) == Some(at),
    decreases at - i,
{
    if i < at {
        assert(s[i] != c);
        lemma_find_char(s, c, at, i + 1);
    }
}

/// A named line splits into its key and value.
proof fn lemma_named_line(key: Seq<char>, text: Seq<char>)
    requires
        free_of(key, '='),
    ensures
        find_char(named_line(key, text), '=', 0) is Some,
        line_key(named_line(key, text)) == key,
        line_value(named_line(key, text)) == text,
        named_line(key, text).len() > 0,
{
    let line = named_line(key, text);
    assert(line[key.len() as int] == '=');
    assert forall|k: int| 0 <= k < key.len() implies #[trigger] line[k] != '=' by {
        assert(line[k] == key[k]);
    }
    lemma_find_char(line, '=', key.len() as int, 0);
    assert(line_key(line) =~= key);
    assert(line_value(line) =~= text);
}

proof fn lemma_named_line_free(key: Seq<char>, text: Seq<char>)
    requires
        free_of(key, '\n'),
        free_of(text, '\n'),
    ensures
        free_of(named_line(key, text), '\n'),
{
    let line = named_line(key, text);
    assert forall|k: int| 0 <= k < line.len() implies #[trigger] line[k] != '\n' by {
        if k < key.len() {
            assert(line[k] == key[k]);
        } else if k > key.len() {
            assert(line[k] == text[k - key.len() - 1]);
        }
    }
}

/// The words of a rendered list are the list.
pub proof fn lemma_words_text(words: Seq<u32>)
    ensures
        words_text(words).len() == 8 * words.len(),
        all_hex(words_text(words)),
        words_of(words_text(words)) == words,
        plain(words_text(words)),
    decreases words.len(),
{
    let s = words_text(words);
    if words.len() > 0 {
        let rest = words.drop_last();
        lemma_words_text(rest);
        lemma_hex_spans();
        let last = word_text(words.last());
        law_hex_round_trip(words.last() as nat, 8);
        let head = words_text(rest);
        assert forall|i: int| 0 <= i < s.len() implies is_hex_digit(#[trigger] s[i]) by {
            if i < head.len() {
                assert(s[i] == head[i]);
            } else {
                assert(s[i] == last[i - head.len()]);
            }
        }
        assert forall|i: int| 0 <= i < words.len() implies words_of(s)[i] == words[i] by {
            if i < rest.len() {
                assert(s.subrange(8 * i, 8 * i + 8) =~= head.subrange(8 * i, 8 * i + 8));
                assert(words_of(head)[i] == rest[i]);
            } else {
                assert(s.subrange(8 * i, 8 * i + 8) =~= last);
            }
        }
    }
    assert(words_of(s) =~= words);
    assert forall|i: int| 0 <= i < s.len() implies is_plain(#[trigger] s[i]) by {
        assert(is_hex_digit(s[i]));
    }
}

/// Every counter of a consistent ledger is non-negative.
proof fn lemma_global_text(m: LedgerModel, i: int)
    requires
        counters_fault(m) is None,
        0 <= i < 15,
    ensures
        plain(global_text(m, i)),
{
    assert(i == 0 || i == 1 || i == 2 || i == 3 || i == 4 || i == 5 || i == 6 || i == 7 || i == 8
        || i == 9 || i == 10 || i == 11 || i == 12 || i == 13 || i == 14);
    lemma_decimal_plain(m.new_orders as nat);
    lemma_decimal_plain(m.new_order_lines as nat);
    lemma_decimal_plain(m.remote_new_order_lines as nat);
    lemma_decimal_plain(m.stock_ytd_delta as nat);
    lemma_decimal_plain(m.payments as nat);
    lemma_decimal_plain(m.delivery_commits as nat);
    lemma_decimal_plain(m.delivered_orders as nat);
    lemma_decimal_plain(m.delivered_order_lines as nat);
    lemma_decimal_plain(m.order_status_commits as nat);
    lemma_decimal_plain(m.stock_level_commits as nat);
    lemma_decimal_plain(m.expected_rollbacks as nat);
    lemma_decimal_plain(m.events.len());
    lemma_words_text(m.new_order_line_amount_bits);
    lemma_words_text(m.payment_amount_bits);
    lemma_words_text(m.delivery_customer_amount_bits);
}

proof fn lemma_partition_key(i: int)
    requires
        0 <= i < 500,
    ensures
        starts_with(partition_name(i), "partition."@),
        partition_key_fault(partition_name(i)) is None,
        partition_key_position(partition_name(i)) == i,
        free_of(partition_name(i), '='),
        free_of(partition_name(i), '\n'),
{
    let w = (i / 10 + 1) as nat;
    let d = (i % 10 + 1) as nat;
    let parts = seq!["partition"@, decimal(w), decimal(d)];
    reveal_strlit("partition");
    reveal_strlit("partition.");
    assert(plain("partition"@));
    lemma_decimal_plain(w);
    lemma_decimal_plain(d);
    law_decimal_round_trip(w);
    law_decimal_round_trip(d);
    assert forall|k: int| 0 <= k < parts.len() implies free_of(#[trigger] parts[k], '.')
        && free_of(parts[k], '=') && free_of(parts[k], '\n') by {
        assert(k == 0 || k == 1 || k == 2);
        lemma_plain_free(parts[k], '.');
        lemma_plain_free(parts[k], '=');
        lemma_plain_free(parts[k], '\n');
    }
    law_split_joined(parts, '.');
    lemma_joined_free(parts, '.', '=');
    lemma_joined_free(parts, '.', '\n');
    let key = partition_name(i);
    assert(parts.drop_last() =~= seq!["partition"@, decimal(w)]);
    assert(parts.drop_last().drop_last() =~= seq!["partition"@]);
    assert(joined(parts.drop_last().drop_last(), '.') == "partition"@);
    assert(joined(parts.drop_last(), '.') == "partition"@.push('.') + decimal(w));
    assert(key == ("partition"@.push('.') + decimal(w)).push('.') + decimal(d));
    assert(key.subrange(0, 10) =~= "partition."@);
}

proof fn lemma_partition_value(key: Seq<char>, delta: PartitionDelta)
    requires
        delta_fault(delta) is None,
    ensures
        partition_value_fault(key, joined(partition_values(delta), ',')) is None,
        partition_delta_of(joined(partition_values(delta), ',')) == delta,
        free_of(joined(partition_values(delta), ','), '\n'),
{
    let values = partition_values(delta);
    lemma_decimal_plain(delta.new_orders as nat);
    lemma_decimal_plain(delta.new_order_lines as nat);
    lemma_decimal_plain(delta.delivered_orders as nat);
    lemma_decimal_plain(delta.delivered_order_lines as nat);
    law_decimal_round_trip(delta.new_orders as nat);
    law_decimal_round_trip(delta.new_order_lines as nat);
    law_decimal_round_trip(delta.delivered_orders as nat);
    law_decimal_round_trip(delta.delivered_order_lines as nat);
    assert forall|k: int| 0 <= k < values.len() implies free_of(#[trigger] values[k], ',')
        && free_of(values[k], '\n') by {
        assert(k == 0 || k == 1 || k == 2 || k == 3);
        lemma_plain_free(values[k], ',');
        lemma_plain_free(values[k], '\n');
    }
    law_split_joined(values, ',');
    lemma_joined_free(values, ',', '\n');
}

proof fn lemma_event_key(i: int)
    requires
        0 <= i <= usize::MAX,
    ensures
        !starts_with(event_name(i), "partition."@),
        starts_with(event_name(i), "event."@),
        event_key_fault(event_name(i)) is None,
        number_value(event_suffix(event_name(i))) == i,
        free_of(event_name(i), '='),
        free_of(event_name(i), '\n'),
{
    let key = event_name(i);
    reveal_strlit("event.");
    reveal_strlit("partition.");
    lemma_decimal_plain(i as nat);
    law_decimal_round_trip(i as nat);
    assert(key.subrange(0, 6) =~= "event."@);
    assert(event_suffix(key) =~= decimal(i as nat));
    if starts_with(key, "partition."@) {
        assert(key.subrange(0, 10)[0] == key[0]);
        assert("partition."@[0] == 'p' && key[0] == 'e');
    }
    assert forall|k: int| 0 <= k < key.len() implies #[trigger] key[k] != '=' && key[k] != '\n' by {
        if k < 6 {
            assert(key[k] == "event."@[k]);
        } else {
            assert(key[k] == decimal(i as nat)[k - 6]);
            assert(is_plain(decimal(i as nat)[k - 6]));
        }
    }
}

/// Line on which a global field stands.
pub open spec fn global_position(i: int) -> int {
    if i < 11 {
        i + 1
    } else if i == 14 {
        12
    } else {
        i + 2
    }
}

/// The fields read before line `k`.
pub open spec fn fields_before(m: LedgerModel, k: int) -> DecodeModel {
    DecodeModel {
        globals: Seq::new(
            15,
            |i: int|
                if global_position(i) < k {
                    Some(global_text(m, i))
                } else {
                    None
                },
        ),
        partitions: Seq::new(
            500,
            |i: int|
                if i + 16 < k {
                    Some(m.partitions[i])
                } else {
                    None
                },
        ),
        events: Map::new(
            |i: usize| i + 516 < k,
            |i: usize| event_text(m.events[i as int]),
        ),
    }
}

/// The fields of a whole ledger.
pub open spec fn all_fields(m: LedgerModel) -> DecodeModel {
    fields_before(m, 516 + m.events.len() as int)
}

/// A ledger whose lists fit the machine.
pub open spec fn sized(m: LedgerModel) -> bool {
    &&& m.new_order_line_amount_bits.len() * 8 <= usize::MAX
    &&& m.payment_amount_bits.len() * 8 <= usize::MAX
    &&& m.delivery_customer_amount_bits.len() * 8 <= usize::MAX
    &&& m.events.len() <= usize::MAX
    &&& m.events.len() <= i64::MAX
}

/// A clean list of partitions has no faulty member.
proof fn lemma_partition_rule_clean(partitions: Seq<PartitionDelta>, i: int, k: int)
    requires
        0 <= i <= k < partitions.len(),
        partition_rules_fault(partitions, i) is None,
    ensures
        delta_fault(partitions[k]) is None,
    decreases k - i,
{
    if i < k {
        lemma_partition_rule_clean(partitions, i + 1, k);
    }
}

/// A clean list of events has no faulty member.
proof fn lemma_event_rule_clean(events: Seq<EventModel>, i: int, k: int)
    requires
        0 <= i <= k < events.len(),
        event_rules_fault(events, i) is None,
    ensures
        event_fault(events[k]) is None,
    decreases k - i,
{
    if i < k {
        lemma_event_rule_clean(events, i + 1, k);
    }
}

/// What the line lemmas use of a consistent ledger.
pub open spec fn writable(m: LedgerModel) -> bool {
    &&& counters_fault(m) is None
    &&& m.partitions.len() == 500
    &&& forall|p: int| 0 <= p < 500 ==> delta_fault(#[trigger] m.partitions[p]) is None
    &&& forall|e: int| 0 <= e < m.events.len() ==> event_fault(#[trigger] m.events[e]) is None
    &&& sized(m)
}

/// A consistent ledger that fits the machine can be written.
pub proof fn lemma_writable(m: LedgerModel)
    requires
        ledger_fault(m) is None,
        sized(m),
    ensures
        writable(m),
{
    assert forall|p: int| 0 <= p < 500 implies delta_fault(#[trigger] m.partitions[p]) is None by {
        lemma_partition_rule_clean(m.partitions, 0, p);
    }
    assert forall|e: int| 0 <= e < m.events.len() implies event_fault(#[trigger] m.events[e]) is None by {
        lemma_event_rule_clean(m.events, 0, e);
    }
}

proof fn lemma_global_line(m: LedgerModel, k: int)
    requires
        writable(m),
        1 <= k < 16,
    ensures
        free_of(ledger_line(m, k), '\n'),
        decode_line_fault(fields_before(m, k), ledger_line(m, k)) is None,
        decode_line_next(fields_before(m, k), ledger_line(m, k)) == fields_before(m, k + 1),
{
    let i = global_order(k - 1);
    assert(global_position(i) == k);
    lemma_global_name(i);
    lemma_global_text(m, i);
    lemma_wordy_free(global_name(i), '=');
    lemma_wordy_free(global_name(i), '\n');
    lemma_plain_free(global_text(m, i), '\n');
    lemma_named_line(global_name(i), global_text(m, i));
    lemma_named_line_free(global_name(i), global_text(m, i));
    let before = fields_before(m, k);
    let after = fields_before(m, k + 1);
    let next = decode_line_next(before, ledger_line(m, k));
    assert(before.globals[i] is None);
    assert forall|j: int| 0 <= j < 15 implies next.globals[j] == after.globals[j] by {
        if j != i {
            assert(global_position(j) != k);
        }
    }
    assert(next.globals =~= after.globals);
    assert(next.partitions =~= after.partitions);
    assert(next.events =~= after.events);
}

proof fn lemma_partition_line(m: LedgerModel, k: int)
    requires
        writable(m),
        16 <= k < 516,
    ensures
        free_of(ledger_line(m, k), '\n'),
        decode_line_fault(fields_before(m, k), ledger_line(m, k)) is None,
        decode_line_next(fields_before(m, k), ledger_line(m, k)) == fields_before(m, k + 1),
{
    let i = k - 16;
    assert(delta_fault(m.partitions[i]) is None);
    lemma_partition_key(i);
    lemma_partition_value(partition_name(i), m.partitions[i]);
    let text = joined(partition_values(m.partitions[i]), ',');
    lemma_named_line(partition_name(i), text);
    lemma_named_line_free(partition_name(i), text);
    let before = fields_before(m, k);
    let after = fields_before(m, k + 1);
    let next = decode_line_next(before, ledger_line(m, k));
    assert(next.globals =~= after.globals);
    assert(next.partitions =~= after.partitions);
    assert(next.events =~= after.events);
}

proof fn lemma_event_line(m: LedgerModel, k: int)
    requires
        writable(m),
        516 <= k < 516 + m.events.len(),
    ensures
        free_of(ledger_line(m, k), '\n'),
        decode_line_fault(fields_before(m, k), ledger_line(m, k)) is None,
        decode_line_next(fields_before(m, k), ledger_line(m, k)) == fields_before(m, k + 1),
{
    let i = k - 516;
    assert(event_fault(m.events[i]) is None);
    lemma_event_key(i);
    law_event_text_round_trip(m.events[i]);
    let text = event_text(m.events[i]);
    lemma_named_line(event_name(i), text);
    lemma_named_line_free(event_name(i), text);
    let before = fields_before(m, k);
    let after = fields_before(m, k + 1);
    let next = decode_line_next(before, ledger_line(m, k));
    assert(next.globals =~= after.globals);
    assert(next.partitions =~= after.partitions);
    assert(next.events =~= after.events);
}

proof fn lemma_line(m: LedgerModel, k: int)
    requires
        writable(m),
        1 <= k < 516 + m.events.len(),
    ensures
        free_of(ledger_line(m, k), '\n'),
        decode_line_fault(fields_before(m, k), ledger_line(m, k)) is None,
        decode_line_next(fields_before(m, k), ledger_line(m, k)) == fields_before(m, k + 1),
{
    if k < 16 {
        lemma_global_line(m, k);
    } else if k < 516 {
        lemma_partition_line(m, k);
    } else {
        lemma_event_line(m, k);
    }
}

proof fn lemma_lines(m: LedgerModel, k: int)
    requires
        writable(m),
        1 <= k <= 516 + m.events.len(),
    ensures
        decode_lines_fault(fields_before(m, k), ledger_lines(m), k) is None,
        decode_lines_next(fields_before(m, k), ledger_lines(m), k) == all_fields(m),
    decreases 516 + m.events.len() - k,
{
    if k < 516 + m.events.len() {
        lemma_line(m, k);
        lemma_lines(m, k + 1);
    }
}

proof fn lemma_missing_none(m: LedgerModel, i: int, p: int)
    requires
        0 <= i <= 15,
        0 <= p <= 500,
    ensures
        missing_global_fault(all_fields(m), i) is None,
        missing_partition_fault(all_fields(m), p) is None,
    decreases 515 - i - p,
{
    if i < 15 {
        lemma_missing_none(m, i + 1, p);
    } else if p < 500 {
        lemma_missing_none(m, i, p + 1);
    }
}

/// The counter behind a counter field.
pub open spec fn counter(m: LedgerModel, i: int) -> i64 {
    if i == 0 {
        m.new_orders
    } else if i == 1 {
        m.new_order_lines
    } else if i == 2 {
        m.remote_new_order_lines
    } else if i == 3 {
        m.stock_ytd_delta
    } else if i == 4 {
        m.payments
    } else if i == 5 {
        m.delivery_commits
    } else if i == 6 {
        m.delivered_orders
    } else if i == 7 {
        m.delivered_order_lines
    } else if i == 8 {
        m.order_status_commits
    } else if i == 9 {
        m.stock_level_commits
    } else {
        m.expected_rollbacks
    }
}

proof fn lemma_counter(m: LedgerModel, i: int)
    requires
        counters_fault(m) is None,
        0 <= i < 11,
    ensures
        counter(m, i) >= 0,
        global_text(m, i) == decimal(counter(m, i) as nat),
        count_of(all_fields(m), i) == counter(m, i),
        count_fault(
            global_name(i),
            all_fields(m).globals[i]->0,
        ) is None,
{
    assert(i == 0 || i == 1 || i == 2 || i == 3 || i == 4 || i == 5 || i == 6 || i == 7 || i == 8
        || i == 9 || i == 10);
    law_decimal_round_trip(counter(m, i) as nat);
}

proof fn lemma_counts_clean(m: LedgerModel, i: int)
    requires
        counters_fault(m) is None,
        0 <= i <= 11,
    ensures
        counts_fault(all_fields(m), i) is None,
    decreases 11 - i,
{
    if i < 11 {
        lemma_counter(m, i);
        lemma_counts_clean(m, i + 1);
    }
}

proof fn lemma_events_clean(m: LedgerModel, i: int)
    requires
        writable(m),
        0 <= i <= m.events.len(),
    ensures
        event_texts_fault(
            all_fields(m).events,
            m.events.len(),
            i,
        ) is None,
    decreases m.events.len() - i,
{
    if i < m.events.len() {
        assert(event_fault(m.events[i]) is None);
        law_event_text_round_trip(m.events[i]);
        lemma_events_clean(m, i + 1);
    }
}

proof fn lemma_index_map_len(n: nat, events: Map<usize, Seq<char>>)
    requires
        n <= usize::MAX,
        forall|i: usize| #[trigger] events.contains_key(i) <==> i < n,
    ensures
        events.len() == n,
    decreases n,
{
    if n == 0 {
        assert(events.dom() =~= Set::<usize>::empty());
    } else {
        let last = (n - 1) as usize;
        let rest = events.remove(last);
        lemma_index_map_len((n - 1) as nat, rest);
        assert(events.dom() =~= rest.dom().insert(last));
        assert(!rest.dom().contains(last));
        lemma_index_map_finite((n - 1) as nat, rest);
    }
}

proof fn lemma_index_map_finite(n: nat, events: Map<usize, Seq<char>>)
    requires
        n <= usize::MAX,
        forall|i: usize| #[trigger] events.contains_key(i) <==> i < n,
    ensures
        events.dom().finite(),
    decreases n,
{
    if n == 0 {
        assert(events.dom() =~= Set::<usize>::empty());
    } else {
        let last = (n - 1) as usize;
        let rest = events.remove(last);
        lemma_index_map_finite((n - 1) as nat, rest);
        assert(events.dom() =~= rest.dom().insert(last));
    }
}

proof fn lemma_words_clean(field: Seq<char>, name: Seq<char>, words: Seq<u32>, count: i64)
    requires
        words.len() == count,
        words.len() * 8 <= usize::MAX,
        amounts_fault(name, words, 0) is None,
    ensures
        words_fault(field, words_text(words), count) is None,
        words_of(words_text(words)) == words,
{
    lemma_words_text(words);
    lemma_hex_byte_len(words_text(words));
    lemma_amounts_any_name(field, name, words, 0);
}

proof fn lemma_amounts_any_name(field: Seq<char>, name: Seq<char>, words: Seq<u32>, i: int)
    requires
        0 <= i <= words.len(),
        amounts_fault(name, words, i) is None,
    ensures
        amounts_fault(field, words, i) is None,
    decreases words.len() - i,
{
    if i < words.len() {
        lemma_amounts_any_name(field, name, words, i + 1);
    }
}

proof fn lemma_amount_words(m: LedgerModel)
    requires
        ledger_fault(m) is None,
        writable(m),
    ensures
        amount_words_fault(all_fields(m)) is None,
        words_of(all_fields(m).globals[11]->0)
            == m.new_order_line_amount_bits,
        words_of(all_fields(m).globals[12]->0) == m.payment_amount_bits,
        words_of(all_fields(m).globals[13]->0)
            == m.delivery_customer_amount_bits,
{
    lemma_counter(m, 1);
    lemma_counter(m, 4);
    lemma_counter(m, 6);
    assert(amount_lists_fault(m) is None);
    lemma_words_clean(
        "new_order_line_amount_bits"@,
        "NewOrder line amount"@,
        m.new_order_line_amount_bits,
        m.new_order_lines,
    );
    lemma_words_clean(
        "payment_amount_bits"@,
        "Payment amount"@,
        m.payment_amount_bits,
        m.payments,
    );
    lemma_words_clean(
        "delivery_customer_amount_bits"@,
        "Delivery customer amount"@,
        m.delivery_customer_amount_bits,
        m.delivered_orders,
    );
}

proof fn lemma_decoded(m: LedgerModel)
    requires
        ledger_fault(m) is None,
        writable(m),
    ensures
        decoded_ledger(all_fields(m)) == m,
{
    let fields = all_fields(m);
    let back = decoded_ledger(fields);
    lemma_amount_words(m);
    lemma_counter(m, 0);
    lemma_counter(m, 1);
    lemma_counter(m, 2);
    lemma_counter(m, 3);
    lemma_counter(m, 4);
    lemma_counter(m, 5);
    lemma_counter(m, 6);
    lemma_counter(m, 7);
    lemma_counter(m, 8);
    lemma_counter(m, 9);
    lemma_counter(m, 10);
    law_decimal_round_trip(m.events.len());
    assert(number_value(fields.globals[14]->0) == m.events.len());
    assert(back.partitions =~= m.partitions);
    assert forall|i: int| 0 <= i < m.events.len() implies back.events[i] == m.events[i] by {
        assert(event_fault(m.events[i]) is None);
        law_event_text_round_trip(m.events[i]);
        assert(fields.events[i as usize] == event_text(m.events[i]));
    }
    assert(back.events =~= m.events);
    assert(back =~= m);
}

proof fn lemma_assemble(m: LedgerModel)
    requires
        ledger_fault(m) is None,
        writable(m),
    ensures
        assemble_fault(all_fields(m)) is None,
{
    let fields = all_fields(m);
    lemma_missing_none(m, 0, 0);
    lemma_counts_clean(m, 0);
    law_decimal_round_trip(m.events.len());
    assert(number_value(fields.globals[14]->0) == m.events.len());
    lemma_index_map_len(m.events.len(), fields.events);
    lemma_events_clean(m, 0);
    lemma_amount_words(m);
    lemma_decoded(m);
}

proof fn lemma_header_free()
    ensures
        free_of(format_header(), '\n'),
{
    reveal_strlit("RMDB_TPCC_RUN_LEDGER_V2");
}

/// The lines of a text are the lines that were written.
pub proof fn lemma_text_lines(m: LedgerModel)
    requires
        writable(m),
    ensures
        text_lines(ledger_text(m)) == ledger_lines(m),
{
    let lines = ledger_lines(m);
    lemma_header_free();
    assert forall|k: int| 0 <= k < lines.len() implies free_of(#[trigger] lines[k], '\n') by {
        if k > 0 {
            lemma_line(m, k);
        }
    }
    law_lines_of_terminated(lines);
}

proof fn lemma_fields_start(m: LedgerModel)
    ensures
        fields_before(m, 1) == decode_start(),
{
    assert(fields_before(m, 1).globals =~= decode_start().globals);
    assert(fields_before(m, 1).partitions =~= decode_start().partitions);
    assert(fields_before(m, 1).events =~= decode_start().events);
}

proof fn lemma_decode_steps(m: LedgerModel)
    requires
        ledger_fault(m) is None,
        sized(m),
    ensures
        text_lines(ledger_text(m)) == ledger_lines(m),
        decode_lines_fault(decode_start(), ledger_lines(m), 1) is None,
        decode_lines_next(decode_start(), ledger_lines(m), 1) == all_fields(m),
        assemble_fault(all_fields(m)) is None,
        decoded_ledger(all_fields(m)) == m,
{
    lemma_writable(m);
    lemma_text_lines(m);
    lemma_fields_start(m);
    lemma_lines(m, 1);
    lemma_assemble(m);
    lemma_decoded(m);
}

proof fn lemma_terminated_len(lines: Seq<Seq<char>>, k: int)
    requires
        0 <= k < lines.len(),
    ensures
        lines[k].len() <= terminated(lines).len(),
    decreases lines.len(),
{
    if k < lines.len() - 1 {
        lemma_terminated_len(lines.drop_last(), k);
    }
}

proof fn lemma_terminated_count(lines: Seq<Seq<char>>)
    requires
        forall|k: int| 1 <= k < lines.len() ==> (#[trigger] lines[k]).len() > 0,
    ensures
        2 * lines.len() <= terminated(lines).len() + 1,
    decreases lines.len(),
{
    if lines.len() > 0 {
        let front = lines.drop_last();
        assert forall|k: int| 1 <= k < front.len() implies (#[trigger] front[k]).len() > 0 by {
            assert(lines[k].len() > 0);
        }
        lemma_terminated_count(front);
        if lines.len() > 1 {
            assert(lines[lines.len() - 1].len() > 0);
        }
    }
}

/// A ledger whose text fits the machine fits it too.
pub proof fn lemma_text_size(m: LedgerModel)
    requires
        ledger_text(m).len() <= usize::MAX,
    ensures
        sized(m),
{
    let lines = ledger_lines(m);
    lemma_terminated_len(lines, 13);
    lemma_terminated_len(lines, 14);
    lemma_terminated_len(lines, 15);
    assert(lines[13] == ledger_line(m, 13));
    assert(lines[14] == ledger_line(m, 14));
    assert(lines[15] == ledger_line(m, 15));
    lemma_words_text(m.new_order_line_amount_bits);
    lemma_words_text(m.payment_amount_bits);
    lemma_words_text(m.delivery_customer_amount_bits);
    lemma_terminated_count(lines);
}

/// Reading the text of a consistent ledger gives the ledger back, and so its
/// text is reproduced letter for letter. The text has to fit the machine, as
/// every text does that is written or read.
pub proof fn law_ledger_text_round_trip(m: LedgerModel)
    requires
        ledger_fault(m) is None,
        ledger_text(m).len() <= usize::MAX,
    ensures
        decode_fault(ledger_text(m)) is None,
        decode_value(ledger_text(m)) == m,
        ledger_text(decode_value(ledger_text(m))) == ledger_text(m),
{
    lemma_text_size(m);
    lemma_decode_steps(m);
    let lines = ledger_lines(m);
    assert(lines.len() > 0 && lines[0] == format_header());
    assert(decode_value(ledger_text(m)) == m);
}

/// A text that is read as a ledger was a consistent one.
pub proof fn law_decoded_ledger_is_consistent(s: Seq<char>)
    requires
        decode_fault(s) is None,
    ensures
        ledger_fault(decode_value(s)) is None,
{
}

} // verus!
