//! Parsing the text of a valid event gives the event back.
use vstd::prelude::*;

use crate::fields::{
    all_digits, all_free_of, free_of, hex_span, is_digit, is_hex_digit, joined,
    law_decimal_round_trip, law_hex_round_trip, law_split_joined, lemma_hex_spans, split_on,
};
use crate::ranking::ledger::{
    DeliveredOrderDelta, EventModel, LedgerClass, LedgerEventMeta, NewOrderLineDelta,
    NewOrderModel, PaymentDelta, event_fault, meta_fault, payment_fault,
};
use crate::ranking::ledger_event_text::{
    FieldRule, class_text, delivery_rules, event_of, event_sections, event_text, field_fault,
    field_value, fields_fault, kind_sections_fault, lemma_kinds_differ, line_of, line_rows_fault,
    line_rules, line_texts, line_values, lines_of, meta_of, meta_text, meta_text_fault,
    new_order_header, new_order_rules, number_rule, order_of, order_rows_fault, order_rules,
    order_texts, order_values, orders_of, payment_of, payment_rules, payment_values,
    rollback_rules, row_fault, row_shape, row_value, section_rows, sections_fault, text_class,
    word_text,
};
use crate::ranking::run_ledger::lemma_delivered_order_fault_none;
use crate::text::{decimal, digit, hex_digits, signed_decimal};

verus! {

/// A letter or a digit.
pub open spec fn is_plain(c: char) -> bool {
    '0' <= c <= '9' || 'a' <= c <= 'z' || 'A' <= c <= 'Z'
}

/// Letters and digits only.
pub open spec fn plain(s: Seq<char>) -> bool {
    forall|i: int| 0 <= i < s.len() ==> is_plain(#[trigger] s[i])
}

/// A field text that keeps its rule and holds `v`.
pub open spec fn good(s: Seq<char>, rule: FieldRule, v: nat) -> bool {
    plain(s) && s.len() > 0 && field_fault(s, rule) is None && field_value(s, rule) == v
}

pub proof fn lemma_decimal_plain(n: nat)
    ensures
        plain(decimal(n)),
        decimal(n).len() > 0,
        all_digits(decimal(n)),
{
    law_decimal_round_trip(n);
    let s = decimal(n);
    assert forall|i: int| 0 <= i < s.len() implies is_plain(#[trigger] s[i]) by {
        assert(is_digit(s[i]));
    }
}

proof fn lemma_hex_plain(n: nat, width: nat)
    requires
        n < hex_span(width),
    ensures
        plain(hex_digits(n, width)),
{
    law_hex_round_trip(n, width);
    let s = hex_digits(n, width);
    assert forall|i: int| 0 <= i < s.len() implies is_plain(#[trigger] s[i]) by {
        assert(is_hex_digit(s[i]));
    }
}

proof fn lemma_number_good(n: nat, rule: FieldRule)
    requires
        !rule.hex,
        n <= rule.max,
    ensures
        good(decimal(n), rule, n),
        good(signed_decimal(n as int), rule, n),
{
    law_decimal_round_trip(n);
    lemma_decimal_plain(n);
}

proof fn lemma_word_good(bits: u32, rule: FieldRule)
    requires
        rule.hex,
    ensures
        good(word_text(bits), rule, bits as nat),
{
    lemma_hex_spans();
    law_hex_round_trip(bits as nat, 8);
    lemma_hex_plain(bits as nat, 8);
}

/// Joined parts hold a character only if a part does or it is the separator.
pub proof fn lemma_joined_free(parts: Seq<Seq<char>>, sep: char, other: char)
    requires
        all_free_of(parts, other),
        sep != other,
    ensures
        free_of(joined(parts, sep), other),
    decreases parts.len(),
{
    if parts.len() == 0 {
    } else if parts.len() == 1 {
        assert(free_of(parts[0], other));
    } else {
        let rest = parts.drop_last();
        assert(all_free_of(rest, other)) by {
            assert forall|i: int| 0 <= i < rest.len() implies free_of(#[trigger] rest[i], other) by {
                assert(free_of(parts[i], other));
            }
        }
        lemma_joined_free(rest, sep, other);
        assert(free_of(parts[parts.len() - 1], other));
        let head = joined(rest, sep);
        let whole = head.push(sep) + parts.last();
        assert forall|i: int| 0 <= i < whole.len() implies #[trigger] whole[i] != other by {
            if i < head.len() {
                assert(whole[i] == head[i]);
            } else if i == head.len() {
            } else {
                assert(whole[i] == parts.last()[i - head.len() - 1]);
            }
        }
    }
}

pub proof fn lemma_joined_nonempty(parts: Seq<Seq<char>>, sep: char)
    requires
        parts.len() >= 1,
        forall|i: int| 0 <= i < parts.len() ==> (#[trigger] parts[i]).len() > 0,
    ensures
        joined(parts, sep).len() > 0,
{
    if parts.len() == 1 {
        assert(parts[0].len() > 0);
    } else {
        assert(parts[parts.len() - 1].len() > 0);
    }
}

pub open spec fn is_mark(c: char) -> bool {
    c == ',' || c == ';' || c == '|' || c == '\n' || c == '=' || c == '.'
}

pub proof fn lemma_plain_free(s: Seq<char>, other: char)
    requires
        plain(s),
        is_mark(other),
    ensures
        free_of(s, other),
{
    assert forall|i: int| 0 <= i < s.len() implies #[trigger] s[i] != other by {
        assert(is_plain(s[i]));
    }
}

proof fn lemma_all_plain_free(parts: Seq<Seq<char>>, other: char)
    requires
        forall|i: int| 0 <= i < parts.len() ==> plain(#[trigger] parts[i]),
        is_mark(other),
    ensures
        all_free_of(parts, other),
{
    assert forall|i: int| 0 <= i < parts.len() implies free_of(#[trigger] parts[i], other) by {
        lemma_plain_free(parts[i], other);
    }
}

/// What holds of a joined row of plain values.
proof fn lemma_plain_row(values: Seq<Seq<char>>)
    requires
        values.len() >= 1,
        forall|i: int|
            0 <= i < values.len() ==> plain(#[trigger] values[i]) && values[i].len() > 0,
    ensures
        split_on(joined(values, ','), ',') == values,
        row_shape(joined(values, ','), values.len()),
        joined(values, ',').len() > 0,
        free_of(joined(values, ','), '|'),
        free_of(joined(values, ','), ';'),
        free_of(joined(values, ','), '\n'),
{
    lemma_all_plain_free(values, ',');
    lemma_all_plain_free(values, '|');
    lemma_all_plain_free(values, ';');
    lemma_all_plain_free(values, '\n');
    law_split_joined(values, ',');
    lemma_joined_free(values, ',', '|');
    lemma_joined_free(values, ',', ';');
    lemma_joined_free(values, ',', '\n');
    lemma_joined_nonempty(values, ',');
}

proof fn lemma_fields_clean(
    values: Seq<Seq<char>>,
    rules: Seq<FieldRule>,
    numbers: Seq<nat>,
    i: int,
)
    requires
        values.len() == rules.len() == numbers.len(),
        0 <= i <= rules.len(),
        forall|k: int| 0 <= k < rules.len() ==> good(values[k], #[trigger] rules[k], numbers[k]),
    ensures
        fields_fault(values, rules, i) is None,
    decreases rules.len() - i,
{
    if i < rules.len() {
        assert(good(values[i], rules[i], numbers[i]));
        lemma_fields_clean(values, rules, numbers, i + 1);
    }
}

/// A row of good fields parses to their values.
proof fn lemma_good_row(
    values: Seq<Seq<char>>,
    rules: Seq<FieldRule>,
    numbers: Seq<nat>,
    field: Seq<char>,
)
    requires
        values.len() >= 1,
        values.len() == rules.len() == numbers.len(),
        forall|k: int| 0 <= k < rules.len() ==> good(values[k], #[trigger] rules[k], numbers[k]),
    ensures
        row_fault(joined(values, ','), rules, field) is None,
        forall|k: int|
            0 <= k < rules.len() ==> #[trigger] row_value(joined(values, ','), rules, k)
                == numbers[k],
        row_shape(joined(values, ','), values.len()),
        joined(values, ',').len() > 0,
        free_of(joined(values, ','), '|'),
        free_of(joined(values, ','), ';'),
        free_of(joined(values, ','), '\n'),
{
    assert forall|i: int| 0 <= i < values.len() implies plain(#[trigger] values[i])
        && values[i].len() > 0 by {
        assert(good(values[i], rules[i], numbers[i]));
    }
    lemma_plain_row(values);
    lemma_fields_clean(values, rules, numbers, 0);
    assert forall|k: int| 0 <= k < rules.len() implies #[trigger] row_value(
        joined(values, ','),
        rules,
        k,
    ) == numbers[k] by {
        assert(good(values[k], rules[k], numbers[k]));
    }
}

proof fn lemma_class_text(class: LedgerClass)
    requires
        class matches LedgerClass::RankedWindow(i) ==> i < 3,
        class matches LedgerClass::RankedTail(i) ==> i < 3,
    ensures
        text_class(class_text(class)) == Some(class),
        plain(class_text(class)),
        class_text(class).len() > 0,
{
    reveal_strlit("w");
    reveal_strlit("wt");
    reveal_strlit("n");
    reveal_strlit("r");
    reveal_strlit("t");
    reveal_strlit("r0");
    reveal_strlit("r1");
    reveal_strlit("r2");
    reveal_strlit("t0");
    reveal_strlit("t1");
    reveal_strlit("t2");
    let s = class_text(class);
    match class {
        LedgerClass::RankedWindow(i) => {
            assert(decimal(i as nat) =~= seq![digit(i as nat)]);
            assert(s.len() == 2 && s[0] == 'r' && s[1] == digit(i as nat));
            if i == 0 {
                assert(s =~= "r0"@);
            } else if i == 1 {
                assert(s =~= "r1"@);
            } else {
                assert(s =~= "r2"@);
            }
            assert("r0"@[1] == '0' && "r1"@[1] == '1' && "r2"@[1] == '2');
            assert("wt"@[0] == 'w');
        },
        LedgerClass::RankedTail(i) => {
            assert(decimal(i as nat) =~= seq![digit(i as nat)]);
            assert(s.len() == 2 && s[0] == 't' && s[1] == digit(i as nat));
            if i == 0 {
                assert(s =~= "t0"@);
            } else if i == 1 {
                assert(s =~= "t1"@);
            } else {
                assert(s =~= "t2"@);
            }
            assert("t0"@[1] == '0' && "t1"@[1] == '1' && "t2"@[1] == '2');
            assert("wt"@[0] == 'w' && "r0"@[0] == 'r' && "r1"@[0] == 'r' && "r2"@[0] == 'r');
        },
        LedgerClass::WarmupTail => {
            assert("w"@.len() == 1 && "wt"@.len() == 2);
        },
        LedgerClass::NonRanked => {
            assert("n"@[0] == 'n' && "w"@[0] == 'w' && "wt"@.len() == 2);
        },
        LedgerClass::Warmup => {},
    }
}

/// Metadata text parses back.
proof fn lemma_meta_text(meta: LedgerEventMeta)
    requires
        meta_fault(meta) is None,
    ensures
        meta_text_fault(meta_text(meta)) is None,
        meta_of(split_on(meta_text(meta), ',')) == meta,
        free_of(meta_text(meta), '|'),
        free_of(meta_text(meta), '\n'),
{
    let values = seq![
        class_text(meta.class),
        decimal(meta.stage as nat),
        decimal(meta.client_id as nat),
        decimal(meta.txn_no as nat),
        hex_digits(meta.parameter_fingerprint as nat, 16),
    ];
    lemma_class_text(meta.class);
    lemma_decimal_plain(meta.stage as nat);
    lemma_decimal_plain(meta.client_id as nat);
    lemma_decimal_plain(meta.txn_no as nat);
    lemma_hex_spans();
    lemma_hex_plain(meta.parameter_fingerprint as nat, 16);
    law_hex_round_trip(meta.parameter_fingerprint as nat, 16);
    law_decimal_round_trip(meta.stage as nat);
    law_decimal_round_trip(meta.client_id as nat);
    law_decimal_round_trip(meta.txn_no as nat);
    assert forall|i: int| 0 <= i < values.len() implies plain(#[trigger] values[i])
        && values[i].len() > 0 by {
        assert(i == 0 || i == 1 || i == 2 || i == 3 || i == 4);
    }
    lemma_plain_row(values);
    assert(meta_of(values) == meta);
}

proof fn lemma_line_row(line: NewOrderLineDelta)
    ensures
        row_fault(joined(line_values(line), ','), line_rules(), "NewOrder line"@) is None,
        line_of(joined(line_values(line), ',')) == line,
        joined(line_values(line), ',').len() > 0,
        free_of(joined(line_values(line), ','), '|'),
        free_of(joined(line_values(line), ','), ';'),
        free_of(joined(line_values(line), ','), '\n'),
{
    let values = line_values(line);
    let rules = line_rules();
    let numbers: Seq<nat> = seq![
        line.number as nat,
        line.item_id as nat,
        line.supply_warehouse as nat,
        line.quantity as nat,
        line.amount_bits as nat,
    ];
    lemma_number_good(numbers[0], rules[0]);
    lemma_number_good(numbers[1], rules[1]);
    lemma_number_good(numbers[2], rules[2]);
    lemma_number_good(numbers[3], rules[3]);
    lemma_word_good(line.amount_bits, rules[4]);
    assert forall|k: int| 0 <= k < rules.len() implies good(
        values[k],
        #[trigger] rules[k],
        numbers[k],
    ) by {
        assert(k == 0 || k == 1 || k == 2 || k == 3 || k == 4);
    }
    lemma_good_row(values, rules, numbers, "NewOrder line"@);
    let s = joined(values, ',');
    assert(row_value(s, rules, 0) == numbers[0]);
    assert(row_value(s, rules, 1) == numbers[1]);
    assert(row_value(s, rules, 2) == numbers[2]);
    assert(row_value(s, rules, 3) == numbers[3]);
    assert(row_value(s, rules, 4) == numbers[4]);
}

proof fn lemma_line_rows_clean(lines: Seq<NewOrderLineDelta>, i: int)
    requires
        0 <= i <= lines.len(),
    ensures
        line_rows_fault(line_texts(lines), i) is None,
    decreases lines.len() - i,
{
    if i < lines.len() {
        lemma_line_row(lines[i]);
        lemma_line_rows_clean(lines, i + 1);
    }
}

/// A list section of nonempty rows without semicolons splits into its rows.
proof fn lemma_section(rows: Seq<Seq<char>>)
    requires
        forall|i: int|
            0 <= i < rows.len() ==> (#[trigger] rows[i]).len() > 0 && free_of(rows[i], ';')
                && free_of(rows[i], '|') && free_of(rows[i], '\n'),
    ensures
        section_rows(joined(rows, ';')) == rows,
        free_of(joined(rows, ';'), '|'),
        free_of(joined(rows, ';'), '\n'),
{
    assert(all_free_of(rows, '|') && all_free_of(rows, '\n') && all_free_of(rows, ';'));
    lemma_joined_free(rows, ';', '|');
    lemma_joined_free(rows, ';', '\n');
    if rows.len() == 0 {
        assert(section_rows(joined(rows, ';')) =~= rows);
    } else {
        law_split_joined(rows, ';');
        lemma_joined_nonempty(rows, ';');
    }
}

proof fn lemma_lines_section(lines: Seq<NewOrderLineDelta>)
    ensures
        line_rows_fault(section_rows(joined(line_texts(lines), ';')), 0) is None,
        lines_of(section_rows(joined(line_texts(lines), ';'))) == lines,
        free_of(joined(line_texts(lines), ';'), '|'),
        free_of(joined(line_texts(lines), ';'), '\n'),
{
    let rows = line_texts(lines);
    assert forall|i: int| 0 <= i < rows.len() implies (#[trigger] rows[i]).len() > 0 && free_of(
        rows[i],
        ';',
    ) && free_of(rows[i], '|') && free_of(rows[i], '\n') && line_of(rows[i]) == lines[i] by {
        lemma_line_row(lines[i]);
    }
    lemma_section(rows);
    lemma_line_rows_clean(lines, 0);
    assert(lines_of(rows) =~= lines);
}

proof fn lemma_order_row(order: DeliveredOrderDelta)
    requires
        order.order_id >= 0,
        order.customer_id >= 0,
        order.customer_payment_count_before >= 0,
        order.customer_delivery_count_before >= 0,
        order.customer_payment_count_after >= 0,
        order.customer_delivery_count_after >= 0,
    ensures
        row_fault(joined(order_values(order), ','), order_rules(), "Delivery order"@) is None,
        order_of(joined(order_values(order), ',')) == order,
        joined(order_values(order), ',').len() > 0,
        free_of(joined(order_values(order), ','), '|'),
        free_of(joined(order_values(order), ','), ';'),
        free_of(joined(order_values(order), ','), '\n'),
{
    let values = order_values(order);
    let rules = order_rules();
    let numbers: Seq<nat> = seq![
        order.district_id as nat,
        order.order_id as nat,
        order.customer_id as nat,
        order.line_count as nat,
        order.customer_amount_bits as nat,
        order.customer_balance_before_bits as nat,
        order.customer_balance_after_bits as nat,
        order.customer_payment_count_before as nat,
        order.customer_delivery_count_before as nat,
        order.customer_payment_count_after as nat,
        order.customer_delivery_count_after as nat,
    ];
    lemma_number_good(numbers[0], rules[0]);
    lemma_number_good(numbers[1], rules[1]);
    lemma_number_good(numbers[2], rules[2]);
    lemma_number_good(numbers[3], rules[3]);
    lemma_word_good(order.customer_amount_bits, rules[4]);
    lemma_word_good(order.customer_balance_before_bits, rules[5]);
    lemma_word_good(order.customer_balance_after_bits, rules[6]);
    lemma_number_good(numbers[7], rules[7]);
    lemma_number_good(numbers[8], rules[8]);
    lemma_number_good(numbers[9], rules[9]);
    lemma_number_good(numbers[10], rules[10]);
    assert forall|k: int| 0 <= k < rules.len() implies good(
        values[k],
        #[trigger] rules[k],
        numbers[k],
    ) by {
        assert(k == 0 || k == 1 || k == 2 || k == 3 || k == 4 || k == 5 || k == 6 || k == 7 || k
            == 8 || k == 9 || k == 10);
    }
    lemma_good_row(values, rules, numbers, "Delivery order"@);
    let s = joined(values, ',');
    assert(row_value(s, rules, 0) == numbers[0] && row_value(s, rules, 1) == numbers[1]
        && row_value(s, rules, 2) == numbers[2] && row_value(s, rules, 3) == numbers[3]
        && row_value(s, rules, 4) == numbers[4] && row_value(s, rules, 5) == numbers[5]
        && row_value(s, rules, 6) == numbers[6] && row_value(s, rules, 7) == numbers[7]
        && row_value(s, rules, 8) == numbers[8] && row_value(s, rules, 9) == numbers[9]
        && row_value(s, rules, 10) == numbers[10]);
}

proof fn lemma_order_rows_clean(orders: Seq<DeliveredOrderDelta>, i: int)
    requires
        0 <= i <= orders.len(),
        forall|k: int| 0 <= k < orders.len() ==> order_counts_ok(#[trigger] orders[k]),
    ensures
        order_rows_fault(order_texts(orders), i) is None,
    decreases orders.len() - i,
{
    if i < orders.len() {
        assert(order_counts_ok(orders[i]));
        lemma_order_row(orders[i]);
        lemma_order_rows_clean(orders, i + 1);
    }
}

/// No signed field of an order is negative.
pub open spec fn order_counts_ok(order: DeliveredOrderDelta) -> bool {
    order.order_id >= 0 && order.customer_id >= 0 && order.customer_payment_count_before >= 0
        && order.customer_delivery_count_before >= 0 && order.customer_payment_count_after >= 0
        && order.customer_delivery_count_after >= 0
}

proof fn lemma_orders_section(orders: Seq<DeliveredOrderDelta>)
    requires
        forall|k: int| 0 <= k < orders.len() ==> order_counts_ok(#[trigger] orders[k]),
    ensures
        order_rows_fault(section_rows(joined(order_texts(orders), ';')), 0) is None,
        orders_of(section_rows(joined(order_texts(orders), ';'))) == orders,
        free_of(joined(order_texts(orders), ';'), '|'),
        free_of(joined(order_texts(orders), ';'), '\n'),
{
    let rows = order_texts(orders);
    assert forall|i: int| 0 <= i < rows.len() implies (#[trigger] rows[i]).len() > 0 && free_of(
        rows[i],
        ';',
    ) && free_of(rows[i], '|') && free_of(rows[i], '\n') && order_of(rows[i]) == orders[i] by {
        assert(order_counts_ok(orders[i]));
        lemma_order_row(orders[i]);
    }
    lemma_section(rows);
    lemma_order_rows_clean(orders, 0);
    assert(orders_of(rows) =~= orders);
}

proof fn lemma_payment_row(delta: PaymentDelta)
    requires
        payment_fault(delta) is None,
    ensures
        row_fault(joined(payment_values(delta), ','), payment_rules(), "Payment"@) is None,
        payment_of(delta.meta, joined(payment_values(delta), ',')) == delta,
        row_shape(joined(payment_values(delta), ','), 18),
        free_of(joined(payment_values(delta), ','), '|'),
        free_of(joined(payment_values(delta), ','), '\n'),
{
    let values = payment_values(delta);
    let rules = payment_rules();
    let numbers: Seq<nat> = seq![
        delta.warehouse_id as nat,
        delta.district_id as nat,
        delta.customer_warehouse_id as nat,
        delta.customer_district_id as nat,
        delta.customer_id as nat,
        delta.amount_bits as nat,
        delta.warehouse_before_bits as nat,
        delta.warehouse_after_bits as nat,
        delta.district_before_bits as nat,
        delta.district_after_bits as nat,
        delta.customer_balance_before_bits as nat,
        delta.customer_balance_after_bits as nat,
        delta.customer_ytd_before_bits as nat,
        delta.customer_ytd_after_bits as nat,
        delta.customer_payment_count_before as nat,
        delta.customer_delivery_count_before as nat,
        delta.customer_payment_count_after as nat,
        delta.customer_delivery_count_after as nat,
    ];
    assert(delta.customer_payment_count_before >= 0 && delta.customer_delivery_count_before >= 0
        && delta.customer_payment_count_after >= 0 && delta.customer_delivery_count_after >= 0
        && delta.customer_id >= 0);
    lemma_number_good(numbers[0], rules[0]);
    lemma_number_good(numbers[1], rules[1]);
    lemma_number_good(numbers[2], rules[2]);
    lemma_number_good(numbers[3], rules[3]);
    lemma_number_good(numbers[4], rules[4]);
    lemma_word_good(delta.amount_bits, rules[5]);
    lemma_word_good(delta.warehouse_before_bits, rules[6]);
    lemma_word_good(delta.warehouse_after_bits, rules[7]);
    lemma_word_good(delta.district_before_bits, rules[8]);
    lemma_word_good(delta.district_after_bits, rules[9]);
    lemma_word_good(delta.customer_balance_before_bits, rules[10]);
    lemma_word_good(delta.customer_balance_after_bits, rules[11]);
    lemma_word_good(delta.customer_ytd_before_bits, rules[12]);
    lemma_word_good(delta.customer_ytd_after_bits, rules[13]);
    lemma_number_good(numbers[14], rules[14]);
    lemma_number_good(numbers[15], rules[15]);
    lemma_number_good(numbers[16], rules[16]);
    lemma_number_good(numbers[17], rules[17]);
    assert forall|k: int| 0 <= k < rules.len() implies good(
        values[k],
        #[trigger] rules[k],
        numbers[k],
    ) by {
        assert(k == 0 || k == 1 || k == 2 || k == 3 || k == 4 || k == 5 || k == 6 || k == 7 || k
            == 8 || k == 9 || k == 10 || k == 11 || k == 12 || k == 13 || k == 14 || k == 15 || k
            == 16 || k == 17);
    }
    lemma_good_row(values, rules, numbers, "Payment"@);
    let s = joined(values, ',');
    assert(row_value(s, rules, 0) == numbers[0] && row_value(s, rules, 1) == numbers[1]
        && row_value(s, rules, 2) == numbers[2] && row_value(s, rules, 3) == numbers[3]
        && row_value(s, rules, 4) == numbers[4] && row_value(s, rules, 5) == numbers[5]
        && row_value(s, rules, 6) == numbers[6] && row_value(s, rules, 7) == numbers[7]
        && row_value(s, rules, 8) == numbers[8] && row_value(s, rules, 9) == numbers[9]
        && row_value(s, rules, 10) == numbers[10] && row_value(s, rules, 11) == numbers[11]
        && row_value(s, rules, 12) == numbers[12] && row_value(s, rules, 13) == numbers[13]
        && row_value(s, rules, 14) == numbers[14] && row_value(s, rules, 15) == numbers[15]
        && row_value(s, rules, 16) == numbers[16] && row_value(s, rules, 17) == numbers[17]);
}

proof fn lemma_pair_row(a: nat, b: nat, rules: Seq<FieldRule>, field: Seq<char>)
    requires
        rules.len() == 2,
        !rules[0].hex,
        !rules[1].hex,
        a <= rules[0].max,
        b <= rules[1].max,
    ensures
        ({
            let s = joined(seq![decimal(a), decimal(b)], ',');
            &&& row_fault(s, rules, field) is None
            &&& row_value(s, rules, 0) == a
            &&& row_value(s, rules, 1) == b
            &&& row_shape(s, 2)
            &&& free_of(s, '|')
            &&& free_of(s, '\n')
        }),
{
    let values = seq![decimal(a), decimal(b)];
    let numbers: Seq<nat> = seq![a, b];
    lemma_number_good(a, rules[0]);
    lemma_number_good(b, rules[1]);
    assert forall|k: int| 0 <= k < rules.len() implies good(
        values[k],
        #[trigger] rules[k],
        numbers[k],
    ) by {
        assert(k == 0 || k == 1);
    }
    lemma_good_row(values, rules, numbers, field);
    assert(row_value(joined(values, ','), rules, 0) == numbers[0]);
    assert(row_value(joined(values, ','), rules, 1) == numbers[1]);
}

proof fn lemma_new_order_header(delta: NewOrderModel)
    requires
        delta.order_id >= 0,
    ensures
        ({
            let s = joined(new_order_header(delta), ',');
            &&& row_fault(s, new_order_rules(), "NewOrder header"@) is None
            &&& row_value(s, new_order_rules(), 0) == delta.warehouse_id
            &&& row_value(s, new_order_rules(), 1) == delta.district_id
            &&& row_value(s, new_order_rules(), 2) == delta.order_id
            &&& row_value(s, new_order_rules(), 3) == delta.customer_id
            &&& free_of(s, '|')
            &&& free_of(s, '\n')
        }),
{
    let values = new_order_header(delta);
    let rules = new_order_rules();
    let numbers: Seq<nat> = seq![
        delta.warehouse_id as nat,
        delta.district_id as nat,
        delta.order_id as nat,
        delta.customer_id as nat,
    ];
    lemma_number_good(numbers[0], rules[0]);
    lemma_number_good(numbers[1], rules[1]);
    lemma_number_good(numbers[2], rules[2]);
    lemma_number_good(numbers[3], rules[3]);
    assert forall|k: int| 0 <= k < rules.len() implies good(
        values[k],
        #[trigger] rules[k],
        numbers[k],
    ) by {
        assert(k == 0 || k == 1 || k == 2 || k == 3);
    }
    lemma_good_row(values, rules, numbers, "NewOrder header"@);
    let s = joined(values, ',');
    assert(row_value(s, rules, 0) == numbers[0] && row_value(s, rules, 1) == numbers[1]
        && row_value(s, rules, 2) == numbers[2] && row_value(s, rules, 3) == numbers[3]);
}

/// The sections of an event are free of bars and newlines, and form it.
pub open spec fn sections_form(event: EventModel) -> bool {
    let sections = event_sections(event);
    &&& all_free_of(sections, '|')
    &&& all_free_of(sections, '\n')
    &&& kind_sections_fault(sections) is None
    &&& event_of(sections) == event
}

proof fn lemma_new_order_sections(event: EventModel)
    requires
        event_fault(event) is None,
        event is NewOrder,
    ensures
        sections_form(event),
{
    let sections = event_sections(event);
    lemma_kinds_differ();
    lemma_kind_letters();
    lemma_meta_text(event.meta());
    let delta = event->NewOrder_0;
    lemma_new_order_header(delta);
    lemma_lines_section(delta.lines);
    lemma_four_free(sections, '|');
    lemma_four_free(sections, '\n');
}

proof fn lemma_payment_sections(event: EventModel)
    requires
        event_fault(event) is None,
        event is Payment,
    ensures
        sections_form(event),
{
    let sections = event_sections(event);
    lemma_kinds_differ();
    lemma_kind_letters();
    lemma_meta_text(event.meta());
    lemma_payment_row(event->Payment_0);
    lemma_three_free(sections, '|');
    lemma_three_free(sections, '\n');
}

proof fn lemma_delivery_sections(event: EventModel)
    requires
        event_fault(event) is None,
        event is Delivery,
    ensures
        sections_form(event),
{
    let sections = event_sections(event);
    lemma_kinds_differ();
    lemma_kind_letters();
    lemma_meta_text(event.meta());
    let delta = event->Delivery_0;
    lemma_pair_row(
        delta.warehouse_id as nat,
        delta.carrier_id as nat,
        delivery_rules(),
        "Delivery header"@,
    );
    assert forall|k: int| 0 <= k < delta.orders.len() implies order_counts_ok(
        #[trigger] delta.orders[k],
    ) by {
        lemma_delivered_order_fault_none(delta.warehouse_id, delta.orders, 0, k);
    }
    lemma_orders_section(delta.orders);
    lemma_four_free(sections, '|');
    lemma_four_free(sections, '\n');
}

proof fn lemma_order_status_sections(event: EventModel)
    requires
        event_fault(event) is None,
        event is OrderStatus,
    ensures
        sections_form(event),
{
    let sections = event_sections(event);
    lemma_kinds_differ();
    lemma_kind_letters();
    lemma_meta_text(event.meta());
    assert forall|i: int| 0 <= i < sections.len() implies free_of(#[trigger] sections[i], '|')
        && free_of(sections[i], '\n') by {
        assert(i == 0 || i == 1);
    }
}

proof fn lemma_stock_level_sections(event: EventModel)
    requires
        event_fault(event) is None,
        event is StockLevel,
    ensures
        sections_form(event),
{
    let sections = event_sections(event);
    lemma_kinds_differ();
    lemma_kind_letters();
    lemma_meta_text(event.meta());
    let low_stock_count = event->low_stock_count;
    let rule = number_rule("StockLevel low_stock_count", 0x7FFF_FFFF);
    lemma_number_good(low_stock_count as nat, rule);
    lemma_plain_free(signed_decimal(low_stock_count as int), '|');
    lemma_plain_free(signed_decimal(low_stock_count as int), '\n');
    lemma_three_free(sections, '|');
    lemma_three_free(sections, '\n');
}

proof fn lemma_rollback_sections(event: EventModel)
    requires
        event_fault(event) is None,
        event is ExpectedRollback,
    ensures
        sections_form(event),
{
    let sections = event_sections(event);
    lemma_kinds_differ();
    lemma_kind_letters();
    lemma_meta_text(event.meta());
    lemma_pair_row(
        event->ExpectedRollback_warehouse_id as nat,
        event->ExpectedRollback_district_id as nat,
        rollback_rules(),
        "expected rollback partition"@,
    );
    lemma_three_free(sections, '|');
    lemma_three_free(sections, '\n');
}

proof fn lemma_event_sections(event: EventModel)
    requires
        event_fault(event) is None,
    ensures
        sections_form(event),
{
    match event {
        EventModel::NewOrder(_) => lemma_new_order_sections(event),
        EventModel::Payment(_) => lemma_payment_sections(event),
        EventModel::Delivery(_) => lemma_delivery_sections(event),
        EventModel::OrderStatus { .. } => lemma_order_status_sections(event),
        EventModel::StockLevel { .. } => lemma_stock_level_sections(event),
        EventModel::ExpectedRollback { .. } => lemma_rollback_sections(event),
    }
}

proof fn lemma_four_free(sections: Seq<Seq<char>>, other: char)
    requires
        sections.len() == 4,
        free_of(sections[0], other),
        free_of(sections[1], other),
        free_of(sections[2], other),
        free_of(sections[3], other),
    ensures
        all_free_of(sections, other),
{
    assert forall|i: int| 0 <= i < sections.len() implies free_of(#[trigger] sections[i], other) by {
        assert(i == 0 || i == 1 || i == 2 || i == 3);
    }
}

proof fn lemma_three_free(sections: Seq<Seq<char>>, other: char)
    requires
        sections.len() == 3,
        free_of(sections[0], other),
        free_of(sections[1], other),
        free_of(sections[2], other),
    ensures
        all_free_of(sections, other),
{
    assert forall|i: int| 0 <= i < sections.len() implies free_of(#[trigger] sections[i], other) by {
        assert(i == 0 || i == 1 || i == 2);
    }
}

proof fn lemma_kind_letters()
    ensures
        free_of("N"@, '|') && free_of("N"@, '\n'),
        free_of("P"@, '|') && free_of("P"@, '\n'),
        free_of("D"@, '|') && free_of("D"@, '\n'),
        free_of("O"@, '|') && free_of("O"@, '\n'),
        free_of("S"@, '|') && free_of("S"@, '\n'),
        free_of("R"@, '|') && free_of("R"@, '\n'),
{
    reveal_strlit("N");
    reveal_strlit("P");
    reveal_strlit("D");
    reveal_strlit("O");
    reveal_strlit("S");
    reveal_strlit("R");
}

/// Parsing the text of a valid event gives the event back.
pub proof fn law_event_text_round_trip(event: EventModel)
    requires
        event_fault(event) is None,
    ensures
        sections_fault(split_on(event_text(event), '|')) is None,
        event_of(split_on(event_text(event), '|')) == event,
        free_of(event_text(event), '\n'),
{
    lemma_event_sections(event);
    law_split_joined(event_sections(event), '|');
    lemma_joined_free(event_sections(event), '|', '\n');
}

} // verus!
