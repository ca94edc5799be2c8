//! Only the text that is written for an event is read as one.
use vstd::prelude::*;

use crate::fields::{
    all_hex, hex_digit_value, hex_value, is_hex_digit, joined, law_canonical_number_is_decimal,
    lemma_hex_bound, lemma_hex_spans, lemma_split_nonempty, split_on,
};
use crate::ranking::ledger_event_text::{
    FieldRule, class_text, delivery_rules, delivery_sections_fault, event_of, event_sections,
    event_text, field_value, fields_fault, lemma_kinds_differ, line_of, line_rows_fault,
    line_rules, line_texts, line_values, meta_of, meta_text, meta_text_fault, new_order_header,
    new_order_rules, new_order_sections_fault, order_of, order_rows_fault, order_rules,
    order_texts, order_values, payment_rules, payment_sections_fault, payment_values,
    rollback_rules, rollback_sections_fault, row_fault, row_value, section_rows, sections_fault,
    stock_level_sections_fault, text_class,
};
use crate::text::{decimal, hex_digit, hex_digits};

verus! {

/// Joining undoes splitting.
pub proof fn law_joined_split(s: Seq<char>, sep: char)
    ensures
        joined(split_on(s, sep), sep) == s,
        split_on(s, sep).len() >= 1,
    decreases s.len(),
{
    lemma_split_nonempty(s, sep);
    if s.len() == 0 {
        assert(joined(split_on(s, sep), sep) =~= s);
    } else {
        let front = s.drop_last();
        let before = split_on(front, sep);
        law_joined_split(front, sep);
        let after = split_on(s, sep);
        if s.last() == sep {
            assert(after.drop_last() =~= before);
            assert(after.last() =~= Seq::<char>::empty());
            assert(joined(after, sep) =~= s);
        } else {
            assert(after.drop_last() =~= before.drop_last());
            assert(after.last() == before.last().push(s.last()));
            if before.len() == 1 {
                assert(joined(after, sep) == after[0]);
            } else {
                assert(joined(after, sep) == joined(before.drop_last(), sep).push(sep)
                    + before.last().push(s.last()));
                assert(joined(before, sep) == joined(before.drop_last(), sep).push(sep)
                    + before.last());
            }
            assert(joined(after, sep) =~= joined(before, sep).push(s.last()));
            assert(joined(after, sep) =~= s);
        }
    }
}

/// Lower-case hexadecimal digits are the text of their value.
pub proof fn law_hex_text_is_canonical(s: Seq<char>)
    requires
        all_hex(s),
    ensures
        hex_digits(hex_value(s), s.len()) == s,
    decreases s.len(),
{
    if s.len() == 0 {
        assert(hex_digits(hex_value(s), 0) =~= s);
    } else {
        let head = s.drop_last();
        assert(is_hex_digit(s[s.len() - 1]));
        assert forall|i: int| 0 <= i < head.len() implies is_hex_digit(#[trigger] head[i]) by {
            assert(is_hex_digit(s[i]));
        }
        law_hex_text_is_canonical(head);
        let d = hex_digit_value(s.last());
        let v = hex_value(head);
        assert(hex_value(s) == v * 16 + d);
        assert(d < 16);
        assert((v * 16 + d) / 16 == v && (v * 16 + d) % 16 == d) by (nonlinear_arith)
            requires
                d < 16,
        ;
        assert(hex_digit(d) == s.last());
        assert(hex_digits(hex_value(s), s.len()) =~= s);
    }
}

/// The text of a field.
spec fn field_text(v: nat, rule: FieldRule) -> Seq<char> {
    if rule.hex {
        hex_digits(v, 8)
    } else {
        decimal(v)
    }
}

/// Whether the hexadecimal fields of a row are words.
spec fn words_bounded(rules: Seq<FieldRule>) -> bool {
    forall|k: int|
        0 <= k < rules.len() && (#[trigger] rules[k]).hex ==> rules[k].max == 0xFFFF_FFFF
}

proof fn lemma_fields_canonical(
    values: Seq<Seq<char>>,
    rules: Seq<FieldRule>,
    from: int,
    k: int,
)
    requires
        0 <= from <= k < rules.len(),
        words_bounded(rules),
        fields_fault(values, rules, from) is None,
    ensures
        values[k] == field_text(field_value(values[k], rules[k]), rules[k]),
        field_value(values[k], rules[k]) <= rules[k].max,
    decreases k - from,
{
    if from < k {
        lemma_fields_canonical(values, rules, from + 1, k);
    } else if rules[k].hex {
        law_hex_text_is_canonical(values[k]);
        lemma_hex_bound(values[k]);
        lemma_hex_spans();
    } else {
        law_canonical_number_is_decimal(values[k]);
    }
}

/// A row that follows its rules is the texts of its values, joined.
proof fn lemma_row_canonical(
    s: Seq<char>,
    rules: Seq<FieldRule>,
    field: Seq<char>,
    texts: Seq<Seq<char>>,
)
    requires
        words_bounded(rules),
        row_fault(s, rules, field) is None,
        texts.len() == rules.len(),
        forall|k: int|
            0 <= k < rules.len() && row_value(s, rules, k) <= rules[k].max ==> #[trigger] texts[k]
                == field_text(row_value(s, rules, k), rules[k]),
    ensures
        joined(texts, ',') == s,
{
    let values = split_on(s, ',');
    law_joined_split(s, ',');
    assert forall|k: int| 0 <= k < rules.len() implies texts[k] == values[k] by {
        lemma_fields_canonical(values, rules, 0, k);
    }
    assert(texts =~= values);
}

proof fn lemma_class_canonical(s: Seq<char>)
    requires
        text_class(s) is Some,
    ensures
        class_text(text_class(s)->0) == s,
{
    reveal_strlit("w");
    reveal_strlit("wt");
    reveal_strlit("n");
    reveal_strlit("r");
    reveal_strlit("t");
    reveal_strlit("r0");
    reveal_strlit("r1");
    reveal_strlit("r2");
    reveal_strlit("t0");
    reveal_strlit("t1");
    reveal_strlit("t2");
    reveal_with_fuel(decimal, 2);
    assert(class_text(text_class(s)->0) =~= s);
}

proof fn lemma_meta_canonical(s: Seq<char>)
    requires
        meta_text_fault(s) is None,
    ensures
        meta_text(meta_of(split_on(s, ','))) == s,
{
    let values = split_on(s, ',');
    law_joined_split(s, ',');
    lemma_class_canonical(values[0]);
    law_canonical_number_is_decimal(values[1]);
    law_canonical_number_is_decimal(values[2]);
    law_canonical_number_is_decimal(values[3]);
    law_hex_text_is_canonical(values[4]);
    lemma_hex_bound(values[4]);
    lemma_hex_spans();
    let meta = meta_of(values);
    assert(seq![
        class_text(meta.class),
        decimal(meta.stage as nat),
        decimal(meta.client_id as nat),
        decimal(meta.txn_no as nat),
        hex_digits(meta.parameter_fingerprint as nat, 16),
    ] =~= values);
}

proof fn lemma_line_canonical(s: Seq<char>)
    requires
        row_fault(s, line_rules(), "NewOrder line"@) is None,
    ensures
        joined(line_values(line_of(s)), ',') == s,
{
    lemma_row_canonical(s, line_rules(), "NewOrder line"@, line_values(line_of(s)));
}

proof fn lemma_order_canonical(s: Seq<char>)
    requires
        row_fault(s, order_rules(), "Delivery order"@) is None,
    ensures
        joined(order_values(order_of(s)), ',') == s,
{
    lemma_row_canonical(s, order_rules(), "Delivery order"@, order_values(order_of(s)));
}

proof fn lemma_line_rows_canonical(rows: Seq<Seq<char>>, from: int, i: int)
    requires
        0 <= from <= i < rows.len(),
        line_rows_fault(rows, from) is None,
    ensures
        joined(line_values(line_of(rows[i])), ',') == rows[i],
    decreases i - from,
{
    if from < i {
        lemma_line_rows_canonical(rows, from + 1, i);
    } else {
        lemma_line_canonical(rows[i]);
    }
}

proof fn lemma_order_rows_canonical(rows: Seq<Seq<char>>, from: int, i: int)
    requires
        0 <= from <= i < rows.len(),
        order_rows_fault(rows, from) is None,
    ensures
        joined(order_values(order_of(rows[i])), ',') == rows[i],
    decreases i - from,
{
    if from < i {
        lemma_order_rows_canonical(rows, from + 1, i);
    } else {
        lemma_order_canonical(rows[i]);
    }
}

proof fn lemma_section_joined(s: Seq<char>)
    ensures
        joined(section_rows(s), ';') == s,
{
    law_joined_split(s, ';');
    if s.len() == 0 {
        assert(joined(section_rows(s), ';') =~= s);
    }
}

proof fn lemma_new_order_canonical(sections: Seq<Seq<char>>)
    requires
        sections.len() == 4,
        sections[0] == "N"@,
        new_order_sections_fault(sections) is None,
    ensures
        event_sections(event_of(sections)) == sections,
{
    let event = event_of(sections);
    let delta = event->NewOrder_0;
    lemma_meta_canonical(sections[1]);
    lemma_row_canonical(
        sections[2],
        new_order_rules(),
        "NewOrder header"@,
        new_order_header(delta),
    );
    let rows = section_rows(sections[3]);
    assert forall|i: int| 0 <= i < rows.len() implies line_texts(delta.lines)[i] == rows[i] by {
        lemma_line_rows_canonical(rows, 0, i);
    }
    assert(line_texts(delta.lines) =~= rows);
    lemma_section_joined(sections[3]);
    assert(event_sections(event) =~= sections);
}

proof fn lemma_payment_canonical(sections: Seq<Seq<char>>)
    requires
        sections.len() == 3,
        sections[0] == "P"@,
        payment_sections_fault(sections) is None,
    ensures
        event_sections(event_of(sections)) == sections,
{
    lemma_kinds_differ();
    let event = event_of(sections);
    let delta = event->Payment_0;
    lemma_meta_canonical(sections[1]);
    lemma_row_canonical(sections[2], payment_rules(), "Payment"@, payment_values(delta));
    assert(event_sections(event) =~= sections);
}

proof fn lemma_delivery_canonical(sections: Seq<Seq<char>>)
    requires
        sections.len() == 4,
        sections[0] == "D"@,
        delivery_sections_fault(sections) is None,
    ensures
        event_sections(event_of(sections)) == sections,
{
    lemma_kinds_differ();
    let event = event_of(sections);
    let delta = event->Delivery_0;
    lemma_meta_canonical(sections[1]);
    lemma_row_canonical(
        sections[2],
        delivery_rules(),
        "Delivery header"@,
        seq![decimal(delta.warehouse_id as nat), decimal(delta.carrier_id as nat)],
    );
    let rows = section_rows(sections[3]);
    assert forall|i: int| 0 <= i < rows.len() implies order_texts(delta.orders)[i] == rows[i] by {
        lemma_order_rows_canonical(rows, 0, i);
    }
    assert(order_texts(delta.orders) =~= rows);
    lemma_section_joined(sections[3]);
    assert(event_sections(event) =~= sections);
}

proof fn lemma_short_canonical(sections: Seq<Seq<char>>)
    requires
        ({
            ||| sections[0] == "O"@ && sections.len() == 2 && meta_text_fault(sections[1]) is None
            ||| sections[0] == "S"@ && sections.len() == 3 && stock_level_sections_fault(sections)
                is None
            ||| sections[0] == "R"@ && sections.len() == 3 && rollback_sections_fault(sections)
                is None
        }),
    ensures
        event_sections(event_of(sections)) == sections,
{
    lemma_kinds_differ();
    let event = event_of(sections);
    lemma_meta_canonical(sections[1]);
    if sections[0] == "S"@ {
        law_canonical_number_is_decimal(sections[2]);
    } else if sections[0] == "R"@ {
        lemma_row_canonical(
            sections[2],
            rollback_rules(),
            "expected rollback partition"@,
            seq![
                decimal(event->ExpectedRollback_warehouse_id as nat),
                decimal(event->ExpectedRollback_district_id as nat),
            ],
        );
    }
    assert(event_sections(event) =~= sections);
}

/// Law: a text that is read as an event is the text that is written for it: there
/// is one text for each event.
pub proof fn law_event_text_is_canonical(s: Seq<char>)
    requires
        sections_fault(split_on(s, '|')) is None,
    ensures
        event_text(event_of(split_on(s, '|'))) == s,
{
    let sections = split_on(s, '|');
    law_joined_split(s, '|');
    lemma_kinds_differ();
    if sections[0] == "N"@ {
        lemma_new_order_canonical(sections);
    } else if sections[0] == "P"@ {
        lemma_payment_canonical(sections);
    } else if sections[0] == "D"@ {
        lemma_delivery_canonical(sections);
    } else {
        lemma_short_canonical(sections);
    }
}

} // verus!
