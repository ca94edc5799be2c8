//! Text form of one ledger event.
use vstd::prelude::*;

use crate::fields::{
    all_hex, byte_len, canonical_number, chars_are, hex_number, hex_value, is_canonical_number,
    is_hex, join_texts, joined, lemma_hex_bound, lemma_hex_spans, number_of, number_value, piece,
    split_chars, split_on, string_of, string_texts, text_bytes, texts,
};
use crate::ranking::ledger::{
    DeliveredOrderDelta, DeliveryDelta, DeliveryModel, EventModel, LedgerClass, LedgerError,
    LedgerEvent, LedgerEventMeta, LedgerFault, NewOrderDelta, NewOrderLineDelta, NewOrderModel,
    PaymentDelta, either, event_fault, fails, fault, meta_fault,
};
use crate::text::{
    bits_text, decimal, hex_digits, join2, join4, push_hex, quote_chars, quoted, signed_decimal,
    signed_text, unsigned_text, wide_text,
};

verus! {

/// Text of an accounting class.
pub open spec fn class_text(class: LedgerClass) -> Seq<char> {
    match class {
        LedgerClass::Warmup => "w"@,
        LedgerClass::RankedWindow(index) => "r"@ + decimal(index as nat),
        LedgerClass::WarmupTail => "wt"@,
        LedgerClass::RankedTail(index) => "t"@ + decimal(index as nat),
        LedgerClass::NonRanked => "n"@,
    }
}

/// Text of event metadata.
pub open spec fn meta_text(meta: LedgerEventMeta) -> Seq<char> {
    joined(
        seq![
            class_text(meta.class),
            decimal(meta.stage as nat),
            decimal(meta.client_id as nat),
            decimal(meta.txn_no as nat),
            hex_digits(meta.parameter_fingerprint as nat, 16),
        ],
        ',',
    )
}

/// Eight hexadecimal digits.
pub open spec fn word_text(bits: u32) -> Seq<char> {
    hex_digits(bits as nat, 8)
}

pub open spec fn line_values(line: NewOrderLineDelta) -> Seq<Seq<char>> {
    seq![
        decimal(line.number as nat),
        decimal(line.item_id as nat),
        decimal(line.supply_warehouse as nat),
        decimal(line.quantity as nat),
        word_text(line.amount_bits),
    ]
}

pub open spec fn line_texts(lines: Seq<NewOrderLineDelta>) -> Seq<Seq<char>> {
    Seq::new(lines.len(), |i: int| joined(line_values(lines[i]), ','))
}

pub open spec fn new_order_header(delta: NewOrderModel) -> Seq<Seq<char>> {
    seq![
        decimal(delta.warehouse_id as nat),
        decimal(delta.district_id as nat),
        signed_decimal(delta.order_id as int),
        decimal(delta.customer_id as nat),
    ]
}

pub open spec fn payment_values(delta: PaymentDelta) -> Seq<Seq<char>> {
    seq![
        decimal(delta.warehouse_id as nat),
        decimal(delta.district_id as nat),
        decimal(delta.customer_warehouse_id as nat),
        decimal(delta.customer_district_id as nat),
        signed_decimal(delta.customer_id as int),
        word_text(delta.amount_bits),
        word_text(delta.warehouse_before_bits),
        word_text(delta.warehouse_after_bits),
        word_text(delta.district_before_bits),
        word_text(delta.district_after_bits),
        word_text(delta.customer_balance_before_bits),
        word_text(delta.customer_balance_after_bits),
        word_text(delta.customer_ytd_before_bits),
        word_text(delta.customer_ytd_after_bits),
        signed_decimal(delta.customer_payment_count_before as int),
        signed_decimal(delta.customer_delivery_count_before as int),
        signed_decimal(delta.customer_payment_count_after as int),
        signed_decimal(delta.customer_delivery_count_after as int),
    ]
}

pub open spec fn order_values(order: DeliveredOrderDelta) -> Seq<Seq<char>> {
    seq![
        decimal(order.district_id as nat),
        signed_decimal(order.order_id as int),
        signed_decimal(order.customer_id as int),
        decimal(order.line_count as nat),
        word_text(order.customer_amount_bits),
        word_text(order.customer_balance_before_bits),
        word_text(order.customer_balance_after_bits),
        signed_decimal(order.customer_payment_count_before as int),
        signed_decimal(order.customer_delivery_count_before as int),
        signed_decimal(order.customer_payment_count_after as int),
        signed_decimal(order.customer_delivery_count_after as int),
    ]
}

pub open spec fn order_texts(orders: Seq<DeliveredOrderDelta>) -> Seq<Seq<char>> {
    Seq::new(orders.len(), |i: int| joined(order_values(orders[i]), ','))
}

/// The sections of an event, as they stand between bars.
pub open spec fn event_sections(event: EventModel) -> Seq<Seq<char>> {
    match event {
        EventModel::NewOrder(delta) => seq![
            "N"@,
            meta_text(delta.meta),
            joined(new_order_header(delta), ','),
            joined(line_texts(delta.lines), ';'),
        ],
        EventModel::Payment(delta) => seq![
            "P"@,
            meta_text(delta.meta),
            joined(payment_values(delta), ','),
        ],
        EventModel::Delivery(delta) => seq![
            "D"@,
            meta_text(delta.meta),
            joined(
                seq![decimal(delta.warehouse_id as nat), decimal(delta.carrier_id as nat)],
                ',',
            ),
            joined(order_texts(delta.orders), ';'),
        ],
        EventModel::OrderStatus { meta } => seq!["O"@, meta_text(meta)],
        EventModel::StockLevel { meta, low_stock_count } => seq![
            "S"@,
            meta_text(meta),
            signed_decimal(low_stock_count as int),
        ],
        EventModel::ExpectedRollback { meta, warehouse_id, district_id } => seq![
            "R"@,
            meta_text(meta),
            joined(seq![decimal(warehouse_id as nat), decimal(district_id as nat)], ','),
        ],
    }
}

/// Text of an event.
pub open spec fn event_text(event: EventModel) -> Seq<char> {
    joined(event_sections(event), '|')
}

fn class_string(class: LedgerClass) -> (r: String)
    ensures
        r@ == class_text(class),
{
    match class {
        LedgerClass::Warmup => "w".to_owned(),
        LedgerClass::RankedWindow(index) => join2("r", unsigned_text(index as u64).as_str()),
        LedgerClass::WarmupTail => "wt".to_owned(),
        LedgerClass::RankedTail(index) => join2("t", unsigned_text(index as u64).as_str()),
        LedgerClass::NonRanked => "n".to_owned(),
    }
}

fn wide_bits_text(bits: u64) -> (r: String)
    ensures
        r@ == hex_digits(bits as nat, 16),
{
    let mut out = String::new();
    push_hex(&mut out, bits, 16);
    proof {
        assert(out@ =~= hex_digits(bits as nat, 16));
    }
    out
}

fn meta_string(meta: LedgerEventMeta) -> (r: String)
    ensures
        r@ == meta_text(meta),
{
    let parts: Vec<String> = vec![
        class_string(meta.class),
        unsigned_text(meta.stage),
        unsigned_text(meta.client_id as u64),
        unsigned_text(meta.txn_no),
        wide_bits_text(meta.parameter_fingerprint),
    ];
    proof {
        assert(string_texts(parts@) =~= seq![
            class_text(meta.class),
            decimal(meta.stage as nat),
            decimal(meta.client_id as nat),
            decimal(meta.txn_no as nat),
            hex_digits(meta.parameter_fingerprint as nat, 16),
        ]);
    }
    join_texts(&parts, ',')
}

fn line_string(line: &NewOrderLineDelta) -> (r: String)
    ensures
        r@ == joined(line_values(*line), ','),
{
    let parts: Vec<String> = vec![
        unsigned_text(line.number as u64),
        unsigned_text(line.item_id as u64),
        unsigned_text(line.supply_warehouse as u64),
        unsigned_text(line.quantity as u64),
        bits_text(line.amount_bits),
    ];
    proof {
        assert(string_texts(parts@) =~= line_values(*line));
    }
    join_texts(&parts, ',')
}

fn order_string(order: &DeliveredOrderDelta) -> (r: String)
    ensures
        r@ == joined(order_values(*order), ','),
{
    let parts: Vec<String> = vec![
        unsigned_text(order.district_id as u64),
        signed_text(order.order_id as i64),
        signed_text(order.customer_id as i64),
        unsigned_text(order.line_count as u64),
        bits_text(order.customer_amount_bits),
        bits_text(order.customer_balance_before_bits),
        bits_text(order.customer_balance_after_bits),
        signed_text(order.customer_payment_count_before as i64),
        signed_text(order.customer_delivery_count_before as i64),
        signed_text(order.customer_payment_count_after as i64),
        signed_text(order.customer_delivery_count_after as i64),
    ];
    proof {
        assert(string_texts(parts@) =~= order_values(*order));
    }
    join_texts(&parts, ',')
}

fn payment_string(delta: &PaymentDelta) -> (r: String)
    ensures
        r@ == joined(payment_values(*delta), ','),
{
    let parts: Vec<String> = vec![
        unsigned_text(delta.warehouse_id as u64),
        unsigned_text(delta.district_id as u64),
        unsigned_text(delta.customer_warehouse_id as u64),
        unsigned_text(delta.customer_district_id as u64),
        signed_text(delta.customer_id as i64),
        bits_text(delta.amount_bits),
        bits_text(delta.warehouse_before_bits),
        bits_text(delta.warehouse_after_bits),
        bits_text(delta.district_before_bits),
        bits_text(delta.district_after_bits),
        bits_text(delta.customer_balance_before_bits),
        bits_text(delta.customer_balance_after_bits),
        bits_text(delta.customer_ytd_before_bits),
        bits_text(delta.customer_ytd_after_bits),
        signed_text(delta.customer_payment_count_before as i64),
        signed_text(delta.customer_delivery_count_before as i64),
        signed_text(delta.customer_payment_count_after as i64),
        signed_text(delta.customer_delivery_count_after as i64),
    ];
    proof {
        assert(string_texts(parts@) =~= payment_values(*delta));
    }
    join_texts(&parts, ',')
}

fn pair_string(a: u64, b: u64) -> (r: String)
    ensures
        r@ == joined(seq![decimal(a as nat), decimal(b as nat)], ','),
{
    let parts: Vec<String> = vec![unsigned_text(a), unsigned_text(b)];
    proof {
        assert(string_texts(parts@) =~= seq![decimal(a as nat), decimal(b as nat)]);
    }
    join_texts(&parts, ',')
}

/// Renders an event.
pub fn event_string(event: &LedgerEvent) -> (r: String)
    ensures
        r@ == event_text(event@),
{
    let sections: Vec<String> = match event {
        LedgerEvent::NewOrder(delta) => {
            let header: Vec<String> = vec![
                unsigned_text(delta.warehouse_id as u64),
                unsigned_text(delta.district_id as u64),
                signed_text(delta.order_id as i64),
                unsigned_text(delta.customer_id as u64),
            ];
            proof {
                assert(string_texts(header@) =~= new_order_header(delta@));
            }
            let mut lines: Vec<String> = Vec::new();
            let mut i: usize = 0;
            while i < delta.lines.len()
                invariant
                    i <= delta.lines.len(),
                    string_texts(lines@) == line_texts(delta.lines@).subrange(0, i as int),
                decreases delta.lines.len() - i,
            {
                let ghost before = lines@;
                lines.push(line_string(&delta.lines[i]));
                proof {
                    assert(string_texts(lines@) =~= string_texts(before).push(lines@[i as int]@));
                    assert(string_texts(lines@) =~= line_texts(delta.lines@).subrange(
                        0,
                        i as int + 1,
                    ));
                }
                i = i + 1;
            }
            assert(string_texts(lines@) =~= line_texts(delta.lines@));
            vec![
                "N".to_owned(),
                meta_string(delta.meta),
                join_texts(&header, ','),
                join_texts(&lines, ';'),
            ]
        },
        LedgerEvent::Payment(delta) => vec![
            "P".to_owned(),
            meta_string(delta.meta),
            payment_string(delta),
        ],
        LedgerEvent::Delivery(delta) => {
            let mut orders: Vec<String> = Vec::new();
            let mut i: usize = 0;
            while i < delta.orders.len()
                invariant
                    i <= delta.orders.len(),
                    string_texts(orders@) == order_texts(delta.orders@).subrange(0, i as int),
                decreases delta.orders.len() - i,
            {
                let ghost before = orders@;
                orders.push(order_string(&delta.orders[i]));
                proof {
                    assert(string_texts(orders@) =~= string_texts(before).push(orders@[i as int]@));
                    assert(string_texts(orders@) =~= order_texts(delta.orders@).subrange(
                        0,
                        i as int + 1,
                    ));
                }
                i = i + 1;
            }
            assert(string_texts(orders@) =~= order_texts(delta.orders@));
            vec![
                "D".to_owned(),
                meta_string(delta.meta),
                pair_string(delta.warehouse_id as u64, delta.carrier_id as u64),
                join_texts(&orders, ';'),
            ]
        },
        LedgerEvent::OrderStatus { meta } => vec!["O".to_owned(), meta_string(*meta)],
        LedgerEvent::StockLevel { meta, low_stock_count } => vec![
            "S".to_owned(),
            meta_string(*meta),
            signed_text(*low_stock_count as i64),
        ],
        LedgerEvent::ExpectedRollback { meta, warehouse_id, district_id } => vec![
            "R".to_owned(),
            meta_string(*meta),
            pair_string(*warehouse_id as u64, *district_id as u64),
        ],
    };
    proof {
        assert(string_texts(sections@) =~= event_sections(event@));
    }
    join_texts(&sections, '|')
}

/// One field of a row: its name in messages, and its form.
#[derive(Clone, Copy)]
pub struct FieldRule {
    pub name: &'static str,
    pub max: u64,
    pub hex: bool,
}

pub open spec fn number_rule(name: &'static str, max: u64) -> FieldRule {
    FieldRule { name, max, hex: false }
}

pub open spec fn word_rule(name: &'static str) -> FieldRule {
    FieldRule { name, max: 0xFFFF_FFFF, hex: true }
}

/// A canonical number must not exceed `max`.
pub open spec fn number_fault(name: Seq<char>, s: Seq<char>, max: nat, range: Seq<char>) -> Option<
    LedgerFault,
> {
    either(
        fails(
            !canonical_number(s),
            LedgerFault::Malformed(name + " is not a canonical non-negative integer"@),
        ),
        fails(number_value(s) > max, LedgerFault::Malformed(name + range)),
    )
}

/// Shortens a long text for a message.
pub open spec fn abbreviated(s: Seq<char>) -> Seq<char> {
    if s.len() <= 64 {
        s
    } else {
        s.subrange(0, 64) + "...("@ + decimal(byte_len(s)) + " bytes)"@
    }
}

/// A word is exactly eight lower-case hexadecimal digits.
pub open spec fn word_fault(name: Seq<char>, s: Seq<char>) -> Option<LedgerFault> {
    fails(
        !(s.len() == 8 && all_hex(s)),
        LedgerFault::InvalidFloatBits { field: name, bits: abbreviated(s) },
    )
}

pub open spec fn supported_range() -> Seq<char> {
    " is outside the supported range"@
}

pub open spec fn field_fault(s: Seq<char>, rule: FieldRule) -> Option<LedgerFault> {
    if rule.hex {
        word_fault(rule.name@, s)
    } else {
        number_fault(rule.name@, s, rule.max as nat, supported_range())
    }
}

pub open spec fn field_value(s: Seq<char>, rule: FieldRule) -> nat {
    if rule.hex {
        hex_value(s)
    } else {
        number_value(s)
    }
}

/// The first field from position `i` on that breaks its rule.
pub open spec fn fields_fault(values: Seq<Seq<char>>, rules: Seq<FieldRule>, i: int) -> Option<
    LedgerFault,
>
    decreases rules.len() - i,
{
    if i < 0 || i >= rules.len() {
        None
    } else {
        either(field_fault(values[i], rules[i]), fields_fault(values, rules, i + 1))
    }
}

/// A row has exactly `expected` values, none of them empty.
pub open spec fn row_shape(s: Seq<char>, expected: nat) -> bool {
    let values = split_on(s, ',');
    values.len() == expected && forall|i: int|
        0 <= i < values.len() ==> (#[trigger] values[i]).len() > 0
}

pub open spec fn row_shape_fault(s: Seq<char>, expected: nat, field: Seq<char>) -> Option<
    LedgerFault,
> {
    fails(
        !row_shape(s, expected),
        LedgerFault::Malformed(
            field + " must contain exactly "@ + decimal(expected) + " non-empty values"@,
        ),
    )
}

/// Why a row breaks its rules.
pub open spec fn row_fault(s: Seq<char>, rules: Seq<FieldRule>, field: Seq<char>) -> Option<
    LedgerFault,
> {
    either(
        row_shape_fault(s, rules.len(), field),
        fields_fault(split_on(s, ','), rules, 0),
    )
}

/// Value `i` of a row.
pub open spec fn row_value(s: Seq<char>, rules: Seq<FieldRule>, i: int) -> nat {
    field_value(split_on(s, ',')[i], rules[i])
}

/// Parses a canonical number.
pub fn parse_number(name: &str, s: &[char], max: u64, range: &str) -> (r: Result<u64, LedgerError>)
    ensures
        fault(r) == number_fault(name@, s@, max as nat, range@),
        r matches Ok(n) ==> n == number_value(s@),
{
    if !is_canonical_number(s) {
        return Err(
            LedgerError::Malformed(join2(name, " is not a canonical non-negative integer")),
        );
    }
    match number_of(s) {
        Some(n) if n <= max => Ok(n),
        _ => Err(LedgerError::Malformed(join2(name, range))),
    }
}

/// Shortens a long text for a message.
pub fn abbreviate(s: &[char]) -> (r: String)
    ensures
        r@ == abbreviated(s@),
{
    if s.len() <= 64 {
        string_of(s)
    } else {
        let head = string_of(piece(s, 0, 64).as_slice());
        join4(head.as_str(), "...(", byte_count_text(s).as_str(), " bytes)")
    }
}

fn byte_count_text(s: &[char]) -> (r: String)
    ensures
        r@ == decimal(byte_len(s@)),
{
    wide_text(text_bytes(s))
}

fn parse_word(name: &str, s: &[char]) -> (r: Result<u64, LedgerError>)
    ensures
        fault(r) == word_fault(name@, s@),
        r matches Ok(n) ==> n == hex_value(s@) && n <= 0xFFFF_FFFF,
{
    if s.len() != 8 || !is_hex(s) {
        return Err(
            LedgerError::InvalidFloatBits { field: name.to_owned(), bits: abbreviate(s) },
        );
    }
    proof {
        lemma_hex_bound(s@);
        lemma_hex_spans();
    }
    Ok(hex_number(s))
}

/// Splits a row and checks its shape.
fn split_row(s: &[char], expected: usize, field: &str) -> (r: Result<Vec<Vec<char>>, LedgerError>)
    ensures
        fault(r) == row_shape_fault(s@, expected as nat, field@),
        r matches Ok(values) ==> texts(values@) == split_on(s@, ',') && values@.len() == expected,
{
    let values = split_chars(s, ',');
    let ghost parts = split_on(s@, ',');
    assert(parts == texts(values@));
    let mut shaped: bool = values.len() == expected;
    let mut k: usize = 0;
    while k < values.len()
        invariant
            k <= values.len(),
            parts == texts(values@),
            shaped == (values.len() == expected && forall|i: int|
                0 <= i < k ==> (#[trigger] parts[i]).len() > 0),
        decreases values.len() - k,
    {
        assert(parts[k as int] == values@[k as int]@);
        if values[k].len() == 0 {
            shaped = false;
        }
        k = k + 1;
    }
    if !shaped {
        return Err(
            LedgerError::Malformed(
                join4(
                    field,
                    " must contain exactly ",
                    unsigned_text(expected as u64).as_str(),
                    " non-empty values",
                ),
            ),
        );
    }
    Ok(values)
}

/// Parses one row by its rules.
pub fn parse_row(s: &[char], rules: &Vec<FieldRule>, field: &str) -> (r: Result<
    Vec<u64>,
    LedgerError,
>)
    requires
        forall|i: int| 0 <= i < rules@.len() && rules@[i].hex ==> rules@[i].max == 0xFFFF_FFFF,
    ensures
        fault(r) == row_fault(s@, rules@, field@),
        r matches Ok(v) ==> {
            &&& v@.len() == rules@.len()
            &&& forall|i: int|
                0 <= i < v@.len() ==> #[trigger] v@[i] == row_value(s@, rules@, i) && v@[i]
                    <= rules@[i].max
        },
{
    let values = split_row(s, rules.len(), field)?;
    let ghost parts = split_on(s@, ',');
    let mut out: Vec<u64> = Vec::new();
    let mut i: usize = 0;
    while i < rules.len()
        invariant
            i <= rules.len() == values.len(),
            parts == texts(values@),
            parts == split_on(s@, ','),
            row_shape(s@, rules@.len()),
            row_fault(s@, rules@, field@) == fields_fault(parts, rules@, i as int),
            forall|k: int|
                0 <= k < rules@.len() && rules@[k].hex ==> rules@[k].max == 0xFFFF_FFFF,
            out@.len() == i,
            forall|k: int|
                0 <= k < i ==> #[trigger] out@[k] == row_value(s@, rules@, k) && out@[k]
                    <= rules@[k].max,
        decreases rules.len() - i,
    {
        assert(parts[i as int] == values@[i as int]@);
        let rule = rules[i];
        let n: u64 = if rule.hex {
            parse_word(rule.name, values[i].as_slice())?
        } else {
            parse_number(
                rule.name,
                values[i].as_slice(),
                rule.max,
                " is outside the supported range",
            )?
        };
        out.push(n);
        i = i + 1;
    }
    Ok(out)
}

/// The class that a text names.
pub open spec fn text_class(s: Seq<char>) -> Option<LedgerClass> {
    if s == "w"@ {
        Some(LedgerClass::Warmup)
    } else if s == "wt"@ {
        Some(LedgerClass::WarmupTail)
    } else if s == "n"@ {
        Some(LedgerClass::NonRanked)
    } else if s == "r0"@ {
        Some(LedgerClass::RankedWindow(0))
    } else if s == "r1"@ {
        Some(LedgerClass::RankedWindow(1))
    } else if s == "r2"@ {
        Some(LedgerClass::RankedWindow(2))
    } else if s == "t0"@ {
        Some(LedgerClass::RankedTail(0))
    } else if s == "t1"@ {
        Some(LedgerClass::RankedTail(1))
    } else if s == "t2"@ {
        Some(LedgerClass::RankedTail(2))
    } else {
        None
    }
}

fn parse_class(s: &[char]) -> (r: Result<LedgerClass, LedgerError>)
    ensures
        fault(r) == fails(
            text_class(s@) is None,
            LedgerFault::Malformed("unknown ledger class "@ + quoted(s@)),
        ),
        r matches Ok(class) ==> text_class(s@) == Some(class),
{
    if chars_are(s, "w") {
        Ok(LedgerClass::Warmup)
    } else if chars_are(s, "wt") {
        Ok(LedgerClass::WarmupTail)
    } else if chars_are(s, "n") {
        Ok(LedgerClass::NonRanked)
    } else if chars_are(s, "r0") {
        Ok(LedgerClass::RankedWindow(0))
    } else if chars_are(s, "r1") {
        Ok(LedgerClass::RankedWindow(1))
    } else if chars_are(s, "r2") {
        Ok(LedgerClass::RankedWindow(2))
    } else if chars_are(s, "t0") {
        Ok(LedgerClass::RankedTail(0))
    } else if chars_are(s, "t1") {
        Ok(LedgerClass::RankedTail(1))
    } else if chars_are(s, "t2") {
        Ok(LedgerClass::RankedTail(2))
    } else {
        Err(LedgerError::Malformed(join2("unknown ledger class ", quote_chars(s).as_str())))
    }
}

/// The metadata that five values stand for.
pub open spec fn meta_of(values: Seq<Seq<char>>) -> LedgerEventMeta {
    LedgerEventMeta {
        class: text_class(values[0])->0,
        stage: number_value(values[1]) as u64,
        client_id: number_value(values[2]) as u16,
        txn_no: number_value(values[3]) as u64,
        parameter_fingerprint: hex_value(values[4]) as u64,
    }
}

pub open spec fn meta_text_fault(s: Seq<char>) -> Option<LedgerFault> {
    let values = split_on(s, ',');
    either(
        row_shape_fault(s, 5, "event metadata"@),
        either(
            fails(
                text_class(values[0]) is None,
                LedgerFault::Malformed("unknown ledger class "@ + quoted(values[0])),
            ),
            either(
                number_fault("event stage"@, values[1], u64::MAX as nat, supported_range()),
                either(
                    number_fault(
                        "event client_id"@,
                        values[2],
                        u16::MAX as nat,
                        supported_range(),
                    ),
                    either(
                        number_fault(
                            "event txn_no"@,
                            values[3],
                            u64::MAX as nat,
                            supported_range(),
                        ),
                        either(
                            fails(
                                !(values[4].len() == 16 && all_hex(values[4])),
                                LedgerFault::Malformed(
                                    "event parameter_fingerprint is not canonical lower-case hexadecimal"@,
                                ),
                            ),
                            meta_fault(meta_of(values)),
                        ),
                    ),
                ),
            ),
        ),
    )
}

fn parse_meta(s: &[char]) -> (r: Result<LedgerEventMeta, LedgerError>)
    ensures
        fault(r) == meta_text_fault(s@),
        r matches Ok(meta) ==> meta == meta_of(split_on(s@, ',')),
{
    let values = split_row(s, 5, "event metadata")?;
    let ghost parts = split_on(s@, ',');
    assert(forall|i: int| 0 <= i < 5 ==> #[trigger] parts[i] == values@[i]@);
    let class = parse_class(values[0].as_slice())?;
    let stage: u64 = parse_number(
        "event stage",
        values[1].as_slice(),
        0xFFFF_FFFF_FFFF_FFFF,
        " is outside the supported range",
    )?;
    let client_id: u64 = parse_number(
        "event client_id",
        values[2].as_slice(),
        0xFFFF,
        " is outside the supported range",
    )?;
    let txn_no: u64 = parse_number(
        "event txn_no",
        values[3].as_slice(),
        0xFFFF_FFFF_FFFF_FFFF,
        " is outside the supported range",
    )?;
    if values[4].len() != 16 || !is_hex(values[4].as_slice()) {
        return Err(
            LedgerError::Malformed(
                "event parameter_fingerprint is not canonical lower-case hexadecimal".to_owned(),
            ),
        );
    }
    let parameter_fingerprint: u64 = hex_number(values[4].as_slice());
    let meta = LedgerEventMeta {
        class,
        stage,
        client_id: client_id as u16,
        txn_no,
        parameter_fingerprint,
    };
    meta.validate()?;
    Ok(meta)
}


pub open spec fn line_rules() -> Seq<FieldRule> {
    seq![
        number_rule("NewOrder line number", 0xFF),
        number_rule("NewOrder item_id", 0xFFFF_FFFF),
        number_rule("NewOrder supply warehouse", 0xFFFF),
        number_rule("NewOrder quantity", 0xFF),
        word_rule("NewOrder line amount"),
    ]
}

pub open spec fn new_order_rules() -> Seq<FieldRule> {
    seq![
        number_rule("NewOrder warehouse_id", 0xFFFF),
        number_rule("NewOrder district_id", 0xFF),
        number_rule("NewOrder order_id", 0x7FFF_FFFF),
        number_rule("NewOrder customer_id", 0xFFFF),
    ]
}

pub open spec fn payment_rules() -> Seq<FieldRule> {
    seq![
        number_rule("Payment warehouse_id", 0xFFFF),
        number_rule("Payment district_id", 0xFF),
        number_rule("Payment customer warehouse", 0xFFFF),
        number_rule("Payment customer district", 0xFF),
        number_rule("Payment customer_id", 0x7FFF_FFFF),
        word_rule("Payment amount"),
        word_rule("Payment warehouse before"),
        word_rule("Payment warehouse after"),
        word_rule("Payment district before"),
        word_rule("Payment district after"),
        word_rule("Payment customer balance before"),
        word_rule("Payment customer balance after"),
        word_rule("Payment customer ytd before"),
        word_rule("Payment customer ytd after"),
        number_rule("Payment customer payment count before", 0x7FFF_FFFF),
        number_rule("Payment customer delivery count before", 0x7FFF_FFFF),
        number_rule("Payment customer payment count after", 0x7FFF_FFFF),
        number_rule("Payment customer delivery count after", 0x7FFF_FFFF),
    ]
}

pub open spec fn order_rules() -> Seq<FieldRule> {
    seq![
        number_rule("Delivery district_id", 0xFF),
        number_rule("Delivery order_id", 0x7FFF_FFFF),
        number_rule("Delivery customer_id", 0x7FFF_FFFF),
        number_rule("Delivery line_count", 0xFF),
        word_rule("Delivery customer amount"),
        word_rule("Delivery customer balance before"),
        word_rule("Delivery customer balance after"),
        number_rule("Delivery customer payment count before", 0x7FFF_FFFF),
        number_rule("Delivery customer delivery count before", 0x7FFF_FFFF),
        number_rule("Delivery customer payment count after", 0x7FFF_FFFF),
        number_rule("Delivery customer delivery count after", 0x7FFF_FFFF),
    ]
}

pub open spec fn delivery_rules() -> Seq<FieldRule> {
    seq![
        number_rule("Delivery warehouse_id", 0xFFFF),
        number_rule("Delivery carrier_id", 0xFF),
    ]
}

pub open spec fn rollback_rules() -> Seq<FieldRule> {
    seq![
        number_rule("rollback warehouse_id", 0xFFFF),
        number_rule("rollback district_id", 0xFF),
    ]
}

fn number_field(name: &'static str, max: u64) -> (r: FieldRule)
    ensures
        r == number_rule(name, max),
{
    FieldRule { name, max, hex: false }
}

fn word_field(name: &'static str) -> (r: FieldRule)
    ensures
        r == word_rule(name),
{
    FieldRule { name, max: 0xFFFF_FFFF, hex: true }
}

/// The line that a row stands for.
pub open spec fn line_of(s: Seq<char>) -> NewOrderLineDelta {
    let rules = line_rules();
    NewOrderLineDelta {
        number: row_value(s, rules, 0) as u8,
        item_id: row_value(s, rules, 1) as u32,
        supply_warehouse: row_value(s, rules, 2) as u16,
        quantity: row_value(s, rules, 3) as u8,
        amount_bits: row_value(s, rules, 4) as u32,
    }
}

fn parse_line(s: &[char]) -> (r: Result<NewOrderLineDelta, LedgerError>)
    ensures
        fault(r) == row_fault(s@, line_rules(), "NewOrder line"@),
        r matches Ok(line) ==> line == line_of(s@),
{
    let rules: Vec<FieldRule> = vec![
        number_field("NewOrder line number", 0xFF),
        number_field("NewOrder item_id", 0xFFFF_FFFF),
        number_field("NewOrder supply warehouse", 0xFFFF),
        number_field("NewOrder quantity", 0xFF),
        word_field("NewOrder line amount"),
    ];
    assert(rules@ =~= line_rules());
    let v = parse_row(s, &rules, "NewOrder line")?;
    Ok(
        NewOrderLineDelta {
            number: v[0] as u8,
            item_id: v[1] as u32,
            supply_warehouse: v[2] as u16,
            quantity: v[3] as u8,
            amount_bits: v[4] as u32,
        },
    )
}

/// The first line from position `i` on that breaks the rules.
pub open spec fn line_rows_fault(rows: Seq<Seq<char>>, i: int) -> Option<LedgerFault>
    decreases rows.len() - i,
{
    if i < 0 || i >= rows.len() {
        None
    } else {
        either(row_fault(rows[i], line_rules(), "NewOrder line"@), line_rows_fault(rows, i + 1))
    }
}

/// The rows of a list section; an empty section has none.
pub open spec fn section_rows(s: Seq<char>) -> Seq<Seq<char>> {
    if s.len() == 0 {
        Seq::empty()
    } else {
        split_on(s, ';')
    }
}

fn split_section(s: &[char]) -> (r: Vec<Vec<char>>)
    ensures
        texts(r@) == section_rows(s@),
{
    if s.len() == 0 {
        let r: Vec<Vec<char>> = Vec::new();
        assert(texts(r@) =~= section_rows(s@));
        r
    } else {
        split_chars(s, ';')
    }
}

pub open spec fn lines_of(rows: Seq<Seq<char>>) -> Seq<NewOrderLineDelta> {
    Seq::new(rows.len(), |i: int| line_of(rows[i]))
}

fn parse_lines(s: &[char]) -> (r: Result<Vec<NewOrderLineDelta>, LedgerError>)
    ensures
        fault(r) == line_rows_fault(section_rows(s@), 0),
        r matches Ok(lines) ==> lines@ == lines_of(section_rows(s@)),
{
    let rows = split_section(s);
    let ghost all = section_rows(s@);
    let mut lines: Vec<NewOrderLineDelta> = Vec::new();
    let mut i: usize = 0;
    while i < rows.len()
        invariant
            i <= rows.len(),
            all == texts(rows@),
            all == section_rows(s@),
            line_rows_fault(all, 0) == line_rows_fault(all, i as int),
            lines@ == lines_of(all).subrange(0, i as int),
        decreases rows.len() - i,
    {
        assert(all[i as int] == rows@[i as int]@);
        lines.push(parse_line(rows[i].as_slice())?);
        assert(lines@ =~= lines_of(all).subrange(0, i as int + 1));
        i = i + 1;
    }
    assert(lines@ =~= lines_of(all));
    Ok(lines)
}

/// The delivered order that a row stands for.
pub open spec fn order_of(s: Seq<char>) -> DeliveredOrderDelta {
    let rules = order_rules();
    DeliveredOrderDelta {
        district_id: row_value(s, rules, 0) as u8,
        order_id: row_value(s, rules, 1) as i32,
        customer_id: row_value(s, rules, 2) as i32,
        line_count: row_value(s, rules, 3) as u8,
        customer_amount_bits: row_value(s, rules, 4) as u32,
        customer_balance_before_bits: row_value(s, rules, 5) as u32,
        customer_balance_after_bits: row_value(s, rules, 6) as u32,
        customer_payment_count_before: row_value(s, rules, 7) as i32,
        customer_delivery_count_before: row_value(s, rules, 8) as i32,
        customer_payment_count_after: row_value(s, rules, 9) as i32,
        customer_delivery_count_after: row_value(s, rules, 10) as i32,
    }
}

fn parse_order(s: &[char]) -> (r: Result<DeliveredOrderDelta, LedgerError>)
    ensures
        fault(r) == row_fault(s@, order_rules(), "Delivery order"@),
        r matches Ok(order) ==> order == order_of(s@),
{
    let rules: Vec<FieldRule> = vec![
        number_field("Delivery district_id", 0xFF),
        number_field("Delivery order_id", 0x7FFF_FFFF),
        number_field("Delivery customer_id", 0x7FFF_FFFF),
        number_field("Delivery line_count", 0xFF),
        word_field("Delivery customer amount"),
        word_field("Delivery customer balance before"),
        word_field("Delivery customer balance after"),
        number_field("Delivery customer payment count before", 0x7FFF_FFFF),
        number_field("Delivery customer delivery count before", 0x7FFF_FFFF),
        number_field("Delivery customer payment count after", 0x7FFF_FFFF),
        number_field("Delivery customer delivery count after", 0x7FFF_FFFF),
    ];
    assert(rules@ =~= order_rules());
    let v = parse_row(s, &rules, "Delivery order")?;
    Ok(
        DeliveredOrderDelta {
            district_id: v[0] as u8,
            order_id: v[1] as i32,
            customer_id: v[2] as i32,
            line_count: v[3] as u8,
            customer_amount_bits: v[4] as u32,
            customer_balance_before_bits: v[5] as u32,
            customer_balance_after_bits: v[6] as u32,
            customer_payment_count_before: v[7] as i32,
            customer_delivery_count_before: v[8] as i32,
            customer_payment_count_after: v[9] as i32,
            customer_delivery_count_after: v[10] as i32,
        },
    )
}

/// The first order from position `i` on that breaks the rules.
pub open spec fn order_rows_fault(rows: Seq<Seq<char>>, i: int) -> Option<LedgerFault>
    decreases rows.len() - i,
{
    if i < 0 || i >= rows.len() {
        None
    } else {
        either(row_fault(rows[i], order_rules(), "Delivery order"@), order_rows_fault(rows, i + 1))
    }
}

pub open spec fn orders_of(rows: Seq<Seq<char>>) -> Seq<DeliveredOrderDelta> {
    Seq::new(rows.len(), |i: int| order_of(rows[i]))
}

fn parse_orders(s: &[char]) -> (r: Result<Vec<DeliveredOrderDelta>, LedgerError>)
    ensures
        fault(r) == order_rows_fault(section_rows(s@), 0),
        r matches Ok(orders) ==> orders@ == orders_of(section_rows(s@)),
{
    let rows = split_section(s);
    let ghost all = section_rows(s@);
    let mut orders: Vec<DeliveredOrderDelta> = Vec::new();
    let mut i: usize = 0;
    while i < rows.len()
        invariant
            i <= rows.len(),
            all == texts(rows@),
            all == section_rows(s@),
            order_rows_fault(all, 0) == order_rows_fault(all, i as int),
            orders@ == orders_of(all).subrange(0, i as int),
        decreases rows.len() - i,
    {
        assert(all[i as int] == rows@[i as int]@);
        orders.push(parse_order(rows[i].as_slice())?);
        assert(orders@ =~= orders_of(all).subrange(0, i as int + 1));
        i = i + 1;
    }
    assert(orders@ =~= orders_of(all));
    Ok(orders)
}

/// The Payment that metadata and a row stand for.
pub open spec fn payment_of(meta: LedgerEventMeta, s: Seq<char>) -> PaymentDelta {
    let rules = payment_rules();
    PaymentDelta {
        meta,
        warehouse_id: row_value(s, rules, 0) as u16,
        district_id: row_value(s, rules, 1) as u8,
        customer_warehouse_id: row_value(s, rules, 2) as u16,
        customer_district_id: row_value(s, rules, 3) as u8,
        customer_id: row_value(s, rules, 4) as i32,
        amount_bits: row_value(s, rules, 5) as u32,
        warehouse_before_bits: row_value(s, rules, 6) as u32,
        warehouse_after_bits: row_value(s, rules, 7) as u32,
        district_before_bits: row_value(s, rules, 8) as u32,
        district_after_bits: row_value(s, rules, 9) as u32,
        customer_balance_before_bits: row_value(s, rules, 10) as u32,
        customer_balance_after_bits: row_value(s, rules, 11) as u32,
        customer_ytd_before_bits: row_value(s, rules, 12) as u32,
        customer_ytd_after_bits: row_value(s, rules, 13) as u32,
        customer_payment_count_before: row_value(s, rules, 14) as i32,
        customer_delivery_count_before: row_value(s, rules, 15) as i32,
        customer_payment_count_after: row_value(s, rules, 16) as i32,
        customer_delivery_count_after: row_value(s, rules, 17) as i32,
    }
}

fn parse_payment(meta: LedgerEventMeta, s: &[char]) -> (r: Result<PaymentDelta, LedgerError>)
    ensures
        fault(r) == row_fault(s@, payment_rules(), "Payment"@),
        r matches Ok(delta) ==> delta == payment_of(meta, s@),
{
    let rules: Vec<FieldRule> = vec![
        number_field("Payment warehouse_id", 0xFFFF),
        number_field("Payment district_id", 0xFF),
        number_field("Payment customer warehouse", 0xFFFF),
        number_field("Payment customer district", 0xFF),
        number_field("Payment customer_id", 0x7FFF_FFFF),
        word_field("Payment amount"),
        word_field("Payment warehouse before"),
        word_field("Payment warehouse after"),
        word_field("Payment district before"),
        word_field("Payment district after"),
        word_field("Payment customer balance before"),
        word_field("Payment customer balance after"),
        word_field("Payment customer ytd before"),
        word_field("Payment customer ytd after"),
        number_field("Payment customer payment count before", 0x7FFF_FFFF),
        number_field("Payment customer delivery count before", 0x7FFF_FFFF),
        number_field("Payment customer payment count after", 0x7FFF_FFFF),
        number_field("Payment customer delivery count after", 0x7FFF_FFFF),
    ];
    assert(rules@ =~= payment_rules());
    let v = parse_row(s, &rules, "Payment")?;
    Ok(
        PaymentDelta {
            meta,
            warehouse_id: v[0] as u16,
            district_id: v[1] as u8,
            customer_warehouse_id: v[2] as u16,
            customer_district_id: v[3] as u8,
            customer_id: v[4] as i32,
            amount_bits: v[5] as u32,
            warehouse_before_bits: v[6] as u32,
            warehouse_after_bits: v[7] as u32,
            district_before_bits: v[8] as u32,
            district_after_bits: v[9] as u32,
            customer_balance_before_bits: v[10] as u32,
            customer_balance_after_bits: v[11] as u32,
            customer_ytd_before_bits: v[12] as u32,
            customer_ytd_after_bits: v[13] as u32,
            customer_payment_count_before: v[14] as i32,
            customer_delivery_count_before: v[15] as i32,
            customer_payment_count_after: v[16] as i32,
            customer_delivery_count_after: v[17] as i32,
        },
    )
}

/// The event that sections stand for.
pub open spec fn event_of(sections: Seq<Seq<char>>) -> EventModel {
    let meta = meta_of(split_on(sections[1], ','));
    if sections[0] == "N"@ {
        EventModel::NewOrder(
            NewOrderModel {
                meta,
                warehouse_id: row_value(sections[2], new_order_rules(), 0) as u16,
                district_id: row_value(sections[2], new_order_rules(), 1) as u8,
                order_id: row_value(sections[2], new_order_rules(), 2) as i32,
                customer_id: row_value(sections[2], new_order_rules(), 3) as u16,
                lines: lines_of(section_rows(sections[3])),
            },
        )
    } else if sections[0] == "P"@ {
        EventModel::Payment(payment_of(meta, sections[2]))
    } else if sections[0] == "D"@ {
        EventModel::Delivery(
            DeliveryModel {
                meta,
                warehouse_id: row_value(sections[2], delivery_rules(), 0) as u16,
                carrier_id: row_value(sections[2], delivery_rules(), 1) as u8,
                orders: orders_of(section_rows(sections[3])),
            },
        )
    } else if sections[0] == "O"@ {
        EventModel::OrderStatus { meta }
    } else if sections[0] == "S"@ {
        EventModel::StockLevel { meta, low_stock_count: number_value(sections[2]) as i32 }
    } else {
        EventModel::ExpectedRollback {
            meta,
            warehouse_id: row_value(sections[2], rollback_rules(), 0) as u16,
            district_id: row_value(sections[2], rollback_rules(), 1) as u8,
        }
    }
}

/// Why the sections of a NewOrder are malformed.
pub open spec fn new_order_sections_fault(sections: Seq<Seq<char>>) -> Option<LedgerFault> {
    either(
        meta_text_fault(sections[1]),
        either(
            row_fault(sections[2], new_order_rules(), "NewOrder header"@),
            line_rows_fault(section_rows(sections[3]), 0),
        ),
    )
}

/// Why the sections of a Payment are malformed.
pub open spec fn payment_sections_fault(sections: Seq<Seq<char>>) -> Option<LedgerFault> {
    either(
        row_shape_fault(sections[2], 18, "Payment"@),
        either(
            meta_text_fault(sections[1]),
            row_fault(sections[2], payment_rules(), "Payment"@),
        ),
    )
}

/// Why the sections of a Delivery are malformed.
pub open spec fn delivery_sections_fault(sections: Seq<Seq<char>>) -> Option<LedgerFault> {
    either(
        row_shape_fault(sections[2], 2, "Delivery header"@),
        either(
            order_rows_fault(section_rows(sections[3]), 0),
            either(
                meta_text_fault(sections[1]),
                row_fault(sections[2], delivery_rules(), "Delivery header"@),
            ),
        ),
    )
}

/// Why the sections of a StockLevel are malformed.
pub open spec fn stock_level_sections_fault(sections: Seq<Seq<char>>) -> Option<LedgerFault> {
    either(
        meta_text_fault(sections[1]),
        number_fault(
            "StockLevel low_stock_count"@,
            sections[2],
            i32::MAX as nat,
            supported_range(),
        ),
    )
}

/// Why the sections of a rollback are malformed.
pub open spec fn rollback_sections_fault(sections: Seq<Seq<char>>) -> Option<LedgerFault> {
    either(
        row_shape_fault(sections[2], 2, "expected rollback partition"@),
        either(
            meta_text_fault(sections[1]),
            row_fault(sections[2], rollback_rules(), "expected rollback partition"@),
        ),
    )
}

/// Why sections are malformed, by kind.
pub open spec fn kind_sections_fault(sections: Seq<Seq<char>>) -> Option<LedgerFault> {
    if sections[0] == "N"@ && sections.len() == 4 {
        new_order_sections_fault(sections)
    } else if sections[0] == "P"@ && sections.len() == 3 {
        payment_sections_fault(sections)
    } else if sections[0] == "D"@ && sections.len() == 4 {
        delivery_sections_fault(sections)
    } else if sections[0] == "O"@ && sections.len() == 2 {
        meta_text_fault(sections[1])
    } else if sections[0] == "S"@ && sections.len() == 3 {
        stock_level_sections_fault(sections)
    } else if sections[0] == "R"@ && sections.len() == 3 {
        rollback_sections_fault(sections)
    } else {
        Some(
            LedgerFault::Malformed(
                "unknown or malformed ledger event kind "@ + quoted(sections[0]),
            ),
        )
    }
}

/// Why sections do not form an event; the event rules come last.
pub open spec fn sections_fault(sections: Seq<Seq<char>>) -> Option<LedgerFault> {
    either(kind_sections_fault(sections), event_fault(event_of(sections)))
}

pub proof fn lemma_kinds_differ()
    ensures
        "N"@ != "P"@,
        "N"@ != "D"@,
        "N"@ != "O"@,
        "N"@ != "S"@,
        "N"@ != "R"@,
        "P"@ != "D"@,
        "P"@ != "O"@,
        "P"@ != "S"@,
        "P"@ != "R"@,
        "D"@ != "O"@,
        "D"@ != "S"@,
        "D"@ != "R"@,
        "O"@ != "S"@,
        "O"@ != "R"@,
        "S"@ != "R"@,
{
    reveal_strlit("N");
    reveal_strlit("P");
    reveal_strlit("D");
    reveal_strlit("O");
    reveal_strlit("S");
    reveal_strlit("R");
    assert("N"@[0] == 'N' && "P"@[0] == 'P' && "D"@[0] == 'D' && "O"@[0] == 'O' && "S"@[0] == 'S'
        && "R"@[0] == 'R');
}

fn parse_new_order_sections(sections: &Vec<Vec<char>>) -> (r: Result<LedgerEvent, LedgerError>)
    requires
        sections@.len() == 4,
        sections@[0]@ == "N"@,
    ensures
        fault(r) == new_order_sections_fault(texts(sections@)),
        r matches Ok(event) ==> event@ == event_of(texts(sections@)),
{
    let ghost all = texts(sections@);
    assert(all[1] == sections@[1]@ && all[2] == sections@[2]@ && all[3] == sections@[3]@);
    let meta = parse_meta(sections[1].as_slice())?;
    let rules: Vec<FieldRule> = vec![
        number_field("NewOrder warehouse_id", 0xFFFF),
        number_field("NewOrder district_id", 0xFF),
        number_field("NewOrder order_id", 0x7FFF_FFFF),
        number_field("NewOrder customer_id", 0xFFFF),
    ];
    assert(rules@ =~= new_order_rules());
    let v = parse_row(sections[2].as_slice(), &rules, "NewOrder header")?;
    let lines = parse_lines(sections[3].as_slice())?;
    Ok(
        LedgerEvent::NewOrder(
            NewOrderDelta {
                meta,
                warehouse_id: v[0] as u16,
                district_id: v[1] as u8,
                order_id: v[2] as i32,
                customer_id: v[3] as u16,
                lines,
            },
        ),
    )
}

fn parse_payment_sections(sections: &Vec<Vec<char>>) -> (r: Result<LedgerEvent, LedgerError>)
    requires
        sections@.len() == 3,
        sections@[0]@ == "P"@,
    ensures
        fault(r) == payment_sections_fault(texts(sections@)),
        r matches Ok(event) ==> event@ == event_of(texts(sections@)),
{
    let ghost all = texts(sections@);
    proof {
        assert(all[1] == sections@[1]@ && all[2] == sections@[2]@);
        lemma_kinds_differ();
    }
    split_row(sections[2].as_slice(), 18, "Payment")?;
    let meta = parse_meta(sections[1].as_slice())?;
    Ok(LedgerEvent::Payment(parse_payment(meta, sections[2].as_slice())?))
}

fn parse_delivery_sections(sections: &Vec<Vec<char>>) -> (r: Result<LedgerEvent, LedgerError>)
    requires
        sections@.len() == 4,
        sections@[0]@ == "D"@,
    ensures
        fault(r) == delivery_sections_fault(texts(sections@)),
        r matches Ok(event) ==> event@ == event_of(texts(sections@)),
{
    let ghost all = texts(sections@);
    proof {
        assert(all[1] == sections@[1]@ && all[2] == sections@[2]@ && all[3] == sections@[3]@);
        lemma_kinds_differ();
    }
    split_row(sections[2].as_slice(), 2, "Delivery header")?;
    let orders = parse_orders(sections[3].as_slice())?;
    let meta = parse_meta(sections[1].as_slice())?;
    let rules: Vec<FieldRule> = vec![
        number_field("Delivery warehouse_id", 0xFFFF),
        number_field("Delivery carrier_id", 0xFF),
    ];
    assert(rules@ =~= delivery_rules());
    let v = parse_row(sections[2].as_slice(), &rules, "Delivery header")?;
    Ok(
        LedgerEvent::Delivery(
            DeliveryDelta { meta, warehouse_id: v[0] as u16, carrier_id: v[1] as u8, orders },
        ),
    )
}

fn parse_stock_level_sections(sections: &Vec<Vec<char>>) -> (r: Result<LedgerEvent, LedgerError>)
    requires
        sections@.len() == 3,
        sections@[0]@ == "S"@,
    ensures
        fault(r) == stock_level_sections_fault(texts(sections@)),
        r matches Ok(event) ==> event@ == event_of(texts(sections@)),
{
    let ghost all = texts(sections@);
    proof {
        assert(all[1] == sections@[1]@ && all[2] == sections@[2]@);
        lemma_kinds_differ();
    }
    let meta = parse_meta(sections[1].as_slice())?;
    let low_stock_count: u64 = parse_number(
        "StockLevel low_stock_count",
        sections[2].as_slice(),
        0x7FFF_FFFF,
        " is outside the supported range",
    )?;
    Ok(LedgerEvent::StockLevel { meta, low_stock_count: low_stock_count as i32 })
}

fn parse_rollback_sections(sections: &Vec<Vec<char>>) -> (r: Result<LedgerEvent, LedgerError>)
    requires
        sections@.len() == 3,
        sections@[0]@ == "R"@,
    ensures
        fault(r) == rollback_sections_fault(texts(sections@)),
        r matches Ok(event) ==> event@ == event_of(texts(sections@)),
{
    let ghost all = texts(sections@);
    proof {
        assert(all[1] == sections@[1]@ && all[2] == sections@[2]@);
        lemma_kinds_differ();
    }
    split_row(sections[2].as_slice(), 2, "expected rollback partition")?;
    let meta = parse_meta(sections[1].as_slice())?;
    let rules: Vec<FieldRule> = vec![
        number_field("rollback warehouse_id", 0xFFFF),
        number_field("rollback district_id", 0xFF),
    ];
    assert(rules@ =~= rollback_rules());
    let v = parse_row(sections[2].as_slice(), &rules, "expected rollback partition")?;
    Ok(
        LedgerEvent::ExpectedRollback {
            meta,
            warehouse_id: v[0] as u16,
            district_id: v[1] as u8,
        },
    )
}

fn parse_kind_sections(sections: &Vec<Vec<char>>) -> (r: Result<LedgerEvent, LedgerError>)
    requires
        sections@.len() >= 1,
    ensures
        fault(r) == kind_sections_fault(texts(sections@)),
        r matches Ok(event) ==> event@ == event_of(texts(sections@)),
{
    let ghost all = texts(sections@);
    proof {
        lemma_kinds_differ();
        assert(forall|i: int| 0 <= i < all.len() ==> #[trigger] all[i] == sections@[i]@);
    }
    let kind = sections[0].as_slice();
    let count: usize = sections.len();
    if chars_are(kind, "N") && count == 4 {
        parse_new_order_sections(sections)
    } else if chars_are(kind, "P") && count == 3 {
        parse_payment_sections(sections)
    } else if chars_are(kind, "D") && count == 4 {
        parse_delivery_sections(sections)
    } else if chars_are(kind, "O") && count == 2 {
        Ok(LedgerEvent::OrderStatus { meta: parse_meta(sections[1].as_slice())? })
    } else if chars_are(kind, "S") && count == 3 {
        parse_stock_level_sections(sections)
    } else if chars_are(kind, "R") && count == 3 {
        parse_rollback_sections(sections)
    } else {
        Err(
            LedgerError::Malformed(
                join2("unknown or malformed ledger event kind ", quote_chars(kind).as_str()),
            ),
        )
    }
}

/// Parses an event.
pub fn parse_event(encoded: &[char]) -> (r: Result<LedgerEvent, LedgerError>)
    ensures
        fault(r) == sections_fault(split_on(encoded@, '|')),
        r matches Ok(event) ==> event@ == event_of(split_on(encoded@, '|')),
{
    let sections = split_chars(encoded, '|');
    let event = parse_kind_sections(&sections)?;
    event.validate()?;
    Ok(event)
}

} // verus!
