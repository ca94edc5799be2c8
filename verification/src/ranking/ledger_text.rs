//! Versioned text form of a run ledger.
//!
//! Integers are canonical decimals and binary32 words are eight lower-case
//! hexadecimal digits, so a ledger has one text.
use vstd::prelude::*;

use crate::fields::{
    all_hex, byte_len, canonical_number, hex_value, join_texts, joined, number_value, split_on,
    string_texts, terminated, text_lines,
};
use crate::ranking::ledger::{
    EventModel, LedgerFault, PartitionDelta, amounts_fault, delta_fault, either, fails,
    partition_fault, partition_position,
};
use crate::ranking::ledger_event_text::{
    abbreviated, event_of, event_string, event_text, number_fault, sections_fault,
    supported_range, word_text,
};
use crate::ranking::ledger_rules::ledger_fault;
use crate::ranking::run_ledger::{LedgerModel, RunLedger, shaped};
use crate::text::{decimal, join2, push_hex, quoted, signed_decimal, signed_text, unsigned_text};

verus! {

/// The fields that stand once each, in the order in which they are required.
pub open spec fn global_names() -> Seq<&'static str> {
    seq![
        "new_orders",
        "new_order_lines",
        "remote_new_order_lines",
        "stock_ytd_delta",
        "payments",
        "delivery_commits",
        "delivered_orders",
        "delivered_order_lines",
        "order_status_commits",
        "stock_level_commits",
        "expected_rollbacks",
        "new_order_line_amount_bits",
        "payment_amount_bits",
        "delivery_customer_amount_bits",
        "event_count",
    ]
}

/// Name of a global field.
pub open spec fn global_name(i: int) -> Seq<char> {
    global_names()[i]@
}

/// A field and its value on one line.
pub open spec fn named_line(name: Seq<char>, text: Seq<char>) -> Seq<char> {
    name.push('=') + text
}

/// Words, eight digits each.
pub open spec fn words_text(words: Seq<u32>) -> Seq<char>
    decreases words.len(),
{
    if words.len() == 0 {
        Seq::empty()
    } else {
        words_text(words.drop_last()) + word_text(words.last())
    }
}

/// Value of a global field.
pub open spec fn global_text(m: LedgerModel, i: int) -> Seq<char> {
    if i == 0 {
        signed_decimal(m.new_orders as int)
    } else if i == 1 {
        signed_decimal(m.new_order_lines as int)
    } else if i == 2 {
        signed_decimal(m.remote_new_order_lines as int)
    } else if i == 3 {
        signed_decimal(m.stock_ytd_delta as int)
    } else if i == 4 {
        signed_decimal(m.payments as int)
    } else if i == 5 {
        signed_decimal(m.delivery_commits as int)
    } else if i == 6 {
        signed_decimal(m.delivered_orders as int)
    } else if i == 7 {
        signed_decimal(m.delivered_order_lines as int)
    } else if i == 8 {
        signed_decimal(m.order_status_commits as int)
    } else if i == 9 {
        signed_decimal(m.stock_level_commits as int)
    } else if i == 10 {
        signed_decimal(m.expected_rollbacks as int)
    } else if i == 11 {
        words_text(m.new_order_line_amount_bits)
    } else if i == 12 {
        words_text(m.payment_amount_bits)
    } else if i == 13 {
        words_text(m.delivery_customer_amount_bits)
    } else {
        decimal(m.events.len())
    }
}

/// The global field on line `k` after the header: the event count stands
/// before the amount lists.
pub open spec fn global_order(k: int) -> int {
    if k < 11 {
        k
    } else if k == 11 {
        14
    } else {
        k - 1
    }
}

/// Key of a partition.
pub open spec fn partition_name(i: int) -> Seq<char> {
    joined(seq!["partition"@, decimal((i / 10 + 1) as nat), decimal((i % 10 + 1) as nat)], '.')
}

/// The counters of a partition.
pub open spec fn partition_values(delta: PartitionDelta) -> Seq<Seq<char>> {
    seq![
        signed_decimal(delta.new_orders as int),
        signed_decimal(delta.new_order_lines as int),
        signed_decimal(delta.delivered_orders as int),
        signed_decimal(delta.delivered_order_lines as int),
    ]
}

/// Key of an event.
pub open spec fn event_name(i: int) -> Seq<char> {
    "event."@ + decimal(i as nat)
}

/// The format header.
pub open spec fn format_header() -> Seq<char> {
    "RMDB_TPCC_RUN_LEDGER_V2"@
}

/// Line `k` of a ledger.
pub open spec fn ledger_line(m: LedgerModel, k: int) -> Seq<char> {
    if k == 0 {
        format_header()
    } else if k < 16 {
        named_line(global_name(global_order(k - 1)), global_text(m, global_order(k - 1)))
    } else if k < 516 {
        named_line(partition_name(k - 16), joined(partition_values(m.partitions[k - 16]), ','))
    } else {
        named_line(event_name(k - 516), event_text(m.events[k - 516]))
    }
}

/// The lines of a ledger.
pub open spec fn ledger_lines(m: LedgerModel) -> Seq<Seq<char>> {
    Seq::new(516 + m.events.len(), |k: int| ledger_line(m, k))
}

/// The text of a ledger.
pub open spec fn ledger_text(m: LedgerModel) -> Seq<char> {
    terminated(ledger_lines(m))
}

fn push_line(out: &mut String, line: &str)
    ensures
        final(out)@ == (old(out)@ + line@).push('\n'),
{
    out.append(line);
    out.push('\n');
}

fn named_string(name: &str, text: &str) -> (r: String)
    ensures
        r@ == named_line(name@, text@),
{
    let mut out = name.to_owned();
    out.push('=');
    out.append(text);
    out
}

fn words_string(words: &Vec<u32>) -> (r: String)
    ensures
        r@ == words_text(words@),
{
    let mut out = String::new();
    let mut i: usize = 0;
    assert(words@.subrange(0, 0) =~= Seq::<u32>::empty());
    assert(out@ =~= words_text(words@.subrange(0, 0)));
    while i < words.len()
        invariant
            i <= words.len(),
            out@ == words_text(words@.subrange(0, i as int)),
        decreases words.len() - i,
    {
        assert(words@.subrange(0, i as int + 1).drop_last() =~= words@.subrange(0, i as int));
        push_hex(&mut out, words[i] as u64, 8);
        i = i + 1;
    }
    assert(words@.subrange(0, i as int) =~= words@);
    out
}

/// Name of a global field.
pub fn global_field(i: usize) -> (r: &'static str)
    requires
        i < 15,
    ensures
        r@ == global_name(i as int),
{
    if i == 0 {
        "new_orders"
    } else if i == 1 {
        "new_order_lines"
    } else if i == 2 {
        "remote_new_order_lines"
    } else if i == 3 {
        "stock_ytd_delta"
    } else if i == 4 {
        "payments"
    } else if i == 5 {
        "delivery_commits"
    } else if i == 6 {
        "delivered_orders"
    } else if i == 7 {
        "delivered_order_lines"
    } else if i == 8 {
        "order_status_commits"
    } else if i == 9 {
        "stock_level_commits"
    } else if i == 10 {
        "expected_rollbacks"
    } else if i == 11 {
        "new_order_line_amount_bits"
    } else if i == 12 {
        "payment_amount_bits"
    } else if i == 13 {
        "delivery_customer_amount_bits"
    } else {
        "event_count"
    }
}

pub fn partition_string(i: usize) -> (r: String)
    requires
        i < 500,
    ensures
        r@ == partition_name(i as int),
{
    let parts: Vec<String> = vec![
        "partition".to_owned(),
        unsigned_text((i / 10 + 1) as u64),
        unsigned_text((i % 10 + 1) as u64),
    ];
    assert(string_texts(parts@) =~= seq![
        "partition"@,
        decimal((i / 10 + 1) as nat),
        decimal((i % 10 + 1) as nat),
    ]);
    join_texts(&parts, '.')
}

fn delta_string(delta: &PartitionDelta) -> (r: String)
    ensures
        r@ == joined(partition_values(*delta), ','),
{
    let parts: Vec<String> = vec![
        signed_text(delta.new_orders),
        signed_text(delta.new_order_lines),
        signed_text(delta.delivered_orders),
        signed_text(delta.delivered_order_lines),
    ];
    assert(string_texts(parts@) =~= partition_values(*delta));
    join_texts(&parts, ',')
}

proof fn lemma_next_line(lines: Seq<Seq<char>>, k: int)
    requires
        0 <= k < lines.len(),
    ensures
        terminated(lines.subrange(0, k + 1)) == (terminated(lines.subrange(0, k)) + lines[k]).push(
            '\n',
        ),
{
    assert(lines.subrange(0, k + 1).drop_last() =~= lines.subrange(0, k));
    assert(lines.subrange(0, k + 1).last() == lines[k]);
}

impl RunLedger {
    fn global_string(&self, i: usize) -> (r: String)
        requires
            i < 15,
        ensures
            r@ == global_text(self@, i as int),
    {
        if i == 0 {
            signed_text(self.new_orders)
        } else if i == 1 {
            signed_text(self.new_order_lines)
        } else if i == 2 {
            signed_text(self.remote_new_order_lines)
        } else if i == 3 {
            signed_text(self.stock_ytd_delta)
        } else if i == 4 {
            signed_text(self.payments)
        } else if i == 5 {
            signed_text(self.delivery_commits)
        } else if i == 6 {
            signed_text(self.delivered_orders)
        } else if i == 7 {
            signed_text(self.delivered_order_lines)
        } else if i == 8 {
            signed_text(self.order_status_commits)
        } else if i == 9 {
            signed_text(self.stock_level_commits)
        } else if i == 10 {
            signed_text(self.expected_rollbacks)
        } else if i == 11 {
            words_string(&self.new_order_line_amount_bits)
        } else if i == 12 {
            words_string(&self.payment_amount_bits)
        } else if i == 13 {
            words_string(&self.delivery_customer_amount_bits)
        } else {
            unsigned_text(self.events.len() as u64)
        }
    }

    /// Encode a canonical field order using decimal integers and raw, lower
    /// case, eight-hex-digit binary32 words.
    pub fn encode(&self) -> (r: String)
        requires
            shaped(self@),
        ensures
            r@ == ledger_text(self@),
    {
        let ghost lines = ledger_lines(self@);
        let mut out = String::new();
        proof {
            assert(lines.subrange(0, 0) =~= Seq::<Seq<char>>::empty());
            assert(out@ =~= terminated(lines.subrange(0, 0)));
            lemma_next_line(lines, 0);
        }
        push_line(&mut out, "RMDB_TPCC_RUN_LEDGER_V2");
        let mut k: usize = 0;
        while k < 15
            invariant
                k <= 15,
                lines == ledger_lines(self@),
                out@ == terminated(lines.subrange(0, k as int + 1)),
            decreases 15 - k,
        {
            let field: usize = if k < 11 {
                k
            } else if k == 11 {
                14
            } else {
                k - 1
            };
            let value = self.global_string(field);
            let line = named_string(global_field(field), value.as_str());
            proof {
                assert(lines[k as int + 1] == line@);
                lemma_next_line(lines, k as int + 1);
            }
            push_line(&mut out, line.as_str());
            k = k + 1;
        }
        let mut i: usize = 0;
        while i < self.partitions.len()
            invariant
                i <= self.partitions.len() == 500,
                lines == ledger_lines(self@),
                out@ == terminated(lines.subrange(0, i as int + 16)),
            decreases self.partitions.len() - i,
        {
            let key = partition_string(i);
            let value = delta_string(&self.partitions[i]);
            let line = named_string(key.as_str(), value.as_str());
            proof {
                assert(lines[i as int + 16] == line@);
                lemma_next_line(lines, i as int + 16);
            }
            push_line(&mut out, line.as_str());
            i = i + 1;
        }
        let mut j: usize = 0;
        while j < self.events.len()
            invariant
                j <= self.events.len(),
                lines == ledger_lines(self@),
                out@ == terminated(lines.subrange(0, j as int + 516)),
            decreases self.events.len() - j,
        {
            let key = join2("event.", unsigned_text(j as u64).as_str());
            let value = event_string(&self.events[j]);
            let line = named_string(key.as_str(), value.as_str());
            proof {
                assert(self@.events[j as int] == self.events@[j as int]@);
                assert(lines[j as int + 516] == line@);
                lemma_next_line(lines, j as int + 516);
            }
            push_line(&mut out, line.as_str());
            j = j + 1;
        }
        proof {
            assert(lines.subrange(0, lines.len() as int) =~= lines);
        }
        out
    }
}

/// Position of the first `c` from `i` on.
pub open spec fn find_char(s: Seq<char>, c: char, i: int) -> Option<int>
    decreases s.len() - i,
{
    if i < 0 || i >= s.len() {
        None
    } else if s[i] == c {
        Some(i)
    } else {
        find_char(s, c, i + 1)
    }
}

/// Whether a text begins with another.
pub open spec fn starts_with(s: Seq<char>, prefix: Seq<char>) -> bool {
    s.len() >= prefix.len() && s.subrange(0, prefix.len() as int) == prefix
}

/// Index of a global field from `i` on.
pub open spec fn global_index(key: Seq<char>, i: int) -> Option<int>
    decreases 15 - i,
{
    if i < 0 || i >= 15 {
        None
    } else if global_name(i) == key {
        Some(i)
    } else {
        global_index(key, i + 1)
    }
}

/// The fields read so far.
#[verifier::ext_equal]
pub struct DecodeModel {
    pub globals: Seq<Option<Seq<char>>>,
    pub partitions: Seq<Option<PartitionDelta>>,
    pub events: Map<usize, Seq<char>>,
}

/// Nothing read.
pub open spec fn decode_start() -> DecodeModel {
    DecodeModel {
        globals: Seq::new(15, |i: int| None::<Seq<char>>),
        partitions: Seq::new(500, |i: int| None::<PartitionDelta>),
        events: Map::empty(),
    }
}

pub open spec fn bad_partition_key(key: Seq<char>) -> LedgerFault {
    LedgerFault::Malformed("bad partition key "@ + quoted(key))
}

/// A canonical number that fits in 32 signed bits.
pub open spec fn component_ok(s: Seq<char>) -> bool {
    canonical_number(s) && number_value(s) <= i32::MAX
}

pub open spec fn partition_key_fault(key: Seq<char>) -> Option<LedgerFault> {
    let parts = split_on(key, '.');
    either(
        fails(
            parts.len() != 3 || !component_ok(parts[1]) || !component_ok(parts[2]),
            bad_partition_key(key),
        ),
        partition_fault(number_value(parts[1]) as i32, number_value(parts[2]) as i32),
    )
}

/// Position that a partition key names.
pub open spec fn partition_key_position(key: Seq<char>) -> int {
    let parts = split_on(key, '.');
    partition_position(number_value(parts[1]) as int, number_value(parts[2]) as int)
}

pub open spec fn counter_range() -> Seq<char> {
    " is outside the supported counter range"@
}

pub open spec fn count_fault(name: Seq<char>, s: Seq<char>) -> Option<LedgerFault> {
    number_fault(name, s, i64::MAX as nat, counter_range())
}

/// Piece `i`, or nothing.
pub open spec fn piece_at(pieces: Seq<Seq<char>>, i: int) -> Seq<char> {
    if i < pieces.len() {
        pieces[i]
    } else {
        Seq::empty()
    }
}

/// The counters that a partition value stands for.
pub open spec fn partition_delta_of(s: Seq<char>) -> PartitionDelta {
    let pieces = split_on(s, ',');
    PartitionDelta {
        new_orders: number_value(piece_at(pieces, 0)) as i64,
        new_order_lines: number_value(piece_at(pieces, 1)) as i64,
        delivered_orders: number_value(piece_at(pieces, 2)) as i64,
        delivered_order_lines: number_value(piece_at(pieces, 3)) as i64,
    }
}

pub open spec fn partition_value_fault(key: Seq<char>, s: Seq<char>) -> Option<LedgerFault> {
    let pieces = split_on(s, ',');
    either(
        count_fault(key, piece_at(pieces, 0)),
        either(
            count_fault(key, piece_at(pieces, 1)),
            either(
                count_fault(key, piece_at(pieces, 2)),
                either(
                    count_fault(key, piece_at(pieces, 3)),
                    either(
                        fails(
                            pieces.len() > 4,
                            LedgerFault::Malformed(
                                "partition delta "@ + quoted(key) + " must contain four counters"@,
                            ),
                        ),
                        delta_fault(partition_delta_of(s)),
                    ),
                ),
            ),
        ),
    )
}

/// The index text of an event key.
pub open spec fn event_suffix(key: Seq<char>) -> Seq<char> {
    key.subrange(6, key.len() as int)
}

pub open spec fn event_key_fault(key: Seq<char>) -> Option<LedgerFault> {
    either(
        number_fault(
            "indexed field"@,
            event_suffix(key),
            u64::MAX as nat,
            supported_range(),
        ),
        fails(
            number_value(event_suffix(key)) > usize::MAX,
            LedgerFault::Overflow("indexed field"@),
        ),
    )
}

/// Why a field cannot be read after those before it.
pub open spec fn field_line_fault(m: DecodeModel, key: Seq<char>, text: Seq<char>) -> Option<
    LedgerFault,
> {
    if starts_with(key, "partition."@) {
        either(
            partition_key_fault(key),
            either(
                fails(
                    m.partitions[partition_key_position(key)] is Some,
                    LedgerFault::DuplicateField(key),
                ),
                partition_value_fault(key, text),
            ),
        )
    } else if starts_with(key, "event."@) {
        either(
            event_key_fault(key),
            fails(
                m.events.contains_key(number_value(event_suffix(key)) as usize),
                LedgerFault::DuplicateField(key),
            ),
        )
    } else {
        match global_index(key, 0) {
            None => Some(LedgerFault::UnknownField(key)),
            Some(i) => fails(m.globals[i] is Some, LedgerFault::DuplicateField(key)),
        }
    }
}

/// The fields after one more.
pub open spec fn field_line_next(m: DecodeModel, key: Seq<char>, text: Seq<char>) -> DecodeModel {
    if starts_with(key, "partition."@) {
        DecodeModel {
            partitions: m.partitions.update(
                partition_key_position(key),
                Some(partition_delta_of(text)),
            ),
            ..m
        }
    } else if starts_with(key, "event."@) {
        DecodeModel {
            events: m.events.insert(number_value(event_suffix(key)) as usize, text),
            ..m
        }
    } else {
        DecodeModel { globals: m.globals.update(global_index(key, 0)->0, Some(text)), ..m }
    }
}

/// Key of a line with an equals sign.
pub open spec fn line_key(line: Seq<char>) -> Seq<char> {
    line.subrange(0, find_char(line, '=', 0)->0)
}

/// Value of a line with an equals sign.
pub open spec fn line_value(line: Seq<char>) -> Seq<char> {
    line.subrange(find_char(line, '=', 0)->0 + 1, line.len() as int)
}

pub open spec fn decode_line_fault(m: DecodeModel, line: Seq<char>) -> Option<LedgerFault> {
    either(
        fails(line.len() == 0, LedgerFault::Malformed("empty line is not permitted"@)),
        either(
            fails(
                find_char(line, '=', 0) is None,
                LedgerFault::Malformed("missing '=' in "@ + quoted(line)),
            ),
            field_line_fault(m, line_key(line), line_value(line)),
        ),
    )
}

pub open spec fn decode_line_next(m: DecodeModel, line: Seq<char>) -> DecodeModel {
    field_line_next(m, line_key(line), line_value(line))
}

/// The first line from position `i` on that cannot be read.
pub open spec fn decode_lines_fault(m: DecodeModel, lines: Seq<Seq<char>>, i: int) -> Option<
    LedgerFault,
>
    decreases lines.len() - i,
{
    if i < 0 || i >= lines.len() {
        None
    } else {
        either(
            decode_line_fault(m, lines[i]),
            decode_lines_fault(decode_line_next(m, lines[i]), lines, i + 1),
        )
    }
}

/// The fields after the lines from position `i` on.
pub open spec fn decode_lines_next(m: DecodeModel, lines: Seq<Seq<char>>, i: int) -> DecodeModel
    decreases lines.len() - i,
{
    if i < 0 || i >= lines.len() {
        m
    } else {
        decode_lines_next(decode_line_next(m, lines[i]), lines, i + 1)
    }
}

/// The first global field from `i` on that is missing.
pub open spec fn missing_global_fault(m: DecodeModel, i: int) -> Option<LedgerFault>
    decreases 15 - i,
{
    if i < 0 || i >= 15 {
        None
    } else {
        either(
            fails(m.globals[i] is None, LedgerFault::MissingField(global_name(i))),
            missing_global_fault(m, i + 1),
        )
    }
}

/// The first partition from `i` on that is missing.
pub open spec fn missing_partition_fault(m: DecodeModel, i: int) -> Option<LedgerFault>
    decreases 500 - i,
{
    if i < 0 || i >= 500 {
        None
    } else {
        either(
            fails(m.partitions[i] is None, LedgerFault::MissingField(partition_name(i))),
            missing_partition_fault(m, i + 1),
        )
    }
}

/// The counters, in field order: the eleven counts.
pub open spec fn counts_fault(m: DecodeModel, i: int) -> Option<LedgerFault>
    decreases 11 - i,
{
    if i < 0 || i >= 11 {
        None
    } else {
        either(count_fault(global_name(i), m.globals[i]->0), counts_fault(m, i + 1))
    }
}

/// Value of a counter field.
pub open spec fn count_of(m: DecodeModel, i: int) -> i64 {
    number_value(m.globals[i]->0) as i64
}

/// The first event from `i` on that is missing or malformed.
pub open spec fn event_texts_fault(events: Map<usize, Seq<char>>, count: nat, i: int) -> Option<
    LedgerFault,
>
    decreases count - i,
{
    if i < 0 || i >= count {
        None
    } else {
        either(
            either(
                fails(
                    !events.contains_key(i as usize),
                    LedgerFault::MissingField(event_name(i)),
                ),
                sections_fault(split_on(events[i as usize], '|')),
            ),
            event_texts_fault(events, count, i + 1),
        )
    }
}

/// The events that the texts stand for.
pub open spec fn events_of(events: Map<usize, Seq<char>>, count: nat) -> Seq<EventModel> {
    Seq::new(count, |i: int| event_of(split_on(events[i as usize], '|')))
}

/// The words of a hexadecimal text.
pub open spec fn words_of(s: Seq<char>) -> Seq<u32> {
    Seq::new((s.len() / 8) as nat, |i: int| hex_value(s.subrange(8 * i, 8 * i + 8)) as u32)
}

pub open spec fn words_fault(field: Seq<char>, s: Seq<char>, count: i64) -> Option<LedgerFault> {
    either(
        fails(count < 0 || count > usize::MAX, LedgerFault::Overflow("FLOAT32 count"@)),
        either(
            fails(count * 8 > usize::MAX, LedgerFault::Overflow("FLOAT32 encoded length"@)),
            either(
                fails(
                    byte_len(s) != count * 8,
                    LedgerFault::Inconsistent(
                        field + " encoded length "@ + decimal(byte_len(s))
                            + " differs from expected "@ + decimal((count * 8) as nat),
                    ),
                ),
                either(
                    fails(
                        !all_hex(s),
                        LedgerFault::InvalidFloatBits { field, bits: abbreviated(s) },
                    ),
                    amounts_fault(field, words_of(s), 0),
                ),
            ),
        ),
    )
}

/// The ledger that the fields stand for.
pub open spec fn decoded_ledger(m: DecodeModel) -> LedgerModel {
    LedgerModel {
        new_orders: count_of(m, 0),
        new_order_lines: count_of(m, 1),
        remote_new_order_lines: count_of(m, 2),
        stock_ytd_delta: count_of(m, 3),
        payments: count_of(m, 4),
        delivery_commits: count_of(m, 5),
        delivered_orders: count_of(m, 6),
        delivered_order_lines: count_of(m, 7),
        order_status_commits: count_of(m, 8),
        stock_level_commits: count_of(m, 9),
        expected_rollbacks: count_of(m, 10),
        new_order_line_amount_bits: words_of(m.globals[11]->0),
        payment_amount_bits: words_of(m.globals[12]->0),
        delivery_customer_amount_bits: words_of(m.globals[13]->0),
        partitions: Seq::new(500, |i: int| m.partitions[i]->0),
        events: events_of(m.events, number_value(m.globals[14]->0)),
    }
}

/// Why the fields do not form a ledger.
pub open spec fn assemble_fault(m: DecodeModel) -> Option<LedgerFault> {
    let count = number_value(m.globals[14]->0);
    either(
        missing_global_fault(m, 0),
        either(
            missing_partition_fault(m, 0),
            either(
                counts_fault(m, 0),
                either(
                    count_fault("event_count"@, m.globals[14]->0),
                    either(
                        fails(count > usize::MAX, LedgerFault::Overflow("event_count"@)),
                        either(
                            fails(
                                m.events.len() != count,
                                LedgerFault::Inconsistent(
                                    "event_count "@ + decimal(count) + " differs from "@ + decimal(
                                        m.events.len(),
                                    ) + " encoded events"@,
                                ),
                            ),
                            either(
                                event_texts_fault(m.events, count, 0),
                                either(
                                    amount_words_fault(m),
                                    ledger_fault(decoded_ledger(m)),
                                ),
                            ),
                        ),
                    ),
                ),
            ),
        ),
    )
}

pub open spec fn amount_words_fault(m: DecodeModel) -> Option<LedgerFault> {
    either(
        words_fault("new_order_line_amount_bits"@, m.globals[11]->0, count_of(m, 1)),
        either(
            words_fault("payment_amount_bits"@, m.globals[12]->0, count_of(m, 4)),
            words_fault("delivery_customer_amount_bits"@, m.globals[13]->0, count_of(m, 6)),
        ),
    )
}

/// Why a text is not a ledger.
pub open spec fn decode_fault(s: Seq<char>) -> Option<LedgerFault> {
    let lines = text_lines(s);
    if lines.len() == 0 {
        Some(LedgerFault::Malformed("empty ledger"@))
    } else if lines[0] != format_header() {
        Some(LedgerFault::UnsupportedVersion(lines[0]))
    } else {
        either(
            decode_lines_fault(decode_start(), lines, 1),
            assemble_fault(decode_lines_next(decode_start(), lines, 1)),
        )
    }
}

/// The ledger that a text stands for.
pub open spec fn decode_value(s: Seq<char>) -> LedgerModel {
    decoded_ledger(decode_lines_next(decode_start(), text_lines(s), 1))
}

} // verus!
