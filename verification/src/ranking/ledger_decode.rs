//! Reading the text form of a run ledger.
use vstd::prelude::*;

use crate::fields::{
    all_hex, chars_are, chars_equal, chars_of, hex_number, is_canonical_number, is_hex,
    is_hex_digit, lemma_hex_bound, lemma_hex_byte_len, lemma_hex_spans, number_of, number_value,
    piece, split_chars, split_lines, split_on, string_of, text_bytes, text_lines, texts,
};
use crate::ranking::event_lines::EventLines;
use crate::ranking::ledger::{
    LedgerError, LedgerEvent, PARTITION_COUNT, PartitionDelta, either, fault, partition_index,
    validate_amount_bits,
};
use crate::ranking::ledger_event_text::{abbreviate, parse_event, parse_number};
use crate::ranking::ledger_rules::law_consistent_ledger_is_well_formed;
use crate::ranking::ledger_text::{
    DecodeModel, assemble_fault, bad_partition_key, component_ok, count_fault, count_of,
    counts_fault, decode_fault, decode_line_fault, decode_line_next, decode_lines_fault,
    decode_lines_next, decode_start, decode_value, decoded_ledger, event_texts_fault, events_of,
    field_line_fault, field_line_next, find_char, format_header, global_field, global_index,
    missing_global_fault, missing_partition_fault, partition_delta_of, partition_key_fault,
    partition_key_position, partition_string, partition_value_fault, piece_at, starts_with,
    words_fault, words_of,
};
use crate::ranking::run_ledger::{RunLedger, event_models, events_valid, shaped};
use crate::text::{join2, join3, join5, quote_chars, unsigned_text, wide_text};

verus! {

/// The fields read so far.
struct DecodeState {
    globals: Vec<Option<Vec<char>>>,
    partitions: Vec<Option<PartitionDelta>>,
    events: EventLines,
}

/// The content of an optional text.
spec fn option_text(o: Option<Vec<char>>) -> Option<Seq<char>> {
    match o {
        Some(v) => Some(v@),
        None => None,
    }
}

impl DecodeState {
    spec fn model(&self) -> DecodeModel {
        DecodeModel {
            globals: Seq::new(self.globals@.len(), |i: int| option_text(self.globals@[i])),
            partitions: self.partitions@,
            events: self.events@,
        }
    }

    spec fn shaped(&self) -> bool {
        self.globals@.len() == 15 && self.partitions@.len() == 500
    }

    fn new() -> (r: Self)
        ensures
            r.shaped(),
            r.model() == decode_start(),
    {
        let mut globals: Vec<Option<Vec<char>>> = Vec::new();
        let mut i: usize = 0;
        while i < 15
            invariant
                i <= 15,
                globals@.len() == i,
                forall|k: int| 0 <= k < i ==> #[trigger] globals@[k] is None,
            decreases 15 - i,
        {
            globals.push(None);
            i = i + 1;
        }
        let mut partitions: Vec<Option<PartitionDelta>> = Vec::new();
        let mut j: usize = 0;
        while j < PARTITION_COUNT
            invariant
                j <= 500,
                partitions@ == Seq::new(j as nat, |k: int| None::<PartitionDelta>),
            decreases 500 - j,
        {
            partitions.push(None);
            j = j + 1;
        }
        let r = DecodeState { globals, partitions, events: EventLines::new() };
        assert(r.model() =~= decode_start());
        r
    }

    fn read_partition(&mut self, key: &[char], text: &[char]) -> (r: Result<(), LedgerError>)
        requires
            old(self).shaped(),
            starts_with(key@, "partition."@),
        ensures
            final(self).shaped(),
            fault(r) == field_line_fault(old(self).model(), key@, text@),
            r is Ok ==> final(self).model() == field_line_next(old(self).model(), key@, text@),
    {
        let index: usize = parse_partition_key(key)?;
        if self.partitions[index].is_some() {
            return Err(LedgerError::DuplicateField(string_of(key)));
        }
        let delta = parse_partition_delta(key, text)?;
        self.partitions.set(index, Some(delta));
        assert(self.model() =~= field_line_next(old(self).model(), key@, text@));
        Ok(())
    }

    fn read_event(&mut self, key: &[char], text: Vec<char>) -> (r: Result<(), LedgerError>)
        requires
            old(self).shaped(),
            !starts_with(key@, "partition."@),
            starts_with(key@, "event."@),
        ensures
            final(self).shaped(),
            fault(r) == field_line_fault(old(self).model(), key@, text@),
            r is Ok ==> final(self).model() == field_line_next(old(self).model(), key@, text@),
    {
        proof {
            reveal_strlit("event.");
        }
        let suffix = piece(key, 6, key.len());
        let index: u64 = parse_number(
            "indexed field",
            suffix.as_slice(),
            0xFFFF_FFFF_FFFF_FFFF,
            " is outside the supported range",
        )?;
        if index > usize::MAX as u64 {
            return Err(LedgerError::Overflow("indexed field"));
        }
        let ghost before = self.model();
        if self.events.insert(index as usize, text) {
            return Err(LedgerError::DuplicateField(string_of(key)));
        }
        assert(self.model() =~= field_line_next(before, key@, text@));
        Ok(())
    }

    fn read_global(&mut self, key: &[char], text: Vec<char>) -> (r: Result<(), LedgerError>)
        requires
            old(self).shaped(),
            !starts_with(key@, "partition."@),
            !starts_with(key@, "event."@),
        ensures
            final(self).shaped(),
            fault(r) == field_line_fault(old(self).model(), key@, text@),
            r is Ok ==> final(self).model() == field_line_next(old(self).model(), key@, text@),
    {
        let ghost before = self.model();
        let mut i: usize = 0;
        while i < 15
            invariant
                i <= 15,
                self.shaped(),
                self.model() == before,
                before == old(self).model(),
                !starts_with(key@, "partition."@),
                !starts_with(key@, "event."@),
                global_index(key@, 0) == global_index(key@, i as int),
            decreases 15 - i,
        {
            if chars_are(key, global_field(i)) {
                assert(before.globals[i as int] == option_text(self.globals@[i as int]));
                if self.globals[i].is_some() {
                    return Err(LedgerError::DuplicateField(string_of(key)));
                }
                self.globals.set(i, Some(text));
                assert(self.model() =~= field_line_next(before, key@, text@));
                return Ok(());
            }
            i = i + 1;
        }
        Err(LedgerError::UnknownField(string_of(key)))
    }

    fn read_line(&mut self, line: &[char]) -> (r: Result<(), LedgerError>)
        requires
            old(self).shaped(),
        ensures
            final(self).shaped(),
            fault(r) == decode_line_fault(old(self).model(), line@),
            r is Ok ==> final(self).model() == decode_line_next(old(self).model(), line@),
    {
        if line.len() == 0 {
            return Err(LedgerError::Malformed("empty line is not permitted".to_owned()));
        }
        match find_equals(line) {
            None => Err(
                LedgerError::Malformed(join2("missing '=' in ", quote_chars(line).as_str())),
            ),
            Some(at) => {
                let key = piece(line, 0, at);
                let text = piece(line, at + 1, line.len());
                if begins_with(key.as_slice(), "partition.") {
                    self.read_partition(key.as_slice(), text.as_slice())
                } else if begins_with(key.as_slice(), "event.") {
                    self.read_event(key.as_slice(), text)
                } else {
                    self.read_global(key.as_slice(), text)
                }
            },
        }
    }

    fn check_complete(&self) -> (r: Result<(), LedgerError>)
        requires
            self.shaped(),
        ensures
            fault(r) == either(
                missing_global_fault(self.model(), 0),
                missing_partition_fault(self.model(), 0),
            ),
            r is Ok ==> forall|i: int| 0 <= i < 15 ==> (#[trigger] self.globals@[i]) is Some,
            r is Ok ==> forall|i: int| 0 <= i < 500 ==> (#[trigger] self.partitions@[i]) is Some,
    {
        let ghost m = self.model();
        let mut i: usize = 0;
        while i < 15
            invariant
                i <= 15,
                self.shaped(),
                m == self.model(),
                missing_global_fault(m, 0) == missing_global_fault(m, i as int),
                forall|k: int| 0 <= k < i ==> (#[trigger] self.globals@[k]) is Some,
            decreases 15 - i,
        {
            assert(m.globals[i as int] == option_text(self.globals@[i as int]));
            if self.globals[i].is_none() {
                return Err(LedgerError::MissingField(global_field(i).to_owned()));
            }
            i = i + 1;
        }
        let mut j: usize = 0;
        while j < PARTITION_COUNT
            invariant
                j <= 500,
                self.shaped(),
                m == self.model(),
                missing_global_fault(m, 0) is None,
                missing_partition_fault(m, 0) == missing_partition_fault(m, j as int),
                forall|k: int| 0 <= k < j ==> (#[trigger] self.partitions@[k]) is Some,
            decreases 500 - j,
        {
            if self.partitions[j].is_none() {
                return Err(LedgerError::MissingField(partition_string(j)));
            }
            j = j + 1;
        }
        Ok(())
    }

    fn global(&self, i: usize) -> (r: &Vec<char>)
        requires
            self.shaped(),
            i < 15,
            self.globals@[i as int] is Some,
        ensures
            r@ == self.model().globals[i as int]->0,
    {
        self.globals[i].as_ref().unwrap()
    }

    fn counts(&self) -> (r: Result<Vec<i64>, LedgerError>)
        requires
            self.shaped(),
            forall|i: int| 0 <= i < 15 ==> (#[trigger] self.globals@[i]) is Some,
        ensures
            fault(r) == counts_fault(self.model(), 0),
            r matches Ok(counts) ==> counts@.len() == 11 && forall|i: int|
                0 <= i < 11 ==> #[trigger] counts@[i] == count_of(self.model(), i),
    {
        let ghost m = self.model();
        let mut counts: Vec<i64> = Vec::new();
        let mut i: usize = 0;
        while i < 11
            invariant
                i <= 11,
                self.shaped(),
                forall|k: int| 0 <= k < 15 ==> (#[trigger] self.globals@[k]) is Some,
                m == self.model(),
                counts_fault(m, 0) == counts_fault(m, i as int),
                counts@.len() == i,
                forall|k: int| 0 <= k < i ==> #[trigger] counts@[k] == count_of(m, k),
            decreases 11 - i,
        {
            let text = self.global(i);
            let n: u64 = parse_number(
                global_field(i),
                text.as_slice(),
                0x7FFF_FFFF_FFFF_FFFF,
                " is outside the supported counter range",
            )?;
            counts.push(n as i64);
            i = i + 1;
        }
        Ok(counts)
    }

    fn take_partitions(&self) -> (r: Vec<PartitionDelta>)
        requires
            self.shaped(),
            forall|i: int| 0 <= i < 500 ==> (#[trigger] self.partitions@[i]) is Some,
        ensures
            r@ == Seq::new(500, |i: int| self.model().partitions[i]->0),
    {
        let mut r: Vec<PartitionDelta> = Vec::new();
        let mut i: usize = 0;
        while i < PARTITION_COUNT
            invariant
                i <= 500,
                self.shaped(),
                forall|k: int| 0 <= k < 500 ==> (#[trigger] self.partitions@[k]) is Some,
                r@ == Seq::new(i as nat, |k: int| self.model().partitions[k]->0),
            decreases 500 - i,
        {
            assert(self.partitions@[i as int] is Some);
            if let Some(delta) = self.partitions[i] {
                r.push(delta);
            }
            i = i + 1;
        }
        r
    }

    fn take_events(&self, count: usize) -> (r: Result<Vec<LedgerEvent>, LedgerError>)
        ensures
            fault(r) == event_texts_fault(self.events@, count as nat, 0),
            r matches Ok(events) ==> event_models(events@) == events_of(
                self.events@,
                count as nat,
            ),
    {
        let ghost lines = self.events@;
        let mut events: Vec<LedgerEvent> = Vec::new();
        let mut i: usize = 0;
        assert(event_models(events@) =~= events_of(lines, count as nat).subrange(0, 0));
        while i < count
            invariant
                i <= count,
                lines == self.events@,
                event_texts_fault(lines, count as nat, 0) == event_texts_fault(
                    lines,
                    count as nat,
                    i as int,
                ),
                event_models(events@) == events_of(lines, count as nat).subrange(0, i as int),
            decreases count - i,
        {
            match self.events.get(i) {
                None => {
                    return Err(
                        LedgerError::MissingField(
                            join2("event.", unsigned_text(i as u64).as_str()),
                        ),
                    );
                },
                Some(text) => {
                    let event = parse_event(text.as_slice())?;
                    let ghost before = events@;
                    events.push(event);
                    assert(event_models(events@) =~= event_models(before).push(event@));
                    assert(event_models(events@) =~= events_of(lines, count as nat).subrange(
                        0,
                        i as int + 1,
                    ));
                },
            }
            i = i + 1;
        }
        assert(event_models(events@) =~= events_of(lines, count as nat));
        Ok(events)
    }

    fn assemble(&self) -> (r: Result<RunLedger, LedgerError>)
        requires
            self.shaped(),
        ensures
            fault(r) == assemble_fault(self.model()),
            r matches Ok(ledger) ==> ledger@ == decoded_ledger(self.model()) && shaped(ledger@)
                && events_valid(ledger@.events),
    {
        let ghost m = self.model();
        self.check_complete()?;
        let partitions = self.take_partitions();
        let counts = self.counts()?;
        let event_count: u64 = parse_number(
            "event_count",
            self.global(14).as_slice(),
            0x7FFF_FFFF_FFFF_FFFF,
            " is outside the supported counter range",
        )?;
        if event_count > usize::MAX as u64 {
            return Err(LedgerError::Overflow("event_count"));
        }
        if self.events.len() as u64 != event_count {
            return Err(
                LedgerError::Inconsistent(
                    join5(
                        "event_count ",
                        unsigned_text(event_count).as_str(),
                        " differs from ",
                        unsigned_text(self.events.len() as u64).as_str(),
                        " encoded events",
                    ),
                ),
            );
        }
        let events = self.take_events(event_count as usize)?;
        let new_order_line_amount_bits = parse_words(
            "new_order_line_amount_bits",
            self.global(11).as_slice(),
            counts[1],
        )?;
        let payment_amount_bits = parse_words(
            "payment_amount_bits",
            self.global(12).as_slice(),
            counts[4],
        )?;
        let delivery_customer_amount_bits = parse_words(
            "delivery_customer_amount_bits",
            self.global(13).as_slice(),
            counts[6],
        )?;
        let ledger = RunLedger {
            new_orders: counts[0],
            new_order_lines: counts[1],
            remote_new_order_lines: counts[2],
            stock_ytd_delta: counts[3],
            payments: counts[4],
            delivery_commits: counts[5],
            delivered_orders: counts[6],
            delivered_order_lines: counts[7],
            order_status_commits: counts[8],
            stock_level_commits: counts[9],
            expected_rollbacks: counts[10],
            new_order_line_amount_bits,
            payment_amount_bits,
            delivery_customer_amount_bits,
            partitions,
            events,
        };
        assert(ledger@ =~= decoded_ledger(m));
        ledger.validate()?;
        proof {
            law_consistent_ledger_is_well_formed(ledger@);
        }
        Ok(ledger)
    }
}

fn find_equals(line: &[char]) -> (r: Option<usize>)
    ensures
        r matches Some(i) ==> find_char(line@, '=', 0) == Some(i as int) && i < line@.len(),
        r is None ==> find_char(line@, '=', 0) is None,
{
    let mut i: usize = 0;
    while i < line.len()
        invariant
            i <= line.len(),
            find_char(line@, '=', 0) == find_char(line@, '=', i as int),
        decreases line.len() - i,
    {
        if line[i] == '=' {
            return Some(i);
        }
        i = i + 1;
    }
    None
}

fn begins_with(s: &[char], prefix: &str) -> (r: bool)
    ensures
        r == starts_with(s@, prefix@),
{
    let start = chars_of(prefix);
    if s.len() < start.len() {
        return false;
    }
    let head = piece(s, 0, start.len());
    chars_equal(head.as_slice(), start.as_slice())
}

fn parse_component(s: &[char]) -> (r: Option<i32>)
    ensures
        r is Some <==> component_ok(s@),
        r matches Some(n) ==> n == number_value(s@),
{
    if !is_canonical_number(s) {
        return None;
    }
    match number_of(s) {
        Some(n) if n <= 0x7FFF_FFFF => Some(n as i32),
        _ => None,
    }
}

fn bad_key(key: &[char]) -> (r: LedgerError)
    ensures
        r@ == bad_partition_key(key@),
{
    LedgerError::Malformed(join2("bad partition key ", quote_chars(key).as_str()))
}

fn parse_partition_key(key: &[char]) -> (r: Result<usize, LedgerError>)
    ensures
        fault(r) == partition_key_fault(key@),
        r matches Ok(i) ==> i == partition_key_position(key@) && i < 500,
{
    let parts = split_chars(key, '.');
    let ghost all = split_on(key@, '.');
    assert(forall|i: int| 0 <= i < all.len() ==> #[trigger] all[i] == parts@[i]@);
    if parts.len() != 3 {
        return Err(bad_key(key));
    }
    match (parse_component(parts[1].as_slice()), parse_component(parts[2].as_slice())) {
        (Some(warehouse_id), Some(district_id)) => partition_index(warehouse_id, district_id),
        _ => Err(bad_key(key)),
    }
}

fn parse_count_at(key: &str, pieces: &Vec<Vec<char>>, i: usize) -> (r: Result<i64, LedgerError>)
    ensures
        fault(r) == count_fault(key@, piece_at(texts(pieces@), i as int)),
        r matches Ok(n) ==> n == number_value(piece_at(texts(pieces@), i as int)),
{
    if i < pieces.len() {
        let n: u64 = parse_number(
            key,
            pieces[i].as_slice(),
            0x7FFF_FFFF_FFFF_FFFF,
            " is outside the supported counter range",
        )?;
        Ok(n as i64)
    } else {
        Err(
            LedgerError::Malformed(join2(key, " is not a canonical non-negative integer")),
        )
    }
}

fn parse_partition_delta(key: &[char], text: &[char]) -> (r: Result<PartitionDelta, LedgerError>)
    ensures
        fault(r) == partition_value_fault(key@, text@),
        r matches Ok(delta) ==> delta == partition_delta_of(text@),
{
    let name = string_of(key);
    let pieces = split_chars(text, ',');
    let new_orders: i64 = parse_count_at(name.as_str(), &pieces, 0)?;
    let new_order_lines: i64 = parse_count_at(name.as_str(), &pieces, 1)?;
    let delivered_orders: i64 = parse_count_at(name.as_str(), &pieces, 2)?;
    let delivered_order_lines: i64 = parse_count_at(name.as_str(), &pieces, 3)?;
    if pieces.len() > 4 {
        return Err(
            LedgerError::Malformed(
                join3(
                    "partition delta ",
                    quote_chars(key).as_str(),
                    " must contain four counters",
                ),
            ),
        );
    }
    let delta = PartitionDelta {
        new_orders,
        new_order_lines,
        delivered_orders,
        delivered_order_lines,
    };
    delta.validate()?;
    Ok(delta)
}

fn parse_words(field: &str, s: &[char], count: i64) -> (r: Result<Vec<u32>, LedgerError>)
    ensures
        fault(r) == words_fault(field@, s@, count),
        r matches Ok(words) ==> words@ == words_of(s@),
{
    if count < 0 || count as u64 > usize::MAX as u64 {
        return Err(LedgerError::Overflow("FLOAT32 count"));
    }
    let expected: u128 = count as u128 * 8;
    if expected > usize::MAX as u128 {
        return Err(LedgerError::Overflow("FLOAT32 encoded length"));
    }
    let actual: u128 = text_bytes(s);
    if actual != expected {
        return Err(
            LedgerError::Inconsistent(
                join5(
                    field,
                    " encoded length ",
                    wide_text(actual).as_str(),
                    " differs from expected ",
                    wide_text(expected).as_str(),
                ),
            ),
        );
    }
    if !is_hex(s) {
        return Err(
            LedgerError::InvalidFloatBits { field: field.to_owned(), bits: abbreviate(s) },
        );
    }
    proof {
        lemma_hex_byte_len(s@);
    }
    let mut words: Vec<u32> = Vec::new();
    let mut i: usize = 0;
    while i < s.len() / 8
        invariant
            i <= s.len() / 8,
            all_hex(s@),
            words@ == words_of(s@).subrange(0, i as int),
        decreases s.len() / 8 - i,
    {
        let digits = piece(s, 8 * i, 8 * i + 8);
        proof {
            assert(all_hex(digits@)) by {
                assert forall|k: int| 0 <= k < digits@.len() implies is_hex_digit(
                    #[trigger] digits@[k],
                ) by {
                    assert(is_hex_digit(s@[8 * i + k]));
                }
            }
            lemma_hex_bound(digits@);
            lemma_hex_spans();
        }
        words.push(hex_number(digits.as_slice()) as u32);
        assert(words@ =~= words_of(s@).subrange(0, i as int + 1));
        i = i + 1;
    }
    assert(words@ =~= words_of(s@));
    validate_amount_bits(field, words.as_slice())?;
    Ok(words)
}

impl RunLedger {
    /// Reads a ledger back from its text, which fits the machine.
    pub fn decode(input: &str) -> (r: Result<Self, LedgerError>)
        ensures
            input@.len() <= usize::MAX,
            fault(r) == decode_fault(input@),
            r matches Ok(ledger) ==> ledger@ == decode_value(input@) && shaped(ledger@)
                && events_valid(ledger@.events),
    {
        let chars = chars_of(input);
        assert(chars@.len() == chars.len());
        Self::decode_chars(chars.as_slice())
    }

    fn decode_chars(input: &[char]) -> (r: Result<Self, LedgerError>)
        ensures
            fault(r) == decode_fault(input@),
            r matches Ok(ledger) ==> ledger@ == decode_value(input@) && shaped(ledger@)
                && events_valid(ledger@.events),
    {
        let lines = split_lines(input);
        let ghost all = text_lines(input@);
        assert(all == texts(lines@));
        if lines.len() == 0 {
            return Err(LedgerError::Malformed("empty ledger".to_owned()));
        }
        assert(all[0] == lines@[0]@);
        if !chars_are(lines[0].as_slice(), "RMDB_TPCC_RUN_LEDGER_V2") {
            return Err(LedgerError::UnsupportedVersion(string_of(lines[0].as_slice())));
        }
        let mut state = DecodeState::new();
        let mut i: usize = 1;
        while i < lines.len()
            invariant
                1 <= i <= lines.len(),
                all == texts(lines@),
                all == text_lines(input@),
                all[0] == format_header(),
                state.shaped(),
                decode_lines_fault(decode_start(), all, 1) == decode_lines_fault(
                    state.model(),
                    all,
                    i as int,
                ),
                decode_lines_next(decode_start(), all, 1) == decode_lines_next(
                    state.model(),
                    all,
                    i as int,
                ),
            decreases lines.len() - i,
        {
            assert(all[i as int] == lines@[i as int]@);
            state.read_line(lines[i].as_slice())?;
            i = i + 1;
        }
        state.assemble()
    }
}

} // verus!
