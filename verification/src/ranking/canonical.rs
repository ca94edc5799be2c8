//! Canonical bytes: little-endian values of fixed width, lower-case
//! hexadecimal text, and the header of a section.
use vstd::prelude::*;
use vstd::slice::slice_subrange;
use vstd::utf8::encode_utf8;

use crate::accumulator::FloatError;
use crate::checks::{first, refusal, refused_if};
use crate::ranking::bounded_totals::BoundedStatsError;
use crate::ranking::row_checks::bytes_agree;

verus! {

/// Most bytes of a section.
pub const MAX_CORE_SECTION_BYTES: usize = 20_480;

/// Most characters of a section in hexadecimal text.
pub const MAX_CORE_SECTION_HEX_CHARS: usize = 40_960;

/// The version of every section.
pub const SECTION_VERSION: u16 = 1;

/// What a section holds.
#[derive(Clone, Copy, Debug, PartialEq, Eq, Structural)]
pub enum SectionKind {
    PhysicalStats,
    CustomerIntervals,
    StockIntervals,
    PaymentEndpoints,
}

/// The number of a kind in the header.
pub open spec fn kind_number(kind: SectionKind) -> u8 {
    match kind {
        SectionKind::PhysicalStats => 1,
        SectionKind::CustomerIntervals => 2,
        SectionKind::StockIntervals => 3,
        SectionKind::PaymentEndpoints => 4,
    }
}

/// The name of a kind in messages.
pub open spec fn section_name(kind: SectionKind) -> &'static str {
    match kind {
        SectionKind::PhysicalStats => "physical statistics",
        SectionKind::CustomerIntervals => "customer intervals",
        SectionKind::StockIntervals => "stock intervals",
        SectionKind::PaymentEndpoints => "Payment endpoints",
    }
}

impl SectionKind {
    pub fn number(self) -> (r: u8)
        ensures
            r == kind_number(self),
    {
        match self {
            SectionKind::PhysicalStats => 1,
            SectionKind::CustomerIntervals => 2,
            SectionKind::StockIntervals => 3,
            SectionKind::PaymentEndpoints => 4,
        }
    }

    pub fn name(self) -> (r: &'static str)
        ensures
            r == section_name(self),
    {
        match self {
            SectionKind::PhysicalStats => "physical statistics",
            SectionKind::CustomerIntervals => "customer intervals",
            SectionKind::StockIntervals => "stock intervals",
            SectionKind::PaymentEndpoints => "Payment endpoints",
        }
    }
}

/// Why interval samples are refused.
#[derive(Clone, Debug, PartialEq, Eq)]
pub enum IntervalError {
    /// Samples do not ascend strictly by rank and key.
    NonCanonicalSampleOrder { domain: &'static str },
    /// A stock chain does not start at the loaded row.
    StockRootMismatch { warehouse_id: i32, item_id: i32 },
}

/// Why bytes or values are refused.
#[allow(inconsistent_fields)]
#[derive(Clone, Debug, PartialEq, Eq)]
pub enum CoreCodecError {
    OversizedSection { section: &'static str, actual: usize, maximum: usize },
    WriterLimit { maximum: usize },
    Truncated,
    InvalidMagic,
    UnexpectedSection { expected: &'static str, actual: u8 },
    UnsupportedSectionVersion { actual: u16 },
    TrailingBytes { remaining: usize },
    OversizedCount { field: &'static str, actual: u64, maximum: u64 },
    InvalidHexLength,
    InvalidHexDigit,
    InvalidPhysicalStats(BoundedStatsError),
    InvalidAccumulator { field: &'static str, source: FloatError },
    InvalidIntervals(IntervalError),
    MismatchedIntervalMetadata(&'static str),
    InvalidPresenceFlag { field: &'static str, actual: u8 },
}

/// The `width` low bytes of a number, least significant first.
pub open spec fn le_bytes(n: nat, width: nat) -> Seq<u8>
    decreases width,
{
    if width == 0 {
        Seq::empty()
    } else {
        seq![(n % 256) as u8] + le_bytes(n / 256, (width - 1) as nat)
    }
}

/// The number that bytes stand for, least significant first.
pub open spec fn le_value(bytes: Seq<u8>) -> nat
    decreases bytes.len(),
{
    if bytes.len() == 0 {
        0
    } else {
        bytes[0] as nat + 256 * le_value(bytes.drop_first())
    }
}

/// The number of values of `width` bytes.
pub open spec fn le_radix(width: nat) -> nat
    decreases width,
{
    if width == 0 {
        1
    } else {
        256 * le_radix((width - 1) as nat)
    }
}

/// The value of the `width` bytes from `at` on.
pub open spec fn le_at(bytes: Seq<u8>, at: int, width: int) -> nat {
    le_value(bytes.subrange(at, at + width))
}

/// A signed number as the unsigned one with the same bits.
pub open spec fn i32_code(n: i32) -> nat {
    if n < 0 {
        (n + 0x1_0000_0000) as nat
    } else {
        n as nat
    }
}

/// The signed number with the bits of an unsigned one.
pub open spec fn i32_from(n: nat) -> i32 {
    if n >= 0x8000_0000 {
        (n - 0x1_0000_0000) as i32
    } else {
        n as i32
    }
}

pub proof fn lemma_le_len(n: nat, width: nat)
    ensures
        le_bytes(n, width).len() == width,
    decreases width,
{
    if width > 0 {
        lemma_le_len(n / 256, (width - 1) as nat);
    }
}

/// Bytes of a number that fits give the number back.
pub proof fn lemma_le_round_trip(n: nat, width: nat)
    requires
        n < le_radix(width),
    ensures
        le_value(le_bytes(n, width)) == n,
    decreases width,
{
    if width > 0 {
        lemma_le_round_trip(n / 256, (width - 1) as nat);
        let bytes = le_bytes(n, width);
        assert(bytes.drop_first() =~= le_bytes(n / 256, (width - 1) as nat));
    }
}

/// The number that bytes stand for gives the bytes back.
pub proof fn lemma_le_canonical(bytes: Seq<u8>)
    ensures
        le_bytes(le_value(bytes), bytes.len()) == bytes,
        le_value(bytes) < le_radix(bytes.len()),
    decreases bytes.len(),
{
    if bytes.len() > 0 {
        let rest = bytes.drop_first();
        lemma_le_canonical(rest);
        let n = le_value(bytes);
        assert(n % 256 == bytes[0] && n / 256 == le_value(rest));
        assert(le_bytes(n, bytes.len()) =~= bytes);
    } else {
        assert(le_bytes(0, 0) =~= bytes);
    }
}

pub proof fn lemma_le_widths()
    ensures
        le_radix(1) == 0x100,
        le_radix(2) == 0x1_0000,
        le_radix(4) == 0x1_0000_0000,
        le_radix(8) == 0x1_0000_0000_0000_0000,
{
    reveal_with_fuel(le_radix, 9);
}

proof fn lemma_radix_grows(a: nat, b: nat)
    requires
        a <= b,
    ensures
        1 <= le_radix(a) <= le_radix(b),
    decreases b,
{
    if a < b {
        lemma_radix_grows(a, (b - 1) as nat);
    } else if a > 0 {
        lemma_radix_grows((a - 1) as nat, (a - 1) as nat);
    }
}

/// Writes values of fixed width up to a limit.
pub struct CanonicalWriter {
    pub bytes: Vec<u8>,
    pub maximum: usize,
}

impl View for CanonicalWriter {
    type V = Seq<u8>;

    open spec fn view(&self) -> Seq<u8> {
        self.bytes@
    }
}

/// What a write does: it appends some bytes, or refuses them at the limit and
/// changes nothing.
pub open spec fn appends(
    before: CanonicalWriter,
    after: CanonicalWriter,
    r: Result<(), CoreCodecError>,
    bytes: Seq<u8>,
) -> bool {
    &&& after.maximum == before.maximum
    &&& refusal(r) == refused_if(
        before@.len() + bytes.len() > before.maximum,
        CoreCodecError::WriterLimit { maximum: before.maximum },
    )
    &&& r is Ok ==> after@ == before@ + bytes
    &&& r is Err ==> after@ == before@
}

impl CanonicalWriter {
    pub fn new(maximum: usize) -> (r: Self)
        ensures
            r@ == Seq::<u8>::empty(),
            r.maximum == maximum,
    {
        CanonicalWriter { bytes: Vec::new(), maximum }
    }

    fn put_le(&mut self, value: u64, width: u32) -> (r: Result<(), CoreCodecError>)
        requires
            width <= 8,
        ensures
            appends(*old(self), *final(self), r, le_bytes(value as nat, width as nat)),
    {
        proof {
            lemma_le_len(value as nat, width as nat);
        }
        let ghost before = self@;
        if self.bytes.len() > self.maximum || self.maximum - self.bytes.len() < width as usize {
            return Err(CoreCodecError::WriterLimit { maximum: self.maximum });
        }
        let mut left: u64 = value;
        let mut i: u32 = 0;
        assert(before + le_bytes(value as nat, width as nat) =~= self@ + le_bytes(
            left as nat,
            width as nat,
        ));
        while i < width
            invariant
                i <= width <= 8,
                self.maximum == old(self).maximum,
                before == old(self)@,
                before + le_bytes(value as nat, width as nat) == self@ + le_bytes(
                    left as nat,
                    (width - i) as nat,
                ),
            decreases width - i,
        {
            let ghost held = self@;
            let low: u8 = (left % 256) as u8;
            self.bytes.push(low);
            proof {
                let tail = le_bytes(left as nat / 256, (width - i - 1) as nat);
                assert(held + (seq![low] + tail) =~= held.push(low) + tail);
            }
            left = left / 256;
            i = i + 1;
        }
        assert(self@ + le_bytes(left as nat, 0) =~= self@);
        Ok(())
    }

    pub fn put_u8(&mut self, value: u8) -> (r: Result<(), CoreCodecError>)
        ensures
            appends(*old(self), *final(self), r, le_bytes(value as nat, 1)),
    {
        self.put_le(value as u64, 1)
    }

    pub fn put_u16(&mut self, value: u16) -> (r: Result<(), CoreCodecError>)
        ensures
            appends(*old(self), *final(self), r, le_bytes(value as nat, 2)),
    {
        self.put_le(value as u64, 2)
    }

    pub fn put_u32(&mut self, value: u32) -> (r: Result<(), CoreCodecError>)
        ensures
            appends(*old(self), *final(self), r, le_bytes(value as nat, 4)),
    {
        self.put_le(value as u64, 4)
    }

    /// The two's complement of a signed number.
    pub fn put_i32(&mut self, value: i32) -> (r: Result<(), CoreCodecError>)
        ensures
            appends(*old(self), *final(self), r, le_bytes(i32_code(value), 4)),
    {
        let code: u64 = if value < 0 {
            (value as i64 + 0x1_0000_0000i64) as u64
        } else {
            value as u64
        };
        self.put_le(code, 4)
    }

    pub fn put_u64(&mut self, value: u64) -> (r: Result<(), CoreCodecError>)
        ensures
            appends(*old(self), *final(self), r, le_bytes(value as nat, 8)),
    {
        self.put_le(value, 8)
    }

    pub fn put_bytes(&mut self, value: &[u8]) -> (r: Result<(), CoreCodecError>)
        ensures
            appends(*old(self), *final(self), r, value@),
    {
        if self.bytes.len() > self.maximum || self.maximum - self.bytes.len() < value.len() {
            return Err(CoreCodecError::WriterLimit { maximum: self.maximum });
        }
        let ghost before = self@;
        let mut i: usize = 0;
        while i < value.len()
            invariant
                i <= value@.len(),
                self.maximum == old(self).maximum,
                before == old(self)@,
                self@ =~= before + value@.subrange(0, i as int),
            decreases value@.len() - i,
        {
            self.bytes.push(value[i]);
            i = i + 1;
        }
        assert(value@.subrange(0, i as int) =~= value@);
        Ok(())
    }

    pub fn finish(self) -> (r: Vec<u8>)
        ensures
            r@ == self@,
    {
        self.bytes
    }
}

/// Reads values of fixed width without copying.
pub struct CanonicalReader<'a> {
    pub bytes: &'a [u8],
    pub offset: usize,
}

impl<'a> CanonicalReader<'a> {
    /// The position lies in the bytes.
    pub open spec fn wf(self) -> bool {
        self.offset <= self.bytes@.len()
    }

    /// What is left to read.
    pub open spec fn rest(self) -> Seq<u8> {
        self.bytes@.subrange(self.offset as int, self.bytes@.len() as int)
    }
}

/// What a read does: it takes the first bytes of what is left, or finds too few
/// and stays.
pub open spec fn takes<'a, T>(
    before: CanonicalReader<'a>,
    after: CanonicalReader<'a>,
    r: Result<T, CoreCodecError>,
    width: int,
) -> bool {
    &&& after.wf()
    &&& after.bytes == before.bytes
    &&& refusal(r) == refused_if(before.rest().len() < width, CoreCodecError::Truncated)
    &&& r is Ok ==> after.rest() == before.rest().skip(width)
    &&& r is Err ==> after.rest() == before.rest()
}

impl<'a> CanonicalReader<'a> {
    pub fn new(bytes: &'a [u8]) -> (r: Self)
        ensures
            r.wf(),
            r.bytes == bytes,
            r.rest() == bytes@,
    {
        let r = CanonicalReader { bytes, offset: 0 };
        assert(r.rest() =~= bytes@);
        r
    }

    fn get_le(&mut self, width: usize) -> (r: Result<u64, CoreCodecError>)
        requires
            old(self).wf(),
            width <= 8,
        ensures
            takes(*old(self), *final(self), r, width as int),
            r matches Ok(n) ==> n == le_at(old(self).rest(), 0, width as int) && n < le_radix(
                width as nat,
            ),
    {
        let length: usize = self.bytes.len();
        if length - self.offset < width {
            return Err(CoreCodecError::Truncated);
        }
        let ghost s = self.rest().subrange(0, width as int);
        let mut value: u64 = 0;
        let mut i: usize = width;
        proof {
            lemma_le_widths();
            assert(s.subrange(width as int, width as int) =~= Seq::empty());
        }
        while i > 0
            invariant
                i <= width <= 8,
                self.wf(),
                *self == *old(self),
                length == self.bytes@.len(),
                self.offset + width <= length,
                s == self.rest().subrange(0, width as int),
                value == le_value(s.subrange(i as int, width as int)),
                value < le_radix((width - i) as nat),
                le_radix(8) == 0x1_0000_0000_0000_0000,
            decreases i,
        {
            i = i - 1;
            let byte: u8 = self.bytes[self.offset + i];
            proof {
                let part = s.subrange(i as int, width as int);
                assert(part.drop_first() =~= s.subrange(i as int + 1, width as int));
                assert(part[0] == byte);
                lemma_radix_grows((width - i) as nat, 8);
            }
            value = value * 256 + byte as u64;
        }
        assert(s.subrange(0, width as int) =~= s);
        let ghost before = self.rest();
        self.offset = self.offset + width;
        assert(self.rest() =~= before.skip(width as int));
        Ok(value)
    }

    pub fn get_u8(&mut self) -> (r: Result<u8, CoreCodecError>)
        requires
            old(self).wf(),
        ensures
            takes(*old(self), *final(self), r, 1),
            r matches Ok(n) ==> n == le_at(old(self).rest(), 0, 1),
    {
        proof {
            lemma_le_widths();
        }
        Ok(self.get_le(1)? as u8)
    }

    pub fn get_u16(&mut self) -> (r: Result<u16, CoreCodecError>)
        requires
            old(self).wf(),
        ensures
            takes(*old(self), *final(self), r, 2),
            r matches Ok(n) ==> n == le_at(old(self).rest(), 0, 2),
    {
        proof {
            lemma_le_widths();
        }
        Ok(self.get_le(2)? as u16)
    }

    pub fn get_u32(&mut self) -> (r: Result<u32, CoreCodecError>)
        requires
            old(self).wf(),
        ensures
            takes(*old(self), *final(self), r, 4),
            r matches Ok(n) ==> n == le_at(old(self).rest(), 0, 4),
    {
        proof {
            lemma_le_widths();
        }
        Ok(self.get_le(4)? as u32)
    }

    pub fn get_i32(&mut self) -> (r: Result<i32, CoreCodecError>)
        requires
            old(self).wf(),
        ensures
            takes(*old(self), *final(self), r, 4),
            r matches Ok(n) ==> n == i32_from(le_at(old(self).rest(), 0, 4)),
    {
        proof {
            lemma_le_widths();
        }
        let code: u64 = self.get_le(4)?;
        if code >= 0x8000_0000 {
            Ok((code as i64 - 0x1_0000_0000i64) as i32)
        } else {
            Ok(code as i32)
        }
    }

    pub fn get_u64(&mut self) -> (r: Result<u64, CoreCodecError>)
        requires
            old(self).wf(),
        ensures
            takes(*old(self), *final(self), r, 8),
            r matches Ok(n) ==> n == le_at(old(self).rest(), 0, 8),
    {
        self.get_le(8)
    }

    /// Takes some bytes as they are.
    pub fn take(&mut self, length: usize) -> (r: Result<&'a [u8], CoreCodecError>)
        requires
            old(self).wf(),
        ensures
            takes(*old(self), *final(self), r, length as int),
            r matches Ok(part) ==> part@ == old(self).rest().take(length as int),
    {
        if self.bytes.len() - self.offset < length {
            return Err(CoreCodecError::Truncated);
        }
        let ghost before = self.rest();
        let end: usize = self.offset + length;
        let part = slice_subrange(self.bytes, self.offset, end);
        self.offset = end;
        assert(part@ =~= before.take(length as int));
        assert(self.rest() =~= before.skip(length as int));
        Ok(part)
    }

    /// Reads a count that must not exceed `maximum`.
    pub fn bounded_count(&mut self, field: &'static str, maximum: u32) -> (r: Result<
        u32,
        CoreCodecError,
    >)
        requires
            old(self).wf(),
        ensures
            final(self).wf(),
            final(self).bytes == old(self).bytes,
            refusal(r) == bounded_count_fault(old(self).rest(), field, maximum),
            r matches Ok(n) ==> n == le_at(old(self).rest(), 0, 4) && final(self).rest() == old(
                self,
            ).rest().skip(4),
    {
        let actual: u32 = self.get_u32()?;
        if actual > maximum {
            return Err(
                CoreCodecError::OversizedCount {
                    field,
                    actual: actual as u64,
                    maximum: maximum as u64,
                },
            );
        }
        Ok(actual)
    }

    /// Nothing may be left.
    pub fn finish(self) -> (r: Result<(), CoreCodecError>)
        requires
            self.wf(),
        ensures
            refusal(r) == trailing_fault(self.rest()),
    {
        let remaining: usize = self.bytes.len() - self.offset;
        if remaining == 0 {
            Ok(())
        } else {
            Err(CoreCodecError::TrailingBytes { remaining })
        }
    }
}

/// Why a count is refused.
pub open spec fn bounded_count_fault(rest: Seq<u8>, field: &'static str, maximum: u32) -> Option<
    CoreCodecError,
> {
    first(
        refused_if(rest.len() < 4, CoreCodecError::Truncated),
        refused_if(
            le_at(rest, 0, 4) > maximum,
            CoreCodecError::OversizedCount {
                field,
                actual: le_at(rest, 0, 4) as u64,
                maximum: maximum as u64,
            },
        ),
    )
}

/// Why bytes that are left are refused.
pub open spec fn trailing_fault(rest: Seq<u8>) -> Option<CoreCodecError> {
    refused_if(
        rest.len() > 0,
        CoreCodecError::TrailingBytes { remaining: rest.len() as usize },
    )
}

/// The four bytes that every section starts with.
pub open spec fn section_magic() -> Seq<u8> {
    seq![84, 67, 83, 49]
}

/// The header of a section.
pub open spec fn section_header(kind: SectionKind) -> Seq<u8> {
    section_magic() + le_bytes(kind_number(kind) as nat, 1) + le_bytes(1, 2)
}

/// Why the header of a section is refused.
pub open spec fn header_fault(bytes: Seq<u8>, kind: SectionKind, maximum: usize) -> Option<
    CoreCodecError,
> {
    first(
        refused_if(
            bytes.len() > maximum,
            CoreCodecError::OversizedSection {
                section: section_name(kind),
                actual: bytes.len() as usize,
                maximum,
            },
        ),
        first(
            refused_if(bytes.len() < 4, CoreCodecError::Truncated),
            first(
                refused_if(bytes.take(4) != section_magic(), CoreCodecError::InvalidMagic),
                first(
                    refused_if(bytes.len() < 5, CoreCodecError::Truncated),
                    first(
                        refused_if(
                            bytes[4] != kind_number(kind),
                            CoreCodecError::UnexpectedSection {
                                expected: section_name(kind),
                                actual: bytes[4],
                            },
                        ),
                        first(
                            refused_if(bytes.len() < 7, CoreCodecError::Truncated),
                            refused_if(
                                le_at(bytes, 5, 2) != 1,
                                CoreCodecError::UnsupportedSectionVersion {
                                    actual: le_at(bytes, 5, 2) as u16,
                                },
                            ),
                        ),
                    ),
                ),
            ),
        ),
    )
}

/// Starts a section with its header.
pub fn section_writer(kind: SectionKind, maximum: usize) -> (r: Result<
    CanonicalWriter,
    CoreCodecError,
>)
    ensures
        refusal(r) == refused_if(maximum < 7, CoreCodecError::WriterLimit { maximum }),
        r matches Ok(writer) ==> writer@ == section_header(kind) && writer.maximum == maximum,
{
    proof {
        lemma_le_len(kind_number(kind) as nat, 1);
        lemma_le_len(1, 2);
    }
    let mut writer = CanonicalWriter::new(maximum);
    let magic: [u8; 4] = [84, 67, 83, 49];
    assert(magic@ =~= section_magic());
    writer.put_bytes(magic.as_slice())?;
    writer.put_u8(kind.number())?;
    writer.put_u16(SECTION_VERSION)?;
    assert(writer@ =~= section_header(kind));
    Ok(writer)
}

/// Checks the header of a section.
pub fn section_reader<'a>(bytes: &'a [u8], expected: SectionKind, maximum: usize) -> (r: Result<
    CanonicalReader<'a>,
    CoreCodecError,
>)
    ensures
        refusal(r) == header_fault(bytes@, expected, maximum),
        r matches Ok(reader) ==> reader.wf() && reader.bytes == bytes && reader.rest()
            == bytes@.skip(7),
{
    if bytes.len() > maximum {
        return Err(
            CoreCodecError::OversizedSection {
                section: expected.name(),
                actual: bytes.len(),
                maximum,
            },
        );
    }
    let mut reader = CanonicalReader::new(bytes);
    let magic: [u8; 4] = [84, 67, 83, 49];
    assert(magic@ =~= section_magic());
    let head = reader.take(4)?;
    if !bytes_agree(head, magic.as_slice()) {
        return Err(CoreCodecError::InvalidMagic);
    }
    let ghost after_magic = reader.rest();
    let actual: u8 = reader.get_u8()?;
    proof {
        let part = after_magic.subrange(0, 1);
        assert(part.drop_first() =~= Seq::empty());
        assert(part[0] == bytes@[4]);
        reveal_with_fuel(le_value, 2);
        assert(actual == bytes@[4]);
    }
    if actual != expected.number() {
        return Err(
            CoreCodecError::UnexpectedSection { expected: expected.name(), actual },
        );
    }
    let ghost after_kind = reader.rest();
    let version: u16 = reader.get_u16()?;
    assert(after_kind.subrange(0, 2) =~= bytes@.subrange(5, 7));
    if version != SECTION_VERSION {
        return Err(CoreCodecError::UnsupportedSectionVersion { actual: version });
    }
    assert(reader.rest() =~= bytes@.skip(7));
    Ok(reader)
}

} // verus!
