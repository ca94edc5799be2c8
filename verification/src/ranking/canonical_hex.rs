//! Bytes as lower-case hexadecimal text, and back.
use vstd::prelude::*;
use vstd::utf8::*;

use crate::checks::{first, refusal, refused_if};
use crate::ranking::canonical::CoreCodecError;
use crate::text::{hex_digit, hex_digits, push_hex};

verus! {

/// Bytes as text, two hexadecimal digits each.
pub open spec fn bytes_text(bytes: Seq<u8>, n: int) -> Seq<char>
    decreases n,
{
    if n <= 0 {
        Seq::empty()
    } else {
        bytes_text(bytes, n - 1) + hex_digits(bytes[n - 1] as nat, 2)
    }
}

fn describe_bytes(bytes: &[u8]) -> (r: String)
    ensures
        r@ == bytes_text(bytes@, bytes@.len() as int),
{
    let mut out = String::new();
    let mut i: usize = 0;
    assert(out@ =~= bytes_text(bytes@, 0));
    while i < bytes.len()
        invariant
            i <= bytes@.len(),
            out@ == bytes_text(bytes@, i as int),
        decreases bytes@.len() - i,
    {
        push_hex(&mut out, bytes[i] as u64, 2);
        i = i + 1;
    }
    out
}

/// The value of a lower-case hexadecimal digit.
pub open spec fn hex_nibble(byte: u8) -> Option<u8> {
    if 48 <= byte <= 57 {
        Some((byte - 48) as u8)
    } else if 97 <= byte <= 102 {
        Some((byte - 87) as u8)
    } else {
        None
    }
}

/// Why a text is refused as hexadecimal.
pub open spec fn hex_fault(text: Seq<u8>, maximum: usize) -> Option<CoreCodecError> {
    first(
        refused_if(
            text.len() % 2 != 0 || text.len() / 2 > maximum,
            CoreCodecError::InvalidHexLength,
        ),
        refused_if(
            exists|i: int| 0 <= i < text.len() && hex_nibble(#[trigger] text[i]) is None,
            CoreCodecError::InvalidHexDigit,
        ),
    )
}

/// The bytes that a hexadecimal text stands for.
pub open spec fn hex_value(text: Seq<u8>) -> Seq<u8> {
    Seq::new(
        text.len() / 2,
        |i: int| (16 * hex_nibble(text[2 * i])->0 + hex_nibble(text[2 * i + 1])->0) as u8,
    )
}

/// Writes bytes as lower-case hexadecimal text.
pub fn encode_lower_hex(bytes: &[u8], maximum_bytes: usize) -> (r: Result<String, CoreCodecError>)
    ensures
        refusal(r) == refused_if(
            bytes@.len() > maximum_bytes,
            CoreCodecError::OversizedSection {
                section: "hex payload",
                actual: bytes@.len() as usize,
                maximum: maximum_bytes,
            },
        ),
        r matches Ok(text) ==> text@ == bytes_text(bytes@, bytes@.len() as int),
{
    if bytes.len() > maximum_bytes {
        return Err(
            CoreCodecError::OversizedSection {
                section: "hex payload",
                actual: bytes.len(),
                maximum: maximum_bytes,
            },
        );
    }
    Ok(describe_bytes(bytes))
}

fn lower_hex_nibble(byte: u8) -> (r: Result<u8, CoreCodecError>)
    ensures
        r is Ok <==> hex_nibble(byte) is Some,
        r matches Ok(n) ==> hex_nibble(byte) == Some(n),
        r matches Err(error) ==> error == CoreCodecError::InvalidHexDigit,
{
    if byte >= 48 && byte <= 57 {
        Ok(byte - 48)
    } else if byte >= 97 && byte <= 102 {
        Ok(byte - 87)
    } else {
        Err(CoreCodecError::InvalidHexDigit)
    }
}

/// Reads lower-case hexadecimal text.
pub fn decode_lower_hex(encoded: &str, maximum_bytes: usize) -> (r: Result<Vec<u8>, CoreCodecError>)
    ensures
        refusal(r) == hex_fault(encode_utf8(encoded@), maximum_bytes),
        r matches Ok(bytes) ==> bytes@ == hex_value(encode_utf8(encoded@)),
{
    let text = encoded.as_bytes();
    if text.len() % 2 != 0 || text.len() / 2 > maximum_bytes {
        return Err(CoreCodecError::InvalidHexLength);
    }
    let n: usize = text.len() / 2;
    let mut decoded: Vec<u8> = Vec::new();
    let mut i: usize = 0;
    while i < n
        invariant
            i <= n,
            text@ == encode_utf8(encoded@),
            text@.len() == 2 * n,
            n <= maximum_bytes,
            decoded@ =~= hex_value(text@).subrange(0, i as int),
            forall|k: int| 0 <= k < 2 * i ==> hex_nibble(#[trigger] text@[k]) is Some,
        decreases n - i,
    {
        let high: u8 = match lower_hex_nibble(text[2 * i]) {
            Ok(high) => high,
            Err(error) => {
                assert(hex_nibble(text@[2 * i]) is None);
                return Err(error);
            },
        };
        let low: u8 = match lower_hex_nibble(text[2 * i + 1]) {
            Ok(low) => low,
            Err(error) => {
                assert(hex_nibble(text@[2 * i + 1]) is None);
                return Err(error);
            },
        };
        decoded.push(high * 16 + low);
        i = i + 1;
    }
    assert(decoded@ =~= hex_value(text@));
    Ok(decoded)
}

/// ASCII bytes stand for the characters of the same numbers.
proof fn lemma_ascii_text(bytes: Seq<u8>)
    requires
        forall|i: int| 0 <= i < bytes.len() ==> #[trigger] bytes[i] < 0x80,
    ensures
        valid_utf8(bytes),
        decode_utf8(bytes).len() == bytes.len(),
        forall|i: int|
            0 <= i < bytes.len() ==> #[trigger] decode_utf8(bytes)[i] == bytes[i] as char,
    decreases bytes.len(),
{
    if bytes.len() > 0 {
        let rest = pop_first_scalar(bytes);
        assert(rest =~= bytes.drop_first());
        assert forall|i: int| 0 <= i < rest.len() implies #[trigger] rest[i] < 0x80 by {
            assert(rest[i] == bytes[i + 1]);
        }
        lemma_ascii_text(rest);
        let b = bytes[0];
        assert(b < 0x80 ==> b & 0x7f == b) by (bit_vector);
        assert(decode_first_scalar(bytes) == b as u32);
        let text = decode_utf8(bytes);
        assert forall|i: int| 0 <= i < bytes.len() implies #[trigger] text[i]
            == bytes[i] as char by {
            if i > 0 {
                assert(text[i] == decode_utf8(rest)[i - 1]);
                assert(bytes[i] == rest[i - 1]);
            }
        }
    }
}

/// The bytes of a hexadecimal text.
spec fn hex_bytes(bytes: Seq<u8>) -> Seq<u8> {
    Seq::new(
        2 * bytes.len(),
        |i: int|
            hex_digit(
                (if i % 2 == 0 {
                    bytes[i / 2] / 16
                } else {
                    bytes[i / 2] % 16
                }) as nat,
            ) as u8,
    )
}

proof fn lemma_bytes_text(bytes: Seq<u8>, n: int)
    requires
        0 <= n <= bytes.len(),
    ensures
        bytes_text(bytes, n).len() == 2 * n,
        forall|i: int|
            0 <= i < 2 * n ==> #[trigger] bytes_text(bytes, n)[i] == hex_digit(
                (if i % 2 == 0 {
                    bytes[i / 2] / 16
                } else {
                    bytes[i / 2] % 16
                }) as nat,
            ),
    decreases n,
{
    if n > 0 {
        lemma_bytes_text(bytes, n - 1);
        let b = bytes[n - 1] as nat;
        reveal_with_fuel(hex_digits, 3);
        assert(hex_digits(b, 2) =~= seq![hex_digit(b / 16 % 16), hex_digit(b % 16)]);
    }
}

proof fn lemma_hex_text_bytes(bytes: Seq<u8>)
    ensures
        encode_utf8(bytes_text(bytes, bytes.len() as int)) == hex_bytes(bytes),
{
    let text = bytes_text(bytes, bytes.len() as int);
    let raw = hex_bytes(bytes);
    lemma_bytes_text(bytes, bytes.len() as int);
    assert forall|i: int| 0 <= i < raw.len() implies #[trigger] raw[i] < 0x80 by {}
    lemma_ascii_text(raw);
    assert(decode_utf8(raw) =~= text);
    decode_utf8_encode_utf8(raw);
}

/// Bytes that are written as hexadecimal text are read back.
pub proof fn law_hex_round_trip(bytes: Seq<u8>, maximum: usize)
    requires
        bytes.len() <= maximum,
    ensures
        hex_fault(encode_utf8(bytes_text(bytes, bytes.len() as int)), maximum) is None,
        hex_value(encode_utf8(bytes_text(bytes, bytes.len() as int))) == bytes,
{
    lemma_hex_text_bytes(bytes);
    let raw = hex_bytes(bytes);
    assert forall|i: int| 0 <= i < raw.len() implies hex_nibble(#[trigger] raw[i]) is Some by {}
    assert forall|i: int| 0 <= i < bytes.len() implies hex_value(raw)[i] == bytes[i] by {
        assert(hex_nibble(raw[2 * i]) == Some((bytes[i] / 16) as u8));
        assert(hex_nibble(raw[2 * i + 1]) == Some((bytes[i] % 16) as u8));
    }
    assert(hex_value(raw) =~= bytes);
}

/// A hexadecimal text that is read is written again as it was: there is one
/// text for every list of bytes.
pub proof fn law_hex_is_canonical(text: Seq<char>, maximum: usize)
    requires
        hex_fault(encode_utf8(text), maximum) is None,
    ensures
        hex_value(encode_utf8(text)).len() <= maximum,
        bytes_text(
            hex_value(encode_utf8(text)),
            hex_value(encode_utf8(text)).len() as int,
        ) == text,
{
    let raw = encode_utf8(text);
    let bytes = hex_value(raw);
    assert forall|i: int| 0 <= i < raw.len() implies #[trigger] raw[i] < 0x80 by {
        assert(hex_nibble(raw[i]) is Some);
    }
    lemma_ascii_text(raw);
    encode_utf8_decode_utf8(text);
    lemma_bytes_text(bytes, bytes.len() as int);
    let again = bytes_text(bytes, bytes.len() as int);
    assert(again.len() == text.len());
    assert forall|i: int| 0 <= i < text.len() implies again[i] == text[i] by {
        let k = i / 2;
        assert(hex_nibble(raw[2 * k]) is Some && hex_nibble(raw[2 * k + 1]) is Some);
        assert(bytes[k] / 16 == hex_nibble(raw[2 * k])->0);
        assert(bytes[k] % 16 == hex_nibble(raw[2 * k + 1])->0);
        assert(text[i] == raw[i] as char);
    }
    assert(again =~= text);
}

} // verus!
