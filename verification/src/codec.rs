//! Byte-level codecs: hexadecimal records for target hashes, and the
//! byte-to-UTF-16LE widening applied to every candidate before hashing.

use vstd::prelude::*;

verus! {

/// Errors raised while parsing the target-hash input, before the
/// pipeline starts.
#[derive(Debug, Clone, Copy, PartialEq, Eq, Structural)]
pub enum ParseError {
    /// A record does not hold exactly 32 characters.
    WrongLength,
    /// A record holds a character that is no hexadecimal digit.
    NotHex,
}

/// ASCII digits, upper-case and lower-case letters a through f.
pub open spec fn is_hex_digit(c: u8) -> bool {
    (0x30 <= c && c <= 0x39) || (0x41 <= c && c <= 0x46) || (0x61 <= c && c <= 0x66)
}

/// The value of one hexadecimal digit.
pub open spec fn hex_val(c: u8) -> u8
    recommends
        is_hex_digit(c),
{
    if 0x30 <= c && c <= 0x39 {
        (c - 0x30) as u8
    } else if 0x41 <= c && c <= 0x46 {
        (c - 0x37) as u8
    } else {
        (c - 0x57) as u8
    }
}

/// The lower-case digit of a value below sixteen.
pub open spec fn hex_nibble(v: u8) -> u8
    recommends
        v < 16,
{
    if v < 10 {
        (v + 0x30) as u8
    } else {
        (v + 0x57) as u8
    }
}

/// A well-formed target record: exactly 32 hexadecimal digits.
pub open spec fn valid_hex_record(s: Seq<u8>) -> bool {
    s.len() == 32 && (forall|i: int| 0 <= i < s.len() ==> is_hex_digit(#[trigger] s[i]))
}

/// The sixteen bytes a 32-digit record denotes, high nibble first.
pub open spec fn hex_decode16(s: Seq<u8>) -> Seq<u8>
    recommends
        valid_hex_record(s),
{
    Seq::new(16, |i: int| (hex_val(s[2 * i]) * 16 + hex_val(s[2 * i + 1])) as u8)
}

/// Lower-case hexadecimal rendering, two digits per byte.
pub open spec fn hex_encode(b: Seq<u8>) -> Seq<u8> {
    Seq::new(
        2 * b.len(),
        |i: int|
            if i % 2 == 0 {
                hex_nibble(b[i / 2] >> 4u8)
            } else {
                hex_nibble(b[i / 2] & 0xFu8)
            },
    )
}

fn hex_val_of(c: u8) -> (r: Option<u8>)
    ensures
        r is Some <==> is_hex_digit(c),
        r is Some ==> r.unwrap() == hex_val(c),
{
    if 0x30 <= c && c <= 0x39 {
        Some(c - 0x30)
    } else if 0x41 <= c && c <= 0x46 {
        Some(c - 0x37)
    } else if 0x61 <= c && c <= 0x66 {
        Some(c - 0x57)
    } else {
        None
    }
}

/// Parses one target record: 32 hexadecimal digits denoting 16 bytes.
/// Succeeds exactly on well-formed records; a record of the wrong
/// length is reported as such, one with a stray character as not hex.
pub fn decode_hash_record(line: &[u8]) -> (r: Result<[u8; 16], ParseError>)
    ensures
        r is Ok <==> valid_hex_record(line@),
        r is Ok ==> r.unwrap()@ == hex_decode16(line@),
        r is Err ==> (r.unwrap_err() is WrongLength <==> line@.len() != 32),
{
    if line.len() != 32 {
        return Err(ParseError::WrongLength);
    }
    let mut out: [u8; 16] = [0u8; 16];
    let mut i: usize = 0;
    while i < 16
        invariant
            0 <= i <= 16,
            line@.len() == 32,
            out@.len() == 16,
            forall|j: int| 0 <= j < 2 * i ==> is_hex_digit(#[trigger] line@[j]),
            forall|j: int|
                0 <= j < i ==> out@[j] == (hex_val(line@[2 * j]) * 16 + hex_val(
                    line@[2 * j + 1],
                )) as u8,
        decreases 16 - i,
    {
        let hi = match hex_val_of(line[2 * i]) {
            Some(v) => v,
            None => {
                return Err(ParseError::NotHex);
            },
        };
        let lo = match hex_val_of(line[2 * i + 1]) {
            Some(v) => v,
            None => {
                return Err(ParseError::NotHex);
            },
        };
        out[i] = hi * 16 + lo;
        i = i + 1;
    }
    proof {
        assert(out@ =~= hex_decode16(line@));
    }
    Ok(out)
}

/// Renders sixteen bytes as 32 lower-case hexadecimal digits.
pub fn encode_hex16(digest: &[u8; 16]) -> (r: Vec<u8>)
    ensures
        r@ == hex_encode(digest@),
{
    let mut r: Vec<u8> = Vec::new();
    let mut i: usize = 0;
    while i < 16
        invariant
            0 <= i <= 16,
            r@ =~= hex_encode(digest@).take(2 * i),
        decreases 16 - i,
    {
        let b = digest[i];
        let hi = b >> 4;
        let lo = b & 0xF;
        assert(b >> 4u8 < 16 && b & 0xFu8 < 16) by (bit_vector);
        let hc = if hi < 10 {
            hi + 0x30
        } else {
            hi + 0x57
        };
        let lc = if lo < 10 {
            lo + 0x30
        } else {
            lo + 0x57
        };
        r.push(hc);
        r.push(lc);
        proof {
            assert(r@ =~= hex_encode(digest@).take(2 * (i + 1)));
        }
        i = i + 1;
    }
    proof {
        assert(hex_encode(digest@).take(32) =~= hex_encode(digest@));
    }
    r
}

/// The UTF-16LE widening of a candidate: every byte becomes one code
/// unit, its value the byte itself, so the low byte is kept and a zero
/// high byte follows it.
pub open spec fn utf16le(s: Seq<u8>) -> Seq<u8> {
    Seq::new(
        2 * s.len(),
        |i: int|
            if i % 2 == 0 {
                s[i / 2]
            } else {
                0u8
            },
    )
}

/// Widens a candidate to UTF-16LE code units, one per input byte.
pub fn encode_utf16le(line: &[u8]) -> (r: Vec<u8>)
    ensures
        r@ == utf16le(line@),
{
    let mut r: Vec<u8> = Vec::new();
    let mut i: usize = 0;
    while i < line.len()
        invariant
            0 <= i <= line@.len(),
            r@ =~= utf16le(line@).take(2 * i),
        decreases line@.len() - i,
    {
        r.push(line[i]);
        r.push(0u8);
        proof {
            assert(r@ =~= utf16le(line@).take(2 * (i + 1)));
        }
        i = i + 1;
    }
    proof {
        assert(utf16le(line@).take(2 * line@.len() as int) =~= utf16le(line@));
    }
    r
}

} // verus!
