use vstd::prelude::*;
use crate::error::SnapshotError;
use vstd::string::StringSliceAdditionalSpecFns;

verus! {

pub open spec fn is_hex_digit(c: u8) -> bool {
    (48 <= c <= 57) || (65 <= c <= 70) || (97 <= c <= 102)
}

pub open spec fn hex_value(c: u8) -> int {
    if 48 <= c <= 57 {
        c - 48int
    } else if 65 <= c <= 70 {
        c - 55int
    } else {
        c - 87int
    }
}

/// Text that hex decoding accepts: an even number of hex digits of either case.
pub open spec fn is_hex_text(h: Seq<u8>) -> bool {
    h.len() % 2 == 0 && forall|i: int| 0 <= i < h.len() ==> is_hex_digit(#[trigger] h[i])
}

/// The bytes that hex text spells, two digits per byte, high digit first.
pub open spec fn hex_bytes(h: Seq<u8>) -> Seq<u8> {
    Seq::new((h.len() / 2) as nat, |i: int| (16 * hex_value(h[2 * i]) + hex_value(h[2 * i + 1])) as u8)
}

/// Relies on `hex::decode`: it accepts exactly an even number of digits in
/// `0-9`, `a-f`, `A-F` and returns one byte per pair, high digit first.
#[verifier::external_body]
fn hex_decode(h: &[u8]) -> (r: Option<Vec<u8>>)
    ensures
        r is Some <==> is_hex_text(h@),
        r is Some ==> r->Some_0@ == hex_bytes(h@),
{
    hex::decode(h).ok()
}

/// The text with one leading `0x` removed, if it has one.
pub open spec fn strip_0x(t: Seq<u8>) -> Seq<u8> {
    if t.len() >= 2 && t[0] == 48 && t[1] == 120 {
        t.subrange(2, t.len() as int)
    } else {
        t
    }
}

/// Whether `text` names a reference point: 64 hex digits, optionally after `0x`.
pub open spec fn is_reference_text(text: Seq<u8>) -> bool {
    is_hex_text(strip_0x(text)) && strip_0x(text).len() == 64
}

/// Decodes a reference point (a 32-byte block hash) from hex text with or
/// without a leading `0x`. Malformed hex or a length other than 32 bytes is
/// an input error.
pub fn parse_reference_point(text: &str) -> (r: Result<Vec<u8>, SnapshotError>)
    ensures
        r is Ok <==> is_reference_text(text.spec_bytes()),
        r is Ok ==> r->Ok_0@ == hex_bytes(strip_0x(text.spec_bytes())),
        r is Ok ==> r->Ok_0@.len() == 32,
        r is Err ==> r->Err_0 == SnapshotError::Input,
{
    let b = text.as_bytes();
    let mut digits: Vec<u8> = Vec::new();
    let start: usize = if b.len() >= 2 && b[0] == 48u8 && b[1] == 120u8 { 2 } else { 0 };
    let mut i: usize = start;
    while i < b.len()
        invariant
            start <= i <= b@.len(),
            digits@ == b@.subrange(start as int, i as int),
        decreases b@.len() - i,
    {
        digits.push(b[i]);
        i = i + 1;
    }
    assert(digits@ == strip_0x(b@)) by {
        if start == 0 {
            assert(b@.subrange(0, b@.len() as int) =~= b@);
        }
    }
    match hex_decode(digits.as_slice()) {
        Some(bytes) => {
            if digits.len() == 64 {
                Ok(bytes)
            } else {
                Err(SnapshotError::Input)
            }
        },
        None => Err(SnapshotError::Input),
    }
}

pub open spec fn lower_digit(d: int) -> char {
    if d < 10 {
        ((d + 48) as u8) as char
    } else {
        ((d + 87) as u8) as char
    }
}

/// Lowercase hex text of bytes, two digits per byte, high digit first.
pub open spec fn hex_text(b: Seq<u8>) -> Seq<char> {
    Seq::new(2 * b.len(), |i: int| if i % 2 == 0 { lower_digit(b[i / 2] as int / 16) } else { lower_digit(b[i / 2] as int % 16) })
}

/// How a block hash is shown: `0x`, its first two bytes and its last two
/// bytes in lowercase hex, with an ellipsis between them.
pub open spec fn short_hash_text(b: Seq<u8>) -> Seq<char> {
    seq!['0', 'x'] + hex_text(b.subrange(0, 2)) + seq!['\u{2026}'] + hex_text(b.subrange(b.len() - 2, b.len() as int))
}

/// Relies on the `Display` impl of `H256` (fixed-hash): `0x`, the first two
/// bytes as lowercase hex, `…`, then the last two bytes as lowercase hex.
#[verifier::external_body]
fn h256_text(b: &[u8]) -> (r: String)
    requires
        b@.len() == 32,
    ensures
        r@ == short_hash_text(b@),
{
    subxt::utils::H256::from_slice(b).to_string()
}

/// The reference point as block hashes are shown.
pub fn reference_text(point: &Vec<u8>) -> (r: String)
    requires
        point@.len() == 32,
    ensures
        r@ == short_hash_text(point@),
{
    h256_text(point.as_slice())
}

} // verus!
