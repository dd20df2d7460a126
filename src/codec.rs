use vstd::prelude::*;
use crate::error::SnapshotError;

verus! {

/// Little-endian reading of two bytes.
pub open spec fn le_u16(lo: u8, hi: u8) -> u16 {
    (lo as int + 256 * hi as int) as u16
}

/// The 16-bit identifier whose two bytes start `from_end` bytes before the end of `key`.
pub open spec fn u16_at_end(key: Seq<u8>, from_end: int) -> u16 {
    le_u16(key[key.len() - from_end], key[key.len() - from_end + 1])
}

/// The 32 bytes that start `from_end` bytes before the end of `key`.
pub open spec fn id_at_end(key: Seq<u8>, from_end: int) -> Seq<u8> {
    key.subrange(key.len() - from_end, key.len() - from_end + 32)
}

/// The canonical (SS58) text of a 32-byte account identifier.
pub uninterp spec fn ss58_text(id: Seq<u8>) -> Seq<char>;

/// Relies on the `Display` impl of subxt's `AccountId32` (its SS58 encoding):
/// the text depends on the 32 bytes alone.
#[verifier::external_body]
fn account_text(id: &[u8]) -> (r: String)
    requires
        id@.len() == 32,
    ensures
        r@ == ss58_text(id@),
{
    let bytes: [u8; 32] = id.try_into().unwrap();
    subxt::utils::AccountId32::from(bytes).to_string()
}

/// Reads a little-endian 16-bit integer from two bytes.
pub fn u16_from_le(lo: u8, hi: u8) -> (r: u16)
    ensures
        r == le_u16(lo, hi),
        r as int == lo as int + 256 * hi as int,
{
    (lo as u16) + (hi as u16) * 256
}

/// Decodes the 16-bit identifier whose two bytes start `from_end` bytes
/// before the end of `key`.
pub fn key_u16(key: &Vec<u8>, from_end: usize) -> (r: Result<u16, SnapshotError>)
    requires
        from_end >= 2,
    ensures
        r is Ok <==> from_end <= key@.len(),
        r is Ok ==> r->Ok_0 == u16_at_end(key@, from_end as int),
        r is Err ==> r->Err_0 == (SnapshotError::Protocol { len: key.len(), needed: from_end }),
{
    if from_end > key.len() {
        return Err(SnapshotError::Protocol { len: key.len(), needed: from_end });
    }
    let at = key.len() - from_end;
    let v = u16_from_le(key[at], key[at + 1]);
    Ok(v)
}

/// The 32 bytes that start `from_end` bytes before the end of `key`.
pub fn key_id_bytes(key: &Vec<u8>, from_end: usize) -> (r: Result<Vec<u8>, SnapshotError>)
    requires
        from_end >= 32,
    ensures
        r is Ok <==> from_end <= key@.len(),
        r is Ok ==> r->Ok_0@ == id_at_end(key@, from_end as int),
        r is Err ==> r->Err_0 == (SnapshotError::Protocol { len: key.len(), needed: from_end }),
{
    if from_end > key.len() {
        return Err(SnapshotError::Protocol { len: key.len(), needed: from_end });
    }
    let at = key.len() - from_end;
    let end: usize = at + 32;
    let mut out: Vec<u8> = Vec::new();
    let mut i: usize = 0;
    while i < 32
        invariant
            end == at + 32,
            end <= key@.len(),
            i <= 32,
            out@ == key@.subrange(at as int, at + i),
        decreases 32 - i,
    {
        out.push(key[at + i]);
        i = i + 1;
    }
    Ok(out)
}

/// Decodes the account identifier whose 32 bytes start `from_end` bytes
/// before the end of `key`, as canonical text.
pub fn key_account(key: &Vec<u8>, from_end: usize) -> (r: Result<String, SnapshotError>)
    requires
        from_end >= 32,
    ensures
        r is Ok <==> from_end <= key@.len(),
        r is Ok ==> r->Ok_0@ == ss58_text(id_at_end(key@, from_end as int)),
        r is Err ==> r->Err_0 == (SnapshotError::Protocol { len: key.len(), needed: from_end }),
{
    match key_id_bytes(key, from_end) {
        Ok(id) => Ok(account_text(id.as_slice())),
        Err(e) => Err(e),
    }
}

/// The canonical text of a 32-byte account identifier.
pub fn account_string(id: &Vec<u8>) -> (r: String)
    requires
        id@.len() == 32,
    ensures
        r@ == ss58_text(id@),
{
    account_text(id.as_slice())
}

/// The two little-endian bytes of a 16-bit identifier.
pub open spec fn le_bytes(v: u16) -> Seq<u8> {
    seq![(v % 256) as u8, (v / 256) as u8]
}

/// Decoding recovers a 16-bit identifier written in little-endian order at
/// its offset from the end of a key, whatever bytes precede and follow it.
pub proof fn lemma_u16_round_trip(prefix: Seq<u8>, v: u16, tail: Seq<u8>)
    ensures
        u16_at_end(prefix + le_bytes(v) + tail, tail.len() + 2int) == v,
{
    let key = prefix + le_bytes(v) + tail;
    assert(key[key.len() - (tail.len() + 2int)] == (v % 256) as u8);
    assert(key[key.len() - (tail.len() + 2int) + 1] == (v / 256) as u8);
}

/// Decoding recovers a 32-byte identifier written at its offset from the end
/// of a key, whatever bytes precede and follow it.
pub proof fn lemma_id_round_trip(prefix: Seq<u8>, id: Seq<u8>, tail: Seq<u8>)
    requires
        id.len() == 32,
    ensures
        id_at_end(prefix + id + tail, tail.len() + 32int) == id,
{
    let key = prefix + id + tail;
    assert(id_at_end(key, tail.len() + 32int) =~= id);
}

} // verus!
