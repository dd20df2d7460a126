use vstd::prelude::*;
use crate::codec::{id_at_end, key_account, key_u16, ss58_text, u16_at_end, account_string};
use crate::error::SnapshotError;
use crate::gather::{all_filled, pair_with, Gather};
use vstd::string::StringSliceAdditionalSpecFns;

verus! {

/// The account that canonical text names, if the text is valid.
pub uninterp spec fn ss58_parse(text: Seq<char>) -> Option<Seq<u8>>;

/// Relies on the `FromStr` impl of subxt's `AccountId32` (SS58 decoding with
/// checksum): whether it succeeds, and the bytes, depend on the text alone.
/// Its base58 decoding works in a 132-byte buffer and cannot take longer text.
#[verifier::external_body]
fn parse_account(text: &str) -> (r: Option<[u8; 32]>)
    requires
        text.spec_bytes().len() <= 132,
    ensures
        r is Some <==> ss58_parse(text@) is Some,
        r is Some ==> r->Some_0@ == ss58_parse(text@)->Some_0,
{
    <subxt::utils::AccountId32 as std::str::FromStr>::from_str(text).ok().map(|a| a.0)
}

/// Canonical account text: at most 132 bytes, and SS58 decoding accepts it.
pub open spec fn is_account_text(text: Seq<char>) -> bool {
    vstd::utf8::encode_utf8(text).len() <= 132 && ss58_parse(text) is Some
}

/// Decodes the account identifiers of a stake fan-out before any query is
/// made. Any malformed identifier is an input error.
pub fn parse_accounts(ids: &Vec<String>) -> (r: Result<Vec<Vec<u8>>, SnapshotError>)
    ensures
        r is Ok <==> forall|i: int| 0 <= i < ids@.len() ==> is_account_text(#[trigger] ids@[i]@),
        r is Ok ==> r->Ok_0@.len() == ids@.len()
            && forall|i: int| 0 <= i < ids@.len() ==> Some((#[trigger] r->Ok_0@[i])@) == ss58_parse(ids@[i]@),
        r is Err ==> r->Err_0 == SnapshotError::Input,
{
    let mut out: Vec<Vec<u8>> = Vec::new();
    let mut i: usize = 0;
    while i < ids.len()
        invariant
            i <= ids@.len(),
            out@.len() == i,
            forall|k: int| 0 <= k < i ==> Some((#[trigger] out@[k])@) == ss58_parse(ids@[k]@),
            forall|k: int| 0 <= k < i ==> is_account_text(#[trigger] ids@[k]@),
        decreases ids@.len() - i,
    {
        let text = ids[i].as_str();
        assert(text.spec_bytes() == vstd::utf8::encode_utf8(ids@[i as int]@));
        if text.as_bytes().len() > 132 {
            assert(!is_account_text(ids@[i as int]@));
            return Err(SnapshotError::Input);
        }
        match parse_account(text) {
            Some(a) => {
                let mut bytes: Vec<u8> = Vec::new();
                let mut j: usize = 0;
                while j < 32
                    invariant
                        j <= 32,
                        a@.len() == 32,
                        bytes@ == a@.take(j as int),
                    decreases 32 - j,
                {
                    bytes.push(a[j]);
                    j = j + 1;
                }
                assert(a@.take(32) =~= a@);
                out.push(bytes);
            },
            None => {
                assert(!is_account_text(ids@[i as int]@));
                return Err(SnapshotError::Input);
            },
        }
        i = i + 1;
    }
    Ok(out)
}

/// Every key is at least `n` bytes long.
pub open spec fn keys_at_least<V>(entries: Seq<(Vec<u8>, V)>, n: int) -> bool {
    forall|i: int| 0 <= i < entries.len() ==> (#[trigger] entries[i]).0@.len() >= n
}

/// `e` is the protocol error for the first key shorter than `n` bytes.
pub open spec fn first_short_key<V>(entries: Seq<(Vec<u8>, V)>, n: int, e: SnapshotError) -> bool {
    exists|i: int| 0 <= i < entries.len() && keys_at_least(entries.take(i), n) && #[trigger] entries[i].0@.len() < n
        && e == (SnapshotError::Protocol { len: entries[i].0.len(), needed: n as usize })
}

/// Decodes one identifier's stake sub-map: each key ends with the 32-byte
/// owner account, each value is the stake.
pub fn decode_stake_edges(entries: &Vec<(Vec<u8>, u64)>) -> (r: Result<Vec<(String, u64)>, SnapshotError>)
    ensures
        r is Ok <==> keys_at_least(entries@, 32),
        r is Ok ==> r->Ok_0@.len() == entries@.len()
            && forall|i: int| 0 <= i < entries@.len() ==> (#[trigger] r->Ok_0@[i]).0@ == ss58_text(id_at_end(entries@[i].0@, 32))
                && r->Ok_0@[i].1 == entries@[i].1,
        r is Err ==> first_short_key(entries@, 32, r->Err_0),
{
    let mut out: Vec<(String, u64)> = Vec::new();
    let mut i: usize = 0;
    while i < entries.len()
        invariant
            i <= entries@.len(),
            out@.len() == i,
            keys_at_least(entries@.take(i as int), 32),
            forall|k: int| 0 <= k < i ==> (#[trigger] out@[k]).0@ == ss58_text(id_at_end(entries@[k].0@, 32))
                && out@[k].1 == entries@[k].1,
        decreases entries@.len() - i,
    {
        let owner = match key_account(&entries[i].0, 32) {
            Ok(s) => s,
            Err(e) => { return Err(e); },
        };
        out.push((owner, entries[i].1));
        assert forall|k: int| 0 <= k < i + 1 implies (#[trigger] entries@.take(i + 1)[k]).0@.len() >= 32 by {
            if k < i { assert(entries@.take(i as int)[k] == entries@[k]); }
        }
        i = i + 1;
    }
    assert(entries@.take(i as int) =~= entries@);
    Ok(out)
}

/// Decodes the whole stake map: each key ends with the delegate account and
/// then the owner account; each entry becomes `(owner, [(delegate, stake)])`.
pub fn decode_block_stakes(entries: &Vec<(Vec<u8>, u64)>) -> (r: Result<Vec<(String, Vec<(String, u64)>)>, SnapshotError>)
    ensures
        r is Ok <==> keys_at_least(entries@, 64),
        r is Ok ==> r->Ok_0@.len() == entries@.len()
            && forall|i: int| 0 <= i < entries@.len() ==> {
                let e = #[trigger] r->Ok_0@[i];
                &&& e.0@ == ss58_text(id_at_end(entries@[i].0@, 32))
                &&& e.1@.len() == 1
                &&& e.1@[0].0@ == ss58_text(id_at_end(entries@[i].0@, 64))
                &&& e.1@[0].1 == entries@[i].1
            },
        r is Err ==> first_short_key(entries@, 64, r->Err_0),
{
    let mut out: Vec<(String, Vec<(String, u64)>)> = Vec::new();
    let mut i: usize = 0;
    while i < entries.len()
        invariant
            i <= entries@.len(),
            out@.len() == i,
            keys_at_least(entries@.take(i as int), 64),
            forall|k: int| 0 <= k < i ==> {
                let e = #[trigger] out@[k];
                &&& e.0@ == ss58_text(id_at_end(entries@[k].0@, 32))
                &&& e.1@.len() == 1
                &&& e.1@[0].0@ == ss58_text(id_at_end(entries@[k].0@, 64))
                &&& e.1@[0].1 == entries@[k].1
            },
        decreases entries@.len() - i,
    {
        let delegate = match key_account(&entries[i].0, 64) {
            Ok(s) => s,
            Err(e) => { return Err(e); },
        };
        let owner = match key_account(&entries[i].0, 32) {
            Ok(s) => s,
            Err(e) => { return Err(e); },
        };
        let mut edges: Vec<(String, u64)> = Vec::new();
        edges.push((delegate, entries[i].1));
        out.push((owner, edges));
        assert forall|k: int| 0 <= k < i + 1 implies (#[trigger] entries@.take(i + 1)[k]).0@.len() >= 64 by {
            if k < i { assert(entries@.take(i as int)[k] == entries@[k]); }
        }
        i = i + 1;
    }
    assert(entries@.take(i as int) =~= entries@);
    Ok(out)
}

/// Decodes a map keyed by account (such as free balances): each key ends
/// with the 32-byte account.
pub fn decode_balances(entries: &Vec<(Vec<u8>, u64)>) -> (r: Result<Vec<(String, u64)>, SnapshotError>)
    ensures
        r is Ok <==> keys_at_least(entries@, 32),
        r is Ok ==> r->Ok_0@.len() == entries@.len()
            && forall|i: int| 0 <= i < entries@.len() ==> (#[trigger] r->Ok_0@[i]).0@ == ss58_text(id_at_end(entries@[i].0@, 32))
                && r->Ok_0@[i].1 == entries@[i].1,
        r is Err ==> first_short_key(entries@, 32, r->Err_0),
{
    decode_stake_edges(entries)
}

/// Decodes a map keyed by subnet: each key ends with the 16-bit subnet.
pub fn decode_subnet_values(entries: &Vec<(Vec<u8>, u64)>) -> (r: Result<Vec<(u16, u64)>, SnapshotError>)
    ensures
        r is Ok <==> keys_at_least(entries@, 2),
        r is Ok ==> r->Ok_0@.len() == entries@.len()
            && forall|i: int| 0 <= i < entries@.len() ==> (#[trigger] r->Ok_0@[i]).0 == u16_at_end(entries@[i].0@, 2)
                && r->Ok_0@[i].1 == entries@[i].1,
        r is Err ==> first_short_key(entries@, 2, r->Err_0),
{
    let mut out: Vec<(u16, u64)> = Vec::new();
    let mut i: usize = 0;
    while i < entries.len()
        invariant
            i <= entries@.len(),
            out@.len() == i,
            keys_at_least(entries@.take(i as int), 2),
            forall|k: int| 0 <= k < i ==> (#[trigger] out@[k]).0 == u16_at_end(entries@[k].0@, 2)
                && out@[k].1 == entries@[k].1,
        decreases entries@.len() - i,
    {
        let subnet = match key_u16(&entries[i].0, 2) {
            Ok(s) => s,
            Err(e) => { return Err(e); },
        };
        out.push((subnet, entries[i].1));
        assert forall|k: int| 0 <= k < i + 1 implies (#[trigger] entries@.take(i + 1)[k]).0@.len() >= 2 by {
            if k < i { assert(entries@.take(i as int)[k] == entries@[k]); }
        }
        i = i + 1;
    }
    assert(entries@.take(i as int) =~= entries@);
    Ok(out)
}

/// Decodes the accounts of one subnet: each key ends with the 16-bit position
/// in the subnet, each value is a 32-byte account.
pub fn decode_subnet_accounts(entries: &Vec<(Vec<u8>, Vec<u8>)>) -> (r: Result<Vec<(u16, String)>, SnapshotError>)
    ensures
        r is Ok <==> forall|i: int| 0 <= i < entries@.len() ==> (#[trigger] entries@[i]).0@.len() >= 2 && entries@[i].1@.len() == 32,
        r is Ok ==> r->Ok_0@.len() == entries@.len()
            && forall|i: int| 0 <= i < entries@.len() ==> (#[trigger] r->Ok_0@[i]).0 == u16_at_end(entries@[i].0@, 2)
                && r->Ok_0@[i].1@ == ss58_text(entries@[i].1@),
        r is Err ==> exists|i: int| 0 <= i < entries@.len()
            && (forall|k: int| 0 <= k < i ==> (#[trigger] entries@[k]).0@.len() >= 2 && entries@[k].1@.len() == 32)
            && r->Err_0 == (if (#[trigger] entries@[i]).0@.len() < 2 {
                SnapshotError::Protocol { len: entries@[i].0.len(), needed: 2 }
            } else {
                SnapshotError::Protocol { len: entries@[i].1.len(), needed: 32 }
            })
            && !(entries@[i].0@.len() >= 2 && entries@[i].1@.len() == 32),
{
    let mut out: Vec<(u16, String)> = Vec::new();
    let mut i: usize = 0;
    while i < entries.len()
        invariant
            i <= entries@.len(),
            out@.len() == i,
            forall|k: int| 0 <= k < i ==> (#[trigger] entries@[k]).0@.len() >= 2 && entries@[k].1@.len() == 32,
            forall|k: int| 0 <= k < i ==> (#[trigger] out@[k]).0 == u16_at_end(entries@[k].0@, 2)
                && out@[k].1@ == ss58_text(entries@[k].1@),
        decreases entries@.len() - i,
    {
        let position = match key_u16(&entries[i].0, 2) {
            Ok(s) => s,
            Err(e) => { return Err(e); },
        };
        if entries[i].1.len() != 32 {
            return Err(SnapshotError::Protocol { len: entries[i].1.len(), needed: 32 });
        }
        out.push((position, account_string(&entries[i].1)));
        i = i + 1;
    }
    Ok(out)
}

/// Endpoint data that a neuron announces.
#[derive(Debug, Clone, Copy, PartialEq, Eq)]
pub struct AxonInfo {
    pub block: u64,
    pub version: u32,
    pub ip: u128,
    pub port: u16,
    pub ip_type: u8,
    pub protocol: u8,
    pub placeholder1: u8,
    pub placeholder2: u8,
}

/// Decodes the axon map: each key holds the 16-bit subnet 50 bytes before its
/// end and ends with the 32-byte account of the neuron.
pub fn decode_axons(entries: &Vec<(Vec<u8>, AxonInfo)>) -> (r: Result<Vec<((u16, String), AxonInfo)>, SnapshotError>)
    ensures
        r is Ok <==> keys_at_least(entries@, 50),
        r is Ok ==> r->Ok_0@.len() == entries@.len()
            && forall|i: int| 0 <= i < entries@.len() ==> {
                let e = #[trigger] r->Ok_0@[i];
                &&& e.0.0 == u16_at_end(entries@[i].0@, 50)
                &&& e.0.1@ == ss58_text(id_at_end(entries@[i].0@, 32))
                &&& e.1 == entries@[i].1
            },
        r is Err ==> first_short_key(entries@, 50, r->Err_0),
{
    let mut out: Vec<((u16, String), AxonInfo)> = Vec::new();
    let mut i: usize = 0;
    while i < entries.len()
        invariant
            i <= entries@.len(),
            out@.len() == i,
            keys_at_least(entries@.take(i as int), 50),
            forall|k: int| 0 <= k < i ==> {
                let e = #[trigger] out@[k];
                &&& e.0.0 == u16_at_end(entries@[k].0@, 50)
                &&& e.0.1@ == ss58_text(id_at_end(entries@[k].0@, 32))
                &&& e.1 == entries@[k].1
            },
        decreases entries@.len() - i,
    {
        let subnet = match key_u16(&entries[i].0, 50) {
            Ok(s) => s,
            Err(e) => { return Err(e); },
        };
        let account = match key_account(&entries[i].0, 32) {
            Ok(s) => s,
            Err(e) => { return Err(e); },
        };
        out.push(((subnet, account), entries[i].1));
        assert forall|k: int| 0 <= k < i + 1 implies (#[trigger] entries@.take(i + 1)[k]).0@.len() >= 50 by {
            if k < i { assert(entries@.take(i as int)[k] == entries@[k]); }
        }
        i = i + 1;
    }
    assert(entries@.take(i as int) =~= entries@);
    Ok(out)
}

/// Pairs each identifier of a stake fan-out with its gathered edges, in
/// input order, once every sub-query has completed.
pub fn collect_stakes(ids: &Vec<String>, results: Gather<Vec<(String, u64)>>) -> (r: Option<Vec<(String, Vec<(String, u64)>)>>)
    requires
        results@.len() == ids@.len(),
    ensures
        r is Some <==> all_filled(results@),
        r is Some ==> r->Some_0@.len() == ids@.len()
            && forall|i: int| 0 <= i < ids@.len() ==> (#[trigger] r->Some_0@[i]).0@ == ids@[i]@
                && Some(r->Some_0@[i].1) == results@[i],
{
    match results.finish() {
        Some(v) => Some(pair_with(ids, v)),
        None => None,
    }
}

} // verus!
