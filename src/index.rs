use vstd::prelude::*;
use vstd::hash_map::HashMapWithView;
use crate::codec::{key_u16, le_bytes, lemma_u16_round_trip, u16_at_end};
use crate::error::SnapshotError;

verus! {

broadcast use vstd::std_specs::hash::group_hash_axioms;

/// A composite key (subnet, position in subnet) as one integer.
pub open spec fn code(k: (u16, u16)) -> u32 {
    (k.0 as int * 65536 + k.1 as int) as u32
}

pub proof fn lemma_code_injective(a: (u16, u16), b: (u16, u16))
    ensures
        code(a) == code(b) ==> a == b,
{
    assert(code(a) == code(b) ==> a == b) by (nonlinear_arith);
}

fn code_of(k: (u16, u16)) -> (r: u32)
    ensures
        r == code(k),
{
    (k.0 as u32) * 65536 + (k.1 as u32)
}

/// The composite key that a two-component raw key ends with.
pub open spec fn pair_key(key: Seq<u8>) -> (u16, u16) {
    (u16_at_end(key, 4), u16_at_end(key, 2))
}

/// The composite keys of the identity map, entry by entry.
pub open spec fn identity_keys(identity: Seq<(Vec<u8>, Vec<u8>)>) -> Seq<(u16, u16)> {
    Seq::new(identity.len(), |j: int| pair_key(identity[j].0@))
}

/// The distinct keys of `ks`, each once, in order of first appearance.
pub open spec fn first_appearances(ks: Seq<(u16, u16)>) -> Seq<(u16, u16)>
    decreases ks.len(),
{
    if ks.len() == 0 {
        seq![]
    } else {
        let d = first_appearances(ks.drop_last());
        if d.contains(ks.last()) {
            d
        } else {
            d.push(ks.last())
        }
    }
}

/// An identity key written as any prefix, then the subnet and the position
/// in little-endian order, decodes to exactly that composite key.
pub proof fn lemma_pair_key_round_trip(prefix: Seq<u8>, subnet: u16, position: u16)
    ensures
        pair_key(prefix + le_bytes(subnet) + le_bytes(position)) == (subnet, position),
{
    let key = prefix + le_bytes(subnet) + le_bytes(position);
    lemma_u16_round_trip(prefix, subnet, le_bytes(position));
    lemma_u16_round_trip(prefix + le_bytes(subnet), position, Seq::<u8>::empty());
    assert(prefix + le_bytes(subnet) + le_bytes(position) + Seq::<u8>::empty() =~= key);
}

/// Where each entity stands, which identity entry seeds it, and the lookup
/// from composite key to position.
pub struct NeuronIndex {
    pub keys: Vec<(u16, u16)>,
    pub sources: Vec<usize>,
    pub positions: HashMapWithView<u32, usize>,
}

impl NeuronIndex {
    /// Keys are distinct, `positions` finds each key's position and nothing else.
    pub open spec fn wf(&self) -> bool {
        &&& self.sources@.len() == self.keys@.len()
        &&& forall|p: int| 0 <= p < self.keys@.len()
            ==> self.positions@.contains_key(#[trigger] code(self.keys@[p]))
                && self.positions@[code(self.keys@[p])] == p
        &&& forall|k: u32| #[trigger] self.positions@.contains_key(k)
            ==> self.positions@[k] < self.keys@.len() && code(self.keys@[self.positions@[k] as int]) == k
    }

    /// The index was built from `identity`: each distinct composite key once, in
    /// order of first appearance, seeded by the last entry that carries it.
    pub open spec fn built_from(&self, identity: Seq<(Vec<u8>, Vec<u8>)>) -> bool {
        &&& self.wf()
        &&& self.keys@ == first_appearances(identity_keys(identity))
        &&& forall|j: int| 0 <= j < identity.len() ==> self.keys@.contains(#[trigger] pair_key(identity[j].0@))
        &&& forall|p: int| 0 <= p < self.keys@.len() ==> {
            let s = #[trigger] self.sources@[p] as int;
            &&& 0 <= s < identity.len()
            &&& pair_key(identity[s].0@) == self.keys@[p]
            &&& identity[s].1@.len() == 32
            &&& forall|j: int| s < j < identity.len() ==> pair_key(identity[j].0@) != self.keys@[p]
        }
    }

    pub open spec fn has(&self, k: (u16, u16)) -> bool {
        self.keys@.contains(k)
    }

    /// The position of a composite key, if an entity has it.
    pub fn find(&self, k: (u16, u16)) -> (r: Option<usize>)
        requires
            self.wf(),
        ensures
            r is Some <==> self.has(k),
            r is Some ==> r->Some_0 < self.keys@.len() && self.keys@[r->Some_0 as int] == k,
    {
        let c = code_of(k);
        match self.positions.get(&c) {
            Some(p) => {
                proof { lemma_code_injective(self.keys@[*p as int], k); }
                Some(*p)
            },
            None => {
                proof {
                    if self.has(k) {
                        let p = choose|p: int| 0 <= p < self.keys@.len() && self.keys@[p] == k;
                        assert(self.positions@.contains_key(code(self.keys@[p])));
                    }
                }
                None
            },
        }
    }
}

/// Every identity entry has a key long enough for two 16-bit identifiers and
/// a 32-byte account value.
pub open spec fn identity_ok(identity: Seq<(Vec<u8>, Vec<u8>)>) -> bool {
    forall|j: int| 0 <= j < identity.len() ==> (#[trigger] identity[j]).0@.len() >= 4 && identity[j].1@.len() == 32
}

/// `err` is how identity entry `e` fails: a key too short for two 16-bit
/// identifiers, or else an account value that is not 32 bytes long.
pub open spec fn identity_error(e: (Vec<u8>, Vec<u8>), err: SnapshotError) -> bool {
    if e.0@.len() < 4 {
        err == (SnapshotError::Protocol { len: e.0.len(), needed: 4 })
    } else {
        err == (SnapshotError::Protocol { len: e.1.len(), needed: 32 })
    }
}

/// `err` is how the first identity entry that does not decode fails.
pub open spec fn identity_failure(identity: Seq<(Vec<u8>, Vec<u8>)>, err: SnapshotError) -> bool {
    exists|i: int| 0 <= i < identity.len() && identity_ok(identity.take(i))
        && !(identity[i].0@.len() >= 4 && identity[i].1@.len() == 32)
        && #[trigger] identity_error(identity[i], err)
}

/// Builds the entity index from the identity map: each `(raw key, account bytes)`
/// entry names an entity by the two 16-bit identifiers its key ends with.
pub fn build_index(identity: &Vec<(Vec<u8>, Vec<u8>)>) -> (r: Result<NeuronIndex, SnapshotError>)
    ensures
        r is Ok <==> identity_ok(identity@),
        r is Ok ==> r->Ok_0.built_from(identity@),
        r is Err ==> identity_failure(identity@, r->Err_0),
{
    let mut index = NeuronIndex { keys: Vec::new(), sources: Vec::new(), positions: HashMapWithView::new() };
    let mut i: usize = 0;
    while i < identity.len()
        invariant
            i <= identity@.len(),
            index.wf(),
            index.keys@ == first_appearances(identity_keys(identity@.take(i as int))),
            identity_ok(identity@.take(i as int)),
            forall|j: int| 0 <= j < i ==> index.keys@.contains(#[trigger] pair_key(identity@[j].0@)),
            forall|p: int| 0 <= p < index.keys@.len() ==> {
                let s = #[trigger] index.sources@[p] as int;
                &&& 0 <= s < i
                &&& pair_key(identity@[s].0@) == index.keys@[p]
                &&& identity@[s].1@.len() == 32
                &&& forall|j: int| s < j < i ==> pair_key(identity@[j].0@) != index.keys@[p]
            },
        decreases identity@.len() - i,
    {
        let key = &identity[i].0;
        let value = &identity[i].1;
        if key.len() < 4 || value.len() != 32 {
            assert(!identity_ok(identity@)) by {
                assert(!(identity@[i as int].0@.len() >= 4 && identity@[i as int].1@.len() == 32));
            }
            let err = if key.len() < 4 {
                SnapshotError::Protocol { len: key.len(), needed: 4 }
            } else {
                SnapshotError::Protocol { len: value.len(), needed: 32 }
            };
            assert(identity_error(identity@[i as int], err));
            return Err(err);
        }
        let subnet = match key_u16(key, 4) { Ok(v) => v, Err(e) => { return Err(e); } };
        let neuron = match key_u16(key, 2) { Ok(v) => v, Err(e) => { return Err(e); } };
        let k = (subnet, neuron);
        assert(k == pair_key(identity@[i as int].0@));
        let ghost before = index.keys@;
        proof {
            let ks = identity_keys(identity@.take(i + 1));
            assert(ks.drop_last() =~= identity_keys(identity@.take(i as int)));
            assert(ks.last() == k);
        }
        match index.find(k) {
            Some(p) => {
                index.sources.set(p, i);
                assert forall|q: int| 0 <= q < index.keys@.len() && q != p implies
                    pair_key(identity@[i as int].0@) != index.keys@[q] by {
                    assert(index.positions@[code(index.keys@[q])] == q);
                    assert(index.positions@[code(index.keys@[p as int])] == p);
                }
            },
            None => {
                let ghost old_keys = index.keys@;
                let p = index.keys.len();
                index.keys.push(k);
                index.sources.push(i);
                index.positions.insert(code_of(k), p);
                assert forall|q: int| 0 <= q < index.keys@.len() implies
                    index.positions@.contains_key(#[trigger] code(index.keys@[q]))
                    && index.positions@[code(index.keys@[q])] == q by {
                    if q < p {
                        lemma_code_injective(index.keys@[q], k);
                        assert(old_keys.contains(index.keys@[q]));
                    }
                }
                assert forall|j: int| 0 <= j <= i implies index.keys@.contains(#[trigger] pair_key(identity@[j].0@)) by {
                    if j < i {
                        let q = choose|q: int| 0 <= q < old_keys.len() && old_keys[q] == pair_key(identity@[j].0@);
                        assert(index.keys@[q] == pair_key(identity@[j].0@));
                    } else {
                        assert(index.keys@[p as int] == k);
                    }
                }
            },
        }
        assert(identity_ok(identity@.take(i + 1))) by {
            assert forall|j: int| 0 <= j < i + 1 implies
                (#[trigger] identity@.take(i + 1)[j]).0@.len() >= 4 && identity@.take(i + 1)[j].1@.len() == 32 by {
                if j < i {
                    assert(identity@.take(i as int)[j] == identity@[j]);
                }
            }
        }
        i = i + 1;
    }
    assert(identity@.take(i as int) =~= identity@);
    Ok(index)
}

} // verus!
