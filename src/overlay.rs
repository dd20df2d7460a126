use vstd::prelude::*;
use crate::codec::{key_u16, u16_at_end};
use crate::error::{NeuronMap, SnapshotError};
use crate::index::{NeuronIndex, pair_key};

verus! {

/// What per-subnet sequences give composite key `k`: the element at position
/// `k.1` of the last entry for subnet `k.0` that is long enough, else `fallback`.
pub open spec fn column_value<V>(entries: Seq<(Vec<u8>, Vec<V>)>, k: (u16, u16), fallback: V) -> V
    decreases entries.len(),
{
    if entries.len() == 0 {
        fallback
    } else {
        let e = entries.last();
        if u16_at_end(e.0@, 2) == k.0 && (k.1 as int) < e.1@.len() {
            e.1@[k.1 as int]
        } else {
            column_value(entries.drop_last(), k, fallback)
        }
    }
}

/// Position `j` of subnet `s` is an entity among `keys`.
pub open spec fn slot_exists(keys: Set<(u16, u16)>, s: u16, j: int) -> bool {
    j < 65536 && keys.contains((s, j as u16))
}

/// A per-subnet sequence entry has a key that names its subnet, and every
/// position in it is an entity among `keys`.
pub open spec fn entry_fits<V>(keys: Set<(u16, u16)>, e: (Vec<u8>, Vec<V>)) -> bool {
    e.0@.len() >= 2 && forall|j: int| 0 <= j < e.1@.len() ==> #[trigger] slot_exists(keys, u16_at_end(e.0@, 2), j)
}

/// `err` is how entry `e` of a per-subnet map fails: a key too short for a
/// subnet, or else the first position in it that is no entity.
pub open spec fn column_error<V>(keys: Set<(u16, u16)>, e: (Vec<u8>, Vec<V>), map: NeuronMap, err: SnapshotError) -> bool {
    if e.0@.len() < 2 {
        err == (SnapshotError::Protocol { len: e.0.len(), needed: 2 })
    } else {
        let s = u16_at_end(e.0@, 2);
        exists|j: int| 0 <= j < e.1@.len() && !slot_exists(keys, s, j)
            && (forall|jj: int| 0 <= jj < j ==> #[trigger] slot_exists(keys, s, jj))
            && err == (SnapshotError::Consistency { map, subnet: s, position: j as usize })
    }
}

/// `err` is how the first entry of a per-subnet map that does not fit fails.
pub open spec fn column_failure<V>(keys: Set<(u16, u16)>, entries: Seq<(Vec<u8>, Vec<V>)>, map: NeuronMap, err: SnapshotError) -> bool {
    exists|i: int| 0 <= i < entries.len() && column_fits(keys, entries.take(i)) && #[trigger] column_error(keys, entries[i], map, err)
}

/// `err` is how entry `e` of a pair-keyed map fails: a key too short, or
/// else a composite key that is no entity.
pub open spec fn pair_error<W>(keys: Set<(u16, u16)>, e: (Vec<u8>, W), map: NeuronMap, err: SnapshotError) -> bool {
    if e.0@.len() < 4 {
        err == (SnapshotError::Protocol { len: e.0.len(), needed: 4 })
    } else {
        !keys.contains(pair_key(e.0@))
            && err == (SnapshotError::Consistency { map, subnet: pair_key(e.0@).0, position: pair_key(e.0@).1 as usize })
    }
}

/// `err` is how the first entry of a pair-keyed map that does not fit fails.
pub open spec fn pairs_failure<W>(keys: Set<(u16, u16)>, entries: Seq<(Vec<u8>, W)>, map: NeuronMap, err: SnapshotError) -> bool {
    exists|i: int| 0 <= i < entries.len() && pairs_fit(keys, entries.take(i)) && #[trigger] pair_error(keys, entries[i], map, err)
}

pub open spec fn column_fits<V>(keys: Set<(u16, u16)>, entries: Seq<(Vec<u8>, Vec<V>)>) -> bool {
    forall|i: int| 0 <= i < entries.len() ==> #[trigger] entry_fits(keys, entries[i])
}

pub proof fn lemma_distinct(index: &NeuronIndex, p: int, q: int)
    requires
        index.wf(),
        0 <= p < index.keys@.len(),
        0 <= q < index.keys@.len(),
        index.keys@[p] == index.keys@[q],
    ensures
        p == q,
{
    assert(index.positions@[crate::index::code(index.keys@[p])] == p);
    assert(index.positions@[crate::index::code(index.keys@[q])] == q);
}

/// Overlays one per-subnet sequence map: element `j` of the entry for subnet
/// `s` sets the field of entity `(s, j)`. An element for which no entity
/// exists is a consistency error; a key too short for a subnet is a protocol error.
pub fn overlay_column<V: Copy>(index: &NeuronIndex, col: &mut Vec<V>, entries: &Vec<(Vec<u8>, Vec<V>)>, map: NeuronMap) -> (r: Result<(), SnapshotError>)
    requires
        index.wf(),
        old(col)@.len() == index.keys@.len(),
    ensures
        final(col)@.len() == old(col)@.len(),
        r is Ok <==> column_fits(index.keys@.to_set(), entries@),
        r is Err ==> column_failure(index.keys@.to_set(), entries@, map, r->Err_0),
        r is Ok ==> forall|p: int| 0 <= p < index.keys@.len()
            ==> #[trigger] final(col)@[p] == column_value(entries@, index.keys@[p], old(col)@[p]),
{
    let ghost base = col@;
    let mut i: usize = 0;
    while i < entries.len()
        invariant
            index.wf(),
            i <= entries@.len(),
            col@.len() == base.len(),
            base == old(col)@,
            base.len() == index.keys@.len(),
            column_fits(index.keys@.to_set(), entries@.take(i as int)),
            forall|p: int| 0 <= p < index.keys@.len()
                ==> #[trigger] col@[p] == column_value(entries@.take(i as int), index.keys@[p], base[p]),
        decreases entries@.len() - i,
    {
        let key = &entries[i].0;
        let vals = &entries[i].1;
        let s = match key_u16(key, 2) {
            Ok(v) => v,
            Err(e) => {
                assert(!entry_fits(index.keys@.to_set(), entries@[i as int]));
                assert(column_error(index.keys@.to_set(), entries@[i as int], map, e));
                return Err(e);
            },
        };
        let ghost prev = col@;
        let mut j: usize = 0;
        while j < vals.len()
            invariant
                index.wf(),
                i < entries@.len(),
                j <= vals@.len(),
                *vals == entries@[i as int].1,
                s == u16_at_end(entries@[i as int].0@, 2),
                entries@[i as int].0@.len() >= 2,
                column_fits(index.keys@.to_set(), entries@.take(i as int)),
                col@.len() == base.len(),
                base == old(col)@,
                prev.len() == base.len(),
                base.len() == index.keys@.len(),
                forall|jj: int| 0 <= jj < j ==> #[trigger] slot_exists(index.keys@.to_set(), s, jj),
                forall|p: int| 0 <= p < index.keys@.len() ==> #[trigger] col@[p] == (
                    if index.keys@[p].0 == s && (index.keys@[p].1 as int) < j {
                        vals@[index.keys@[p].1 as int]
                    } else {
                        prev[p]
                    }),
            decreases vals@.len() - j,
        {
            if j >= 65536 {
                let err = SnapshotError::Consistency { map, subnet: s, position: j };
                assert(!slot_exists(index.keys@.to_set(), s, j as int));
                assert(!entry_fits(index.keys@.to_set(), entries@[i as int]));
                assert(column_error(index.keys@.to_set(), entries@[i as int], map, err));
                return Err(err);
            }
            match index.find((s, j as u16)) {
                Some(p) => {
                    col.set(p, vals[j]);
                    assert forall|q: int| 0 <= q < index.keys@.len() implies #[trigger] col@[q] == (
                        if index.keys@[q].0 == s && (index.keys@[q].1 as int) < j + 1 {
                            vals@[index.keys@[q].1 as int]
                        } else {
                            prev[q]
                        }) by {
                        if q != p && index.keys@[q] == (s, j as u16) {
                            lemma_distinct(index, p as int, q);
                        }
                    }
                },
                None => {
                    let err = SnapshotError::Consistency { map, subnet: s, position: j };
                    assert(!slot_exists(index.keys@.to_set(), s, j as int));
                    assert(!entry_fits(index.keys@.to_set(), entries@[i as int]));
                    assert(column_error(index.keys@.to_set(), entries@[i as int], map, err));
                    return Err(err);
                },
            }
            j = j + 1;
        }
        proof {
            let t = entries@.take(i + 1);
            assert(t.drop_last() =~= entries@.take(i as int));
            assert(t.last() == entries@[i as int]);
            assert(entry_fits(index.keys@.to_set(), entries@[i as int]));
            assert forall|k: int| 0 <= k < t.len() implies #[trigger] entry_fits(index.keys@.to_set(), t[k]) by {
                if k < i {
                    assert(t[k] == entries@.take(i as int)[k]);
                }
            }
            assert forall|p: int| 0 <= p < index.keys@.len()
                implies #[trigger] col@[p] == column_value(t, index.keys@[p], base[p]) by {}
        }
        i = i + 1;
    }
    assert(entries@.take(i as int) =~= entries@);
    Ok(())
}

/// Which entry of a pair-keyed map last names composite key `k`, else `fallback`.
pub open spec fn pair_source<W>(entries: Seq<(Vec<u8>, W)>, k: (u16, u16), fallback: Option<usize>) -> Option<usize>
    decreases entries.len(),
{
    if entries.len() == 0 {
        fallback
    } else if pair_key(entries.last().0@) == k {
        Some((entries.len() - 1) as usize)
    } else {
        pair_source(entries.drop_last(), k, fallback)
    }
}

pub open spec fn pairs_fit<W>(keys: Set<(u16, u16)>, entries: Seq<(Vec<u8>, W)>) -> bool {
    forall|i: int| 0 <= i < entries.len() ==> (#[trigger] entries[i]).0@.len() >= 4 && keys.contains(pair_key(entries[i].0@))
}

/// Overlays one map keyed by the full composite key: records, for each
/// entity, which entry carries its field. An entry for which no entity exists
/// is a consistency error; a key too short is a protocol error.
pub fn overlay_pairs<W>(index: &NeuronIndex, col: &mut Vec<Option<usize>>, entries: &Vec<(Vec<u8>, W)>, map: NeuronMap) -> (r: Result<(), SnapshotError>)
    requires
        index.wf(),
        old(col)@.len() == index.keys@.len(),
    ensures
        final(col)@.len() == old(col)@.len(),
        r is Ok <==> pairs_fit(index.keys@.to_set(), entries@),
        r is Err ==> pairs_failure(index.keys@.to_set(), entries@, map, r->Err_0),
        r is Ok ==> forall|p: int| 0 <= p < index.keys@.len()
            ==> #[trigger] final(col)@[p] == pair_source(entries@, index.keys@[p], old(col)@[p]),
{
    let ghost base = col@;
    let mut i: usize = 0;
    while i < entries.len()
        invariant
            index.wf(),
            i <= entries@.len(),
            col@.len() == base.len(),
            base == old(col)@,
            base.len() == index.keys@.len(),
            pairs_fit(index.keys@.to_set(), entries@.take(i as int)),
            forall|p: int| 0 <= p < index.keys@.len()
                ==> #[trigger] col@[p] == pair_source(entries@.take(i as int), index.keys@[p], base[p]),
        decreases entries@.len() - i,
    {
        let key = &entries[i].0;
        if key.len() < 4 {
            let err = SnapshotError::Protocol { len: key.len(), needed: 4 };
            assert(!(entries@[i as int].0@.len() >= 4));
            assert(pair_error(index.keys@.to_set(), entries@[i as int], map, err));
            return Err(err);
        }
        let subnet = match key_u16(key, 4) { Ok(v) => v, Err(e) => { return Err(e); } };
        let neuron = match key_u16(key, 2) { Ok(v) => v, Err(e) => { return Err(e); } };
        let ghost prev = col@;
        let p = match index.find((subnet, neuron)) {
            Some(p) => p,
            None => {
                let err = SnapshotError::Consistency { map, subnet, position: neuron as usize };
                assert(!index.keys@.to_set().contains(pair_key(entries@[i as int].0@)));
                assert(pair_error(index.keys@.to_set(), entries@[i as int], map, err));
                return Err(err);
            },
        };
        col.set(p, Some(i));
        proof {
            let t = entries@.take(i + 1);
            assert(t.drop_last() =~= entries@.take(i as int));
            assert(t.last() == entries@[i as int]);
            assert forall|k: int| 0 <= k < t.len() implies (#[trigger] t[k]).0@.len() >= 4
                && index.keys@.to_set().contains(pair_key(t[k].0@)) by {
                if k < i {
                    assert(t[k] == entries@.take(i as int)[k]);
                }
            }
            assert forall|q: int| 0 <= q < index.keys@.len()
                implies #[trigger] col@[q] == pair_source(t, index.keys@[q], base[q]) by {
                if q != p && index.keys@[q] == (subnet, neuron) {
                    lemma_distinct(index, p as int, q);
                }
            }
        }
        i = i + 1;
    }
    assert(entries@.take(i as int) =~= entries@);
    Ok(())
}

} // verus!
