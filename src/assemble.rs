use vstd::prelude::*;
use crate::codec::{account_string, ss58_text};
use crate::error::{NeuronMap, SnapshotError};
use crate::index::{build_index, first_appearances, identity_failure, identity_keys, identity_ok, pair_key, NeuronIndex};
use crate::overlay::{lemma_distinct, column_failure, column_fits, column_value, overlay_column, overlay_pairs, pair_source, pairs_failure, pairs_fit};
use crate::reference::{short_hash_text, reference_text};

verus! {

/// One neuron of the snapshot, keyed by (subnet, position in subnet).
#[derive(Debug)]
pub struct NeuronInfo {
    pub subnet_id: u16,
    pub neuron_id: u16,
    pub block_hash: String,
    pub hotkey: String,
    pub active: bool,
    pub rank: u16,
    pub emission: u64,
    pub incentive: u16,
    pub consensus: u16,
    pub trust: u16,
    pub validator_trust: u16,
    pub validator_permit: bool,
    pub dividends: u16,
    pub weights: Vec<(u16, u16)>,
    pub bonds: Vec<(u16, u16)>,
    pub last_update: u64,
    pub pruning_scores: u16,
}

/// The attribute maps of one snapshot, each as the `(raw key, value)` pairs
/// its enumeration produced. `keys` is the identity map: its keys end with
/// (subnet, position) and its values are 32-byte accounts. The per-subnet
/// maps hold one sequence per subnet, indexed by position; `weights` and
/// `bonds` are keyed by (subnet, position) like the identity map.
pub struct NeuronMaps {
    pub keys: Vec<(Vec<u8>, Vec<u8>)>,
    pub active: Vec<(Vec<u8>, Vec<bool>)>,
    pub rank: Vec<(Vec<u8>, Vec<u16>)>,
    pub trust: Vec<(Vec<u8>, Vec<u16>)>,
    pub emission: Vec<(Vec<u8>, Vec<u64>)>,
    pub consensus: Vec<(Vec<u8>, Vec<u16>)>,
    pub incentive: Vec<(Vec<u8>, Vec<u16>)>,
    pub dividends: Vec<(Vec<u8>, Vec<u16>)>,
    pub last_update: Vec<(Vec<u8>, Vec<u64>)>,
    pub pruning_scores: Vec<(Vec<u8>, Vec<u16>)>,
    pub validator_trust: Vec<(Vec<u8>, Vec<u16>)>,
    pub validator_permit: Vec<(Vec<u8>, Vec<bool>)>,
    pub weights: Vec<(Vec<u8>, Vec<(u16, u16)>)>,
    pub bonds: Vec<(Vec<u8>, Vec<(u16, u16)>)>,
}

/// Every key decodes and every overlay entry addresses an entity of the identity map.
pub open spec fn maps_fit(m: NeuronMaps) -> bool {
    let keys = identity_keys(m.keys@).to_set();
    &&& identity_ok(m.keys@)
    &&& column_fits(keys, m.active@)
    &&& column_fits(keys, m.rank@)
    &&& column_fits(keys, m.trust@)
    &&& column_fits(keys, m.emission@)
    &&& column_fits(keys, m.consensus@)
    &&& column_fits(keys, m.incentive@)
    &&& column_fits(keys, m.dividends@)
    &&& column_fits(keys, m.last_update@)
    &&& column_fits(keys, m.pruning_scores@)
    &&& column_fits(keys, m.validator_trust@)
    &&& column_fits(keys, m.validator_permit@)
    &&& pairs_fit(keys, m.weights@)
    &&& pairs_fit(keys, m.bonds@)
}

/// `err` is the failure of the first map, in the order the fields are listed,
/// that does not fit: its first entry that does not fit, and how.
pub open spec fn assembly_error(m: NeuronMaps, err: SnapshotError) -> bool {
    let keys = identity_keys(m.keys@).to_set();
    if !identity_ok(m.keys@) {
        identity_failure(m.keys@, err)
    } else if !column_fits(keys, m.active@) {
        column_failure(keys, m.active@, NeuronMap::Active, err)
    } else if !column_fits(keys, m.rank@) {
        column_failure(keys, m.rank@, NeuronMap::Rank, err)
    } else if !column_fits(keys, m.trust@) {
        column_failure(keys, m.trust@, NeuronMap::Trust, err)
    } else if !column_fits(keys, m.emission@) {
        column_failure(keys, m.emission@, NeuronMap::Emission, err)
    } else if !column_fits(keys, m.consensus@) {
        column_failure(keys, m.consensus@, NeuronMap::Consensus, err)
    } else if !column_fits(keys, m.incentive@) {
        column_failure(keys, m.incentive@, NeuronMap::Incentive, err)
    } else if !column_fits(keys, m.dividends@) {
        column_failure(keys, m.dividends@, NeuronMap::Dividends, err)
    } else if !column_fits(keys, m.last_update@) {
        column_failure(keys, m.last_update@, NeuronMap::LastUpdate, err)
    } else if !column_fits(keys, m.pruning_scores@) {
        column_failure(keys, m.pruning_scores@, NeuronMap::PruningScores, err)
    } else if !column_fits(keys, m.validator_trust@) {
        column_failure(keys, m.validator_trust@, NeuronMap::ValidatorTrust, err)
    } else if !column_fits(keys, m.validator_permit@) {
        column_failure(keys, m.validator_permit@, NeuronMap::ValidatorPermit, err)
    } else if !pairs_fit(keys, m.weights@) {
        pairs_failure(keys, m.weights@, NeuronMap::Weights, err)
    } else {
        pairs_failure(keys, m.bonds@, NeuronMap::Bonds, err)
    }
}

/// The pairs that the last entry keyed by `k` holds, else none.
pub open spec fn pairs_value(entries: Seq<(Vec<u8>, Vec<(u16, u16)>)>, k: (u16, u16)) -> Seq<(u16, u16)>
    decreases entries.len(),
{
    if entries.len() == 0 {
        seq![]
    } else if pair_key(entries.last().0@) == k {
        entries.last().1@
    } else {
        pairs_value(entries.drop_last(), k)
    }
}

/// Identity entry `s` is the last one with composite key `k`.
pub open spec fn is_seed(identity: Seq<(Vec<u8>, Vec<u8>)>, s: int, k: (u16, u16)) -> bool {
    &&& 0 <= s < identity.len()
    &&& pair_key(identity[s].0@) == k
    &&& forall|j: int| s < j < identity.len() ==> pair_key(identity[j].0@) != k
}

pub open spec fn key_of(n: NeuronInfo) -> (u16, u16) {
    (n.subnet_id, n.neuron_id)
}

/// The entity with key `k` as the maps describe it: seeded by the last identity
/// entry with that key, each overlaid field from the last entry addressing
/// it, and the default where none does.
pub open spec fn neuron_matches(n: NeuronInfo, m: NeuronMaps, block: Seq<u8>) -> bool {
    let k = key_of(n);
    &&& exists|s: int| is_seed(m.keys@, s, k) && n.hotkey@ == ss58_text(m.keys@[s].1@)
    &&& n.block_hash@ == short_hash_text(block)
    &&& n.active == column_value(m.active@, k, false)
    &&& n.rank == column_value(m.rank@, k, 0u16)
    &&& n.trust == column_value(m.trust@, k, 0u16)
    &&& n.emission == column_value(m.emission@, k, 0u64)
    &&& n.consensus == column_value(m.consensus@, k, 0u16)
    &&& n.incentive == column_value(m.incentive@, k, 0u16)
    &&& n.dividends == column_value(m.dividends@, k, 0u16)
    &&& n.last_update == column_value(m.last_update@, k, 0u64)
    &&& n.pruning_scores == column_value(m.pruning_scores@, k, 0u16)
    &&& n.validator_trust == column_value(m.validator_trust@, k, 0u16)
    &&& n.validator_permit == column_value(m.validator_permit@, k, false)
    &&& n.weights@ == pairs_value(m.weights@, k)
    &&& n.bonds@ == pairs_value(m.bonds@, k)
}

/// What a successful assembly returns: one entity per distinct composite key
/// of the identity map, in order of first appearance, each as the maps
/// describe it; and the identity map's accounts in its own order.
pub open spec fn assembled(m: NeuronMaps, block: Seq<u8>, neurons: Seq<NeuronInfo>, hotkeys: Seq<String>) -> bool {
    &&& neurons.len() == first_appearances(identity_keys(m.keys@)).len()
    &&& forall|p: int| 0 <= p < neurons.len() ==> key_of(#[trigger] neurons[p]) == first_appearances(identity_keys(m.keys@))[p]
    &&& hotkeys.len() == m.keys@.len()
    &&& forall|j: int| 0 <= j < hotkeys.len() ==> (#[trigger] hotkeys[j])@ == ss58_text(m.keys@[j].1@)
    &&& forall|p: int| 0 <= p < neurons.len() ==> neuron_matches(#[trigger] neurons[p], m, block)
    &&& forall|p: int, q: int| 0 <= p < q < neurons.len() ==> key_of(#[trigger] neurons[p]) != key_of(#[trigger] neurons[q])
    &&& forall|p: int| 0 <= p < neurons.len() ==> identity_keys(m.keys@).contains(key_of(#[trigger] neurons[p]))
    &&& forall|k: (u16, u16)| #[trigger] identity_keys(m.keys@).contains(k)
        ==> exists|p: int| 0 <= p < neurons.len() && #[trigger] key_of(neurons[p]) == k
}

proof fn lemma_same_keys(index: &NeuronIndex, identity: Seq<(Vec<u8>, Vec<u8>)>)
    requires
        index.built_from(identity),
    ensures
        forall|k: (u16, u16)| #[trigger] index.keys@.contains(k) == identity_keys(identity).contains(k),
{
    assert forall|k: (u16, u16)| #[trigger] index.keys@.contains(k) == identity_keys(identity).contains(k) by {
        if index.keys@.contains(k) {
            let p = choose|p: int| 0 <= p < index.keys@.len() && index.keys@[p] == k;
            let s = index.sources@[p] as int;
            assert(identity_keys(identity)[s] == k);
        }
        if identity_keys(identity).contains(k) {
            let j = choose|j: int| 0 <= j < identity.len() && identity_keys(identity)[j] == k;
            assert(index.keys@.contains(pair_key(identity[j].0@)));
        }
    }
}

proof fn lemma_same_key_set(index: &NeuronIndex, identity: Seq<(Vec<u8>, Vec<u8>)>)
    requires
        index.built_from(identity),
    ensures
        index.keys@.to_set() == identity_keys(identity).to_set(),
{
    lemma_same_keys(index, identity);
    assert(index.keys@.to_set() =~= identity_keys(identity).to_set());
}

proof fn lemma_pair_source(entries: Seq<(Vec<u8>, Vec<(u16, u16)>)>, k: (u16, u16))
    requires
        entries.len() <= usize::MAX,
    ensures
        match pair_source(entries, k, None) {
            Some(i) => i < entries.len() && entries[i as int].1@ == pairs_value(entries, k),
            None => pairs_value(entries, k) == Seq::<(u16, u16)>::empty(),
        },
    decreases entries.len(),
{
    if entries.len() > 0 && pair_key(entries.last().0@) != k {
        lemma_pair_source(entries.drop_last(), k);
        if let Some(i) = pair_source(entries.drop_last(), k, None) {
            assert(entries.drop_last()[i as int] == entries[i as int]);
        }
    }
}

/// An entity that no entry of a per-subnet map reaches keeps its default there.
pub proof fn lemma_unreached_keeps_default<V>(entries: Seq<(Vec<u8>, Vec<V>)>, k: (u16, u16), dflt: V)
    requires
        forall|i: int| 0 <= i < entries.len()
            ==> !(crate::codec::u16_at_end((#[trigger] entries[i]).0@, 2) == k.0 && (k.1 as int) < entries[i].1@.len()),
    ensures
        column_value(entries, k, dflt) == dflt,
    decreases entries.len(),
{
    if entries.len() > 0 {
        let rest = entries.drop_last();
        assert(entries.last() == entries[entries.len() - 1]);
        assert forall|i: int| 0 <= i < rest.len()
            implies !(crate::codec::u16_at_end((#[trigger] rest[i]).0@, 2) == k.0 && (k.1 as int) < rest[i].1@.len()) by {
            assert(rest[i] == entries[i]);
        }
        lemma_unreached_keeps_default(rest, k, dflt);
    }
}

/// An entity that no entry of a pair-keyed map names gets no pairs from it.
pub proof fn lemma_unnamed_has_no_pairs(entries: Seq<(Vec<u8>, Vec<(u16, u16)>)>, k: (u16, u16))
    requires
        forall|i: int| 0 <= i < entries.len() ==> pair_key((#[trigger] entries[i]).0@) != k,
    ensures
        pairs_value(entries, k) == Seq::<(u16, u16)>::empty(),
    decreases entries.len(),
{
    if entries.len() > 0 {
        let rest = entries.drop_last();
        assert(entries.last() == entries[entries.len() - 1]);
        assert forall|i: int| 0 <= i < rest.len() implies pair_key((#[trigger] rest[i]).0@) != k by {
            assert(rest[i] == entries[i]);
        }
        lemma_unnamed_has_no_pairs(rest, k);
    }
}

fn filled<V: Copy>(v: V, n: usize) -> (r: Vec<V>)
    ensures
        r@ == Seq::new(n as nat, |i: int| v),
{
    let mut out: Vec<V> = Vec::new();
    let mut i: usize = 0;
    while i < n
        invariant
            i <= n,
            out@ == Seq::new(i as nat, |k: int| v),
        decreases n - i,
    {
        out.push(v);
        i = i + 1;
    }
    out
}

fn copy_pairs(v: &Vec<(u16, u16)>) -> (r: Vec<(u16, u16)>)
    ensures
        r@ == v@,
{
    let mut out: Vec<(u16, u16)> = Vec::new();
    let mut i: usize = 0;
    while i < v.len()
        invariant
            i <= v@.len(),
            out@ == v@.take(i as int),
        decreases v@.len() - i,
    {
        out.push(v[i]);
        i = i + 1;
    }
    assert(v@.take(i as int) =~= v@);
    out
}

fn pairs_at(entries: &Vec<(Vec<u8>, Vec<(u16, u16)>)>, src: Option<usize>, k: Ghost<(u16, u16)>) -> (r: Vec<(u16, u16)>)
    requires
        src == pair_source(entries@, k@, None),
    ensures
        r@ == pairs_value(entries@, k@),
{
    proof {
        assert(entries@.len() == entries.len());
        lemma_pair_source(entries@, k@);
    }
    match src {
        Some(i) => copy_pairs(&entries[i].1),
        None => Vec::new(),
    }
}

/// One per-subnet column, defaulted and then overlaid.
fn column<V: Copy>(index: &NeuronIndex, identity: Ghost<Seq<(Vec<u8>, Vec<u8>)>>, entries: &Vec<(Vec<u8>, Vec<V>)>, dflt: V, map: NeuronMap) -> (r: Result<Vec<V>, SnapshotError>)
    requires
        index.built_from(identity@),
    ensures
        r is Ok <==> column_fits(identity_keys(identity@).to_set(), entries@),
        r is Err ==> column_failure(identity_keys(identity@).to_set(), entries@, map, r->Err_0),
        r is Ok ==> r->Ok_0@.len() == index.keys@.len(),
        r is Ok ==> forall|p: int| 0 <= p < index.keys@.len() ==> #[trigger] r->Ok_0@[p] == column_value(entries@, index.keys@[p], dflt),
{
    proof { lemma_same_key_set(index, identity@); }
    let mut col = filled(dflt, index.keys.len());
    match overlay_column(index, &mut col, entries, map) {
        Ok(()) => Ok(col),
        Err(e) => Err(e),
    }
}

/// For each entity, the entry of a pair-keyed map that carries its field.
fn pair_column<W>(index: &NeuronIndex, identity: Ghost<Seq<(Vec<u8>, Vec<u8>)>>, entries: &Vec<(Vec<u8>, W)>, map: NeuronMap) -> (r: Result<Vec<Option<usize>>, SnapshotError>)
    requires
        index.built_from(identity@),
    ensures
        r is Ok <==> pairs_fit(identity_keys(identity@).to_set(), entries@),
        r is Err ==> pairs_failure(identity_keys(identity@).to_set(), entries@, map, r->Err_0),
        r is Ok ==> r->Ok_0@.len() == index.keys@.len(),
        r is Ok ==> forall|p: int| 0 <= p < index.keys@.len() ==> #[trigger] r->Ok_0@[p] == pair_source(entries@, index.keys@[p], None),
{
    proof { lemma_same_key_set(index, identity@); }
    let mut col: Vec<Option<usize>> = filled(None, index.keys.len());
    match overlay_pairs(index, &mut col, entries, map) {
        Ok(()) => Ok(col),
        Err(e) => Err(e),
    }
}

/// Assembles the neurons of a snapshot: the identity map decides which
/// composite keys exist and seeds each with its account; every other map
/// overlays one field onto entities that already exist. Also returns the
/// identity map's accounts in its order. Fails on a key too short to decode
/// and on an overlay entry for a composite key the identity map lacks.
pub fn assemble_neurons(m: &NeuronMaps, block: &Vec<u8>) -> (r: Result<(Vec<NeuronInfo>, Vec<String>), SnapshotError>)
    requires
        block@.len() == 32,
    ensures
        r is Ok <==> maps_fit(*m),
        r is Err ==> assembly_error(*m, r->Err_0),
        r is Ok ==> assembled(*m, block@, r->Ok_0.0@, r->Ok_0.1@),
{
    let index = match build_index(&m.keys) {
        Ok(x) => x,
        Err(e) => { return Err(e); },
    };
    let ghost identity = m.keys@;
    let active = match column(&index, Ghost(identity), &m.active, false, NeuronMap::Active) { Ok(c) => c, Err(e) => { return Err(e); } };
    let rank = match column(&index, Ghost(identity), &m.rank, 0u16, NeuronMap::Rank) { Ok(c) => c, Err(e) => { return Err(e); } };
    let trust = match column(&index, Ghost(identity), &m.trust, 0u16, NeuronMap::Trust) { Ok(c) => c, Err(e) => { return Err(e); } };
    let emission = match column(&index, Ghost(identity), &m.emission, 0u64, NeuronMap::Emission) { Ok(c) => c, Err(e) => { return Err(e); } };
    let consensus = match column(&index, Ghost(identity), &m.consensus, 0u16, NeuronMap::Consensus) { Ok(c) => c, Err(e) => { return Err(e); } };
    let incentive = match column(&index, Ghost(identity), &m.incentive, 0u16, NeuronMap::Incentive) { Ok(c) => c, Err(e) => { return Err(e); } };
    let dividends = match column(&index, Ghost(identity), &m.dividends, 0u16, NeuronMap::Dividends) { Ok(c) => c, Err(e) => { return Err(e); } };
    let last_update = match column(&index, Ghost(identity), &m.last_update, 0u64, NeuronMap::LastUpdate) { Ok(c) => c, Err(e) => { return Err(e); } };
    let pruning_scores = match column(&index, Ghost(identity), &m.pruning_scores, 0u16, NeuronMap::PruningScores) { Ok(c) => c, Err(e) => { return Err(e); } };
    let validator_trust = match column(&index, Ghost(identity), &m.validator_trust, 0u16, NeuronMap::ValidatorTrust) { Ok(c) => c, Err(e) => { return Err(e); } };
    let validator_permit = match column(&index, Ghost(identity), &m.validator_permit, false, NeuronMap::ValidatorPermit) { Ok(c) => c, Err(e) => { return Err(e); } };
    let weights = match pair_column(&index, Ghost(identity), &m.weights, NeuronMap::Weights) { Ok(c) => c, Err(e) => { return Err(e); } };
    let bonds = match pair_column(&index, Ghost(identity), &m.bonds, NeuronMap::Bonds) { Ok(c) => c, Err(e) => { return Err(e); } };

    let block_hash = reference_text(block);
    let mut neurons: Vec<NeuronInfo> = Vec::new();
    let mut p: usize = 0;
    while p < index.keys.len()
        invariant
            index.built_from(identity),
            identity == m.keys@,
            p <= index.keys@.len(),
            neurons@.len() == p,
            block_hash@ == short_hash_text(block@),
            active@.len() == index.keys@.len(),
            rank@.len() == index.keys@.len(),
            trust@.len() == index.keys@.len(),
            emission@.len() == index.keys@.len(),
            consensus@.len() == index.keys@.len(),
            incentive@.len() == index.keys@.len(),
            dividends@.len() == index.keys@.len(),
            last_update@.len() == index.keys@.len(),
            pruning_scores@.len() == index.keys@.len(),
            validator_trust@.len() == index.keys@.len(),
            validator_permit@.len() == index.keys@.len(),
            weights@.len() == index.keys@.len(),
            bonds@.len() == index.keys@.len(),
            forall|q: int| 0 <= q < index.keys@.len() ==> #[trigger] active@[q] == column_value(m.active@, index.keys@[q], false),
            forall|q: int| 0 <= q < index.keys@.len() ==> #[trigger] rank@[q] == column_value(m.rank@, index.keys@[q], 0u16),
            forall|q: int| 0 <= q < index.keys@.len() ==> #[trigger] trust@[q] == column_value(m.trust@, index.keys@[q], 0u16),
            forall|q: int| 0 <= q < index.keys@.len() ==> #[trigger] emission@[q] == column_value(m.emission@, index.keys@[q], 0u64),
            forall|q: int| 0 <= q < index.keys@.len() ==> #[trigger] consensus@[q] == column_value(m.consensus@, index.keys@[q], 0u16),
            forall|q: int| 0 <= q < index.keys@.len() ==> #[trigger] incentive@[q] == column_value(m.incentive@, index.keys@[q], 0u16),
            forall|q: int| 0 <= q < index.keys@.len() ==> #[trigger] dividends@[q] == column_value(m.dividends@, index.keys@[q], 0u16),
            forall|q: int| 0 <= q < index.keys@.len() ==> #[trigger] last_update@[q] == column_value(m.last_update@, index.keys@[q], 0u64),
            forall|q: int| 0 <= q < index.keys@.len() ==> #[trigger] pruning_scores@[q] == column_value(m.pruning_scores@, index.keys@[q], 0u16),
            forall|q: int| 0 <= q < index.keys@.len() ==> #[trigger] validator_trust@[q] == column_value(m.validator_trust@, index.keys@[q], 0u16),
            forall|q: int| 0 <= q < index.keys@.len() ==> #[trigger] validator_permit@[q] == column_value(m.validator_permit@, index.keys@[q], false),
            forall|q: int| 0 <= q < index.keys@.len() ==> #[trigger] weights@[q] == pair_source(m.weights@, index.keys@[q], None),
            forall|q: int| 0 <= q < index.keys@.len() ==> #[trigger] bonds@[q] == pair_source(m.bonds@, index.keys@[q], None),
            forall|q: int| 0 <= q < p ==> #[trigger] key_of(neurons@[q]) == index.keys@[q],
            forall|q: int| 0 <= q < p ==> neuron_matches(#[trigger] neurons@[q], *m, block@),
        decreases index.keys@.len() - p,
    {
        let k = index.keys[p];
        let s = index.sources[p];
        let hotkey = account_string(&m.keys[s].1);
        let n = NeuronInfo {
            subnet_id: k.0,
            neuron_id: k.1,
            block_hash: block_hash.clone(),
            hotkey,
            active: active[p],
            rank: rank[p],
            emission: emission[p],
            incentive: incentive[p],
            consensus: consensus[p],
            trust: trust[p],
            validator_trust: validator_trust[p],
            validator_permit: validator_permit[p],
            dividends: dividends[p],
            weights: pairs_at(&m.weights, weights[p], Ghost(k)),
            bonds: pairs_at(&m.bonds, bonds[p], Ghost(k)),
            last_update: last_update[p],
            pruning_scores: pruning_scores[p],
        };
        assert(is_seed(m.keys@, s as int, k));
        assert(neuron_matches(n, *m, block@));
        neurons.push(n);
        p = p + 1;
    }

    let mut hotkeys: Vec<String> = Vec::new();
    let mut j: usize = 0;
    while j < m.keys.len()
        invariant
            identity_ok(m.keys@),
            j <= m.keys@.len(),
            hotkeys@.len() == j,
            forall|i: int| 0 <= i < j ==> (#[trigger] hotkeys@[i])@ == ss58_text(m.keys@[i].1@),
        decreases m.keys@.len() - j,
    {
        hotkeys.push(account_string(&m.keys[j].1));
        j = j + 1;
    }

    proof {
        lemma_same_keys(&index, identity);
        assert forall|a: int, b: int| 0 <= a < b < neurons@.len() implies key_of(#[trigger] neurons@[a]) != key_of(#[trigger] neurons@[b]) by {
            if index.keys@[a] == index.keys@[b] {
                lemma_distinct(&index, a, b);
            }
        }
        assert forall|q: int| 0 <= q < neurons@.len() implies identity_keys(m.keys@).contains(key_of(#[trigger] neurons@[q])) by {
            assert(index.keys@.contains(index.keys@[q]));
        }
        assert forall|k: (u16, u16)| #[trigger] identity_keys(m.keys@).contains(k)
            implies exists|q: int| 0 <= q < neurons@.len() && #[trigger] key_of(neurons@[q]) == k by {
            assert(index.keys@.contains(k));
            let q = choose|q: int| 0 <= q < index.keys@.len() && index.keys@[q] == k;
            assert(key_of(neurons@[q]) == k);
        }
    }
    Ok((neurons, hotkeys))
}

} // verus!
