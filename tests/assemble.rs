use shovel::assemble::{assemble_neurons, NeuronMaps};
use shovel::codec::account_string;
use shovel::error::{NeuronMap, SnapshotError};

fn key2(subnet: u16, neuron: u16) -> Vec<u8> {
    let mut k = vec![0xaa; 40];
    k.extend_from_slice(&subnet.to_le_bytes());
    k.extend_from_slice(&neuron.to_le_bytes());
    k
}

fn key1(subnet: u16) -> Vec<u8> {
    let mut k = vec![0xbb; 20];
    k.extend_from_slice(&subnet.to_le_bytes());
    k
}

fn empty_maps() -> NeuronMaps {
    NeuronMaps {
        keys: vec![],
        active: vec![],
        rank: vec![],
        trust: vec![],
        emission: vec![],
        consensus: vec![],
        incentive: vec![],
        dividends: vec![],
        last_update: vec![],
        pruning_scores: vec![],
        validator_trust: vec![],
        validator_permit: vec![],
        weights: vec![],
        bonds: vec![],
    }
}

#[test]
fn identity_and_rank_overlay() {
    let mut m = empty_maps();
    m.keys = vec![(key2(1, 0), vec![1u8; 32]), (key2(1, 1), vec![2u8; 32])];
    m.rank = vec![(key1(1), vec![10, 20])];
    let block = vec![0u8; 32];
    let (neurons, hotkeys) = assemble_neurons(&m, &block).unwrap();
    assert_eq!(neurons.len(), 2);
    assert_eq!((neurons[0].subnet_id, neurons[0].neuron_id), (1, 0));
    assert_eq!((neurons[1].subnet_id, neurons[1].neuron_id), (1, 1));
    let acct1 = account_string(&vec![1u8; 32]);
    let acct2 = account_string(&vec![2u8; 32]);
    assert_eq!(hotkeys, vec![acct1.clone(), acct2.clone()]);
    let n0 = neurons.iter().find(|n| (n.subnet_id, n.neuron_id) == (1, 0)).unwrap();
    let n1 = neurons.iter().find(|n| (n.subnet_id, n.neuron_id) == (1, 1)).unwrap();
    assert_eq!(n0.hotkey, acct1);
    assert_eq!(n0.rank, 10);
    assert_eq!(n1.hotkey, acct2);
    assert_eq!(n1.rank, 20);
    assert_eq!(n0.block_hash, "0x0000\u{2026}0000");
}

#[test]
fn unreached_fields_keep_defaults() {
    let mut m = empty_maps();
    m.keys = vec![(key2(3, 0), vec![5u8; 32]), (key2(4, 0), vec![6u8; 32])];
    m.emission = vec![(key1(3), vec![777])];
    m.active = vec![(key1(3), vec![true])];
    m.weights = vec![(key2(3, 0), vec![(1, 2), (3, 4)])];
    let (neurons, _) = assemble_neurons(&m, &vec![1u8; 32]).unwrap();
    assert_eq!(neurons.len(), 2);
    assert_eq!((neurons[0].subnet_id, neurons[0].neuron_id), (3, 0));
    assert_eq!(neurons[0].emission, 777);
    assert!(neurons[0].active);
    assert_eq!(neurons[0].weights, vec![(1, 2), (3, 4)]);
    let n = &neurons[1];
    assert_eq!((n.subnet_id, n.neuron_id), (4, 0));
    assert_eq!(n.emission, 0);
    assert_eq!(n.rank, 0);
    assert!(!n.active);
    assert!(!n.validator_permit);
    assert!(n.weights.is_empty());
    assert!(n.bonds.is_empty());
    assert_eq!(n.last_update, 0);
}

#[test]
fn one_entity_per_distinct_key() {
    let mut m = empty_maps();
    m.keys = vec![
        (key2(2, 0), vec![1u8; 32]),
        (key2(2, 1), vec![2u8; 32]),
        (key2(2, 0), vec![3u8; 32]),
    ];
    let (neurons, hotkeys) = assemble_neurons(&m, &vec![0u8; 32]).unwrap();
    assert_eq!(neurons.len(), 2);
    assert_eq!(hotkeys.len(), 3);
    assert_eq!((neurons[0].subnet_id, neurons[0].neuron_id), (2, 0));
    assert_eq!(neurons[0].hotkey, account_string(&vec![3u8; 32]));
    assert_eq!((neurons[1].subnet_id, neurons[1].neuron_id), (2, 1));
}

#[test]
fn overlay_for_missing_entity_is_consistency_error() {
    let mut m = empty_maps();
    m.keys = vec![(key2(1, 0), vec![1u8; 32])];
    m.trust = vec![(key1(1), vec![5, 6])];
    let r = assemble_neurons(&m, &vec![0u8; 32]);
    assert_eq!(r.err(), Some(SnapshotError::Consistency { map: NeuronMap::Trust, subnet: 1, position: 1 }));

    let mut m = empty_maps();
    m.keys = vec![(key2(1, 0), vec![1u8; 32])];
    m.bonds = vec![(key2(9, 9), vec![(0, 1)])];
    let r = assemble_neurons(&m, &vec![0u8; 32]);
    assert_eq!(r.err(), Some(SnapshotError::Consistency { map: NeuronMap::Bonds, subnet: 9, position: 9 }));
}

#[test]
fn short_identity_key_is_protocol_error() {
    let mut m = empty_maps();
    m.keys = vec![(vec![1, 2, 3], vec![1u8; 32])];
    let r = assemble_neurons(&m, &vec![0u8; 32]);
    assert_eq!(r.err(), Some(SnapshotError::Protocol { len: 3, needed: 4 }));
}

#[test]
fn empty_identity_map_gives_no_entities() {
    let m = empty_maps();
    let (neurons, hotkeys) = assemble_neurons(&m, &vec![0u8; 32]).unwrap();
    assert!(neurons.is_empty());
    assert!(hotkeys.is_empty());
}

#[test]
fn entities_follow_identity_order() {
    let mut m = empty_maps();
    m.keys = vec![
        (key2(5, 2), vec![1u8; 32]),
        (key2(1, 7), vec![2u8; 32]),
        (key2(3, 0), vec![3u8; 32]),
        (key2(1, 7), vec![4u8; 32]),
    ];
    let (neurons, _) = assemble_neurons(&m, &vec![0u8; 32]).unwrap();
    let keys: Vec<(u16, u16)> = neurons.iter().map(|n| (n.subnet_id, n.neuron_id)).collect();
    assert_eq!(keys, vec![(5, 2), (1, 7), (3, 0)]);
    assert_eq!(neurons[1].hotkey, account_string(&vec![4u8; 32]));
}

#[test]
fn first_failing_map_decides_the_error() {
    let mut m = empty_maps();
    m.keys = vec![(key2(1, 0), vec![1u8; 32])];
    m.rank = vec![(key1(1), vec![1, 2, 3])];
    m.emission = vec![(vec![1], vec![5])];
    let r = assemble_neurons(&m, &vec![0u8; 32]);
    assert_eq!(r.err(), Some(SnapshotError::Consistency { map: NeuronMap::Rank, subnet: 1, position: 1 }));

    let mut m = empty_maps();
    m.keys = vec![(key2(1, 0), vec![1u8; 32])];
    m.emission = vec![(vec![1], vec![5])];
    let r = assemble_neurons(&m, &vec![0u8; 32]);
    assert_eq!(r.err(), Some(SnapshotError::Protocol { len: 1, needed: 2 }));

    let mut m = empty_maps();
    m.keys = vec![(key2(1, 0), vec![1u8; 31])];
    let r = assemble_neurons(&m, &vec![0u8; 32]);
    assert_eq!(r.err(), Some(SnapshotError::Protocol { len: 31, needed: 32 }));
}

#[test]
fn block_hash_is_shown_shortened() {
    let mut m = empty_maps();
    m.keys = vec![(key2(0, 0), vec![1u8; 32])];
    let mut block = vec![0x11u8; 32];
    block[0] = 0xab;
    block[1] = 0x01;
    block[30] = 0xcd;
    block[31] = 0xef;
    let (neurons, _) = assemble_neurons(&m, &block).unwrap();
    assert_eq!(neurons[0].block_hash, "0xab01\u{2026}cdef");
}
