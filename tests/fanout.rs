use shovel::codec::account_string;
use shovel::error::SnapshotError;
use shovel::gather::Gather;
use shovel::queries::{
    collect_stakes, decode_axons, decode_balances, decode_block_stakes, decode_stake_edges,
    decode_subnet_accounts, decode_subnet_values, AxonInfo,
};

fn suffixed(prefix: u8, parts: &[&[u8]]) -> Vec<u8> {
    let mut k = vec![prefix; 16];
    for p in parts {
        k.extend_from_slice(p);
    }
    k
}

#[test]
fn fan_out_keeps_input_order() {
    let ids = vec!["A".to_string(), "B".to_string(), "C".to_string()];
    let mut g: Gather<Vec<(String, u64)>> = Gather::new(3);
    g.put(0, vec![("a".to_string(), 1)]);
    g.put(2, vec![("c".to_string(), 3)]);
    assert!(!g.is_complete());
    g.put(1, vec![("b".to_string(), 2)]);
    assert!(g.is_complete());
    let r = collect_stakes(&ids, g).unwrap();
    let names: Vec<&str> = r.iter().map(|(k, _)| k.as_str()).collect();
    assert_eq!(names, vec!["A", "B", "C"]);
    assert_eq!(r[1].1, vec![("b".to_string(), 2)]);
}

#[test]
fn fan_out_with_empty_and_one_edge() {
    let ids = vec!["X".to_string(), "Y".to_string()];
    let mut g: Gather<Vec<(String, u64)>> = Gather::new(2);
    g.put(1, vec![("Z".to_string(), 500)]);
    g.put(0, vec![]);
    let r = collect_stakes(&ids, g).unwrap();
    assert_eq!(
        r,
        vec![("X".to_string(), vec![]), ("Y".to_string(), vec![("Z".to_string(), 500)])]
    );
}

#[test]
fn incomplete_fan_out_gives_nothing() {
    let ids = vec!["X".to_string(), "Y".to_string()];
    let mut g: Gather<Vec<(String, u64)>> = Gather::new(2);
    g.put(0, vec![]);
    assert!(collect_stakes(&ids, g).is_none());
}

#[test]
fn stake_edges_decode_owner_from_key_end() {
    let owner = vec![4u8; 32];
    let entries = vec![(suffixed(1, &[&owner]), 42u64)];
    let r = decode_stake_edges(&entries).unwrap();
    assert_eq!(r, vec![(account_string(&owner), 42)]);
    assert_eq!(
        decode_stake_edges(&vec![(suffixed(1, &[&owner]), 1), (vec![0u8; 10], 1), (vec![0u8; 3], 1)]),
        Err(SnapshotError::Protocol { len: 10, needed: 32 })
    );
}

#[test]
fn block_stakes_decode_delegate_and_owner() {
    let delegate = vec![1u8; 32];
    let owner = vec![2u8; 32];
    let entries = vec![(suffixed(0, &[&delegate, &owner]), 900u64)];
    let r = decode_block_stakes(&entries).unwrap();
    assert_eq!(
        r,
        vec![(account_string(&owner), vec![(account_string(&delegate), 900)])]
    );
    assert_eq!(
        decode_block_stakes(&vec![(vec![0u8; 63], 1)]),
        Err(SnapshotError::Protocol { len: 63, needed: 64 })
    );
}

#[test]
fn balances_and_subnet_values_decode() {
    let acct = vec![7u8; 32];
    let r = decode_balances(&vec![(suffixed(3, &[&acct]), 12u64)]).unwrap();
    assert_eq!(r, vec![(account_string(&acct), 12)]);
    let r = decode_subnet_values(&vec![(suffixed(3, &[&[5, 1]]), 99u64)]).unwrap();
    assert_eq!(r, vec![(261, 99)]);
    assert_eq!(
        decode_subnet_values(&vec![(vec![1], 1)]),
        Err(SnapshotError::Protocol { len: 1, needed: 2 })
    );
}

#[test]
fn subnet_accounts_decode() {
    let acct = vec![8u8; 32];
    let r = decode_subnet_accounts(&vec![(suffixed(3, &[&[2, 0]]), acct.clone())]).unwrap();
    assert_eq!(r, vec![(2, account_string(&acct))]);
    assert_eq!(
        decode_subnet_accounts(&vec![(suffixed(3, &[&[2, 0]]), vec![1u8; 5])]),
        Err(SnapshotError::Protocol { len: 5, needed: 32 })
    );
}

#[test]
fn axons_decode_subnet_and_account() {
    let acct = vec![6u8; 32];
    let info = AxonInfo {
        block: 5,
        version: 1,
        ip: 2130706433,
        port: 8091,
        ip_type: 4,
        protocol: 0,
        placeholder1: 0,
        placeholder2: 0,
    };
    let key = suffixed(9, &[&[3, 0], &[0xee; 16], &acct]);
    let r = decode_axons(&vec![(key, info)]).unwrap();
    assert_eq!(r, vec![((3, account_string(&acct)), info)]);
    assert_eq!(
        decode_axons(&vec![(vec![0u8; 49], info)]),
        Err(SnapshotError::Protocol { len: 49, needed: 50 })
    );
}
