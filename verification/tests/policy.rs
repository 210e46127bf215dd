use owl_core::address::Address;
use owl_core::config::{Config, Interface, Peer};
use owl_core::policy::{collect_ips, AllowedAddresses};

fn peer(key: &str, allowed_ips: Vec<Address>) -> Peer {
    Peer { public_key: key.to_string(), allowed_ips }
}

fn config(peers: Vec<Peer>) -> Config {
    Config { interface: Interface { listen_port: 51820, private_key: "key".to_string() }, peers }
}

const TEN: Address = Address::V4(10, 0, 0, 1);
const DOC: Address = Address::V6(0x2001, 0xdb8, 0, 0, 0, 0, 0, 1);

#[test]
fn shared_address_is_collected_once() {
    let cfg = config(vec![peer("a", vec![TEN]), peer("b", vec![TEN, DOC])]);
    let ips = collect_ips(&cfg);
    assert_eq!(ips.len(), 2);
    assert!(ips.contains(TEN));
    assert!(ips.contains(DOC));
    assert_eq!(ips.to_vec(), vec![TEN, DOC]);
}

#[test]
fn address_repeated_by_one_peer_is_collected_once() {
    let cfg = config(vec![peer("a", vec![DOC, TEN, DOC, TEN, TEN])]);
    let ips = collect_ips(&cfg);
    assert_eq!(ips.to_vec(), vec![DOC, TEN]);
}

#[test]
fn no_peers_give_the_empty_set() {
    let ips = collect_ips(&config(vec![]));
    assert_eq!(ips.len(), 0);
    assert!(ips.to_vec().is_empty());
    assert!(!ips.contains(TEN));
}

#[test]
fn peers_without_addresses_give_the_empty_set() {
    let ips = collect_ips(&config(vec![peer("a", vec![]), peer("b", vec![])]));
    assert_eq!(ips.len(), 0);
}

#[test]
fn collecting_twice_gives_the_same_set() {
    let cfg = config(vec![
        peer("a", vec![Address::V4(192, 0, 2, 1), TEN]),
        peer("b", vec![]),
        peer("c", vec![DOC, Address::V4(192, 0, 2, 1)]),
    ]);
    let first = collect_ips(&cfg);
    let second = collect_ips(&cfg);
    assert_eq!(first, second);
    assert_eq!(first.len(), 3);
}

#[test]
fn the_set_does_not_depend_on_the_order_of_peers() {
    let forward = collect_ips(&config(vec![peer("a", vec![TEN]), peer("b", vec![DOC])]));
    let backward = collect_ips(&config(vec![peer("b", vec![DOC]), peer("a", vec![TEN])]));
    assert_eq!(forward.to_vec(), vec![TEN, DOC]);
    assert_eq!(backward.to_vec(), vec![DOC, TEN]);
    assert_eq!(forward, backward);
}

#[test]
fn sets_with_different_addresses_are_different() {
    let both = collect_ips(&config(vec![peer("a", vec![TEN, DOC])]));
    let one = collect_ips(&config(vec![peer("a", vec![TEN])]));
    let other = collect_ips(&config(vec![peer("a", vec![TEN, Address::V4(10, 0, 0, 2)])]));
    assert_ne!(both, one);
    assert_ne!(one, both);
    assert_ne!(both, other);
    assert_eq!(AllowedAddresses::new(), collect_ips(&config(vec![])));
}

#[test]
fn equal_numbers_in_different_families_are_different_addresses() {
    let cfg = config(vec![peer("a", vec![Address::V4(0, 0, 0, 1), Address::V6(0, 0, 0, 0, 0, 0, 0, 1)])]);
    assert_eq!(collect_ips(&cfg).len(), 2);
}

#[test]
fn insert_says_whether_the_address_was_new() {
    let mut set = AllowedAddresses::new();
    assert!(set.insert(TEN));
    assert!(!set.insert(TEN));
    assert!(set.insert(DOC));
    assert_eq!(set.len(), 2);
    assert_eq!(set.to_vec(), vec![TEN, DOC]);
    let copy = set.clone();
    assert_eq!(copy, set);
}

#[test]
fn peer_without_identity_is_not_well_formed() {
    assert!(peer("a", vec![]).is_well_formed());
    assert!(!peer("", vec![TEN]).is_well_formed());
    assert!(config(vec![]).is_well_formed());
    assert!(config(vec![peer("a", vec![]), peer("b", vec![TEN])]).is_well_formed());
    assert!(!config(vec![peer("a", vec![]), peer("", vec![TEN])]).is_well_formed());
}
