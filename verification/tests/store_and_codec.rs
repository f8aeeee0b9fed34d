use game_logic::player_profile::decode_profile;
use game_logic::player_profile::encode_profile;
use game_logic::player_profile::player_link_tag;
use game_logic::player_profile::PlayerProfile;
use game_logic::player_profile::ANCHOR_KIND;
use game_logic::player_profile::PROFILE_KIND;
use game_logic::store::Address;
use game_logic::store::Store;
use game_logic::store::StoreError;

#[test]
fn put_is_deterministic() {
    let mut store = Store::new(16, 16);
    let a1 = store.put(b"same bytes".to_vec()).expect("first put");
    let a2 = store.put(b"same bytes".to_vec()).expect("second put");
    assert_eq!(a1, a2);
    let other = store.put(b"other bytes".to_vec()).expect("third put");
    assert_ne!(a1, other);
}

#[test]
fn put_get_round_trip() {
    let mut store = Store::new(16, 16);
    let addr = store.put(b"payload".to_vec()).expect("put");
    let back = store.get(&addr).expect("get");
    assert_eq!(back, b"payload".to_vec());
}

#[test]
fn get_of_unstored_address_is_none() {
    let store = Store::new(16, 16);
    let addr = Address::from_bytes(b"never stored".to_vec());
    assert!(store.get(&addr).is_none());
}

#[test]
fn deduplicated_put_consumes_no_capacity() {
    let mut store = Store::new(1, 16);
    store.put(b"one".to_vec()).expect("first put");
    store.put(b"one".to_vec()).expect("identical put is a no-op");
    let r = store.put(b"two".to_vec());
    assert!(matches!(r, Err(StoreError::CapacityExhausted)));
}

#[test]
fn links_from_filters_by_base_and_tag() {
    let mut store = Store::new(16, 16);
    let base = Address::from_bytes(b"base".to_vec());
    let other_base = Address::from_bytes(b"other".to_vec());
    let t1 = Address::from_bytes(b"t1".to_vec());
    let t2 = Address::from_bytes(b"t2".to_vec());
    let t3 = Address::from_bytes(b"t3".to_vec());
    store.create_link(base.duplicate(), t1, player_link_tag()).expect("link 1");
    store.create_link(other_base, t2, player_link_tag()).expect("link 2");
    store.create_link(base.duplicate(), t3, b"OTHER".to_vec()).expect("link 3");
    store
        .create_link(base.duplicate(), Address::from_bytes(b"t4".to_vec()), player_link_tag())
        .expect("link 4");

    let links = store.links_from(&base, &player_link_tag());
    assert_eq!(links.len(), 2);
    assert_eq!(links[0].target, Address::from_bytes(b"t1".to_vec()));
    assert_eq!(links[1].target, Address::from_bytes(b"t4".to_vec()));
    assert_eq!(links[0].base, base);
    assert_eq!(links[0].tag, player_link_tag());
}

#[test]
fn link_capacity_is_enforced() {
    let mut store = Store::new(16, 1);
    let base = Address::from_bytes(b"base".to_vec());
    store
        .create_link(base.duplicate(), Address::from_bytes(b"t1".to_vec()), player_link_tag())
        .expect("first link");
    let r = store.create_link(base, Address::from_bytes(b"t2".to_vec()), player_link_tag());
    assert!(matches!(r, Err(StoreError::CapacityExhausted)));
}

#[test]
fn player_tag_is_the_player_bytes() {
    assert_eq!(player_link_tag(), b"PLAYER".to_vec());
}

#[test]
fn anchor_address_is_kind_marker_plus_code() {
    let anchor = game_logic::player_profile::get_game_anchor(&b"AB".to_vec()).expect("anchor");
    assert_eq!(anchor, Address::from_bytes(vec![ANCHOR_KIND, b'A', b'B']));
}

#[test]
fn encode_profile_exact_bytes() {
    let p = PlayerProfile { id: vec![7], nickname: vec![8, 9] };
    let b = encode_profile(&p);
    assert_eq!(b, vec![PROFILE_KIND, 1, 0, 0, 0, 0, 0, 0, 0, 7, 8, 9]);
}

#[test]
fn decode_encode_round_trip() {
    let p = PlayerProfile { id: b"agent-key".to_vec(), nickname: b"Alice".to_vec() };
    let b = encode_profile(&p);
    let q = decode_profile(&b).expect("decode");
    assert_eq!(q.id, p.id);
    assert_eq!(q.nickname, p.nickname);
}

#[test]
fn decode_rejects_malformed_records() {
    // Too short for the header.
    assert!(decode_profile(&vec![PROFILE_KIND, 0, 0]).is_none());
    // Wrong kind marker.
    assert!(decode_profile(&vec![ANCHOR_KIND, 0, 0, 0, 0, 0, 0, 0, 0]).is_none());
    // Declared identity length overruns the record.
    assert!(decode_profile(&vec![PROFILE_KIND, 5, 0, 0, 0, 0, 0, 0, 0, 1]).is_none());
    // An empty profile (no identity, no nickname) is well-formed.
    assert!(decode_profile(&vec![PROFILE_KIND, 0, 0, 0, 0, 0, 0, 0, 0]).is_some());
}
