use game_logic::player_profile::create_and_hash_entry_player_profile;
use game_logic::player_profile::get_game_anchor;
use game_logic::player_profile::get_game_players;
use game_logic::player_profile::join_game;
use game_logic::player_profile::JoinGameInfo;
use game_logic::player_profile::MembershipError;
use game_logic::store::Store;

fn join(store: &mut Store, agent: &[u8], code: &[u8], nickname: &[u8]) -> Result<game_logic::store::Address, MembershipError> {
    join_game(
        store,
        &agent.to_vec(),
        JoinGameInfo { game_code: code.to_vec(), player_nickname: nickname.to_vec() },
    )
}

#[test]
fn join_then_list_shows_member() {
    let mut store = Store::new(16, 16);
    let agent = b"agent-key-1".to_vec();
    join(&mut store, &agent, b"ABC123", b"Alice").expect("join should succeed");
    let players = get_game_players(&store, &b"ABC123".to_vec()).expect("list should succeed");
    assert_eq!(players.len(), 1);
    assert_eq!(players[0].nickname, b"Alice".to_vec());
    assert_eq!(players[0].id, agent);
}

#[test]
fn two_players_scenario() {
    let mut store = Store::new(16, 16);
    let anchor_alice = join(&mut store, b"agent-alice", b"ABC123", b"Alice").expect("join Alice");
    let anchor_bob = join(&mut store, b"agent-bob", b"ABC123", b"Bob").expect("join Bob");
    assert_eq!(anchor_alice, anchor_bob);

    let players = get_game_players(&store, &b"ABC123".to_vec()).expect("list should succeed");
    assert_eq!(players.len(), 2);
    let nicknames: Vec<&[u8]> = players.iter().map(|p| p.nickname.as_slice()).collect();
    assert!(nicknames.contains(&b"Alice".as_slice()));
    assert!(nicknames.contains(&b"Bob".as_slice()));

    // An unused but well-formed code is a valid anchor with no members.
    let empty = get_game_players(&store, &b"XYZ999".to_vec()).expect("unused code lists fine");
    assert_eq!(empty.len(), 0);
}

#[test]
fn duplicate_join_is_not_deduplicated() {
    let mut store = Store::new(16, 16);
    let agent = b"agent-key-1".to_vec();
    join(&mut store, &agent, b"ABC123", b"Alice").expect("first join");
    join(&mut store, &agent, b"ABC123", b"Alice").expect("second join");
    let players = get_game_players(&store, &b"ABC123".to_vec()).expect("list should succeed");
    assert_eq!(players.len(), 2);
    assert_eq!(players[0].nickname, b"Alice".to_vec());
    assert_eq!(players[1].nickname, b"Alice".to_vec());
}

#[test]
fn empty_game_code_is_invalid() {
    let mut store = Store::new(16, 16);
    let r = join(&mut store, b"agent", b"", b"Alice");
    assert!(matches!(r, Err(MembershipError::InvalidGameCode)));
    let l = get_game_players(&store, &b"".to_vec());
    assert!(matches!(l, Err(MembershipError::InvalidGameCode)));
}

#[test]
fn full_record_space_gives_write_failure() {
    let mut store = Store::new(0, 16);
    let r = join(&mut store, b"agent", b"ABC123", b"Alice");
    assert!(matches!(r, Err(MembershipError::WriteFailure)));
}

#[test]
fn link_failure_leaves_inert_retrievable_record() {
    let mut store = Store::new(16, 0);
    let agent = b"agent-key-1".to_vec();
    let r = join(&mut store, &agent, b"ABC123", b"Alice");
    assert!(matches!(r, Err(MembershipError::LinkFailure)));

    // The profile record was persisted before the link write failed:
    // re-submitting identical content is a no-op that yields its address…
    let addr = create_and_hash_entry_player_profile(&mut store, &agent, b"Alice".to_vec())
        .expect("identical content is deduplicated, not rejected");
    let stored = store.get(&addr).expect("the orphaned record is retrievable");
    assert!(!stored.is_empty());

    // …but without a membership link it is not a member.
    let players = get_game_players(&store, &b"ABC123".to_vec()).expect("list should succeed");
    assert_eq!(players.len(), 0);
}

#[test]
fn dangling_link_fails_the_whole_read() {
    let mut store = Store::new(16, 16);
    join(&mut store, b"agent", b"ABC123", b"Alice").expect("join");
    let anchor = get_game_anchor(&b"ABC123".to_vec()).expect("anchor");
    let dangling = game_logic::store::Address::from_bytes(b"nothing stored here".to_vec());
    store
        .create_link(anchor, dangling, game_logic::player_profile::player_link_tag())
        .expect("link write");
    let r = get_game_players(&store, &b"ABC123".to_vec());
    assert!(matches!(r, Err(MembershipError::RecordNotFound)));
}

#[test]
fn non_profile_target_fails_the_whole_read() {
    let mut store = Store::new(16, 16);
    let junk = store.put(vec![1, 2, 3]).expect("raw write");
    let anchor = get_game_anchor(&b"ABC123".to_vec()).expect("anchor");
    store
        .create_link(anchor, junk, game_logic::player_profile::player_link_tag())
        .expect("link write");
    let r = get_game_players(&store, &b"ABC123".to_vec());
    assert!(matches!(r, Err(MembershipError::RecordTypeMismatch)));
}

#[test]
fn anchor_resolution_is_idempotent() {
    let a1 = get_game_anchor(&b"ABC123".to_vec()).expect("anchor");
    let a2 = get_game_anchor(&b"ABC123".to_vec()).expect("anchor again");
    assert_eq!(a1, a2);
    let other = get_game_anchor(&b"XYZ999".to_vec()).expect("other anchor");
    assert_ne!(a1, other);
}

#[test]
fn listed_members_match_link_targets() {
    let mut store = Store::new(16, 16);
    join(&mut store, b"agent-alice", b"ABC123", b"Alice").expect("join Alice");
    join(&mut store, b"agent-bob", b"ABC123", b"Bob").expect("join Bob");

    let anchor = get_game_anchor(&b"ABC123".to_vec()).expect("anchor");
    let links = store.links_from(&anchor, &game_logic::player_profile::player_link_tag());
    let players = get_game_players(&store, &b"ABC123".to_vec()).expect("list");

    // One member per membership link, each the decoding of its link's target.
    assert_eq!(players.len(), links.len());
    for (link, player) in links.iter().zip(players.iter()) {
        let record = store.get(&link.target).expect("target is retrievable");
        let decoded =
            game_logic::player_profile::decode_profile(&record).expect("target is a profile");
        assert_eq!(decoded.id, player.id);
        assert_eq!(decoded.nickname, player.nickname);
    }
}

#[test]
fn join_returns_the_resolved_anchor() {
    let mut store = Store::new(16, 16);
    let joined = join(&mut store, b"agent", b"ABC123", b"Alice").expect("join");
    let resolved = get_game_anchor(&b"ABC123".to_vec()).expect("anchor");
    assert_eq!(joined, resolved);
}
