//! The membership protocol: player profiles, game anchors, joining a game,
//! and reading a game's member list back from the store.
//!
//! A profile is persisted as a kind-tagged, length-delimited byte record, so
//! that the untyped store can hold other record kinds at other addresses and
//! a reader can tell them apart. A game's anchor address is derived from the
//! game code alone, so every participant resolves the same code to the same
//! anchor without coordination.

use vstd::prelude::*;
use vstd::bytes::lemma_auto_spec_u64_to_from_le_bytes;
use vstd::bytes::spec_u64_from_le_bytes;
use vstd::bytes::spec_u64_to_le_bytes;
use vstd::bytes::u64_from_le_bytes;
use vstd::bytes::u64_to_le_bytes;
use vstd::slice::slice_subrange;
use vstd::slice::slice_to_vec;
use crate::bytes::clone_bytes;
use crate::store::Address;
use crate::store::Link;
use crate::store::SpecLink;
use crate::store::SpecStore;
use crate::store::Store;

verus! {

/// Kind marker opening every serialized player profile.
pub const PROFILE_KIND: u8 = 80;

/// Kind marker opening every serialized game anchor.
pub const ANCHOR_KIND: u8 = 65;

/// The mathematical value of a player profile.
#[verifier::ext_equal]
pub ghost struct SpecProfile {
    pub id: Seq<u8>,
    pub nickname: Seq<u8>,
}

/// A player's profile for one game: the participant's public identity handle
/// and the display name chosen for this game. Immutable once persisted; a new
/// join always writes a new profile.
#[derive(Clone, Debug)]
pub struct PlayerProfile {
    /// The acting participant's public identity, supplied by the runtime
    /// context rather than chosen by input data.
    pub id: Vec<u8>,
    /// The display name, an arbitrary byte string; nothing is validated and
    /// no uniqueness is enforced.
    pub nickname: Vec<u8>,
}

impl View for PlayerProfile {
    type V = SpecProfile;

    open spec fn view(&self) -> SpecProfile {
        SpecProfile { id: self.id@, nickname: self.nickname@ }
    }
}

/// The mathematical value of a join request.
#[verifier::ext_equal]
pub ghost struct SpecJoinInfo {
    pub game_code: Seq<u8>,
    pub player_nickname: Seq<u8>,
}

/// A request to join a game: the game's short code and the display name to
/// join under. Transient input; never persisted itself.
#[derive(Clone, Debug)]
pub struct JoinGameInfo {
    pub game_code: Vec<u8>,
    pub player_nickname: Vec<u8>,
}

impl View for JoinGameInfo {
    type V = SpecJoinInfo;

    open spec fn view(&self) -> SpecJoinInfo {
        SpecJoinInfo { game_code: self.game_code@, player_nickname: self.player_nickname@ }
    }
}

/// Everything that can go wrong in the membership protocol.
#[derive(Clone, Copy, Debug, PartialEq, Eq, Structural)]
pub enum MembershipError {
    /// The game code is malformed, so no anchor can be resolved for it.
    InvalidGameCode,
    /// The store rejected the profile record write.
    WriteFailure,
    /// The store rejected the membership link write.
    LinkFailure,
    /// A membership link's target address dereferences to nothing.
    RecordNotFound,
    /// A membership link's target dereferences to bytes that are not a
    /// player profile.
    RecordTypeMismatch,
}

/// The fixed relation tag carried by every membership link, the bytes of
/// `"PLAYER"`.
pub open spec fn spec_player_tag() -> Seq<u8> {
    seq![80u8, 76u8, 65u8, 89u8, 69u8, 82u8]
}

/// The fixed relation tag carried by every membership link.
pub fn player_link_tag() -> (t: Vec<u8>)
    ensures
        t@ == spec_player_tag(),
{
    let mut t: Vec<u8> = Vec::new();
    t.push(80);
    t.push(76);
    t.push(65);
    t.push(89);
    t.push(69);
    t.push(82);
    proof {
        assert(t@ =~= spec_player_tag());
    }
    t
}

/// The serialized form of a profile: the profile kind marker, the identity's
/// length as eight little-endian bytes, the identity, then the nickname.
pub open spec fn spec_encode_profile(p: SpecProfile) -> Seq<u8> {
    seq![PROFILE_KIND] + spec_u64_to_le_bytes(p.id.len() as u64) + p.id + p.nickname
}

/// The profile serialized in `b`, if `b` is a well-formed profile record:
/// long enough for its header, opened by the profile kind marker, and with a
/// declared identity length that fits in what follows the header.
pub open spec fn spec_decode_profile(b: Seq<u8>) -> Option<SpecProfile> {
    if b.len() >= 9 && b[0] == PROFILE_KIND {
        let n = spec_u64_from_le_bytes(b.subrange(1, 9)) as int;
        if 9 + n <= b.len() {
            Some(SpecProfile { id: b.subrange(9, 9 + n), nickname: b.subrange(9 + n, b.len() as int) })
        } else {
            None
        }
    } else {
        None
    }
}

/// Law: the profile codec round-trips. Decoding what `spec_encode_profile`
/// produced gives the profile back exactly, whenever the identity's length
/// fits the eight-byte length field (every executable identity does).
pub proof fn lemma_decode_encode_profile(p: SpecProfile)
    requires
        p.id.len() <= u64::MAX,
    ensures
        spec_decode_profile(spec_encode_profile(p)) == Some(p),
{
    lemma_auto_spec_u64_to_from_le_bytes();
    let b = spec_encode_profile(p);
    assert(b.subrange(1, 9) =~= spec_u64_to_le_bytes(p.id.len() as u64));
    let n = spec_u64_from_le_bytes(b.subrange(1, 9)) as int;
    assert(n == p.id.len());
    assert(b.subrange(9, 9 + n) =~= p.id);
    assert(b.subrange(9 + n, b.len() as int) =~= p.nickname);
    assert(spec_decode_profile(b) == Some(p));
}

/// Law: serialization is injective, so no two distinct profiles ever share a
/// content address (addresses are a function of the serialized bytes alone).
pub proof fn lemma_encode_profile_injective(a: SpecProfile, b: SpecProfile)
    requires
        a.id.len() <= u64::MAX,
        b.id.len() <= u64::MAX,
        spec_encode_profile(a) == spec_encode_profile(b),
    ensures
        a == b,
{
    lemma_decode_encode_profile(a);
    lemma_decode_encode_profile(b);
}

/// Serializes a profile.
pub fn encode_profile(p: &PlayerProfile) -> (b: Vec<u8>)
    ensures
        b@ == spec_encode_profile(p@),
{
    let mut out: Vec<u8> = Vec::new();
    out.push(PROFILE_KIND);
    let mut len_bytes = u64_to_le_bytes(p.id.len() as u64);
    out.append(&mut len_bytes);
    let mut id_bytes = clone_bytes(&p.id);
    out.append(&mut id_bytes);
    let mut nick_bytes = clone_bytes(&p.nickname);
    out.append(&mut nick_bytes);
    proof {
        assert(out@ =~= spec_encode_profile(p@));
    }
    out
}

/// Deserializes a profile, or returns `None` when the bytes are not a
/// well-formed profile record.
pub fn decode_profile(b: &Vec<u8>) -> (r: Option<PlayerProfile>)
    ensures
        match r {
            Some(p) => spec_decode_profile(b@) == Some(p@),
            None => spec_decode_profile(b@) is None,
        },
{
    if b.len() < 9 {
        return None;
    }
    if b[0] != PROFILE_KIND {
        return None;
    }
    let len_field = slice_subrange(b.as_slice(), 1, 9);
    let n64 = u64_from_le_bytes(len_field);
    let after_header = b.len() - 9;
    if n64 > after_header as u64 {
        return None;
    }
    let n = n64 as usize;
    let id = slice_to_vec(slice_subrange(b.as_slice(), 9, 9 + n));
    let nickname = slice_to_vec(slice_subrange(b.as_slice(), 9 + n, b.len()));
    let p = PlayerProfile { id, nickname };
    proof {
        assert(p.id@ =~= b@.subrange(9, 9 + n64 as int));
        assert(p.nickname@ =~= b@.subrange(9 + n64 as int, b@.len() as int));
    }
    Some(p)
}

/// Whether a game code is well formed: any non-empty byte string. An unused
/// but well-formed code is a valid anchor with no members yet.
pub open spec fn spec_valid_game_code(code: Seq<u8>) -> bool {
    code.len() > 0
}

/// The anchor address derived from a game code: the anchor kind marker
/// followed by the code itself. A function of the code alone.
pub open spec fn spec_anchor_bytes(code: Seq<u8>) -> Seq<u8> {
    seq![ANCHOR_KIND] + code
}

/// Resolves a game code to its anchor address. The result depends on the
/// code alone — the same code always resolves to the same address, whoever
/// computes it and whenever — and a malformed (empty) code is rejected.
pub fn get_game_anchor(game_code: &Vec<u8>) -> (r: Result<Address, MembershipError>)
    ensures
        match r {
            Ok(a) => spec_valid_game_code(game_code@) && a@ == spec_anchor_bytes(game_code@),
            Err(e) => !spec_valid_game_code(game_code@) && e == MembershipError::InvalidGameCode,
        },
{
    if game_code.len() == 0 {
        return Err(MembershipError::InvalidGameCode);
    }
    let mut out: Vec<u8> = Vec::new();
    out.push(ANCHOR_KIND);
    let mut code_bytes = clone_bytes(game_code);
    out.append(&mut code_bytes);
    proof {
        assert(out@ =~= spec_anchor_bytes(game_code@));
    }
    Ok(Address::from_bytes(out))
}

/// Law: anchor resolution is idempotent and collision-free. Two codes derive
/// the same anchor address exactly when they are the same code; in
/// particular, resolving one code twice always yields one address.
pub proof fn lemma_anchor_deterministic(c1: Seq<u8>, c2: Seq<u8>)
    ensures
        (spec_anchor_bytes(c1) == spec_anchor_bytes(c2)) <==> (c1 == c2),
{
    if spec_anchor_bytes(c1) == spec_anchor_bytes(c2) {
        assert(spec_anchor_bytes(c1).len() == 1 + c1.len());
        assert(spec_anchor_bytes(c2).len() == 1 + c2.len());
        assert(c1.len() == c2.len());
        assert forall|i: int| 0 <= i < c1.len() implies c1[i] == c2[i] by {
            assert(c1[i] == spec_anchor_bytes(c1)[i + 1]);
            assert(c2[i] == spec_anchor_bytes(c2)[i + 1]);
        }
        assert(c1 =~= c2);
    }
}

/// The mathematical values of a sequence of profiles.
pub open spec fn profiles_view(ps: Seq<PlayerProfile>) -> Seq<SpecProfile> {
    ps.map_values(|p: PlayerProfile| p@)
}

/// What storing a profile for `agent` under `nickname` does to a store:
/// either the store with the serialized profile persisted, or a rejection
/// leaving the store as it was.
pub open spec fn spec_create_profile(s: SpecStore, agent: Seq<u8>, nickname: Seq<u8>) -> (SpecStore, Result<Seq<u8>, MembershipError>) {
    let pb = spec_encode_profile(SpecProfile { id: agent, nickname: nickname });
    match s.put(pb) {
        Some(s1) => (s1, Ok(pb)),
        None => (s, Err(MembershipError::WriteFailure)),
    }
}

/// What joining a game does to a store, step by step with fail-fast
/// short-circuiting: resolve the code to its anchor, persist the profile,
/// link anchor to profile under the player tag. The result on success is the
/// anchor address; on failure, the error of the first step that failed, with
/// every already-completed step's effect left in place.
pub open spec fn spec_join(s: SpecStore, agent: Seq<u8>, info: SpecJoinInfo) -> (SpecStore, Result<Seq<u8>, MembershipError>) {
    if !spec_valid_game_code(info.game_code) {
        (s, Err(MembershipError::InvalidGameCode))
    } else {
        let anchor = spec_anchor_bytes(info.game_code);
        let pb = spec_encode_profile(SpecProfile { id: agent, nickname: info.player_nickname });
        match s.put(pb) {
            None => (s, Err(MembershipError::WriteFailure)),
            Some(s1) => match s1.add_link(
                SpecLink { base: anchor, target: pb, tag: spec_player_tag() },
            ) {
                None => (s1, Err(MembershipError::LinkFailure)),
                Some(s2) => (s2, Ok(anchor)),
            },
        }
    }
}

/// What materializing the records behind a sequence of links yields:
/// fail-fast, in link order — the first link whose target dereferences to
/// nothing fails the whole read with `RecordNotFound`, the first whose target
/// is not a profile record fails it with `RecordTypeMismatch`.
pub open spec fn spec_collect_members(s: SpecStore, ls: Seq<SpecLink>) -> Result<Seq<SpecProfile>, MembershipError>
    decreases ls.len(),
{
    if ls.len() == 0 {
        Ok(Seq::empty())
    } else {
        match s.get(ls.first().target) {
            None => Err(MembershipError::RecordNotFound),
            Some(b) => match spec_decode_profile(b) {
                None => Err(MembershipError::RecordTypeMismatch),
                Some(p) => match spec_collect_members(s, ls.drop_first()) {
                    Ok(rest) => Ok(seq![p] + rest),
                    Err(e) => Err(e),
                },
            },
        }
    }
}

/// What reading a game's member list yields: the profiles behind every link
/// from the game's anchor that carries the player tag, in link order, or the
/// first per-link fault.
pub open spec fn spec_get_game_players(s: SpecStore, code: Seq<u8>) -> Result<Seq<SpecProfile>, MembershipError> {
    if !spec_valid_game_code(code) {
        Err(MembershipError::InvalidGameCode)
    } else {
        spec_collect_members(s, s.links_from(spec_anchor_bytes(code), spec_player_tag()))
    }
}

/// Builds the acting participant's profile, persists it in the store, and
/// returns its content address. Re-submitting identical content is accepted
/// and yields the same, equally valid address; the store's deduplication is
/// what makes that harmless. Fails with `WriteFailure` exactly when the store
/// rejects the record write, in which case the store is unchanged.
pub fn create_and_hash_entry_player_profile(
    store: &mut Store,
    agent_id: &Vec<u8>,
    player_nickname: Vec<u8>,
) -> (r: Result<Address, MembershipError>)
    ensures
        ({
            let (s1, res) = spec_create_profile(old(store)@, agent_id@, player_nickname@);
            final(store)@ == s1 && (match r {
                Ok(a) => res matches Ok(ab) && a@ == ab,
                Err(e) => res == Err::<Seq<u8>, MembershipError>(e),
            })
        }),
{
    let profile = PlayerProfile { id: clone_bytes(agent_id), nickname: player_nickname };
    let record = encode_profile(&profile);
    match store.put(record) {
        Ok(addr) => Ok(addr),
        Err(_) => Err(MembershipError::WriteFailure),
    }
}

/// Joins a game: resolves the game code to its anchor, persists the acting
/// participant's profile, and links the anchor to the profile under the
/// player tag. Returns the anchor address on success, so a caller can chain
/// straight into a membership read without re-resolving the code.
///
/// Fail-fast with no rollback: the first failing step aborts the rest and
/// every already-completed step's write stays in place. In particular a
/// `LinkFailure` leaves an inert, unreferenced profile record behind — an
/// accepted partial-failure outcome. Joining is deliberately not idempotent:
/// each successful join appends a fresh membership link, duplicates included.
pub fn join_game(store: &mut Store, agent_id: &Vec<u8>, game_info: JoinGameInfo) -> (r: Result<
    Address,
    MembershipError,
>)
    ensures
        ({
            let (s2, res) = spec_join(old(store)@, agent_id@, game_info@);
            final(store)@ == s2 && (match r {
                Ok(a) => res matches Ok(ab) && a@ == ab,
                Err(e) => res == Err::<Seq<u8>, MembershipError>(e),
            })
        }),
{
    let game_anchor = match get_game_anchor(&game_info.game_code) {
        Ok(a) => a,
        Err(e) => {
            return Err(e);
        },
    };
    let profile_addr = match create_and_hash_entry_player_profile(
        store,
        agent_id,
        game_info.player_nickname,
    ) {
        Ok(a) => a,
        Err(e) => {
            return Err(e);
        },
    };
    let anchor_for_caller = game_anchor.duplicate();
    match store.create_link(game_anchor, profile_addr, player_link_tag()) {
        Ok(_) => Ok(anchor_for_caller),
        Err(_) => Err(MembershipError::LinkFailure),
    }
}

/// Reads the member list of a game: every profile linked from the game's
/// anchor under the player tag, in link order. Fail-fast aggregation: the
/// whole read fails on the first link whose target cannot be dereferenced
/// (`RecordNotFound`) or does not decode as a profile (`RecordTypeMismatch`),
/// so a partial list can never be mistaken for a complete one. An unused but
/// well-formed code yields an empty list, not an error.
pub fn get_game_players(store: &Store, game_code: &Vec<u8>) -> (r: Result<
    Vec<PlayerProfile>,
    MembershipError,
>)
    ensures
        match r {
            Ok(ps) => spec_get_game_players(store@, game_code@) == Ok::<
                Seq<SpecProfile>,
                MembershipError,
            >(profiles_view(ps@)),
            Err(e) => spec_get_game_players(store@, game_code@) == Err::<
                Seq<SpecProfile>,
                MembershipError,
            >(e),
        },
{
    let game_anchor = match get_game_anchor(game_code) {
        Ok(a) => a,
        Err(e) => {
            return Err(e);
        },
    };
    let tag = player_link_tag();
    let player_links = store.links_from(&game_anchor, &tag);
    let ghost all_links = player_links@.map_values(|l: Link| l@);
    let mut players: Vec<PlayerProfile> = Vec::new();
    let mut i: usize = 0;
    proof {
        assert(all_links.skip(0) =~= all_links);
        assert(profiles_view(players@) =~= Seq::<SpecProfile>::empty());
    }
    while i < player_links.len()
        invariant
            i <= player_links.len(),
            all_links == player_links@.map_values(|l: Link| l@),
            all_links == store@.links_from(spec_anchor_bytes(game_code@), spec_player_tag()),
            spec_valid_game_code(game_code@),
            spec_collect_members(store@, all_links) == prepend_members(
                profiles_view(players@),
                spec_collect_members(store@, all_links.skip(i as int)),
            ),
        decreases player_links.len() - i,
    {
        let ghost pending = all_links.skip(i as int);
        let ghost done = profiles_view(players@);
        proof {
            assert(pending.len() == all_links.len() - i);
            assert(pending.first() == all_links[i as int]);
            assert(pending.drop_first() =~= all_links.skip(i + 1 as int));
            assert(all_links[i as int] == player_links@[i as int]@);
        }
        let link = &player_links[i];
        let record = match store.get(&link.target) {
            Some(b) => b,
            None => {
                return Err(MembershipError::RecordNotFound);
            },
        };
        let profile = match decode_profile(&record) {
            Some(p) => p,
            None => {
                return Err(MembershipError::RecordTypeMismatch);
            },
        };
        players.push(profile);
        proof {
            assert(profiles_view(players@) =~= done.push(profile@));
            assert(spec_collect_members(store@, pending) == prepend_members(
                seq![profile@],
                spec_collect_members(store@, all_links.skip(i + 1 as int)),
            ));
            lemma_prepend_members_assoc(
                done,
                profile@,
                spec_collect_members(store@, all_links.skip(i + 1 as int)),
            );
        }
        i += 1;
    }
    proof {
        assert(all_links.skip(all_links.len() as int) =~= Seq::<SpecLink>::empty());
        assert(profiles_view(players@) + Seq::<SpecProfile>::empty() =~= profiles_view(players@));
    }
    Ok(players)
}

/// `r` with `prefix` prepended to its member list when it is a successful
/// read, `r` itself when it is a fault.
spec fn prepend_members(
    prefix: Seq<SpecProfile>,
    r: Result<Seq<SpecProfile>, MembershipError>,
) -> Result<Seq<SpecProfile>, MembershipError> {
    match r {
        Ok(rest) => Ok(prefix + rest),
        Err(e) => Err(e),
    }
}

/// Law: a stored profile round-trips. Persisting a profile's serialized
/// bytes and dereferencing the returned address yields bytes that decode to
/// the profile itself, exactly.
pub proof fn lemma_profile_store_round_trip(s: SpecStore, p: SpecProfile)
    requires
        p.id.len() <= u64::MAX,
        s.put(spec_encode_profile(p)) is Some,
    ensures
        ({
            let pb = spec_encode_profile(p);
            let s1 = s.put(pb).unwrap();
            s1.get(pb) == Some(pb) && spec_decode_profile(pb) == Some(p)
        }),
{
    crate::store::lemma_get_after_put(s, spec_encode_profile(p));
    lemma_decode_encode_profile(p);
}

/// A read that succeeds in one store succeeds identically in any store
/// holding every record the first one holds: the member list depends only on
/// the links walked and on the records they reference.
proof fn lemma_collect_members_monotone(s1: SpecStore, s2: SpecStore, ls: Seq<SpecLink>)
    requires
        forall|b: Seq<u8>| #[trigger] s1.contains_entry(b) ==> s2.contains_entry(b),
        spec_collect_members(s1, ls) is Ok,
    ensures
        spec_collect_members(s2, ls) == spec_collect_members(s1, ls),
    decreases ls.len(),
{
    if ls.len() > 0 {
        let t = ls.first().target;
        assert(s1.contains_entry(t));
        assert(s2.get(t) == Some(t));
        lemma_collect_members_monotone(s1, s2, ls.drop_first());
    }
}

/// Appending one link whose target dereferences and decodes appends exactly
/// that one decoded profile to a successful read.
proof fn lemma_collect_members_push(s: SpecStore, ls: Seq<SpecLink>, l: SpecLink)
    requires
        spec_collect_members(s, ls) is Ok,
        s.get(l.target) is Some,
        spec_decode_profile(l.target) is Some,
    ensures
        spec_collect_members(s, ls.push(l)) == Ok::<Seq<SpecProfile>, MembershipError>(
            spec_collect_members(s, ls).unwrap().push(spec_decode_profile(l.target).unwrap()),
        ),
    decreases ls.len(),
{
    let p = spec_decode_profile(l.target).unwrap();
    if ls.len() == 0 {
        assert(ls.push(l).drop_first() =~= Seq::<SpecLink>::empty());
        assert(ls.push(l).first() == l);
        assert(seq![p] + Seq::<SpecProfile>::empty() =~= spec_collect_members(
            s,
            ls,
        ).unwrap().push(p));
    } else {
        assert(ls.push(l).first() == ls.first());
        assert(ls.push(l).drop_first() =~= ls.drop_first().push(l));
        lemma_collect_members_push(s, ls.drop_first(), l);
        let p0 = spec_decode_profile(ls.first().target).unwrap();
        let rest = spec_collect_members(s, ls.drop_first()).unwrap();
        assert(seq![p0] + rest.push(p) =~= (seq![p0] + rest).push(p));
    }
}

/// Every link selected by `links_matching` carries exactly the requested
/// base and tag and is one of the store's links.
proof fn lemma_links_matching_elems(links: Seq<SpecLink>, base: Seq<u8>, tag: Seq<u8>)
    ensures
        ({
            let ml = crate::store::links_matching(links, base, tag);
            forall|j: int|
                0 <= j < ml.len() ==> (#[trigger] ml[j]).base == base && ml[j].tag == tag
                    && links.contains(ml[j])
        }),
    decreases links.len(),
{
    let ml = crate::store::links_matching(links, base, tag);
    if links.len() > 0 {
        lemma_links_matching_elems(links.drop_last(), base, tag);
        let inner = crate::store::links_matching(links.drop_last(), base, tag);
        assert forall|j: int|
            0 <= j < ml.len() implies (#[trigger] ml[j]).base == base && ml[j].tag == tag
            && links.contains(ml[j]) by {
            if j < inner.len() {
                assert(links.drop_last().contains(inner[j]));
                let w = choose|w: int| 0 <= w < links.drop_last().len() && links.drop_last()[w]
                    == inner[j];
                assert(links[w] == inner[j]);
            } else {
                assert(ml[j] == links.last());
                assert(links[links.len() - 1] == links.last());
            }
        }
    }
}

/// A successful read yields one profile per selected link, each the decoding
/// of its link's retrievable target, in link order.
proof fn lemma_collect_members_ok(s: SpecStore, ls: Seq<SpecLink>)
    requires
        spec_collect_members(s, ls) is Ok,
    ensures
        ({
            let ps = spec_collect_members(s, ls).unwrap();
            &&& ps.len() == ls.len()
            &&& forall|j: int|
                0 <= j < ls.len() ==> s.get((#[trigger] ls[j]).target) == Some(ls[j].target)
                    && spec_decode_profile(ls[j].target) == Some(ps[j])
        }),
    decreases ls.len(),
{
    if ls.len() > 0 {
        let ps = spec_collect_members(s, ls).unwrap();
        let t = ls.first().target;
        assert(s.get(t) == Some(t));
        lemma_collect_members_ok(s, ls.drop_first());
        let rest = spec_collect_members(s, ls.drop_first()).unwrap();
        let p = spec_decode_profile(t).unwrap();
        assert(ps == seq![p] + rest);
        assert(ps[0] == p);
        assert forall|j: int|
            0 <= j < ls.len() implies s.get((#[trigger] ls[j]).target) == Some(ls[j].target)
            && spec_decode_profile(ls[j].target) == Some(ps[j]) by {
            if j > 0 {
                assert(ls[j] == ls.drop_first()[j - 1]);
                assert(ps[j] == rest[j - 1]);
            }
        }
    }
}

/// Law: membership becomes visible. When the member list of a game is
/// readable and a join for that game succeeds, reading the list afterwards
/// yields exactly the old list plus, at its end, one new record carrying the
/// joining participant's identity and chosen display name — no other entry
/// appears, disappears, or moves.
pub proof fn lemma_join_adds_exactly_one_member(s: SpecStore, agent: Seq<u8>, info: SpecJoinInfo)
    requires
        agent.len() <= u64::MAX,
        spec_get_game_players(s, info.game_code) is Ok,
        spec_join(s, agent, info).1 is Ok,
    ensures
        spec_get_game_players(spec_join(s, agent, info).0, info.game_code) == Ok::<
            Seq<SpecProfile>,
            MembershipError,
        >(
            spec_get_game_players(s, info.game_code).unwrap().push(
                (SpecProfile { id: agent, nickname: info.player_nickname }),
            ),
        ),
{
    let code = info.game_code;
    let anchor = spec_anchor_bytes(code);
    let tag = spec_player_tag();
    let prof = SpecProfile { id: agent, nickname: info.player_nickname };
    let pb = spec_encode_profile(prof);
    let s1 = s.put(pb).unwrap();
    let newl = SpecLink { base: anchor, target: pb, tag: tag };
    let s2 = s1.add_link(newl).unwrap();
    assert(spec_join(s, agent, info).0 == s2);

    // The profile is persisted and decodes back to itself.
    crate::store::lemma_put_idempotent(s, pb);
    assert(s1.contains_entry(pb));
    assert(s2.entries == s1.entries);
    assert(s2.get(pb) == Some(pb));
    lemma_decode_encode_profile(prof);

    // Every record of the old store is still present.
    assert forall|b: Seq<u8>| #[trigger] s.contains_entry(b) implies s2.contains_entry(b) by {
        let w = choose|w: int| 0 <= w < s.entries.len() && s.entries[w] == b;
        assert(s2.entries[w] == b);
    }

    // The selected links gain exactly the new link, at the end.
    let ml = crate::store::links_matching(s.links, anchor, tag);
    assert(s1.links == s.links);
    assert(s2.links == s.links.push(newl));
    assert(s2.links.drop_last() =~= s.links);
    assert(s2.links.last() == newl);
    assert(crate::store::links_matching(s2.links, anchor, tag) == ml.push(newl));

    // The old links still read back to the old list, and the new link
    // appends exactly the new profile.
    let ps = spec_get_game_players(s, code).unwrap();
    lemma_collect_members_monotone(s, s2, ml);
    lemma_collect_members_push(s2, ml, newl);
}

/// Law: no false membership. Every record a successful read returns is the
/// decoding of the retrievable target of a link that actually hangs off the
/// game's anchor under the player tag — one record per such link, in link
/// order; nothing is reported as a member without a membership link.
pub proof fn lemma_no_false_membership(s: SpecStore, code: Seq<u8>)
    requires
        spec_get_game_players(s, code) is Ok,
    ensures
        ({
            let ps = spec_get_game_players(s, code).unwrap();
            let ls = s.links_from(spec_anchor_bytes(code), spec_player_tag());
            &&& ps.len() == ls.len()
            &&& forall|j: int|
                0 <= j < ps.len() ==> {
                    &&& (#[trigger] ls[j]).base == spec_anchor_bytes(code)
                    &&& ls[j].tag == spec_player_tag()
                    &&& s.links.contains(ls[j])
                    &&& s.get(ls[j].target) == Some(ls[j].target)
                    &&& spec_decode_profile(ls[j].target) == Some(ps[j])
                }
        }),
{
    let ls = s.links_from(spec_anchor_bytes(code), spec_player_tag());
    lemma_links_matching_elems(s.links, spec_anchor_bytes(code), spec_player_tag());
    lemma_collect_members_ok(s, ls);
}

/// Law: partial failure is contained. When a join fails at the link step —
/// after the profile record was already persisted — the record is still
/// independently retrievable at its content address, yet the game's member
/// list reads back exactly as before the failed join: the orphaned record is
/// inert.
pub proof fn lemma_partial_failure_containment(s: SpecStore, agent: Seq<u8>, info: SpecJoinInfo)
    requires
        spec_get_game_players(s, info.game_code) is Ok,
        spec_join(s, agent, info).1 == Err::<Seq<u8>, MembershipError>(
            MembershipError::LinkFailure,
        ),
    ensures
        ({
            let s1 = spec_join(s, agent, info).0;
            let pb = spec_encode_profile(
                (SpecProfile { id: agent, nickname: info.player_nickname }),
            );
            &&& s1.get(pb) == Some(pb)
            &&& spec_get_game_players(s1, info.game_code) == spec_get_game_players(
                s,
                info.game_code,
            )
        }),
{
    let code = info.game_code;
    let anchor = spec_anchor_bytes(code);
    let tag = spec_player_tag();
    let pb = spec_encode_profile(SpecProfile { id: agent, nickname: info.player_nickname });
    let s1 = s.put(pb).unwrap();
    assert(spec_join(s, agent, info).0 == s1);
    crate::store::lemma_get_after_put(s, pb);
    assert forall|b: Seq<u8>| #[trigger] s.contains_entry(b) implies s1.contains_entry(b) by {
        let w = choose|w: int| 0 <= w < s.entries.len() && s.entries[w] == b;
        assert(s1.entries[w] == b);
    }
    assert(s1.links == s.links);
    lemma_collect_members_monotone(s, s1, crate::store::links_matching(s.links, anchor, tag));
}

proof fn lemma_prepend_members_assoc(
    prefix: Seq<SpecProfile>,
    p: SpecProfile,
    r: Result<Seq<SpecProfile>, MembershipError>,
)
    ensures
        prepend_members(prefix.push(p), r) == prepend_members(
            prefix,
            prepend_members(seq![p], r),
        ),
{
    match r {
        Ok(rest) => {
            assert(prefix.push(p) + rest =~= prefix + (seq![p] + rest));
        },
        Err(_) => {},
    }
}

} // verus!
