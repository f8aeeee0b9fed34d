//! A content-addressed graph store: immutable byte records keyed by their own
//! bytes, plus append-only tagged links between addresses.
//!
//! Addresses model collision-free content hashes by keying every record under
//! its full serialized bytes: byte-identical content always has the identical
//! address, and distinct content never collides. Writes are accepted up to a
//! fixed capacity chosen at construction; a write past it is rejected, which
//! models a substrate that can refuse a record or a link.
//!
//! Links are never validated against the record space: a link may point at an
//! address that nothing dereferences. Readers must treat such a link as a
//! recoverable fault.

use vstd::prelude::*;
use crate::bytes::bytes_eq;
use crate::bytes::clone_bytes;

verus! {

/// A content address: the deterministic identifier a record is stored under,
/// opaque to callers.
#[derive(Debug)]
pub struct Address {
    bytes: Vec<u8>,
}

impl View for Address {
    type V = Seq<u8>;

    closed spec fn view(&self) -> Seq<u8> {
        self.bytes@
    }
}

impl Address {
    /// Wraps raw bytes as an address. Any byte string is an address; whether
    /// something is stored under it is a separate question.
    pub fn from_bytes(bytes: Vec<u8>) -> (a: Address)
        ensures
            a@ == bytes@,
    {
        Address { bytes }
    }

    /// A copy of this address.
    pub fn duplicate(&self) -> (a: Address)
        ensures
            a@ == self@,
    {
        Address { bytes: clone_bytes(&self.bytes) }
    }
}

impl PartialEq for Address {
    fn eq(&self, other: &Address) -> (r: bool) {
        bytes_eq(&self.bytes, &other.bytes)
    }
}

impl vstd::std_specs::cmp::PartialEqSpecImpl for Address {
    open spec fn obeys_eq_spec() -> bool {
        true
    }

    open spec fn eq_spec(&self, other: &Address) -> bool {
        self@ == other@
    }
}

/// The mathematical value of a link: a directed, tagged edge between two
/// addresses.
#[verifier::ext_equal]
pub ghost struct SpecLink {
    pub base: Seq<u8>,
    pub target: Seq<u8>,
    pub tag: Seq<u8>,
}

/// A directed, tagged edge from one address to another.
#[derive(Debug)]
pub struct Link {
    pub base: Address,
    pub target: Address,
    pub tag: Vec<u8>,
}

impl View for Link {
    type V = SpecLink;

    open spec fn view(&self) -> SpecLink {
        SpecLink { base: self.base@, target: self.target@, tag: self.tag@ }
    }
}

impl Link {
    /// A copy of this link.
    pub fn duplicate(&self) -> (l: Link)
        ensures
            l@ == self@,
    {
        let l = Link {
            base: self.base.duplicate(),
            target: self.target.duplicate(),
            tag: clone_bytes(&self.tag),
        };
        proof {
            assert(l@ =~= self@);
        }
        l
    }
}

/// Why the store refused a write.
#[derive(Clone, Copy, Debug, PartialEq, Eq, Structural)]
pub enum StoreError {
    /// The store's capacity for this kind of write is exhausted.
    CapacityExhausted,
}

/// The mathematical state of a store.
#[verifier::ext_equal]
pub ghost struct SpecStore {
    pub entries: Seq<Seq<u8>>,
    pub links: Seq<SpecLink>,
    pub max_entries: int,
    pub max_links: int,
}

/// The links among `links` whose base and tag are exactly `base` and `tag`,
/// in their original order.
pub open spec fn links_matching(links: Seq<SpecLink>, base: Seq<u8>, tag: Seq<u8>) -> Seq<SpecLink>
    decreases links.len(),
{
    if links.len() == 0 {
        Seq::empty()
    } else {
        let rest = links_matching(links.drop_last(), base, tag);
        let l = links.last();
        if l.base == base && l.tag == tag {
            rest.push(l)
        } else {
            rest
        }
    }
}

impl SpecStore {
    /// Whether some record is stored under these exact bytes.
    pub open spec fn contains_entry(self, b: Seq<u8>) -> bool {
        exists|i: int| 0 <= i < self.entries.len() && self.entries[i] == b
    }

    /// Storing a record: a no-op when the identical bytes are already present
    /// (their address is unchanged), an append while capacity remains, and a
    /// rejection (`None`) otherwise. The record's address is its own bytes.
    pub open spec fn put(self, b: Seq<u8>) -> Option<SpecStore> {
        if self.contains_entry(b) {
            Some(self)
        } else if self.entries.len() < self.max_entries {
            Some(
                SpecStore {
                    entries: self.entries.push(b),
                    links: self.links,
                    max_entries: self.max_entries,
                    max_links: self.max_links,
                },
            )
        } else {
            None
        }
    }

    /// Dereferencing an address: the stored bytes when a record is present
    /// under it, `None` otherwise. Content addressing makes the result the
    /// address bytes themselves.
    pub open spec fn get(self, addr: Seq<u8>) -> Option<Seq<u8>> {
        if self.contains_entry(addr) {
            Some(addr)
        } else {
            None
        }
    }

    /// Appending a link while capacity remains; a rejection (`None`) otherwise.
    /// The link's addresses are not validated: either end may dangle.
    pub open spec fn add_link(self, l: SpecLink) -> Option<SpecStore> {
        if self.links.len() < self.max_links {
            Some(
                SpecStore {
                    entries: self.entries,
                    links: self.links.push(l),
                    max_entries: self.max_entries,
                    max_links: self.max_links,
                },
            )
        } else {
            None
        }
    }

    /// All links from `base` carrying `tag`, in insertion order.
    pub open spec fn links_from(self, base: Seq<u8>, tag: Seq<u8>) -> Seq<SpecLink> {
        links_matching(self.links, base, tag)
    }
}

/// An in-memory content-addressed graph store with fixed write capacities.
pub struct Store {
    entries: Vec<Vec<u8>>,
    links: Vec<Link>,
    max_entries: usize,
    max_links: usize,
}

impl View for Store {
    type V = SpecStore;

    closed spec fn view(&self) -> SpecStore {
        SpecStore {
            entries: self.entries@.map_values(|e: Vec<u8>| e@),
            links: self.links@.map_values(|l: Link| l@),
            max_entries: self.max_entries as int,
            max_links: self.max_links as int,
        }
    }
}

impl Store {
    /// An empty store that will accept up to `max_entries` records and
    /// `max_links` links.
    pub fn new(max_entries: usize, max_links: usize) -> (s: Store)
        ensures
            s@ == (SpecStore {
                entries: Seq::empty(),
                links: Seq::empty(),
                max_entries: max_entries as int,
                max_links: max_links as int,
            }),
    {
        let s = Store { entries: Vec::new(), links: Vec::new(), max_entries, max_links };
        proof {
            assert(s@ =~= (SpecStore {
                entries: Seq::empty(),
                links: Seq::empty(),
                max_entries: max_entries as int,
                max_links: max_links as int,
            }));
        }
        s
    }

    /// The index of the record stored under exactly these bytes, if any.
    fn find_entry(&self, bytes: &Vec<u8>) -> (r: Option<usize>)
        ensures
            match r {
                Some(i) => 0 <= i < self@.entries.len() && self@.entries[i as int] == bytes@,
                None => !self@.contains_entry(bytes@),
            },
    {
        let mut i: usize = 0;
        while i < self.entries.len()
            invariant
                i <= self.entries.len(),
                self@.entries.len() == self.entries.len(),
                forall|j: int| 0 <= j < self@.entries.len() ==> self@.entries[j] == self.entries@[j]@,
                forall|j: int| 0 <= j < i ==> self@.entries[j] != bytes@,
            decreases self.entries.len() - i,
        {
            if bytes_eq(&self.entries[i], bytes) {
                return Some(i);
            }
            i += 1;
        }
        None
    }

    /// Stores a record and returns its content address. Byte-identical content
    /// is deduplicated: re-putting it changes nothing and yields the same
    /// address. The write is rejected only when the content is new and the
    /// record capacity is exhausted; a rejection leaves the store unchanged.
    pub fn put(&mut self, bytes: Vec<u8>) -> (r: Result<Address, StoreError>)
        ensures
            match r {
                Ok(a) => old(self)@.put(bytes@) == Some(final(self)@) && a@ == bytes@,
                Err(_) => old(self)@.put(bytes@) is None && final(self)@ == old(self)@,
            },
    {
        let found = self.find_entry(&bytes);
        match found {
            Some(_) => Ok(Address { bytes }),
            None => {
                if self.entries.len() < self.max_entries {
                    let addr_bytes = clone_bytes(&bytes);
                    self.entries.push(bytes);
                    proof {
                        assert(self@.entries =~= old(self)@.entries.push(addr_bytes@));
                        assert(self@ =~= old(self)@.put(addr_bytes@).unwrap());
                    }
                    Ok(Address { bytes: addr_bytes })
                } else {
                    Err(StoreError::CapacityExhausted)
                }
            },
        }
    }

    /// Dereferences an address: the bytes stored under it, or `None` when no
    /// record is present there.
    pub fn get(&self, addr: &Address) -> (r: Option<Vec<u8>>)
        ensures
            match r {
                Some(b) => self@.get(addr@) == Some(b@),
                None => self@.get(addr@) is None,
            },
    {
        let found = self.find_entry(&addr.bytes);
        match found {
            Some(i) => Some(clone_bytes(&self.entries[i])),
            None => None,
        }
    }

    /// Appends a link from `base` to `target` under `tag`. Neither address is
    /// validated. The write is rejected only when the link capacity is
    /// exhausted; a rejection leaves the store unchanged.
    pub fn create_link(&mut self, base: Address, target: Address, tag: Vec<u8>) -> (r: Result<
        (),
        StoreError,
    >)
        ensures
            match r {
                Ok(_) => old(self)@.add_link(
                    (SpecLink { base: base@, target: target@, tag: tag@ }),
                ) == Some(final(self)@),
                Err(_) => old(self)@.add_link(
                    (SpecLink { base: base@, target: target@, tag: tag@ }),
                ) is None && final(self)@ == old(self)@,
            },
    {
        if self.links.len() < self.max_links {
            let ghost l = SpecLink { base: base@, target: target@, tag: tag@ };
            self.links.push(Link { base, target, tag });
            proof {
                assert(self@.links =~= old(self)@.links.push(l));
                assert(self@ =~= old(self)@.add_link(l).unwrap());
            }
            Ok(())
        } else {
            Err(StoreError::CapacityExhausted)
        }
    }

    /// All links from `base` carrying `tag`, in insertion order.
    pub fn links_from(&self, base: &Address, tag: &Vec<u8>) -> (r: Vec<Link>)
        ensures
            r@.map_values(|l: Link| l@) == self@.links_from(base@, tag@),
    {
        let mut out: Vec<Link> = Vec::new();
        let mut i: usize = 0;
        proof {
            assert(out@.map_values(|l: Link| l@) =~= links_matching(
                self@.links.take(0),
                base@,
                tag@,
            ));
        }
        while i < self.links.len()
            invariant
                i <= self.links.len(),
                self@.links.len() == self.links.len(),
                forall|j: int| 0 <= j < self@.links.len() ==> self@.links[j] == self.links@[j]@,
                out@.map_values(|l: Link| l@) == links_matching(
                    self@.links.take(i as int),
                    base@,
                    tag@,
                ),
            decreases self.links.len() - i,
        {
            let l = &self.links[i];
            let matches_base = bytes_eq(&l.base.bytes, &base.bytes);
            let matches_tag = bytes_eq(&l.tag, tag);
            proof {
                assert(self@.links.take(i + 1 as int).drop_last() =~= self@.links.take(i as int));
                assert(self@.links.take(i + 1 as int).last() == self@.links[i as int]);
            }
            if matches_base && matches_tag {
                let copy = l.duplicate();
                out.push(copy);
                proof {
                    assert(out@.map_values(|l: Link| l@) =~= links_matching(
                        self@.links.take(i as int),
                        base@,
                        tag@,
                    ).push(self@.links[i as int]));
                }
            }
            i += 1;
        }
        proof {
            assert(self@.links.take(self@.links.len() as int) =~= self@.links);
        }
        out
    }
}

/// Law: content addressing is deterministic and idempotent. Once a record
/// is stored, storing byte-identical content again succeeds, changes
/// nothing, and yields the same address (the content key itself).
pub proof fn lemma_put_idempotent(s: SpecStore, b: Seq<u8>)
    ensures
        s.put(b) matches Some(s1) ==> s1.put(b) == Some(s1),
{
    if s.put(b) is Some {
        let s1 = s.put(b).unwrap();
        if s.contains_entry(b) {
            assert(s1 == s);
        } else {
            assert(s1.entries == s.entries.push(b));
            assert(s1.entries[s.entries.len() as int] == b);
            assert(s1.contains_entry(b));
        }
    }
}

/// Law: round trip. Bytes stored in the store are retrievable, unchanged,
/// at the address `put` returned for them (the content key itself).
pub proof fn lemma_get_after_put(s: SpecStore, b: Seq<u8>)
    ensures
        s.put(b) matches Some(s1) ==> s1.get(b) == Some(b),
{
    if s.put(b) is Some {
        let s1 = s.put(b).unwrap();
        if s.contains_entry(b) {
            assert(s1.contains_entry(b));
        } else {
            assert(s1.entries[s.entries.len() as int] == b);
            assert(s1.contains_entry(b));
        }
    }
}

} // verus!
