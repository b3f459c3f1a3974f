//! The peer registry: the set of IPv4 addresses of the peers that a node
//! knows, each address a 32-bit number.

use crate::wire::be32;
use crate::wire::put_be32;
use std::collections::HashSet;
use vstd::prelude::*;
use vstd::std_specs::hash::group_hash_axioms;
use vstd::std_specs::iter::IteratorSpec;

verus! {

/// The set of known peers.
#[derive(Debug)]
pub struct PeerList {
    peers: HashSet<u32>,
}

impl View for PeerList {
    type V = Set<u32>;

    closed spec fn view(&self) -> Set<u32> {
        self.peers@
    }
}

/// The addresses `ips`, four bytes each, one after the other.
pub open spec fn ips_wire(ips: Seq<u32>) -> Seq<u8>
    decreases ips.len(),
{
    if ips.len() == 0 {
        Seq::empty()
    } else {
        ips_wire(ips.drop_last()) + be32(ips.last())
    }
}

/// The peer response that lists `ips`: the kind byte, the number of addresses
/// in four bytes, then the addresses. The count field holds what is left of
/// the number after division by 2^32.
pub open spec fn peer_wire(ips: Seq<u32>) -> Seq<u8> {
    seq![2u8] + be32((ips.len() % 0x1_0000_0000) as u32) + ips_wire(ips)
}

/// The addresses of `ips` that are no members of `known`, each once, in the
/// order in which `ips` first names them.
pub open spec fn fresh(ips: Seq<u32>, known: Set<u32>) -> Seq<u32>
    decreases ips.len(),
{
    if ips.len() == 0 {
        Seq::empty()
    } else if known.contains(ips.last()) || ips.drop_last().contains(ips.last()) {
        fresh(ips.drop_last(), known)
    } else {
        fresh(ips.drop_last(), known).push(ips.last())
    }
}

/// `ips` lists the members of `peers`, each of them once, in some order.
pub open spec fn lists(ips: Seq<u32>, peers: Set<u32>) -> bool {
    ips.no_duplicates() && ips.to_set() == peers
}

impl PeerList {
    /// The empty registry.
    pub fn new() -> (list: PeerList)
        ensures
            list@ == Set::<u32>::empty(),
    {
        PeerList { peers: HashSet::new() }
    }

    /// Makes `ip` a member. Nothing changes where it is one already.
    pub fn add_peer(&mut self, ip: u32)
        ensures
            final(self)@ == old(self)@.insert(ip),
    {
        broadcast use group_hash_axioms;

        self.peers.insert(ip);
    }

    /// Takes `ip` out. Nothing changes where it is no member.
    pub fn remove_peer(&mut self, ip: u32)
        ensures
            final(self)@ == old(self)@.remove(ip),
    {
        broadcast use group_hash_axioms;

        self.peers.remove(&ip);
    }

    /// The members, each of them once, in no particular order.
    pub fn get_ips(&self) -> (ips: Vec<u32>)
        ensures
            lists(ips@, self@),
    {
        broadcast use group_hash_axioms;

        let mut ips: Vec<u32> = Vec::new();
        let ghost keys = self.peers.iter().remaining();
        for ip in it: self.peers.iter()
            invariant
                it.seq() == keys,
                ips@ == keys.unref().subrange(0, it.index() as int),
        {
            ips.push(*ip);
        }
        proof {
            assert(ips@ =~= keys.unref());
            assert forall|i: int, j: int|
                0 <= i < keys.len() && 0 <= j < keys.len() && i != j implies keys.unref()[i]
                != keys.unref()[j] by {
                assert(keys[i] != keys[j]);
            }
        }
        ips
    }

    /// Makes every address of `new_ips` a member and returns those that were
    /// none before, each once, in the order in which `new_ips` first names
    /// them.
    pub fn add_and_get_new_peers(&mut self, new_ips: Vec<u32>) -> (added: Vec<u32>)
        ensures
            final(self)@ == old(self)@.union(new_ips@.to_set()),
            added@ == fresh(new_ips@, old(self)@),
            added@.no_duplicates(),
            added@.to_set() == new_ips@.to_set().difference(old(self)@),
    {
        broadcast use group_hash_axioms;

        let mut added: Vec<u32> = Vec::new();
        let mut i: usize = 0;
        assert(new_ips@.subrange(0, 0) =~= Seq::<u32>::empty());
        assert(self@ =~= old(self)@.union(Seq::<u32>::empty().to_set()));
        while i < new_ips.len()
            invariant
                i <= new_ips@.len(),
                self@ == old(self)@.union(new_ips@.subrange(0, i as int).to_set()),
                added@ == fresh(new_ips@.subrange(0, i as int), old(self)@),
            decreases new_ips@.len() - i,
        {
            let ip: u32 = new_ips[i];
            let ghost before = new_ips@.subrange(0, i as int);
            let ghost upto = new_ips@.subrange(0, i + 1);
            proof {
                assert(upto.drop_last() =~= before);
                assert(upto.last() == ip);
                assert(upto =~= before.push(ip));
                assert(upto.to_set() =~= before.to_set().insert(ip)) by {
                    assert forall|x: u32| upto.to_set().contains(x) <==> before.to_set().insert(
                        ip,
                    ).contains(x) by {
                        if before.contains(x) {
                            let k = choose|k: int| 0 <= k < before.len() && before[k] == x;
                            assert(upto[k] == x);
                        }
                        if upto.contains(x) {
                            let k = choose|k: int| 0 <= k < upto.len() && upto[k] == x;
                            if k < before.len() {
                                assert(before[k] == x);
                            }
                        }
                    }
                }
                assert(old(self)@.union(before.to_set()).insert(ip) =~= old(self)@.union(
                    upto.to_set(),
                ));
            }
            if self.peers.insert(ip) {
                added.push(ip);
            }
            i += 1;
        }
        proof {
            assert(new_ips@.subrange(0, i as int) =~= new_ips@);
            lemma_fresh(new_ips@, old(self)@);
        }
        added
    }

    /// The peer response that lists the members, in no particular order.
    pub fn to_bytes(&self) -> (bytes: Vec<u8>)
        ensures
            exists|ips: Seq<u32>| lists(ips, self@) && bytes@ == peer_wire(ips),
    {
        let ips: Vec<u32> = self.get_ips();
        encode_peer_response(ips.as_slice())
    }
}

/// The peer response that lists `ips` in their order.
pub fn encode_peer_response(ips: &[u32]) -> (bytes: Vec<u8>)
    ensures
        bytes@ == peer_wire(ips@),
{
    let mut bytes: Vec<u8> = Vec::new();
    bytes.push(2);
    let count: u32 = (ips.len() as u64 % 0x1_0000_0000) as u32;
    put_be32(&mut bytes, count);
    let mut i: usize = 0;
    assert(ips@.subrange(0, 0) =~= Seq::<u32>::empty());
    while i < ips.len()
        invariant
            i <= ips@.len(),
            bytes@ == seq![2u8] + be32(count) + ips_wire(ips@.subrange(0, i as int)),
        decreases ips@.len() - i,
    {
        put_be32(&mut bytes, ips[i]);
        proof {
            let upto = ips@.subrange(0, i + 1);
            assert(upto.drop_last() =~= ips@.subrange(0, i as int));
            assert(bytes@ =~= seq![2u8] + be32(count) + ips_wire(upto));
        }
        i += 1;
    }
    assert(ips@.subrange(0, i as int) =~= ips@);
    bytes
}

/// What `fresh` returns names every address of `ips` that is no member of
/// `known`, each once, and no other.
pub proof fn lemma_fresh(ips: Seq<u32>, known: Set<u32>)
    ensures
        fresh(ips, known).no_duplicates(),
        fresh(ips, known).to_set() == ips.to_set().difference(known),
    decreases ips.len(),
{
    if ips.len() == 0 {
        assert(fresh(ips, known).to_set() =~= ips.to_set().difference(known));
    } else {
        let before = ips.drop_last();
        let ip = ips.last();
        lemma_fresh(before, known);
        let got = fresh(ips, known);
        let was = fresh(before, known);
        assert forall|x: u32| ips.contains(x) <==> (before.contains(x) || x == ip) by {
            if before.contains(x) {
                let k = choose|k: int| 0 <= k < before.len() && before[k] == x;
                assert(ips[k] == x);
            }
            if ips.contains(x) {
                let k = choose|k: int| 0 <= k < ips.len() && ips[k] == x;
                if k < before.len() {
                    assert(before[k] == x);
                }
            }
            if x == ip {
                assert(ips[ips.len() - 1] == x);
            }
        }
        assert forall|x: u32| was.contains(x) <==> (before.contains(x) && !known.contains(x)) by {
            assert(was.to_set().contains(x) <==> before.to_set().difference(known).contains(x));
        }
        if known.contains(ip) || before.contains(ip) {
            assert(got == was);
        } else {
            assert(got == was.push(ip));
            assert(!was.contains(ip));
            assert forall|x: u32| got.contains(x) <==> (was.contains(x) || x == ip) by {
                if was.contains(x) {
                    let k = choose|k: int| 0 <= k < was.len() && was[k] == x;
                    assert(got[k] == x);
                }
                if got.contains(x) {
                    let k = choose|k: int| 0 <= k < got.len() && got[k] == x;
                    if k < was.len() {
                        assert(was[k] == x);
                    }
                }
                if x == ip {
                    assert(got[got.len() - 1] == x);
                }
            }
            assert forall|i: int, j: int| 0 <= i < got.len() && 0 <= j < got.len() && i != j implies got[i] != got[j] by {
                if i < was.len() && j < was.len() {
                    assert(was[i] != was[j]);
                } else if i < was.len() {
                    assert(was.contains(was[i]));
                } else {
                    assert(was.contains(was[j]));
                }
            }
        }
        assert(got.to_set() =~= ips.to_set().difference(known));
    }
}

} // verus!
