//! The alias store: a list of named peers. The store's reading and
//! writing of its on-disk form live with the surrounding program;
//! here is the data and its rules — one entry per name, the newest
//! registration winning.

use vstd::prelude::*;

verus! {

/// One saved peer: an alias, a `host:port` address, and an optional
/// remembered public key (reserved; unused by the core).
#[derive(Debug)]
pub struct PeerConfig {
    pub name: String,
    pub addr: String,
    pub pubkey_b64: Option<String>,
}

impl Clone for PeerConfig {
    fn clone(&self) -> (r: Self)
        ensures
            r == *self,
    {
        PeerConfig {
            name: self.name.clone(),
            addr: self.addr.clone(),
            pubkey_b64: match &self.pubkey_b64 {
                Some(s) => Some(s.clone()),
                None => None,
            },
        }
    }
}

/// The saved peers, in registration order.
#[derive(Debug)]
pub struct Persist {
    pub peers: Vec<PeerConfig>,
}

/// The peer list with every entry of the given name removed, order
/// otherwise kept.
pub open spec fn spec_without(peers: Seq<PeerConfig>, name: Seq<char>) -> Seq<PeerConfig>
    decreases peers.len(),
{
    if peers.len() == 0 {
        Seq::empty()
    } else {
        let rest = spec_without(peers.drop_last(), name);
        if peers.last().name@ != name {
            rest.push(peers.last())
        } else {
            rest
        }
    }
}

impl Default for Persist {
    fn default() -> (r: Self)
        ensures
            r.peers@ == Seq::<PeerConfig>::empty(),
    {
        Persist { peers: Vec::new() }
    }
}

impl Persist {
    /// Registers `name` at `addr`: any previous entry under the same
    /// name is replaced, and the new entry goes to the end.
    pub fn add_peer(&mut self, name: String, addr: String)
        ensures
            final(self).peers@ == spec_without(old(self).peers@, name@).push(
                (PeerConfig { name: name, addr: addr, pubkey_b64: None }),
            ),
    {
        let mut kept: Vec<PeerConfig> = Vec::new();
        let n = self.peers.len();
        let mut i: usize = 0;
        proof {
            assert(self.peers@.subrange(0, 0) =~= Seq::<PeerConfig>::empty());
        }
        while i < n
            invariant
                i <= n,
                n == self.peers@.len(),
                kept@ == spec_without(self.peers@.subrange(0, i as int), name@),
            decreases n - i,
        {
            let p = &self.peers[i];
            proof {
                assert(self.peers@.subrange(0, (i + 1) as int).drop_last() =~= self.peers@
                    .subrange(0, i as int));
                assert(self.peers@.subrange(0, (i + 1) as int).last() == self.peers@[i as int]);
            }
            if p.name == name {
                // dropped: an entry of the same name is replaced
            } else {
                kept.push(p.clone());
            }
            i = i + 1;
        }
        proof {
            assert(self.peers@.subrange(0, n as int) =~= self.peers@);
        }
        kept.push(PeerConfig { name, addr, pubkey_b64: None });
        self.peers = kept;
    }

    /// Looks an alias up: some saved peer of that name when one
    /// exists, nothing otherwise.
    pub fn get_peer(&self, name: &String) -> (r: Option<&PeerConfig>)
        ensures
            (r is Some <==> exists|i: int| 0 <= i < self.peers@.len() && (
            #[trigger] self.peers@[i]).name@ == name@),
            (match r {
                Some(p) => p.name@ == name@ && (exists|i: int| 0 <= i < self.peers@.len() && (
                #[trigger] self.peers@[i]) == *p && (forall|j: int| 0 <= j < i ==> self.peers@[
                    j].name@ != name@)),
                None => true,
            }),
    {
        let n = self.peers.len();
        let mut i: usize = 0;
        while i < n
            invariant
                i <= n,
                n == self.peers@.len(),
                forall|m: int| 0 <= m < i ==> (#[trigger] self.peers@[m]).name@ != name@,
            decreases n - i,
        {
            let p = &self.peers[i];
            if p.name == *name {
                return Some(p);
            }
            i = i + 1;
        }
        None
    }

    /// The whole saved list, in order.
    pub fn list_peers(&self) -> (r: &Vec<PeerConfig>)
        ensures
            r@ == self.peers@,
    {
        &self.peers
    }
}

} // verus!
