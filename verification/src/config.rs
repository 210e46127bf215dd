//! The declarative policy: one local interface and the peers that may reach
//! it.

use crate::address::Address;
use vstd::prelude::*;

verus! {

/// The local end of the tunnel.
#[derive(Debug, Clone, PartialEq, Eq)]
pub struct Interface {
    /// The port on which the tunnel listens.
    pub listen_port: u16,
    /// A reference to the private key material.
    pub private_key: String,
}

/// One remote party and the source addresses it may use.
#[derive(Debug, Clone, PartialEq, Eq)]
pub struct Peer {
    /// The peer's identity.
    pub public_key: String,
    /// The source addresses open to this peer; may be empty.
    pub allowed_ips: Vec<Address>,
}

/// The whole policy of one invocation.
#[derive(Debug, Clone, PartialEq, Eq)]
pub struct Config {
    pub interface: Interface,
    pub peers: Vec<Peer>,
}

/// Every allowed address of the given peers, peer by peer, in the order in
/// which it is listed.
pub open spec fn listed(peers: Seq<Peer>) -> Seq<Address>
    decreases peers.len(),
{
    if peers.len() == 0 {
        Seq::empty()
    } else {
        listed(peers.drop_last()) + peers.last().allowed_ips@
    }
}

impl Peer {
    /// A peer is well formed when it has an identity.
    pub open spec fn well_formed(&self) -> bool {
        self.public_key@.len() > 0
    }

    /// Whether the peer is well formed.
    pub fn is_well_formed(&self) -> (ok: bool)
        ensures
            ok == self.well_formed(),
    {
        !self.public_key.as_str().is_empty()
    }
}

impl Config {
    /// A configuration is well formed when each of its peers is.
    pub open spec fn well_formed(&self) -> bool {
        forall|i: int| 0 <= i < self.peers@.len() ==> (#[trigger] self.peers@[i]).well_formed()
    }

    /// Every allowed address of the configuration, as listed, with
    /// repetitions.
    pub open spec fn addresses(&self) -> Seq<Address> {
        listed(self.peers@)
    }

    /// Whether the configuration is well formed.
    pub fn is_well_formed(&self) -> (ok: bool)
        ensures
            ok == self.well_formed(),
    {
        let mut i: usize = 0;
        while i < self.peers.len()
            invariant
                i <= self.peers@.len(),
                forall|j: int| 0 <= j < i ==> (#[trigger] self.peers@[j]).well_formed(),
            decreases self.peers@.len() - i,
        {
            if !self.peers[i].is_well_formed() {
                return false;
            }
            i = i + 1;
        }
        true
    }
}

} // verus!
