use vstd::prelude::*;
use crate::kad_id::KadID;

verus! {

/// An IPv4 network address: the four octets as one big-endian number, and a port.
#[derive(Clone, Copy, Debug, Hash, PartialEq, Eq, Structural)]
pub struct HostAddr {
    pub ip: u32,
    pub port: u16,
}

impl HostAddr {
    pub fn new(ip: u32, port: u16) -> (r: Self)
        ensures
            r.ip == ip,
            r.port == port,
    {
        Self { ip, port }
    }
}

/// A node of the network: its identifier and where to reach it.
#[derive(Clone, Copy, Debug, Hash)]
pub struct Peer {
    pub id: KadID,
    pub addr: HostAddr,
}

impl Peer {
    pub fn new(id: KadID, addr: HostAddr) -> (r: Self)
        ensures
            r.id == id,
            r.addr == addr,
    {
        Self { id, addr }
    }

    /// True exactly when both peers have the same identifier and address.
    pub fn same(&self, other: &Self) -> (r: bool)
        ensures
            r == (self.id@ == other.id@ && self.addr == other.addr),
    {
        self.id.same(&other.id) && self.addr == other.addr
    }
}

/// True when some peer of `s` has the identifier `id`.
pub open spec fn contains_id(s: Seq<Peer>, id: Seq<u8>) -> bool {
    exists|i: int| 0 <= i < s.len() && (#[trigger] s[i]).id@ == id
}

/// True when no two peers of `s` share an identifier.
pub open spec fn ids_unique(s: Seq<Peer>) -> bool {
    forall|i: int, j: int| 0 <= i < j < s.len() ==> (#[trigger] s[i]).id@ != (#[trigger] s[j]).id@
}

} // verus!
