//! A peer of the overlay network: 160-bit identifier plus contact address.
//!
//! Two nodes are the same node exactly when their identifiers are equal; the
//! address carried beside the identifier is whatever was last seen.

use vstd::prelude::*;

use crate::node_id;

verus! {

/// A node of the Kademlia tree.
pub struct Node {
    /// 160-bit identifier.
    pub id: [u8; 20],
    /// IP address of the node.
    pub ip: String,
    /// Port of the node.
    pub port: u16,
}

/// The shape a node descriptor has on the wire: the id arrives as an
/// unchecked byte string and the port widened to 32 bits.
pub struct WireNode {
    pub id: Vec<u8>,
    pub ip: String,
    pub port: u32,
}

/// Rejection of a malformed wire descriptor.
#[derive(Clone, Copy, PartialEq, Eq, Structural, Debug)]
pub enum WireError {
    /// The id field does not hold exactly 20 bytes.
    BadIdLength,
    /// The port field does not fit in 16 bits.
    BadPort,
}

impl Clone for Node {
    /// A cloned node equals the original.
    fn clone(&self) -> (r: Self)
        ensures
            r == *self,
    {
        Node { id: self.id, ip: self.ip.clone(), port: self.port }
    }
}

impl Node {
    /// Creates a node with a fresh random identifier.
    pub fn new(ip: String, port: u16) -> (r: Node)
        ensures
            r.id@.len() == 20,
            r.ip@ == ip@,
            r.port == port,
    {
        Node { id: node_id::generate_node_id(), ip, port }
    }

    /// Creates a node with the given identifier.
    pub fn with_id(id: [u8; 20], ip: String, port: u16) -> (r: Node)
        ensures
            r.id@ == id@,
            r.ip@ == ip@,
            r.port == port,
    {
        Node { id, ip, port }
    }

    /// The identifier of the node.
    pub fn get_id(&self) -> (r: &[u8; 20])
        ensures
            r@ == self.id@,
    {
        &self.id
    }

    /// The IP address of the node.
    pub fn get_ip(&self) -> (r: String)
        ensures
            r@ == self.ip@,
    {
        self.ip.clone()
    }

    /// The port of the node.
    pub fn get_port(&self) -> (r: u16)
        ensures
            r == self.port,
    {
        self.port
    }

    /// The node as it is sent on the wire.
    pub fn to_proto(&self) -> (r: WireNode)
        ensures
            r.id@ == self.id@,
            r.ip@ == self.ip@,
            r.port == self.port as u32,
    {
        let mut id: Vec<u8> = Vec::new();
        for i in 0..20
            invariant
                id@.len() == i,
                forall|j: int| 0 <= j < i ==> id@[j] == self.id@[j],
        {
            id.push(self.id[i]);
        }
        proof {
            assert(id@ =~= self.id@);
        }
        WireNode { id, ip: self.ip.clone(), port: self.port as u32 }
    }

    /// Reads a node back from its wire shape, rejecting an id that is not
    /// exactly 20 bytes and a port that does not fit in 16 bits.
    pub fn from_proto(proto: &WireNode) -> (r: Result<Node, WireError>)
        ensures
            match r {
                Ok(n) => proto.id@.len() == 20 && proto.port <= u16::MAX as u32 && n.id@
                    == proto.id@ && n.ip@ == proto.ip@ && n.port == proto.port as u16,
                Err(WireError::BadIdLength) => proto.id@.len() != 20,
                Err(WireError::BadPort) => proto.id@.len() == 20 && proto.port > u16::MAX as u32,
            },
    {
        if proto.id.len() != 20 {
            return Err(WireError::BadIdLength);
        }
        if proto.port > u16::MAX as u32 {
            return Err(WireError::BadPort);
        }
        let mut id = [0u8; 20];
        for i in 0..20
            invariant
                proto.id@.len() == 20,
                forall|j: int| 0 <= j < i ==> id@[j] == proto.id@[j],
        {
            id[i] = proto.id[i];
        }
        proof {
            assert(id@ =~= proto.id@);
        }
        Ok(Node { id, ip: proto.ip.clone(), port: proto.port as u16 })
    }
}

/// Byte-wise equality of two identifiers.
pub fn ids_equal(a: &[u8; 20], b: &[u8; 20]) -> (r: bool)
    ensures
        r == (a@ == b@),
{
    for i in 0..20
        invariant
            forall|j: int| 0 <= j < i ==> a@[j] == b@[j],
    {
        if a[i] != b[i] {
            return false;
        }
    }
    proof {
        assert(a@ =~= b@);
    }
    true
}

} // verus!
