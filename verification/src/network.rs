//! The transport abstraction the replica core is written against, and the
//! address arithmetic of the reference UDP transport.
//!
//! The core itself never calls the transport: the process shell owns a
//! `NetworkNode`, drains received messages into `PaxosReplica::handle_message`
//! and performs the returned effects.

use vstd::prelude::*;

use crate::protocol::PaxosMsg;

verus! {

/// Unreliable datagram delivery to peers addressed by integer node ids.
/// Sends are best effort: they may drop, reorder or duplicate messages.
pub trait NetworkNode: Sized {
    type Addr;

    /// Creates a new network node with a stable node id.
    fn new() -> Self;

    /// Adds another peer's id to this node's set of known peers.
    fn discover(&mut self, other_node: usize);

    /// Receives a message sent to this node's id, with the sender's id
    /// recovered, or nothing within `timeout_ms` milliseconds.
    fn recv(&self, timeout_ms: u64) -> Option<(usize, PaxosMsg)>;

    /// Sends the message to every known peer, best effort, no atomicity.
    fn broadcast(&self, msg: &PaxosMsg);

    /// Tries to send the message to the peer with id `dst`.
    /// Returns `true` on success, `false` on failure.
    fn send(&self, dst: usize, msg: &PaxosMsg) -> bool;

    /// This node's own id.
    fn id(&self) -> usize;

    /// Recovers a node id from a transport address, where possible.
    fn addr_to_node_id(addr: Self::Addr) -> Option<usize>;

    /// The transport address a node id stands for.
    fn node_id_to_addr(node_id: usize) -> Self::Addr;
}

/// Packs an IPv4 address and port into a node id: `ip * 65536 + port`.
/// Returns nothing when the packed value does not fit a `usize`.
pub fn addr_to_node_id(ip: u32, port: u16) -> (r: Option<usize>)
    ensures
        match r {
            Some(id) => id == ip as int * 0x10000 + port as int,
            None => ip as int * 0x10000 + port as int > usize::MAX as int,
        },
{
    let v: u64 = (ip as u64) * 0x10000 + (port as u64);
    if v <= usize::MAX as u64 {
        Some(v as usize)
    } else {
        None
    }
}

/// Unpacks a node id into the IPv4 address and port it stands for: the
/// inverse of `addr_to_node_id` on every id either could produce.
pub fn node_id_to_addr(node_id: usize) -> (r: (u32, u16))
    ensures
        r.0 == (node_id as int / 0x10000) % 0x100000000,
        r.1 == node_id as int % 0x10000,
{
    let port = (node_id % 0x10000) as u16;
    let ip = (((node_id as u64) / 0x10000) % 0x100000000) as u32;
    (ip, port)
}

/// Address round-trip, address first: packing a well-formed address into a
/// node id and unpacking it again yields the same address.
pub proof fn lemma_addr_round_trip(ip: u32, port: u16)
    requires
        ip as int * 0x10000 + port as int <= usize::MAX as int,
    ensures
        (ip as int * 0x10000 + port as int) % 0x10000 == port as int,
        ((ip as int * 0x10000 + port as int) / 0x10000) % 0x100000000 == ip as int,
{
    let ipi = ip as int;
    let pi = port as int;
    assert((ipi * 0x10000 + pi) % 0x10000 == pi) by (nonlinear_arith)
        requires
            0 <= pi < 0x10000,
            0 <= ipi,
    ;
    assert((ipi * 0x10000 + pi) / 0x10000 == ipi) by (nonlinear_arith)
        requires
            0 <= pi < 0x10000,
            0 <= ipi,
    ;
}

/// Address round-trip, id first: unpacking a node id in range and packing
/// the resulting address again yields the same id.
pub proof fn lemma_node_id_round_trip(node_id: usize)
    requires
        (node_id as int) < 0x1000000000000,
    ensures
        ({
            let n = node_id as int;
            ((n / 0x10000) % 0x100000000) * 0x10000 + n % 0x10000 == n
        }),
{
    let n = node_id as int;
    assert(n / 0x10000 < 0x100000000) by (nonlinear_arith)
        requires
            0 <= n < 0x1000000000000,
    ;
    assert((n / 0x10000) % 0x100000000 == n / 0x10000);
    assert((n / 0x10000) * 0x10000 + n % 0x10000 == n) by (nonlinear_arith)
        requires
            0 <= n,
    ;
}

} // verus!
