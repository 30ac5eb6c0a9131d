//! Structures, types and constants shared by the rest of the Paxos core:
//! ballots, per-slot log entries, and the seven protocol messages.

use vstd::prelude::*;

verus! {

/// Milliseconds until a leader's lease expires after it was granted.
pub const LEASE_DURATION: u128 = 2000;

/// A ballot `(round, node_id)` identifies a leader regime.  Ballots are
/// totally ordered lexicographically on `(round, node_id)`; `(0, 0)` is the
/// sentinel every replica starts from, strictly below every ballot a replica
/// ever issues.
#[derive(Clone, Copy, Debug, PartialEq, Eq, PartialOrd, Ord, Hash, Structural)]
pub struct Ballot(pub usize, pub usize);

impl Ballot {
    /// The lexicographic order on `(round, node_id)`.
    pub open spec fn spec_le(self, other: Ballot) -> bool {
        self.0 < other.0 || (self.0 == other.0 && self.1 <= other.1)
    }

    /// Strict lexicographic order on `(round, node_id)`.
    pub open spec fn spec_lt(self, other: Ballot) -> bool {
        self.spec_le(other) && self != other
    }

    /// What `increment_for` yields: the next ballot in `node_id`'s own ballot
    /// space that is strictly above `self`.
    pub open spec fn spec_incremented_for(self, node_id: usize) -> Ballot {
        if self.1 >= node_id {
            Ballot((self.0 + 1) as usize, node_id)
        } else {
            Ballot(self.0, node_id)
        }
    }

    /// The sentinel ballot `(0, 0)`.
    pub fn zero() -> (b: Ballot)
        ensures
            b == Ballot(0usize, 0usize),
    {
        Ballot(0, 0)
    }

    /// Exec comparison: `self <= other` in the lexicographic ballot order.
    pub fn le(&self, other: &Ballot) -> (r: bool)
        ensures
            r == self.spec_le(*other),
    {
        self.0 < other.0 || (self.0 == other.0 && self.1 <= other.1)
    }

    /// Exec comparison: `self < other` in the lexicographic ballot order.
    pub fn lt(&self, other: &Ballot) -> (r: bool)
        ensures
            r == self.spec_lt(*other),
    {
        self.0 < other.0 || (self.0 == other.0 && self.1 < other.1)
    }

    /// Moves this ballot to a strictly higher one in `node_id`'s own ballot
    /// space: the node id is set to `node_id`, and if the stored node id was
    /// already at least `node_id`, the round is incremented first.
    pub fn increment_for(&mut self, node_id: usize)
        requires
            old(self).0 < usize::MAX,
        ensures
            *final(self) == old(self).spec_incremented_for(node_id),
            old(self).spec_lt(*final(self)),
            final(self).1 == node_id,
    {
        if self.1 >= node_id {
            self.0 += 1;
        }
        self.1 = node_id;
    }
}

impl Default for Ballot {
    /// The sentinel ballot `(0, 0)`.
    fn default() -> (b: Ballot)
        ensures
            b == Ballot(0usize, 0usize),
    {
        Ballot(0, 0)
    }
}

/// Distinct replicas never issue the same ballot: an issued ballot carries the
/// issuer's node id, so ballots from different replicas always differ.
pub proof fn lemma_ballot_uniqueness(a: Ballot, id_a: usize, b: Ballot, id_b: usize)
    requires
        id_a != id_b,
    ensures
        a.spec_incremented_for(id_a) != b.spec_incremented_for(id_b),
{
}

/// Ballot issuing is strictly monotonic on the replica that performs it, so a
/// single replica never issues the same ballot twice.
pub proof fn lemma_ballot_monotonic(a: Ballot, node_id: usize)
    requires
        a.0 < usize::MAX,
    ensures
        a.spec_lt(a.spec_incremented_for(node_id)),
{
}

/// The ballot order is total: antisymmetric, transitive, and any two ballots
/// are comparable.
pub proof fn lemma_ballot_total_order(a: Ballot, b: Ballot, c: Ballot)
    ensures
        a.spec_le(a),
        a.spec_le(b) && b.spec_le(a) ==> a == b,
        a.spec_le(b) && b.spec_le(c) ==> a.spec_le(c),
        a.spec_le(b) || b.spec_le(a),
{
}

/// A preliminary log entry reported in a `Promise`: `(slot, ballot, value)`.
pub type PValue = (usize, Ballot, Vec<u8>);

/// The payload of a `Promise` message: the accepted values an acceptor
/// reports for the requested slots.
pub type Promise = Vec<PValue>;

/// The seven messages of the protocol.  Commands travel in their serialized
/// form, so one message type serves every application.
#[derive(Clone, Debug, PartialEq)]
pub enum PaxosMsg {
    /// Phase 1a: a candidate asks for promises.  `holes` lists the slots the
    /// candidate has not yet learned as chosen, in ascending order, ending
    /// with a sentinel one past the highest slot it knows about; the sentinel
    /// also asks for anything at or beyond it.
    Prepare { ballot: Ballot, holes: Vec<usize> },
    /// Phase 1b: an acceptor grants a promise and reports what it has
    /// accepted in the requested slots.
    Promise { ballot: Ballot, accepted: Promise },
    /// Phase 2a: the leader proposes a value for a slot.
    Propose { index: usize, ballot: Ballot, value: Vec<u8> },
    /// Phase 2b: an acceptor has durably accepted the proposal for a slot.
    Accept { index: usize, ballot: Ballot },
    /// The leader announces a chosen slot to everyone.
    Learn { index: usize, ballot: Ballot, value: Vec<u8> },
    /// A Prepare/Propose was rejected: the sender's ballot is below the
    /// acceptor's `highest_promised`, which rides along.
    Nack { ballot: Ballot },
    /// A client command relayed to the believed leader.
    ClientRequest(Vec<u8>),
}

/// Per-slot state of the replicated log.
#[derive(Clone, Debug, PartialEq)]
pub struct LogEntry {
    /// The value this replica currently believes to be this slot's value.
    pub value: Option<Vec<u8>>,
    /// The node ids of the replicas known to have accepted this entry under
    /// the current leader's ballot; duplicates are never added.
    pub acceptances: Vec<usize>,
    /// The highest ballot under which `value` was accepted locally.
    pub accepted_ballot: Ballot,
    /// Once true, `value` is frozen and may be applied to the state machine.
    pub chosen: bool,
}

impl LogEntry {
    /// An entry's acceptance set never holds the same node id twice.
    pub open spec fn wf(self) -> bool {
        forall|i: int, j: int|
            0 <= i < j < self.acceptances@.len() ==> self.acceptances@[i] != self.acceptances@[j]
    }

    /// A fresh tentative entry for a value proposed by `proposer`, whose own
    /// acceptance is counted from the start.
    pub fn new(value: Vec<u8>, proposer: usize) -> (e: LogEntry)
        ensures
            e.value == Some(value),
            e.acceptances@ == seq![proposer],
            e.accepted_ballot == Ballot(0usize, 0usize),
            !e.chosen,
            e.wf(),
    {
        let mut acceptances: Vec<usize> = Vec::new();
        acceptances.push(proposer);
        LogEntry { value: Some(value), acceptances, accepted_ballot: Ballot(0, 0), chosen: false }
    }
}

impl Default for LogEntry {
    /// A completely empty entry, used for slots for which no proposal has
    /// been observed yet.
    fn default() -> (e: LogEntry)
        ensures
            e.value is None,
            e.acceptances@ == Seq::<usize>::empty(),
            e.accepted_ballot == Ballot(0usize, 0usize),
            !e.chosen,
            e.wf(),
    {
        LogEntry { value: None, acceptances: Vec::new(), accepted_ballot: Ballot(0, 0), chosen: false }
    }
}

} // verus!
