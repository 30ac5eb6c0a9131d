//! The Paxos replica core: a pure state machine that consumes events
//! (protocol messages, clock ticks, client submissions) and emits effects
//! (messages to send, a request to persist durable state).  The process
//! shell around the library owns the transport and the disk, performs each
//! effect in order, and feeds results back in as further events; the core
//! itself never blocks and never touches I/O.

use vstd::prelude::*;

use crate::protocol::{Ballot, LogEntry, PaxosMsg, Promise, LEASE_DURATION};

verus! {

/// An observable side effect requested by the replica core.  The shell
/// performs effects strictly in order; `Persist` must complete before any
/// message that follows it is sent.
#[derive(Clone, Debug, PartialEq)]
pub enum Effect {
    /// Send `msg` to the peer with id `dst`, best effort.
    Send { dst: usize, msg: PaxosMsg },
    /// Send `msg` to every known peer, best effort.
    Broadcast { msg: PaxosMsg },
    /// Durably store the replica's persistent state (`highest_promised` and
    /// the log) before performing any later effect.
    Persist,
}

/// The replica state machine for one member of the group.
pub struct PaxosReplica {
    /// This replica's own node id.
    pub node_id: usize,
    /// Number of replicas in the group; a quorum is `group_size / 2 + 1`.
    pub group_size: usize,
    /// The slot-indexed replicated log.
    pub log: Vec<LogEntry>,
    /// The greatest ballot to which this replica has issued a promise
    /// (persistent).
    pub highest_promised: Ballot,
    /// The believed leader's node id (advisory soft state).
    pub current_leader: usize,
    /// Whether a leader lease is currently held.
    pub lease_active: bool,
    /// Timestamp (ms) at which the current lease expires.
    pub lease_until: u128,
    /// During an election: the promises collected so far, keyed by sender.
    pub promises: Vec<(usize, Promise)>,
    /// Client commands held back while no leader is reachable.
    pub client_cmd_queue: Vec<Vec<u8>>,
    /// All slots below this index are chosen and were handed out for
    /// application, in order, exactly once.
    pub applied_upto: usize,
}

impl PaxosReplica {
    /// Quorum size for this group.
    pub open spec fn quorum(self) -> int {
        self.group_size as int / 2 + 1
    }

    /// The lease held at `now` has run out (or none is held).
    pub open spec fn spec_lease_expired(self, now: u128) -> bool {
        !self.lease_active || now >= self.lease_until
    }

    /// Structural well-formedness, preserved by every operation.
    pub open spec fn wf(self) -> bool {
        &&& self.group_size >= 1
        &&& self.applied_upto <= self.log@.len()
        &&& forall|i: int| 0 <= i < self.applied_upto ==> (#[trigger] self.log@[i]).chosen
        &&& forall|i: int|
            0 <= i < self.log@.len() ==> ((#[trigger] self.log@[i]).chosen ==> self.log@[i].value is Some)
        &&& forall|i: int| 0 <= i < self.log@.len() ==> (#[trigger] self.log@[i]).wf()
        &&& forall|i: int, j: int|
            0 <= i < j < self.promises@.len() ==> self.promises@[i].0 != self.promises@[j].0
    }

    /// What every event handler guarantees about the state transition:
    /// `highest_promised` never decreases, the log never shrinks, per-slot
    /// accepted ballots never decrease, a chosen slot stays chosen with its
    /// value frozen, and application progress never retreats.
    pub open spec fn safe_step(pre: PaxosReplica, post: PaxosReplica) -> bool {
        &&& post.node_id == pre.node_id
        &&& post.group_size == pre.group_size
        &&& pre.highest_promised.spec_le(post.highest_promised)
        &&& pre.log@.len() <= post.log@.len()
        &&& pre.applied_upto <= post.applied_upto
        &&& forall|i: int|
            0 <= i < pre.log@.len() ==> pre.log@[i].accepted_ballot.spec_le(
                (#[trigger] post.log@[i]).accepted_ballot,
            )
        &&& forall|i: int|
            0 <= i < pre.log@.len() && (#[trigger] pre.log@[i]).chosen ==> {
                &&& post.log@[i].chosen
                &&& post.log@[i].value == pre.log@[i].value
            }
    }
}

/// A `Learn` announcing a slot newly chosen in this step: the post state
/// shows it chosen, with the announced value, backed by a quorum of
/// recorded acceptances under the replica's current ballot.
pub open spec fn learn_msg_ok(post: PaxosReplica, msg: PaxosMsg) -> bool {
    msg matches PaxosMsg::Learn { index, ballot, value } ==> {
        &&& index < post.log@.len()
        &&& post.log@[index as int].chosen
        &&& post.log@[index as int].acceptances@.len() >= post.quorum()
        &&& post.log@[index as int].value matches Some(v) && value@ == v@
        &&& ballot == post.highest_promised
    }
}

/// A `Learn` a step may send point-to-point: it announces a chosen slot
/// with its frozen value, and the slot either gathered a quorum of
/// acceptances here (a new choice) or was already chosen before the step
/// (the outcome repeated for a lagging acceptor).
pub open spec fn learn_announce_ok(pre: PaxosReplica, post: PaxosReplica, msg: PaxosMsg) -> bool {
    msg matches PaxosMsg::Learn { index, ballot, value } ==> {
        &&& index < post.log@.len()
        &&& post.log@[index as int].chosen
        &&& post.log@[index as int].value matches Some(v) && value@ == v@
        &&& ballot == post.highest_promised
        &&& (post.log@[index as int].acceptances@.len() >= post.quorum() || (index < pre.log@.len()
            && pre.log@[index as int].chosen))
    }
}

/// A value is broadcast in a `Learn` only with a quorum of recorded
/// acceptances under the current ballot behind it; a point-to-point `Learn`
/// may also repeat a slot that was already chosen before the step, so that
/// an acceptor which missed the broadcast catches up.
pub open spec fn learns_ok(pre: PaxosReplica, post: PaxosReplica, effects: Seq<Effect>) -> bool {
    forall|k: int|
        0 <= k < effects.len() ==> match #[trigger] effects[k] {
            Effect::Send { dst, msg } => learn_announce_ok(pre, post, msg),
            Effect::Broadcast { msg } => learn_msg_ok(post, msg),
            Effect::Persist => true,
        }
}

/// `holes` is exactly the ascending list of this log's non-chosen slots,
/// terminated by the sentinel `log.len()`.
pub open spec fn holes_listed(log: Seq<LogEntry>, holes: Seq<usize>) -> bool {
    &&& holes.len() >= 1
    &&& holes.last() == log.len()
    &&& forall|k1: int, k2: int| 0 <= k1 < k2 < holes.len() ==> holes[k1] < holes[k2]
    &&& forall|k: int|
        0 <= k < holes.len() - 1 ==> (#[trigger] holes[k]) < log.len() && !log[holes[k] as int].chosen
    &&& forall|i: int| 0 <= i < log.len() && !(#[trigger] log[i]).chosen ==> holes.contains(i as usize)
}

/// A slot is requested by a `Prepare` if it is listed among the holes or
/// lies at or beyond the terminal sentinel.
pub open spec fn slot_requested(holes: Seq<usize>, slot: usize) -> bool {
    holes.contains(slot) || (holes.len() > 0 && slot >= holes.last())
}

/// The payload of a `Promise`: each reported triple is a requested slot
/// carrying exactly the acceptor's locally accepted value and ballot, slots
/// are strictly ascending (so none is reported twice), and every requested
/// slot holding a value is reported.
pub open spec fn reported_triples_ok(log: Seq<LogEntry>, holes: Seq<usize>, r: Seq<(usize, Ballot, Vec<u8>)>) -> bool {
    &&& forall|k: int|
        0 <= k < r.len() ==> {
            let t = #[trigger] r[k];
            &&& t.0 < log.len()
            &&& slot_requested(holes, t.0)
            &&& log[t.0 as int].value matches Some(v) && t.2@ == v@
            &&& t.1 == log[t.0 as int].accepted_ballot
        }
    &&& forall|k1: int, k2: int| 0 <= k1 < k2 < r.len() ==> r[k1].0 < r[k2].0
    &&& forall|i: int|
        0 <= i < log.len() && (#[trigger] log[i]).value is Some && slot_requested(holes, i as usize)
            ==> exists|k: int| 0 <= k < r.len() && (#[trigger] r[k]).0 == i
}

/// When a lease is granted or refreshed at `now` it runs until
/// `now + LEASE_DURATION`, capped at the end of time.
pub open spec fn spec_lease_end(now: u128) -> u128 {
    if now > u128::MAX - LEASE_DURATION {
        u128::MAX
    } else {
        (now + LEASE_DURATION) as u128
    }
}

/// An exact byte-for-byte copy of a command buffer.
fn clone_bytes(v: &Vec<u8>) -> (r: Vec<u8>)
    ensures
        r@ == v@,
{
    let mut r: Vec<u8> = Vec::new();
    let mut i: usize = 0;
    while i < v.len()
        invariant
            i <= v@.len(),
            r@ == v@.take(i as int),
        decreases v@.len() - i,
    {
        r.push(v[i]);
        proof {
            assert(v@.take(i as int).push(v@[i as int]) =~= v@.take(i as int + 1));
        }
        i += 1;
    }
    proof {
        assert(v@.take(v@.len() as int) =~= v@);
    }
    r
}

/// Whether the id list contains `x`.
fn list_contains(list: &Vec<usize>, x: usize) -> (r: bool)
    ensures
        r == list@.contains(x),
{
    let mut j: usize = 0;
    while j < list.len()
        invariant
            j <= list@.len(),
            forall|k: int| 0 <= k < j ==> list@[k] != x,
        decreases list@.len() - j,
    {
        if list[j] == x {
            return true;
        }
        j += 1;
    }
    false
}

/// The ascending list of this log's non-chosen slots, terminated by the
/// sentinel `log.len()`.
fn compute_holes(log: &Vec<LogEntry>) -> (r: Vec<usize>)
    ensures
        holes_listed(log@, r@),
{
    let mut r: Vec<usize> = Vec::new();
    let mut i: usize = 0;
    while i < log.len()
        invariant
            i <= log@.len(),
            forall|k1: int, k2: int| 0 <= k1 < k2 < r@.len() ==> r@[k1] < r@[k2],
            forall|k: int|
                0 <= k < r@.len() ==> (#[trigger] r@[k]) < i && !log@[r@[k] as int].chosen,
            forall|j: int|
                0 <= j < i && !(#[trigger] log@[j]).chosen ==> r@.contains(j as usize),
        decreases log@.len() - i,
    {
        if !log[i].chosen {
            let ghost r_pre = r@;
            r.push(i);
            proof {
                assert(r@[r@.len() - 1] == i);
                assert forall|j: int| 0 <= j < i + 1 && !(#[trigger] log@[j]).chosen implies r@.contains(
                    j as usize,
                ) by {
                    if j < i {
                        let k = choose|k: int| 0 <= k < r_pre.len() && r_pre[k] == j as usize;
                        assert(r@[k] == j as usize);
                    } else {
                        assert(r@[r@.len() - 1] == j as usize);
                    }
                }
            }
        }
        i += 1;
    }
    let ghost r_pre = r@;
    r.push(log.len());
    proof {
        assert(r@.last() == log@.len() as usize);
        assert forall|j: int| 0 <= j < log@.len() && !(#[trigger] log@[j]).chosen implies r@.contains(
            j as usize,
        ) by {
            let k = choose|k: int| 0 <= k < r_pre.len() && r_pre[k] == j as usize;
            assert(r@[k] == j as usize);
        }
    }
    r
}

/// Collects this replica's accepted `(slot, ballot, value)` triples for
/// every requested slot, in ascending slot order.
fn collect_accepted(log: &Vec<LogEntry>, holes: &Vec<usize>) -> (r: Promise)
    ensures
        reported_triples_ok(log@, holes@, r@),
{
    let mut r: Promise = Vec::new();
    let sentinel_present = holes.len() > 0;
    let mut i: usize = 0;
    while i < log.len()
        invariant
            i <= log@.len(),
            sentinel_present == (holes@.len() > 0),
            forall|k: int|
                0 <= k < r@.len() ==> {
                    let t = #[trigger] r@[k];
                    &&& t.0 < log@.len()
                    &&& (t.0 as int) < i
                    &&& slot_requested(holes@, t.0)
                    &&& log@[t.0 as int].value matches Some(v) && t.2@ == v@
                    &&& t.1 == log@[t.0 as int].accepted_ballot
                },
            forall|k1: int, k2: int| 0 <= k1 < k2 < r@.len() ==> r@[k1].0 < r@[k2].0,
            forall|j: int|
                0 <= j < i && (#[trigger] log@[j]).value is Some && slot_requested(holes@, j as usize)
                    ==> exists|k: int| 0 <= k < r@.len() && (#[trigger] r@[k]).0 == j,
        decreases log@.len() - i,
    {
        let requested = list_contains(holes, i) || (sentinel_present && i >= holes[holes.len() - 1]);
        let has_value = log[i].value.is_some();
        if requested && has_value {
            let value = match &log[i].value {
                Some(v) => clone_bytes(v),
                None => Vec::new(),
            };
            let ghost r_pre = r@;
            r.push((i, log[i].accepted_ballot, value));
            proof {
                assert(r@[r@.len() - 1].0 == i);
                assert forall|j: int|
                    0 <= j < i + 1 && (#[trigger] log@[j]).value is Some && slot_requested(
                        holes@,
                        j as usize,
                    ) implies exists|k: int| 0 <= k < r@.len() && (#[trigger] r@[k]).0 == j by {
                    if j < i {
                        let k = choose|k: int| 0 <= k < r_pre.len() && (#[trigger] r_pre[k]).0 == j;
                        assert(r@[k].0 == j);
                    } else {
                        assert(r@[r@.len() - 1].0 == j);
                    }
                }
            }
        }
        i += 1;
    }
    r
}

/// Grows `log` with empty entries until it has at least `n` slots.
fn grow_log_to(log: &mut Vec<LogEntry>, n: usize)
    ensures
        final(log)@.len() == if old(log)@.len() >= n { old(log)@.len() as int } else { n as int },
        forall|i: int| 0 <= i < old(log)@.len() ==> final(log)@[i] == old(log)@[i],
        forall|i: int|
            old(log)@.len() <= i < final(log)@.len() ==> {
                &&& (#[trigger] final(log)@[i]).value is None
                &&& final(log)@[i].acceptances@.len() == 0
                &&& final(log)@[i].accepted_ballot == Ballot(0usize, 0usize)
                &&& !final(log)@[i].chosen
                &&& final(log)@[i].wf()
            },
    {
    while log.len() < n
        invariant
            log@.len() >= old(log)@.len(),
            old(log)@.len() >= n || log@.len() <= n,
            old(log)@.len() < n || log@.len() == old(log)@.len(),
            forall|i: int| 0 <= i < old(log)@.len() ==> log@[i] == old(log)@[i],
            forall|i: int|
                old(log)@.len() <= i < log@.len() ==> {
                    &&& (#[trigger] log@[i]).value is None
                    &&& log@[i].acceptances@.len() == 0
                    &&& log@[i].accepted_ballot == Ballot(0usize, 0usize)
                    &&& !log@[i].chosen
                    &&& log@[i].wf()
                },
        decreases n - log@.len(),
    {
        log.push(LogEntry::default());
    }
    }

impl PaxosReplica {
    /// A fresh replica: empty log, sentinel promise, unknown leader, and an
    /// already expired lease, so the first `tick` starts an election.
    pub fn new(node_id: usize, group_size: usize) -> (r: PaxosReplica)
        requires
            group_size >= 1,
        ensures
            r.node_id == node_id,
            r.group_size == group_size,
            r.log@.len() == 0,
            r.highest_promised == Ballot(0usize, 0usize),
            r.current_leader == 0usize,
            !r.lease_active,
            r.promises@.len() == 0,
            r.client_cmd_queue@.len() == 0,
            r.applied_upto == 0usize,
            r.wf(),
    {
        PaxosReplica {
            node_id,
            group_size,
            log: Vec::new(),
            highest_promised: Ballot::zero(),
            current_leader: 0,
            lease_active: false,
            lease_until: 0,
            promises: Vec::new(),
            client_cmd_queue: Vec::new(),
            applied_upto: 0,
        }
    }

    /// Rebuilds a replica from its durable state after a crash: the
    /// promised ballot and every slot's value and accepted ballot survive;
    /// soft state (acceptance tallies, chosen flags, leases, collected
    /// promises, queued commands) is discarded and will be re-learned.
    pub fn restore(node_id: usize, group_size: usize, highest_promised: Ballot, saved: Vec<LogEntry>) -> (r: PaxosReplica)
        requires
            group_size >= 1,
        ensures
            r.node_id == node_id,
            r.group_size == group_size,
            r.highest_promised == highest_promised,
            r.current_leader == 0usize,
            !r.lease_active,
            r.promises@.len() == 0,
            r.client_cmd_queue@.len() == 0,
            r.applied_upto == 0usize,
            r.log@.len() == saved@.len(),
            forall|i: int|
                0 <= i < saved@.len() ==> {
                    &&& (#[trigger] r.log@[i]).value == saved@[i].value
                    &&& r.log@[i].accepted_ballot == saved@[i].accepted_ballot
                    &&& !r.log@[i].chosen
                    &&& r.log@[i].acceptances@.len() == 0
                },
            r.wf(),
    {
        let mut log: Vec<LogEntry> = Vec::new();
        let mut saved = saved;
        let ghost saved0 = saved@;
        // rebuild back to front so entries can be moved out of the vector
        while saved.len() > 0
            invariant
                log@.len() + saved@.len() == saved0.len(),
                saved@ == saved0.take(saved@.len() as int),
                forall|k: int|
                    0 <= k < log@.len() ==> {
                        let j = saved0.len() - 1 - k;
                        &&& (#[trigger] log@[k]).value == saved0[j].value
                        &&& log@[k].accepted_ballot == saved0[j].accepted_ballot
                        &&& !log@[k].chosen
                        &&& log@[k].acceptances@.len() == 0
                        &&& log@[k].wf()
                    },
            decreases saved@.len(),
        {
            let entry = saved.pop().unwrap();
            log.push(
                LogEntry {
                    value: entry.value,
                    acceptances: Vec::new(),
                    accepted_ballot: entry.accepted_ballot,
                    chosen: false,
                },
            );
        }
        // the rebuilt entries are in reverse order; flip them back
        let mut forward: Vec<LogEntry> = Vec::new();
        while log.len() > 0
            invariant
                forward@.len() + log@.len() == saved0.len(),
                forall|k: int|
                    0 <= k < log@.len() ==> {
                        let j = saved0.len() - 1 - k;
                        &&& (#[trigger] log@[k]).value == saved0[j].value
                        &&& log@[k].accepted_ballot == saved0[j].accepted_ballot
                        &&& !log@[k].chosen
                        &&& log@[k].acceptances@.len() == 0
                        &&& log@[k].wf()
                    },
                forall|k: int|
                    0 <= k < forward@.len() ==> {
                        &&& (#[trigger] forward@[k]).value == saved0[k].value
                        &&& forward@[k].accepted_ballot == saved0[k].accepted_ballot
                        &&& !forward@[k].chosen
                        &&& forward@[k].acceptances@.len() == 0
                        &&& forward@[k].wf()
                    },
                forward@.len() == saved0.len() - log@.len(),
            decreases log@.len(),
        {
            let entry = log.pop().unwrap();
            forward.push(entry);
        }
        PaxosReplica {
            node_id,
            group_size,
            log: forward,
            highest_promised,
            current_leader: 0,
            lease_active: false,
            lease_until: 0,
            promises: Vec::new(),
            client_cmd_queue: Vec::new(),
            applied_upto: 0,
        }
    }

    /// Exec mirror of `spec_lease_expired`.
    pub fn lease_expired(&self, now: u128) -> (r: bool)
        ensures
            r == self.spec_lease_expired(now),
    {
        !self.lease_active || now >= self.lease_until
    }

    /// Hands out the next chosen-but-unapplied command, in strict slot
    /// order: the shell calls this repeatedly after every event and applies
    /// each returned command to the state machine.  Slot `k` is returned at
    /// most once, and only after slots `0 .. k` were all returned.
    pub fn next_applicable(&mut self) -> (r: Option<(usize, Vec<u8>)>)
        requires
            old(self).wf(),
        ensures
            final(self).wf(),
            final(self).log == old(self).log,
            final(self).node_id == old(self).node_id,
            final(self).group_size == old(self).group_size,
            final(self).highest_promised == old(self).highest_promised,
            final(self).current_leader == old(self).current_leader,
            final(self).lease_active == old(self).lease_active,
            final(self).lease_until == old(self).lease_until,
            final(self).promises == old(self).promises,
            final(self).client_cmd_queue == old(self).client_cmd_queue,
            match r {
                Some(slot_value) => {
                    &&& slot_value.0 == old(self).applied_upto
                    &&& final(self).applied_upto == old(self).applied_upto + 1
                    &&& slot_value.0 < old(self).log@.len()
                    &&& old(self).log@[slot_value.0 as int].chosen
                    &&& old(self).log@[slot_value.0 as int].value matches Some(v) && slot_value.1@
                        == v@
                },
                None => {
                    &&& final(self).applied_upto == old(self).applied_upto
                    &&& (old(self).applied_upto == old(self).log@.len() || !old(self).log@[old(self).applied_upto as int].chosen)
                },
            },
    {
        if self.applied_upto < self.log.len() && self.log[self.applied_upto].chosen {
            let slot = self.applied_upto;
            let value = match &self.log[slot].value {
                Some(v) => clone_bytes(v),
                None => {
                    // unreachable: chosen slots always hold a value
                    Vec::new()
                },
            };
            self.applied_upto = slot + 1;
            Some((slot, value))
        } else {
            None
        }
    }

    /// Records a client command whose relay to the leader failed; it will be
    /// retried on the next relay attempt or local election.
    pub fn requeue(&mut self, value: Vec<u8>)
        requires
            old(self).wf(),
        ensures
            final(self).wf(),
            final(self).client_cmd_queue@ == old(self).client_cmd_queue@.push(value),
            final(self).log == old(self).log,
            final(self).node_id == old(self).node_id,
            final(self).group_size == old(self).group_size,
            final(self).highest_promised == old(self).highest_promised,
            final(self).current_leader == old(self).current_leader,
            final(self).lease_active == old(self).lease_active,
            final(self).lease_until == old(self).lease_until,
            final(self).promises == old(self).promises,
            final(self).applied_upto == old(self).applied_upto,
    {
        self.client_cmd_queue.push(value);
    }

    /// A stale ballot was rejected somewhere: adopt the rejector's
    /// `highest_promised` so the next election round outbids it, and abandon
    /// any election in progress.  No message is sent; re-election waits for
    /// the next lease expiry.
    pub fn handle_nack(&mut self, ballot: Ballot) -> (effects: Vec<Effect>)
        requires
            old(self).wf(),
        ensures
            final(self).wf(),
            PaxosReplica::safe_step(*old(self), *final(self)),
            learns_ok(*old(self), *final(self), effects@),
            nack_step(*old(self), *final(self), ballot, effects@),
    {
        if self.highest_promised.lt(&ballot) {
            self.highest_promised = ballot;
            self.promises = Vec::new();
        }
        Vec::new()
    }

    /// Phase 1a, acceptor side.  A stale ballot is answered with a `Nack`;
    /// a live lease held by a node other than `src` suppresses the promise
    /// (lease stability); otherwise the promise is granted: the ballot is
    /// adopted and persisted, `src` becomes the believed leader with a fresh
    /// lease, and the accepted values for the requested slots are reported.
    pub fn handle_prepare(&mut self, src: usize, ballot: Ballot, holes: Vec<usize>, now: u128) -> (effects: Vec<Effect>)
        requires
            old(self).wf(),
        ensures
            final(self).wf(),
            PaxosReplica::safe_step(*old(self), *final(self)),
            learns_ok(*old(self), *final(self), effects@),
            prepare_step(*old(self), *final(self), src, ballot, holes, now, effects@),
    {
        let mut effects: Vec<Effect> = Vec::new();
        if ballot.lt(&self.highest_promised) {
            effects.push(
                Effect::Send { dst: src, msg: PaxosMsg::Nack { ballot: self.highest_promised } },
            );
            return effects;
        }
        if !self.lease_expired(now) && self.current_leader != src {
            return effects;
        }
        self.highest_promised = ballot;
        self.current_leader = src;
        self.lease_active = true;
        self.lease_until = lease_end(now);
        let accepted = collect_accepted(&self.log, &holes);
        effects.push(Effect::Persist);
        effects.push(Effect::Send { dst: src, msg: PaxosMsg::Promise { ballot, accepted } });
        effects
    }

    /// Phase 2a, acceptor side.  A stale ballot gets a `Nack`; a slot that
    /// is already chosen, or locally accepted under a higher ballot, is left
    /// untouched; otherwise the log is grown to cover the slot, the value is
    /// recorded under `ballot`, persisted, and acknowledged with an
    /// `Accept`.
    pub fn handle_propose(&mut self, src: usize, index: usize, ballot: Ballot, value: Vec<u8>, now: u128) -> (effects: Vec<Effect>)
        requires
            old(self).wf(),
        ensures
            final(self).wf(),
            PaxosReplica::safe_step(*old(self), *final(self)),
            learns_ok(*old(self), *final(self), effects@),
            propose_step(*old(self), *final(self), src, index, ballot, value, effects@),
    {
        let mut effects: Vec<Effect> = Vec::new();
        if ballot.lt(&self.highest_promised) {
            effects.push(
                Effect::Send { dst: src, msg: PaxosMsg::Nack { ballot: self.highest_promised } },
            );
            return effects;
        }
        if index == usize::MAX {
            return effects;
        }
        if index < self.log.len() {
            let stale = self.log[index].chosen || ballot.lt(&self.log[index].accepted_ballot);
            if stale {
                return effects;
            }
        }
        grow_log_to(&mut self.log, index + 1);
        self.highest_promised = ballot;
        let entry = &mut self.log[index];
        entry.value = Some(value);
        entry.accepted_ballot = ballot;
        entry.acceptances = Vec::new();
        effects.push(Effect::Persist);
        effects.push(Effect::Send { dst: src, msg: PaxosMsg::Accept { index, ballot } });
        effects
    }

    /// Phase 2b, leader side.  Counts `src`'s acceptance of the proposal
    /// for `index` under the current ballot (duplicates are ignored); once
    /// a quorum of distinct acceptors is recorded the slot becomes chosen
    /// and a `Learn` is broadcast.  An acceptance of a slot already chosen
    /// here is answered with a direct `Learn`, so a replica that missed the
    /// broadcast catches up.
    pub fn handle_accept(&mut self, src: usize, index: usize, ballot: Ballot) -> (effects: Vec<Effect>)
        requires
            old(self).wf(),
        ensures
            final(self).wf(),
            PaxosReplica::safe_step(*old(self), *final(self)),
            learns_ok(*old(self), *final(self), effects@),
            accept_step(*old(self), *final(self), src, index, ballot, effects@),
    {
        let mut effects: Vec<Effect> = Vec::new();
        if !(ballot == self.highest_promised) {
            return effects;
        }
        if index >= self.log.len() {
            return effects;
        }
        if self.log[index].chosen {
            let value = match &self.log[index].value {
                Some(v) => clone_bytes(v),
                None => Vec::new(),
            };
            effects.push(Effect::Send { dst: src, msg: PaxosMsg::Learn { index, ballot, value } });
            return effects;
        }
        let has_value = self.log[index].value.is_some();
        if !has_value {
            return effects;
        }
        let already = list_contains(&self.log[index].acceptances, src);
        if !already {
            let entry = &mut self.log[index];
            entry.acceptances.push(src);
        }
        let quorum = self.group_size / 2 + 1;
        if self.log[index].acceptances.len() >= quorum {
            let entry = &mut self.log[index];
            entry.chosen = true;
            let value = match &self.log[index].value {
                Some(v) => clone_bytes(v),
                None => Vec::new(),
            };
            effects.push(Effect::Broadcast { msg: PaxosMsg::Learn { index, ballot, value } });
        }
        effects
    }

    /// A chosen slot is announced: grow the log to cover it, freeze the
    /// value, and persist.  A slot already chosen locally is left exactly as
    /// it is.
    pub fn handle_learn(&mut self, index: usize, ballot: Ballot, value: Vec<u8>) -> (effects: Vec<Effect>)
        requires
            old(self).wf(),
        ensures
            final(self).wf(),
            PaxosReplica::safe_step(*old(self), *final(self)),
            learns_ok(*old(self), *final(self), effects@),
            learn_step(*old(self), *final(self), index, ballot, value, effects@),
    {
        let mut effects: Vec<Effect> = Vec::new();
        if index == usize::MAX {
            return effects;
        }
        if index < self.log.len() && self.log[index].chosen {
            return effects;
        }
        grow_log_to(&mut self.log, index + 1);
        let keep_ballot = ballot.lt(&self.log[index].accepted_ballot);
        let entry = &mut self.log[index];
        entry.value = Some(value);
        if !keep_ballot {
            entry.accepted_ballot = ballot;
        }
        entry.chosen = true;
        effects.push(Effect::Persist);
        effects
    }
}

/// A `Propose` for `index` under `ballot` is recorded unless the slot is
/// out of representable range, already chosen, or locally accepted under a
/// strictly higher ballot.
pub open spec fn propose_records(log: Seq<LogEntry>, index: usize, ballot: Ballot) -> bool {
    &&& index < usize::MAX
    &&& !(index < log.len() && (log[index as int].chosen || ballot.spec_lt(
        log[index as int].accepted_ballot,
    )))
}

/// An `Accept` under `ballot` for `index` is counted only if the ballot is
/// current, the slot exists, is not yet chosen, and holds a value.
pub open spec fn accept_counts(pre: PaxosReplica, index: usize, ballot: Ballot) -> bool {
    &&& ballot == pre.highest_promised
    &&& index < pre.log@.len()
    &&& !pre.log@[index as int].chosen
    &&& pre.log@[index as int].value is Some
}

/// An `Accept` for a slot already chosen here, under the current ballot, is
/// answered with the outcome: the acceptor evidently missed the `Learn`.
pub open spec fn accept_refreshes(pre: PaxosReplica, index: usize, ballot: Ballot) -> bool {
    &&& ballot == pre.highest_promised
    &&& index < pre.log@.len()
    &&& pre.log@[index as int].chosen
}

/// A `Learn` for `index` records a newly chosen slot unless the slot is out
/// of representable range or already chosen locally.
pub open spec fn learn_records(log: Seq<LogEntry>, index: usize) -> bool {
    &&& index < usize::MAX
    &&& !(index < log.len() && log[index as int].chosen)
}

/// Full contract of handling a `Nack` carrying `ballot`.
pub open spec fn nack_step(pre: PaxosReplica, post: PaxosReplica, ballot: Ballot, effects: Seq<Effect>) -> bool {
    &&& effects.len() == 0
    &&& post.log == pre.log
    &&& post.applied_upto == pre.applied_upto
    &&& post.client_cmd_queue == pre.client_cmd_queue
    &&& (pre.highest_promised.spec_lt(ballot) ==> {
        &&& post.highest_promised == ballot
        &&& post.promises@.len() == 0
    })
    &&& (!pre.highest_promised.spec_lt(ballot) ==> post == pre)
}

/// Full contract of handling `Prepare { ballot, holes }` from `src` at `now`.
pub open spec fn prepare_step(
    pre: PaxosReplica,
    post: PaxosReplica,
    src: usize,
    ballot: Ballot,
    holes: Vec<usize>,
    now: u128,
    effects: Seq<Effect>,
) -> bool {
    &&& post.log == pre.log
    &&& post.applied_upto == pre.applied_upto
    &&& post.promises == pre.promises
    &&& post.client_cmd_queue == pre.client_cmd_queue
    &&& (ballot.spec_lt(pre.highest_promised) ==> {
        &&& post == pre
        &&& effects.len() == 1
        &&& (effects[0] matches Effect::Send { dst, msg } && dst == src && (msg matches
            PaxosMsg::Nack { ballot: b } && b == pre.highest_promised))
    })
    &&& ((!ballot.spec_lt(pre.highest_promised) && !pre.spec_lease_expired(now)
        && pre.current_leader != src) ==> {
        &&& post == pre
        &&& effects.len() == 0
    })
    &&& ((!ballot.spec_lt(pre.highest_promised) && (pre.spec_lease_expired(now)
        || pre.current_leader == src)) ==> {
        &&& post.highest_promised == ballot
        &&& post.current_leader == src
        &&& post.lease_active
        &&& post.lease_until == spec_lease_end(now)
        &&& effects.len() == 2
        &&& effects[0] is Persist
        &&& (effects[1] matches Effect::Send { dst, msg } && dst == src && (msg matches
            PaxosMsg::Promise { ballot: b, accepted } && b == ballot && reported_triples_ok(
            pre.log@,
            holes@,
            accepted@,
        )))
    })
}

/// Full contract of handling `Propose { index, ballot, value }` from `src`.
pub open spec fn propose_step(
    pre: PaxosReplica,
    post: PaxosReplica,
    src: usize,
    index: usize,
    ballot: Ballot,
    value: Vec<u8>,
    effects: Seq<Effect>,
) -> bool {
    &&& post.applied_upto == pre.applied_upto
    &&& post.promises == pre.promises
    &&& post.client_cmd_queue == pre.client_cmd_queue
    &&& post.current_leader == pre.current_leader
    &&& post.lease_active == pre.lease_active
    &&& post.lease_until == pre.lease_until
    &&& (ballot.spec_lt(pre.highest_promised) ==> {
        &&& post == pre
        &&& effects.len() == 1
        &&& (effects[0] matches Effect::Send { dst, msg } && dst == src && (msg matches
            PaxosMsg::Nack { ballot: b } && b == pre.highest_promised))
    })
    &&& ((!ballot.spec_lt(pre.highest_promised) && !propose_records(pre.log@, index, ballot)) ==> {
        &&& post == pre
        &&& effects.len() == 0
    })
    &&& ((!ballot.spec_lt(pre.highest_promised) && propose_records(pre.log@, index, ballot)) ==> {
        &&& post.highest_promised == ballot
        &&& post.log@.len() == if pre.log@.len() >= index + 1 {
            pre.log@.len() as int
        } else {
            index + 1
        }
        &&& (post.log@[index as int].value matches Some(v) && v@ == value@)
        &&& post.log@[index as int].accepted_ballot == ballot
        &&& !post.log@[index as int].chosen
        &&& post.log@[index as int].acceptances@.len() == 0
        &&& forall|i: int|
            0 <= i < pre.log@.len() && i != index ==> post.log@[i] == pre.log@[i]
        &&& effects.len() == 2
        &&& effects[0] is Persist
        &&& (effects[1] matches Effect::Send { dst, msg } && dst == src && (msg matches
            PaxosMsg::Accept { index: i, ballot: b } && i == index && b == ballot))
    })
}

/// Full contract of handling `Accept { index, ballot }` from `src`.
pub open spec fn accept_step(
    pre: PaxosReplica,
    post: PaxosReplica,
    src: usize,
    index: usize,
    ballot: Ballot,
    effects: Seq<Effect>,
) -> bool {
    &&& post.highest_promised == pre.highest_promised
    &&& post.current_leader == pre.current_leader
    &&& post.lease_active == pre.lease_active
    &&& post.lease_until == pre.lease_until
    &&& post.promises == pre.promises
    &&& post.client_cmd_queue == pre.client_cmd_queue
    &&& post.applied_upto == pre.applied_upto
    &&& post.log@.len() == pre.log@.len()
    &&& (accept_refreshes(pre, index, ballot) ==> {
        &&& post == pre
        &&& effects.len() == 1
        &&& (effects[0] matches Effect::Send { dst, msg } && dst == src && (msg matches
            PaxosMsg::Learn { index: i, ballot: b, value } && i == index && b == ballot && (
            pre.log@[index as int].value matches Some(v) && value@ == v@)))
    })
    &&& ((!accept_counts(pre, index, ballot) && !accept_refreshes(pre, index, ballot)) ==> post
        == pre && effects.len() == 0)
    &&& (accept_counts(pre, index, ballot) ==> {
        &&& post.log@[index as int].acceptances@ == (if pre.log@[index as int].acceptances@.contains(
            src,
        ) {
            pre.log@[index as int].acceptances@
        } else {
            pre.log@[index as int].acceptances@.push(src)
        })
        &&& post.log@[index as int].value == pre.log@[index as int].value
        &&& post.log@[index as int].accepted_ballot == pre.log@[index as int].accepted_ballot
        &&& (post.log@[index as int].chosen <==> post.log@[index as int].acceptances@.len()
            >= pre.quorum())
        &&& forall|i: int|
            0 <= i < pre.log@.len() && i != index ==> post.log@[i] == pre.log@[i]
        &&& post.log@[index as int].chosen ==> {
            &&& effects.len() == 1
            &&& (effects[0] matches Effect::Broadcast { msg } && (msg matches PaxosMsg::Learn {
                index: i,
                ballot: b,
                value,
            } && i == index && b == ballot && (pre.log@[index as int].value matches Some(v)
                && value@ == v@)))
        }
        &&& !post.log@[index as int].chosen ==> effects.len() == 0
    })
}

/// Full contract of handling `Learn { index, ballot, value }`.
pub open spec fn learn_step(
    pre: PaxosReplica,
    post: PaxosReplica,
    index: usize,
    ballot: Ballot,
    value: Vec<u8>,
    effects: Seq<Effect>,
) -> bool {
    &&& post.highest_promised == pre.highest_promised
    &&& post.current_leader == pre.current_leader
    &&& post.lease_active == pre.lease_active
    &&& post.lease_until == pre.lease_until
    &&& post.promises == pre.promises
    &&& post.client_cmd_queue == pre.client_cmd_queue
    &&& post.applied_upto == pre.applied_upto
    &&& (!learn_records(pre.log@, index) ==> post == pre && effects.len() == 0)
    &&& (learn_records(pre.log@, index) ==> {
        &&& post.log@.len() == if pre.log@.len() >= index + 1 {
            pre.log@.len() as int
        } else {
            index + 1
        }
        &&& (post.log@[index as int].value matches Some(v) && v@ == value@)
        &&& post.log@[index as int].chosen
        &&& post.log@[index as int].accepted_ballot == (if index < pre.log@.len()
            && ballot.spec_lt(pre.log@[index as int].accepted_ballot) {
            pre.log@[index as int].accepted_ballot
        } else {
            ballot
        })
        &&& forall|i: int|
            0 <= i < pre.log@.len() && i != index ==> post.log@[i] == pre.log@[i]
        &&& effects.len() == 1
        &&& effects[0] is Persist
    })
}

/// Full contract of handling `Promise { ballot, accepted }` from `src` at
/// `now`.
pub open spec fn promise_step(
    pre: PaxosReplica,
    post: PaxosReplica,
    src: usize,
    ballot: Ballot,
    accepted: Promise,
    now: u128,
    effects: Seq<Effect>,
) -> bool {
    &&& (ballot != pre.highest_promised ==> post == pre && effects.len() == 0)
    &&& ((ballot == pre.highest_promised && proms_contain(pre.promises@, src)) ==> post == pre
        && effects.len() == 0)
    &&& ((ballot == pre.highest_promised && !proms_contain(pre.promises@, src) && pre.promises@.len()
        >= pre.quorum()) ==> post == pre && effects.len() == 0)
    &&& ((ballot == pre.highest_promised && !proms_contain(pre.promises@, src) && pre.promises@.len()
        + 1 < pre.quorum()) ==> {
        &&& post.promises@ == pre.promises@.push((src, accepted))
        &&& post.log == pre.log
        &&& post.highest_promised == pre.highest_promised
        &&& post.current_leader == pre.current_leader
        &&& post.client_cmd_queue == pre.client_cmd_queue
        &&& effects.len() == 0
    })
    &&& ((ballot == pre.highest_promised && !proms_contain(pre.promises@, src) && pre.promises@.len()
        + 1 == pre.quorum()) ==> {
        &&& post.promises@ == pre.promises@.push((src, accepted))
        &&& post.highest_promised == pre.highest_promised
        &&& post.current_leader == pre.node_id
        &&& post.lease_active
        &&& post.lease_until == spec_lease_end(now)
        &&& post.client_cmd_queue@.len() == 0
        &&& effects.len() >= 1
        &&& effects[0] is Persist
        &&& forall|k: int|
            1 <= k < effects.len() ==> leader_broadcast_ok(post, #[trigger] effects[k])
        &&& forall|i: int|
            0 <= i < post.log@.len() - pre.client_cmd_queue@.len() ==> #[trigger] reproposal_ok(
                pre.log@,
                pre.promises@.push((src, accepted)),
                pre.highest_promised,
                post.log@,
                effects,
                i,
            )
    })
}

/// Full contract of handling a client command (relayed or local) at `now`.
pub open spec fn client_step(
    pre: PaxosReplica,
    post: PaxosReplica,
    value: Vec<u8>,
    now: u128,
    effects: Seq<Effect>,
) -> bool {
    &&& ((pre.current_leader == pre.node_id && !pre.spec_lease_expired(now)) ==> {
        &&& post.log@.len() == pre.log@.len() + 1
        &&& forall|i: int| 0 <= i < pre.log@.len() ==> post.log@[i] == pre.log@[i]
        &&& (post.log@.last().value matches Some(v) && v@ == value@)
        &&& post.log@.last().accepted_ballot == pre.highest_promised
        &&& post.log@.last().acceptances@ == seq![pre.node_id]
        &&& post.highest_promised == pre.highest_promised
        &&& post.client_cmd_queue == pre.client_cmd_queue
        &&& effects.len() >= 2
        &&& effects[0] is Persist
        &&& (effects[1] matches Effect::Broadcast { msg } && (msg matches PaxosMsg::Propose {
            index,
            ballot,
            value: v,
        } && index == pre.log@.len() && ballot == pre.highest_promised && v@ == value@))
        &&& forall|k: int|
            1 <= k < effects.len() ==> leader_broadcast_ok(post, #[trigger] effects[k])
    })
    &&& (!(pre.current_leader == pre.node_id && !pre.spec_lease_expired(now)) ==> {
        &&& post.log == pre.log
        &&& post.highest_promised == pre.highest_promised
        &&& post.current_leader == pre.current_leader
        &&& post.promises == pre.promises
        &&& post.client_cmd_queue@.len() == 0
        &&& relay_effects_ok(pre, value@, effects)
    })
}

/// A candidate value for re-proposal that some collected `Promise` payload

/// reported for `slot`: the acceptor accepted `val` under `bal`, no higher
/// than the election ballot `hp`.
pub open spec fn triple_candidate(
    proms: Seq<(usize, Promise)>,
    hp: Ballot,
    slot: usize,
    bal: Ballot,
    val: Seq<u8>,
) -> bool {
    exists|pi: int, k: int|
        {
            &&& 0 <= pi < proms.len()
            &&& 0 <= k < (#[trigger] proms[pi]).1@.len()
            &&& (#[trigger] proms[pi].1@[k]).0 == slot
            &&& proms[pi].1@[k].1 == bal
            &&& proms[pi].1@[k].2@ == val
            &&& bal.spec_le(hp)
        }
}

/// As `triple_candidate`, but only over the payload triples strictly before
/// position `(pi_lim, k_lim)` in promise order.
pub open spec fn triple_candidate_upto(
    proms: Seq<(usize, Promise)>,
    hp: Ballot,
    slot: usize,
    bal: Ballot,
    val: Seq<u8>,
    pi_lim: int,
    k_lim: int,
) -> bool {
    exists|pi: int, k: int|
        {
            &&& 0 <= pi < proms.len()
            &&& 0 <= k < (#[trigger] proms[pi]).1@.len()
            &&& (pi < pi_lim || (pi == pi_lim && k < k_lim))
            &&& (#[trigger] proms[pi].1@[k]).0 == slot
            &&& proms[pi].1@[k].1 == bal
            &&& proms[pi].1@[k].2@ == val
            &&& bal.spec_le(hp)
        }
}

/// This replica's own accepted value for `slot`, eligible for re-proposal.
pub open spec fn own_candidate(
    log: Seq<LogEntry>,
    hp: Ballot,
    slot: usize,
    bal: Ballot,
    val: Seq<u8>,
) -> bool {
    &&& (slot as int) < log.len()
    &&& log[slot as int].value matches Some(v) && v@ == val
    &&& log[slot as int].accepted_ballot == bal
    &&& bal.spec_le(hp)
}

/// Any value eligible for re-proposal at `slot` when a leader is elected
/// under `hp`: either this replica's own accepted value or one reported in
/// a collected promise.
pub open spec fn is_candidate(
    log: Seq<LogEntry>,
    proms: Seq<(usize, Promise)>,
    hp: Ballot,
    slot: usize,
    bal: Ballot,
    val: Seq<u8>,
) -> bool {
    own_candidate(log, hp, slot, bal, val) || triple_candidate(proms, hp, slot, bal, val)
}

/// Some value is eligible for re-proposal at `slot`.
pub open spec fn has_candidate(
    log: Seq<LogEntry>,
    proms: Seq<(usize, Promise)>,
    hp: Ballot,
    slot: usize,
) -> bool {
    exists|bal: Ballot, val: Seq<u8>| #[trigger] is_candidate(log, proms, hp, slot, bal, val)
}

/// The classic Paxos safety rule: the entry's value is a candidate whose
/// accepted ballot is the greatest among all candidates for this slot.
pub open spec fn entry_is_best_candidate(
    log: Seq<LogEntry>,
    proms: Seq<(usize, Promise)>,
    hp: Ballot,
    slot: usize,
    e: LogEntry,
) -> bool {
    exists|bal: Ballot, val: Seq<u8>|
        {
            &&& #[trigger] is_candidate(log, proms, hp, slot, bal, val)
            &&& (e.value matches Some(v) && v@ == val)
            &&& forall|b2: Ballot, v2: Seq<u8>|
                #[trigger] is_candidate(log, proms, hp, slot, b2, v2) ==> b2.spec_le(bal)
        }
}

/// Scans the collected promises for the candidate with the greatest
/// accepted ballot for `slot`, seeded with this replica's own eligible
/// candidate (if any).
fn scan_candidates(
    proms: &Vec<(usize, Promise)>,
    hp: Ballot,
    slot: usize,
    own: Option<(Ballot, Vec<u8>)>,
) -> (best: Option<(Ballot, Vec<u8>)>)
    requires
        own matches Some(p) ==> p.0.spec_le(hp),
    ensures
        best is None ==> own is None && (forall|b: Ballot, v: Seq<u8>|
            !triple_candidate(proms@, hp, slot, b, v)),
        best matches Some(p) ==> {
            &&& ((own matches Some(o) && o.0 == p.0 && o.1@ == p.1@) || triple_candidate(
                proms@,
                hp,
                slot,
                p.0,
                p.1@,
            ))
            &&& (own matches Some(o) ==> o.0.spec_le(p.0))
            &&& p.0.spec_le(hp)
            &&& forall|b: Ballot, v: Seq<u8>|
                #[trigger] triple_candidate(proms@, hp, slot, b, v) ==> b.spec_le(p.0)
        },
{
    let mut best: Option<(Ballot, Vec<u8>)> = own;
    let ghost own0 = own;
    let mut pi: usize = 0;
    while pi < proms.len()
        invariant
            pi <= proms@.len(),
            own0 matches Some(p) ==> p.0.spec_le(hp),
            best is None ==> own0 is None && (forall|b: Ballot, v: Seq<u8>|
                !triple_candidate_upto(proms@, hp, slot, b, v, pi as int, 0)),
            best matches Some(p) ==> {
                &&& ((own0 matches Some(o) && o.0 == p.0 && o.1@ == p.1@) || triple_candidate_upto(
                    proms@,
                    hp,
                    slot,
                    p.0,
                    p.1@,
                    pi as int,
                    0,
                ))
                &&& (own0 matches Some(o) ==> o.0.spec_le(p.0))
                &&& p.0.spec_le(hp)
                &&& forall|b: Ballot, v: Seq<u8>|
                    #[trigger] triple_candidate_upto(proms@, hp, slot, b, v, pi as int, 0)
                        ==> b.spec_le(p.0)
            },
        decreases proms@.len() - pi,
    {
        let payload_len = proms[pi].1.len();
        let mut k: usize = 0;
        while k < payload_len
            invariant
                pi < proms@.len(),
                payload_len == proms@[pi as int].1@.len(),
                k <= payload_len,
                own0 matches Some(p) ==> p.0.spec_le(hp),
                best is None ==> own0 is None && (forall|b: Ballot, v: Seq<u8>|
                    !triple_candidate_upto(proms@, hp, slot, b, v, pi as int, k as int)),
                best matches Some(p) ==> {
                    &&& ((own0 matches Some(o) && o.0 == p.0 && o.1@ == p.1@)
                        || triple_candidate_upto(
                        proms@,
                        hp,
                        slot,
                        p.0,
                        p.1@,
                        pi as int,
                        k as int,
                    ))
                    &&& (own0 matches Some(o) ==> o.0.spec_le(p.0))
                    &&& p.0.spec_le(hp)
                    &&& forall|b: Ballot, v: Seq<u8>|
                        #[trigger] triple_candidate_upto(proms@, hp, slot, b, v, pi as int, k as int)
                            ==> b.spec_le(p.0)
                },
            decreases payload_len - k,
        {
            let t_slot = proms[pi].1[k].0;
            let t_bal = proms[pi].1[k].1;
            if t_slot == slot && t_bal.le(&hp) {
                let replace = match &best {
                    None => true,
                    Some(p) => p.0.le(&t_bal),
                };
                if replace {
                    let t_val = clone_bytes(&proms[pi].1[k].2);
                    best = Some((t_bal, t_val));
                }
            }
            proof {
                let gpi = pi as int;
                let gk = k as int;
                assert forall|b: Ballot, v: Seq<u8>|
                    #[trigger] triple_candidate_upto(proms@, hp, slot, b, v, gpi, gk + 1) implies (
                triple_candidate_upto(proms@, hp, slot, b, v, gpi, gk) || (b
                    == proms@[gpi].1@[gk].1 && v == proms@[gpi].1@[gk].2@ && proms@[gpi].1@[gk].0
                    == slot && b.spec_le(hp))) by {
                    let (wpi, wk): (int, int) = choose|wpi: int, wk: int|
                        {
                            &&& 0 <= wpi < proms@.len()
                            &&& 0 <= wk < (#[trigger] proms@[wpi]).1@.len()
                            &&& (wpi < gpi || (wpi == gpi && wk < gk + 1))
                            &&& (#[trigger] proms@[wpi].1@[wk]).0 == slot
                            &&& proms@[wpi].1@[wk].1 == b
                            &&& proms@[wpi].1@[wk].2@ == v
                            &&& b.spec_le(hp)
                        };
                    if wpi < gpi || (wpi == gpi && wk < gk) {
                        assert(triple_candidate_upto(proms@, hp, slot, b, v, gpi, gk));
                    }
                }
            }
            k += 1;
        }
        proof {
            let gpi = pi as int;
            let glen = proms@[gpi].1@.len() as int;
            assert forall|b: Ballot, v: Seq<u8>|
                #[trigger] triple_candidate_upto(proms@, hp, slot, b, v, gpi + 1, 0) implies
            triple_candidate_upto(proms@, hp, slot, b, v, gpi, glen) by {
                let (wpi, wk): (int, int) = choose|wpi: int, wk: int|
                    {
                        &&& 0 <= wpi < proms@.len()
                        &&& 0 <= wk < (#[trigger] proms@[wpi]).1@.len()
                        &&& (wpi < gpi + 1 || (wpi == gpi + 1 && wk < 0))
                        &&& (#[trigger] proms@[wpi].1@[wk]).0 == slot
                        &&& proms@[wpi].1@[wk].1 == b
                        &&& proms@[wpi].1@[wk].2@ == v
                        &&& b.spec_le(hp)
                    };
                assert(wpi < gpi || (wpi == gpi && wk < glen));
            }
        }
        pi += 1;
    }
    proof {
        let glen = proms@.len() as int;
        assert forall|b: Ballot, v: Seq<u8>| #[trigger] triple_candidate(proms@, hp, slot, b, v) implies
        triple_candidate_upto(proms@, hp, slot, b, v, glen, 0) by {
            let (wpi, wk): (int, int) = choose|wpi: int, wk: int|
                {
                    &&& 0 <= wpi < proms@.len()
                    &&& 0 <= wk < (#[trigger] proms@[wpi]).1@.len()
                    &&& (#[trigger] proms@[wpi].1@[wk]).0 == slot
                    &&& proms@[wpi].1@[wk].1 == b
                    &&& proms@[wpi].1@[wk].2@ == v
                    &&& b.spec_le(hp)
                };
            assert(wpi < glen);
        }
        assert forall|b: Ballot, v: Seq<u8>|
            #[trigger] triple_candidate_upto(proms@, hp, slot, b, v, glen, 0) implies
        triple_candidate(proms@, hp, slot, b, v) by {
        }
    }
    best
}

/// A broadcast a leader may make: a `Propose` carrying exactly the value
/// and ballot its log records for the slot, or a quorum-backed `Learn` for
/// a newly chosen slot.
pub open spec fn leader_broadcast_ok(post: PaxosReplica, e: Effect) -> bool {
    e matches Effect::Broadcast { msg } && match msg {
        PaxosMsg::Propose { index, ballot, value } => {
            &&& ballot == post.highest_promised
            &&& index < post.log@.len()
            &&& (post.log@[index as int].value matches Some(v) && v@ == value@)
            &&& post.log@[index as int].accepted_ballot == ballot
        },
        PaxosMsg::Learn { index, ballot, value } => learn_msg_ok(post, msg),
        _ => false,
    }
}


/// The slot an effect speaks about lies below `bound`.
pub open spec fn effect_below(e: Effect, bound: int) -> bool {
    match e {
        Effect::Broadcast { msg } => match msg {
            PaxosMsg::Propose { index, ballot, value } => index < bound,
            PaxosMsg::Learn { index, ballot, value } => index < bound,
            _ => true,
        },
        _ => true,
    }
}

/// After an election under ballot `hp` with collected promises `proms` over
/// the pre-election log `log0`: if slot `i` needed re-proposal (not chosen,
/// not accepted above `hp`) and any candidate value existed for it, then the
/// post-election log holds a candidate with the greatest accepted ballot,
/// re-proposed under `hp`.
/// Some effect broadcasts a `Propose` for slot `i`.
pub open spec fn proposed_in(effects: Seq<Effect>, i: int) -> bool {
    exists|k: int|
        0 <= k < effects.len() && ((#[trigger] effects[k]) matches Effect::Broadcast { msg }
            && msg matches PaxosMsg::Propose { index, ballot, value } && index == i)
}

pub open spec fn reproposal_ok(
    log0: Seq<LogEntry>,
    proms: Seq<(usize, Promise)>,
    hp: Ballot,
    post_log: Seq<LogEntry>,
    effects: Seq<Effect>,
    i: int,
) -> bool {
    ({
        &&& 0 <= i < post_log.len()
        &&& (i < log0.len() ==> (!log0[i].chosen && log0[i].accepted_ballot.spec_le(hp)))
        &&& has_candidate(log0, proms, hp, i as usize)
    }) ==> ({
        &&& entry_is_best_candidate(log0, proms, hp, i as usize, post_log[i])
        &&& post_log[i].accepted_ballot == hp
        &&& proposed_in(effects, i)
    })
}

impl PaxosReplica {
    /// Appends a fresh entry for `value` at the next slot, counting this
    /// replica's own acceptance, and broadcasts the proposal (choosing the
    /// slot outright when a quorum is a single node).
    fn propose_slot_value(&mut self, value: Vec<u8>, effects: &mut Vec<Effect>)
        requires
            old(self).wf(),
        ensures
            final(self).wf(),
            PaxosReplica::safe_step(*old(self), *final(self)),
            final(self).node_id == old(self).node_id,
            final(self).group_size == old(self).group_size,
            final(self).highest_promised == old(self).highest_promised,
            final(self).current_leader == old(self).current_leader,
            final(self).lease_active == old(self).lease_active,
            final(self).lease_until == old(self).lease_until,
            final(self).promises == old(self).promises,
            final(self).client_cmd_queue == old(self).client_cmd_queue,
            final(self).applied_upto == old(self).applied_upto,
            final(self).log@.len() == old(self).log@.len() + 1,
            forall|i: int|
                0 <= i < old(self).log@.len() ==> final(self).log@[i] == old(self).log@[i],
            (final(self).log@.last().value matches Some(v) && v@ == value@),
            final(self).log@.last().accepted_ballot == old(self).highest_promised,
            final(self).log@.last().acceptances@ == seq![old(self).node_id],
            (final(self).log@.last().chosen <==> 1 >= old(self).quorum()),
            forall|k: int| 0 <= k < old(effects)@.len() ==> final(effects)@[k] == old(effects)@[k],
            final(effects)@.len() == old(effects)@.len() + (if 1 >= old(self).quorum() {
                2int
            } else {
                1int
            }),
            forall|k: int|
                old(effects)@.len() <= k < final(effects)@.len() ==> {
                    let e = #[trigger] final(effects)@[k];
                    &&& leader_broadcast_ok(*final(self), e)
                    &&& effect_below(e, final(self).log@.len() as int)
                },
            (final(effects)@[old(effects)@.len() as int] matches Effect::Broadcast { msg } && (msg
                matches PaxosMsg::Propose { index, ballot, value: v } && index == old(
                self,
            ).log@.len() && ballot == old(self).highest_promised && v@ == value@)),
    {
        let slot = self.log.len();
        let quorum = self.group_size / 2 + 1;
        let value_b = clone_bytes(&value);
        let mut acceptances: Vec<usize> = Vec::new();
        acceptances.push(self.node_id);
        let chosen = 1 >= quorum;
        let value_c = if chosen {
            Some(clone_bytes(&value))
        } else {
            None
        };
        let entry = LogEntry {
            value: Some(value),
            acceptances,
            accepted_ballot: self.highest_promised,
            chosen,
        };
        self.log.push(entry);
        effects.push(
            Effect::Broadcast {
                msg: PaxosMsg::Propose {
                    index: slot,
                    ballot: self.highest_promised,
                    value: value_b,
                },
            },
        );
        if let Some(vc) = value_c {
            effects.push(
                Effect::Broadcast {
                    msg: PaxosMsg::Learn { index: slot, ballot: self.highest_promised, value: vc },
                },
            );
        }
    }

    /// A quorum of promises has arrived for the current ballot: this
    /// replica becomes leader.  For every slot not yet chosen it re-proposes
    /// the candidate value with the greatest accepted ballot (its own or one
    /// reported in a promise); slots it already knows chosen are re-proposed
    /// with their frozen value, so lagging acceptors record them and can be
    /// handed the outcome.  Finally it assigns fresh slots to every queued
    /// client command.
    #[verifier::loop_isolation(false)]
    fn on_elected(&mut self, now: u128) -> (effects: Vec<Effect>)
        requires
            old(self).wf(),
        ensures
            final(self).wf(),
            PaxosReplica::safe_step(*old(self), *final(self)),
            learns_ok(*old(self), *final(self), effects@),
            final(self).node_id == old(self).node_id,
            final(self).group_size == old(self).group_size,
            final(self).highest_promised == old(self).highest_promised,
            final(self).current_leader == old(self).node_id,
            final(self).lease_active,
            final(self).lease_until == spec_lease_end(now),
            final(self).promises@ == old(self).promises@,
            final(self).client_cmd_queue@.len() == 0,
            final(self).applied_upto == old(self).applied_upto,
            final(self).log@.len() >= old(self).log@.len() + old(self).client_cmd_queue@.len(),
            effects@.len() >= 1,
            effects@[0] is Persist,
            forall|k: int|
                1 <= k < effects@.len() ==> leader_broadcast_ok(
                    *final(self),
                    #[trigger] effects@[k],
                ),
            forall|i: int|
                0 <= i < final(self).log@.len() - old(self).client_cmd_queue@.len()
                    ==> #[trigger] reproposal_ok(
                    old(self).log@,
                    old(self).promises@,
                    old(self).highest_promised,
                    final(self).log@,
                    effects@,
                    i,
                ),
            forall|k: int|
                0 <= k < old(self).client_cmd_queue@.len() ==> {
                    &&& (final(self).log@[final(self).log@.len() - old(self).client_cmd_queue@.len()
                        + k].value matches Some(v) && v@ == (#[trigger] old(
                        self,
                    ).client_cmd_queue@[k])@)
                    &&& final(self).log@[final(self).log@.len() - old(self).client_cmd_queue@.len()
                        + k].accepted_ballot == old(self).highest_promised
                },
    {
        self.current_leader = self.node_id;
        self.lease_active = true;
        self.lease_until = lease_end(now);
        let ghost log0 = self.log@;
        let ghost proms0 = self.promises@;
        let ghost hp = self.highest_promised;
        let ghost q0 = self.client_cmd_queue@;

        // Extend the log to cover every slot a promise payload mentions.
        let mut max_needed = self.log.len();
        let mut pi: usize = 0;
        while pi < self.promises.len()
            invariant
                pi <= proms0.len(),
                max_needed >= log0.len(),
                forall|p: int, k: int|
                    0 <= p < pi && 0 <= k < (#[trigger] proms0[p]).1@.len() ==> {
                        let t0 = (#[trigger] proms0[p].1@[k]).0;
                        t0 == usize::MAX || t0 + 1 <= max_needed
                    },
            decreases proms0.len() - pi,
        {
            let plen = self.promises[pi].1.len();
            let mut k: usize = 0;
            while k < plen
                invariant
                    pi < proms0.len(),
                    plen == proms0[pi as int].1@.len(),
                    k <= plen,
                    max_needed >= log0.len(),
                    forall|p: int, kk: int|
                        0 <= p < proms0.len() && 0 <= kk < (#[trigger] proms0[p]).1@.len() && (p
                            < pi || (p == pi && kk < k)) ==> {
                            let t0 = (#[trigger] proms0[p].1@[kk]).0;
                            t0 == usize::MAX || t0 + 1 <= max_needed
                        },
                decreases plen - k,
            {
                let t0 = self.promises[pi].1[k].0;
                if t0 < usize::MAX && t0 + 1 > max_needed {
                    max_needed = t0 + 1;
                }
                k += 1;
            }
            pi += 1;
        }

        grow_log_to(&mut self.log, max_needed);
        let ghost grown = self.log@;
        proof {
            assert(forall|i: int| 0 <= i < log0.len() ==> grown[i] == log0[i]);
        }

        let total = self.log.len();
        let mut effects: Vec<Effect> = Vec::new();
        effects.push(Effect::Persist);

        let mut slot: usize = 0;
        while slot < total
            invariant
                slot <= total,
                self.log@.len() == total,
                self.node_id == old(self).node_id,
                self.group_size == old(self).group_size,
                self.highest_promised == hp,
                self.current_leader == old(self).node_id,
                self.lease_active,
                self.lease_until == spec_lease_end(now),
                self.promises@ == proms0,
                self.client_cmd_queue@ == q0,
                self.applied_upto == old(self).applied_upto,
                self.wf(),
                forall|i: int| slot <= i < total ==> self.log@[i] == grown[i],
                forall|i: int|
                    0 <= i < total ==> grown[i].accepted_ballot.spec_le(
                        (#[trigger] self.log@[i]).accepted_ballot,
                    ),
                forall|i: int|
                    0 <= i < total && (#[trigger] grown[i]).chosen ==> self.log@[i].chosen
                        && self.log@[i].value == grown[i].value,
                forall|i: int|
                    0 <= i < slot ==> #[trigger] reproposal_ok(
                        log0,
                        proms0,
                        hp,
                        self.log@,
                        effects@,
                        i,
                    ),
                effects@.len() >= 1,
                effects@[0] is Persist,
                forall|k: int|
                    1 <= k < effects@.len() ==> {
                        let e = #[trigger] effects@[k];
                        &&& leader_broadcast_ok(*self, e)
                        &&& effect_below(e, slot as int)
                    },
            decreases total - slot,
        {
            let ghost self_prev = *self;
            let ghost effects_prev = effects@;
            let entry_chosen = self.log[slot].chosen;
            let entry_ballot_ok = self.log[slot].accepted_ballot.le(&self.highest_promised);
            if entry_chosen && entry_ballot_ok {
                // Re-propose a slot this replica already knows is chosen, so
                // acceptors that missed the original round record it again;
                // their Accept is then answered with a direct Learn.
                let hp_now = self.highest_promised;
                let value_c = match &self.log[slot].value {
                    Some(v) => clone_bytes(v),
                    None => Vec::new(),
                };
                let entry = &mut self.log[slot];
                entry.accepted_ballot = hp_now;
                effects.push(
                    Effect::Broadcast {
                        msg: PaxosMsg::Propose { index: slot, ballot: hp_now, value: value_c },
                    },
                );
            }
            if !entry_chosen && entry_ballot_ok {
                let own: Option<(Ballot, Vec<u8>)> = if self.log[slot].value.is_some() {
                    let ob = self.log[slot].accepted_ballot;
                    let ov = match &self.log[slot].value {
                        Some(v) => clone_bytes(v),
                        None => Vec::new(),
                    };
                    Some((ob, ov))
                } else {
                    None
                };
                let best = scan_candidates(&self.promises, self.highest_promised, slot, own);
                match best {
                    Some(p) => {
                        let (bb, bv) = p;
                        let ghost bval = bv@;
                        let value_b = clone_bytes(&bv);
                        let value_c = clone_bytes(&bv);
                        let mut acceptances: Vec<usize> = Vec::new();
                        acceptances.push(self.node_id);
                        let quorum = self.group_size / 2 + 1;
                        let chosen_now = 1 >= quorum;
                        let entry = &mut self.log[slot];
                        entry.value = Some(bv);
                        entry.accepted_ballot = self.highest_promised;
                        entry.acceptances = acceptances;
                        entry.chosen = chosen_now;
                        effects.push(
                            Effect::Broadcast {
                                msg: PaxosMsg::Propose {
                                    index: slot,
                                    ballot: self.highest_promised,
                                    value: value_b,
                                },
                            },
                        );
                        if chosen_now {
                            effects.push(
                                Effect::Broadcast {
                                    msg: PaxosMsg::Learn {
                                        index: slot,
                                        ballot: self.highest_promised,
                                        value: value_c,
                                    },
                                },
                            );
                        }
                        proof {
                            assert(is_candidate(log0, proms0, hp, slot, bb, bval));
                            assert forall|b2: Ballot, v2: Seq<u8>|
                                #[trigger] is_candidate(log0, proms0, hp, slot, b2, v2) implies b2.spec_le(
                                bb,
                            ) by {
                                if own_candidate(log0, hp, slot, b2, v2) {
                                    assert((slot as int) < log0.len());
                                    assert(b2 == log0[slot as int].accepted_ballot);
                                }
                            }
                            assert(entry_is_best_candidate(
                                log0,
                                proms0,
                                hp,
                                slot,
                                self.log@[slot as int],
                            ));
                            assert((#[trigger] effects@[effects_prev.len() as int]) matches
                                Effect::Broadcast { msg } && msg matches PaxosMsg::Propose {
                                    index,
                                    ballot,
                                    value,
                                } && index == slot);
                            assert(proposed_in(effects@, slot as int));
                        }
                    },
                    None => {
                        proof {
                            assert forall|b2: Ballot, v2: Seq<u8>|
                                !#[trigger] is_candidate(log0, proms0, hp, slot, b2, v2) by {
                                if own_candidate(log0, hp, slot, b2, v2) {
                                    assert((slot as int) < log0.len());
                                    assert(log0[slot as int].value is Some);
                                }
                            }
                        }
                    },
                }
            }
            proof {
                assert forall|i: int| 0 <= i < slot + 1 implies #[trigger] reproposal_ok(
                    log0,
                    proms0,
                    hp,
                    self.log@,
                    effects@,
                    i,
                ) by {
                    if i < slot {
                        assert(reproposal_ok(log0, proms0, hp, self_prev.log@, effects_prev, i));
                        assert(self.log@[i] == self_prev.log@[i]);
                        if proposed_in(effects_prev, i) {
                            let k = choose|k: int|
                                0 <= k < effects_prev.len() && ((#[trigger] effects_prev[k]) matches
                                Effect::Broadcast { msg } && msg matches PaxosMsg::Propose {
                                    index,
                                    ballot,
                                    value,
                                } && index == i);
                            assert(effects@[k] == effects_prev[k]);
                        }
                    }
                }
                assert forall|k: int| 1 <= k < effects@.len() implies {
                    let e = #[trigger] effects@[k];
                    &&& leader_broadcast_ok(*self, e)
                    &&& effect_below(e, slot + 1)
                } by {
                    if k < effects_prev.len() {
                        assert(effects@[k] == effects_prev[k]);
                        assert(leader_broadcast_ok(self_prev, effects_prev[k]));
                        assert(effect_below(effects_prev[k], slot as int));
                        assert(forall|i: int|
                            0 <= i < slot ==> self.log@[i] == self_prev.log@[i]);
                    }
                }
            }
            slot += 1;
        }

        // Assign fresh slots to the commands queued while no leader was
        // reachable.
        let qlen = self.client_cmd_queue.len();
        let ghost log_mid = self.log@;
        let mut qi: usize = 0;
        while qi < qlen
            invariant
                qi <= qlen,
                qlen == q0.len(),
                self.client_cmd_queue@ == q0,
                self.log@.len() == total + qi,
                self.node_id == old(self).node_id,
                self.group_size == old(self).group_size,
                self.highest_promised == hp,
                self.current_leader == old(self).node_id,
                self.lease_active,
                self.lease_until == spec_lease_end(now),
                self.promises@ == proms0,
                self.applied_upto == old(self).applied_upto,
                self.wf(),
                forall|i: int| 0 <= i < total ==> self.log@[i] == log_mid[i],
                forall|i: int|
                    0 <= i < total ==> grown[i].accepted_ballot.spec_le(
                        (#[trigger] self.log@[i]).accepted_ballot,
                    ),
                forall|i: int|
                    0 <= i < total && (#[trigger] grown[i]).chosen ==> self.log@[i].chosen
                        && self.log@[i].value == grown[i].value,
                forall|i: int|
                    0 <= i < total ==> #[trigger] reproposal_ok(
                        log0,
                        proms0,
                        hp,
                        self.log@,
                        effects@,
                        i,
                    ),
                forall|k: int|
                    0 <= k < qi ==> {
                        &&& ((#[trigger] self.log@[total + k]).value matches Some(v) && v@
                            == q0[k]@)
                        &&& self.log@[total + k].accepted_ballot == hp
                    },
                effects@.len() >= 1,
                effects@[0] is Persist,
                forall|k: int|
                    1 <= k < effects@.len() ==> {
                        let e = #[trigger] effects@[k];
                        &&& leader_broadcast_ok(*self, e)
                        &&& effect_below(e, self.log@.len() as int)
                    },
            decreases qlen - qi,
        {
            let ghost self_prev = *self;
            let ghost effects_prev = effects@;
            let v = clone_bytes(&self.client_cmd_queue[qi]);
            self.propose_slot_value(v, &mut effects);
            proof {
                assert forall|i: int| 0 <= i < total implies #[trigger] reproposal_ok(
                    log0,
                    proms0,
                    hp,
                    self.log@,
                    effects@,
                    i,
                ) by {
                    assert(reproposal_ok(log0, proms0, hp, self_prev.log@, effects_prev, i));
                    assert(self.log@[i] == self_prev.log@[i]);
                    if proposed_in(effects_prev, i) {
                        let k = choose|k: int|
                            0 <= k < effects_prev.len() && ((#[trigger] effects_prev[k]) matches
                            Effect::Broadcast { msg } && msg matches PaxosMsg::Propose {
                                index,
                                ballot,
                                value,
                            } && index == i);
                        assert(effects@[k] == effects_prev[k]);
                    }
                }
                assert forall|k: int| 1 <= k < effects@.len() implies {
                    let e = #[trigger] effects@[k];
                    &&& leader_broadcast_ok(*self, e)
                    &&& effect_below(e, self.log@.len() as int)
                } by {
                    if k < effects_prev.len() {
                        assert(effects@[k] == effects_prev[k]);
                        assert(leader_broadcast_ok(self_prev, effects_prev[k]));
                        assert(effect_below(effects_prev[k], self_prev.log@.len() as int));
                        assert(forall|i: int|
                            0 <= i < self_prev.log@.len() ==> self.log@[i] == self_prev.log@[i]);
                    }
                }
            }
            qi += 1;
        }
        self.client_cmd_queue = Vec::new();
        effects
    }
}

/// Whether one of the collected promises came from `src`.
pub open spec fn proms_contain(proms: Seq<(usize, Promise)>, src: usize) -> bool {
    exists|i: int| 0 <= i < proms.len() && (#[trigger] proms[i]).0 == src
}

/// An election is due at `now`: the lease has run out, or this replica
/// leads and its own lease is at least half elapsed (lease extension).
pub open spec fn election_due(pre: PaxosReplica, now: u128) -> bool {
    ||| pre.spec_lease_expired(now)
    ||| (pre.current_leader == pre.node_id && now + LEASE_DURATION / 2 >= pre.lease_until)
}

/// What a relay of a client command looks like: the command itself and
/// every queued command are sent to the believed leader, oldest first.
pub open spec fn relay_effects_ok(pre: PaxosReplica, value: Seq<u8>, effects: Seq<Effect>) -> bool {
    &&& effects.len() == 1 + pre.client_cmd_queue@.len()
    &&& (effects[0] matches Effect::Send { dst, msg } && dst == pre.current_leader && (msg matches
        PaxosMsg::ClientRequest(v) && v@ == value))
    &&& forall|k: int|
        1 <= k < effects.len() ==> ((#[trigger] effects[k]) matches Effect::Send { dst, msg } && dst
            == pre.current_leader && (msg matches PaxosMsg::ClientRequest(v) && v@
            == pre.client_cmd_queue@[k - 1]@))
}

fn proms_contains_src(proms: &Vec<(usize, Promise)>, src: usize) -> (r: bool)
    ensures
        r == proms_contain(proms@, src),
{
    let mut j: usize = 0;
    while j < proms.len()
        invariant
            j <= proms@.len(),
            forall|k: int| 0 <= k < j ==> (#[trigger] proms@[k]).0 != src,
        decreases proms@.len() - j,
    {
        if proms[j].0 == src {
            return true;
        }
        j += 1;
    }
    false
}

impl PaxosReplica {
    /// Phase 1b, proposer side.  A promise for a stale ballot, from a
    /// sender already counted, or arriving after the election is won, is
    /// ignored.  Otherwise it is collected; the promise that completes a
    /// quorum wins the election and triggers re-proposal and queue
    /// draining.
    pub fn handle_promise(&mut self, src: usize, ballot: Ballot, accepted: Promise, now: u128) -> (effects: Vec<Effect>)
        requires
            old(self).wf(),
        ensures
            final(self).wf(),
            PaxosReplica::safe_step(*old(self), *final(self)),
            learns_ok(*old(self), *final(self), effects@),
            promise_step(*old(self), *final(self), src, ballot, accepted, now, effects@),
    {
        let effects: Vec<Effect> = Vec::new();
        if !(ballot == self.highest_promised) {
            return effects;
        }
        if proms_contains_src(&self.promises, src) {
            return effects;
        }
        let quorum = self.group_size / 2 + 1;
        if self.promises.len() >= quorum {
            return effects;
        }
        self.promises.push((src, accepted));
        if self.promises.len() == quorum {
            return self.on_elected(now);
        }
        effects
    }

    /// A client command arrives (relayed or local).  A leader holding a
    /// live lease assigns it the next slot and proposes it; anyone else
    /// relays it, together with every queued command, to the believed
    /// leader.  The shell re-queues a command whose relay send fails.
    pub fn handle_client_request(&mut self, value: Vec<u8>, now: u128) -> (effects: Vec<Effect>)
        requires
            old(self).wf(),
        ensures
            final(self).wf(),
            PaxosReplica::safe_step(*old(self), *final(self)),
            learns_ok(*old(self), *final(self), effects@),
            client_step(*old(self), *final(self), value, now, effects@),
    {
        let mut effects: Vec<Effect> = Vec::new();
        if self.current_leader == self.node_id && !self.lease_expired(now) {
            effects.push(Effect::Persist);
            self.propose_slot_value(value, &mut effects);
            effects
        } else {
            let ghost q0 = self.client_cmd_queue@;
            let leader = self.current_leader;
            effects.push(Effect::Send { dst: leader, msg: PaxosMsg::ClientRequest(value) });
            let qlen = self.client_cmd_queue.len();
            let mut qi: usize = 0;
            while qi < qlen
                invariant
                    qi <= qlen,
                    qlen == q0.len(),
                    self.client_cmd_queue@ == q0,
                    effects@.len() == 1 + qi,
                    (effects@[0] matches Effect::Send { dst, msg } && dst == leader && (msg matches
                        PaxosMsg::ClientRequest(v) && v@ == value@)),
                    forall|k: int|
                        1 <= k < effects@.len() ==> ((#[trigger] effects@[k]) matches Effect::Send {
                            dst,
                            msg,
                        } && dst == leader && (msg matches PaxosMsg::ClientRequest(v) && v@ == q0[k
                            - 1]@)),
                decreases qlen - qi,
            {
                let v = clone_bytes(&self.client_cmd_queue[qi]);
                effects.push(Effect::Send { dst: leader, msg: PaxosMsg::ClientRequest(v) });
                qi += 1;
            }
            self.client_cmd_queue = Vec::new();
            effects
        }
    }

    /// Local client submission: behaves exactly like receiving a
    /// `ClientRequest` for this command.
    pub fn submit(&mut self, value: Vec<u8>, now: u128) -> (effects: Vec<Effect>)
        requires
            old(self).wf(),
        ensures
            final(self).wf(),
            PaxosReplica::safe_step(*old(self), *final(self)),
            learns_ok(*old(self), *final(self), effects@),
            client_step(*old(self), *final(self), value, now, effects@),
    {
        self.handle_client_request(value, now)
    }

    /// One cooperative step of the replica's clock: when an election is due
    /// (expired lease, or own lease half elapsed for a leader extension),
    /// move to a strictly higher ballot of this replica's own, seed the
    /// promise set with the replica's own accepted values, and broadcast a
    /// `Prepare` listing the non-chosen slots.  Otherwise nothing happens.
    pub fn tick(&mut self, now: u128) -> (effects: Vec<Effect>)
        requires
            old(self).wf(),
            old(self).highest_promised.0 < usize::MAX,
        ensures
            final(self).wf(),
            PaxosReplica::safe_step(*old(self), *final(self)),
            learns_ok(*old(self), *final(self), effects@),
            !election_due(*old(self), now) ==> *final(self) == *old(self) && effects@.len() == 0,
            election_due(*old(self), now) ==> {
                &&& final(self).highest_promised == old(self).highest_promised.spec_incremented_for(
                    old(self).node_id,
                )
                &&& old(self).highest_promised.spec_lt(final(self).highest_promised)
                &&& final(self).lease_active
                &&& final(self).lease_until == spec_lease_end(now)
                &&& effects@.len() >= 2
                &&& effects@[0] is Persist
                &&& (effects@[1] matches Effect::Broadcast { msg } && (msg matches
                    PaxosMsg::Prepare { ballot: b, holes } && b == final(self).highest_promised
                    && holes_listed(old(self).log@, holes@)))
                &&& forall|k: int|
                    2 <= k < effects@.len() ==> ((#[trigger] effects@[k]) is Persist
                        || leader_broadcast_ok(*final(self), effects@[k]))
                &&& old(self).quorum() > 1 ==> {
                    &&& final(self).promises@.len() == 1
                    &&& final(self).promises@[0].0 == old(self).node_id
                    &&& reported_triples_ok(
                        old(self).log@,
                        seq![0usize],
                        final(self).promises@[0].1@,
                    )
                }
            },
    {
        let mut effects: Vec<Effect> = Vec::new();
        let half_due = self.current_leader == self.node_id && (self.lease_until <= LEASE_DURATION
            / 2 || now >= self.lease_until - LEASE_DURATION / 2);
        if !(self.lease_expired(now) || half_due) {
            return effects;
        }
        self.highest_promised.increment_for(self.node_id);
        let mut everything: Vec<usize> = Vec::new();
        everything.push(0);
        let own = collect_accepted(&self.log, &everything);
        proof {
            assert(everything@ =~= seq![0usize]);
        }
        self.promises = Vec::new();
        self.promises.push((self.node_id, own));
        let holes = compute_holes(&self.log);
        self.lease_active = true;
        self.lease_until = lease_end(now);
        effects.push(Effect::Persist);
        effects.push(
            Effect::Broadcast { msg: PaxosMsg::Prepare { ballot: self.highest_promised, holes } },
        );
        let quorum = self.group_size / 2 + 1;
        if quorum == 1 {
            let mut more = self.on_elected(now);
            effects.append(&mut more);
        }
        effects
    }

    /// Dispatches one received message to its handler: each variant's full
    /// per-step contract holds of the dispatch itself.
    pub fn handle_message(&mut self, src: usize, msg: PaxosMsg, now: u128) -> (effects: Vec<Effect>)
        requires
            old(self).wf(),
        ensures
            final(self).wf(),
            PaxosReplica::safe_step(*old(self), *final(self)),
            learns_ok(*old(self), *final(self), effects@),
            (msg matches PaxosMsg::Prepare { ballot, holes } ==> prepare_step(
                *old(self),
                *final(self),
                src,
                ballot,
                holes,
                now,
                effects@,
            )),
            (msg matches PaxosMsg::Promise { ballot, accepted } ==> promise_step(
                *old(self),
                *final(self),
                src,
                ballot,
                accepted,
                now,
                effects@,
            )),
            (msg matches PaxosMsg::Propose { index, ballot, value } ==> propose_step(
                *old(self),
                *final(self),
                src,
                index,
                ballot,
                value,
                effects@,
            )),
            (msg matches PaxosMsg::Accept { index, ballot } ==> accept_step(
                *old(self),
                *final(self),
                src,
                index,
                ballot,
                effects@,
            )),
            (msg matches PaxosMsg::Learn { index, ballot, value } ==> learn_step(
                *old(self),
                *final(self),
                index,
                ballot,
                value,
                effects@,
            )),
            (msg matches PaxosMsg::Nack { ballot } ==> nack_step(
                *old(self),
                *final(self),
                ballot,
                effects@,
            )),
            (msg matches PaxosMsg::ClientRequest(value) ==> client_step(
                *old(self),
                *final(self),
                value,
                now,
                effects@,
            )),
    {
        match msg {
            PaxosMsg::Prepare { ballot, holes } => self.handle_prepare(src, ballot, holes, now),
            PaxosMsg::Promise { ballot, accepted } => self.handle_promise(
                src,
                ballot,
                accepted,
                now,
            ),
            PaxosMsg::Propose { index, ballot, value } => self.handle_propose(
                src,
                index,
                ballot,
                value,
                now,
            ),
            PaxosMsg::Accept { index, ballot } => self.handle_accept(src, index, ballot),
            PaxosMsg::Learn { index, ballot, value } => self.handle_learn(index, ballot, value),
            PaxosMsg::Nack { ballot } => self.handle_nack(ballot),
            PaxosMsg::ClientRequest(value) => self.handle_client_request(value, now),
        }
    }
}

/// Removing a subset removes exactly its cardinality.
proof fn lemma_len_difference_exact<A>(u: Set<A>, s: Set<A>)
    requires
        u.finite(),
        s.finite(),
        s.subset_of(u),
    ensures
        u.difference(s).len() == u.len() - s.len(),
    decreases s.len(),
{
    if s.is_empty() {
        assert(u.difference(s) =~= u);
    } else {
        let a = s.choose();
        assert(s.contains(a));
        lemma_len_difference_exact(u.remove(a), s.remove(a));
        assert(u.difference(s) =~= u.remove(a).difference(s.remove(a)));
    }
}

/// Why agreement holds: any two quorums of one group of `n` replicas share
/// at least one member.  A slot is chosen only when a quorum of distinct
/// acceptors accepted one proposal under one ballot, so two different
/// values can never both be chosen for the same slot.
pub proof fn lemma_quorum_intersection(n: int, s1: Set<int>, s2: Set<int>)
    requires
        n >= 1,
        s1.subset_of(vstd::set_lib::set_int_range(0, n)),
        s2.subset_of(vstd::set_lib::set_int_range(0, n)),
        s1.len() >= n / 2 + 1,
        s2.len() >= n / 2 + 1,
    ensures
        exists|x: int| s1.contains(x) && s2.contains(x),
{
    vstd::set_lib::lemma_int_range(0, n);
    let u = vstd::set_lib::set_int_range(0, n);
    vstd::set_lib::lemma_len_subset(s1, u);
    vstd::set_lib::lemma_len_subset(s2, u);
    if !(exists|x: int| s1.contains(x) && s2.contains(x)) {
        let d = u.difference(s2);
        assert(s1.subset_of(d));
        lemma_len_difference_exact(u, s2);
        vstd::set_lib::lemma_len_subset(d, u);
        vstd::set_lib::lemma_len_subset(s1, d);
        assert(false);
    }
}

/// Exec mirror of `spec_lease_end`.
fn lease_end(now: u128) -> (r: u128)
    ensures
        r == spec_lease_end(now),
{
    if now > u128::MAX - LEASE_DURATION {
        u128::MAX
    } else {
        now + LEASE_DURATION
    }
}

} // verus!
