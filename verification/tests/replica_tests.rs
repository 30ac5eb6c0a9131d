use paxos::protocol::{Ballot, PaxosMsg};
use paxos::replica::{Effect, PaxosReplica};

/// A deterministic in-memory cluster: inboxes per replica, optional crash
/// and partition faults, and optional uniform datagram loss.
struct Net {
    inboxes: Vec<Vec<(usize, PaxosMsg)>>,
    alive: Vec<bool>,
    blocked: Vec<Vec<bool>>,
    drop_permille: u64,
    rng: u64,
}

impl Net {
    fn new(n: usize) -> Net {
        Net {
            inboxes: vec![Vec::new(); n],
            alive: vec![true; n],
            blocked: vec![vec![false; n]; n],
            drop_permille: 0,
            rng: 0x9E3779B97F4A7C15,
        }
    }

    fn rand(&mut self) -> u64 {
        self.rng = self.rng.wrapping_mul(6364136223846793005).wrapping_add(1442695040888963407);
        self.rng >> 33
    }

    fn dropped(&mut self) -> bool {
        self.drop_permille > 0 && self.rand() % 1000 < self.drop_permille
    }

    fn deliverable(&self, src: usize, dst: usize) -> bool {
        self.alive[src] && self.alive[dst] && !self.blocked[src][dst]
    }

    fn partition(&mut self, side_a: &[usize], side_b: &[usize]) {
        for &i in side_a {
            for &j in side_b {
                self.blocked[i][j] = true;
                self.blocked[j][i] = true;
            }
        }
    }

    fn heal(&mut self) {
        let n = self.inboxes.len();
        self.blocked = vec![vec![false; n]; n];
    }
}

fn route(net: &mut Net, replicas: &mut [PaxosReplica], src: usize, effects: Vec<Effect>) {
    for e in effects {
        match e {
            Effect::Persist => {}
            Effect::Send { dst, msg } => {
                if dst >= net.inboxes.len() || !net.deliverable(src, dst) {
                    // the shell sees the send fail and re-queues client relays
                    if let PaxosMsg::ClientRequest(v) = msg {
                        replicas[src].requeue(v);
                    }
                } else if !net.dropped() {
                    net.inboxes[dst].push((src, msg));
                }
            }
            Effect::Broadcast { msg } => {
                for dst in 0..net.inboxes.len() {
                    if dst != src && net.deliverable(src, dst) && !net.dropped() {
                        net.inboxes[dst].push((src, msg.clone()));
                    }
                }
            }
        }
    }
}

/// Applies every newly chosen command, checking in-order application:
/// slot k is handed out exactly once, after slots 0..k.
fn drain_applies(r: &mut PaxosReplica, applied: &mut Vec<Vec<u8>>) {
    while let Some((slot, value)) = r.next_applicable() {
        assert_eq!(slot, applied.len());
        applied.push(value);
    }
}

/// One simulation round: each replica handles its inbox, then ticks.
/// Ballot monotonicity is checked across every event.
fn step(net: &mut Net, replicas: &mut [PaxosReplica], applied: &mut [Vec<Vec<u8>>], now: u128) {
    for i in 0..replicas.len() {
        if !net.alive[i] {
            net.inboxes[i].clear();
            continue;
        }
        let msgs = std::mem::take(&mut net.inboxes[i]);
        for (src, msg) in msgs {
            let hp_before = replicas[i].highest_promised;
            let effects = replicas[i].handle_message(src, msg, now);
            assert!(hp_before <= replicas[i].highest_promised);
            drain_applies(&mut replicas[i], &mut applied[i]);
            route(net, replicas, i, effects);
        }
        let hp_before = replicas[i].highest_promised;
        let effects = replicas[i].tick(now);
        assert!(hp_before <= replicas[i].highest_promised);
        drain_applies(&mut replicas[i], &mut applied[i]);
        route(net, replicas, i, effects);
    }
}

fn run(
    net: &mut Net,
    replicas: &mut [PaxosReplica],
    applied: &mut [Vec<Vec<u8>>],
    now: &mut u128,
    rounds: usize,
) {
    for _ in 0..rounds {
        step(net, replicas, applied, *now);
        *now += 100;
    }
}

fn cluster(n: usize) -> (Net, Vec<PaxosReplica>, Vec<Vec<Vec<u8>>>) {
    let replicas: Vec<PaxosReplica> = (0..n).map(|i| PaxosReplica::new(i, n)).collect();
    (Net::new(n), replicas, vec![Vec::new(); n])
}

fn leader_of(replicas: &[PaxosReplica], net: &Net) -> Option<usize> {
    replicas
        .iter()
        .position(|r| net.alive[r.node_id] && r.current_leader == r.node_id && r.lease_active)
}

fn submit(
    net: &mut Net,
    replicas: &mut [PaxosReplica],
    applied: &mut [Vec<Vec<u8>>],
    now: u128,
    to: usize,
    value: &[u8],
) {
    let effects = replicas[to].submit(value.to_vec(), now);
    drain_applies(&mut replicas[to], &mut applied[to]);
    route(net, replicas, to, effects);
}

#[test]
fn replica_initial_state() {
    let r = PaxosReplica::new(3, 5);
    assert_eq!(r.node_id, 3);
    assert_eq!(r.group_size, 5);
    assert!(r.log.is_empty());
    assert_eq!(r.highest_promised, Ballot(0, 0));
    assert!(!r.lease_active);
    assert_eq!(r.applied_upto, 0);
}

#[test]
fn single_node_group_chooses_immediately() {
    let mut r = PaxosReplica::new(0, 1);
    r.tick(0);
    assert_eq!(r.current_leader, 0);
    assert!(r.lease_active);
    r.submit(b"solo".to_vec(), 10);
    assert!(r.log[0].chosen);
    assert_eq!(r.next_applicable(), Some((0, b"solo".to_vec())));
    assert_eq!(r.next_applicable(), None);
}

#[test]
fn restore_keeps_durable_state_and_discards_soft_state() {
    let mut r = PaxosReplica::new(0, 1);
    r.tick(0);
    r.submit(b"a".to_vec(), 1);
    assert!(r.log[0].chosen);
    let restored = PaxosReplica::restore(0, 1, r.highest_promised, r.log.clone());
    assert_eq!(restored.highest_promised, r.highest_promised);
    assert_eq!(restored.log.len(), 1);
    assert_eq!(restored.log[0].value, Some(b"a".to_vec()));
    assert_eq!(restored.log[0].accepted_ballot, r.log[0].accepted_ballot);
    assert!(!restored.log[0].chosen);
    assert!(restored.log[0].acceptances.is_empty());
    assert_eq!(restored.applied_upto, 0);
    assert!(!restored.lease_active);
}

#[test]
fn follower_grants_promise_and_accepts() {
    let mut r = PaxosReplica::new(1, 3);
    // a candidate with a fresh ballot asks for a promise
    let effects = r.handle_prepare(0, Ballot(1, 0), vec![0], 0);
    assert_eq!(r.highest_promised, Ballot(1, 0));
    assert_eq!(r.current_leader, 0);
    assert!(matches!(
        effects.as_slice(),
        [Effect::Persist, Effect::Send { dst: 0, msg: PaxosMsg::Promise { .. } }]
    ));
    // a proposal under that ballot is recorded and acknowledged
    let effects = r.handle_propose(0, 0, Ballot(1, 0), b"x".to_vec(), 10);
    assert_eq!(r.log[0].value, Some(b"x".to_vec()));
    assert_eq!(r.log[0].accepted_ballot, Ballot(1, 0));
    assert!(matches!(
        effects.as_slice(),
        [Effect::Persist, Effect::Send { dst: 0, msg: PaxosMsg::Accept { index: 0, ballot: Ballot(1, 0) } }]
    ));
    // a learn freezes the slot
    r.handle_learn(0, Ballot(1, 0), b"x".to_vec());
    assert!(r.log[0].chosen);
    assert_eq!(r.next_applicable(), Some((0, b"x".to_vec())));
}

#[test]
fn stale_ballots_are_nacked() {
    let mut r = PaxosReplica::new(1, 3);
    r.handle_prepare(0, Ballot(5, 0), vec![0], 0);
    let effects = r.handle_prepare(2, Ballot(2, 2), vec![0], 10);
    assert!(matches!(
        effects.as_slice(),
        [Effect::Send { dst: 2, msg: PaxosMsg::Nack { ballot: Ballot(5, 0) } }]
    ));
    let effects = r.handle_propose(2, 0, Ballot(2, 2), b"y".to_vec(), 10);
    assert!(matches!(
        effects.as_slice(),
        [Effect::Send { dst: 2, msg: PaxosMsg::Nack { ballot: Ballot(5, 0) } }]
    ));
    assert!(r.log.is_empty());
}

#[test]
fn nack_raises_ballot_and_aborts_election() {
    let mut r = PaxosReplica::new(0, 3);
    r.tick(0); // starts an election, promises seeded with itself
    assert_eq!(r.promises.len(), 1);
    let effects = r.handle_nack(Ballot(9, 2));
    assert!(effects.is_empty());
    assert_eq!(r.highest_promised, Ballot(9, 2));
    assert!(r.promises.is_empty());
}

#[test]
fn late_accept_for_chosen_slot_gets_a_direct_learn() {
    let mut r = PaxosReplica::new(0, 3);
    r.tick(0);
    let b = r.highest_promised;
    r.handle_promise(1, b, vec![], 10);
    assert_eq!(r.current_leader, 0);
    r.submit(b"v".to_vec(), 20);
    // the second acceptance completes the quorum: the slot is chosen and a
    // Learn is broadcast
    let effects = r.handle_accept(1, 0, b);
    assert!(r.log[0].chosen);
    assert!(matches!(
        effects.as_slice(),
        [Effect::Broadcast { msg: PaxosMsg::Learn { index: 0, .. } }]
    ));
    // a straggler's acceptance of the already-chosen slot is answered with
    // the outcome, point-to-point
    let effects = r.handle_accept(2, 0, b);
    assert!(matches!(
        effects.as_slice(),
        [Effect::Send { dst: 2, msg: PaxosMsg::Learn { index: 0, .. } }]
    ));
    assert_eq!(r.log[0].value, Some(b"v".to_vec()));
}

#[test]
fn chosen_slot_value_is_frozen() {
    let mut r = PaxosReplica::new(1, 3);
    r.handle_learn(0, Ballot(1, 0), b"first".to_vec());
    assert!(r.log[0].chosen);
    // later proposals and learns for the slot cannot change the value
    r.handle_propose(0, 0, Ballot(7, 0), b"other".to_vec(), 50);
    r.handle_learn(0, Ballot(8, 2), b"other".to_vec());
    assert_eq!(r.log[0].value, Some(b"first".to_vec()));
}

#[test]
fn single_value_agreement_three_replicas() {
    let (mut net, mut replicas, mut applied) = cluster(3);
    let mut now: u128 = 0;
    run(&mut net, &mut replicas, &mut applied, &mut now, 30);
    assert!(leader_of(&replicas, &net).is_some());
    submit(&mut net, &mut replicas, &mut applied, now, 0, b"X");
    run(&mut net, &mut replicas, &mut applied, &mut now, 30);
    for i in 0..3 {
        assert!(replicas[i].log[0].chosen, "replica {} has not chosen slot 0", i);
        assert_eq!(replicas[i].log[0].value, Some(b"X".to_vec()));
        assert_eq!(applied[i], vec![b"X".to_vec()], "replica {} applied {:?}", i, applied[i]);
    }
}

#[test]
fn two_concurrent_submissions() {
    let (mut net, mut replicas, mut applied) = cluster(3);
    let mut now: u128 = 0;
    run(&mut net, &mut replicas, &mut applied, &mut now, 30);
    submit(&mut net, &mut replicas, &mut applied, now, 1, b"A");
    submit(&mut net, &mut replicas, &mut applied, now, 2, b"B");
    run(&mut net, &mut replicas, &mut applied, &mut now, 40);
    let first = replicas[0].log[0].value.clone().unwrap();
    let second = replicas[0].log[1].value.clone().unwrap();
    let mut both = vec![first.clone(), second.clone()];
    both.sort();
    assert_eq!(both, vec![b"A".to_vec(), b"B".to_vec()]);
    for i in 0..3 {
        assert!(replicas[i].log[0].chosen && replicas[i].log[1].chosen);
        assert_eq!(replicas[i].log[0].value, Some(first.clone()));
        assert_eq!(replicas[i].log[1].value, Some(second.clone()));
        assert_eq!(applied[i], vec![first.clone(), second.clone()]);
    }
}

#[test]
fn leader_crash_and_reelection() {
    let (mut net, mut replicas, mut applied) = cluster(5);
    let mut now: u128 = 0;
    run(&mut net, &mut replicas, &mut applied, &mut now, 30);
    let leader = leader_of(&replicas, &net).expect("a leader should be elected");
    let old_ballot = replicas[leader].highest_promised;
    submit(&mut net, &mut replicas, &mut applied, now, leader, b"P");
    run(&mut net, &mut replicas, &mut applied, &mut now, 30);
    for i in 0..5 {
        assert_eq!(replicas[i].log[0].value, Some(b"P".to_vec()));
        assert!(replicas[i].log[0].chosen);
    }

    net.alive[leader] = false;
    now += 2500; // let every lease run out
    run(&mut net, &mut replicas, &mut applied, &mut now, 60);
    let new_leader = leader_of(&replicas, &net).expect("a successor should be elected");
    assert_ne!(new_leader, leader);
    assert!(replicas[new_leader].highest_promised > old_ballot);

    submit(&mut net, &mut replicas, &mut applied, now, new_leader, b"Q");
    run(&mut net, &mut replicas, &mut applied, &mut now, 60);
    for i in 0..5 {
        if i == leader {
            continue;
        }
        assert!(replicas[i].log[1].chosen, "survivor {} missing slot 1", i);
        assert_eq!(replicas[i].log[1].value, Some(b"Q".to_vec()));
        assert_eq!(applied[i], vec![b"P".to_vec(), b"Q".to_vec()]);
    }
}

#[test]
fn message_loss_storm() {
    let (mut net, mut replicas, mut applied) = cluster(5);
    net.drop_permille = 300;
    let mut now: u128 = 0;
    let mut submitted = 0usize;
    let mut rounds = 0usize;
    while submitted < 20 && rounds < 2000 {
        if let Some(leader) = leader_of(&replicas, &net) {
            let value = format!("c{:02}", submitted).into_bytes();
            submit(&mut net, &mut replicas, &mut applied, now, leader, &value);
            submitted += 1;
        }
        run(&mut net, &mut replicas, &mut applied, &mut now, 5);
        rounds += 5;
    }
    assert_eq!(submitted, 20, "no stable leader emerged under loss");
    // let re-elections re-propose and re-announce until everyone caught up
    run(&mut net, &mut replicas, &mut applied, &mut now, 1500);
    for i in 0..5 {
        assert_eq!(applied[i].len(), 20, "replica {} applied {} commands", i, applied[i].len());
        assert_eq!(applied[i], applied[0], "replica {} disagrees on the order", i);
    }
    let expected: Vec<Vec<u8>> = {
        let mut v = applied[0].clone();
        v.sort();
        v
    };
    let mut seen = applied[0].clone();
    seen.sort();
    assert_eq!(seen, expected);
}

#[test]
fn split_brain_recovery() {
    let (mut net, mut replicas, mut applied) = cluster(5);
    let mut now: u128 = 0;
    run(&mut net, &mut replicas, &mut applied, &mut now, 30);
    let leader = leader_of(&replicas, &net).expect("a leader should be elected");
    // partition the cluster so the leader keeps a majority
    let mut majority = vec![leader];
    let mut minority = Vec::new();
    for i in 0..5 {
        if i == leader {
            continue;
        }
        if majority.len() < 3 {
            majority.push(i);
        } else {
            minority.push(i);
        }
    }
    net.partition(&majority, &minority);

    submit(&mut net, &mut replicas, &mut applied, now, leader, b"W");
    run(&mut net, &mut replicas, &mut applied, &mut now, 60);
    for &i in &majority {
        assert!(replicas[i].log[0].chosen, "majority member {} should choose", i);
    }
    for &i in &minority {
        // liveness, not safety: the minority cannot choose anything new
        assert!(replicas[i].log.iter().all(|e| !e.chosen));
        assert!(applied[i].is_empty());
    }

    net.heal();
    run(&mut net, &mut replicas, &mut applied, &mut now, 120);
    // after healing, a minority-side submission drains through as well
    submit(&mut net, &mut replicas, &mut applied, now, minority[0], b"V");
    run(&mut net, &mut replicas, &mut applied, &mut now, 120);
    for i in 0..5 {
        assert!(replicas[i].log[0].chosen);
        assert_eq!(replicas[i].log[0].value, Some(b"W".to_vec()));
        assert!(applied[i].len() >= 1);
        assert_eq!(applied[i][0], b"W".to_vec());
    }
    // the healed cluster eventually agrees on the follow-up command too
    let len0 = applied[0].len();
    assert!(len0 >= 2, "V was not chosen after heal");
    for i in 0..5 {
        assert_eq!(applied[i], applied[0]);
    }
}
