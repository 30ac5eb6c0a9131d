use paxos::protocol::{Ballot, LogEntry};

#[test]
fn ballot_comparison() {
    assert!(Ballot(5, 2) > Ballot(4, 9));
    assert!(Ballot(5, 2) > Ballot(5, 1));
    assert!(Ballot(5, 2) == Ballot(5, 2));
    assert!(Ballot(4, 9) < Ballot(5, 2));
    assert!(Ballot(0, 0) < Ballot(0, 1));
    assert!(Ballot(0, 0) < Ballot(1, 0));
}

#[test]
fn ballot_exec_comparison_agrees() {
    let a = Ballot(5, 2);
    let b = Ballot(4, 9);
    assert!(b.lt(&a));
    assert!(b.le(&a));
    assert!(!a.lt(&b));
    assert!(a.le(&a));
    assert!(!a.lt(&a));
}

#[test]
fn ballot_increment_for() {
    let mut b = Ballot(5, 7);
    b.increment_for(3);
    assert_eq!(b, Ballot(6, 3));

    let mut b = Ballot(5, 1);
    b.increment_for(3);
    assert_eq!(b, Ballot(5, 3));

    let mut b = Ballot(5, 3);
    b.increment_for(3);
    assert_eq!(b, Ballot(6, 3));
}

#[test]
fn ballot_increment_is_strictly_increasing() {
    let mut b = Ballot(0, 0);
    let mut prev = b;
    for id in [3usize, 1, 4, 1, 5, 9, 2, 6] {
        b.increment_for(id);
        assert!(b > prev);
        assert_eq!(b.1, id);
        prev = b;
    }
}

#[test]
fn ballot_zero_and_default() {
    assert_eq!(Ballot::zero(), Ballot(0, 0));
    assert_eq!(Ballot::default(), Ballot(0, 0));
}

#[test]
fn log_entry_new() {
    let e = LogEntry::new(vec![1, 2, 3], 4);
    assert_eq!(e.value, Some(vec![1, 2, 3]));
    assert_eq!(e.acceptances, vec![4]);
    assert_eq!(e.accepted_ballot, Ballot(0, 0));
    assert!(!e.chosen);
}

#[test]
fn log_entry_default() {
    let e = LogEntry::default();
    assert_eq!(e.value, None);
    assert!(e.acceptances.is_empty());
    assert_eq!(e.accepted_ballot, Ballot(0, 0));
    assert!(!e.chosen);
}
