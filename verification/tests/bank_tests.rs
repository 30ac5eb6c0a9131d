use paxos::bank::{Bank, CustomerAction};

fn s(name: &str) -> String {
    name.to_string()
}

#[test]
fn bank_open_and_deposit() {
    let mut bank = Bank::new();
    assert_eq!(bank.execute(CustomerAction::Open { account: s("peter") }), false);
    assert_eq!(bank.balance(&s("peter")), Some(0));
    assert!(bank.execute(CustomerAction::Deposit { account: s("peter"), amount: 100 }));
    assert_eq!(bank.balance(&s("peter")), Some(100));
}

#[test]
fn bank_open_existing_resets_balance() {
    let mut bank = Bank::new();
    bank.execute(CustomerAction::Open { account: s("a") });
    bank.execute(CustomerAction::Deposit { account: s("a"), amount: 7 });
    // opening an existing account reports true and resets it to zero
    assert_eq!(bank.execute(CustomerAction::Open { account: s("a") }), true);
    assert_eq!(bank.balance(&s("a")), Some(0));
}

#[test]
fn bank_unknown_accounts_are_refused() {
    let mut bank = Bank::new();
    assert!(!bank.execute(CustomerAction::Deposit { account: s("ghost"), amount: 1 }));
    assert!(!bank.execute(CustomerAction::Withdraw { account: s("ghost"), amount: 1 }));
    assert!(!bank.execute(CustomerAction::Transfer { src: s("ghost"), dst: s("ghost"), amount: 1 }));
    assert_eq!(bank.balance(&s("ghost")), None);
}

#[test]
fn bank_withdraw_and_insufficient_funds() {
    let mut bank = Bank::new();
    bank.execute(CustomerAction::Open { account: s("a") });
    bank.execute(CustomerAction::Deposit { account: s("a"), amount: 50 });
    assert!(bank.execute(CustomerAction::Withdraw { account: s("a"), amount: 20 }));
    assert_eq!(bank.balance(&s("a")), Some(30));
    // withdrawing more than the balance is refused and changes nothing
    assert!(!bank.execute(CustomerAction::Withdraw { account: s("a"), amount: 31 }));
    assert_eq!(bank.balance(&s("a")), Some(30));
}

#[test]
fn bank_transfer() {
    let mut bank = Bank::new();
    bank.execute(CustomerAction::Open { account: s("peter") });
    bank.execute(CustomerAction::Open { account: s("dieter") });
    bank.execute(CustomerAction::Deposit { account: s("peter"), amount: 100 });
    assert!(bank.execute(CustomerAction::Transfer { src: s("peter"), dst: s("dieter"), amount: 60 }));
    assert_eq!(bank.balance(&s("peter")), Some(40));
    assert_eq!(bank.balance(&s("dieter")), Some(60));
    // a transfer the source cannot cover is refused
    assert!(!bank.execute(CustomerAction::Transfer { src: s("peter"), dst: s("dieter"), amount: 41 }));
    assert_eq!(bank.balance(&s("peter")), Some(40));
    assert_eq!(bank.balance(&s("dieter")), Some(60));
}

#[test]
fn bank_transfer_to_self_moves_nothing() {
    let mut bank = Bank::new();
    bank.execute(CustomerAction::Open { account: s("a") });
    bank.execute(CustomerAction::Deposit { account: s("a"), amount: 10 });
    assert!(bank.execute(CustomerAction::Transfer { src: s("a"), dst: s("a"), amount: 5 }));
    assert_eq!(bank.balance(&s("a")), Some(10));
    assert!(!bank.execute(CustomerAction::Transfer { src: s("a"), dst: s("a"), amount: 11 }));
}

#[test]
fn bank_deposit_overflow_is_refused() {
    let mut bank = Bank::new();
    bank.execute(CustomerAction::Open { account: s("a") });
    bank.execute(CustomerAction::Deposit { account: s("a"), amount: usize::MAX });
    assert_eq!(bank.balance(&s("a")), Some(usize::MAX));
    assert!(!bank.execute(CustomerAction::Deposit { account: s("a"), amount: 1 }));
    assert_eq!(bank.balance(&s("a")), Some(usize::MAX));
}
