//! The bank: the sample application state machine replicated through the
//! log.  Balances live in an association list keyed by account name, with
//! each name held at most once.
//!
//! Arithmetic that the account balances cannot represent (an overflowing
//! deposit, a withdrawal beyond the balance) refuses the action and leaves
//! every balance unchanged.

use vstd::prelude::*;

verus! {

/// A client command for the bank.
#[derive(Clone, Debug, PartialEq)]
pub enum CustomerAction {
    /// Creates the account with a zero balance, or resets it to zero if it
    /// already exists.
    Open { account: String },
    Deposit { account: String, amount: usize },
    Withdraw { account: String, amount: usize },
    Transfer { src: String, dst: String, amount: usize },
}

impl crate::AppCommand for CustomerAction {

}

/// Account balances, one entry per account name.
pub struct Bank {
    pub balances: Vec<(String, usize)>,
}

impl Bank {
    /// No account name appears twice.
    pub open spec fn wf(self) -> bool {
        forall|i: int, j: int|
            0 <= i < j < self.balances@.len() ==> self.balances@[i].0@ != self.balances@[j].0@
    }

    /// Whether an account with this name exists.
    pub open spec fn has_account(self, name: Seq<char>) -> bool {
        exists|i: int|
            0 <= i < self.balances@.len() && (#[trigger] self.balances@[i]).0@ == name
    }

    /// An empty bank.
    pub fn new() -> (r: Bank)
        ensures
            r.balances@.len() == 0,
            r.wf(),
    {
        Bank { balances: Vec::new() }
    }

    /// The index of the account with this name, if it exists.
    fn find(&self, account: &String) -> (r: Option<usize>)
        ensures
            match r {
                Some(i) => i < self.balances@.len() && self.balances@[i as int].0@ == account@,
                None => !self.has_account(account@),
            },
    {
        let mut j: usize = 0;
        while j < self.balances.len()
            invariant
                j <= self.balances@.len(),
                forall|k: int| 0 <= k < j ==> (#[trigger] self.balances@[k]).0@ != account@,
            decreases self.balances@.len() - j,
        {
            if self.balances[j].0 == *account {
                return Some(j);
            }
            j += 1;
        }
        None
    }

    /// The balance of the account with this name, if it exists.
    pub fn balance(&self, account: &String) -> (r: Option<usize>)
        ensures
            match r {
                Some(b) => exists|i: int|
                    0 <= i < self.balances@.len() && (#[trigger] self.balances@[i]).0@ == account@
                        && self.balances@[i].1 == b,
                None => !self.has_account(account@),
            },
    {
        match self.find(account) {
            Some(i) => Some(self.balances[i].1),
            None => None,
        }
    }

    /// Applies one customer action, deterministically.  Returns whether the
    /// action's accounts were all present (and, for money movements, the
    /// amounts representable); a refused action changes nothing.
    pub fn execute(&mut self, action: CustomerAction) -> (r: bool)
        requires
            old(self).wf(),
        ensures
            final(self).wf(),
            match action {
                CustomerAction::Open { account } => {
                    &&& r == old(self).has_account(account@)
                    &&& (r ==> exists|i: int|
                        {
                            &&& 0 <= i < old(self).balances@.len()
                            &&& (#[trigger] old(self).balances@[i]).0@ == account@
                            &&& final(self).balances@.len() == old(self).balances@.len()
                            &&& final(self).balances@[i].0@ == account@
                            &&& final(self).balances@[i].1 == 0
                            &&& forall|j: int|
                                0 <= j < old(self).balances@.len() && j != i ==> final(self).balances@[j] == old(self).balances@[j]
                        })
                    &&& (!r ==> {
                        &&& final(self).balances@.len() == old(self).balances@.len() + 1
                        &&& final(self).balances@.last().0@ == account@
                        &&& final(self).balances@.last().1 == 0
                        &&& forall|j: int|
                            0 <= j < old(self).balances@.len() ==> final(self).balances@[j] == old(self).balances@[j]
                    })
                },
                CustomerAction::Deposit { account, amount } => bank_moved(
                    *old(self),
                    *final(self),
                    r,
                    account@,
                    amount,
                    true,
                ),
                CustomerAction::Withdraw { account, amount } => bank_moved(
                    *old(self),
                    *final(self),
                    r,
                    account@,
                    amount,
                    false,
                ),
                CustomerAction::Transfer { src, dst, amount } => bank_transferred(
                    *old(self),
                    *final(self),
                    r,
                    src@,
                    dst@,
                    amount,
                ),
            },
    {
        match action {
            CustomerAction::Open { account } => {
                match self.find(&account) {
                    Some(i) => {
                        let entry = &mut self.balances[i];
                        entry.1 = 0;
                        true
                    },
                    None => {
                        self.balances.push((account, 0));
                        false
                    },
                }
            },
            CustomerAction::Deposit { account, amount } => {
                match self.find(&account) {
                    Some(i) => {
                        let bal = self.balances[i].1;
                        if amount <= usize::MAX - bal {
                            let entry = &mut self.balances[i];
                            entry.1 = bal + amount;
                            true
                        } else {
                            false
                        }
                    },
                    None => false,
                }
            },
            CustomerAction::Withdraw { account, amount } => {
                match self.find(&account) {
                    Some(i) => {
                        let bal = self.balances[i].1;
                        if amount <= bal {
                            let entry = &mut self.balances[i];
                            entry.1 = bal - amount;
                            true
                        } else {
                            false
                        }
                    },
                    None => false,
                }
            },
            CustomerAction::Transfer { src, dst, amount } => {
                let si = match self.find(&src) {
                    Some(i) => i,
                    None => {
                        return false;
                    },
                };
                let di = match self.find(&dst) {
                    Some(i) => i,
                    None => {
                        return false;
                    },
                };
                let src_bal = self.balances[si].1;
                if amount > src_bal {
                    return false;
                }
                if si == di {
                    return true;
                }
                let dst_bal = self.balances[di].1;
                if amount > usize::MAX - dst_bal {
                    return false;
                }
                let src_entry = &mut self.balances[si];
                src_entry.1 = src_bal - amount;
                let dst_entry = &mut self.balances[di];
                dst_entry.1 = dst_bal + amount;
                true
            },
        }
    }
}

/// A deposit (`add == true`) or withdrawal (`add == false`) on one account:
/// accepted exactly when the account exists and the new balance is
/// representable; every other entry is untouched.
pub open spec fn bank_moved(
    pre: Bank,
    post: Bank,
    r: bool,
    account: Seq<char>,
    amount: usize,
    add: bool,
) -> bool {
    &&& post.balances@.len() == pre.balances@.len()
    &&& (!r ==> post.balances@ == pre.balances@)
    &&& (!pre.has_account(account) ==> !r)
    &&& (r ==> exists|i: int|
        {
            &&& 0 <= i < pre.balances@.len()
            &&& (#[trigger] pre.balances@[i]).0@ == account
            &&& post.balances@[i].0@ == account
            &&& (if add {
                post.balances@[i].1 == pre.balances@[i].1 + amount
            } else {
                post.balances@[i].1 == pre.balances@[i].1 - amount
            })
            &&& forall|j: int|
                0 <= j < pre.balances@.len() && j != i ==> post.balances@[j] == pre.balances@[j]
        })
    &&& (r <== exists|i: int|
        {
            &&& 0 <= i < pre.balances@.len()
            &&& (#[trigger] pre.balances@[i]).0@ == account
            &&& (if add {
                pre.balances@[i].1 + amount <= usize::MAX
            } else {
                amount <= pre.balances@[i].1
            })
        })
}

/// A transfer between two accounts: accepted exactly when both exist, the
/// source covers the amount, and the destination balance stays
/// representable; a transfer to the same account moves nothing.
pub open spec fn bank_transferred(
    pre: Bank,
    post: Bank,
    r: bool,
    src: Seq<char>,
    dst: Seq<char>,
    amount: usize,
) -> bool {
    &&& post.balances@.len() == pre.balances@.len()
    &&& (!r ==> post.balances@ == pre.balances@)
    &&& ((!pre.has_account(src) || !pre.has_account(dst)) ==> !r)
    &&& (src == dst ==> (post.balances@ == pre.balances@ && (r <==> exists|i: int|
        {
            &&& 0 <= i < pre.balances@.len()
            &&& (#[trigger] pre.balances@[i]).0@ == src
            &&& amount <= pre.balances@[i].1
        })))
    &&& (src != dst && r ==> exists|i: int, j: int|
        {
            &&& 0 <= i < pre.balances@.len() && 0 <= j < pre.balances@.len() && i != j
            &&& (#[trigger] pre.balances@[i]).0@ == src
            &&& (#[trigger] pre.balances@[j]).0@ == dst
            &&& post.balances@[i].0@ == src
            &&& post.balances@[j].0@ == dst
            &&& post.balances@[i].1 == pre.balances@[i].1 - amount
            &&& post.balances@[j].1 == pre.balances@[j].1 + amount
            &&& forall|k: int|
                0 <= k < pre.balances@.len() && k != i && k != j ==> post.balances@[k]
                    == pre.balances@[k]
        })
    &&& (src != dst ==> (r <== exists|i: int, j: int|
        {
            &&& 0 <= i < pre.balances@.len() && 0 <= j < pre.balances@.len()
            &&& (#[trigger] pre.balances@[i]).0@ == src
            &&& (#[trigger] pre.balances@[j]).0@ == dst
            &&& amount <= pre.balances@[i].1
            &&& pre.balances@[j].1 + amount <= usize::MAX
        }))
}

} // verus!
