use vstd::prelude::*;

use crate::display::{bet_message, format_bet_message};
use crate::store::{
    absent, lemma_lookup_absent, lemma_lookup_at, lemma_lookup_le_sum, lemma_push, lemma_sum_prefix,
    lemma_update,
    lookup, sum, unique_ids, Account,
};
use crate::tax::{major_tax, major_tax_spec, minor_tax, minor_tax_spec, net_stake, payout_spec};

verus! {

/// Why a ledger operation was refused; a refused operation changes nothing.
#[derive(Debug, Clone, Copy, PartialEq, Eq, Structural)]
pub enum LedgerError {
    /// The stake or withdrawal exceeds the caller's recorded balance.
    InsufficientFunds,
    /// The new pool total would not fit in 128 bits.
    Overflow,
}

/// A value transfer out of the pool that the host must carry out.
#[derive(Debug)]
pub struct Payment {
    pub recipient: String,
    pub amount: u128,
}

/// What a settled bet decided, and the taxes to be paid out of its stake.
#[derive(Debug, Clone, Copy, PartialEq, Eq, Structural)]
pub struct FlipReceipt {
    /// Whether the caller won the bet.
    pub won: bool,
    /// Tax paid twice, to two recipients.
    pub minor_tax: u128,
    /// Tax paid once.
    pub major_tax: u128,
}

/// The wagering ledger: balances per account, their total, and the bet history.
pub struct CoinFlip {
    history: Vec<String>,
    times: Vec<u64>,
    accounts: Vec<Account>,
    usersum: u128,
}

/// Whether a bet with this entropy byte is won.
pub open spec fn wins(entropy: u8) -> bool {
    entropy % 2 == 0
}

/// `new` is `old` with `n` added to the balance of `a` and to the total, and
/// every other balance unchanged.
pub open spec fn credited(old: CoinFlip, new: CoinFlip, a: Seq<char>, n: int) -> bool {
    &&& new.wf()
    &&& new.total() == old.total() + n
    &&& new.balance_of(a) == old.balance_of(a) + n
    &&& forall|b: Seq<char>| b != a ==> #[trigger] new.balance_of(b) == old.balance_of(b)
}

impl CoinFlip {
    /// The ledger is consistent: one entry per account, the total equals the sum
    /// of the balances, and history and timestamps are index-aligned.
    pub closed spec fn wf(&self) -> bool {
        &&& unique_ids(self.accounts@)
        &&& self.usersum == sum(self.accounts@)
        &&& self.history@.len() == self.times@.len()
    }

    /// The account entries, one per account.
    pub closed spec fn accounts_view(&self) -> Seq<Account> {
        self.accounts@
    }

    /// The balance of account `a`, 0 if it has none.
    pub closed spec fn balance_of(&self, a: Seq<char>) -> nat {
        lookup(self.accounts@, a)
    }

    /// The aggregate pool total.
    pub closed spec fn total(&self) -> nat {
        self.usersum as nat
    }

    /// The messages of the settled bets, oldest first.
    pub closed spec fn history_view(&self) -> Seq<Seq<char>> {
        self.history@.map_values(|s: String| s@)
    }

    /// The timestamps of the settled bets, index-aligned with the history.
    pub closed spec fn times_view(&self) -> Seq<u64> {
        self.times@
    }

    /// An empty ledger.
    pub fn new() -> (r: Self)
        ensures
            r.wf(),
            r.total() == 0,
            forall|a: Seq<char>| #[trigger] r.balance_of(a) == 0,
            r.history_view() == Seq::<Seq<char>>::empty(),
            r.times_view() == Seq::<u64>::empty(),
    {
        let r = CoinFlip { history: Vec::new(), times: Vec::new(), accounts: Vec::new(), usersum: 0 };
        assert(r.history_view() =~= Seq::<Seq<char>>::empty());
        r
    }

    /// Rebuilds a ledger from stored parts. Succeeds exactly when no account
    /// appears twice, the balances sum to a 128-bit total, and there is one
    /// timestamp per history line.
    pub fn restore(history: Vec<String>, times: Vec<u64>, accounts: Vec<Account>) -> (r: Option<Self>)
        ensures
            r is Some <==> unique_ids(accounts@) && sum(accounts@) <= u128::MAX
                && history@.len() == times@.len(),
            r matches Some(l) ==> l.wf() && l.accounts_view() == accounts@
                && l.history_view() == history@.map_values(|s: String| s@)
                && l.times_view() == times@
                && l.total() == sum(accounts@),
    {
        if history.len() != times.len() {
            return None;
        }
        let mut l = CoinFlip { history, times, accounts: Vec::new(), usersum: 0 };
        let mut i: usize = 0;
        while i < accounts.len()
            invariant
                i <= accounts@.len(),
                l.accounts@ == accounts@.subrange(0, i as int),
                unique_ids(l.accounts@),
                l.usersum == sum(l.accounts@),
                l.history@.len() == l.times@.len(),
                l.history == history,
                l.times == times,
            decreases accounts@.len() - i,
        {
            let id = accounts[i].id.clone();
            let balance = accounts[i].balance;
            match l.find(&id) {
                Some(j) => {
                    assert(accounts@[j as int].id@ == accounts@[i as int].id@);
                    return None;
                },
                None => {},
            }
            if balance > u128::MAX - l.usersum {
                proof {
                    lemma_push(accounts@.subrange(0, i as int), accounts@[i as int], id@);
                    assert(accounts@.subrange(0, i + 1) =~= accounts@.subrange(0, i as int).push(accounts@[i as int]));
                    lemma_sum_prefix(accounts@, i + 1);
                }
                return None;
            }
            let e = Account { id, balance };
            proof {
                lemma_push(l.accounts@, e, e.id@);
                assert(accounts@.subrange(0, i + 1) =~= l.accounts@.push(e));
                assert forall|p: int, q: int| 0 <= p < q < i + 1 implies
                    l.accounts@.push(e)[p].id@ != l.accounts@.push(e)[q].id@ by {
                    if q == i {
                        assert(l.accounts@[p].id@ != e.id@);
                    }
                }
            }
            l.accounts.push(e);
            l.usersum = l.usersum + balance;
            i = i + 1;
        }
        assert(accounts@.subrange(0, i as int) =~= accounts@);
        Some(l)
    }

    /// A copy of the account entries, one per account.
    pub fn get_accounts(&self) -> (r: Vec<Account>)
        ensures
            r@.len() == self.accounts_view().len(),
            forall|k: int| 0 <= k < r@.len() ==> #[trigger] r@[k].id@ == self.accounts_view()[k].id@
                && r@[k].balance == self.accounts_view()[k].balance,
    {
        let mut r: Vec<Account> = Vec::new();
        let mut i: usize = 0;
        while i < self.accounts.len()
            invariant
                i <= self.accounts@.len(),
                r@.len() == i,
                forall|k: int| 0 <= k < i ==> #[trigger] r@[k].id@ == self.accounts@[k].id@
                    && r@[k].balance == self.accounts@[k].balance,
            decreases self.accounts@.len() - i,
        {
            r.push(Account { id: self.accounts[i].id.clone(), balance: self.accounts[i].balance });
            i = i + 1;
        }
        r
    }

    fn find(&self, a: &String) -> (r: Option<usize>)
        ensures
            r matches Some(i) ==> i < self.accounts@.len() && self.accounts@[i as int].id@ == a@,
            r is None ==> absent(self.accounts@, a@),
    {
        let mut i: usize = 0;
        while i < self.accounts.len()
            invariant
                i <= self.accounts@.len(),
                absent(self.accounts@.subrange(0, i as int), a@),
            decreases self.accounts@.len() - i,
        {
            if self.accounts[i].id == *a {
                return Some(i);
            }
            assert(absent(self.accounts@.subrange(0, i + 1), a@)) by {
                assert forall|k: int| 0 <= k < i + 1 implies
                    #[trigger] self.accounts@.subrange(0, i + 1)[k].id@ != a@ by {
                    if k < i {
                        assert(self.accounts@.subrange(0, i as int)[k] == self.accounts@[k]);
                    }
                }
            }
            i = i + 1;
        }
        assert(self.accounts@.subrange(0, i as int) =~= self.accounts@);
        None
    }

    fn read_balance(&self, a: &String) -> (r: u128)
        requires
            self.wf(),
        ensures
            r == self.balance_of(a@),
            r <= self.total(),
    {
        proof { lemma_lookup_le_sum(self.accounts@, a@); }
        match self.find(a) {
            Some(i) => {
                proof { lemma_lookup_at(self.accounts@, i as int); }
                self.accounts[i].balance
            },
            None => {
                proof { lemma_lookup_absent(self.accounts@, a@); }
                0
            },
        }
    }

    fn set_balance(&mut self, a: &String, v: u128)
        requires
            unique_ids(old(self).accounts@),
        ensures
            unique_ids(final(self).accounts@),
            sum(final(self).accounts@) == sum(old(self).accounts@) - lookup(old(self).accounts@, a@) + v,
            forall|b: Seq<char>| #[trigger] lookup(final(self).accounts@, b)
                == if b == a@ { v as nat } else { lookup(old(self).accounts@, b) },
            final(self).history == old(self).history,
            final(self).times == old(self).times,
            final(self).usersum == old(self).usersum,
    {
        let e = Account { id: a.clone(), balance: v };
        match self.find(a) {
            Some(i) => {
                proof {
                    let s = self.accounts@;
                    lemma_lookup_at(s, i as int);
                    lemma_update(s, i as int, e, a@);
                    assert forall|b: Seq<char>| #[trigger] lookup(s.update(i as int, e), b)
                        == if b == a@ { v as nat } else { lookup(s, b) } by {
                        lemma_update(s, i as int, e, b);
                    }
                }
                self.accounts.set(i, e);
            },
            None => {
                proof {
                    let s = self.accounts@;
                    lemma_lookup_absent(s, a@);
                    lemma_push(s, e, a@);
                    assert forall|b: Seq<char>| #[trigger] lookup(s.push(e), b)
                        == if b == a@ { v as nat } else { lookup(s, b) } by {
                        lemma_push(s, e, b);
                    }
                }
                self.accounts.push(e);
            },
        }
    }

    /// The balance of `user_id`, 0 for an account the ledger has never seen.
    pub fn get_user_balance(&self, user_id: String) -> (r: u128)
        requires
            self.wf(),
        ensures
            r == self.balance_of(user_id@),
    {
        self.read_balance(&user_id)
    }

    /// The aggregate pool total.
    pub fn get_usersum(&self) -> (r: u128)
        ensures
            r == self.total(),
    {
        self.usersum
    }

    /// A copy of the bet history, oldest first.
    pub fn get_history(&self) -> (r: Vec<String>)
        ensures
            r@.map_values(|s: String| s@) == self.history_view(),
    {
        let mut r: Vec<String> = Vec::new();
        let mut i: usize = 0;
        while i < self.history.len()
            invariant
                i <= self.history@.len(),
                r@.len() == i,
                forall|k: int| 0 <= k < i ==> #[trigger] r@[k]@ == self.history@[k]@,
            decreases self.history@.len() - i,
        {
            r.push(self.history[i].clone());
            i = i + 1;
        }
        assert(r@.map_values(|s: String| s@) =~= self.history_view());
        r
    }

    /// Credits `amount`, attached by `caller`, to the caller's balance and the total.
    /// Refused with `Overflow`, changing nothing, when the total would not fit.
    pub fn user_deposit(&mut self, caller: String, amount: u128) -> (r: Result<(), LedgerError>)
        requires
            old(self).wf(),
        ensures
            r is Ok <==> old(self).total() + amount <= u128::MAX,
            r is Ok ==> credited(*old(self), *final(self), caller@, amount as int),
            r is Ok ==> final(self).history_view() == old(self).history_view(),
            r is Ok ==> final(self).times_view() == old(self).times_view(),
            r is Err ==> r == Err::<(), LedgerError>(LedgerError::Overflow),
            r is Err ==> *final(self) == *old(self),
    {
        if amount > u128::MAX - self.usersum {
            return Err(LedgerError::Overflow);
        }
        let balance = self.read_balance(&caller);
        self.set_balance(&caller, balance + amount);
        self.usersum = self.usersum + amount;
        Ok(())
    }

    /// Debits `amount` from the caller's balance and the total, and hands back the
    /// payment of `amount` to `to` that the host must then make. The ledger is
    /// committed before the transfer is issued. Refused with `InsufficientFunds`,
    /// changing nothing, when `amount` exceeds the caller's balance.
    pub fn user_withdraw(&mut self, caller: String, to: String, amount: u128) -> (r: Result<Payment, LedgerError>)
        requires
            old(self).wf(),
        ensures
            r is Ok <==> amount <= old(self).balance_of(caller@),
            r matches Ok(p) ==> p.recipient@ == to@ && p.amount == amount,
            r is Ok ==> credited(*old(self), *final(self), caller@, -amount),
            r is Ok ==> final(self).history_view() == old(self).history_view(),
            r is Ok ==> final(self).times_view() == old(self).times_view(),
            r is Err ==> r matches Err(LedgerError::InsufficientFunds),
            r is Err ==> *final(self) == *old(self),
    {
        let balance = self.read_balance(&caller);
        if amount > balance {
            return Err(LedgerError::InsufficientFunds);
        }
        self.set_balance(&caller, balance - amount);
        self.usersum = self.usersum - amount;
        Ok(Payment { recipient: to, amount })
    }

    /// Settles a bet of `amount` by `caller` on `head` (heads when true): the bet is
    /// won when `entropy` is even. The stake leaves the caller's balance and the
    /// total; on a win twice the stake net of tax comes back. One history line and
    /// the timestamp `now` are recorded. Refused, changing nothing, with
    /// `InsufficientFunds` when the stake exceeds the caller's balance, and with
    /// `Overflow` when a win would take the total past 128 bits.
    pub fn flip(&mut self, caller: String, head: bool, amount: u128, entropy: u8, now: u64) -> (r: Result<FlipReceipt, LedgerError>)
        requires
            old(self).wf(),
        ensures
            (r matches Err(LedgerError::InsufficientFunds)) <==> amount > old(self).balance_of(caller@),
            (r matches Err(LedgerError::Overflow)) <==> amount <= old(self).balance_of(caller@)
                && wins(entropy)
                && old(self).total() - amount + payout_spec(amount as nat) > u128::MAX,
            r matches Ok(rc) ==> rc.won == wins(entropy)
                && rc.minor_tax == minor_tax_spec(amount as nat)
                && rc.major_tax == major_tax_spec(amount as nat),
            r is Ok ==> credited(*old(self), *final(self), caller@,
                if wins(entropy) { payout_spec(amount as nat) - amount } else { -amount }),
            r is Ok ==> final(self).history_view() == old(self).history_view().push(
                bet_message(caller@, head, amount as nat, wins(entropy))),
            r is Ok ==> final(self).times_view() == old(self).times_view().push(now),
            r is Err ==> *final(self) == *old(self),
    {
        let balance = self.read_balance(&caller);
        if amount > balance {
            return Err(LedgerError::InsufficientFunds);
        }
        let won = entropy % 2 == 0;
        let t1 = minor_tax(amount);
        let t2 = major_tax(amount);
        let net = net_stake(amount);
        let rest = self.usersum - amount;
        if won && net > (u128::MAX - rest) / 2 {
            return Err(LedgerError::Overflow);
        }
        let message = format_bet_message(caller.as_str(), head, amount, won);
        let ghost old_history = self.history_view();
        self.times.push(now);
        self.history.push(message);
        assert(self.history_view() =~= old_history.push(bet_message(caller@, head, amount as nat, won)));
        if won {
            self.set_balance(&caller, balance - amount + net * 2);
            self.usersum = rest + net * 2;
        } else {
            self.set_balance(&caller, balance - amount);
            self.usersum = rest;
        }
        Ok(FlipReceipt { won, minor_tax: t1, major_tax: t2 })
    }

    /// A copy of the bet timestamps, index-aligned with the history.
    pub fn get_times(&self) -> (r: Vec<u64>)
        ensures
            r@ == self.times_view(),
    {
        let mut r: Vec<u64> = Vec::new();
        let mut i: usize = 0;
        while i < self.times.len()
            invariant
                i <= self.times@.len(),
                r@ =~= self.times@.subrange(0, i as int),
            decreases self.times@.len() - i,
        {
            r.push(self.times[i]);
            i = i + 1;
        }
        assert(self.times@.subrange(0, i as int) =~= self.times@);
        r
    }
}

/// In every consistent ledger the pool total is the sum of the balances, taken
/// once per account, and each account's balance is the one its entry records.
pub proof fn lemma_total_is_sum_of_balances(l: CoinFlip)
    requires
        l.wf(),
    ensures
        unique_ids(l.accounts_view()),
        l.total() == sum(l.accounts_view()),
        forall|a: Seq<char>| #[trigger] l.balance_of(a) == lookup(l.accounts_view(), a),
{
}

/// No balance is negative, and none exceeds the pool total.
pub proof fn lemma_balance_within_total(l: CoinFlip, a: Seq<char>)
    requires
        l.wf(),
    ensures
        0 <= l.balance_of(a) <= l.total(),
{
    lemma_lookup_le_sum(l.accounts_view(), a);
}

/// Depositing `n` into `a` and then withdrawing `n` from `a` always succeeds and
/// leaves every balance and the total as they were; no tax is taken.
pub proof fn lemma_deposit_withdraw_round_trip(
    l0: CoinFlip,
    l1: CoinFlip,
    l2: CoinFlip,
    a: Seq<char>,
    n: u128,
)
    requires
        l0.wf(),
        credited(l0, l1, a, n as int),
        credited(l1, l2, a, -n),
    ensures
        n <= l1.balance_of(a),
        l2.total() == l0.total(),
        forall|b: Seq<char>| #[trigger] l2.balance_of(b) == l0.balance_of(b),
{
    assert forall|b: Seq<char>| #[trigger] l2.balance_of(b) == l0.balance_of(b) by {
        if b != a {
            assert(l1.balance_of(b) == l0.balance_of(b));
        }
    }
}

} // verus!
