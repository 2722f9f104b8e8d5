use vstd::prelude::*;

verus! {

/// One account of the ledger and its balance in minor units.
pub struct Account {
    pub id: String,
    pub balance: u128,
}

/// The balance recorded for `a` in `s`: the last entry with that id, 0 if none.
pub open spec fn lookup(s: Seq<Account>, a: Seq<char>) -> nat
    decreases s.len(),
{
    if s.len() == 0 {
        0
    } else if s.last().id@ == a {
        s.last().balance as nat
    } else {
        lookup(s.drop_last(), a)
    }
}

/// The sum of all balances in `s`.
pub open spec fn sum(s: Seq<Account>) -> nat
    decreases s.len(),
{
    if s.len() == 0 {
        0
    } else {
        sum(s.drop_last()) + s.last().balance as nat
    }
}

/// No two entries of `s` belong to the same account.
pub open spec fn unique_ids(s: Seq<Account>) -> bool {
    forall|i: int, j: int| 0 <= i < j < s.len() ==> s[i].id@ != s[j].id@
}

/// No entry of `s` belongs to `a`.
pub open spec fn absent(s: Seq<Account>, a: Seq<char>) -> bool {
    forall|i: int| 0 <= i < s.len() ==> s[i].id@ != a
}

pub proof fn lemma_lookup_at(s: Seq<Account>, i: int)
    requires
        unique_ids(s),
        0 <= i < s.len(),
    ensures
        lookup(s, s[i].id@) == s[i].balance,
    decreases s.len(),
{
    if i != s.len() - 1 {
        assert(s.drop_last()[i] == s[i]);
        lemma_lookup_at(s.drop_last(), i);
    }
}

pub proof fn lemma_lookup_absent(s: Seq<Account>, a: Seq<char>)
    requires
        absent(s, a),
    ensures
        lookup(s, a) == 0,
    decreases s.len(),
{
    if s.len() > 0 {
        lemma_lookup_absent(s.drop_last(), a);
    }
}

pub proof fn lemma_lookup_le_sum(s: Seq<Account>, a: Seq<char>)
    ensures
        lookup(s, a) <= sum(s),
    decreases s.len(),
{
    if s.len() > 0 {
        lemma_lookup_le_sum(s.drop_last(), a);
    }
}

pub proof fn lemma_push(s: Seq<Account>, e: Account, b: Seq<char>)
    ensures
        lookup(s.push(e), b) == (if b == e.id@ { e.balance as nat } else { lookup(s, b) }),
        sum(s.push(e)) == sum(s) + e.balance,
{
    assert(s.push(e).drop_last() =~= s);
}

pub proof fn lemma_update(s: Seq<Account>, i: int, e: Account, b: Seq<char>)
    requires
        unique_ids(s),
        0 <= i < s.len(),
        s[i].id@ == e.id@,
    ensures
        lookup(s.update(i, e), b) == (if b == e.id@ { e.balance as nat } else { lookup(s, b) }),
        sum(s.update(i, e)) == sum(s) - s[i].balance + e.balance,
        unique_ids(s.update(i, e)),
    decreases s.len(),
{
    let t = s.update(i, e);
    if i == s.len() - 1 {
        assert(t.drop_last() =~= s.drop_last());
    } else {
        assert(t.drop_last() =~= s.drop_last().update(i, e));
        lemma_update(s.drop_last(), i, e, b);
    }
    assert forall|p: int, q: int| 0 <= p < q < t.len() implies t[p].id@ != t[q].id@ by {
        assert(s[p].id@ != s[q].id@);
    }
}

pub proof fn lemma_sum_prefix(s: Seq<Account>, i: int)
    requires
        0 <= i <= s.len(),
    ensures
        sum(s.subrange(0, i)) <= sum(s),
    decreases s.len(),
{
    if i == s.len() {
        assert(s.subrange(0, i) =~= s);
    } else {
        assert(s.drop_last().subrange(0, i) =~= s.subrange(0, i));
        lemma_sum_prefix(s.drop_last(), i);
    }
}

} // verus!
