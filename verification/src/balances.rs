use vstd::prelude::*;
use crate::transaction::{Transaction, TransactionView};
use crate::blockchain::TRANSACTION_FEE;

verus! {

/// The derived address-to-balance projection. It is an association list
/// with the first entry for an address authoritative; entries are only
/// ever written through `set`, which replaces the first match.
pub struct BalanceTable {
    entries: Vec<(String, u64)>,
}

/// The view of a plain entry list, used to relate exported entry vectors to
/// a table's own view.
pub open spec fn pairs_view(entries: Seq<(String, u64)>) -> Seq<(Seq<char>, u64)> {
    entries.map_values(|e: (String, u64)| (e.0@, e.1))
}

impl View for BalanceTable {
    type V = Seq<(Seq<char>, u64)>;

    closed spec fn view(&self) -> Seq<(Seq<char>, u64)> {
        pairs_view(self.entries@)
    }
}

/// The balance entry recorded for an address, if any: the first entry wins.
pub open spec fn spec_lookup(s: Seq<(Seq<char>, u64)>, a: Seq<char>) -> Option<u64>
    decreases s.len(),
{
    if s.len() == 0 {
        None
    } else if s[0].0 == a {
        Some(s[0].1)
    } else {
        spec_lookup(s.drop_first(), a)
    }
}

/// The balance of an address: an absent address holds zero.
pub open spec fn spec_balance(s: Seq<(Seq<char>, u64)>, a: Seq<char>) -> u64 {
    match spec_lookup(s, a) {
        Some(v) => v,
        None => 0,
    }
}

/// The table after recording `v` for `a`: the first entry for `a` is
/// replaced, or a new entry appended.
pub open spec fn spec_set(s: Seq<(Seq<char>, u64)>, a: Seq<char>, v: u64) -> Seq<
    (Seq<char>, u64),
>
    decreases s.len(),
{
    if s.len() == 0 {
        seq![(a, v)]
    } else if s[0].0 == a {
        seq![(a, v)] + s.drop_first()
    } else {
        seq![s[0]] + spec_set(s.drop_first(), a, v)
    }
}

/// The sum of all recorded balances.
pub open spec fn spec_sum(s: Seq<(Seq<char>, u64)>) -> int
    decreases s.len(),
{
    if s.len() == 0 {
        0
    } else {
        s[0].1 + spec_sum(s.drop_first())
    }
}

proof fn lemma_lookup_cons(x: (Seq<char>, u64), rest: Seq<(Seq<char>, u64)>, a: Seq<char>)
    ensures
        spec_lookup(seq![x] + rest, a) == if x.0 == a {
            Some(x.1)
        } else {
            spec_lookup(rest, a)
        },
{
    let s = seq![x] + rest;
    assert(s[0] == x);
    assert(s.drop_first() =~= rest);
}

proof fn lemma_sum_cons(x: (Seq<char>, u64), rest: Seq<(Seq<char>, u64)>)
    ensures
        spec_sum(seq![x] + rest) == x.1 + spec_sum(rest),
{
    let s = seq![x] + rest;
    assert(s[0] == x);
    assert(s.drop_first() =~= rest);
}

/// `set` records exactly the asked-for balance and touches no other
/// address.
pub proof fn lemma_set_lookup(s: Seq<(Seq<char>, u64)>, a: Seq<char>, v: u64, b: Seq<char>)
    ensures
        spec_lookup(spec_set(s, a, v), a) == Some(v),
        b != a ==> spec_lookup(spec_set(s, a, v), b) == spec_lookup(s, b),
    decreases s.len(),
{
    if s.len() == 0 {
        lemma_lookup_cons((a, v), Seq::empty(), a);
        lemma_lookup_cons((a, v), Seq::empty(), b);
        assert(seq![(a, v)] + Seq::<(Seq<char>, u64)>::empty() =~= seq![(a, v)]);
    } else if s[0].0 == a {
        lemma_lookup_cons((a, v), s.drop_first(), a);
        lemma_lookup_cons((a, v), s.drop_first(), b);
    } else {
        lemma_set_lookup(s.drop_first(), a, v, b);
        lemma_lookup_cons(s[0], spec_set(s.drop_first(), a, v), a);
        lemma_lookup_cons(s[0], spec_set(s.drop_first(), a, v), b);
    }
}

/// `set` changes the sum of balances by exactly the difference between the
/// new and the old balance of the address.
pub proof fn lemma_set_sum(s: Seq<(Seq<char>, u64)>, a: Seq<char>, v: u64)
    ensures
        spec_sum(spec_set(s, a, v)) == spec_sum(s) + v - spec_balance(s, a),
    decreases s.len(),
{
    if s.len() == 0 {
        lemma_sum_cons((a, v), Seq::empty());
        assert(seq![(a, v)] + Seq::<(Seq<char>, u64)>::empty() =~= seq![(a, v)]);
    } else if s[0].0 == a {
        lemma_sum_cons((a, v), s.drop_first());
    } else {
        lemma_set_sum(s.drop_first(), a, v);
        lemma_sum_cons(s[0], spec_set(s.drop_first(), a, v));
    }
}

proof fn lemma_spec_set_update(s: Seq<(Seq<char>, u64)>, i: int, a: Seq<char>, v: u64)
    requires
        0 <= i < s.len(),
        s[i].0 == a,
        forall|j: int| 0 <= j < i ==> (#[trigger] s[j]).0 != a,
    ensures
        spec_set(s, a, v) == s.update(i, (a, v)),
    decreases i,
{
    if i == 0 {
        assert(seq![(a, v)] + s.drop_first() =~= s.update(0, (a, v)));
    } else {
        assert(s.drop_first()[i - 1].0 == a);
        assert(forall|j: int|
            0 <= j < i - 1 ==> (#[trigger] s.drop_first()[j]).0 == s[j + 1].0 && s[j + 1].0 != a);
        lemma_spec_set_update(s.drop_first(), i - 1, a, v);
        assert(seq![s[0]] + s.drop_first().update(i - 1, (a, v)) =~= s.update(i, (a, v)));
    }
}

proof fn lemma_spec_set_push(s: Seq<(Seq<char>, u64)>, a: Seq<char>, v: u64)
    requires
        forall|j: int| 0 <= j < s.len() ==> (#[trigger] s[j]).0 != a,
    ensures
        spec_set(s, a, v) == s.push((a, v)),
    decreases s.len(),
{
    if s.len() == 0 {
        assert(seq![(a, v)] =~= s.push((a, v)));
    } else {
        assert(forall|j: int|
            0 <= j < s.drop_first().len() ==> (#[trigger] s.drop_first()[j]).0 == s[j + 1].0
                && s[j + 1].0 != a);
        lemma_spec_set_push(s.drop_first(), a, v);
        assert(seq![s[0]] + s.drop_first().push((a, v)) =~= s.push((a, v)));
    }
}

impl BalanceTable {
    /// An empty projection: every address holds zero.
    pub fn new() -> (r: BalanceTable)
        ensures
            r@ == Seq::<(Seq<char>, u64)>::empty(),
    {
        let r = BalanceTable { entries: Vec::new() };
        proof {
            assert(r@ =~= Seq::<(Seq<char>, u64)>::empty());
        }
        r
    }

    /// The recorded balance of `address`; an absent address yields zero.
    pub fn get(&self, address: &str) -> (r: u64)
        ensures
            r == spec_balance(self@, address@),
    {
        let key: String = address.to_owned();
        proof {
            assert(self@.skip(0) =~= self@);
        }
        let mut i: usize = 0;
        while i < self.entries.len()
            invariant
                i <= self.entries.len(),
                key@ == address@,
                self@.len() == self.entries@.len(),
                spec_lookup(self@, address@) == spec_lookup(self@.skip(i as int), address@),
            decreases self.entries.len() - i,
        {
            proof {
                assert(self@.skip(i as int)[0] == self@[i as int]);
                assert(self@.skip(i as int).drop_first() =~= self@.skip(i + 1));
            }
            if self.entries[i].0 == key {
                return self.entries[i].1;
            }
            i = i + 1;
        }
        proof {
            assert(self@.skip(self.entries@.len() as int) =~= Seq::<(Seq<char>, u64)>::empty());
        }
        0
    }

    /// Records `value` for `address`, replacing the first entry for it or
    /// appending a new one.
    pub fn set(&mut self, address: &str, value: u64)
        ensures
            final(self)@ == spec_set(old(self)@, address@, value),
    {
        let key: String = address.to_owned();
        let mut i: usize = 0;
        while i < self.entries.len()
            invariant
                i <= self.entries.len(),
                key@ == address@,
                self@ == old(self)@,
                self@.len() == self.entries@.len(),
                forall|j: int| 0 <= j < i ==> (#[trigger] self@[j]).0 != address@,
            decreases self.entries.len() - i,
        {
            if self.entries[i].0 == key {
                let ghost pre = self@;
                self.entries.remove(i);
                self.entries.insert(i, (key, value));
                proof {
                    assert(self@ =~= pre.update(i as int, (address@, value)));
                    lemma_spec_set_update(pre, i as int, address@, value);
                }
                return ;
            }
            i = i + 1;
        }
        let ghost pre = self@;
        self.entries.push((key, value));
        proof {
            assert(self@ =~= pre.push((address@, value)));
            lemma_spec_set_push(pre, address@, value);
        }
    }

    /// A copy of the table with the same content.
    pub fn clone_table(&self) -> (r: BalanceTable)
        ensures
            r@ == self@,
    {
        let mut entries: Vec<(String, u64)> = Vec::new();
        let mut i: usize = 0;
        while i < self.entries.len()
            invariant
                i <= self.entries.len(),
                entries@ =~= self.entries@.take(i as int),
            decreases self.entries.len() - i,
        {
            let e = (self.entries[i].0.clone(), self.entries[i].1);
            entries.push(e);
            i = i + 1;
        }
        proof {
            assert(entries@ =~= self.entries@);
        }
        let r = BalanceTable { entries };
        proof {
            assert(r@ =~= self@);
        }
        r
    }

    /// The recorded entries as a plain vector of address and balance pairs.
    pub fn to_entries(&self) -> (r: Vec<(String, u64)>)
        ensures
            pairs_view(r@) == self@,
    {
        let copy = self.clone_table();
        copy.entries
    }
}

// ---------------------------------------------------------------------------
// Applying transactions to the projection.
// ---------------------------------------------------------------------------
/// The effect of one transaction: a minted transaction credits its
/// recipient; any other moves `amount` to the recipient and debits the
/// sender `amount` plus the fixed fee, which the miner collects through the
/// reward transaction. A transfer that would drive a balance below zero or
/// above the representable range applies to nothing.
pub open spec fn spec_apply_tx(s: Seq<(Seq<char>, u64)>, t: TransactionView) -> Option<
    Seq<(Seq<char>, u64)>,
> {
    if t.from == crate::transaction::spec_network() {
        if spec_balance(s, t.to) + t.amount > u64::MAX {
            None
        } else {
            Some(spec_set(s, t.to, (spec_balance(s, t.to) + t.amount) as u64))
        }
    } else {
        if spec_balance(s, t.from) < t.amount + TRANSACTION_FEE {
            None
        } else {
            let s1 = spec_set(
                s,
                t.from,
                (spec_balance(s, t.from) - t.amount - TRANSACTION_FEE) as u64,
            );
            if spec_balance(s1, t.to) + t.amount > u64::MAX {
                None
            } else {
                Some(spec_set(s1, t.to, (spec_balance(s1, t.to) + t.amount) as u64))
            }
        }
    }
}

/// The effect of a block's transactions, applied in order; one failing
/// transfer fails the whole block.
pub open spec fn spec_apply_txs(s: Seq<(Seq<char>, u64)>, ts: Seq<TransactionView>) -> Option<
    Seq<(Seq<char>, u64)>,
>
    decreases ts.len(),
{
    if ts.len() == 0 {
        Some(s)
    } else {
        match spec_apply_tx(s, ts[0]) {
            Some(s2) => spec_apply_txs(s2, ts.drop_first()),
            None => None,
        }
    }
}

/// What one transaction adds to the sum of all balances: minted value for a
/// network transaction, minus the fee for any other (the moved amount
/// cancels out).
pub open spec fn spec_tx_net(t: TransactionView) -> int {
    if t.from == crate::transaction::spec_network() {
        t.amount as int
    } else {
        -(TRANSACTION_FEE as int)
    }
}

pub open spec fn spec_txs_net(ts: Seq<TransactionView>) -> int
    decreases ts.len(),
{
    if ts.len() == 0 {
        0
    } else {
        spec_tx_net(ts[0]) + spec_txs_net(ts.drop_first())
    }
}

/// Applying one transaction changes the sum of all balances by exactly its
/// net effect.
pub proof fn lemma_apply_tx_sum(s: Seq<(Seq<char>, u64)>, t: TransactionView)
    requires
        spec_apply_tx(s, t) is Some,
    ensures
        spec_sum(spec_apply_tx(s, t)->Some_0) == spec_sum(s) + spec_tx_net(t),
{
    if t.from == crate::transaction::spec_network() {
        lemma_set_sum(s, t.to, (spec_balance(s, t.to) + t.amount) as u64);
    } else {
        let debited = (spec_balance(s, t.from) - t.amount - TRANSACTION_FEE) as u64;
        let s1 = spec_set(s, t.from, debited);
        lemma_set_sum(s, t.from, debited);
        lemma_set_sum(s1, t.to, (spec_balance(s1, t.to) + t.amount) as u64);
    }
}

/// Applying a list of transactions changes the sum of all balances by the
/// sum of their net effects.
pub proof fn lemma_apply_txs_sum(s: Seq<(Seq<char>, u64)>, ts: Seq<TransactionView>)
    requires
        spec_apply_txs(s, ts) is Some,
    ensures
        spec_sum(spec_apply_txs(s, ts)->Some_0) == spec_sum(s) + spec_txs_net(ts),
    decreases ts.len(),
{
    if ts.len() == 0 {
    } else {
        lemma_apply_tx_sum(s, ts[0]);
        lemma_apply_txs_sum(spec_apply_tx(s, ts[0])->Some_0, ts.drop_first());
    }
}

/// Applies one transaction to the table; `false` reports a transfer that
/// does not apply, and the table is then only good for discarding.
fn apply_tx_step(table: &mut BalanceTable, t: &Transaction) -> (r: bool)
    ensures
        r == (spec_apply_tx(old(table)@, t@) is Some),
        r ==> final(table)@ == spec_apply_tx(old(table)@, t@)->Some_0,
{
    let network: String = crate::transaction::network_address();
    if t.from == network {
        let bal = table.get(t.to.as_str());
        if bal > u64::MAX - t.amount {
            return false;
        }
        table.set(t.to.as_str(), bal + t.amount);
        true
    } else {
        let bal = table.get(t.from.as_str());
        if bal < t.amount {
            return false;
        }
        if bal - t.amount < TRANSACTION_FEE {
            return false;
        }
        table.set(t.from.as_str(), bal - t.amount - TRANSACTION_FEE);
        let bal2 = table.get(t.to.as_str());
        if bal2 > u64::MAX - t.amount {
            return false;
        }
        table.set(t.to.as_str(), bal2 + t.amount);
        true
    }
}

/// Applies a block's transactions to a copy of the table: the given table
/// is untouched, and nothing is returned if any transfer does not apply.
pub fn apply_txs(table: &BalanceTable, txs: &Vec<Transaction>) -> (r: Option<BalanceTable>)
    ensures
        match r {
            Some(t2) => spec_apply_txs(table@, txs.deep_view()) == Some(t2@),
            None => spec_apply_txs(table@, txs.deep_view()) is None,
        },
{
    let mut cur = table.clone_table();
    proof {
        assert(txs.deep_view().skip(0) =~= txs.deep_view());
    }
    let mut i: usize = 0;
    while i < txs.len()
        invariant
            i <= txs.len(),
            txs.deep_view().len() == txs@.len(),
            spec_apply_txs(table@, txs.deep_view()) == spec_apply_txs(
                cur@,
                txs.deep_view().skip(i as int),
            ),
        decreases txs.len() - i,
    {
        proof {
            let views = txs.deep_view();
            let rest = views.skip(i as int);
            assert(rest[0] == views[i as int]);
            assert(rest.drop_first() =~= views.skip(i + 1));
        }
        let ok = apply_tx_step(&mut cur, &txs[i]);
        if !ok {
            return None;
        }
        i = i + 1;
    }
    proof {
        assert(txs.deep_view().skip(txs@.len() as int) =~= Seq::<TransactionView>::empty());
    }
    Some(cur)
}

} // verus!
