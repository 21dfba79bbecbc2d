use vstd::prelude::*;
use crate::block::tx_views;
use crate::error::McError;
use crate::transaction::{tx_hash, Transaction, TxView};

verus! {

/// The keys and transactions of a list of entries.
pub open spec fn entry_views(s: Seq<(crate::hash::Hash, Transaction)>) -> Seq<(Seq<u8>, TxView)> {
    s.map_values(|e: (crate::hash::Hash, Transaction)| (e.0@, e.1@))
}

/// `k` is the key of some entry.
pub open spec fn has_key(s: Seq<(Seq<u8>, TxView)>, k: Seq<u8>) -> bool {
    exists|i: int| 0 <= i < s.len() && (#[trigger] s[i]).0 == k
}

/// No two entries share a key.
pub open spec fn keys_unique(s: Seq<(Seq<u8>, TxView)>) -> bool {
    forall|i: int, j: int| 0 <= i < s.len() && 0 <= j < s.len() && i != j ==> (#[trigger] s[i]).0 != (#[trigger] s[j]).0
}

/// The entries with `(k, t)` put in: in place of the entry of key `k` if
/// there is one, else at the end.
pub open spec fn upsert(s: Seq<(Seq<u8>, TxView)>, k: Seq<u8>, t: TxView) -> Seq<(Seq<u8>, TxView)> {
    if has_key(s, k) {
        s.update(choose|i: int| 0 <= i < s.len() && (#[trigger] s[i]).0 == k, (k, t))
    } else {
        s.push((k, t))
    }
}

/// `t` placed after every entry whose first-seen time is not later than its own,
/// counting from the end.
pub open spec fn insert_by_seen(s: Seq<TxView>, t: TxView) -> Seq<TxView>
    decreases s.len(),
{
    if s.len() == 0 {
        seq![t]
    } else if s.last().first_seen <= t.first_seen {
        s.push(t)
    } else {
        insert_by_seen(s.drop_last(), t).push(s.last())
    }
}

/// A stable sort by first-seen time: equal times keep their order.
pub open spec fn sort_by_seen(s: Seq<TxView>) -> Seq<TxView>
    decreases s.len(),
{
    if s.len() == 0 {
        Seq::empty()
    } else {
        insert_by_seen(sort_by_seen(s.drop_last()), s.last())
    }
}

/// First-seen times do not decrease along `s`.
pub open spec fn seen_sorted(s: Seq<TxView>) -> bool {
    forall|i: int, j: int| 0 <= i <= j < s.len() ==> (#[trigger] s[i]).first_seen <= (#[trigger] s[j]).first_seen
}

/// The transactions of a list of entries, in order.
pub open spec fn values(s: Seq<(Seq<u8>, TxView)>) -> Seq<TxView> {
    s.map_values(|e: (Seq<u8>, TxView)| e.1)
}

/// The pool of transactions: every one admitted, and those not yet sealed
/// into a block, each under its hash and in order of admission.
#[derive(Clone, Debug)]
pub struct TxPool {
    all_txs: Vec<(crate::hash::Hash, Transaction)>,
    pending_txs: Vec<(crate::hash::Hash, Transaction)>,
}

impl TxPool {
    pub closed spec fn all(&self) -> Seq<(Seq<u8>, TxView)> {
        entry_views(self.all_txs@)
    }

    pub closed spec fn pending_entries(&self) -> Seq<(Seq<u8>, TxView)> {
        entry_views(self.pending_txs@)
    }

    /// Keys are unique and are the hashes of their transactions, and every
    /// pending key is among all keys.
    pub open spec fn wf(&self) -> bool {
        &&& keys_unique(self.all())
        &&& keys_unique(self.pending_entries())
        &&& forall|i: int| 0 <= i < self.all().len() ==> (#[trigger] self.all()[i]).0 == tx_hash(self.all()[i].1)
        &&& forall|i: int| 0 <= i < self.pending_entries().len() ==> (#[trigger] self.pending_entries()[i]).0 == tx_hash(self.pending_entries()[i].1)
        &&& forall|i: int| 0 <= i < self.pending_entries().len() ==> has_key(self.all(), (#[trigger] self.pending_entries()[i]).0)
    }

    pub fn new() -> (r: TxPool)
        ensures
            r.wf(),
            r.all().len() == 0,
            r.pending_entries().len() == 0,
    {
        TxPool { all_txs: Vec::new(), pending_txs: Vec::new() }
    }

    /// The number of transactions ever admitted.
    pub fn len(&self) -> (r: usize)
        ensures
            r == self.all().len(),
    {
        self.all_txs.len()
    }

    /// Whether a transaction of this hash was ever admitted.
    pub fn has_tx(&self, tx_hash: &crate::hash::Hash) -> (r: bool)
        ensures
            r == has_key(self.all(), tx_hash@),
    {
        find(&self.all_txs, tx_hash).is_some()
    }

    /// Puts `tx` under its hash into all transactions and into the pending ones.
    pub fn add_tx(&mut self, tx: Transaction)
        requires
            old(self).wf(),
        ensures
            final(self).wf(),
            final(self).all() == upsert(old(self).all(), tx_hash(tx@), tx@),
            final(self).pending_entries() == upsert(old(self).pending_entries(), tx_hash(tx@), tx@),
    {
        let h = tx.hash();
        let copy = tx.duplicate();
        let ghost old_all = self.all();
        let ghost old_pending = self.pending_entries();
        upsert_entry(&mut self.all_txs, h, copy);
        upsert_entry(&mut self.pending_txs, h, tx);
        proof {
            assert forall|i: int| 0 <= i < self.pending_entries().len() implies has_key(self.all(), (#[trigger] self.pending_entries()[i]).0) by {
                let k = self.pending_entries()[i].0;
                if k == h@ {
                    lemma_upsert_has(old_all, h@, tx@);
                } else {
                    lemma_upsert_keeps(old_pending, h@, tx@, k);
                    lemma_upsert_keeps(old_all, h@, tx@, k);
                }
            }
        }
    }

    /// The pending transactions ordered by first-seen time, ties in order of
    /// admission; an error if any was never timestamped.
    pub fn pending(&self) -> (r: Result<Vec<Transaction>, McError>)
        ensures
            (exists|i: int| 0 <= i < self.pending_entries().len() && (#[trigger] self.pending_entries()[i]).1.first_seen == 0)
                ==> r == Err::<Vec<Transaction>, McError>(McError::MempoolUntimed),
            (forall|i: int| 0 <= i < self.pending_entries().len() ==> (#[trigger] self.pending_entries()[i]).1.first_seen != 0)
                ==> (r matches Ok(v) && tx_views(v@) == sort_by_seen(values(self.pending_entries()))),
            r matches Ok(v) ==> seen_sorted(tx_views(v@)) && v@.len() == self.pending_entries().len(),
    {
        let mut out: Vec<Transaction> = Vec::new();
        let mut i: usize = 0;
        while i < self.pending_txs.len()
            invariant
                i <= self.pending_txs@.len(),
                tx_views(out@) == sort_by_seen(values(self.pending_entries()).take(i as int)),
                forall|j: int| 0 <= j < i ==> (#[trigger] self.pending_entries()[j]).1.first_seen != 0,
            decreases self.pending_txs@.len() - i,
        {
            let t = &self.pending_txs[i].1;
            assert(self.pending_entries()[i as int].1 == t@);
            if t.first_seen() == 0 {
                return Err(McError::MempoolUntimed);
            }
            let ghost before = tx_views(out@);
            insert_sorted(&mut out, t.duplicate());
            proof {
                let pre = values(self.pending_entries()).take(i + 1);
                assert(pre.drop_last() =~= values(self.pending_entries()).take(i as int));
                assert(pre.last() == t@);
            }
            i += 1;
        }
        assert(values(self.pending_entries()).take(i as int) =~= values(self.pending_entries()));
        proof {
            lemma_sort_by_seen_sorted(values(self.pending_entries()));
        }
        Ok(out)
    }

    /// Forgets the pending transactions; all admitted ones stay known.
    pub fn clear_pending(&mut self)
        requires
            old(self).wf(),
        ensures
            final(self).wf(),
            final(self).all() == old(self).all(),
            final(self).pending_entries().len() == 0,
    {
        self.pending_txs = Vec::new();
        assert(self.pending_entries() =~= Seq::<(Seq<u8>, TxView)>::empty());
    }
}

/// The index of the entry of key `k`, if any.
fn find(s: &Vec<(crate::hash::Hash, Transaction)>, k: &crate::hash::Hash) -> (r: Option<usize>)
    ensures
        r matches Some(i) ==> i < s@.len() && entry_views(s@)[i as int].0 == k@,
        r is None <==> !has_key(entry_views(s@), k@),
{
    let mut i: usize = 0;
    while i < s.len()
        invariant
            i <= s@.len(),
            forall|j: int| 0 <= j < i ==> (#[trigger] entry_views(s@)[j]).0 != k@,
        decreases s@.len() - i,
    {
        let same = s[i].0.same_as(k);
        proof {
            crate::hash::Hash::lemma_view_injective(s@[i as int].0, *k);
        }
        if same {
            assert(entry_views(s@)[i as int].0 == k@);
            return Some(i);
        }
        i += 1;
    }
    None
}

proof fn lemma_upsert_has(s: Seq<(Seq<u8>, TxView)>, k: Seq<u8>, t: TxView)
    ensures
        has_key(upsert(s, k, t), k),
{
    if has_key(s, k) {
        let i = choose|i: int| 0 <= i < s.len() && (#[trigger] s[i]).0 == k;
        assert(upsert(s, k, t)[i].0 == k);
    } else {
        assert(upsert(s, k, t)[s.len() as int].0 == k);
    }
}

proof fn lemma_upsert_keeps(s: Seq<(Seq<u8>, TxView)>, k: Seq<u8>, t: TxView, other: Seq<u8>)
    requires
        other != k,
    ensures
        has_key(upsert(s, k, t), other) == has_key(s, other),
{
    let u = upsert(s, k, t);
    if has_key(s, other) {
        let j = choose|j: int| 0 <= j < s.len() && (#[trigger] s[j]).0 == other;
        assert(u[j].0 == other);
    }
    if has_key(u, other) {
        let j = choose|j: int| 0 <= j < u.len() && (#[trigger] u[j]).0 == other;
        assert(s[j].0 == other);
    }
}

/// Puts `(k, t)` into a list of entries with unique keys that are the hashes
/// of their transactions.
fn upsert_entry(s: &mut Vec<(crate::hash::Hash, Transaction)>, k: crate::hash::Hash, t: Transaction)
    requires
        keys_unique(entry_views(old(s)@)),
        forall|i: int| 0 <= i < old(s)@.len() ==> (#[trigger] entry_views(old(s)@)[i]).0 == tx_hash(entry_views(old(s)@)[i].1),
        k@ == tx_hash(t@),
    ensures
        keys_unique(entry_views(final(s)@)),
        forall|i: int| 0 <= i < final(s)@.len() ==> (#[trigger] entry_views(final(s)@)[i]).0 == tx_hash(entry_views(final(s)@)[i].1),
        entry_views(final(s)@) == upsert(entry_views(old(s)@), k@, t@),
{
    let ghost before = entry_views(s@);
    match find(s, &k) {
        Some(i) => {
            proof {
                let c = choose|j: int| 0 <= j < before.len() && (#[trigger] before[j]).0 == k@;
                assert(before[i as int].0 == k@);
                assert(c == i);
            }
            s.set(i, (k, t));
            assert(entry_views(s@) =~= before.update(i as int, (k@, t@)));
        },
        None => {
            s.push((k, t));
            assert(entry_views(s@) =~= before.push((k@, t@)));
        },
    }
}

/// Where `t` goes: just after the last entry whose time is not later than its own.
proof fn lemma_insert_at(s: Seq<TxView>, t: TxView, j: int)
    requires
        0 <= j <= s.len(),
        forall|i: int| j <= i < s.len() ==> (#[trigger] s[i]).first_seen > t.first_seen,
        j > 0 ==> s[j - 1].first_seen <= t.first_seen,
    ensures
        insert_by_seen(s, t) == s.insert(j, t),
    decreases s.len(),
{
    if s.len() == 0 {
        assert(s.insert(j, t) =~= seq![t]);
    } else if j == s.len() {
        assert(s.insert(j, t) =~= s.push(t));
    } else {
        lemma_insert_at(s.drop_last(), t, j);
        assert(s.drop_last().insert(j, t).push(s.last()) =~= s.insert(j, t));
    }
}

/// Inserts `t` into a list sorted by first-seen time, after the equal ones.
fn insert_sorted(v: &mut Vec<Transaction>, t: Transaction)
    ensures
        tx_views(final(v)@) == insert_by_seen(tx_views(old(v)@), t@),
{
    let mut j: usize = v.len();
    while j > 0 && v[j - 1].first_seen > t.first_seen
        invariant
            j <= v@.len(),
            forall|i: int| j <= i < v@.len() ==> (#[trigger] tx_views(v@)[i]).first_seen > t@.first_seen,
        decreases j,
    {
        j -= 1;
    }
    proof {
        lemma_insert_at(tx_views(v@), t@, j as int);
    }
    let ghost before = v@;
    v.insert(j, t);
    assert(tx_views(v@) =~= tx_views(before).insert(j as int, t@));
}

/// The stable sort by first-seen time orders its result by first-seen time.
pub proof fn lemma_sort_by_seen_sorted(s: Seq<TxView>)
    ensures
        seen_sorted(sort_by_seen(s)),
        sort_by_seen(s).len() == s.len(),
    decreases s.len(),
{
    if s.len() > 0 {
        lemma_sort_by_seen_sorted(s.drop_last());
        lemma_insert_keeps_sorted(sort_by_seen(s.drop_last()), s.last());
    }
}

proof fn lemma_insert_keeps_sorted(s: Seq<TxView>, t: TxView)
    requires
        seen_sorted(s),
    ensures
        seen_sorted(insert_by_seen(s, t)),
        insert_by_seen(s, t).len() == s.len() + 1,
        forall|i: int| 0 <= i < insert_by_seen(s, t).len() ==> (#[trigger] insert_by_seen(s, t)[i]).first_seen
            <= if s.len() > 0 && s.last().first_seen > t.first_seen { s.last().first_seen } else { t.first_seen },
    decreases s.len(),
{
    if s.len() == 0 {
    } else if s.last().first_seen <= t.first_seen {
    } else {
        let d = s.drop_last();
        assert(seen_sorted(d));
        lemma_insert_keeps_sorted(d, t);
        let r = insert_by_seen(d, t);
        assert forall|i: int| 0 <= i < r.len() implies (#[trigger] r[i]).first_seen <= s.last().first_seen by {
            if d.len() > 0 && d.last().first_seen > t.first_seen {
                assert(d.last() == s[s.len() - 2]);
            }
        }
    }
}

proof fn lemma_insert_by_seen_multiset(s: Seq<TxView>, t: TxView)
    ensures
        insert_by_seen(s, t).to_multiset() == s.to_multiset().insert(t),
    decreases s.len(),
{
    broadcast use vstd::seq_lib::group_to_multiset_ensures;
    if s.len() == 0 {
        assert(seq![t] =~= Seq::<TxView>::empty().push(t));
    } else if s.last().first_seen <= t.first_seen {
    } else {
        lemma_insert_by_seen_multiset(s.drop_last(), t);
        assert(s =~= s.drop_last().push(s.last()));
        assert(s.drop_last().to_multiset().insert(t).insert(s.last()) =~= s.drop_last().to_multiset().insert(
            s.last(),
        ).insert(t));
    }
}

/// The stable sort by first-seen time only reorders: it holds the same
/// transactions, each as many times.
pub proof fn lemma_sort_by_seen_permutes(s: Seq<TxView>)
    ensures
        sort_by_seen(s).to_multiset() == s.to_multiset(),
        forall|t: TxView| #[trigger] sort_by_seen(s).contains(t) <==> s.contains(t),
    decreases s.len(),
{
    broadcast use vstd::seq_lib::group_to_multiset_ensures;
    if s.len() > 0 {
        lemma_sort_by_seen_permutes(s.drop_last());
        lemma_insert_by_seen_multiset(sort_by_seen(s.drop_last()), s.last());
        assert(s =~= s.drop_last().push(s.last()));
    } else {
        assert(sort_by_seen(s).to_multiset() =~= s.to_multiset());
    }
    assert forall|t: TxView| #[trigger] sort_by_seen(s).contains(t) <==> s.contains(t) by {
        assert(sort_by_seen(s).to_multiset().count(t) == s.to_multiset().count(t));
    }
}

} // verus!
