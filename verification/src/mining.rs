use vstd::prelude::*;

use crate::state::{share_no_input, spec_pool_disjoint};
use crate::transaction::{txs_view, Transaction, TxView};

verus! {

broadcast use vstd::seq_lib::group_seq_properties, vstd::multiset::group_multiset_axioms;

/// Whether the fees never fall along a sequence of transactions.
pub open spec fn fees_ascending(s: Seq<TxView>) -> bool {
    forall|i: int, j: int| 0 <= i < j < s.len() ==> #[trigger] s[i].fee <= #[trigger] s[j].fee
}

/// Whether the fees never rise along a sequence of transactions.
pub open spec fn fees_descending(s: Seq<TxView>) -> bool {
    forall|i: int, j: int| 0 <= i < j < s.len() ==> #[trigger] s[i].fee >= #[trigger] s[j].fee
}

/// Puts `t` into a list ordered by fee, after every entry whose fee is not
/// above its own.
pub open spec fn spec_insert_by_fee(sorted: Seq<TxView>, t: TxView) -> Seq<TxView>
    decreases sorted.len(),
{
    if sorted.len() == 0 {
        seq![t]
    } else if sorted.last().fee <= t.fee {
        sorted.push(t)
    } else {
        spec_insert_by_fee(sorted.drop_last(), t).push(sorted.last())
    }
}

/// The transactions ordered by fee, lowest first; those of equal fee keep
/// their order.
pub open spec fn spec_sort_by_fee(s: Seq<TxView>) -> Seq<TxView>
    decreases s.len(),
{
    if s.len() == 0 {
        Seq::empty()
    } else {
        spec_insert_by_fee(spec_sort_by_fee(s.drop_last()), s.last())
    }
}

/// The order in which pending transactions go into a block: by fee,
/// highest first; among equal fees, the later one first.
pub open spec fn spec_mining_order(s: Seq<TxView>) -> Seq<TxView> {
    spec_sort_by_fee(s).reverse()
}

proof fn lemma_insert_by_fee(sorted: Seq<TxView>, t: TxView)
    requires
        fees_ascending(sorted),
    ensures
        fees_ascending(spec_insert_by_fee(sorted, t)),
        spec_insert_by_fee(sorted, t).to_multiset() == sorted.to_multiset().insert(t),
        spec_insert_by_fee(sorted, t).len() == sorted.len() + 1,
        forall|i: int|
            0 <= i < spec_insert_by_fee(sorted, t).len() ==> #[trigger] spec_insert_by_fee(sorted, t)[i]
                == t || sorted.contains(spec_insert_by_fee(sorted, t)[i]),
    decreases sorted.len(),
{
    let r = spec_insert_by_fee(sorted, t);
    if sorted.len() == 0 {
        assert(r.to_multiset() =~= Seq::<TxView>::empty().push(t).to_multiset());
    } else if sorted.last().fee <= t.fee {
        assert forall|i: int, j: int| 0 <= i < j < r.len() implies #[trigger] r[i].fee <= #[trigger] r[j].fee by {
            if j == sorted.len() {
                assert(r[i] == sorted[i]);
                assert(sorted[i].fee <= sorted[sorted.len() - 1].fee);
            }
        }
        assert forall|i: int| 0 <= i < r.len() implies #[trigger] r[i] == t || sorted.contains(r[i]) by {
            if i < sorted.len() {
                assert(r[i] == sorted[i]);
            }
        }
    } else {
        let rest = sorted.drop_last();
        let last = sorted.last();
        assert(fees_ascending(rest));
        lemma_insert_by_fee(rest, t);
        let inner = spec_insert_by_fee(rest, t);
        assert(r == inner.push(last));
        assert forall|i: int| 0 <= i < inner.len() implies #[trigger] inner[i].fee <= last.fee by {
            if inner[i] != t {
                assert(rest.contains(inner[i]));
                let m = choose|m: int| 0 <= m < rest.len() && rest[m] == inner[i];
                assert(sorted[m] == rest[m]);
            }
        }
        assert forall|i: int, j: int| 0 <= i < j < r.len() implies #[trigger] r[i].fee <= #[trigger] r[j].fee by {
            assert(r[i] == inner[i]);
            if j == inner.len() {
                assert(inner[i].fee <= last.fee);
            } else {
                assert(r[j] == inner[j]);
            }
        }
        assert forall|i: int| 0 <= i < r.len() implies #[trigger] r[i] == t || sorted.contains(r[i]) by {
            if i < inner.len() {
                assert(r[i] == inner[i]);
                if inner[i] != t {
                    let m = choose|m: int| 0 <= m < rest.len() && rest[m] == inner[i];
                    assert(sorted[m] == rest[m]);
                }
            } else {
                assert(sorted[sorted.len() - 1] == last);
            }
        }
        assert(sorted =~= rest.push(last));
        assert(r.to_multiset() =~= sorted.to_multiset().insert(t));
    }
}

/// Ordering by fee keeps the transactions, all of them once, and orders
/// them.
pub proof fn lemma_sort_by_fee(s: Seq<TxView>)
    ensures
        fees_ascending(spec_sort_by_fee(s)),
        spec_sort_by_fee(s).to_multiset() == s.to_multiset(),
        spec_sort_by_fee(s).len() == s.len(),
    decreases s.len(),
{
    if s.len() == 0 {
        assert(spec_sort_by_fee(s).to_multiset() =~= s.to_multiset());
    } else {
        lemma_sort_by_fee(s.drop_last());
        lemma_insert_by_fee(spec_sort_by_fee(s.drop_last()), s.last());
        assert(s =~= s.drop_last().push(s.last()));
        assert(spec_sort_by_fee(s).to_multiset() =~= s.to_multiset());
    }
}

/// The mining order holds exactly the pending transactions, the highest
/// fee first.
pub proof fn lemma_mining_order(s: Seq<TxView>)
    ensures
        fees_descending(spec_mining_order(s)),
        spec_mining_order(s).to_multiset() == s.to_multiset(),
        spec_mining_order(s).len() == s.len(),
{
    lemma_sort_by_fee(s);
    let a = spec_sort_by_fee(s);
    a.lemma_reverse_to_multiset();
    let d = spec_mining_order(s);
    assert forall|i: int, j: int| 0 <= i < j < d.len() implies #[trigger] d[i].fee >= #[trigger] d[j].fee by {
        assert(d[i] == a[a.len() - 1 - i]);
        assert(d[j] == a[a.len() - 1 - j]);
    }
}

proof fn lemma_insert_keeps_disjoint(sorted: Seq<TxView>, t: TxView)
    requires
        fees_ascending(sorted),
        spec_pool_disjoint(sorted),
        forall|i: int| 0 <= i < sorted.len() ==> share_no_input(#[trigger] sorted[i], t),
    ensures
        spec_pool_disjoint(spec_insert_by_fee(sorted, t)),
    decreases sorted.len(),
{
    let r = spec_insert_by_fee(sorted, t);
    if sorted.len() == 0 {
    } else if sorted.last().fee <= t.fee {
        assert forall|i: int, j: int| 0 <= i < j < r.len() implies share_no_input(#[trigger] r[i], #[trigger] r[j]) by {
            assert(r[i] == sorted[i]);
            if j < sorted.len() {
                assert(r[j] == sorted[j]);
            }
        }
    } else {
        let rest = sorted.drop_last();
        let last = sorted.last();
        assert(fees_ascending(rest));
        assert(spec_pool_disjoint(rest)) by {
            assert forall|i: int, j: int| 0 <= i < j < rest.len() implies share_no_input(#[trigger] rest[i], #[trigger] rest[j]) by {
                assert(rest[i] == sorted[i]);
                assert(rest[j] == sorted[j]);
            }
        }
        assert forall|i: int| 0 <= i < rest.len() implies share_no_input(#[trigger] rest[i], t) by {
            assert(rest[i] == sorted[i]);
        }
        lemma_insert_keeps_disjoint(rest, t);
        lemma_insert_by_fee(rest, t);
        let inner = spec_insert_by_fee(rest, t);
        assert forall|i: int| 0 <= i < inner.len() implies share_no_input(#[trigger] inner[i], last) by {
            if inner[i] == t {
                assert(share_no_input(last, t));
            } else {
                assert(rest.contains(inner[i]));
                let m = choose|m: int| 0 <= m < rest.len() && rest[m] == inner[i];
                assert(sorted[m] == rest[m]);
                assert(share_no_input(sorted[m], sorted[sorted.len() - 1]));
            }
        }
        assert forall|i: int, j: int| 0 <= i < j < r.len() implies share_no_input(#[trigger] r[i], #[trigger] r[j]) by {
            assert(r[i] == inner[i]);
            if j < inner.len() {
                assert(r[j] == inner[j]);
            } else {
                assert(r[j] == last);
            }
        }
    }
}

proof fn lemma_sort_keeps_disjoint(s: Seq<TxView>)
    requires
        spec_pool_disjoint(s),
    ensures
        spec_pool_disjoint(spec_sort_by_fee(s)),
        forall|i: int| 0 <= i < spec_sort_by_fee(s).len() ==> s.contains(#[trigger] spec_sort_by_fee(s)[i]),
    decreases s.len(),
{
    if s.len() > 0 {
        let rest = s.drop_last();
        let last = s.last();
        assert(spec_pool_disjoint(rest)) by {
            assert forall|i: int, j: int| 0 <= i < j < rest.len() implies share_no_input(#[trigger] rest[i], #[trigger] rest[j]) by {
                assert(rest[i] == s[i]);
                assert(rest[j] == s[j]);
            }
        }
        lemma_sort_keeps_disjoint(rest);
        lemma_sort_by_fee(rest);
        let sr = spec_sort_by_fee(rest);
        assert forall|i: int| 0 <= i < sr.len() implies share_no_input(#[trigger] sr[i], last) by {
            let m = choose|m: int| 0 <= m < rest.len() && rest[m] == sr[i];
            assert(s[m] == rest[m]);
            assert(share_no_input(s[m], s[s.len() - 1]));
        }
        lemma_insert_keeps_disjoint(sr, last);
        lemma_insert_by_fee(sr, last);
        let r = spec_sort_by_fee(s);
        assert forall|i: int| 0 <= i < r.len() implies s.contains(#[trigger] r[i]) by {
            if r[i] == last {
                assert(s[s.len() - 1] == last);
            } else {
                assert(sr.contains(r[i]));
                let m = choose|m: int| 0 <= m < sr.len() && sr[m] == r[i];
                assert(rest.contains(sr[m]));
                let q = choose|q: int| 0 <= q < rest.len() && rest[q] == sr[m];
                assert(s[q] == rest[q]);
            }
        }
    }
}

/// Where no two pending transactions spend the same output, none do in
/// mining order either, nor in any stretch of it.
pub proof fn lemma_mining_order_disjoint(s: Seq<TxView>, lo: int, hi: int)
    requires
        spec_pool_disjoint(s),
        0 <= lo <= hi <= s.len(),
    ensures
        spec_pool_disjoint(spec_mining_order(s).subrange(lo, hi)),
{
    lemma_sort_keeps_disjoint(s);
    lemma_sort_by_fee(s);
    let a = spec_sort_by_fee(s);
    let d = spec_mining_order(s);
    let sub = d.subrange(lo, hi);
    assert forall|i: int, j: int| 0 <= i < j < sub.len() implies share_no_input(#[trigger] sub[i], #[trigger] sub[j]) by {
        assert(sub[i] == a[a.len() - 1 - (lo + i)]);
        assert(sub[j] == a[a.len() - 1 - (lo + j)]);
        assert(share_no_input(a[a.len() - 1 - (lo + j)], a[a.len() - 1 - (lo + i)]));
    }
}

/// Puts `t` into `asc`, which is ordered by fee, after every entry whose fee
/// is not above its own.
fn insert_by_fee(asc: &mut Vec<Transaction>, t: Transaction)
    ensures
        txs_view(final(asc)@) == spec_insert_by_fee(txs_view(old(asc)@), t@),
{
    let ghost s = txs_view(asc@);
    let mut j: usize = asc.len();
    proof {
        assert(s.take(j as int) =~= s);
        assert(spec_insert_by_fee(s, t@) =~= spec_insert_by_fee(s.take(j as int), t@) + s.skip(j as int));
    }
    while j > 0 && asc[j - 1].fee > t.fee
        invariant
            0 <= j <= s.len(),
            s == txs_view(asc@),
            spec_insert_by_fee(s, t@) == spec_insert_by_fee(s.take(j as int), t@) + s.skip(j as int),
        decreases j,
    {
        proof {
            let p = s.take(j as int);
            assert(p.last() == s[j - 1]);
            assert(p.drop_last() =~= s.take(j - 1));
            assert(s.skip(j - 1) =~= seq![s[j - 1]] + s.skip(j as int));
            assert(spec_insert_by_fee(p, t@) == spec_insert_by_fee(s.take(j - 1), t@).push(s[j - 1]));
            assert(spec_insert_by_fee(s.take(j - 1), t@).push(s[j - 1]) + s.skip(j as int)
                =~= spec_insert_by_fee(s.take(j - 1), t@) + s.skip(j - 1));
        }
        j = j - 1;
    }
    proof {
        let p = s.take(j as int);
        if j > 0 {
            assert(p.last() == s[j - 1]);
            assert(spec_insert_by_fee(p, t@) == p.push(t@));
        } else {
            assert(spec_insert_by_fee(p, t@) == seq![t@]);
            assert(p =~= Seq::<TxView>::empty());
        }
        assert(spec_insert_by_fee(p, t@) =~= p.push(t@));
    }
    let ghost tv = t@;
    let ghost before = asc@;
    asc.insert(j, t);
    proof {
        assert(txs_view(asc@) =~= s.take(j as int).push(tv) + s.skip(j as int));
    }
}

/// The pending transactions in the order in which they go into a block.
pub fn order_for_mining(transactions: &Vec<Transaction>) -> (r: Vec<Transaction>)
    ensures
        txs_view(r@) == spec_mining_order(txs_view(transactions@)),
{
    let ghost s = txs_view(transactions@);
    let mut asc: Vec<Transaction> = Vec::new();
    let mut i: usize = 0;
    proof {
        assert(s.take(0) =~= Seq::<TxView>::empty());
    }
    while i < transactions.len()
        invariant
            0 <= i <= s.len(),
            s == txs_view(transactions@),
            txs_view(asc@) == spec_sort_by_fee(s.take(i as int)),
        decreases s.len() - i,
    {
        proof {
            assert(s.take(i + 1).drop_last() =~= s.take(i as int));
            assert(s.take(i + 1).last() == transactions@[i as int]@);
        }
        insert_by_fee(&mut asc, transactions[i].clone());
        i = i + 1;
    }
    proof {
        assert(s.take(s.len() as int) =~= s);
        lemma_sort_by_fee(s);
    }
    let ghost a = txs_view(asc@);
    let mut r: Vec<Transaction> = Vec::new();
    let mut k: usize = asc.len();
    while k > 0
        invariant
            0 <= k <= a.len(),
            a == txs_view(asc@),
            txs_view(r@) == a.reverse().take(a.len() - k),
            r@.len() == a.len() - k,
        decreases k,
    {
        let c = asc[k - 1].clone();
        let ghost before = r@;
        r.push(c);
        proof {
            assert(r@ == before.push(c));
            assert(a.reverse()[a.len() - k] == a[k - 1]);
            assert(txs_view(r@) =~= a.reverse().take(a.len() - k + 1));
        }
        k = k - 1;
    }
    proof {
        assert(a.reverse().take(a.len() as int) =~= a.reverse());
    }
    r
}

} // verus!
