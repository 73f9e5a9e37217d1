//! Hash aggregator: merges the per-worker record lists into one collection.
//!
//! The result carries every record of every worker exactly once; downstream
//! logic must not depend on the order, which follows worker delivery.

use vstd::prelude::*;
use vstd::seq_lib::lemma_multiset_commutative;
use crate::records::rec_views;

verus! {

broadcast use vstd::seq_lib::group_to_multiset_ensures;

/// The views of every worker's record list.
pub open spec fn output_views(outputs: Seq<Vec<(String, u64)>>) -> Seq<Seq<(Seq<char>, u64)>> {
    outputs.map_values(|v: Vec<(String, u64)>| rec_views(v@))
}

/// Concatenates the record lists of all workers, in the order given, losing
/// and inventing nothing.
pub fn aggregate(worker_outputs: &Vec<Vec<(String, u64)>>) -> (r: Vec<(String, u64)>)
    ensures
        rec_views(r@) == output_views(worker_outputs@).flatten(),
{
    let ghost agg = output_views(worker_outputs@);
    let mut out: Vec<(String, u64)> = Vec::new();
    let n = worker_outputs.len();
    let mut i: usize = 0;
    proof {
        assert(agg.take(0) =~= Seq::<Seq<(Seq<char>, u64)>>::empty());
        assert(rec_views(out@) =~= agg.take(0).flatten());
    }
    while i < n
        invariant
            i <= n,
            n == worker_outputs@.len(),
            agg == output_views(worker_outputs@),
            rec_views(out@) == agg.take(i as int).flatten(),
        decreases n - i,
    {
        let m = worker_outputs[i].len();
        let mut j: usize = 0;
        while j < m
            invariant
                j <= m,
                i < n,
                n == worker_outputs@.len(),
                m == worker_outputs@[i as int]@.len(),
                agg == output_views(worker_outputs@),
                rec_views(out@) == agg.take(i as int).flatten() + agg[i as int].take(j as int),
            decreases m - j,
        {
            let pr = &worker_outputs[i][j];
            let ghost old_recs = rec_views(out@);
            out.push((pr.0.clone(), pr.1));
            proof {
                assert(rec_views(out@) =~= old_recs.push(agg[i as int][j as int]));
                assert(agg[i as int].take(j as int + 1) =~= agg[i as int].take(j as int).push(
                    agg[i as int][j as int],
                ));
            }
            j += 1;
        }
        proof {
            assert(agg[i as int].take(m as int) =~= agg[i as int]);
            assert(agg.take(i as int + 1) =~= agg.take(i as int).push(agg[i as int]));
            agg.take(i as int).lemma_flatten_push(agg[i as int]);
        }
        i += 1;
    }
    proof {
        assert(agg.take(n as int) =~= agg);
    }
    out
}

/// Taking one chunk out of the concatenation removes exactly that chunk's
/// elements, wherever the chunk stands.
proof fn lemma_flatten_remove_multiset<T>(s: Seq<Seq<T>>, i: int)
    requires
        0 <= i < s.len(),
    ensures
        s.flatten().to_multiset() =~= s.remove(i).flatten().to_multiset().add(
            s[i].to_multiset(),
        ),
    decreases s.len(),
{
    assert(s.flatten() == s.first() + s.drop_first().flatten());
    lemma_multiset_commutative(s.first(), s.drop_first().flatten());
    if i == 0 {
        assert(s.remove(0) =~= s.drop_first());
    } else {
        lemma_flatten_remove_multiset(s.drop_first(), i - 1);
        assert(s.remove(i).drop_first() =~= s.drop_first().remove(i - 1));
        assert(s.remove(i).flatten() == s.remove(i).first() + s.remove(i).drop_first().flatten());
        lemma_multiset_commutative(s.first(), s.drop_first().remove(i - 1).flatten());
    }
}

/// Worker completion order does not matter: whenever two runs collect the
/// same chunks, in whatever order each run's channel delivered them, the
/// aggregated collections hold the same records, as multisets.
pub proof fn lemma_aggregate_order_independent<T>(a: Seq<Seq<T>>, b: Seq<Seq<T>>)
    requires
        a.to_multiset() == b.to_multiset(),
    ensures
        a.flatten().to_multiset() == b.flatten().to_multiset(),
    decreases a.len(),
{
    if a.len() == 0 {
        assert(a.to_multiset().len() == a.len());
        assert(b.to_multiset().len() == b.len());
        assert(b.len() == 0);
        assert(a.flatten() =~= Seq::<T>::empty());
        assert(b.flatten() =~= Seq::<T>::empty());
    } else {
        let x = a.last();
        assert(a.contains(x));
        assert(b.to_multiset().count(x) > 0);
        assert(b.contains(x));
        let i = choose|i: int| 0 <= i < b.len() && b[i] == x;
        let a2 = a.drop_last();
        let b2 = b.remove(i);
        assert(a.remove(a.len() - 1) =~= a2);
        assert(a2.to_multiset() =~= a.to_multiset().remove(x));
        assert(b2.to_multiset() =~= b.to_multiset().remove(x));
        lemma_aggregate_order_independent(a2, b2);
        assert(a2.push(x) =~= a);
        a2.lemma_flatten_push(x);
        lemma_multiset_commutative(a2.flatten(), x);
        lemma_flatten_remove_multiset(b, i);
        assert(a.flatten().to_multiset() =~= b.flatten().to_multiset());
    }
}

} // verus!
