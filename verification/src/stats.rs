//! Byte totals for status display: the combined size of the files found.

use vstd::prelude::*;

verus! {

/// The mathematical sum of a list of sizes.
pub open spec fn sum_of(sizes: Seq<u64>) -> int
    decreases sizes.len(),
{
    if sizes.len() == 0 {
        0
    } else {
        sum_of(sizes.drop_last()) + sizes.last()
    }
}

/// The sum can only grow as the prefix grows.
proof fn lemma_sum_take_le(sizes: Seq<u64>, i: int)
    requires
        0 <= i <= sizes.len(),
    ensures
        sum_of(sizes.take(i)) <= sum_of(sizes),
    decreases sizes.len() - i,
{
    if i == sizes.len() {
        assert(sizes.take(i) =~= sizes);
    } else {
        assert(sizes.take(i + 1).drop_last() =~= sizes.take(i));
        lemma_sum_take_le(sizes, i + 1);
    }
}

/// Adds up file sizes; `None` exactly when the total does not fit in a
/// `u64`.
pub fn total_size(sizes: &Vec<u64>) -> (t: Option<u64>)
    ensures
        match t {
            Some(v) => v as int == sum_of(sizes@),
            None => sum_of(sizes@) > u64::MAX,
        },
{
    let mut total: u64 = 0;
    let n = sizes.len();
    let mut i: usize = 0;
    proof {
        assert(sizes@.take(0) =~= Seq::<u64>::empty());
    }
    while i < n
        invariant
            i <= n,
            n == sizes@.len(),
            total as int == sum_of(sizes@.take(i as int)),
        decreases n - i,
    {
        proof {
            assert(sizes@.take(i as int + 1).drop_last() =~= sizes@.take(i as int));
        }
        match total.checked_add(sizes[i]) {
            Some(t2) => {
                total = t2;
            },
            None => {
                proof {
                    lemma_sum_take_le(sizes@, i as int + 1);
                }
                return None;
            },
        }
        i += 1;
    }
    proof {
        assert(sizes@.take(n as int) =~= sizes@);
    }
    Some(total)
}

} // verus!
