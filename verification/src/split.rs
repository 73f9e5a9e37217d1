//! Work splitter: divides an ordered list of work items into `n` contiguous,
//! near-equal chunks, one per worker.

use vstd::prelude::*;
use vstd::arithmetic::div_mod::{lemma_fundamental_div_mod, lemma_mod_bound};
use vstd::multiset::Multiset;
use vstd::seq_lib::lemma_multiset_commutative;

verus! {

/// Start index of chunk `i` when a sequence of length `len` is divided into
/// `n` contiguous chunks: the first `len % n` chunks hold `len / n + 1`
/// elements, the remaining ones `len / n`.
pub open spec fn chunk_start(len: int, n: int, i: int) -> int
    recommends
        n >= 1,
{
    i * (len / n) + if i <= len % n {
        i
    } else {
        len % n
    }
}

/// Length of chunk `i` in the same division.
pub open spec fn chunk_len(len: int, n: int, i: int) -> int
    recommends
        n >= 1,
{
    if i < len % n {
        len / n + 1
    } else {
        len / n
    }
}

/// Consecutive chunk starts differ by exactly the chunk length.
proof fn lemma_chunk_start_step(len: int, n: int, i: int)
    requires
        n >= 1,
        0 <= i < n,
        0 <= len,
    ensures
        chunk_start(len, n, i + 1) == chunk_start(len, n, i) + chunk_len(len, n, i),
{
    lemma_mod_bound(len, n);
    assert((i + 1) * (len / n) == i * (len / n) + (len / n)) by (nonlinear_arith);
}

/// Chunk starts stay within the sequence, and the last one reaches its end.
proof fn lemma_chunk_start_bounds(len: int, n: int, i: int)
    requires
        n >= 1,
        0 <= i <= n,
        0 <= len,
    ensures
        0 <= chunk_start(len, n, i) <= len,
        i == n ==> chunk_start(len, n, i) == len,
    decreases n - i,
{
    lemma_mod_bound(len, n);
    lemma_fundamental_div_mod(len, n);
    assert(len / n >= 0) by (nonlinear_arith)
        requires
            n >= 1,
            0 <= len,
    ;
    assert(0 <= chunk_start(len, n, i)) by (nonlinear_arith)
        requires
            0 <= i,
            len / n >= 0,
            0 <= len % n,
    ;
    if i == n {
        assert(chunk_start(len, n, n) == n * (len / n) + len % n) by (nonlinear_arith)
            requires
                n >= 1,
                0 <= len % n < n,
        ;
    } else {
        lemma_chunk_start_bounds(len, n, i + 1);
        lemma_chunk_start_step(len, n, i);
    }
}

/// Splits `big_vec` into `count` contiguous chunks whose sizes differ by at
/// most one: with `len == d * count + r`, the first `r` chunks hold `d + 1`
/// elements and the remaining `count - r` hold `d`.  Every input element
/// appears exactly once, in order, across the chunks.
pub fn get_splits<T>(big_vec: Vec<T>, count: usize) -> (splits: Vec<Vec<T>>)
    requires
        count >= 1,
    ensures
        splits@.len() == count,
        forall|i: int|
            0 <= i < count ==> (#[trigger] splits@[i])@ == big_vec@.subrange(
                chunk_start(big_vec@.len() as int, count as int, i),
                chunk_start(big_vec@.len() as int, count as int, i + 1),
            ),
        forall|i: int|
            0 <= i < count ==> (#[trigger] splits@[i])@.len() == chunk_len(
                big_vec@.len() as int,
                count as int,
                i,
            ),
        splits@.map_values(|c: Vec<T>| c@).flatten() == big_vec@,
{
    let ghost orig = big_vec@;
    let len = big_vec.len();
    let d = len / count;
    let r = len % count;
    proof {
        lemma_fundamental_div_mod(len as int, count as int);
        lemma_mod_bound(len as int, count as int);
    }

    // Reverse the input so that popping hands the elements out in order.
    let mut rest = big_vec;
    let mut rev: Vec<T> = Vec::new();
    proof {
        assert(rest@ == orig.take(rest@.len() as int));
        assert(rev@ =~= orig.skip(rest@.len() as int).reverse());
    }
    while rest.len() > 0
        invariant
            rest@.len() <= orig.len(),
            rest@ == orig.take(rest@.len() as int),
            rev@ == orig.skip(rest@.len() as int).reverse(),
        decreases rest@.len(),
    {
        let ghost l = rest@.len() as int;
        let x = rest.pop().unwrap();
        rev.push(x);
        proof {
            assert(rest@ =~= orig.take(l - 1));
            assert(rev@ =~= orig.skip(l - 1).reverse());
        }
    }
    proof {
        assert(rev@ =~= orig.reverse());
    }

    let mut splits: Vec<Vec<T>> = Vec::new();
    let mut consumed: usize = 0;
    let mut i: usize = 0;
    while i < count
        invariant
            1 <= count,
            i <= count,
            len == orig.len(),
            d == len as int / count as int,
            r == len as int % count as int,
            splits@.len() == i,
            consumed == chunk_start(len as int, count as int, i as int),
            consumed <= len,
            rev@ == orig.skip(consumed as int).reverse(),
            forall|k: int|
                0 <= k < i ==> (#[trigger] splits@[k])@ == orig.subrange(
                    chunk_start(len as int, count as int, k),
                    chunk_start(len as int, count as int, k + 1),
                ),
            splits@.map_values(|c: Vec<T>| c@).flatten() == orig.take(consumed as int),
        decreases count - i,
    {
        proof {
            lemma_fundamental_div_mod(len as int, count as int);
            lemma_mod_bound(len as int, count as int);
            lemma_chunk_start_step(len as int, count as int, i as int);
            lemma_chunk_start_bounds(len as int, count as int, i as int + 1);
            if i < r {
                // `r > 0` forces `count >= 2`, so `d + 1` cannot overflow.
                if count == 1 {
                    assert(len as int % 1int == 0) by (nonlinear_arith);
                }
                assert(count as int * d <= len) by (nonlinear_arith)
                    requires
                        len as int == count as int * d + r as int,
                        r >= 0,
                ;
                assert(2 * d <= count as int * d) by (nonlinear_arith)
                    requires
                        count >= 2,
                        d >= 0,
                ;
            }
        }
        let size = if i < r {
            d + 1
        } else {
            d
        };
        assert(consumed + size == chunk_start(len as int, count as int, i as int + 1));
        assert(consumed + size <= len);

        let ghost base = consumed as int;
        let mut chunk: Vec<T> = Vec::new();
        let mut j: usize = 0;
        proof {
            assert(chunk@ =~= orig.subrange(base, base));
        }
        while j < size
            invariant
                j <= size,
                base + size <= orig.len(),
                0 <= base,
                chunk@ == orig.subrange(base, base + j as int),
                rev@ == orig.skip(base + j as int).reverse(),
            decreases size - j,
        {
            let ghost c = base + j as int;
            proof {
                assert(rev@.len() == orig.len() - c);
                assert(rev@[rev@.len() - 1] == orig.skip(c)[0]);
            }
            let x = rev.pop().unwrap();
            chunk.push(x);
            j += 1;
            proof {
                assert(chunk@ =~= orig.subrange(base, c + 1));
                assert(rev@ =~= orig.skip(c + 1).reverse());
            }
        }

        let ghost old_views = splits@.map_values(|c2: Vec<T>| c2@);
        splits.push(chunk);
        proof {
            assert(splits@.map_values(|c2: Vec<T>| c2@) =~= old_views.push(
                orig.subrange(base, base + size as int),
            ));
            old_views.lemma_flatten_push(orig.subrange(base, base + size as int));
            assert(orig.take(base) + orig.subrange(base, base + size as int) =~= orig.take(
                base + size as int,
            ));
        }
        consumed = consumed + size;
        i += 1;
    }
    proof {
        lemma_chunk_start_bounds(len as int, count as int, count as int);
        assert(orig.take(len as int) =~= orig);
        assert forall|k: int| 0 <= k < count implies (#[trigger] splits@[k])@.len() == chunk_len(
            len as int,
            count as int,
            k,
        ) by {
            lemma_chunk_start_step(len as int, count as int, k);
            lemma_chunk_start_bounds(len as int, count as int, k);
            lemma_chunk_start_bounds(len as int, count as int, k + 1);
        }
    }
    splits
}

/// The multiset union of a sequence of chunks: how many times each element
/// occurs across all chunks together, regardless of order.
pub open spec fn chunks_multiset<T>(chunks: Seq<Seq<T>>) -> Multiset<T>
    decreases chunks.len(),
{
    if chunks.len() == 0 {
        Multiset::empty()
    } else {
        chunks.first().to_multiset().add(chunks_multiset(chunks.drop_first()))
    }
}

/// The multiset union of any chunk list equals the multiset of its
/// concatenation.
pub proof fn lemma_chunks_multiset_is_flatten_multiset<T>(chunks: Seq<Seq<T>>)
    ensures
        chunks_multiset(chunks) == chunks.flatten().to_multiset(),
    decreases chunks.len(),
{
    if chunks.len() == 0 {
        assert(chunks.flatten() =~= Seq::<T>::empty());
        Seq::<T>::empty().to_multiset_ensures();
        assert(chunks_multiset(chunks) =~= chunks.flatten().to_multiset());
    } else {
        lemma_chunks_multiset_is_flatten_multiset(chunks.drop_first());
        assert(chunks.flatten() == chunks.first() + chunks.drop_first().flatten());
        lemma_multiset_commutative(chunks.first(), chunks.drop_first().flatten());
    }
}

/// Splitting loses and invents nothing: whenever chunks concatenate back to
/// the input elements — as `get_splits` ensures for every input and every
/// chunk count — their multiset union is exactly the multiset of the input.
pub proof fn lemma_split_preserves_multiset<T>(chunks: Seq<Seq<T>>, elems: Seq<T>)
    requires
        chunks.flatten() == elems,
    ensures
        chunks_multiset(chunks) == elems.to_multiset(),
{
    lemma_chunks_multiset_is_flatten_multiset(chunks);
}

/// Balance: no two chunks of the same division differ in length by more
/// than one.
pub proof fn lemma_split_balanced(len: int, n: int, i: int, j: int)
    requires
        n >= 1,
        0 <= len,
        0 <= i < n,
        0 <= j < n,
    ensures
        chunk_len(len, n, i) <= chunk_len(len, n, j) + 1,
{
}

} // verus!
