//! Duplicate resolver: groups hash records by fingerprint and elects one
//! "original" per group, demoting every other member to "duplicate".
//!
//! The tie-break is deliberate and order-dependent: a challenger replaces
//! the incumbent only when its quality is known for both files and strictly
//! greater.  Quality ties and unreadable dimensions both keep the incumbent,
//! so with equal quality the first record in processing order wins.

use vstd::prelude::*;
use vstd::pervasive::VecAdditionalExecFns;
use crate::images::is_image_path;
use crate::quality::{compare_quality, path_quality, spec_compare_quality};
use crate::records::path_views;
use std::collections::HashMap;

verus! {

broadcast use vstd::std_specs::hash::group_hash_axioms;

/// The resolver's state after some prefix of the records has been
/// processed.
pub struct ResolveState {
    /// Fingerprint to the index of the record currently kept for it.
    pub best: Map<u64, int>,
    /// Fingerprints in first-seen order.
    pub seen: Seq<u64>,
    /// Indices demoted to duplicate, in demotion order.
    pub dups: Seq<int>,
}

/// Whether a challenger's quality beats the incumbent's: true only when
/// both are known and the challenger's is strictly greater.
pub open spec fn promotes(incumbent: Option<u64>, challenger: Option<u64>) -> bool {
    spec_compare_quality(challenger, incumbent) == Some(true)
}

/// The resolver's state after the first `k` of the records, processed in
/// order: an unseen fingerprint registers the record as its best; a seen
/// one demotes either the incumbent (when the challenger promotes) or the
/// challenger itself.
pub open spec fn resolve_state(fps: Seq<u64>, quals: Seq<Option<u64>>, k: int) -> ResolveState
    recommends
        0 <= k <= fps.len(),
        fps.len() == quals.len(),
    decreases k,
{
    if k <= 0 {
        ResolveState { best: Map::empty(), seen: Seq::empty(), dups: Seq::empty() }
    } else {
        let st = resolve_state(fps, quals, k - 1);
        let i = k - 1;
        let fp = fps[i];
        if !st.best.contains_key(fp) {
            ResolveState { best: st.best.insert(fp, i), seen: st.seen.push(fp), dups: st.dups }
        } else if promotes(quals[st.best[fp]], quals[i]) {
            ResolveState {
                best: st.best.insert(fp, i),
                seen: st.seen,
                dups: st.dups.push(st.best[fp]),
            }
        } else {
            ResolveState { best: st.best, seen: st.seen, dups: st.dups.push(i) }
        }
    }
}

/// The elected originals: for each fingerprint, in first-seen order, the
/// path of its final best record.
pub open spec fn originals_of(
    fps: Seq<u64>,
    paths: Seq<Seq<char>>,
    quals: Seq<Option<u64>>,
) -> Seq<Seq<char>> {
    let st = resolve_state(fps, quals, fps.len() as int);
    Seq::new(st.seen.len(), |p: int| paths[st.best[st.seen[p]]])
}

/// The demoted paths, in demotion order.
pub open spec fn duplicates_of(
    fps: Seq<u64>,
    paths: Seq<Seq<char>>,
    quals: Seq<Option<u64>>,
) -> Seq<Seq<char>> {
    let st = resolve_state(fps, quals, fps.len() as int);
    Seq::new(st.dups.len(), |p: int| paths[st.dups[p]])
}

/// The fingerprints of a record list.
pub open spec fn pair_fps(pairs: Seq<(u64, String)>) -> Seq<u64> {
    pairs.map_values(|pr: (u64, String)| pr.0)
}

/// The path views of a record list.
pub open spec fn pair_paths(pairs: Seq<(u64, String)>) -> Seq<Seq<char>> {
    pairs.map_values(|pr: (u64, String)| pr.1@)
}

/// Basic shape of the resolver state: best indices point into the prefix
/// and carry their own fingerprint, the seen list matches the best map's
/// domain without repetition, and demoted indices lie in the prefix.
pub proof fn lemma_resolve_state_wf(fps: Seq<u64>, quals: Seq<Option<u64>>, k: int)
    requires
        0 <= k <= fps.len(),
    ensures
        ({
            let st = resolve_state(fps, quals, k);
            &&& forall|fp: u64| #[trigger]
                st.best.contains_key(fp) ==> 0 <= st.best[fp] < k && fps[st.best[fp]] == fp
            &&& forall|p: int| 0 <= p < st.seen.len() ==> st.best.contains_key(#[trigger] st.seen[p])
            &&& forall|p: int, q: int| 0 <= p < q < st.seen.len() ==> st.seen[p] != st.seen[q]
            &&& forall|fp: u64| #[trigger] st.best.contains_key(fp) ==> st.seen.contains(fp)
            &&& forall|p: int| 0 <= p < st.dups.len() ==> 0 <= #[trigger] st.dups[p] < k
        }),
    decreases k,
{
    if k > 0 {
        lemma_resolve_state_wf(fps, quals, k - 1);
        let st = resolve_state(fps, quals, k - 1);
        let st2 = resolve_state(fps, quals, k);
        let fp = fps[k - 1];
        if !st.best.contains_key(fp) {
            assert forall|fp2: u64| #[trigger] st2.best.contains_key(fp2) implies st2.seen.contains(
                fp2,
            ) by {
                if fp2 == fp {
                    assert(st2.seen[st2.seen.len() - 1] == fp);
                } else {
                    let p = choose|p: int| 0 <= p < st.seen.len() && st.seen[p] == fp2;
                    assert(st2.seen[p] == fp2);
                }
            }
            assert forall|p: int, q: int| 0 <= p < q < st2.seen.len() implies st2.seen[p]
                != st2.seen[q] by {
                if q == st2.seen.len() - 1 {
                    assert(st.best.contains_key(st.seen[p]));
                }
            }
        } else {
            assert forall|fp2: u64| #[trigger] st2.best.contains_key(fp2) implies st2.seen.contains(
                fp2,
            ) by {
                let p = choose|p: int| 0 <= p < st.seen.len() && st.seen[p] == fp2;
                assert(st2.seen[p] == fp2);
            }
        }
    }
}

proof fn lemma_push_keeps_contains<A>(s: Seq<A>, x: A, y: A)
    requires
        s.contains(y),
    ensures
        s.push(x).contains(y),
{
    let q = choose|q: int| 0 <= q < s.len() && s[q] == y;
    assert(s.push(x)[q] == y);
}

/// Whether record `i` is currently kept as some fingerprint's best.
pub open spec fn is_kept(st: ResolveState, i: int) -> bool {
    exists|fp: u64| #[trigger] st.best.contains_key(fp) && st.best[fp] == i
}

/// Partition: after any prefix, every processed record is classified
/// exactly once — kept as its fingerprint's best or demoted to duplicate,
/// never both and never twice.
pub proof fn lemma_resolve_partition(fps: Seq<u64>, quals: Seq<Option<u64>>, k: int)
    requires
        0 <= k <= fps.len(),
        quals.len() == fps.len(),
    ensures
        ({
            let st = resolve_state(fps, quals, k);
            &&& forall|i: int| 0 <= i < k ==> (is_kept(st, i) <==> !st.dups.contains(i))
            &&& forall|p: int, q: int| 0 <= p < q < st.dups.len() ==> st.dups[p] != st.dups[q]
        }),
    decreases k,
{
    if k > 0 {
        lemma_resolve_partition(fps, quals, k - 1);
        lemma_resolve_state_wf(fps, quals, k - 1);
        let st = resolve_state(fps, quals, k - 1);
        let st2 = resolve_state(fps, quals, k);
        let fp = fps[k - 1];
        if !st.best.contains_key(fp) {
            assert forall|i: int| 0 <= i < k implies (is_kept(st2, i) <==> !st2.dups.contains(
                i,
            )) by {
                if i == k - 1 {
                    assert(st2.best.contains_key(fp) && st2.best[fp] == i);
                    assert(!st.dups.contains(i));
                } else {
                    assert(is_kept(st, i) ==> is_kept(st2, i)) by {
                        if is_kept(st, i) {
                            let fp2 = choose|fp2: u64|
                                #[trigger] st.best.contains_key(fp2) && st.best[fp2] == i;
                            assert(fp2 != fp);
                            assert(st2.best.contains_key(fp2) && st2.best[fp2] == i);
                        }
                    }
                    assert forall|fp2: u64|
                        st2.best.contains_key(fp2) && st2.best[fp2] == i implies is_kept(
                        st,
                        i,
                    ) by {
                        assert(fp2 != fp);
                        assert(st.best.contains_key(fp2) && st.best[fp2] == i);
                    }
                }
            }
        } else if promotes(quals[st.best[fp]], quals[k - 1]) {
            let j = st.best[fp];
            assert(st2.dups =~= st.dups.push(j));
            assert forall|i: int| 0 <= i < k implies (is_kept(st2, i) <==> !st2.dups.contains(
                i,
            )) by {
                if i == k - 1 {
                    assert(st2.best.contains_key(fp) && st2.best[fp] == i);
                    assert(!st.dups.contains(i));
                    assert(j < k - 1);
                    assert forall|q: int| 0 <= q < st2.dups.len() implies st2.dups[q] != i by {
                        if q < st.dups.len() {
                            assert(st.dups.contains(st.dups[q]) && st.dups[q] < k - 1);
                        }
                    }
                    assert(!st2.dups.contains(i));
                } else if i == j {
                    // The demoted incumbent: now a duplicate, no longer kept.
                    assert(st2.dups[st2.dups.len() - 1] == j);
                    assert(st2.dups.contains(j));
                    assert forall|fp2: u64|
                        st2.best.contains_key(fp2) && st2.best[fp2] == j implies false by {
                        assert(fp2 != fp);
                        assert(st.best.contains_key(fp2) && st.best[fp2] == j);
                        assert(fps[j] == fp2 && fps[j] == fp);
                    }
                } else {
                    assert forall|q: int| 0 <= q < st2.dups.len() && st2.dups[q] == i implies
                        st.dups.contains(i) by {
                        if q < st.dups.len() {
                            assert(st.dups[q] == i);
                        }
                    }
                    assert(st.dups.contains(i) ==> st2.dups.contains(i)) by {
                        if st.dups.contains(i) {
                            lemma_push_keeps_contains(st.dups, j, i);
                        }
                    }
                    assert forall|fp2: u64|
                        st2.best.contains_key(fp2) && st2.best[fp2] == i implies is_kept(
                        st,
                        i,
                    ) by {
                        assert(fp2 != fp);
                    }
                    assert(is_kept(st, i) ==> is_kept(st2, i)) by {
                        if is_kept(st, i) {
                            let fp2 = choose|fp2: u64|
                                #[trigger] st.best.contains_key(fp2) && st.best[fp2] == i;
                            assert(fp2 != fp);
                            assert(st2.best.contains_key(fp2) && st2.best[fp2] == i);
                        }
                    }
                }
            }
            assert forall|p: int, q: int| 0 <= p < q < st2.dups.len() implies st2.dups[p]
                != st2.dups[q] by {
                if q == st2.dups.len() - 1 {
                    // `j` was kept before this step, so it was no duplicate.
                    assert(is_kept(st, j));
                    assert(st.dups[p] == st.dups[p] && st.dups.contains(st.dups[p]));
                }
            }
        } else {
            assert(st2.dups =~= st.dups.push(k - 1));
            assert forall|i: int| 0 <= i < k implies (is_kept(st2, i) <==> !st2.dups.contains(
                i,
            )) by {
                if i == k - 1 {
                    assert(st2.dups[st2.dups.len() - 1] == i);
                    assert(st2.dups.contains(i));
                    assert forall|fp2: u64|
                        st2.best.contains_key(fp2) && st2.best[fp2] == i implies false by {
                        assert(st.best.contains_key(fp2));
                        assert(st.best[fp2] < k - 1);
                    }
                } else {
                    assert(is_kept(st, i) <==> !st.dups.contains(i));
                    assert(st2.best == st.best);
                    assert(is_kept(st2, i) <==> is_kept(st, i)) by {
                        if is_kept(st, i) {
                            let fp2 = choose|fp2: u64|
                                #[trigger] st.best.contains_key(fp2) && st.best[fp2] == i;
                            assert(st2.best.contains_key(fp2) && st2.best[fp2] == i);
                        }
                        if is_kept(st2, i) {
                            let fp2 = choose|fp2: u64|
                                #[trigger] st2.best.contains_key(fp2) && st2.best[fp2] == i;
                            assert(st.best.contains_key(fp2) && st.best[fp2] == i);
                        }
                    }
                    assert(st2.dups.contains(i) <==> st.dups.contains(i)) by {
                        if st.dups.contains(i) {
                            lemma_push_keeps_contains(st.dups, k - 1, i);
                        }
                        if st2.dups.contains(i) {
                            let q = choose|q: int|
                                0 <= q < st2.dups.len() && st2.dups[q] == i;
                            assert(q < st.dups.len());
                            assert(st.dups[q] == i);
                        }
                    }
                }
            }
            assert forall|p: int, q: int| 0 <= p < q < st2.dups.len() implies st2.dups[p]
                != st2.dups[q] by {
                if q == st2.dups.len() - 1 {
                    assert(st.dups.contains(st.dups[p]) && st.dups[p] < k - 1);
                }
            }
        }
    }
}

proof fn lemma_unique_state(fps: Seq<u64>, quals: Seq<Option<u64>>, k: int)
    requires
        0 <= k <= fps.len(),
        forall|i: int, j: int| 0 <= i < j < fps.len() ==> fps[i] != fps[j],
    ensures
        ({
            let st = resolve_state(fps, quals, k);
            &&& st.seen == fps.take(k)
            &&& st.dups == Seq::<int>::empty()
            &&& forall|p: int|
                0 <= p < k ==> st.best.contains_key(#[trigger] fps[p]) && st.best[fps[p]] == p
        }),
    decreases k,
{
    if k > 0 {
        lemma_unique_state(fps, quals, k - 1);
        lemma_resolve_state_wf(fps, quals, k - 1);
        let st = resolve_state(fps, quals, k - 1);
        let fp = fps[k - 1];
        assert(!st.best.contains_key(fp));
        assert(resolve_state(fps, quals, k).seen =~= fps.take(k));
    } else {
        assert(resolve_state(fps, quals, k).seen =~= fps.take(k));
    }
}

/// When every fingerprint is distinct, nothing is demoted: the duplicates
/// are empty and the originals are exactly the input paths, in input order.
pub proof fn lemma_unique_fingerprints_no_duplicates(
    fps: Seq<u64>,
    paths: Seq<Seq<char>>,
    quals: Seq<Option<u64>>,
)
    requires
        paths.len() == fps.len(),
        quals.len() == fps.len(),
        forall|i: int, j: int| 0 <= i < j < fps.len() ==> fps[i] != fps[j],
    ensures
        duplicates_of(fps, paths, quals) == Seq::<Seq<char>>::empty(),
        originals_of(fps, paths, quals) == paths,
{
    lemma_unique_state(fps, quals, fps.len() as int);
    let st = resolve_state(fps, quals, fps.len() as int);
    assert(st.seen =~= fps);
    assert(duplicates_of(fps, paths, quals) =~= Seq::<Seq<char>>::empty());
    assert(originals_of(fps, paths, quals) =~= paths);
}

/// A challenger whose quality cannot be determined never displaces the
/// incumbent: the step only adds the challenger itself to the duplicates.
pub proof fn lemma_unreadable_challenger_keeps_incumbent(
    fps: Seq<u64>,
    quals: Seq<Option<u64>>,
    i: int,
)
    requires
        0 <= i < fps.len(),
        quals.len() == fps.len(),
        quals[i] is None,
        resolve_state(fps, quals, i).best.contains_key(fps[i]),
    ensures
        resolve_state(fps, quals, i + 1).best == resolve_state(fps, quals, i).best,
        resolve_state(fps, quals, i + 1).seen == resolve_state(fps, quals, i).seen,
        resolve_state(fps, quals, i + 1).dups == resolve_state(fps, quals, i).dups.push(i),
{
}

/// Resolution is a function of the record sequence alone: two partitions
/// computed from the same (order-fixed) records and qualities are
/// identical.
pub proof fn lemma_resolve_deterministic(
    fps: Seq<u64>,
    paths: Seq<Seq<char>>,
    quals: Seq<Option<u64>>,
    r1: (Seq<Seq<char>>, Seq<Seq<char>>),
    r2: (Seq<Seq<char>>, Seq<Seq<char>>),
)
    requires
        r1.0 == originals_of(fps, paths, quals),
        r1.1 == duplicates_of(fps, paths, quals),
        r2.0 == originals_of(fps, paths, quals),
        r2.1 == duplicates_of(fps, paths, quals),
    ensures
        r1 == r2,
{
}

/// Resolves records whose qualities are given alongside them: returns the
/// originals (one per fingerprint, first-seen order) and the duplicates
/// (in demotion order).
pub fn resolve_with_quality(pairs: &Vec<(u64, String)>, quals: &Vec<Option<u64>>) -> (r: (
    Vec<String>,
    Vec<String>,
))
    requires
        pairs@.len() == quals@.len(),
    ensures
        path_views(r.0@) == originals_of(pair_fps(pairs@), pair_paths(pairs@), quals@),
        path_views(r.1@) == duplicates_of(pair_fps(pairs@), pair_paths(pairs@), quals@),
{
    let ghost fps = pair_fps(pairs@);
    let ghost paths = pair_paths(pairs@);
    let n = pairs.len();
    let mut slot_of: HashMap<u64, usize> = HashMap::new();
    let mut seen_fps: Vec<u64> = Vec::new();
    let mut best_idx: Vec<usize> = Vec::new();
    let mut dup_idx: Vec<usize> = Vec::new();
    let mut i: usize = 0;
    while i < n
        invariant
            i <= n,
            n == pairs@.len(),
            n == quals@.len(),
            fps == pair_fps(pairs@),
            paths == pair_paths(pairs@),
            best_idx@.len() == seen_fps@.len(),
            ({
                let st = resolve_state(fps, quals@, i as int);
                &&& seen_fps@ == st.seen
                &&& dup_idx@.map_values(|u: usize| u as int) == st.dups
                &&& forall|fp: u64| #[trigger]
                    slot_of@.contains_key(fp) <==> st.best.contains_key(fp)
                &&& forall|fp: u64| #[trigger]
                    slot_of@.contains_key(fp) ==> slot_of@[fp] < seen_fps@.len()
                        && seen_fps@[slot_of@[fp] as int] == fp && best_idx@[slot_of@[fp] as int]
                        as int == st.best[fp]
                &&& forall|p: int|
                    0 <= p < seen_fps@.len() ==> slot_of@.contains_key(#[trigger] seen_fps@[p])
                        && slot_of@[seen_fps@[p]] == p
                &&& forall|p: int| 0 <= p < best_idx@.len() ==> #[trigger] best_idx@[p] < i
            }),
        decreases n - i,
    {
        let ghost st = resolve_state(fps, quals@, i as int);
        let ghost st2 = resolve_state(fps, quals@, i as int + 1);
        let pr = &pairs[i];
        let fp = pr.0;
        proof {
            assert(fps[i as int] == pairs@[i as int].0);
        }
        match slot_of.get(&fp) {
            Some(p_ref) => {
                let p = *p_ref;
                let j = best_idx[p];
                let better = compare_quality(quals[i], quals[j]);
                proof {
                    assert(st.best.contains_key(fp));
                    assert(st.best[fp] == j as int);
                }
                if let Some(true) = better {
                    dup_idx.push(j);
                    best_idx.set(p, i);
                    proof {
                        assert(promotes(quals@[j as int], quals@[i as int]));
                        assert(st2.best == st.best.insert(fp, i as int));
                        assert(dup_idx@.map_values(|u: usize| u as int) =~= st2.dups);
                        assert forall|fp2: u64| #[trigger] slot_of@.contains_key(fp2) implies
                            slot_of@[fp2] < seen_fps@.len() && seen_fps@[slot_of@[fp2] as int]
                            == fp2 && best_idx@[slot_of@[fp2] as int] as int == st2.best[fp2] by {
                            if fp2 != fp {
                                assert(seen_fps@[slot_of@[fp2] as int] == fp2);
                                assert(seen_fps@[p as int] == fp);
                                assert(slot_of@[fp2] != p);
                            }
                        }
                    }
                } else {
                    dup_idx.push(i);
                    proof {
                        assert(!promotes(quals@[j as int], quals@[i as int]));
                        assert(st2.dups == st.dups.push(i as int));
                        assert(dup_idx@.map_values(|u: usize| u as int) =~= st2.dups);
                    }
                }
            },
            None => {
                proof {
                    assert(!st.best.contains_key(fp));
                }
                let slot = seen_fps.len();
                slot_of.insert(fp, slot);
                seen_fps.push(fp);
                best_idx.push(i);
                proof {
                    assert(st2.best == st.best.insert(fp, i as int));
                    assert(seen_fps@ =~= st2.seen);
                }
            },
        }
        i += 1;
    }

    let ghost stf = resolve_state(fps, quals@, n as int);
    proof {
        lemma_resolve_state_wf(fps, quals@, n as int);
        assert forall|q: int| 0 <= q < seen_fps@.len() implies best_idx@[q] as int
            == stf.best[stf.seen[q]] && best_idx@[q] < n by {
            assert(slot_of@.contains_key(seen_fps@[q]));
            assert(slot_of@[seen_fps@[q]] == q);
        }
    }

    let mut originals: Vec<String> = Vec::new();
    let mut p: usize = 0;
    let m = seen_fps.len();
    while p < m
        invariant
            p <= m,
            m == seen_fps@.len(),
            m == best_idx@.len(),
            n == pairs@.len(),
            paths == pair_paths(pairs@),
            seen_fps@ == stf.seen,
            forall|q: int|
                0 <= q < m ==> #[trigger] best_idx@[q] as int == stf.best[stf.seen[q]]
                    && best_idx@[q] < n,
            originals@.len() == p,
            forall|q: int|
                0 <= q < p ==> (#[trigger] originals@[q])@ == paths[stf.best[stf.seen[q]]],
        decreases m - p,
    {
        let idx = best_idx[p];
        let s = pairs[idx].1.clone();
        proof {
            assert(paths[idx as int] == pairs@[idx as int].1@);
        }
        originals.push(s);
        p += 1;
    }

    proof {
        lemma_resolve_state_wf(fps, quals@, n as int);
    }
    let mut duplicates: Vec<String> = Vec::new();
    let mut k: usize = 0;
    let dn = dup_idx.len();
    while k < dn
        invariant
            k <= dn,
            dn == dup_idx@.len(),
            n == pairs@.len(),
            paths == pair_paths(pairs@),
            dup_idx@.map_values(|u: usize| u as int) == stf.dups,
            forall|q: int| 0 <= q < stf.dups.len() ==> 0 <= #[trigger] stf.dups[q] < n,
            duplicates@.len() == k,
            forall|q: int| 0 <= q < k ==> (#[trigger] duplicates@[q])@ == paths[stf.dups[q]],
        decreases dn - k,
    {
        let idx = dup_idx[k];
        proof {
            assert(stf.dups[k as int] == dup_idx@[k as int] as int);
            assert(paths[idx as int] == pairs@[idx as int].1@);
        }
        let s = pairs[idx].1.clone();
        duplicates.push(s);
        k += 1;
    }

    proof {
        assert(path_views(originals@) =~= originals_of(fps, paths, quals@));
        assert(path_views(duplicates@) =~= duplicates_of(fps, paths, quals@));
    }
    (originals, duplicates)
}

/// Groups records by fingerprint and partitions their paths into originals
/// and duplicates.  The quality of each path is read from disk on demand,
/// so the exact partition depends on what the dimension reads return; for
/// every outcome of those reads the partition is the one `originals_of` /
/// `duplicates_of` describe.
pub fn find_duplicates(kvpairs: Vec<(u64, String)>) -> (r: (Vec<String>, Vec<String>))
    ensures
        exists|quals: Seq<Option<u64>>|
            quals.len() == kvpairs@.len() && (forall|i: int|
                0 <= i < quals.len() && !is_image_path(pair_paths(kvpairs@)[i])
                    ==> quals[i] is None) && path_views(r.0@) == #[trigger] originals_of(
                pair_fps(kvpairs@),
                pair_paths(kvpairs@),
                quals,
            ) && path_views(r.1@) == duplicates_of(pair_fps(kvpairs@), pair_paths(kvpairs@), quals),
{
    let mut quals: Vec<Option<u64>> = Vec::new();
    let mut i: usize = 0;
    let n = kvpairs.len();
    while i < n
        invariant
            i <= n,
            n == kvpairs@.len(),
            quals@.len() == i,
            forall|j: int|
                0 <= j < i && !is_image_path(pair_paths(kvpairs@)[j]) ==> quals@[j] is None,
        decreases n - i,
    {
        let pr = &kvpairs[i];
        let q = path_quality(pr.1.as_str());
        proof {
            assert(pair_paths(kvpairs@)[i as int] == kvpairs@[i as int].1@);
        }
        quals.push(q);
        i += 1;
    }
    let r = resolve_with_quality(&kvpairs, &quals);
    proof {
        assert(path_views(r.0@) == originals_of(pair_fps(kvpairs@), pair_paths(kvpairs@), quals@));
    }
    r
}

} // verus!
