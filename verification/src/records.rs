//! Hash records and view helpers shared across the pipeline.
//!
//! A hash record pairs a file path with the fingerprint computed from the
//! file's content; files that fail to decode produce no record.

use vstd::prelude::*;

verus! {

/// The views of a list of paths.
pub open spec fn path_views(s: Seq<String>) -> Seq<Seq<char>> {
    s.map_values(|p: String| p@)
}

/// The views of a list of hash records.
pub open spec fn rec_views(s: Seq<(String, u64)>) -> Seq<(Seq<char>, u64)> {
    s.map_values(|r: (String, u64)| (r.0@, r.1))
}

/// The records produced from a chunk of paths once each path's fingerprint
/// attempt is known: one record per successful attempt, in input order;
/// failed attempts are skipped.
pub open spec fn selected_records(paths: Seq<Seq<char>>, fps: Seq<Option<u64>>) -> Seq<
    (Seq<char>, u64),
>
    recommends
        paths.len() == fps.len(),
    decreases paths.len(),
{
    if paths.len() == 0 {
        Seq::empty()
    } else {
        let rest = selected_records(paths.drop_last(), fps.drop_last());
        match fps.last() {
            Some(f) => rest.push((paths.last(), f)),
            None => rest,
        }
    }
}

/// Builds the records of one chunk from its paths and the outcome of each
/// path's fingerprint attempt, and reports how many paths were processed:
/// every path counts as one unit of progress, whether or not it produced a
/// record.
pub fn hash_records(paths: &Vec<String>, fps: &Vec<Option<u64>>) -> (r: (Vec<(String, u64)>, usize))
    requires
        paths@.len() == fps@.len(),
    ensures
        rec_views(r.0@) == selected_records(path_views(paths@), fps@),
        r.1 == paths@.len(),
{
    let n = paths.len();
    let mut out: Vec<(String, u64)> = Vec::new();
    let mut i: usize = 0;
    proof {
        assert(path_views(paths@).take(0) =~= Seq::<Seq<char>>::empty());
        assert(fps@.take(0) =~= Seq::<Option<u64>>::empty());
        assert(rec_views(out@) =~= selected_records(path_views(paths@).take(0), fps@.take(0)));
    }
    while i < n
        invariant
            i <= n,
            n == paths@.len(),
            n == fps@.len(),
            rec_views(out@) == selected_records(path_views(paths@).take(i as int), fps@.take(i as int)),
        decreases n - i,
    {
        let ghost old_recs = rec_views(out@);
        match fps[i] {
            Some(f) => {
                let s = paths[i].clone();
                out.push((s, f));
                proof {
                    assert(rec_views(out@) =~= old_recs.push((paths@[i as int]@, f)));
                }
            },
            None => {},
        }
        proof {
            let pv = path_views(paths@);
            assert(pv.take(i as int + 1).drop_last() =~= pv.take(i as int));
            assert(fps@.take(i as int + 1).drop_last() =~= fps@.take(i as int));
            assert(pv.take(i as int + 1).last() == pv[i as int]);
            assert(fps@.take(i as int + 1).last() == fps@[i as int]);
        }
        i += 1;
    }
    proof {
        assert(path_views(paths@).take(n as int) =~= path_views(paths@));
        assert(fps@.take(n as int) =~= fps@);
    }
    (out, n)
}

} // verus!
