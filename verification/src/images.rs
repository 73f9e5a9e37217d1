//! Recognising image files by the extension of their path.
//!
//! A path is handled as a `/`-separated string.  The extension is the part
//! of the file name after its last dot, provided that dot is not the file
//! name's first character (so a leading-dot name alone carries no
//! extension).

use vstd::prelude::*;
use vstd::string::StrSliceExecFns;

verus! {

/// Index of the first character after the last `/`, i.e. where the file
/// name starts; `0` when the path holds no `/`.
pub open spec fn file_name_start(p: Seq<char>) -> int
    decreases p.len(),
{
    if p.len() == 0 {
        0
    } else if p.last() == '/' {
        p.len() as int
    } else {
        file_name_start(p.drop_last())
    }
}

/// Index of the last `.` in the path, or `-1` when it holds none.
pub open spec fn last_dot(p: Seq<char>) -> int
    decreases p.len(),
{
    if p.len() == 0 {
        -1
    } else if p.last() == '.' {
        p.len() - 1
    } else {
        last_dot(p.drop_last())
    }
}

/// The extension of the path's file name: the characters after the last
/// dot, provided that dot lies strictly inside the file name.
pub open spec fn extension_of(p: Seq<char>) -> Option<Seq<char>> {
    if last_dot(p) > file_name_start(p) {
        Some(p.subrange(last_dot(p) + 1, p.len() as int))
    } else {
        None
    }
}

/// The extensions that mark a file as an image.
pub open spec fn is_image_ext(e: Seq<char>) -> bool {
    ||| (e.len() == 3 && ((e[0] == 'j' && e[1] == 'p' && e[2] == 'g') || (e[0] == 'J' && e[1]
        == 'P' && e[2] == 'G') || (e[0] == 'p' && e[1] == 'n' && e[2] == 'g') || (e[0] == 'P'
        && e[1] == 'N' && e[2] == 'G')))
    ||| (e.len() == 4 && ((e[0] == 'j' && e[1] == 'p' && e[2] == 'e' && e[3] == 'g') || (e[0]
        == 'J' && e[1] == 'P' && e[2] == 'E' && e[3] == 'G')))
}

/// Whether the path names an image file, judged by its extension alone.
pub open spec fn is_image_path(p: Seq<char>) -> bool {
    match extension_of(p) {
        Some(e) => is_image_ext(e),
        None => false,
    }
}

/// Checks whether a path points to an image file, by extension.
pub fn is_image(path: &str) -> (r: bool)
    ensures
        r == is_image_path(path@),
{
    let n = path.unicode_len();
    let mut fs: usize = 0;
    let mut dot: usize = 0;
    let mut has_dot = false;
    let mut k: usize = 0;
    while k < n
        invariant
            k <= n,
            n == path@.len(),
            fs <= k,
            fs == file_name_start(path@.take(k as int)),
            has_dot ==> dot < k && dot == last_dot(path@.take(k as int)),
            !has_dot ==> last_dot(path@.take(k as int)) == -1,
        decreases n - k,
    {
        let c = path.get_char(k);
        proof {
            assert(path@.take(k as int + 1).drop_last() =~= path@.take(k as int));
            assert(path@.take(k as int + 1).last() == path@[k as int]);
        }
        if c == '/' {
            fs = k + 1;
        }
        if c == '.' {
            dot = k;
            has_dot = true;
        }
        k += 1;
    }
    proof {
        assert(path@.take(n as int) =~= path@);
    }

    if !has_dot || dot <= fs {
        return false;
    }
    let ghost e = extension_of(path@).unwrap();
    assert(e == path@.subrange(dot as int + 1, n as int));

    let m = n - dot - 1;
    if m == 3 {
        let e0 = path.get_char(dot + 1);
        let e1 = path.get_char(dot + 2);
        let e2 = path.get_char(dot + 3);
        assert(e0 == e[0] && e1 == e[1] && e2 == e[2]);
        (e0 == 'j' && e1 == 'p' && e2 == 'g') || (e0 == 'J' && e1 == 'P' && e2 == 'G') || (e0
            == 'p' && e1 == 'n' && e2 == 'g') || (e0 == 'P' && e1 == 'N' && e2 == 'G')
    } else if m == 4 {
        let e0 = path.get_char(dot + 1);
        let e1 = path.get_char(dot + 2);
        let e2 = path.get_char(dot + 3);
        let e3 = path.get_char(dot + 4);
        assert(e0 == e[0] && e1 == e[1] && e2 == e[2] && e3 == e[3]);
        (e0 == 'j' && e1 == 'p' && e2 == 'e' && e3 == 'g') || (e0 == 'J' && e1 == 'P' && e2
            == 'E' && e3 == 'G')
    } else {
        false
    }
}

} // verus!
