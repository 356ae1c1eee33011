//! Glob matching of tool names with `*` and `?`.
use vstd::prelude::*;
use crate::text::chars_of;

verus! {

/// Whether the pattern `p` from position `pi` matches the text `t` from
/// position `ti`.
///
/// `?` matches one character, `*` any run of characters (the empty one
/// too), and any other character matches itself.
pub open spec fn glob_from(p: Seq<char>, pi: int, t: Seq<char>, ti: int) -> bool
    decreases p.len() - pi, t.len() - ti, 0int,
{
    if pi >= p.len() {
        ti >= t.len()
    } else if p[pi] == '*' {
        if pi + 1 >= p.len() {
            true
        } else {
            star_from(p, pi + 1, t, ti)
        }
    } else if ti >= t.len() {
        false
    } else if p[pi] == '?' {
        glob_from(p, pi + 1, t, ti + 1)
    } else {
        t[ti] == p[pi] && glob_from(p, pi + 1, t, ti + 1)
    }
}

/// Whether the pattern `p` from position `pi` matches the text `t` from one
/// of the positions `k`, `k + 1`, ..., up to its end.
pub open spec fn star_from(p: Seq<char>, pi: int, t: Seq<char>, k: int) -> bool
    decreases p.len() - pi, t.len() - k, 1int,
{
    if k >= t.len() {
        glob_from(p, pi, t, k)
    } else {
        glob_from(p, pi, t, k) || star_from(p, pi, t, k + 1)
    }
}

/// Whether the glob pattern `p` matches the whole text `t`.
pub open spec fn glob_matches(p: Seq<char>, t: Seq<char>) -> bool {
    glob_from(p, 0, t, 0)
}

fn glob_at(p: &[char], pi: usize, t: &[char], ti: usize) -> (r: bool)
    requires
        pi <= p.len(),
        ti <= t.len(),
    ensures
        r == glob_from(p@, pi as int, t@, ti as int),
    decreases p.len() - pi, t.len() - ti,
{
    if pi >= p.len() {
        return ti >= t.len();
    }
    if p[pi] == '*' {
        if pi + 1 >= p.len() {
            return true;
        }
        let mut k = ti;
        while k < t.len()
            invariant
                ti <= k <= t.len(),
                pi + 1 < p.len(),
                p@[pi as int] == '*',
                star_from(p@, pi + 1, t@, ti as int) == star_from(p@, pi + 1, t@, k as int),
            decreases t.len() - k,
        {
            if glob_at(p, pi + 1, t, k) {
                assert(glob_from(p@, pi as int + 1, t@, k as int));
                assert(star_from(p@, pi as int + 1, t@, k as int));
                return true;
            }
            assert(!glob_from(p@, pi as int + 1, t@, k as int));
            assert(star_from(p@, pi as int + 1, t@, k as int) == star_from(p@, pi as int + 1, t@, k as int + 1));
            k = k + 1;
        }
        return glob_at(p, pi + 1, t, k);
    }
    if ti >= t.len() {
        return false;
    }
    if p[pi] == '?' {
        return glob_at(p, pi + 1, t, ti + 1);
    }
    if t[ti] != p[pi] {
        return false;
    }
    glob_at(p, pi + 1, t, ti + 1)
}

/// Whether the glob `pattern` (with `*` and `?`) matches all of `text`.
pub fn glob_match(pattern: &str, text: &str) -> (r: bool)
    ensures
        r == glob_matches(pattern@, text@),
{
    let p = chars_of(pattern);
    let t = chars_of(text);
    glob_at(p.as_slice(), 0, t.as_slice(), 0)
}

} // verus!
