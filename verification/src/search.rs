//! Substring search over character sequences.

use vstd::prelude::*;
use vstd::string::StrSliceExecFns;

verus! {

/// `pat` occurs in `s` starting at position `i`.
pub open spec fn is_match(s: Seq<char>, pat: Seq<char>, i: int) -> bool {
    &&& 0 <= i
    &&& i + pat.len() <= s.len()
    &&& s.subrange(i, i + pat.len()) == pat
}

/// `pat` occurs somewhere in `s`.
pub open spec fn contains_pat(s: Seq<char>, pat: Seq<char>) -> bool {
    exists|i: int| is_match(s, pat, i)
}

/// No occurrence of `pat` in `s` starts before position `n`.
pub open spec fn no_match_before(s: Seq<char>, pat: Seq<char>, n: int) -> bool {
    forall|i: int| 0 <= i < n ==> !is_match(s, pat, i)
}

/// The number of positions at or after `i` where `pat` occurs in `s`.
pub open spec fn count_matches_from(s: Seq<char>, pat: Seq<char>, i: int) -> nat
    decreases s.len() - i,
{
    if pat.len() == 0 || i < 0 || i + pat.len() > s.len() {
        0
    } else {
        (if is_match(s, pat, i) {
            1nat
        } else {
            0nat
        }) + count_matches_from(s, pat, i + 1)
    }
}

/// An occurrence in `x` is an occurrence in `x + y`.
pub proof fn lemma_match_in_prefix(x: Seq<char>, y: Seq<char>, q: Seq<char>, i: int)
    requires
        is_match(x, q, i),
    ensures
        is_match(x + y, q, i),
{
    assert((x + y).subrange(i, i + q.len()) =~= x.subrange(i, i + q.len()));
}

/// An occurrence in `y` is an occurrence in `x + y`, shifted.
pub proof fn lemma_match_in_suffix(x: Seq<char>, y: Seq<char>, q: Seq<char>, i: int)
    requires
        is_match(y, q, i),
    ensures
        is_match(x + y, q, i + x.len()),
{
    assert((x + y).subrange(x.len() + i, x.len() + i + q.len()) =~= y.subrange(
        i,
        i + q.len(),
    ));
}

/// When `pat` occurs at `w` and nowhere else, counting from any
/// position at or before `w` finds exactly that occurrence.
pub proof fn lemma_count_single(s: Seq<char>, pat: Seq<char>, w: int, i: int)
    requires
        pat.len() >= 1,
        is_match(s, pat, w),
        forall|k: int| is_match(s, pat, k) ==> k == w,
        0 <= i,
    ensures
        count_matches_from(s, pat, i) == if i <= w {
            1nat
        } else {
            0nat
        },
    decreases s.len() - i,
{
    if i + pat.len() > s.len() {
    } else {
        lemma_count_single(s, pat, w, i + 1);
    }
}

/// Does `pat` occur in `s` starting at position `i`?
pub fn match_at(s: &str, pat: &str, i: usize) -> (b: bool)
    requires
        i + pat@.len() <= s@.len(),
    ensures
        b == is_match(s@, pat@, i as int),
{
    let n: usize = s.unicode_len();
    let m: usize = pat.unicode_len();
    let mut j: usize = 0;
    while j < m
        invariant
            j <= m,
            m == pat@.len(),
            n == s@.len(),
            i + m <= n,
            forall|k: int| 0 <= k < j ==> s@[i + k] == pat@[k],
        decreases m - j,
    {
        if s.get_char(i + j) != pat.get_char(j) {
            proof {
                if is_match(s@, pat@, i as int) {
                    assert(s@.subrange(i as int, i + pat@.len())[j as int] == pat@[j as int]);
                }
            }
            return false;
        }
        j = j + 1;
    }
    proof {
        assert(s@.subrange(i as int, i + pat@.len()) =~= pat@);
    }
    true
}

/// The position of the first occurrence of `pat` in `s` at or after
/// `from`, or `None` when there is none.
pub fn find_from(s: &str, pat: &str, from: usize) -> (r: Option<usize>)
    requires
        pat@.len() >= 1,
        from <= s@.len(),
    ensures
        match r {
            Some(i) => {
                &&& from <= i
                &&& is_match(s@, pat@, i as int)
                &&& forall|k: int| from <= k < i ==> !is_match(s@, pat@, k)
            },
            None => forall|k: int| from <= k ==> !is_match(s@, pat@, k),
        },
{
    let n: usize = s.unicode_len();
    let m: usize = pat.unicode_len();
    if m > n {
        return None;
    }
    let mut i: usize = from;
    while i <= n - m
        invariant
            from <= i,
            m == pat@.len(),
            n == s@.len(),
            1 <= m <= n,
            forall|k: int| from <= k < i ==> !is_match(s@, pat@, k),
        decreases n - i,
    {
        if match_at(s, pat, i) {
            return Some(i);
        }
        i = i + 1;
    }
    None
}

/// Does `pat` occur anywhere in `s`?
pub fn has_pat(s: &str, pat: &str) -> (b: bool)
    requires
        pat@.len() >= 1,
    ensures
        b == contains_pat(s@, pat@),
{
    match find_from(s, pat, 0) {
        Some(_) => true,
        None => false,
    }
}

} // verus!
