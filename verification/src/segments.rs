//! Splitting a feed into segments at each block-start marker,
//! discarding cancelled segments, and rejoining the rest.

use vstd::prelude::*;
use crate::marks::cancel_marker;
use crate::search::{is_match, contains_pat, no_match_before};

verus! {

/// The segments of `s`, split at each leftmost, non-overlapping
/// occurrence of `pat`.  The occurrences themselves are not part of
/// any segment.  There is always at least one segment: the text before
/// the first occurrence, which is all of `s` when `pat` never occurs.
pub open spec fn split_by(s: Seq<char>, pat: Seq<char>) -> Seq<Seq<char>>
    decreases s.len(),
{
    if pat.len() == 0 || s.len() < pat.len() {
        seq![s]
    } else if is_match(s, pat, 0) {
        seq![Seq::<char>::empty()] + split_by(s.skip(pat.len() as int), pat)
    } else {
        let rest = split_by(s.skip(1), pat);
        seq![seq![s[0]] + rest[0]] + rest.skip(1)
    }
}

/// The parts joined back into one text, with `sep` between
/// neighbouring parts.
pub open spec fn join_with(parts: Seq<Seq<char>>, sep: Seq<char>) -> Seq<char>
    decreases parts.len(),
{
    if parts.len() == 0 {
        Seq::empty()
    } else if parts.len() == 1 {
        parts[0]
    } else {
        parts[0] + sep + join_with(parts.skip(1), sep)
    }
}

/// A segment that holds the cancellation marker.
pub open spec fn segment_cancelled(seg: Seq<char>) -> bool {
    contains_pat(seg, cancel_marker())
}

/// The parts that are not cancelled, in their original order.
pub open spec fn retained(parts: Seq<Seq<char>>) -> Seq<Seq<char>>
    decreases parts.len(),
{
    if parts.len() == 0 {
        Seq::empty()
    } else if segment_cancelled(parts[0]) {
        retained(parts.skip(1))
    } else {
        seq![parts[0]] + retained(parts.skip(1))
    }
}

/// A split always yields at least one segment.
pub proof fn lemma_split_len(s: Seq<char>, pat: Seq<char>)
    ensures
        split_by(s, pat).len() >= 1,
    decreases s.len(),
{
    if pat.len() == 0 || s.len() < pat.len() {
    } else if is_match(s, pat, 0) {
        lemma_split_len(s.skip(pat.len() as int), pat);
    } else {
        lemma_split_len(s.skip(1), pat);
    }
}

/// Dropping `k` leading characters shifts every occurrence by `k`.
pub proof fn lemma_match_skip(s: Seq<char>, pat: Seq<char>, k: int, i: int)
    requires
        0 <= k <= i,
        k <= s.len(),
    ensures
        is_match(s, pat, i) <==> is_match(s.skip(k), pat, i - k),
{
    if i + pat.len() <= s.len() {
        assert(s.skip(k).subrange(i - k, i - k + pat.len()) =~= s.subrange(
            i,
            i + pat.len(),
        ));
    }
}

/// Splitting at the first occurrence: the text before it is the first
/// segment, and the rest of the split is the split of what follows it.
pub proof fn lemma_split_at_first_match(s: Seq<char>, pat: Seq<char>, i: int)
    requires
        pat.len() >= 1,
        is_match(s, pat, i),
        no_match_before(s, pat, i),
    ensures
        split_by(s, pat) == seq![s.take(i)] + split_by(s.skip(i + pat.len()), pat),
    decreases i,
{
    let p = pat.len() as int;
    if i == 0 {
        assert(s.take(0) =~= Seq::<char>::empty());
        assert(seq![s.take(0)] + split_by(s.skip(p), pat) =~= seq![Seq::<char>::empty()]
            + split_by(s.skip(p), pat));
    } else {
        assert(!is_match(s, pat, 0));
        let u = s.skip(1);
        lemma_match_skip(s, pat, 1, i);
        assert forall|k: int| 0 <= k < i - 1 implies !is_match(u, pat, k) by {
            lemma_match_skip(s, pat, 1, k + 1);
        }
        lemma_split_at_first_match(u, pat, i - 1);
        let rest = split_by(u, pat);
        assert(u.skip(i - 1 + p) =~= s.skip(i + p));
        assert(rest == seq![u.take(i - 1)] + split_by(s.skip(i + p), pat));
        lemma_split_len(s.skip(i + p), pat);
        assert(rest[0] == u.take(i - 1));
        assert(rest.skip(1) =~= split_by(s.skip(i + p), pat));
        assert(seq![s[0]] + rest[0] =~= s.take(i));
        assert(split_by(s, pat) == seq![seq![s[0]] + rest[0]] + rest.skip(1));
        assert(seq![seq![s[0]] + rest[0]] + rest.skip(1) =~= seq![s.take(i)] + split_by(
            s.skip(i + p),
            pat,
        ));
    }
}

/// When `pat` never occurs in `s`, the split is `s` alone.
pub proof fn lemma_split_no_match(s: Seq<char>, pat: Seq<char>)
    requires
        pat.len() >= 1,
        !contains_pat(s, pat),
    ensures
        split_by(s, pat) == seq![s],
    decreases s.len(),
{
    if s.len() < pat.len() {
    } else {
        assert(!is_match(s, pat, 0));
        let u = s.skip(1);
        assert forall|k: int| !is_match(u, pat, k) by {
            if 0 <= k {
                lemma_match_skip(s, pat, 1, k + 1);
            }
        }
        assert(!contains_pat(u, pat));
        lemma_split_no_match(u, pat);
        let rest = split_by(u, pat);
        assert(rest[0] == u);
        assert(rest.skip(1) =~= Seq::<Seq<char>>::empty());
        assert(seq![s[0]] + u =~= s);
        assert(seq![seq![s[0]] + rest[0]] + rest.skip(1) =~= seq![s]);
    }
}

/// Joining what a split produced, with the very pattern the text was
/// split at, restores the original text.
pub proof fn lemma_join_split(s: Seq<char>, pat: Seq<char>)
    requires
        pat.len() >= 1,
    ensures
        join_with(split_by(s, pat), pat) == s,
    decreases s.len(),
{
    let p = pat.len() as int;
    if s.len() < p {
    } else if is_match(s, pat, 0) {
        let tail = split_by(s.skip(p), pat);
        lemma_split_len(s.skip(p), pat);
        lemma_join_split(s.skip(p), pat);
        let sp = seq![Seq::<char>::empty()] + tail;
        assert(sp.len() >= 2);
        assert(sp[0] == Seq::<char>::empty());
        assert(sp.skip(1) =~= tail);
        assert(join_with(sp, pat) == sp[0] + pat + join_with(tail, pat));
        assert(sp[0] + pat + s.skip(p) =~= s.subrange(0, p) + s.skip(p));
        assert(s.subrange(0, p) + s.skip(p) =~= s);
    } else {
        let rest = split_by(s.skip(1), pat);
        lemma_split_len(s.skip(1), pat);
        lemma_join_split(s.skip(1), pat);
        let sp = seq![seq![s[0]] + rest[0]] + rest.skip(1);
        assert(sp[0] == seq![s[0]] + rest[0]);
        if rest.len() == 1 {
            assert(join_with(rest, pat) == rest[0]);
            assert(sp.len() == 1);
            assert(join_with(sp, pat) == seq![s[0]] + rest[0]);
            assert(seq![s[0]] + s.skip(1) =~= s);
        } else {
            assert(sp.len() >= 2);
            assert(sp.skip(1) =~= rest.skip(1));
            assert(join_with(sp, pat) == sp[0] + pat + join_with(rest.skip(1), pat));
            assert(join_with(rest, pat) == rest[0] + pat + join_with(rest.skip(1), pat));
            assert(sp[0] + pat + join_with(rest.skip(1), pat) =~= seq![s[0]] + (rest[0] + pat
                + join_with(rest.skip(1), pat)));
            assert(seq![s[0]] + s.skip(1) =~= s);
        }
    }
}

/// Appending one part to a join appends the separator and the part.
pub proof fn lemma_join_snoc(parts: Seq<Seq<char>>, x: Seq<char>, sep: Seq<char>)
    ensures
        join_with(parts.push(x), sep) == if parts.len() == 0 {
            x
        } else {
            join_with(parts, sep) + sep + x
        },
    decreases parts.len(),
{
    let q = parts.push(x);
    if parts.len() == 0 {
        assert(q.len() == 1);
        assert(q[0] == x);
    } else if parts.len() == 1 {
        assert(q.len() == 2);
        assert(q.skip(1) =~= seq![x]);
        assert(join_with(q, sep) == q[0] + sep + join_with(seq![x], sep));
        assert(join_with(seq![x], sep) == x);
        assert(q[0] == parts[0]);
    } else {
        assert(q.skip(1) =~= parts.skip(1).push(x));
        lemma_join_snoc(parts.skip(1), x, sep);
        assert(join_with(q, sep) == q[0] + sep + join_with(parts.skip(1).push(x), sep));
        assert(join_with(parts.skip(1).push(x), sep) == join_with(parts.skip(1), sep) + sep + x);
        assert(q[0] + sep + (join_with(parts.skip(1), sep) + sep + x) =~= (parts[0] + sep
            + join_with(parts.skip(1), sep)) + sep + x);
    }
}

/// Appending one part keeps the retained parts, with the new part
/// added exactly when it is not cancelled.
pub proof fn lemma_retained_snoc(parts: Seq<Seq<char>>, x: Seq<char>)
    ensures
        retained(parts.push(x)) == if segment_cancelled(x) {
            retained(parts)
        } else {
            retained(parts).push(x)
        },
    decreases parts.len(),
{
    let q = parts.push(x);
    if parts.len() == 0 {
        assert(q[0] == x);
        assert(q.skip(1) =~= Seq::<Seq<char>>::empty());
        if !segment_cancelled(x) {
            assert(seq![x] + retained(Seq::<Seq<char>>::empty()) =~= Seq::<Seq<
                char,
            >>::empty().push(x));
        }
    } else {
        assert(q[0] == parts[0]);
        assert(q.skip(1) =~= parts.skip(1).push(x));
        lemma_retained_snoc(parts.skip(1), x);
        if segment_cancelled(parts[0]) {
        } else {
            if segment_cancelled(x) {
            } else {
                assert(seq![parts[0]] + retained(parts.skip(1)).push(x) =~= (seq![parts[0]]
                    + retained(parts.skip(1))).push(x));
            }
        }
    }
}

} // verus!
