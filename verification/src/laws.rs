//! The guarantees the filter gives, proved from the contracts of the
//! functions in this crate.

use vstd::prelude::*;
use crate::marks::{begin_marker, cancel_marker, end_tag, marker_facts};
use crate::search::{
    is_match, contains_pat, count_matches_from, lemma_match_in_prefix, lemma_match_in_suffix,
    lemma_count_single,
};
use crate::segments::{split_by, join_with, retained, segment_cancelled, lemma_join_split};
use crate::trim::{trim_spec, ends_with, is_ws, lemma_contains_trim, lemma_trim_ends,
    lemma_trim_idempotent, lemma_drop_leading, lemma_drop_trailing};
use crate::filter::{filtered_join, ensure_tag_spec, filter_calendar_spec};

verus! {

/// An occurrence inside any one part is an occurrence in the join.
pub proof fn lemma_contains_join(parts: Seq<Seq<char>>, sep: Seq<char>, q: Seq<char>, k: int)
    requires
        0 <= k < parts.len(),
        contains_pat(parts[k], q),
    ensures
        contains_pat(join_with(parts, sep), q),
    decreases parts.len(),
{
    if parts.len() == 1 {
    } else if k == 0 {
        let i = choose|i: int| is_match(parts[0], q, i);
        lemma_match_in_prefix(parts[0], sep, q, i);
        lemma_match_in_prefix(parts[0] + sep, join_with(parts.skip(1), sep), q, i);
    } else {
        lemma_contains_join(parts.skip(1), sep, q, k - 1);
        let i = choose|i: int| is_match(join_with(parts.skip(1), sep), q, i);
        lemma_match_in_suffix(parts[0] + sep, join_with(parts.skip(1), sep), q, i);
    }
}

/// When no part is cancelled, all parts are retained.
pub proof fn lemma_retained_all(parts: Seq<Seq<char>>)
    requires
        forall|j: int| 0 <= j < parts.len() ==> !segment_cancelled(parts[j]),
    ensures
        retained(parts) == parts,
    decreases parts.len(),
{
    if parts.len() == 0 {
        assert(retained(parts) =~= parts);
    } else {
        lemma_retained_all(parts.skip(1));
        assert(seq![parts[0]] + parts.skip(1) =~= parts);
    }
}

/// When exactly the part at `k` is cancelled, the retained parts are
/// all the others, in their original order.
pub proof fn lemma_retained_one_cancelled(parts: Seq<Seq<char>>, k: int)
    requires
        0 <= k < parts.len(),
        segment_cancelled(parts[k]),
        forall|j: int| 0 <= j < parts.len() && j != k ==> !segment_cancelled(parts[j]),
    ensures
        retained(parts) == parts.remove(k),
    decreases parts.len(),
{
    if k == 0 {
        lemma_retained_all(parts.skip(1));
        assert(parts.remove(0) =~= parts.skip(1));
    } else {
        lemma_retained_one_cancelled(parts.skip(1), k - 1);
        assert(seq![parts[0]] + parts.skip(1).remove(k - 1) =~= parts.remove(k));
    }
}

/// Whatever the feed, the filtered output ends with the closing tag,
/// and so is never empty.
pub proof fn lemma_output_ends_with_tag(s: Seq<char>)
    ensures
        ends_with(ensure_tag_spec(s), end_tag()),
        ensure_tag_spec(s).len() >= end_tag().len(),
{
    marker_facts();
    let t = trim_spec(s);
    if !ends_with(t, end_tag()) {
        let r = t + seq!['\n'] + end_tag();
        assert(r.subrange(r.len() - 13, r.len() as int) =~= end_tag());
    }
}

/// Of a feed in which exactly one segment is cancelled, the filter
/// removes that segment's full text and keeps every other segment
/// verbatim, in order: the output is the join of the others, with the
/// closing tag ensured.
pub proof fn lemma_one_cancelled_block(feed: Seq<char>, k: int)
    requires
        0 <= k < split_by(feed, begin_marker()).len(),
        segment_cancelled(split_by(feed, begin_marker())[k]),
        forall|j: int|
            0 <= j < split_by(feed, begin_marker()).len() && j != k ==> !segment_cancelled(
                split_by(feed, begin_marker())[j],
            ),
    ensures
        filter_calendar_spec(feed) == ensure_tag_spec(
            join_with(split_by(feed, begin_marker()).remove(k), begin_marker()),
        ),
{
    lemma_retained_one_cancelled(split_by(feed, begin_marker()), k);
}

/// Filtering a feed that holds no cancellation marker only
/// normalises its surrounding whitespace and its closing tag; when
/// the trimmed feed already ends with the closing tag, the output is
/// exactly the trimmed feed.
pub proof fn lemma_already_filtered(feed: Seq<char>)
    requires
        !contains_pat(feed, cancel_marker()),
    ensures
        filter_calendar_spec(feed) == ensure_tag_spec(feed),
        ends_with(trim_spec(feed), end_tag()) ==> filter_calendar_spec(feed) == trim_spec(feed),
{
    marker_facts();
    let parts = split_by(feed, begin_marker());
    lemma_join_split(feed, begin_marker());
    assert forall|j: int| 0 <= j < parts.len() implies !segment_cancelled(parts[j]) by {
        if segment_cancelled(parts[j]) {
            lemma_contains_join(parts, begin_marker(), cancel_marker(), j);
        }
    }
    lemma_retained_all(parts);
}

/// A join of parts, none of which holds the closing tag, holds no
/// closing tag: an occurrence cannot straddle an inserted block-start
/// marker either, since no alignment of the two marker texts agrees.
pub proof fn lemma_no_tag_in_join(parts: Seq<Seq<char>>)
    requires
        forall|j: int| 0 <= j < parts.len() ==> !contains_pat(parts[j], end_tag()),
    ensures
        !contains_pat(join_with(parts, begin_marker()), end_tag()),
    decreases parts.len(),
{
    marker_facts();
    let bm = begin_marker();
    let tag = end_tag();
    let jn = join_with(parts, bm);
    if parts.len() == 0 {
        assert forall|o: int| !is_match(jn, tag, o) by {}
    } else if parts.len() == 1 {
    } else {
        assert forall|j: int| 0 <= j < parts.skip(1).len() implies !contains_pat(
            parts.skip(1)[j],
            tag,
        ) by {
            assert(parts.skip(1)[j] == parts[j + 1]);
        }
        lemma_no_tag_in_join(parts.skip(1));
        let p0 = parts[0];
        let rest = join_with(parts.skip(1), bm);
        let q = p0.len() as int;
        assert(jn == p0 + bm + rest);
        assert forall|o: int| !is_match(jn, tag, o) by {
            if is_match(jn, tag, o) {
                if o + 13 <= q {
                    assert(jn.subrange(o, o + 13) =~= p0.subrange(o, o + 13));
                    assert(is_match(p0, tag, o));
                } else if o >= q + 6 {
                    assert(jn.subrange(o, o + 13) =~= rest.subrange(o - q - 6, o - q + 7));
                    assert(is_match(rest, tag, o - q - 6));
                } else if o <= q {
                    assert(jn.subrange(o, o + 13)[q - o] == jn[q]);
                    assert(jn[q] == bm[0]);
                    assert(tag[q - o] == bm[0]);
                } else {
                    let d = o - q;
                    if d == 1 {
                        assert(jn.subrange(o, o + 13)[1] == jn[o + 1]);
                        assert(jn[o + 1] == bm[2]);
                        assert(tag[1] == bm[2]);
                    } else {
                        assert(jn.subrange(o, o + 13)[0] == jn[o]);
                        assert(jn[o] == bm[d]);
                        assert(tag[0] == bm[d]);
                    }
                }
            }
        }
    }
}

/// When every part that is not cancelled lacks the closing tag, every
/// retained part lacks it too.
proof fn lemma_retained_lack_tag(parts: Seq<Seq<char>>)
    requires
        forall|j: int|
            0 <= j < parts.len() && !segment_cancelled(parts[j]) ==> !contains_pat(
                parts[j],
                end_tag(),
            ),
    ensures
        forall|j: int|
            0 <= j < retained(parts).len() ==> !contains_pat(retained(parts)[j], end_tag()),
    decreases parts.len(),
{
    if parts.len() == 0 {
    } else {
        assert forall|j: int|
            0 <= j < parts.skip(1).len() && !segment_cancelled(parts.skip(1)[j]) implies
            !contains_pat(parts.skip(1)[j], end_tag()) by {
            assert(parts.skip(1)[j] == parts[j + 1]);
        }
        lemma_retained_lack_tag(parts.skip(1));
        if segment_cancelled(parts[0]) {
            assert(retained(parts) == retained(parts.skip(1)));
        } else {
            assert forall|j: int| 0 <= j < retained(parts).len() implies !contains_pat(
                retained(parts)[j],
                end_tag(),
            ) by {
                if j == 0 {
                    assert(retained(parts)[0] == parts[0]);
                } else {
                    assert(retained(parts)[j] == retained(parts.skip(1))[j - 1]);
                }
            }
        }
    }
}

/// No retained part is cancelled.
proof fn lemma_retained_not_cancelled(parts: Seq<Seq<char>>)
    ensures
        forall|j: int|
            0 <= j < retained(parts).len() ==> !segment_cancelled(retained(parts)[j]),
    decreases parts.len(),
{
    if parts.len() == 0 {
    } else {
        lemma_retained_not_cancelled(parts.skip(1));
        if segment_cancelled(parts[0]) {
            assert(retained(parts) == retained(parts.skip(1)));
        } else {
            assert forall|j: int| 0 <= j < retained(parts).len() implies !segment_cancelled(
                retained(parts)[j],
            ) by {
                if j == 0 {
                    assert(retained(parts)[0] == parts[0]);
                } else {
                    assert(retained(parts)[j] == retained(parts.skip(1))[j - 1]);
                }
            }
        }
    }
}

/// A join of parts, none of which holds the cancellation marker,
/// holds no cancellation marker: an occurrence cannot straddle an
/// inserted block-start marker either, since no alignment of the two
/// marker texts agrees.
proof fn lemma_no_cancel_in_join(parts: Seq<Seq<char>>)
    requires
        forall|j: int| 0 <= j < parts.len() ==> !segment_cancelled(parts[j]),
    ensures
        !contains_pat(join_with(parts, begin_marker()), cancel_marker()),
    decreases parts.len(),
{
    marker_facts();
    let bm = begin_marker();
    let cm = cancel_marker();
    let jn = join_with(parts, bm);
    if parts.len() == 0 {
        assert forall|o: int| !is_match(jn, cm, o) by {}
    } else if parts.len() == 1 {
    } else {
        assert forall|j: int| 0 <= j < parts.skip(1).len() implies !segment_cancelled(
            parts.skip(1)[j],
        ) by {
            assert(parts.skip(1)[j] == parts[j + 1]);
        }
        lemma_no_cancel_in_join(parts.skip(1));
        let p0 = parts[0];
        let rest = join_with(parts.skip(1), bm);
        let q = p0.len() as int;
        assert(jn == p0 + bm + rest);
        assert forall|o: int| !is_match(jn, cm, o) by {
            if is_match(jn, cm, o) {
                if o + 16 <= q {
                    assert(jn.subrange(o, o + 16) =~= p0.subrange(o, o + 16));
                    assert(is_match(p0, cm, o));
                } else if o >= q + 6 {
                    assert(jn.subrange(o, o + 16) =~= rest.subrange(o - q - 6, o - q + 10));
                    assert(is_match(rest, cm, o - q - 6));
                } else if o <= q {
                    assert(jn.subrange(o, o + 16)[q - o] == jn[q]);
                    assert(jn[q] == bm[0]);
                    assert(cm[q - o] == bm[0]);
                } else {
                    let d = o - q;
                    assert(jn.subrange(o, o + 16)[0] == jn[o]);
                    assert(jn[o] == bm[d]);
                    assert(cm[0] == bm[d]);
                }
            }
        }
    }
}

/// The filtered output never holds a cancellation marker: the
/// retained segments hold none, and none arises from the rejoining,
/// the trimming, or the appended closing tag.
pub proof fn lemma_output_no_cancel(feed: Seq<char>)
    ensures
        !contains_pat(filter_calendar_spec(feed), cancel_marker()),
{
    marker_facts();
    let cm = cancel_marker();
    let parts = split_by(feed, begin_marker());
    lemma_retained_not_cancelled(parts);
    lemma_no_cancel_in_join(retained(parts));
    let fj = filtered_join(feed);
    let t = trim_spec(fj);
    if contains_pat(t, cm) {
        lemma_contains_trim(fj, cm);
    }
    if ends_with(t, end_tag()) {
    } else {
        let r = t + seq!['\n'] + end_tag();
        assert forall|o: int| !is_match(r, cm, o) by {
            if is_match(r, cm, o) {
                if o + 16 <= t.len() {
                    assert(r.subrange(o, o + 16) =~= t.subrange(o, o + 16));
                    assert(is_match(t, cm, o));
                } else {
                    assert(r.subrange(o, o + 16)[t.len() - o] == r[t.len() as int]);
                    assert(r[t.len() as int] == '\n');
                    assert(cm[t.len() - o] == '\n');
                }
            }
        }
    }
}

/// Filtering twice gives exactly what filtering once gives, for every
/// feed whose retained text is not whitespace alone.
pub proof fn lemma_filter_idempotent(feed: Seq<char>)
    requires
        trim_spec(filtered_join(feed)).len() > 0,
    ensures
        filter_calendar_spec(filter_calendar_spec(feed)) == filter_calendar_spec(feed),
{
    marker_facts();
    let fj = filtered_join(feed);
    let t = trim_spec(fj);
    let y = filter_calendar_spec(feed);
    lemma_output_no_cancel(feed);
    lemma_already_filtered(y);
    lemma_trim_ends(fj);
    lemma_output_ends_with_tag(fj);
    if ends_with(t, end_tag()) {
        lemma_trim_idempotent(fj);
    } else {
        assert(y == t + seq!['\n'] + end_tag());
        assert(y[0] == t[0]);
        assert(!is_ws(y[0]));
        reveal_strlit("END:VCALENDAR");
        assert(y.last() == end_tag()[12]);
        assert(!is_ws(y.last()));
        lemma_drop_leading(y, 0);
        assert(y.skip(0) =~= y);
        lemma_drop_trailing(y, y.len() as int);
        assert(y.take(y.len() as int) =~= y);
        assert(trim_spec(y) == y);
    }
    assert(trim_spec(y) == y);
    assert(ends_with(trim_spec(y), end_tag()));
}

/// When the removed segment was the last one — the block that carried
/// the closing tag, the other segments holding none — the output
/// still ends with the closing tag, and holds it exactly once.
pub proof fn lemma_cancelled_tail_keeps_tag(feed: Seq<char>)
    requires
        segment_cancelled(split_by(feed, begin_marker()).last()),
        forall|j: int|
            0 <= j < split_by(feed, begin_marker()).len() - 1 ==> !contains_pat(
                split_by(feed, begin_marker())[j],
                end_tag(),
            ),
    ensures
        ends_with(filter_calendar_spec(feed), end_tag()),
        count_matches_from(filter_calendar_spec(feed), end_tag(), 0) == 1,
{
    marker_facts();
    let parts = split_by(feed, begin_marker());
    lemma_retained_lack_tag(parts);
    lemma_no_tag_in_join(retained(parts));
    let fj = filtered_join(feed);
    let t = trim_spec(fj);
    let tag = end_tag();
    if contains_pat(t, tag) {
        lemma_contains_trim(fj, tag);
    }
    if ends_with(t, tag) {
        assert(is_match(t, tag, t.len() - 13));
    }
    let r = t + seq!['\n'] + tag;
    assert(filter_calendar_spec(feed) == r);
    assert(r.subrange(r.len() - 13, r.len() as int) =~= tag);
    assert(r.subrange(t.len() as int + 1, t.len() as int + 14) =~= tag);
    assert(is_match(r, tag, t.len() as int + 1));
    assert forall|k: int| is_match(r, tag, k) implies k == t.len() + 1 by {
        if k != t.len() + 1 {
            if k + 13 <= t.len() {
                assert(r.subrange(k, k + 13) =~= t.subrange(k, k + 13));
                assert(is_match(t, tag, k));
            } else {
                let a = t.len() - k;
                assert(r.subrange(k, k + 13)[a] == r[t.len() as int]);
                assert(r[t.len() as int] == '\n');
                assert(tag[a] == '\n');
            }
        }
    }
    lemma_count_single(r, tag, t.len() as int + 1, 0);
}

} // verus!
