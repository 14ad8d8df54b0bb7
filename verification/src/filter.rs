//! The calendar filter: drop cancelled blocks, repair the closing tag.

use vstd::prelude::*;
use vstd::string::{StrSliceExecFns, StringExecFns};
use crate::marks::{begin_marker, cancel_marker, end_tag};
use crate::search::{is_match, contains_pat, find_from, has_pat, match_at};
use crate::segments::{
    split_by, join_with, retained, segment_cancelled, lemma_match_skip,
    lemma_split_at_first_match, lemma_split_no_match, lemma_retained_snoc, lemma_join_snoc,
};
use crate::trim::{trim_spec, ends_with, trim_str};

verus! {

/// The feed with its cancelled segments removed: the text is split at
/// each block-start marker, cancelled segments are dropped, and the
/// rest is rejoined with the marker between neighbouring segments.
pub open spec fn filtered_join(s: Seq<char>) -> Seq<char> {
    join_with(retained(split_by(s, begin_marker())), begin_marker())
}

/// The text trimmed of surrounding whitespace, with the closing tag
/// appended on a new line when the trimmed text does not already end
/// with it.
pub open spec fn ensure_tag_spec(s: Seq<char>) -> Seq<char> {
    let t = trim_spec(s);
    if ends_with(t, end_tag()) {
        t
    } else {
        t + seq!['\n'] + end_tag()
    }
}

/// What the whole filter returns for a given feed.
pub open spec fn filter_calendar_spec(s: Seq<char>) -> Seq<char> {
    ensure_tag_spec(filtered_join(s))
}

/// Trim the feed and make sure it ends with the closing tag.
pub fn ensure_ending_tag(feed: &str) -> (r: String)
    ensures
        r@ == ensure_tag_spec(feed@),
{
    proof {
        reveal_strlit("END:VCALENDAR");
        reveal_strlit("\n");
    }
    let tag = "END:VCALENDAR";
    let t = trim_str(feed);
    let tl: usize = t.unicode_len();
    if tl >= 13 && match_at(t, tag, tl - 13) {
        proof {
            assert(ends_with(t@, end_tag()));
        }
        t.to_owned()
    } else {
        proof {
            if ends_with(t@, end_tag()) {
                assert(is_match(t@, tag@, tl - 13));
            }
        }
        let mut out = t.to_owned();
        out.append("\n");
        out.append(tag);
        proof {
            assert(out@ =~= trim_spec(feed@) + seq!['\n'] + end_tag());
        }
        out
    }
}

/// The join of the retained segments of the feed.
fn filter_segments(feed: &str) -> (r: String)
    ensures
        r@ == filtered_join(feed@),
{
    proof {
        reveal_strlit("BEGIN:");
        reveal_strlit("STATUS:CANCELLED");
    }
    let bm = "BEGIN:";
    let cm = "STATUS:CANCELLED";
    let n: usize = feed.unicode_len();
    let ghost parts = split_by(feed@, begin_marker());
    let mut out = String::new();
    let mut any = false;
    let mut pos: usize = 0;
    let mut fin = false;
    let ghost mut done: Seq<Seq<char>> = Seq::empty();
    proof {
        assert(feed@.skip(0) =~= feed@);
    }
    while !fin
        invariant
            n == feed@.len(),
            pos <= n,
            bm@ == begin_marker(),
            cm@ == cancel_marker(),
            bm@.len() == 6,
            cm@.len() == 16,
            parts == split_by(feed@, begin_marker()),
            !fin ==> parts == done + split_by(feed@.skip(pos as int), begin_marker()),
            fin ==> parts == done,
            out@ == join_with(retained(done), begin_marker()),
            any == (retained(done).len() > 0),
        decreases n - pos + (if fin { 0int } else { 1int }),
    {
        let found = find_from(feed, bm, pos);
        let endseg: usize = match found {
            Some(j) => j,
            None => n,
        };
        let ghost u = feed@.skip(pos as int);
        let ghost seg = feed@.subrange(pos as int, endseg as int);
        proof {
            match found {
                Some(j) => {
                    lemma_match_skip(feed@, bm@, pos as int, j as int);
                    assert forall|k: int| 0 <= k < j - pos implies !is_match(u, bm@, k) by {
                        lemma_match_skip(feed@, bm@, pos as int, k + pos);
                    }
                    lemma_split_at_first_match(u, bm@, j - pos);
                    assert(u.take(j - pos) =~= seg);
                    assert(u.skip(j - pos + 6) =~= feed@.skip(j + 6));
                },
                None => {
                    assert forall|k: int| !is_match(u, bm@, k) by {
                        if 0 <= k {
                            lemma_match_skip(feed@, bm@, pos as int, k + pos);
                        }
                    }
                    assert(!contains_pat(u, bm@));
                    lemma_split_no_match(u, bm@);
                    assert(u =~= seg);
                },
            }
        }
        let seg_str = feed.substring_char(pos, endseg);
        let cancelled = has_pat(seg_str, cm);
        proof {
            lemma_retained_snoc(done, seg);
            lemma_join_snoc(retained(done), seg, bm@);
            assert(segment_cancelled(seg) == cancelled);
        }
        if !cancelled {
            if any {
                out.append(bm);
            } else {
                proof {
                    assert(Seq::<char>::empty() + seg =~= seg);
                }
            }
            out.append(seg_str);
            any = true;
        }
        proof {
            done = done.push(seg);
        }
        match found {
            Some(j) => {
                pos = j + 6;
                proof {
                    assert(done + split_by(feed@.skip(pos as int), begin_marker()) =~= (
                    done.drop_last() + (seq![seg] + split_by(
                        feed@.skip(pos as int),
                        begin_marker(),
                    ))));
                }
            },
            None => {
                fin = true;
                proof {
                    assert(done =~= done.drop_last() + seq![seg]);
                }
            },
        }
    }
    out
}

/// Remove every cancelled block from the feed and make sure the
/// result ends with the closing tag.
pub fn filter_calendar(feed: &str) -> (r: String)
    ensures
        r@ == filter_calendar_spec(feed@),
{
    let joined = filter_segments(feed);
    ensure_ending_tag(joined.as_str())
}

} // verus!
