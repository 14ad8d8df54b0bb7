//! Whitespace trimming and the suffix check for the closing tag.

use vstd::prelude::*;
use vstd::string::StrSliceExecFns;
use crate::search::{is_match, contains_pat};

verus! {

/// The characters with the Unicode `White_Space` property: the ones
/// that trimming removes from the ends of the text.
pub open spec fn is_ws(c: char) -> bool {
    ||| c == '\u{9}'
    ||| c == '\u{A}'
    ||| c == '\u{B}'
    ||| c == '\u{C}'
    ||| c == '\u{D}'
    ||| c == ' '
    ||| c == '\u{85}'
    ||| c == '\u{A0}'
    ||| c == '\u{1680}'
    ||| c == '\u{2000}'
    ||| c == '\u{2001}'
    ||| c == '\u{2002}'
    ||| c == '\u{2003}'
    ||| c == '\u{2004}'
    ||| c == '\u{2005}'
    ||| c == '\u{2006}'
    ||| c == '\u{2007}'
    ||| c == '\u{2008}'
    ||| c == '\u{2009}'
    ||| c == '\u{200A}'
    ||| c == '\u{2028}'
    ||| c == '\u{2029}'
    ||| c == '\u{202F}'
    ||| c == '\u{205F}'
    ||| c == '\u{3000}'
}

/// `s` without its leading whitespace.
pub open spec fn drop_leading_ws(s: Seq<char>) -> Seq<char>
    decreases s.len(),
{
    if s.len() > 0 && is_ws(s[0]) {
        drop_leading_ws(s.skip(1))
    } else {
        s
    }
}

/// `s` without its trailing whitespace.
pub open spec fn drop_trailing_ws(s: Seq<char>) -> Seq<char>
    decreases s.len(),
{
    if s.len() > 0 && is_ws(s[s.len() - 1]) {
        drop_trailing_ws(s.take(s.len() - 1))
    } else {
        s
    }
}

/// `s` without leading and trailing whitespace.
pub open spec fn trim_spec(s: Seq<char>) -> Seq<char> {
    drop_trailing_ws(drop_leading_ws(s))
}

/// `s` ends with `suffix`.
pub open spec fn ends_with(s: Seq<char>, suffix: Seq<char>) -> bool {
    &&& s.len() >= suffix.len()
    &&& s.subrange(s.len() - suffix.len(), s.len() as int) == suffix
}

/// Is `c` a whitespace character?
pub fn char_is_ws(c: char) -> (b: bool)
    ensures
        b == is_ws(c),
{
    c == '\u{9}' || c == '\u{A}' || c == '\u{B}' || c == '\u{C}' || c == '\u{D}' || c == ' '
        || c == '\u{85}' || c == '\u{A0}' || c == '\u{1680}' || c == '\u{2000}' || c == '\u{2001}'
        || c == '\u{2002}' || c == '\u{2003}' || c == '\u{2004}' || c == '\u{2005}'
        || c == '\u{2006}' || c == '\u{2007}' || c == '\u{2008}' || c == '\u{2009}'
        || c == '\u{200A}' || c == '\u{2028}' || c == '\u{2029}' || c == '\u{202F}'
        || c == '\u{205F}' || c == '\u{3000}'
}

/// Dropping leading whitespace keeps the suffix that starts at the
/// first non-whitespace position.
pub proof fn lemma_drop_leading(s: Seq<char>, a: int)
    requires
        0 <= a <= s.len(),
        forall|k: int| 0 <= k < a ==> is_ws(s[k]),
        a == s.len() || !is_ws(s[a]),
    ensures
        drop_leading_ws(s) == s.skip(a),
    decreases a,
{
    if a == 0 {
        assert(s.skip(0) =~= s);
    } else {
        assert(is_ws(s[0]));
        let u = s.skip(1);
        assert forall|k: int| 0 <= k < a - 1 implies is_ws(u[k]) by {
            assert(u[k] == s[k + 1]);
        }
        lemma_drop_leading(u, a - 1);
        assert(u.skip(a - 1) =~= s.skip(a));
    }
}

/// Dropping trailing whitespace keeps the prefix that ends right
/// after the last non-whitespace position.
pub proof fn lemma_drop_trailing(s: Seq<char>, b: int)
    requires
        0 <= b <= s.len(),
        forall|k: int| b <= k < s.len() ==> is_ws(s[k]),
        b == 0 || !is_ws(s[b - 1]),
    ensures
        drop_trailing_ws(s) == s.take(b),
    decreases s.len(),
{
    if b == s.len() {
        assert(s.take(b) =~= s);
    } else {
        assert(is_ws(s[s.len() - 1]));
        let u = s.take(s.len() - 1);
        lemma_drop_trailing(u, b);
        assert(u.take(b) =~= s.take(b));
    }
}

/// What dropping leading whitespace leaves never starts with
/// whitespace.
pub proof fn lemma_drop_leading_head(s: Seq<char>)
    ensures
        drop_leading_ws(s).len() > 0 ==> !is_ws(drop_leading_ws(s)[0]),
    decreases s.len(),
{
    if s.len() > 0 && is_ws(s[0]) {
        lemma_drop_leading_head(s.skip(1));
    }
}

/// What dropping trailing whitespace leaves never ends with
/// whitespace.
pub proof fn lemma_drop_trailing_last(s: Seq<char>)
    ensures
        drop_trailing_ws(s).len() > 0 ==> !is_ws(drop_trailing_ws(s).last()),
    decreases s.len(),
{
    if s.len() > 0 && is_ws(s[s.len() - 1]) {
        lemma_drop_trailing_last(s.take(s.len() - 1));
    }
}

/// Dropping trailing whitespace keeps a prefix of the text.
pub proof fn lemma_drop_trailing_stays(s: Seq<char>)
    ensures
        drop_trailing_ws(s).len() <= s.len(),
        forall|i: int|
            0 <= i < drop_trailing_ws(s).len() ==> drop_trailing_ws(s)[i] == s[i],
    decreases s.len(),
{
    if s.len() > 0 && is_ws(s[s.len() - 1]) {
        lemma_drop_trailing_stays(s.take(s.len() - 1));
        assert forall|i: int|
            0 <= i < drop_trailing_ws(s).len() implies drop_trailing_ws(s)[i] == s[i] by {
            assert(drop_trailing_ws(s)[i] == s.take(s.len() - 1)[i]);
        }
    }
}

/// A non-empty trimmed text neither starts nor ends with whitespace.
pub proof fn lemma_trim_ends(s: Seq<char>)
    ensures
        trim_spec(s).len() > 0 ==> !is_ws(trim_spec(s)[0]),
        trim_spec(s).len() > 0 ==> !is_ws(trim_spec(s).last()),
{
    let u = drop_leading_ws(s);
    lemma_drop_leading_head(s);
    lemma_drop_trailing_last(u);
    lemma_drop_trailing_stays(u);
}

/// Trimming an already-trimmed text changes nothing.
pub proof fn lemma_trim_idempotent(s: Seq<char>)
    ensures
        trim_spec(trim_spec(s)) == trim_spec(s),
{
    let t = trim_spec(s);
    lemma_trim_ends(s);
    if t.len() == 0 {
        assert(t.skip(0) =~= t);
        assert(t.take(0) =~= t);
    } else {
        lemma_drop_leading(t, 0);
        assert(t.skip(0) =~= t);
        lemma_drop_trailing(t, t.len() as int);
        assert(t.take(t.len() as int) =~= t);
    }
}

/// A match inside the trimmed text is a match inside the text.
pub proof fn lemma_contains_trim(s: Seq<char>, q: Seq<char>)
    requires
        contains_pat(trim_spec(s), q),
    ensures
        contains_pat(s, q),
{
    lemma_contains_drop_trailing(drop_leading_ws(s), q);
    lemma_contains_drop_leading(s, q);
}

proof fn lemma_contains_drop_leading(s: Seq<char>, q: Seq<char>)
    requires
        contains_pat(drop_leading_ws(s), q),
    ensures
        contains_pat(s, q),
    decreases s.len(),
{
    if s.len() > 0 && is_ws(s[0]) {
        lemma_contains_drop_leading(s.skip(1), q);
        let i = choose|i: int| is_match(s.skip(1), q, i);
        assert(s.skip(1).subrange(i, i + q.len()) =~= s.subrange(i + 1, i + 1 + q.len()));
        assert(is_match(s, q, i + 1));
    }
}

proof fn lemma_contains_drop_trailing(s: Seq<char>, q: Seq<char>)
    requires
        contains_pat(drop_trailing_ws(s), q),
    ensures
        contains_pat(s, q),
    decreases s.len(),
{
    if s.len() > 0 && is_ws(s[s.len() - 1]) {
        lemma_contains_drop_trailing(s.take(s.len() - 1), q);
        let u = s.take(s.len() - 1);
        let i = choose|i: int| is_match(u, q, i);
        assert(u.subrange(i, i + q.len()) =~= s.subrange(i, i + q.len()));
        assert(is_match(s, q, i));
    }
}

/// The trimmed text, as a borrowed slice.
pub fn trim_str(s: &str) -> (r: &str)
    ensures
        r@ == trim_spec(s@),
{
    let n: usize = s.unicode_len();
    let mut a: usize = 0;
    while a < n && char_is_ws(s.get_char(a))
        invariant
            a <= n,
            n == s@.len(),
            forall|k: int| 0 <= k < a ==> is_ws(s@[k]),
        decreases n - a,
    {
        a = a + 1;
    }
    let mut b: usize = n;
    while b > a && char_is_ws(s.get_char(b - 1))
        invariant
            a <= b <= n,
            n == s@.len(),
            forall|k: int| b <= k < n ==> is_ws(s@[k]),
        decreases b,
    {
        b = b - 1;
    }
    proof {
        lemma_drop_leading(s@, a as int);
        let u = s@.skip(a as int);
        assert forall|k: int| b - a <= k < u.len() implies is_ws(u[k]) by {
            assert(u[k] == s@[k + a]);
        }
        if b > a {
            assert(u[b - a - 1] == s@[b - 1]);
        }
        lemma_drop_trailing(u, b - a);
        assert(u.take(b - a) =~= s@.subrange(a as int, b as int));
    }
    s.substring_char(a, b)
}

} // verus!
