//! A title that parsing gives comes back unchanged when parsed again.
use vstd::prelude::*;
use crate::caption::{
    caption_parts, first_break_from, is_break, normalized, numbered, numbered_from,
    numbered_space, removed_end, run_end, scheme_len, single_line, split_parts, stripped, tidied,
    tidied_from, Class,
};
use crate::text::{
    is_white, lemma_trim_end_last, lemma_trim_end_slice, lemma_trim_len, lemma_trim_noop,
    lemma_trimmed_ends, trim, trim_end, trim_start,
};

verus! {

/// No removable piece starts anywhere in `s`.
pub open spec fn markup_free(s: Seq<char>) -> bool {
    forall|j: int| 0 <= j < s.len() ==> #[trigger] removed_end(s, j) is None
}

proof fn lemma_tidied_len(s: Seq<char>, i: int)
    requires
        0 <= i <= s.len(),
    ensures
        tidied_from(s, i).len() <= s.len() - i,
        tidied_from(s, i).len() == s.len() - i ==> tidied_from(s, i) == s.subrange(
            i,
            s.len() as int,
        ) && forall|j: int| i <= j < s.len() ==> #[trigger] removed_end(s, j) is None,
    decreases s.len() - i,
{
    if i == s.len() {
        assert(tidied_from(s, i) =~= s.subrange(i, s.len() as int));
    } else {
        match removed_end(s, i) {
            Some(e) => {
                if i < e <= s.len() {
                    lemma_tidied_len(s, e);
                }
            },
            None => {
                lemma_tidied_len(s, i + 1);
                if tidied_from(s, i).len() == s.len() - i {
                    assert(tidied_from(s, i) =~= s.subrange(i, s.len() as int));
                }
            },
        }
    }
}

proof fn lemma_free_tidied(s: Seq<char>, i: int)
    requires
        markup_free(s),
        0 <= i <= s.len(),
    ensures
        tidied_from(s, i) == s.subrange(i, s.len() as int),
    decreases s.len() - i,
{
    if i < s.len() {
        assert(removed_end(s, i) is None);
        lemma_free_tidied(s, i + 1);
    }
    assert(tidied_from(s, i) =~= s.subrange(i, s.len() as int));
}

/// What the repeated strip leaves is trimmed and free of markup.
pub proof fn lemma_stripped_settled(s: Seq<char>)
    ensures
        trim(stripped(s)) == stripped(s),
        markup_free(stripped(s)),
    decreases s.len(),
{
    let t = trim(tidied(s));
    if t.len() < s.len() {
        lemma_stripped_settled(t);
    } else {
        lemma_tidied_len(s, 0);
        lemma_trim_len(tidied(s));
        assert(tidied(s) =~= s);
        lemma_trim_len(s);
        lemma_trim_len(t);
    }
}

proof fn lemma_single_numbered(t: Seq<char>, i: int)
    requires
        single_line(t),
        0 <= i <= t.len(),
    ensures
        numbered_from(t, i) == t.subrange(i, t.len() as int),
    decreases t.len() - i,
{
    if i < t.len() {
        let d = run_end(t, 0, Class::Digit);
        if i == 0 && d > 0 && d + 2 < t.len() {
            assert(!is_break(t, d));
        }
        if i + 3 < t.len() {
            assert(!is_break(t, i + 1));
        }
        assert(numbered_space(t, i) is None);
        lemma_single_numbered(t, i + 1);
    }
    assert(numbered_from(t, i) =~= t.subrange(i, t.len() as int));
}

proof fn lemma_prefix_free(s: Seq<char>, b: int)
    requires
        markup_free(s),
        0 <= b <= s.len(),
    ensures
        markup_free(s.subrange(0, b)),
{
    let t = s.subrange(0, b);
    assert forall|i: int| 0 <= i < t.len() implies #[trigger] removed_end(t, i) is None by {
        assert(removed_end(s, i) is None);
        if scheme_len(t, i) > 0 {
            assert(t[i] == s[i] && t[i + 1] == s[i + 1] && t[i + 2] == s[i + 2] && t[i + 3]
                == s[i + 3] && t[i + 4] == s[i + 4]);
            if t[i + 4] == 's' && i + 7 < t.len() {
                assert(t[i + 5] == s[i + 5] && t[i + 6] == s[i + 6] && t[i + 7] == s[i + 7]);
            }
            if i + 6 < t.len() {
                assert(t[i + 5] == s[i + 5] && t[i + 6] == s[i + 6]);
            }
            assert(scheme_len(s, i) == scheme_len(t, i));
            if i + scheme_len(t, i) < t.len() {
                assert(t[i + scheme_len(t, i)] == s[i + scheme_len(t, i)]);
            }
        }
        if i + 1 < t.len() {
            assert(t[i + 1] == s[i + 1]);
        }
    }
}

proof fn lemma_before_first_break(s: Seq<char>, i: int)
    requires
        0 <= i,
    ensures
        forall|j: int| i <= j < first_break_from(s, i) ==> !#[trigger] is_break(s, j),
        i <= s.len() ==> i <= first_break_from(s, i) <= s.len(),
    decreases s.len() - i,
{
    if i < s.len() && !is_break(s, i) {
        lemma_before_first_break(s, i + 1);
    }
}

/// A text free of breaks, markup and blank ends parses to itself, whole.
proof fn lemma_plain_parses_to_itself(t: Seq<char>)
    requires
        single_line(t),
        markup_free(t),
        trim(t) == t,
    ensures
        caption_parts(Some(t)) == (Some(t), None::<Seq<char>>),
{
    lemma_single_numbered(t, 0);
    assert(t.subrange(0, t.len() as int) =~= t);
    lemma_free_tidied(t, 0);
    assert(normalized(t) == t);
    lemma_before_first_break(t, 0);
    assert forall|k: int| 0 <= k < t.len() implies !is_break(t, k) by {}
    if first_break_from(t, 0) < t.len() {
        assert(!is_break(t, first_break_from(t, 0)));
        crate::caption::lemma_first_break_is_break(t, 0);
    }
}

/// A caption with no line break, no ". ", no `#`, no `http://` or
/// `https://`, and no dot to open its trimmed text has nothing to rewrite or
/// strip: its trimmed text is the title, and there is no body.
pub proof fn lemma_plain_caption(c: Seq<char>)
    requires
        single_line(c),
        forall|i: int| 0 <= i < c.len() ==> #[trigger] c[i] != '#',
        forall|i: int| 0 <= i < c.len() ==> #[trigger] scheme_len(c, i) == 0,
        trim(c).len() == 0 || trim(c)[0] != '.',
    ensures
        caption_parts(Some(c)) == (Some(trim(c)), None::<Seq<char>>),
{
    let t = trim(c);
    crate::text::lemma_trim_is_slice(c);
    let (a, b) = choose|a: int, b: int| 0 <= a <= b <= c.len() && t == c.subrange(a, b);
    crate::text::lemma_trim_twice(c);
    assert forall|m: int| 0 <= m < t.len() implies !is_break(t, m) by {
        assert(t[m] == c[a + m]);
        if m + 1 < t.len() {
            assert(t[m + 1] == c[a + m + 1]);
        }
        assert(!is_break(c, a + m));
    }
    assert forall|i: int| 0 <= i < t.len() implies #[trigger] removed_end(t, i) is None by {
        assert(t[i] == c[a + i]);
        assert(c[a + i] != '#');
        assert(!is_break(t, i));
        assert(scheme_len(c, a + i) == 0);
        if i + 4 < t.len() {
            assert(t[i + 1] == c[a + i + 1] && t[i + 2] == c[a + i + 2] && t[i + 3] == c[a + i
                + 3] && t[i + 4] == c[a + i + 4]);
            if i + 7 < t.len() {
                assert(t[i + 5] == c[a + i + 5] && t[i + 6] == c[a + i + 6] && t[i + 7] == c[a
                    + i + 7]);
            } else if i + 6 < t.len() {
                assert(t[i + 5] == c[a + i + 5] && t[i + 6] == c[a + i + 6]);
            }
        }
        assert(scheme_len(t, i) == 0);
    }
    lemma_plain_parses_to_itself(t);
    assert(normalized(c) == normalized(t));
}

/// Parsing a caption's title again gives that title back, whole and with no
/// body.
pub proof fn lemma_title_reparses(c: Seq<char>)
    ensures
        caption_parts(Some(c)).0 is Some,
        caption_parts(Some(caption_parts(Some(c)).0->0)) == (
            caption_parts(Some(c)).0,
            None::<Seq<char>>,
        ),
{
    let s = normalized(c);
    lemma_stripped_settled(numbered(trim(c)));
    lemma_before_first_break(s, 0);
    let k = first_break_from(s, 0);
    let kk = if k >= s.len() { s.len() as int } else { k };
    let p = s.subrange(0, kk);
    assert(k >= s.len() ==> p =~= s);
    let t = caption_parts(Some(c)).0->0;
    assert(t == trim(p));
    if p.len() > 0 {
        lemma_trimmed_ends(s);
        assert(p[0] == s[0]);
    }
    assert(trim_start(p) == p);
    lemma_trim_end_slice(p);
    let j = choose|j: int| 0 <= j <= p.len() && trim_end(p) == p.subrange(0, j);
    assert(t =~= s.subrange(0, j));
    lemma_trim_end_last(p);
    if t.len() > 0 {
        assert(t[0] == s[0]);
        lemma_trimmed_ends(s);
    }
    lemma_trim_noop(t);
    assert forall|m: int| 0 <= m < t.len() implies !is_break(t, m) by {
        if is_break(t, m) {
            assert(t[m] == s[m]);
            if m + 1 < t.len() {
                assert(t[m + 1] == s[m + 1]);
            }
            assert(is_break(s, m));
        }
    }
    lemma_prefix_free(s, j);
    lemma_plain_parses_to_itself(t);
}

} // verus!
