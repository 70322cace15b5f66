//! Captions made of hashtags and links alone leave no title text.
use vstd::prelude::*;
use crate::caption::{
    caption_parts, first_break_from, stripped, in_class, normalized, numbered, numbered_from,
    numbered_space, removed_end, run_end, scheme_len, tidied, tidied_from, Class,
};
use crate::text::{is_white, trim, trim_end, trim_start};

verus! {

/// A word starts at `i`: a non-blank character at the start or after a blank.
pub open spec fn word_start(s: Seq<char>, i: int) -> bool {
    0 <= i < s.len() && !is_white(s[i]) && (i == 0 || is_white(s[i - 1]))
}

/// The word at `i` is a hashtag (`#` and more) or a bare link (`http://` or
/// `https://` and more).
pub open spec fn tag_or_link_at(s: Seq<char>, i: int) -> bool {
    (s[i] == '#' && i + 1 < s.len() && !is_white(s[i + 1])) || (scheme_len(s, i) > 0 && i
        + scheme_len(s, i) < s.len() && !is_white(s[i + scheme_len(s, i)]))
}

/// Every word of `s` is a hashtag or a bare link.
pub open spec fn tags_only(s: Seq<char>) -> bool {
    forall|i: int| word_start(s, i) ==> #[trigger] tag_or_link_at(s, i)
}

/// `b` is `a` with some spaces made no-break spaces.
pub open spec fn same_but_spaces(a: Seq<char>, b: Seq<char>) -> bool {
    &&& a.len() == b.len()
    &&& forall|k: int| 0 <= k < a.len() ==> #[trigger] a[k] == b[k] || (a[k] == ' ' && b[k] == '\u{a0}')
}

/// Every character of `s` is blank.
pub open spec fn all_white(s: Seq<char>) -> bool {
    forall|k: int| 0 <= k < s.len() ==> is_white(#[trigger] s[k])
}

proof fn lemma_run_end_props(s: Seq<char>, j: int, k: Class)
    requires
        0 <= j <= s.len(),
    ensures
        j <= run_end(s, j, k) <= s.len(),
        run_end(s, j, k) == s.len() || !in_class(k, s[run_end(s, j, k)]),
        run_end(s, j, k) > j ==> in_class(k, s[run_end(s, j, k) - 1]),
    decreases s.len() - j,
{
    if j < s.len() && in_class(k, s[j]) {
        lemma_run_end_props(s, j + 1, k);
    }
}

proof fn lemma_numbered_same(s: Seq<char>, i: int)
    requires
        0 <= i <= s.len(),
    ensures
        same_but_spaces(s.subrange(i, s.len() as int), numbered_from(s, i)),
    decreases s.len() - i,
{
    if i < s.len() {
        match numbered_space(s, i) {
            Some(p) => {
                lemma_run_end_props(s, 0, Class::Digit);
                lemma_run_end_props(s, p + 1, Class::Word);
                let e = run_end(s, p + 1, Class::Word);
                lemma_numbered_same(s, e);
                let a = s.subrange(i, s.len() as int);
                let b = numbered_from(s, i);
                let rest = numbered_from(s, e);
                assert(b == s.subrange(i, p) + seq!['\u{a0}'] + s.subrange(p + 1, e) + rest);
                assert forall|k: int| 0 <= k < a.len() implies #[trigger] a[k] == b[k] || (a[k]
                    == ' ' && b[k] == '\u{a0}') by {
                    if k >= e - i {
                        assert(a[k] == s.subrange(e, s.len() as int)[k - (e - i)]);
                        assert(b[k] == rest[k - (e - i)]);
                    }
                }
            },
            None => {
                lemma_numbered_same(s, i + 1);
                let a = s.subrange(i, s.len() as int);
                let b = numbered_from(s, i);
                assert forall|k: int| 0 <= k < a.len() implies #[trigger] a[k] == b[k] || (a[k]
                    == ' ' && b[k] == '\u{a0}') by {
                    if k >= 1 {
                        assert(a[k] == s.subrange(i + 1, s.len() as int)[k - 1]);
                        assert(b[k] == numbered_from(s, i + 1)[k - 1]);
                    }
                }
            },
        }
    }
}

proof fn lemma_tags_kept(a: Seq<char>, b: Seq<char>)
    requires
        same_but_spaces(a, b),
        tags_only(a),
    ensures
        tags_only(b),
{
    assert forall|k: int| 0 <= k < a.len() implies is_white(#[trigger] a[k]) == is_white(b[k])
        && (!is_white(a[k]) ==> a[k] == b[k]) by {
        assert(a[k] == b[k] || (a[k] == ' ' && b[k] == '\u{a0}'));
    }
    assert forall|i: int| word_start(b, i) implies #[trigger] tag_or_link_at(b, i) by {
        assert(word_start(a, i));
        assert(tag_or_link_at(a, i));
        if 0 <= i && i + 4 < a.len() {
            assert(a[i] == b[i] || is_white(a[i]));
        }
        assert(scheme_len(a, i) == scheme_len(b, i)) by {
            if 0 <= i && i + 7 < a.len() {
                assert(a[i + 7] == '/' <==> b[i + 7] == '/');
            }
            if 0 <= i && i + 6 < a.len() {
                assert(a[i + 6] == '/' <==> b[i + 6] == '/');
            }
            if 0 <= i && i + 5 < a.len() {
                assert(a[i + 5] == '/' <==> b[i + 5] == '/');
                assert(a[i + 5] == ':' <==> b[i + 5] == ':');
            }
            if 0 <= i && i + 4 < a.len() {
                assert(a[i + 4] == ':' <==> b[i + 4] == ':');
                assert(a[i + 4] == 's' <==> b[i + 4] == 's');
            }
            if 0 <= i && i + 3 < a.len() {
                assert(a[i + 3] == 'p' <==> b[i + 3] == 'p');
                assert(a[i + 2] == 't' <==> b[i + 2] == 't');
                assert(a[i + 1] == 't' <==> b[i + 1] == 't');
                assert(a[i] == 'h' <==> b[i] == 'h');
            }
        }
        if i + 1 < a.len() {
            assert(is_white(a[i + 1]) == is_white(b[i + 1]));
        }
        if 0 < scheme_len(a, i) && i + scheme_len(a, i) < a.len() {
            assert(is_white(a[i + scheme_len(a, i)]) == is_white(b[i + scheme_len(a, i)]));
        }
    }
}

/// From a place where no word is cut, stripping the markup of a text of
/// hashtags and links leaves blanks alone.
proof fn lemma_tidied_blank(s: Seq<char>, i: int)
    requires
        tags_only(s),
        0 <= i <= s.len(),
        i == s.len() || is_white(s[i]) || i == 0 || is_white(s[i - 1]),
    ensures
        all_white(tidied_from(s, i)),
    decreases s.len() - i,
{
    if i < s.len() {
        if is_white(s[i]) {
            if i + 1 < s.len() && s[i] == '\n' && s[i + 1] == '.' {
                assert(word_start(s, i + 1));
                assert(tag_or_link_at(s, i + 1));
            }
            assert(removed_end(s, i) is None);
            lemma_tidied_blank(s, i + 1);
            let t = tidied_from(s, i);
            assert(t == seq![s[i]] + tidied_from(s, i + 1));
            assert forall|k: int| 0 <= k < t.len() implies is_white(#[trigger] t[k]) by {
                if k > 0 {
                    assert(t[k] == tidied_from(s, i + 1)[k - 1]);
                }
            }
        } else {
            assert(word_start(s, i));
            assert(tag_or_link_at(s, i));
            if s[i] == '#' {
                lemma_run_end_props(s, i + 1, Class::Dark);
                let d = run_end(s, i + 1, Class::Dark);
                lemma_run_end_props(s, d, Class::Blank);
                let e = run_end(s, d, Class::Blank);
                assert(removed_end(s, i) == Some(e));
                lemma_tidied_blank(s, e);
            } else {
                let n = scheme_len(s, i);
                lemma_run_end_props(s, i + n, Class::Dark);
                let e = run_end(s, i + n, Class::Dark);
                assert(removed_end(s, i) == Some(e));
                lemma_tidied_blank(s, e);
            }
        }
    }
}

proof fn lemma_trim_blank(s: Seq<char>)
    requires
        all_white(s),
    ensures
        trim_start(s) == Seq::<char>::empty(),
    decreases s.len(),
{
    if s.len() > 0 {
        assert(is_white(s[0]));
        lemma_trim_blank(s.drop_first());
    }
}

/// A caption whose text, once trimmed, is only hashtags and bare links gives
/// an empty title and no body.
pub proof fn lemma_tags_only_caption(c: Seq<char>)
    requires
        tags_only(trim(c)),
    ensures
        normalized(c) == Seq::<char>::empty(),
        caption_parts(Some(c)) == (Some(Seq::<char>::empty()), None::<Seq<char>>),
{
    let s0 = trim(c);
    lemma_numbered_same(s0, 0);
    assert(s0.subrange(0, s0.len() as int) == s0);
    let s1 = numbered(s0);
    lemma_tags_kept(s0, s1);
    lemma_tidied_blank(s1, 0);
    lemma_trim_blank(tidied(s1));
    let e = Seq::<char>::empty();
    assert(trim(tidied(s1)) == e);
    assert(tidied(e) == e);
    assert(trim_start(e) == e && trim_end(e) == e);
    assert(stripped(e) == e);
    assert(normalized(c) == e);
    assert(first_break_from(e, 0) == 0);
}

} // verus!
