//! Turning a title into a URL-safe slug.
use vstd::prelude::*;
use crate::text::{chars_of, lemma_trim_is_slice, string_of, trim, trim_chars, trim_end, trim_start};

verus! {

/// What `str::to_lowercase` makes of a text.
pub uninterp spec fn lowercase_of(s: Seq<char>) -> Seq<char>;

pub open spec fn is_ascii_upper(c: char) -> bool {
    'A' <= c && c <= 'Z'
}

/// A character that a slug may hold: a lower-case ASCII letter, a digit or a
/// hyphen.
pub open spec fn slug_char(c: char) -> bool {
    ('a' <= c && c <= 'z') || ('0' <= c && c <= '9') || c == '-'
}

/// Every character of `s` may stand in a slug.
pub open spec fn is_slug(s: Seq<char>) -> bool {
    forall|i: int| 0 <= i < s.len() ==> slug_char(#[trigger] s[i])
}

/// Relies on `str::to_lowercase`: the result depends on the text alone, holds
/// no ASCII capital letter, and a text of ASCII characters without capitals
/// comes back as it is.
#[verifier::external_body]
fn lowercase(s: &str) -> (r: String)
    ensures
        r@ == lowercase_of(s@),
        forall|i: int| 0 <= i < r@.len() ==> !is_ascii_upper(#[trigger] r@[i]),
        (forall|i: int|
            0 <= i < s@.len() ==> (#[trigger] s@[i] as u32) < 128 && !is_ascii_upper(s@[i]))
            ==> r@ == s@,
{
    s.to_lowercase()
}

/// A character that survives the slug filter: an ASCII letter or digit, a
/// space, a no-break space or a hyphen.
pub open spec fn kept(c: char) -> bool {
    ('a' <= c && c <= 'z') || ('A' <= c && c <= 'Z') || ('0' <= c && c <= '9') || c == ' ' || c
        == '\u{a0}' || c == '-'
}

/// The characters of `s` that survive the slug filter, in order.
pub open spec fn keep(s: Seq<char>) -> Seq<char>
    decreases s.len(),
{
    if s.len() == 0 {
        Seq::empty()
    } else if kept(s.last()) {
        keep(s.drop_last()).push(s.last())
    } else {
        keep(s.drop_last())
    }
}

/// Spaces and no-break spaces become hyphens.
pub open spec fn hyphen(c: char) -> char {
    if c == ' ' || c == '\u{a0}' {
        '-'
    } else {
        c
    }
}

/// The slug of an already lower-cased text: filtered, trimmed, and with its
/// spaces made hyphens.
pub open spec fn slug_text(s: Seq<char>) -> Seq<char> {
    trim(keep(s)).map_values(|c: char| hyphen(c))
}

proof fn lemma_keep_all(s: Seq<char>)
    requires
        forall|i: int| 0 <= i < s.len() ==> kept(#[trigger] s[i]),
    ensures
        keep(s) == s,
    decreases s.len(),
{
    if s.len() > 0 {
        lemma_keep_all(s.drop_last());
        assert(s.drop_last().push(s.last()) =~= s);
    }
}

/// `s` holds no ASCII capital letter.
pub open spec fn no_capitals(s: Seq<char>) -> bool {
    forall|i: int| 0 <= i < s.len() ==> !is_ascii_upper(#[trigger] s[i])
}

/// The slug of an already lower-cased text: every character but ASCII
/// letters, digits, spaces, no-break spaces and hyphens removed, the ends
/// trimmed, and each space or no-break space made a hyphen. Where the text
/// holds no ASCII capital, the result only holds characters that a slug may
/// hold.
pub fn slug_of_lowered(lower: &str) -> (r: String)
    ensures
        r@ == slug_text(lower@),
        no_capitals(lower@) ==> is_slug(r@),
{
    let v = chars_of(lower);
    let mut filtered: Vec<char> = Vec::new();
    let mut i: usize = 0;
    while i < v.len()
        invariant
            i <= v@.len(),
            v@ == lower@,
            filtered@ == keep(v@.subrange(0, i as int)),
            forall|k: int|
                0 <= k < filtered@.len() ==> kept(#[trigger] filtered@[k]) && (no_capitals(v@)
                    ==> !is_ascii_upper(filtered@[k])),
        decreases v@.len() - i,
    {
        let c = v[i];
        assert(v@.subrange(0, i + 1).drop_last() =~= v@.subrange(0, i as int));
        if ('a' <= c && c <= 'z') || ('A' <= c && c <= 'Z') || ('0' <= c && c <= '9') || c == ' '
            || c == '\u{a0}' || c == '-' {
            filtered.push(c);
        }
        i += 1;
    }
    assert(v@.subrange(0, v@.len() as int) =~= v@);
    let t = trim_chars(&filtered);
    proof {
        lemma_trim_is_slice(filtered@);
    }
    let mut out: Vec<char> = Vec::new();
    let mut j: usize = 0;
    while j < t.len()
        invariant
            j <= t@.len(),
            t@ == trim(filtered@),
            forall|k: int|
                0 <= k < t@.len() ==> kept(#[trigger] t@[k]) && (no_capitals(v@)
                    ==> !is_ascii_upper(t@[k])),
            out@ == t@.subrange(0, j as int).map_values(|c: char| hyphen(c)),
            no_capitals(v@) ==> is_slug(out@),
        decreases t@.len() - j,
    {
        let c = t[j];
        let h = if c == ' ' || c == '\u{a0}' { '-' } else { c };
        out.push(h);
        j += 1;
        assert(out@ =~= t@.subrange(0, j as int).map_values(|c: char| hyphen(c)));
    }
    assert(t@.subrange(0, t@.len() as int) =~= t@);
    string_of(&out)
}

/// Turns `name` into a slug: lower-cased, then as `slug_of_lowered` says.
///
/// The result only holds characters that a slug may hold, and a text made of
/// those alone comes back unchanged; so slugifying a slug again changes
/// nothing.
pub fn slugify(name: &str) -> (r: String)
    ensures
        r@ == slug_text(lowercase_of(name@)),
        is_slug(r@),
        is_slug(name@) ==> r@ == name@,
{
    let lower = lowercase(name);
    let r = slug_of_lowered(lower.as_str());
    proof {
        if is_slug(name@) {
            assert forall|i: int| 0 <= i < name@.len() implies (#[trigger] name@[i] as u32) < 128
                && !is_ascii_upper(name@[i]) by {
                assert(slug_char(name@[i]));
            }
            assert forall|i: int| 0 <= i < name@.len() implies kept(#[trigger] name@[i]) by {
                assert(slug_char(name@[i]));
            }
            lemma_keep_all(name@);
            assert(trim_start(name@) == name@);
            assert(trim_end(name@) == name@);
            assert(r@ =~= name@);
        }
    }
    r
}

} // verus!
