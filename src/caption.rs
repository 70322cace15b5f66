//! Parsing a post's caption into a title and a body.
//!
//! The caption goes through three rewrites, each a left-to-right scan that
//! takes the first pattern that starts at a position and skips past it:
//! numbered items ("1. Foo", "c. Foo") get a no-break space after the dot,
//! hashtags, bare URLs and stray leading dots are removed (again and again,
//! with the ends trimmed, until none is left), and the result is split at
//! its first line break or ". ", both parts trimmed.
use vstd::prelude::*;
use crate::text::{chars_of, is_white, push_range, string_of, trim, trim_chars, white};

verus! {

/// Whether `c` is in the regex class `\d` (Unicode decimal digits).
pub uninterp spec fn digit_class(c: char) -> bool;

/// Whether `c` is in the regex class `\w` (Unicode word characters).
pub uninterp spec fn word_class(c: char) -> bool;

/// Relies on regex: `^\d$` matches a one-character text exactly when the
/// character is in the class `\d`, which holds the ASCII digits and not
/// `.`, `#` or a space.
#[verifier::external_body]
fn in_digit_class(c: char) -> (r: bool)
    ensures
        r == digit_class(c),
        '0' <= c <= '9' ==> r,
        c == '.' || c == '#' || c == ' ' ==> !r,
{
    regex::Regex::new(r"^\d$").unwrap().is_match(&c.to_string())
}

/// Relies on regex: `^\w$` matches a one-character text exactly when the
/// character is in the class `\w`, which holds the ASCII letters and digits
/// and `_`, and not `.`, `#` or a space.
#[verifier::external_body]
fn in_word_class(c: char) -> (r: bool)
    ensures
        r == word_class(c),
        ('0' <= c <= '9') || ('a' <= c <= 'z') || ('A' <= c <= 'Z') || c == '_' ==> r,
        c == '.' || c == '#' || c == ' ' ==> !r,
{
    regex::Regex::new(r"^\w$").unwrap().is_match(&c.to_string())
}

/// The character classes that the caption patterns repeat.
pub enum Class {
    Digit,
    Word,
    Dark,
    Blank,
}

/// `c` belongs to the class `k`.
pub open spec fn in_class(k: Class, c: char) -> bool {
    match k {
        Class::Digit => digit_class(c),
        Class::Word => word_class(c),
        Class::Dark => !is_white(c),
        Class::Blank => is_white(c),
    }
}

/// Where the longest run of `k` characters starting at `i` ends.
pub open spec fn run_end(s: Seq<char>, i: int, k: Class) -> int
    decreases s.len() - i,
{
    if 0 <= i < s.len() && in_class(k, s[i]) {
        run_end(s, i + 1, k)
    } else {
        i
    }
}

proof fn lemma_run_end_bounds(s: Seq<char>, i: int, k: Class)
    requires
        0 <= i <= s.len(),
    ensures
        i <= run_end(s, i, k) <= s.len(),
    decreases s.len() - i,
{
    if i < s.len() && in_class(k, s[i]) {
        lemma_run_end_bounds(s, i + 1, k);
    }
}

fn class_test(k: &Class, c: char) -> (r: bool)
    ensures
        r == in_class(*k, c),
{
    match k {
        Class::Digit => in_digit_class(c),
        Class::Word => in_word_class(c),
        Class::Dark => !white(c),
        Class::Blank => white(c),
    }
}

fn find_run_end(s: &Vec<char>, i: usize, k: Class) -> (r: usize)
    requires
        i <= s@.len(),
    ensures
        r == run_end(s@, i as int, k),
        i <= r <= s@.len(),
{
    let mut j = i;
    while j < s.len() && class_test(&k, s[j])
        invariant
            i <= j <= s@.len(),
            run_end(s@, i as int, k) == run_end(s@, j as int, k),
        decreases s@.len() - j,
    {
        j += 1;
    }
    j
}

/// Where a numbered item `digits. word` or `c. word` starts at `i`, the
/// position of its space.
pub open spec fn numbered_space(s: Seq<char>, i: int) -> Option<int> {
    let d = run_end(s, 0, Class::Digit);
    if i == 0 && d > 0 && d + 2 < s.len() && s[d] == '.' && s[d + 1] == ' ' && word_class(
        s[d + 2],
    ) {
        Some(d + 1)
    } else if 0 <= i && i + 3 < s.len() && s[i] == 'c' && s[i + 1] == '.' && s[i + 2] == ' '
        && word_class(s[i + 3]) {
        Some(i + 2)
    } else {
        None
    }
}

/// The text from `i` on, with the space of each numbered item made a
/// no-break space; an item's word is skipped whole.
pub open spec fn numbered_from(s: Seq<char>, i: int) -> Seq<char>
    decreases s.len() - i,
{
    if i < 0 || i >= s.len() {
        Seq::empty()
    } else {
        match numbered_space(s, i) {
            Some(p) => {
                let e = run_end(s, p + 1, Class::Word);
                if i < e <= s.len() {
                    s.subrange(i, p) + seq!['\u{a0}'] + s.subrange(p + 1, e) + numbered_from(
                        s,
                        e,
                    )
                } else {
                    Seq::empty()
                }
            },
            None => seq![s[i]] + numbered_from(s, i + 1),
        }
    }
}

/// Numbered items kept as one unit.
pub open spec fn numbered(s: Seq<char>) -> Seq<char> {
    numbered_from(s, 0)
}

/// Length of the `https://` or `http://` that starts at `i`, or 0.
pub open spec fn scheme_len(s: Seq<char>, i: int) -> int {
    if 0 <= i && i + 4 < s.len() && s[i] == 'h' && s[i + 1] == 't' && s[i + 2] == 't' && s[i + 3]
        == 'p' {
        if s[i + 4] == 's' && i + 7 < s.len() && s[i + 5] == ':' && s[i + 6] == '/' && s[i + 7]
            == '/' {
            8
        } else if i + 6 < s.len() && s[i + 4] == ':' && s[i + 5] == '/' && s[i + 6] == '/' {
            7
        } else {
            0
        }
    } else {
        0
    }
}

/// Where a removable piece starts at `i`, the position just past it: a
/// hashtag with the blanks after it, a lone `#` that opens the text, a dot
/// that opens the text or a line, or a bare URL.
pub open spec fn removed_end(s: Seq<char>, i: int) -> Option<int> {
    let n = scheme_len(s, i);
    if 0 <= i && i + 1 < s.len() && s[i] == '#' && !is_white(s[i + 1]) {
        Some(run_end(s, run_end(s, i + 1, Class::Dark), Class::Blank))
    } else if i == 0 && s.len() > 0 && s[0] == '#' {
        Some(1)
    } else if i == 0 && s.len() > 0 && s[0] == '.' {
        Some(1)
    } else if 0 <= i && i + 1 < s.len() && s[i] == '\n' && s[i + 1] == '.' {
        Some(i + 2)
    } else if n > 0 && i + n < s.len() && !is_white(s[i + n]) {
        Some(run_end(s, i + n, Class::Dark))
    } else {
        None
    }
}

/// The text from `i` on with hashtags, URLs and leading dots removed.
pub open spec fn tidied_from(s: Seq<char>, i: int) -> Seq<char>
    decreases s.len() - i,
{
    if i < 0 || i >= s.len() {
        Seq::empty()
    } else {
        match removed_end(s, i) {
            Some(e) => if i < e <= s.len() {
                tidied_from(s, e)
            } else {
                Seq::empty()
            },
            None => seq![s[i]] + tidied_from(s, i + 1),
        }
    }
}

/// The text with hashtags, URLs and leading dots removed.
pub open spec fn tidied(s: Seq<char>) -> Seq<char> {
    tidied_from(s, 0)
}

/// Markup stripped and ends trimmed over and over, until that changes
/// nothing (each round that changes something shortens the text).
pub open spec fn stripped(s: Seq<char>) -> Seq<char>
    decreases s.len(),
{
    let t = trim(tidied(s));
    if t.len() < s.len() {
        stripped(t)
    } else {
        t
    }
}

/// The caption text once numbered items are joined and markup is stripped
/// until none is left, with the ends trimmed.
pub open spec fn normalized(c: Seq<char>) -> Seq<char> {
    stripped(numbered(trim(c)))
}

/// A line break, or a dot followed by a space, starts at `k`.
pub open spec fn is_break(s: Seq<char>, k: int) -> bool {
    0 <= k < s.len() && (s[k] == '\n' || (s[k] == '.' && k + 1 < s.len() && s[k + 1] == ' '))
}

/// The first break at or after `i`, or the length of `s` if there is none.
pub open spec fn first_break_from(s: Seq<char>, i: int) -> int
    decreases s.len() - i,
{
    if i < 0 || i >= s.len() {
        s.len() as int
    } else if is_break(s, i) {
        i
    } else {
        first_break_from(s, i + 1)
    }
}

/// `s` holds no line break and no ". ".
pub open spec fn single_line(s: Seq<char>) -> bool {
    forall|k: int| 0 <= k < s.len() ==> !is_break(s, k)
}

/// Title and body of an already normalized text.
pub open spec fn split_parts(s: Seq<char>) -> (Option<Seq<char>>, Option<Seq<char>>) {
    let k = first_break_from(s, 0);
    if k >= s.len() {
        (Some(trim(s)), None)
    } else {
        let m = if s[k] == '\n' { 1int } else { 2int };
        let b = trim(s.subrange(k + m, s.len() as int));
        if b.len() == 0 || b == seq!['.'] {
            (Some(trim(s.subrange(0, k))), None)
        } else {
            (Some(trim(s.subrange(0, k))), Some(b))
        }
    }
}

/// Title and body of a caption; no caption gives neither.
pub open spec fn caption_parts(c: Option<Seq<char>>) -> (Option<Seq<char>>, Option<Seq<char>>) {
    match c {
        None => (None, None),
        Some(c) => split_parts(normalized(c)),
    }
}

/// The characters of an optional string.
pub open spec fn opt_view(o: Option<String>) -> Option<Seq<char>> {
    match o {
        Some(s) => Some(s@),
        None => None,
    }
}

fn find_numbered_space(s: &Vec<char>, i: usize) -> (r: Option<usize>)
    requires
        i < s@.len(),
    ensures
        match r {
            Some(p) => numbered_space(s@, i as int) == Some(p as int),
            None => numbered_space(s@, i as int) is None,
        },
{
    let n = s.len();
    if i == 0 {
        let d = find_run_end(s, 0, Class::Digit);
        if d > 0 && n - d > 2 && s[d] == '.' && s[d + 1] == ' ' && in_word_class(s[d + 2]) {
            return Some(d + 1);
        }
    }
    if n - i > 3 && s[i] == 'c' && s[i + 1] == '.' && s[i + 2] == ' ' && in_word_class(s[i + 3]) {
        Some(i + 2)
    } else {
        None
    }
}

/// Gives each numbered item a no-break space after its dot.
pub fn join_numbered(s: &Vec<char>) -> (r: Vec<char>)
    ensures
        r@ == numbered(s@),
{
    let mut out: Vec<char> = Vec::new();
    let mut i: usize = 0;
    while i < s.len()
        invariant
            i <= s@.len(),
            out@ + numbered_from(s@, i as int) == numbered(s@),
        decreases s@.len() - i,
    {
        match find_numbered_space(s, i) {
            Some(p) => {
                proof {
                    lemma_run_end_bounds(s@, 0, Class::Digit);
                }
                let e = find_run_end(s, p + 1, Class::Word);
                let ghost before = out@;
                push_range(&mut out, s, i, p);
                out.push('\u{a0}');
                push_range(&mut out, s, p + 1, e);
                assert(out@ + numbered_from(s@, e as int) =~= before + numbered_from(
                    s@,
                    i as int,
                ));
                i = e;
            },
            None => {
                let ghost before = out@;
                out.push(s[i]);
                assert(out@ + numbered_from(s@, i + 1) =~= before + numbered_from(s@, i as int));
                i += 1;
            },
        }
    }
    assert(out@ =~= out@ + numbered_from(s@, i as int));
    out
}

fn find_scheme_len(s: &Vec<char>, i: usize) -> (r: usize)
    requires
        i < s@.len(),
    ensures
        r as int == scheme_len(s@, i as int),
        r == 0 || r == 7 || r == 8,
{
    let n = s.len();
    if n - i > 4 && s[i] == 'h' && s[i + 1] == 't' && s[i + 2] == 't' && s[i + 3] == 'p' {
        if s[i + 4] == 's' && n - i > 7 && s[i + 5] == ':' && s[i + 6] == '/' && s[i + 7] == '/' {
            8
        } else if n - i > 6 && s[i + 4] == ':' && s[i + 5] == '/' && s[i + 6] == '/' {
            7
        } else {
            0
        }
    } else {
        0
    }
}

fn find_removed_end(s: &Vec<char>, i: usize) -> (r: Option<usize>)
    requires
        i < s@.len(),
    ensures
        match r {
            Some(e) => removed_end(s@, i as int) == Some(e as int) && i < e <= s@.len(),
            None => removed_end(s@, i as int) is None,
        },
{
    let n = s.len();
    let m = find_scheme_len(s, i);
    if n - i > 1 && s[i] == '#' && !white(s[i + 1]) {
        let d = find_run_end(s, i + 1, Class::Dark);
        Some(find_run_end(s, d, Class::Blank))
    } else if i == 0 && s[0] == '#' {
        Some(1)
    } else if i == 0 && s[0] == '.' {
        Some(1)
    } else if n - i > 1 && s[i] == '\n' && s[i + 1] == '.' {
        Some(i + 2)
    } else if m > 0 && n - i > m && !white(s[i + m]) {
        Some(find_run_end(s, i + m, Class::Dark))
    } else {
        None
    }
}

/// Removes hashtags, bare URLs and leading dots.
pub fn strip_markup(s: &Vec<char>) -> (r: Vec<char>)
    ensures
        r@ == tidied(s@),
{
    let mut out: Vec<char> = Vec::new();
    let mut i: usize = 0;
    while i < s.len()
        invariant
            i <= s@.len(),
            out@ + tidied_from(s@, i as int) == tidied(s@),
        decreases s@.len() - i,
    {
        match find_removed_end(s, i) {
            Some(e) => {
                i = e;
            },
            None => {
                let ghost before = out@;
                out.push(s[i]);
                assert(out@ + tidied_from(s@, i + 1) =~= before + tidied_from(s@, i as int));
                i += 1;
            },
        }
    }
    assert(out@ =~= out@ + tidied_from(s@, i as int));
    out
}

/// Strips markup and trims, over and over, until that changes nothing.
pub fn strip_all(s: &Vec<char>) -> (r: Vec<char>)
    ensures
        r@ == stripped(s@),
{
    let mut cur: Vec<char> = Vec::new();
    push_range(&mut cur, s, 0, s.len());
    assert(cur@ =~= s@);
    loop
        invariant
            stripped(cur@) == stripped(s@),
        decreases cur@.len(),
    {
        let t = trim_chars(&strip_markup(&cur));
        if t.len() < cur.len() {
            cur = t;
        } else {
            return t;
        }
    }
}

fn find_first_break(s: &Vec<char>) -> (r: usize)
    ensures
        r as int == first_break_from(s@, 0),
        r <= s@.len(),
{
    let n = s.len();
    let mut k: usize = 0;
    while k < n && !(s[k] == '\n' || (s[k] == '.' && n - k > 1 && s[k + 1] == ' '))
        invariant
            n == s@.len(),
            k <= n,
            first_break_from(s@, 0) == first_break_from(s@, k as int),
        decreases n - k,
    {
        k += 1;
    }
    k
}

/// Splits a caption into its title and its body.
///
/// No caption gives neither. Otherwise the caption is trimmed, numbered
/// items get a no-break space after their dot, hashtags, bare URLs and
/// leading dots are removed and the ends trimmed, over and over until that
/// changes nothing, and the result is split at its first line break or
/// ". ": the title is what comes before, trimmed, the body what comes after,
/// trimmed, unless that is empty or a lone dot. Without a break the whole
/// text is the title. Parsing a title again gives it back unchanged.
pub fn parse_caption(caption: Option<&str>) -> (r: (Option<String>, Option<String>))
    ensures
        (opt_view(r.0), opt_view(r.1)) == caption_parts(
            match caption {
                Some(c) => Some(c@),
                None => None,
            },
        ),
{
    let c = match caption {
        None => {
            return (None, None);
        },
        Some(c) => c,
    };
    let v = chars_of(c);
    let t = strip_all(&join_numbered(&trim_chars(&v)));
    let n = t.len();
    let k = find_first_break(&t);
    if k >= n {
        return (Some(string_of(&trim_chars(&t))), None);
    }
    proof {
        lemma_first_break_is_break(t@, 0);
    }
    let m: usize = if t[k] == '\n' { 1 } else { 2 };
    let mut head: Vec<char> = Vec::new();
    push_range(&mut head, &t, 0, k);
    assert(head@ =~= t@.subrange(0, k as int));
    let title = trim_chars(&head);
    let mut rest: Vec<char> = Vec::new();
    push_range(&mut rest, &t, k + m, n);
    let b = trim_chars(&rest);
    assert(rest@ =~= t@.subrange(k + m, n as int));
    if b.len() == 0 || (b.len() == 1 && b[0] == '.') {
        proof {
            if b@.len() == 1 {
                assert(b@ =~= seq!['.']);
            }
        }
        (Some(string_of(&title)), None)
    } else {
        assert(b@ != seq!['.']) by {
            if b@.len() == 1 {
                assert(b@[0] != seq!['.'][0]);
            }
        }
        (Some(string_of(&title)), Some(string_of(&b)))
    }
}

/// A caption whose normalized text holds no line break and no ". " gives
/// that text as the title and no body. This covers every caption without a
/// break but those where stripping the markup put one together (as
/// "a.http://x b" becomes "a. b").
pub proof fn lemma_single_line_caption(c: Seq<char>)
    requires
        single_line(normalized(c)),
    ensures
        caption_parts(Some(c)) == (Some(normalized(c)), None::<Seq<char>>),
{
    lemma_no_break(normalized(c), 0);
    crate::stable::lemma_stripped_settled(numbered(trim(c)));
}

pub proof fn lemma_first_break_is_break(s: Seq<char>, i: int)
    requires
        0 <= i,
    ensures
        first_break_from(s, i) < s.len() ==> is_break(s, first_break_from(s, i)),
    decreases s.len() - i,
{
    if i < s.len() && !is_break(s, i) {
        lemma_first_break_is_break(s, i + 1);
    }
}

proof fn lemma_no_break(s: Seq<char>, i: int)
    requires
        single_line(s),
        0 <= i,
    ensures
        first_break_from(s, i) >= s.len(),
    decreases s.len() - i,
{
    if i < s.len() {
        lemma_no_break(s, i + 1);
    }
}

} // verus!
