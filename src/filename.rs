//! Collision-free output file names.
//!
//! A post's file name is a stem built from its date and slug, plus `.md`;
//! where that name is taken, a counter is added (`-1`, `-2`, ...), the
//! smallest that gives a free name. The post's slug carries the same counter.
use vstd::prelude::*;
use crate::text::{chars_of, contains_name, decimal, lemma_decimal_injective, lemma_decimal_value,
    push_decimal, string_of, views};
use crate::timestamp::{clock_text, date_text, push_clock, push_date, Timestamp};

verus! {

/// The file name for `stem` with counter `c`; counter 0 adds nothing.
pub open spec fn candidate(stem: Seq<char>, c: nat) -> Seq<char> {
    if c == 0 {
        stem + seq!['.', 'm', 'd']
    } else {
        stem + seq!['-'] + decimal(c) + seq!['.', 'm', 'd']
    }
}

/// `slug` with counter `c`; counter 0 adds nothing.
pub open spec fn counted(slug: Seq<char>, c: nat) -> Seq<char> {
    if c == 0 {
        slug
    } else {
        slug + seq!['-'] + decimal(c)
    }
}

/// `c` is the smallest counter whose name is not among `names`.
pub open spec fn is_first_free(stem: Seq<char>, names: Seq<Seq<char>>, c: nat) -> bool {
    &&& !names.contains(candidate(stem, c))
    &&& forall|j: nat| j < c ==> names.contains(#[trigger] candidate(stem, j))
}

/// The stem and the slug of a post: from the slug where there is a non-empty
/// one (`%Y-%m-%d-<slug>`), else from the time alone (`%Y-%m-%d-%H-%M-%S`,
/// with the slug `%Y-%m-%dT%H:%M:%S`).
pub open spec fn stem_and_slug(t: Timestamp, slug: Option<Seq<char>>) -> (Seq<char>, Seq<char>) {
    if slug is Some && slug->0.len() > 0 {
        (date_text(t) + seq!['-'] + slug->0, slug->0)
    } else {
        (
            date_text(t) + seq!['-'] + clock_text(t, '-'),
            date_text(t) + seq!['T'] + clock_text(t, ':'),
        )
    }
}

/// `name` and `slug` are what a post dated `t` with slug `slug` gets among
/// the taken `names`: its stem with the first free counter, and its slug with
/// the same counter.
pub open spec fn allocated(
    t: Timestamp,
    slug: Option<Seq<char>>,
    names: Seq<Seq<char>>,
    name: Seq<char>,
    out_slug: Seq<char>,
) -> bool {
    let stem = stem_and_slug(t, slug).0;
    let base = stem_and_slug(t, slug).1;
    exists|c: nat|
        is_first_free(stem, names, c) && name == candidate(stem, c) && out_slug == counted(base, c)
}

/// Distinct counters give distinct names.
pub proof fn lemma_candidate_injective(stem: Seq<char>, a: nat, b: nat)
    ensures
        a != b ==> candidate(stem, a) != candidate(stem, b),
{
    lemma_decimal_value(a);
    lemma_decimal_value(b);
    if a != b && candidate(stem, a) == candidate(stem, b) {
        if a > 0 && b > 0 {
            let x = candidate(stem, a);
            let lo = stem.len() + 1;
            assert(x.subrange(lo as int, x.len() - 3) =~= decimal(a));
            assert(candidate(stem, b).subrange(lo as int, x.len() - 3) =~= decimal(b));
            lemma_decimal_injective(a, b);
        } else {
            assert(candidate(stem, a).len() != candidate(stem, b).len());
        }
    }
}

/// Counters `0..k` whose names are all taken number at most the names.
proof fn lemma_taken_bound(stem: Seq<char>, names: Seq<Seq<char>>, k: nat)
    requires
        forall|j: nat| j < k ==> names.contains(#[trigger] candidate(stem, j)),
    ensures
        k <= names.len(),
{
    let cs = Seq::new(k, |j: int| candidate(stem, j as nat));
    assert(cs.no_duplicates()) by {
        assert forall|i: int, j: int| 0 <= i < cs.len() && 0 <= j < cs.len() && i != j implies cs[i]
            != cs[j] by {
            lemma_candidate_injective(stem, i as nat, j as nat);
        }
    }
    cs.unique_seq_to_set();
    assert(cs.to_set().subset_of(names.to_set())) by {
        assert forall|x: Seq<char>| cs.to_set().contains(x) implies names.to_set().contains(x) by {
            let i = choose|i: int| 0 <= i < cs.len() && cs[i] == x;
            assert(names.contains(candidate(stem, i as nat)));
        }
    }
    vstd::set_lib::lemma_len_subset(cs.to_set(), names.to_set());
    names.lemma_cardinality_of_set();
}

fn candidate_name(stem: &Vec<char>, c: u64) -> (r: String)
    ensures
        r@ == candidate(stem@, c as nat),
{
    let mut v: Vec<char> = Vec::new();
    crate::text::push_range(&mut v, stem, 0, stem.len());
    assert(v@ =~= stem@);
    if c > 0 {
        v.push('-');
        push_decimal(&mut v, c);
    }
    v.push('.');
    v.push('m');
    v.push('d');
    assert(v@ =~= candidate(stem@, c as nat));
    string_of(&v)
}

/// Picks the file name and slug of a post dated `t` whose title gave `slug`
/// (`None` where it had no title), given the names already taken.
///
/// The name is the stem with the smallest counter whose name is free, so it
/// is never one of `existing`; the slug carries that counter as well.
pub fn allocate(t: &Timestamp, slug: Option<&str>, existing: &Vec<String>) -> (r: (String, String))
    ensures
        allocated(
            *t,
            match slug {
                Some(s) => Some(s@),
                None => None,
            },
            views(existing@),
            r.0@,
            r.1@,
        ),
{
    let ghost spec_slug = match slug {
        Some(s) => Some(s@),
        None => None,
    };
    let mut stem: Vec<char> = Vec::new();
    let mut base: Vec<char> = Vec::new();
    push_date(&mut stem, t);
    stem.push('-');
    let given = match slug {
        Some(s) => chars_of(s),
        None => Vec::new(),
    };
    if given.len() > 0 {
        crate::text::push_range(&mut stem, &given, 0, given.len());
        crate::text::push_range(&mut base, &given, 0, given.len());
    } else {
        push_clock(&mut stem, t, '-');
        push_date(&mut base, t);
        base.push('T');
        push_clock(&mut base, t, ':');
    }
    assert(stem@ =~= stem_and_slug(*t, spec_slug).0);
    assert(base@ =~= stem_and_slug(*t, spec_slug).1);
    let ghost names = views(existing@);
    let count = existing.len();
    let mut counter: u64 = 0;
    let mut name = candidate_name(&stem, 0);
    while contains_name(existing, &name)
        invariant
            count == existing@.len(),
            counter <= count,
            names == views(existing@),
            name@ == candidate(stem@, counter as nat),
            forall|j: nat| j < counter ==> names.contains(#[trigger] candidate(stem@, j)),
        decreases existing@.len() - counter,
    {
        proof {
            assert forall|j: nat| j < counter + 1 implies names.contains(
                #[trigger] candidate(stem@, j),
            ) by {
                if j < counter {
                } else {
                    assert(j == counter);
                }
            }
            lemma_taken_bound(stem@, names, (counter + 1) as nat);
        }
        counter += 1;
        name = candidate_name(&stem, counter);
    }
    let mut slug_out = base.clone();
    if counter > 0 {
        slug_out.push('-');
        push_decimal(&mut slug_out, counter);
    }
    assert(slug_out@ =~= counted(base@, counter as nat));
    assert(is_first_free(stem@, names, counter as nat));
    let r = (name, string_of(&slug_out));
    assert(is_first_free(stem@, views(existing@), counter as nat) && r.0@ == candidate(
        stem@,
        counter as nat,
    ) && r.1@ == counted(base@, counter as nat));
    assert(allocated(*t, spec_slug, views(existing@), r.0@, r.1@)) by {
        let c = counter as nat;
        assert(is_first_free(stem@, views(existing@), c) && r.0@ == candidate(stem@, c) && r.1@
            == counted(base@, c));
    }
    r
}

/// Names handed out one after another for one stem, each added to the names
/// before the next is picked, are pairwise distinct, and the counters come
/// out as 0, 1, 2, ... in turn: once the names `0..k` are taken, the next
/// counter is `k`. This holds from any set of names that held none of the
/// stem's names at first.
pub proof fn lemma_allocation_sequence(stem: Seq<char>, names: Seq<Seq<char>>, k: nat)
    requires
        forall|j: nat| !names.contains(#[trigger] candidate(stem, j)),
    ensures
        is_first_free(stem, names + Seq::new(k, |j: int| candidate(stem, j as nat)), k),
        forall|i: nat, j: nat|
            i != j ==> #[trigger] candidate(stem, i) != #[trigger] candidate(stem, j),
{
    let added = Seq::new(k, |j: int| candidate(stem, j as nat));
    let all = names + added;
    assert forall|i: nat, j: nat| i != j implies #[trigger] candidate(stem, i) != #[trigger] candidate(
        stem,
        j,
    ) by {
        lemma_candidate_injective(stem, i, j);
    }
    assert forall|j: nat| j < k implies all.contains(#[trigger] candidate(stem, j)) by {
        assert(all[names.len() + j as int] == candidate(stem, j));
    }
    if all.contains(candidate(stem, k)) {
        let i = choose|i: int| 0 <= i < all.len() && all[i] == candidate(stem, k);
        if i < names.len() {
            assert(names.contains(candidate(stem, k)));
        } else {
            let j = i - names.len();
            assert(added[j] == candidate(stem, j as nat));
            lemma_candidate_injective(stem, j as nat, k);
        }
    }
}

} // verus!
