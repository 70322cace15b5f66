//! Assembling one post: caption, slug, file name, images, alt texts.
use vstd::prelude::*;
use crate::caption::{caption_parts, opt_view, parse_caption};
use crate::filename::{allocate, allocated};
use crate::slug::{lowercase_of, slug_text, slugify};
use crate::text::{
    chars_of, contains_name, decimal, has_prefix, push_decimal, push_range, push_str, starts_with,
    string_of, trim, trim_chars, views,
};
use crate::timestamp::{parse_source_name, push_year, source_time, year_text, Timestamp};

verus! {

/// Alt texts that start with this are the author's credit line, not a
/// description, and are skipped.
pub const CREDIT_PREFIX: &'static str = "Photo by Ben on";

/// What a post's link starts with; its short code follows.
pub const LINK_PREFIX: &'static str = "https://instagram.com/p/";

/// The extension of a source document, taken out of its name to get the
/// stem of its images.
pub const SOURCE_EXTENSION: &'static str = ".json.xz";

/// What the exported archive holds for one post, read at its edge.
pub struct SourceRecord {
    pub caption: Option<String>,
    pub location: Option<String>,
    pub shortcode: String,
    /// The alt text of each child of a gallery post, in order; `None` where
    /// a child has none.
    pub child_captions: Vec<Option<String>>,
}

/// The nested part of a post's front matter.
pub struct PostExtra {
    pub images: Vec<String>,
    pub alts: Option<Vec<String>>,
    pub instagram: String,
    pub location: Option<String>,
}

/// A post's front matter.
pub struct PostMeta {
    pub date: Timestamp,
    pub title: Option<String>,
    pub slug: String,
    pub extra: PostExtra,
}

/// One generated post: its file name, front matter and body.
pub struct Post {
    pub filename: String,
    pub meta: PostMeta,
    pub body: Option<String>,
}

/// `s` with every occurrence of `p` from `i` on taken out, left to right.
pub open spec fn erase_from(s: Seq<char>, p: Seq<char>, i: int) -> Seq<char>
    decreases s.len() - i,
{
    if i < 0 || i >= s.len() {
        Seq::empty()
    } else if p.len() > 0 && starts_with(s.subrange(i, s.len() as int), p) {
        erase_from(s, p, i + p.len())
    } else {
        seq![s[i]] + erase_from(s, p, i + 1)
    }
}

/// The stem that a source document's images share: its name with the source
/// extension taken out.
pub open spec fn image_stem(name: Seq<char>) -> Seq<char> {
    erase_from(name, SOURCE_EXTENSION@, 0)
}

/// The image file of a single-image post.
pub open spec fn single_image(stem: Seq<char>) -> Seq<char> {
    stem + seq!['.', 'j', 'p', 'g']
}

/// The `i`-th image file of a gallery post.
pub open spec fn numbered_image(stem: Seq<char>, i: nat) -> Seq<char> {
    stem + seq!['_'] + decimal(i) + seq!['.', 'j', 'p', 'g']
}

/// The gallery images present from number `i` on, each as a root path,
/// stopping at the first one missing or at 999.
pub open spec fn numbered_images(stem: Seq<char>, present: Seq<Seq<char>>, i: nat) -> Seq<
    Seq<char>,
>
    decreases 1000 - i,
{
    if i < 1000 && present.contains(numbered_image(stem, i)) {
        seq![seq!['/'] + numbered_image(stem, i)] + numbered_images(stem, present, i + 1)
    } else {
        Seq::empty()
    }
}

/// A post's images: its single image where that is present, else its
/// numbered ones.
pub open spec fn found_images(stem: Seq<char>, present: Seq<Seq<char>>) -> Seq<Seq<char>> {
    if present.contains(single_image(stem)) {
        seq![seq!['/'] + single_image(stem)]
    } else {
        numbered_images(stem, present, 1)
    }
}

/// An alt text that describes an image: present, not empty, and not the
/// credit line.
pub open spec fn describes(c: Option<Seq<char>>) -> bool {
    c is Some && c->0.len() > 0 && !starts_with(c->0, CREDIT_PREFIX@)
}

/// The alt texts of `children` that describe an image, in order.
pub open spec fn kept_alts(children: Seq<Option<Seq<char>>>) -> Seq<Seq<char>>
    decreases children.len(),
{
    if children.len() == 0 {
        Seq::empty()
    } else if describes(children.last()) {
        kept_alts(children.drop_last()).push(children.last()->0)
    } else {
        kept_alts(children.drop_last())
    }
}

/// The alt texts of a post with `count` images: all of them where there is
/// exactly one per image, else none at all.
pub open spec fn post_alts(children: Seq<Option<Seq<char>>>, count: nat) -> Option<Seq<Seq<char>>> {
    if kept_alts(children).len() == count {
        Some(kept_alts(children))
    } else {
        None
    }
}

/// The character sequences of a list of optional strings.
pub open spec fn opt_views(v: Seq<Option<String>>) -> Seq<Option<Seq<char>>> {
    v.map_values(|o: Option<String>| opt_view(o))
}

/// The character sequences of an optional list of strings.
pub open spec fn opt_list_view(o: Option<Vec<String>>) -> Option<Seq<Seq<char>>> {
    match o {
        Some(v) => Some(views(v@)),
        None => None,
    }
}

/// Alt texts go with a post only as a whole: there are some exactly when
/// the describing ones number as many as the images, and then one for each
/// image; a partial list is never kept.
pub proof fn lemma_alts_all_or_nothing(children: Seq<Option<Seq<char>>>, count: nat)
    ensures
        (post_alts(children, count) is Some) == (kept_alts(children).len() == count),
        post_alts(children, count) is Some ==> post_alts(children, count)->0.len() == count,
{
}

fn matches_at(s: &Vec<char>, p: &Vec<char>, i: usize) -> (r: bool)
    requires
        i <= s@.len(),
    ensures
        r == starts_with(s@.subrange(i as int, s@.len() as int), p@),
{
    if p.len() > s.len() - i {
        return false;
    }
    let mut k: usize = 0;
    while k < p.len()
        invariant
            i <= s@.len() <= usize::MAX,
            p@.len() <= s@.len() - i,
            k <= p@.len(),
            forall|j: int| 0 <= j < k ==> s@[i + j] == p@[j],
        decreases p@.len() - k,
    {
        if s[i + k] != p[k] {
            assert(s@.subrange(i as int, s@.len() as int).subrange(0, p@.len() as int)[k as int]
                != p@[k as int]);
            return false;
        }
        k += 1;
    }
    assert(s@.subrange(i as int, s@.len() as int).subrange(0, p@.len() as int) =~= p@);
    true
}

/// The stem of a source document's images: its name with every
/// `.json.xz` taken out.
pub fn stem_of(name: &str) -> (r: Vec<char>)
    ensures
        r@ == image_stem(name@),
{
    let s = chars_of(name);
    let p = chars_of(SOURCE_EXTENSION);
    let mut out: Vec<char> = Vec::new();
    let mut i: usize = 0;
    while i < s.len()
        invariant
            i <= s@.len(),
            s@ == name@,
            p@ == SOURCE_EXTENSION@,
            out@ + erase_from(s@, p@, i as int) == image_stem(name@),
        decreases s@.len() - i,
    {
        if p.len() > 0 && matches_at(&s, &p, i) {
            i += p.len();
        } else {
            let ghost before = out@;
            out.push(s[i]);
            assert(out@ + erase_from(s@, p@, i + 1) =~= before + erase_from(s@, p@, i as int));
            i += 1;
        }
    }
    assert(out@ =~= out@ + erase_from(s@, p@, i as int));
    out
}

fn image_path(name: &Vec<char>) -> (r: String)
    ensures
        r@ == seq!['/'] + name@,
{
    let mut v: Vec<char> = Vec::new();
    v.push('/');
    push_range(&mut v, name, 0, name.len());
    assert(v@ =~= seq!['/'] + name@);
    string_of(&v)
}

/// The images of the post whose images are named after `stem`, among the
/// files `present` in the output directory: `/<stem>.jpg` where that file is
/// there, else `/<stem>_1.jpg`, `/<stem>_2.jpg`, ... up to the first one
/// missing, and at most 999 of them.
pub fn discover_images(stem: &Vec<char>, present: &Vec<String>) -> (r: Vec<String>)
    ensures
        views(r@) == found_images(stem@, views(present@)),
{
    let mut single: Vec<char> = Vec::new();
    push_range(&mut single, stem, 0, stem.len());
    single.push('.');
    single.push('j');
    single.push('p');
    single.push('g');
    assert(single@ =~= single_image(stem@));
    let mut out: Vec<String> = Vec::new();
    if contains_name(present, &string_of(&single)) {
        out.push(image_path(&single));
        assert(views(out@) =~= found_images(stem@, views(present@)));
        return out;
    }
    let mut i: u64 = 1;
    while i < 1000
        invariant
            1 <= i <= 1000,
            views(out@) + numbered_images(stem@, views(present@), i as nat) == found_images(
                stem@,
                views(present@),
            ),
        decreases 1000 - i,
    {
        let mut name: Vec<char> = Vec::new();
        push_range(&mut name, stem, 0, stem.len());
        name.push('_');
        push_decimal(&mut name, i);
        name.push('.');
        name.push('j');
        name.push('p');
        name.push('g');
        assert(name@ =~= numbered_image(stem@, i as nat));
        if !contains_name(present, &string_of(&name)) {
            assert(views(out@) =~= views(out@) + numbered_images(stem@, views(present@), i as nat));
            return out;
        }
        let ghost before = views(out@);
        out.push(image_path(&name));
        assert(views(out@) =~= before.push(seq!['/'] + numbered_image(stem@, i as nat)));
        assert(views(out@) + numbered_images(stem@, views(present@), (i + 1) as nat) =~= before
            + numbered_images(stem@, views(present@), i as nat));
        i += 1;
    }
    assert(views(out@) =~= views(out@) + numbered_images(stem@, views(present@), i as nat));
    out
}

/// The alt texts of a post with `image_count` images, from its children's:
/// those that are present, not empty and not the author's credit line, kept
/// only where there is exactly one per image.
pub fn collect_alts(children: &Vec<Option<String>>, image_count: usize) -> (r: Option<Vec<String>>)
    ensures
        opt_list_view(r) == post_alts(opt_views(children@), image_count as nat),
{
    let credit = chars_of(CREDIT_PREFIX);
    let mut alts: Vec<String> = Vec::new();
    let mut i: usize = 0;
    while i < children.len()
        invariant
            i <= children@.len(),
            credit@ == CREDIT_PREFIX@,
            views(alts@) == kept_alts(opt_views(children@.subrange(0, i as int))),
        decreases children@.len() - i,
    {
        assert(opt_views(children@.subrange(0, i + 1)).drop_last() =~= opt_views(
            children@.subrange(0, i as int),
        ));
        match &children[i] {
            Some(c) => {
                let cv = chars_of(c.as_str());
                if cv.len() > 0 && !has_prefix(&cv, &credit) {
                    let ghost before = views(alts@);
                    alts.push(c.clone());
                    assert(views(alts@) =~= before.push(c@));
                }
            },
            None => {},
        }
        i += 1;
    }
    assert(children@.subrange(0, children@.len() as int) =~= children@);
    if alts.len() == image_count {
        Some(alts)
    } else {
        None
    }
}

/// A post's title: the caption's title where that is not empty.
pub open spec fn post_title(title: Option<Seq<char>>) -> Option<Seq<char>> {
    match title {
        Some(t) => if t.len() > 0 {
            Some(t)
        } else {
            None
        },
        None => None,
    }
}

/// The slug that a post's title gives, if it has a title.
pub open spec fn title_slug(title: Option<Seq<char>>) -> Option<Seq<char>> {
    match title {
        Some(t) => Some(slug_text(lowercase_of(t))),
        None => None,
    }
}

/// `p` is the post made from `record`, read from the source file `name`
/// dated `t`, with the files `present` in the output directory and the
/// post file names `names` already taken.
pub open spec fn post_matches(
    p: Post,
    record: SourceRecord,
    t: Timestamp,
    name: Seq<char>,
    present: Seq<Seq<char>>,
    names: Seq<Seq<char>>,
) -> bool {
    let parts = caption_parts(opt_view(record.caption));
    let images = found_images(image_stem(name), present);
    &&& p.meta.date == t
    &&& opt_view(p.meta.title) == post_title(parts.0)
    &&& opt_view(p.body) == parts.1
    &&& exists|s: Seq<char>|
        allocated(t, title_slug(post_title(parts.0)), names, p.filename@, s) && p.meta.slug@ == year_text(
            t.year as int,
        ) + seq!['/'] + s
    &&& views(p.meta.extra.images@) == images
    &&& opt_list_view(p.meta.extra.alts) == post_alts(
        opt_views(record.child_captions@),
        images.len(),
    )
    &&& p.meta.extra.instagram@ == LINK_PREFIX@ + record.shortcode@
    &&& opt_view(p.meta.extra.location) == opt_view(record.location)
}

/// Builds the post for the source document `name`, whose content is
/// `record`; `present` lists the files in the output directory and
/// `existing` the post file names already taken, to which the new post's
/// file name is added.
///
/// A name without a readable timestamp gives no post, and nothing changes.
/// Otherwise the post is the one that `assemble_at` builds for that time.
pub fn assemble(
    record: &SourceRecord,
    name: &str,
    present: &Vec<String>,
    existing: &mut Vec<String>,
) -> (r: Option<Post>)
    ensures
        match source_time(name@) {
            None => r is None && final(existing)@ == old(existing)@,
            Some(t) => r is Some && post_matches(
                r->0,
                *record,
                t,
                name@,
                views(present@),
                views(old(existing)@),
            ) && final(existing)@ == old(existing)@.push(r->0.filename),
        },
{
    match parse_source_name(name) {
        None => None,
        Some(t) => Some(assemble_at(record, &t, name, present, existing)),
    }
}

/// Builds the post dated `t` for the source document `name`.
///
/// The caption gives the title and body; a title that is empty counts as
/// none. The title gives the slug, the date and slug a free file name, and
/// the front-matter slug is the year, a `/`, and the slug with the same
/// counter as the file name. The file name is added to `existing`.
pub fn assemble_at(
    record: &SourceRecord,
    t: &Timestamp,
    name: &str,
    present: &Vec<String>,
    existing: &mut Vec<String>,
) -> (r: Post)
    ensures
        post_matches(r, *record, *t, name@, views(present@), views(old(existing)@)),
        final(existing)@ == old(existing)@.push(r.filename),
{
    let t = *t;
    let (parsed_title, body) = parse_caption(
        match &record.caption {
            Some(c) => Some(c.as_str()),
            None => None,
        },
    );
    let title = match parsed_title {
        Some(x) => if x.unicode_len() > 0 {
            Some(x)
        } else {
            None
        },
        None => None,
    };
    let slug = match &title {
        Some(x) => Some(slugify(x.as_str())),
        None => None,
    };
    let ghost names = views(existing@);
    let (filename, final_slug) = allocate(
        &t,
        match &slug {
            Some(s) => Some(s.as_str()),
            None => None,
        },
        existing,
    );
    proof {
        let spec_slug = match slug {
            Some(s) => Some(s@),
            None => None::<Seq<char>>,
        };
        assert(spec_slug == title_slug(opt_view(title)));
    }
    let mut sv: Vec<char> = Vec::new();
    push_year(&mut sv, t.year);
    sv.push('/');
    push_str(&mut sv, final_slug.as_str());
    let stem = stem_of(name);
    let images = discover_images(&stem, present);
    proof {
        assert(views(images@).len() == images@.len());
    }
    let alts = collect_alts(&record.child_captions, images.len());
    let mut link = chars_of(LINK_PREFIX);
    push_str(&mut link, record.shortcode.as_str());
    let location = match &record.location {
        Some(l) => Some(l.clone()),
        None => None,
    };
    existing.push(filename.clone());
    let post = Post {
        filename,
        meta: PostMeta {
            date: t,
            title,
            slug: string_of(&sv),
            extra: PostExtra { images, alts, instagram: string_of(&link), location },
        },
        body,
    };
    assert(post.meta.slug@ == year_text(t.year as int) + seq!['/'] + final_slug@);
    post
}

/// A post file: the front matter between `+++` lines, then, where there is
/// a body, an empty line and the trimmed body with a line break.
pub open spec fn document(front: Seq<char>, body: Option<Seq<char>>) -> Seq<char> {
    let head = seq!['+', '+', '+', '\n'] + front + seq!['+', '+', '+', '\n'];
    match body {
        Some(b) => head + seq!['\n'] + trim(b) + seq!['\n'],
        None => head,
    }
}

/// Frames a post's serialized front matter and its body into the text of
/// its file.
pub fn render_document(front_matter: &str, body: Option<&str>) -> (r: String)
    ensures
        r@ == document(
            front_matter@,
            match body {
                Some(b) => Some(b@),
                None => None,
            },
        ),
{
    let mut v: Vec<char> = Vec::new();
    v.push('+');
    v.push('+');
    v.push('+');
    v.push('\n');
    push_str(&mut v, front_matter);
    v.push('+');
    v.push('+');
    v.push('+');
    v.push('\n');
    match body {
        Some(b) => {
            v.push('\n');
            let t = trim_chars(&chars_of(b));
            push_range(&mut v, &t, 0, t.len());
            v.push('\n');
        },
        None => {},
    }
    assert(v@ =~= document(
        front_matter@,
        match body {
            Some(b) => Some(b@),
            None => None,
        },
    ));
    string_of(&v)
}

} // verus!
