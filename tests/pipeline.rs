use genblog::caption::parse_caption;
use genblog::filename::allocate;
use genblog::post::{assemble, assemble_at, collect_alts, discover_images, render_document, stem_of, SourceRecord};
use genblog::slug::{slug_of_lowered, slugify};
use genblog::thumbnail::{center_crop, fit_dimensions, square_fit, square_thumbnail};
use genblog::timestamp::{parse_source_name, Timestamp};

fn noon() -> Timestamp {
    Timestamp { year: 2021, month: 6, day: 1, hour: 12, minute: 0, second: 0 }
}

fn record(caption: Option<&str>) -> SourceRecord {
    SourceRecord {
        caption: caption.map(|c| c.to_string()),
        location: None,
        shortcode: "abc123".to_string(),
        child_captions: vec![],
    }
}

#[test]
fn caption_absent_gives_nothing() {
    assert_eq!(parse_caption(None), (None, None));
}

#[test]
fn single_line_caption_is_whole_title() {
    assert_eq!(parse_caption(Some("  Hello world  ")), (Some("Hello world".to_string()), None));
    assert_eq!(parse_caption(Some("Sunset at 5.30 pm")), (Some("Sunset at 5.30 pm".to_string()), None));
}

#[test]
fn caption_splits_at_first_break() {
    let (t, b) = parse_caption(Some("First part. Second part. Third"));
    assert_eq!(t.as_deref(), Some("First part"));
    assert_eq!(b.as_deref(), Some("Second part. Third"));
    let (t, b) = parse_caption(Some("Line one\n  Line two  "));
    assert_eq!(t.as_deref(), Some("Line one"));
    assert_eq!(b.as_deref(), Some("Line two"));
}

#[test]
fn lone_dot_body_is_dropped() {
    assert_eq!(parse_caption(Some("Title\n.")), (Some("Title".to_string()), None));
    assert_eq!(parse_caption(Some("Title\n\n.")), (Some("Title".to_string()), None));
}

#[test]
fn numbered_item_keeps_its_dot() {
    let (t, b) = parse_caption(Some("1. My Trip. Fun"));
    assert_eq!(t.as_deref(), Some("1.\u{a0}My Trip"));
    assert_eq!(b.as_deref(), Some("Fun"));
    let (t, _) = parse_caption(Some("Plan c. Go home"));
    assert_eq!(t.as_deref(), Some("Plan c.\u{a0}Go home"));
}

#[test]
fn numbered_item_word_is_consumed() {
    let (t, b) = parse_caption(Some("c. c. x"));
    assert_eq!(t.as_deref(), Some("c.\u{a0}c"));
    assert_eq!(b.as_deref(), Some("x"));
}

#[test]
fn numbered_item_needs_a_word_after() {
    let (t, b) = parse_caption(Some("12. !"));
    assert_eq!(t.as_deref(), Some("12"));
    assert_eq!(b.as_deref(), Some("!"));
}

#[test]
fn markup_is_stripped() {
    let (t, b) = parse_caption(Some("Lovely day #sun #sea\nsee https://example.com/a?b=c now"));
    assert_eq!(t.as_deref(), Some("Lovely day see  now"));
    assert_eq!(b, None);
    let (t, b) = parse_caption(Some("Lovely day\nsee https://example.com/a now #x"));
    assert_eq!(t.as_deref(), Some("Lovely day"));
    assert_eq!(b.as_deref(), Some("see  now"));
    assert_eq!(parse_caption(Some(".hidden start")), (Some("hidden start".to_string()), None));
}

#[test]
fn hashtags_and_links_only_give_empty_title() {
    assert_eq!(
        parse_caption(Some("http://a.example/x #one #two https://b.example")),
        (Some(String::new()), None)
    );
    assert_eq!(parse_caption(Some("  https://x.y  #z ")), (Some(String::new()), None));
}

#[test]
fn leading_hashtag_is_removed() {
    assert_eq!(parse_caption(Some("#travel")), (Some(String::new()), None));
    assert_eq!(parse_caption(Some("#travel #sunset")), (Some(String::new()), None));
    assert_eq!(parse_caption(Some("#travel Lisbon")), (Some("Lisbon".to_string()), None));
}

#[test]
fn strip_repeats_until_settled() {
    assert_eq!(parse_caption(Some("http://x .b")), (Some("b".to_string()), None));
    assert_eq!(parse_caption(Some("http://x #")), (Some(String::new()), None));
    let (t, b) = parse_caption(Some("a \nb"));
    assert_eq!(t.as_deref(), Some("a"));
    assert_eq!(b.as_deref(), Some("b"));
}

#[test]
fn title_parses_to_itself() {
    for c in [
        "http://x .b",
        "http://x #",
        "a \nb",
        "#.x",
        "1. My Trip\nSaw the sunset. #travel http://example.com/x",
        "c. c. x",
        "  Lovely day #sun. Then home",
        ".  . dots",
    ] {
        let (t, _) = parse_caption(Some(c));
        let t = t.unwrap();
        assert_eq!(parse_caption(Some(&t)), (Some(t.clone()), None), "caption {:?}", c);
    }
}

#[test]
fn stripping_can_create_a_break() {
    let (t, b) = parse_caption(Some("a.http://x b"));
    assert_eq!(t.as_deref(), Some("a"));
    assert_eq!(b.as_deref(), Some("b"));
}

#[test]
fn slugify_examples() {
    assert_eq!(slugify("Hello, World!"), "hello-world");
    assert_eq!(slugify("  1.\u{a0}My Trip  "), "1-my-trip");
    assert_eq!(slugify("Café au lait"), "caf-au-lait");
    assert_eq!(slugify("ABC-def"), "abc-def");
    assert_eq!(slugify(""), "");
    assert_eq!(slugify("!!!"), "");
}

#[test]
fn slug_of_lowered_text() {
    assert_eq!(slug_of_lowered(" my trip. "), "my-trip");
    assert_eq!(slug_of_lowered("ABC x"), "ABC-x");
}

#[test]
fn slugify_is_idempotent() {
    for x in ["Hello, World!", " A  b ", "1.\u{a0}My Trip", "Ünïcödé ÄÖ", "x-Y_z"] {
        let once = slugify(x);
        assert_eq!(slugify(&once), once);
    }
}

#[test]
fn source_name_timestamp() {
    assert_eq!(parse_source_name("2021-06-01_12-00-00_UTC.json.xz"), Some(noon()));
    assert_eq!(
        parse_source_name("2019-12-31_23-59-58_UTC.json.xz"),
        Some(Timestamp { year: 2019, month: 12, day: 31, hour: 23, minute: 59, second: 58 })
    );
}

#[test]
fn source_name_without_timestamp() {
    assert_eq!(parse_source_name("profile_UTC.json.xz"), None);
    assert_eq!(parse_source_name("2021-02-30_12-00-00_UTC.json.xz"), None);
    assert_eq!(parse_source_name("short"), None);
}

#[test]
fn allocate_uses_slug_and_counter() {
    let mut names: Vec<String> = vec!["other.md".to_string()];
    let mut got = vec![];
    for _ in 0..3 {
        let (f, s) = allocate(&noon(), Some("my-trip"), &names);
        assert!(!names.contains(&f));
        names.push(f.clone());
        got.push((f, s));
    }
    assert_eq!(got[0], ("2021-06-01-my-trip.md".to_string(), "my-trip".to_string()));
    assert_eq!(got[1], ("2021-06-01-my-trip-1.md".to_string(), "my-trip-1".to_string()));
    assert_eq!(got[2], ("2021-06-01-my-trip-2.md".to_string(), "my-trip-2".to_string()));
}

#[test]
fn allocate_skips_taken_counters() {
    let names: Vec<String> = vec![
        "2021-06-01-a.md".to_string(),
        "2021-06-01-a-1.md".to_string(),
        "2021-06-01-a-3.md".to_string(),
    ];
    assert_eq!(
        allocate(&noon(), Some("a"), &names),
        ("2021-06-01-a-2.md".to_string(), "a-2".to_string())
    );
}

#[test]
fn allocate_falls_back_to_time() {
    let names: Vec<String> = vec![];
    let want = ("2021-06-01-12-00-00.md".to_string(), "2021-06-01T12:00:00".to_string());
    assert_eq!(allocate(&noon(), None, &names), want);
    assert_eq!(allocate(&noon(), Some(""), &names), want);
    let t = Timestamp { year: 33, month: 1, day: 2, hour: 3, minute: 4, second: 5 };
    assert_eq!(
        allocate(&t, None, &names),
        ("0033-01-02-03-04-05.md".to_string(), "0033-01-02T03:04:05".to_string())
    );
}

#[test]
fn fit_square_passthrough() {
    assert_eq!(fit_dimensions(800, 600, 800, 600), (800, 600));
    assert_eq!(fit_dimensions(500, 500, 800, 600), (800, 600));
    assert_eq!(fit_dimensions(0, 0, 800, 600), (800, 600));
}

#[test]
fn fit_downscale_keeps_aspect() {
    assert_eq!(fit_dimensions(1600, 1200, 800, 600), (800, 600));
    assert_eq!(fit_dimensions(1000, 333, 800, 600), (800, 266));
    assert_eq!(fit_dimensions(3, 2, 4, 100), (4, 3));
}

#[test]
fn square_fit_and_crop() {
    assert_eq!(square_fit(1000, 500, 450), (900, 450));
    let c = center_crop(900, 450, 450);
    assert_eq!((c.x, c.y, c.width, c.height), (225, 0, 450, 450));
    assert_eq!(square_fit(300, 600, 100), (100, 200));
    assert_eq!(square_fit(700, 700, 100), (100, 100));
}

#[test]
fn square_thumbnail_crops_only_non_square() {
    let t = square_thumbnail(1000, 500, 450);
    assert_eq!((t.width, t.height), (900, 450));
    let c = t.crop.unwrap();
    assert_eq!((c.x, c.y, c.width, c.height), (225, 0, 450, 450));
    let t = square_thumbnail(640, 640, 320);
    assert_eq!((t.width, t.height), (320, 320));
    assert!(t.crop.is_none());
}

#[test]
fn end_to_end_post() {
    let rec = record(Some("1. My Trip\nSaw the sunset. #travel http://example.com/x"));
    let mut names: Vec<String> = vec![];
    let post = assemble(&rec, "2021-06-01_12-00-00_UTC.json.xz", &vec![], &mut names).unwrap();
    assert_eq!(post.meta.title.as_deref(), Some("1.\u{a0}My Trip"));
    assert_eq!(post.body.as_deref(), Some("Saw the sunset."));
    assert_eq!(post.filename, "2021-06-01-1-my-trip.md");
    assert_eq!(post.meta.slug, "2021/1-my-trip");
    assert_eq!(post.meta.date, noon());
    assert!(post.meta.extra.images.is_empty());
    assert_eq!(post.meta.extra.alts, Some(vec![]));
    assert_eq!(post.meta.extra.instagram, "https://instagram.com/p/abc123");
    assert_eq!(post.meta.extra.location, None);
    assert_eq!(names, vec!["2021-06-01-1-my-trip.md".to_string()]);
}

#[test]
fn untitled_post_uses_time() {
    let mut rec = record(None);
    rec.location = Some("Lisbon".to_string());
    let mut names: Vec<String> = vec![];
    let post = assemble(&rec, "2021-06-01_12-00-00_UTC.json.xz", &vec![], &mut names).unwrap();
    assert_eq!(post.filename, "2021-06-01-12-00-00.md");
    assert_eq!(post.meta.slug, "2021/2021-06-01T12:00:00");
    assert_eq!(post.meta.title, None);
    assert_eq!(post.meta.extra.location.as_deref(), Some("Lisbon"));
}

#[test]
fn same_title_twice_gets_counter() {
    let rec = record(Some("Hello"));
    let mut names: Vec<String> = vec![];
    let a = assemble(&rec, "2021-06-01_12-00-00_UTC.json.xz", &vec![], &mut names).unwrap();
    let b = assemble(&rec, "2021-06-01_13-00-00_UTC.json.xz", &vec![], &mut names).unwrap();
    assert_eq!(a.filename, "2021-06-01-hello.md");
    assert_eq!(b.filename, "2021-06-01-hello-1.md");
    assert_eq!(b.meta.slug, "2021/hello-1");
}

#[test]
fn empty_title_counts_as_none() {
    let rec = record(Some("http://example.com/x #travel"));
    let mut names: Vec<String> = vec![];
    let post = assemble(&rec, "2021-06-01_12-00-00_UTC.json.xz", &vec![], &mut names).unwrap();
    assert_eq!(post.meta.title, None);
    assert_eq!(post.body, None);
    assert_eq!(post.filename, "2021-06-01-12-00-00.md");
    assert_eq!(post.meta.slug, "2021/2021-06-01T12:00:00");
}

#[test]
fn assemble_at_given_time() {
    let rec = record(Some("Harbour walk"));
    let mut names: Vec<String> = vec!["2021-06-01-harbour-walk.md".to_string()];
    let post = assemble_at(&rec, &noon(), "any_name.json.xz", &vec![], &mut names);
    assert_eq!(post.filename, "2021-06-01-harbour-walk-1.md");
    assert_eq!(post.meta.slug, "2021/harbour-walk-1");
    assert_eq!(post.meta.title.as_deref(), Some("Harbour walk"));
    assert_eq!(names.len(), 2);
}

#[test]
fn unreadable_name_gives_no_post() {
    let rec = record(Some("Hello"));
    let mut names: Vec<String> = vec!["x.md".to_string()];
    assert!(assemble(&rec, "notes_UTC.json.xz", &vec![], &mut names).is_none());
    assert_eq!(names, vec!["x.md".to_string()]);
}

#[test]
fn images_single_and_numbered() {
    let stem: Vec<char> = "2021-06-01_12-00-00_UTC".chars().collect();
    let present: Vec<String> = vec![
        "2021-06-01_12-00-00_UTC_1.jpg".to_string(),
        "2021-06-01_12-00-00_UTC_2.jpg".to_string(),
        "2021-06-01_12-00-00_UTC_4.jpg".to_string(),
    ];
    assert_eq!(
        discover_images(&stem, &present),
        vec!["/2021-06-01_12-00-00_UTC_1.jpg".to_string(), "/2021-06-01_12-00-00_UTC_2.jpg".to_string()]
    );
    let present: Vec<String> =
        vec!["2021-06-01_12-00-00_UTC.jpg".to_string(), "2021-06-01_12-00-00_UTC_1.jpg".to_string()];
    assert_eq!(discover_images(&stem, &present), vec!["/2021-06-01_12-00-00_UTC.jpg".to_string()]);
    assert!(discover_images(&stem, &vec![]).is_empty());
}

#[test]
fn image_stem_drops_extension() {
    let s: String = stem_of("2021-06-01_12-00-00_UTC.json.xz").into_iter().collect();
    assert_eq!(s, "2021-06-01_12-00-00_UTC");
}

#[test]
fn alts_need_one_per_image() {
    let children = vec![Some("A dog on a beach".to_string()), Some("Photo by Ben on June 1".to_string())];
    assert_eq!(collect_alts(&children, 2), None);
    assert_eq!(collect_alts(&children, 1), Some(vec!["A dog on a beach".to_string()]));
    let children = vec![None, Some(String::new()), Some("Cat".to_string()), Some("Tree".to_string())];
    assert_eq!(collect_alts(&children, 2), Some(vec!["Cat".to_string(), "Tree".to_string()]));
}

#[test]
fn post_with_partial_alts_has_none() {
    let mut rec = record(Some("Two photos"));
    rec.child_captions = vec![Some("A red boat".to_string()), Some("Photo by Ben on May 3".to_string())];
    let present: Vec<String> = vec![
        "2021-06-01_12-00-00_UTC_1.jpg".to_string(),
        "2021-06-01_12-00-00_UTC_2.jpg".to_string(),
    ];
    let mut names: Vec<String> = vec![];
    let post = assemble(&rec, "2021-06-01_12-00-00_UTC.json.xz", &present, &mut names).unwrap();
    assert_eq!(post.meta.extra.images.len(), 2);
    assert_eq!(post.meta.extra.alts, None);
}

#[test]
fn document_framing() {
    assert_eq!(render_document("a = 1\n", None), "+++\na = 1\n+++\n");
    assert_eq!(render_document("a = 1\n", Some("  Body text \n")), "+++\na = 1\n+++\n\nBody text\n");
}
