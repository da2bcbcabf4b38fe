use mail_extractor::css::rewrite_css;
use mail_extractor::html::{rewrite_element, rewrite_element_with, ElementInfo};
use mail_extractor::resolve::{Extraction, Part, PartOutcome, TransferEncoding};
use mail_extractor::table::{merge, LinkTable};
use mail_extractor::text::set_filename;

fn s(x: &str) -> String {
    x.to_string()
}

fn element(tag: &str, rel: Option<&str>, href: Option<&str>, src: Option<&str>) -> ElementInfo {
    ElementInfo {
        tag: s(tag),
        rel: rel.map(s),
        href: href.map(s),
        src: src.map(s),
    }
}

fn part(ctype: &str, cid: Option<&str>, loc: Option<&str>, enc: TransferEncoding, body: &[u8]) -> Part {
    Part {
        content_type: s(ctype),
        content_id: cid.map(s),
        content_location: loc.map(s),
        encoding: enc,
        body: body.to_vec(),
    }
}

#[test]
fn set_filename_strips_path_query_scheme_and_extension() {
    assert_eq!(
        set_filename(s("http://x/y/style.css?v=2"), s(".css")),
        (s("style"), s("style.css"))
    );
    assert_eq!(
        set_filename(s("cid:frame1@host"), s(".html")),
        (s("frame1@host"), s("frame1@host.html"))
    );
    assert_eq!(set_filename(s("a/b#c.js"), s(".css")), (s("b#c"), s("bc.css")));
    assert_eq!(set_filename(s(""), s(".css")), (s(""), s(".css")));
}

#[test]
fn merge_keeps_first_assignment() {
    let mut first = LinkTable::new();
    first.insert_if_absent(s("a"), s("1"));
    let mut second = LinkTable::new();
    second.insert_if_absent(s("a"), s("2"));
    second.insert_if_absent(s("b"), s("3"));
    merge(&mut first, &second);
    assert_eq!(first.lookup(&s("a")), Some(s("1")));
    assert_eq!(first.lookup(&s("b")), Some(s("3")));
    assert_eq!(first.lookup(&s("c")), None);
}

#[test]
fn stylesheet_link_is_named_after_its_file() {
    let mut t = LinkTable::new();
    let el = element("link", Some("stylesheet"), Some("http://x/y/style.css?v=2"), None);
    let edit = rewrite_element_with(&mut t, &el, &s("ID")).unwrap();
    assert_eq!(edit.attribute, "href");
    assert_eq!(edit.value, "style.css");
    assert_eq!(t.lookup(&s("http://x/y/style.css?v=2")), Some(s("style.css")));
}

#[test]
fn stylesheet_file_is_extracted_under_the_link_name() {
    let mut ex = Extraction::new();
    let el = element("link", Some("stylesheet"), Some("http://x/y/style.css?v=2"), None);
    let edit = ex.rewrite_element(&el).unwrap();
    let p = part("text/css", None, Some("http://x/y/style.css?v=2"), TransferEncoding::Base64, b"p{}");
    match ex.resolve_part(p) {
        PartOutcome::Stored(name) => assert_eq!(name, edit.value),
        other => panic!("unexpected {:?}", other),
    }
    let files = ex.into_files();
    assert_eq!(files, vec![(s("style.css"), b"p{}".to_vec())]);
}

#[test]
fn stylesheet_without_extension_gets_a_fresh_prefix() {
    let mut t = LinkTable::new();
    let el = element("link", Some("stylesheet"), Some("http://x/y/style"), None);
    let edit = rewrite_element_with(&mut t, &el, &s("ID")).unwrap();
    assert_eq!(edit.value, "IDstyle.css");
}

#[test]
fn base_href_is_emptied() {
    let mut t = LinkTable::new();
    let el = element("base", None, Some("http://example.com/"), None);
    let edit = rewrite_element(&mut t, &el).unwrap();
    assert_eq!(edit.attribute, "href");
    assert_eq!(edit.value, "");
    assert_eq!(t.lookup(&s("http://example.com/")), None);
}

#[test]
fn image_gets_the_fresh_name_under_its_decoded_source() {
    let mut t = LinkTable::new();
    let el = element("img", None, None, Some("a.png?x=1&amp;y=2"));
    let edit = rewrite_element_with(&mut t, &el, &s("ID1")).unwrap();
    assert_eq!(edit.attribute, "src");
    assert_eq!(edit.value, "ID1");
    assert_eq!(t.lookup(&s("a.png?x=1&y=2")), Some(s("ID1")));
}

#[test]
fn same_image_twice_keeps_first_name() {
    let mut t = LinkTable::new();
    let el = element("img", None, None, Some("a.png"));
    let first = rewrite_element_with(&mut t, &el, &s("ID1")).unwrap();
    let second = rewrite_element_with(&mut t, &el, &s("ID2")).unwrap();
    assert_eq!(first.value, "ID1");
    assert_eq!(second.value, "ID1");
}

#[test]
fn minted_image_name_is_a_uuid() {
    let mut t = LinkTable::new();
    let el = element("img", None, None, Some("a.png"));
    let edit = rewrite_element(&mut t, &el).unwrap();
    assert_eq!(edit.value.len(), 36);
    assert_ne!(edit.value, "a.png");
}

#[test]
fn same_identifiers_give_same_output() {
    let els = vec![
        element("img", None, None, Some("a.png")),
        element("link", Some("stylesheet"), Some("s/t"), None),
        element("iframe", None, None, Some("cid:f@h")),
    ];
    let run = || {
        let mut t = LinkTable::new();
        let mut out = Vec::new();
        for (i, el) in els.iter().enumerate() {
            let e = rewrite_element_with(&mut t, el, &format!("id{}", i)).unwrap();
            out.push((e.attribute, e.value));
        }
        out
    };
    assert_eq!(run(), run());
}

#[test]
fn nested_frame_round_trip() {
    let mut ex = Extraction::new();
    let el = element("iframe", None, None, Some("cid:frame1@host"));
    let edit = ex.rewrite_element(&el).unwrap();
    assert_eq!(edit.attribute, "src");
    assert_eq!(edit.value, "frame1@host.html");
    let p = part("text/html", Some("<frame1@host>"), None, TransferEncoding::QuotedPrintable, b"<p>x</p>");
    match ex.resolve_part(p) {
        PartOutcome::Frame { name, body } => {
            assert_eq!(name, "frame1@host.html");
            assert_eq!(body, b"<p>x</p>".to_vec());
            ex.store_document(name, body);
        }
        other => panic!("unexpected {:?}", other),
    }
    let files = ex.into_files();
    assert_eq!(files, vec![(s("frame1@host.html"), b"<p>x</p>".to_vec())]);
}

#[test]
fn unreferenced_attachment_is_extracted_under_a_fresh_name() {
    let mut ex = Extraction::new();
    ex.store_root(b"<html></html>".to_vec());
    let p = part("image/png", Some("<x@y>"), Some("http://h/a.png"), TransferEncoding::Base64, b"PNG");
    let name = match ex.resolve_part(p) {
        PartOutcome::Stored(name) => name,
        other => panic!("unexpected {:?}", other),
    };
    assert_eq!(name.len(), 36);
    let files = ex.into_files();
    assert_eq!(files.len(), 2);
    assert_eq!(files[0], (s("index.html"), b"<html></html>".to_vec()));
    assert_eq!(files[1], (name, b"PNG".to_vec()));
}

#[test]
fn referenced_part_with_plain_encoding_is_skipped() {
    let mut ex = Extraction::new();
    ex.rewrite_element(&element("img", None, None, Some("a.png"))).unwrap();
    let p = part("image/png", None, Some("a.png"), TransferEncoding::SevenBit, b"raw");
    assert!(matches!(ex.resolve_part(p), PartOutcome::Skipped));
    assert!(ex.into_files().is_empty());
}

#[test]
fn dangling_reference_has_no_file() {
    let mut ex = Extraction::new();
    let edit = ex.rewrite_element(&element("img", None, None, Some("gone.png"))).unwrap();
    ex.store_root(b"r".to_vec());
    let files = ex.into_files();
    assert_eq!(files.len(), 1);
    assert!(files.iter().all(|(n, _)| *n != edit.value));
}

#[test]
fn referenced_image_part_is_stored_under_its_name() {
    let mut ex = Extraction::new();
    let edit = ex.rewrite_element(&element("img", None, None, Some("pic.png"))).unwrap();
    let p = part("image/png", None, Some("pic.png"), TransferEncoding::Base64, b"IMG");
    match ex.resolve_part(p) {
        PartOutcome::Stored(name) => assert_eq!(name, edit.value),
        other => panic!("unexpected {:?}", other),
    }
    assert_eq!(ex.into_files(), vec![(edit.value, b"IMG".to_vec())]);
}

#[test]
fn data_uri_passes_through() {
    let css = b"a{background:url(data:image/png;base64,AAAA)}".to_vec();
    let (out, minted) = rewrite_css(&css, &LinkTable::new());
    assert_eq!(out, css);
    assert!(minted.into_entries().is_empty());
}

#[test]
fn stylesheet_reference_in_css_passes_through() {
    let css = b"@import url(other.css);".to_vec();
    let (out, _) = rewrite_css(&css, &LinkTable::new());
    assert_eq!(out, css);
}

#[test]
fn css_reference_takes_known_name() {
    let mut t = LinkTable::new();
    t.insert_if_absent(s("img/a.png"), s("known"));
    let css = b"p{background: URL( 'img/a.png' )}".to_vec();
    let (out, minted) = rewrite_css(&css, &t);
    assert_eq!(out, b"p{background: url(\"known\")}".to_vec());
    assert!(minted.into_entries().is_empty());
}

#[test]
fn css_repeated_reference_gets_one_name() {
    let css = b"a{b:url(\"x.png\")} c{d:url(x.png)}".to_vec();
    let (out, minted) = rewrite_css(&css, &LinkTable::new());
    let entries = minted.into_entries();
    assert_eq!(entries.len(), 1);
    let (key, name) = &entries[0];
    assert_eq!(key, "x.png");
    assert_eq!(name.len(), 36);
    let expected = format!("a{{b:url(\"{}\")}} c{{d:url(\"{}\")}}", name, name);
    assert_eq!(out, expected.into_bytes());
}

#[test]
fn css_part_references_are_merged_into_the_table() {
    let mut ex = Extraction::new();
    ex.rewrite_element(&element("link", Some("stylesheet"), Some("main.css"), None)).unwrap();
    let p = part("text/css", None, Some("main.css"), TransferEncoding::Base64, b"b{x:url(bg.gif)}");
    assert!(matches!(ex.resolve_part(p), PartOutcome::Stored(_)));
    let img = part("image/gif", None, Some("bg.gif"), TransferEncoding::Base64, b"GIF");
    let img_name = match ex.resolve_part(img) {
        PartOutcome::Stored(n) => n,
        other => panic!("unexpected {:?}", other),
    };
    let files = ex.into_files();
    assert_eq!(files.len(), 2);
    assert_eq!(files[0].0, "main.css");
    assert_eq!(files[0].1, format!("b{{x:url(\"{}\")}}", img_name).into_bytes());
    assert_eq!(files[1], (img_name, b"GIF".to_vec()));
}

#[test]
fn base_with_stylesheet_rel_is_still_emptied() {
    let mut t = LinkTable::new();
    let el = element("base", Some("stylesheet"), Some("http://x/y.css"), None);
    let edit = rewrite_element_with(&mut t, &el, &s("ID")).unwrap();
    assert_eq!(edit.attribute, "href");
    assert_eq!(edit.value, "");
    assert_eq!(t.lookup(&s("http://x/y.css")), None);
}

#[test]
fn image_with_stylesheet_rel_follows_the_image_rule() {
    let mut t = LinkTable::new();
    let el = element("img", Some("stylesheet"), Some("http://x/y.css"), Some("a.png"));
    let edit = rewrite_element_with(&mut t, &el, &s("ID")).unwrap();
    assert_eq!(edit.attribute, "src");
    assert_eq!(edit.value, "ID");
    assert_eq!(t.lookup(&s("a.png")), Some(s("ID")));
    assert_eq!(t.lookup(&s("http://x/y.css")), None);
}

#[test]
fn minted_names_are_lowercase_hyphenated_hex() {
    let mut t = LinkTable::new();
    let edit = rewrite_element(&mut t, &element("img", None, None, Some("b.png"))).unwrap();
    assert_eq!(edit.value.len(), 36);
    assert!(edit
        .value
        .chars()
        .all(|c| c.is_ascii_digit() || ('a'..='f').contains(&c) || c == '-'));
}
