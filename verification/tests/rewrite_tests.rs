//! Behavior of the literal link rewriter.

use pretty_readme::rewrite::rewrite_links;

fn v(s: &str) -> Vec<u8> {
    s.as_bytes().to_vec()
}

fn s(bytes: &[u8]) -> String {
    String::from_utf8(bytes.to_vec()).unwrap()
}

#[test]
fn replaces_every_occurrence() {
    let doc = v("see https://docs.rs/x/latest/x/a and https://docs.rs/x/latest/x/b");
    let out = rewrite_links(&doc, &v("https://docs.rs/x/latest/x/"), &v("./"));
    assert_eq!(s(&out), "see ./a and ./b");
}

#[test]
fn absent_target_changes_nothing() {
    let doc = v("no links here at all");
    let out = rewrite_links(&doc, &v("https://example.test/"), &v("./"));
    assert_eq!(out, doc);
}

#[test]
fn empty_target_changes_nothing() {
    let doc = v("anything whatsoever");
    let out = rewrite_links(&doc, &v(""), &v("./"));
    assert_eq!(out, doc);
}

#[test]
fn empty_replacement_deletes_target() {
    let doc = v("a-b-c");
    let out = rewrite_links(&doc, &v("-"), &v(""));
    assert_eq!(s(&out), "abc");
}

#[test]
fn replacement_may_be_longer_than_target() {
    let doc = v("x.x.x");
    let out = rewrite_links(&doc, &v("."), &v("::"));
    assert_eq!(s(&out), "x::x::x");
}

#[test]
fn matches_are_non_overlapping_and_leftmost() {
    let doc = v("aaa");
    let out = rewrite_links(&doc, &v("aa"), &v("b"));
    assert_eq!(s(&out), "ba");
}

#[test]
fn matching_is_case_sensitive() {
    let doc = v("Url url URL");
    let out = rewrite_links(&doc, &v("url"), &v("link"));
    assert_eq!(s(&out), "Url link URL");
}

#[test]
fn rewrite_twice_equals_once_for_disjoint_strings() {
    let doc = v("go to https://docs.rs/x/latest/x/ and https://docs.rs/x/latest/x/y");
    let target = v("https://docs.rs/x/latest/x/");
    let replacement = v("./");
    let once = rewrite_links(&doc, &target, &replacement);
    let twice = rewrite_links(&once, &target, &replacement);
    assert_eq!(once, twice);
}

#[test]
fn rewrite_twice_can_differ_when_a_seam_recreates_the_target() {
    // The replacement "a" does not contain the target "ab", yet the first
    // pass leaves "ab" at the seam between the replacement and the text
    // after it, so a second pass still finds work.
    let doc = v("abb");
    let target = v("ab");
    let replacement = v("a");
    let once = rewrite_links(&doc, &target, &replacement);
    let twice = rewrite_links(&once, &target, &replacement);
    assert_eq!(s(&once), "ab");
    assert_eq!(s(&twice), "a");
}
