//! Behavior of the code-block augmenter on whole documents.

use pretty_readme::augment::augment_code_blocks;

const MARKER: &str = "# Ok::<(), Box<dyn std::error::Error>>(())";

fn v(s: &str) -> Vec<u8> {
    s.as_bytes().to_vec()
}

fn s(bytes: &[u8]) -> String {
    String::from_utf8(bytes.to_vec()).unwrap()
}

#[test]
fn inserts_marker_before_closing_fence() {
    let doc = v("# Title\n```rust\nuse x;\nx::go();\n```\ntail\n");
    let out = augment_code_blocks(&doc);
    let expected = format!("# Title\n```rust\nuse x;\nx::go();\n{MARKER}\n```\ntail\n");
    assert_eq!(s(&out), expected);
}

#[test]
fn matches_rs_tag() {
    let doc = v("```rs\nlet y = 2;\n```\n");
    let out = augment_code_blocks(&doc);
    assert_eq!(s(&out), format!("```rs\nlet y = 2;\n{MARKER}\n```\n"));
}

#[test]
fn matches_tags_case_insensitively() {
    let doc = v("```RuSt\na();\n```\n\n```RS\nb();\n```\n");
    let out = augment_code_blocks(&doc);
    assert_eq!(
        s(&out),
        format!("```RuSt\na();\n{MARKER}\n```\n\n```RS\nb();\n{MARKER}\n```\n")
    );
}

#[test]
fn augmenting_twice_inserts_marker_twice() {
    let doc = v("```rust\nuse x;\n```\n");
    let once = augment_code_blocks(&doc);
    let twice = augment_code_blocks(&once);
    assert_eq!(s(&once), format!("```rust\nuse x;\n{MARKER}\n```\n"));
    assert_eq!(s(&twice), format!("```rust\nuse x;\n{MARKER}\n{MARKER}\n```\n"));
    assert_ne!(once, twice);
}

#[test]
fn marker_already_present_is_not_deduplicated() {
    let doc = v(&format!("```rust\nwork();\n{MARKER}\n```\n"));
    let out = augment_code_blocks(&doc);
    assert_eq!(s(&out), format!("```rust\nwork();\n{MARKER}\n{MARKER}\n```\n"));
}

#[test]
fn unrelated_language_tag_is_untouched() {
    let doc = v("```text\nplain words\n```\n");
    let out = augment_code_blocks(&doc);
    assert_eq!(out, doc);
}

#[test]
fn untagged_fence_is_untouched() {
    let doc = v("```\nlet z = 3;\n```\n");
    let out = augment_code_blocks(&doc);
    assert_eq!(out, doc);
}

#[test]
fn tag_with_trailing_space_is_untouched() {
    let doc = v("```rust \nlet z = 3;\n```\n");
    let out = augment_code_blocks(&doc);
    assert_eq!(out, doc);
}

#[test]
fn empty_body_block_is_untouched() {
    let doc = v("```rust\n```\n");
    let out = augment_code_blocks(&doc);
    assert_eq!(out, doc);
}

#[test]
fn empty_body_block_between_text_is_untouched() {
    let doc = v("before\n```rust\n```\nafter\n");
    let out = augment_code_blocks(&doc);
    assert_eq!(out, doc);
}

#[test]
fn unclosed_fence_is_untouched() {
    let doc = v("```rust\nlet a = 1;\nno closing fence here\n");
    let out = augment_code_blocks(&doc);
    assert_eq!(out, doc);
}

#[test]
fn closing_fence_with_trailing_text_does_not_close() {
    let doc = v("```rust\nlet a = 1;\n``` not a fence\n");
    let out = augment_code_blocks(&doc);
    assert_eq!(out, doc);
}

#[test]
fn crlf_block_gets_crlf_marker_line() {
    let doc = v("intro\n```rust\r\nlet a = 1;\r\n```\nafter\n");
    let out = augment_code_blocks(&doc);
    let expected = format!("intro\n```rust\r\nlet a = 1;\r\n{MARKER}\r\n```\nafter\n");
    assert_eq!(s(&out), expected);
}

#[test]
fn cr_block_gets_cr_marker_line() {
    let doc = v("```rust\rlet a = 1;\r```\r");
    let out = augment_code_blocks(&doc);
    assert_eq!(s(&out), format!("```rust\rlet a = 1;\r{MARKER}\r```\r"));
}

#[test]
fn multiline_body_gets_one_marker() {
    let doc = v("```rust\nlet a = 1;\nlet b = 2;\nlet c = a + b;\n```\n");
    let out = augment_code_blocks(&doc);
    assert_eq!(
        s(&out),
        format!("```rust\nlet a = 1;\nlet b = 2;\nlet c = a + b;\n{MARKER}\n```\n")
    );
}

#[test]
fn three_rust_blocks_and_one_other_get_three_markers() {
    let doc = v(
        "# Heading\n```rust\na();\n```\nbetween\n```python\nprint()\n```\n```rs\nb();\n```\n```RUST\nc();\n```\nend\n",
    );
    let out = augment_code_blocks(&doc);
    let expected = format!(
        "# Heading\n```rust\na();\n{MARKER}\n```\nbetween\n```python\nprint()\n```\n```rs\nb();\n{MARKER}\n```\n```RUST\nc();\n{MARKER}\n```\nend\n",
    );
    assert_eq!(s(&out), expected);
}

#[test]
fn fence_not_at_line_start_is_untouched() {
    let doc = v("x```rust\nlet a = 1;\n```\n");
    let out = augment_code_blocks(&doc);
    assert_eq!(out, doc);
}

#[test]
fn document_without_trailing_newline_is_augmented() {
    let doc = v("```rust\nlet a = 1;\n```");
    let out = augment_code_blocks(&doc);
    assert_eq!(s(&out), format!("```rust\nlet a = 1;\n{MARKER}\n```"));
}

#[test]
fn consecutive_blocks_each_get_a_marker() {
    let doc = v("```rust\na();\n```\n```rust\nb();\n```\n");
    let out = augment_code_blocks(&doc);
    assert_eq!(
        s(&out),
        format!("```rust\na();\n{MARKER}\n```\n```rust\nb();\n{MARKER}\n```\n")
    );
}

#[test]
fn inner_foreign_fence_lines_belong_to_the_body() {
    // The body is the shortest span up to the first line that is exactly
    // three backticks; an inner line such as ```text is body content.
    let doc = v("```rust\n```text\ninner\n```\n");
    let out = augment_code_blocks(&doc);
    assert_eq!(s(&out), format!("```rust\n```text\ninner\n{MARKER}\n```\n"));
}

#[test]
fn empty_document_stays_empty() {
    let doc: Vec<u8> = Vec::new();
    let out = augment_code_blocks(&doc);
    assert!(out.is_empty());
}
