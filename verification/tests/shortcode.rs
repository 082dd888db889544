use book_renderer::shortcode::{find_blocks, Kind};
use book_renderer::substitute::substitute;
use book_renderer::text::char_is_whitespace;

#[test]
fn whitespace_is_the_unicode_property() {
    for code in 0u32..0x3100 {
        if let Some(c) = char::from_u32(code) {
            assert_eq!(char_is_whitespace(c), c.is_whitespace(), "U+{:04X}", code);
        }
    }
    assert!(!char_is_whitespace('\u{10FFFF}'));
}

#[test]
fn block_record_of_an_inline_block() {
    let blocks = find_blocks("ab {{#mermaid  graph TD;\n A-->B }} cd", Kind::Mermaid);
    assert_eq!(blocks.len(), 1);
    assert_eq!(blocks[0].start_index, 3);
    assert_eq!(blocks[0].end_index, 34);
    assert_eq!(blocks[0].reference, "graph TD;\n A-->B ");
    assert!(!blocks[0].escaped);
    assert!(!blocks[0].editable);
}

#[test]
fn block_record_of_a_file_block() {
    let blocks = find_blocks("\\{{#playpen src/a.rs editable}}{{#playpen b.rs x editable}}", Kind::Playpen);
    assert_eq!(blocks.len(), 2);
    assert_eq!(blocks[0].start_index, 1);
    assert_eq!(blocks[0].end_index, 31);
    assert_eq!(blocks[0].reference, "src/a.rs");
    assert!(blocks[0].escaped);
    assert!(blocks[0].editable);
    assert_eq!(blocks[1].start_index, 31);
    assert_eq!(blocks[1].reference, "b.rs");
    assert!(!blocks[1].escaped);
    assert!(!blocks[1].editable);
}

#[test]
fn editable_is_a_substring_of_the_second_token() {
    let blocks = find_blocks("{{#playpen a.rs noneditablex}}{{#playpen editable}}", Kind::Playpen);
    assert_eq!(blocks.len(), 2);
    assert!(blocks[0].editable);
    assert!(!blocks[1].editable);
    assert_eq!(blocks[1].reference, "editable");
}

#[test]
fn offsets_count_characters() {
    let blocks = find_blocks("äö {{#nomnoml [ü]}}", Kind::Nomnoml);
    assert_eq!(blocks.len(), 1);
    assert_eq!(blocks[0].start_index, 3);
    assert_eq!(blocks[0].end_index, 19);
    assert_eq!(blocks[0].reference, "[ü]");
}

#[test]
fn malformed_candidates_are_no_blocks() {
    for text in ["{{#mermaid", "{{#mermaid x", "{{#mermaid x}", "{{#mermaid}}", "{{#mermaid \u{a0}\t}}", "{{#mermaidx y}}", "{{ #mermaid x}}"] {
        assert!(find_blocks(text, Kind::Mermaid).is_empty(), "{}", text);
    }
}

#[test]
fn unicode_whitespace_separates() {
    let blocks = find_blocks("{{#mermaid\u{2003}x}}", Kind::Mermaid);
    assert_eq!(blocks.len(), 1);
    assert_eq!(blocks[0].reference, "x");
}

#[test]
fn nested_opening_tokens_share_the_closing_token() {
    let text = "{{#mermaid a {{#mermaid b}} c}}";
    let blocks = find_blocks(text, Kind::Mermaid);
    assert_eq!(blocks.len(), 2);
    assert_eq!((blocks[0].start_index, blocks[0].end_index), (0, 27));
    assert_eq!((blocks[1].start_index, blocks[1].end_index), (13, 27));
    assert_eq!(
        substitute(text, Kind::Mermaid, &Vec::new()),
        "\n<div class=\"mermaid\">\na {{#mermaid b\n</div>\n c}}"
    );
}

#[test]
fn nested_block_is_taken_when_the_outer_one_is_unresolved() {
    let text = "{{#playpen a {{#playpen b}} c";
    assert_eq!(
        substitute(text, Kind::Playpen, &vec![None, Some("B".to_string())]),
        "{{#playpen a <pre class=\"playpen\"><code class=\"language-rust\">B</code></pre> c"
    );
    assert_eq!(
        substitute(text, Kind::Playpen, &vec![Some("A".to_string()), Some("B".to_string())]),
        "<pre class=\"playpen\"><code class=\"language-rust\">A</code></pre> c"
    );
}

#[test]
fn adjacent_blocks() {
    assert_eq!(
        substitute("{{#railroad a}}{{#railroad b}}", Kind::Railroad, &Vec::new()),
        "\n<script type=\"text/javascript\">\na\n</script>\n\n<script type=\"text/javascript\">\nb\n</script>\n"
    );
}

#[test]
fn escaped_block_after_a_block() {
    assert_eq!(
        substitute("{{#mermaid a}}\\{{#mermaid b}}\\", Kind::Mermaid, &Vec::new()),
        "\n<div class=\"mermaid\">\na\n</div>\n{{#mermaid b}}\\"
    );
}

#[test]
fn kinds_do_not_touch_each_other() {
    let text = "{{#mermaid a}} {{#nomnoml b}}";
    assert_eq!(
        substitute(text, Kind::Nomnoml, &Vec::new()),
        "{{#mermaid a}} \n<script class=\"nomnoml-text\" type=\"text/plain\">\nb\n</script>\n"
    );
}
