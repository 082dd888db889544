use book_renderer::helpers::{
    playpen_files, render_functionplot, render_jsxgraph, render_mermaid, render_nomnoml,
    render_playpen, render_railroad,
};

#[test]
fn mermaid_test_oneline_replacement() {
    let s = "Some random text with {{#mermaid part1}}...";
    let result: String = render_mermaid(s);
    println!("result:{}", result);
    assert!(result.as_str() == "Some random text with \n<div class=\"mermaid\">\npart1\n</div>\n...");
}

#[test]
fn mermaid_test_twoline_replacement() {
    let s = "Some random text with {{#mermaid part1\npart2\n}}...";
    let result: String = render_mermaid(s);
    println!("result:{}", result);
    assert!(
        result.as_str()
            == "Some random text with \n<div class=\"mermaid\">\npart1\npart2\n\n</div>\n..."
    );
}

#[test]
fn nomnoml_test_oneline_replacement() {
    let s = "Some random text with {{#nomnoml part1}}...";
    let result: String = render_nomnoml(s);
    println!("result:{}", result);
    assert!(result.as_str() == "Some random text with \n<script class=\"nomnoml-text\" type=\"text/plain\">\npart1\n</script>\n...");
}

#[test]
fn nomnoml_test_twoline_replacement() {
    let s = "Some random text with {{#nomnoml part1\npart2\n}}...";
    let result: String = render_nomnoml(s);
    println!("result:{}", result);
    assert!(result.as_str() == "Some random text with \n<script class=\"nomnoml-text\" type=\"text/plain\">\npart1\npart2\n\n</script>\n...");
}

#[test]
fn mermaid_literal_case() {
    assert_eq!(
        render_mermaid("Some text with {{#mermaid part1}}..."),
        "Some text with \n<div class=\"mermaid\">\npart1\n</div>\n..."
    );
}

#[test]
fn nomnoml_keeps_inner_newlines() {
    let out = render_nomnoml("Some text with {{#nomnoml part1\npart2\n}}...");
    assert!(out.contains("<script class=\"nomnoml-text\" type=\"text/plain\">\npart1\npart2\n\n</script>"));
}

#[test]
fn other_inline_kinds() {
    assert_eq!(
        render_jsxgraph("a {{#jsxgraph var b = 1;}} z"),
        "a \n<script type=\"text/javascript\">\nvar b = 1;\n</script>\n z"
    );
    assert_eq!(
        render_railroad("{{#railroad Diagram()}}"),
        "\n<script type=\"text/javascript\">\nDiagram()\n</script>\n"
    );
    assert_eq!(
        render_functionplot("{{#functionplot {target: '#p'}}}"),
        "\n<script>\nfunctionPlot({target: '#p');\n</script>\n}"
    );
}

#[test]
fn no_block_is_identity() {
    let s = "plain text, {{ braces }} and {{#other x}} stay";
    assert_eq!(render_mermaid(s), s);
    assert_eq!(render_nomnoml(""), "");
}

#[test]
fn escaped_block_loses_backslash_only() {
    assert_eq!(render_mermaid("a \\{{#mermaid X}} b"), "a {{#mermaid X}} b");
}

#[test]
fn blank_bodies_stay() {
    assert_eq!(render_mermaid("{{#mermaid}}"), "{{#mermaid}}");
    assert_eq!(render_mermaid("{{#mermaid   }}"), "{{#mermaid   }}");
    assert_eq!(render_mermaid("x {{#mermaid \n\t}} y"), "x {{#mermaid \n\t}} y");
    assert_eq!(render_mermaid("{{#mermaid abc"), "{{#mermaid abc");
    assert_eq!(render_mermaid("{{#mermaidabc}}"), "{{#mermaidabc}}");
}

#[test]
fn several_blocks_in_order() {
    assert_eq!(
        render_mermaid("{{#mermaid a}}-{{#mermaid a much longer body}}-{{#mermaid c}}"),
        "\n<div class=\"mermaid\">\na\n</div>\n-\n<div class=\"mermaid\">\na much longer body\n</div>\n-\n<div class=\"mermaid\">\nc\n</div>\n"
    );
}

#[test]
fn playpen_includes_files() {
    let s = "A {{#playpen a.rs}} B {{#playpen b.rs editable}} C \\{{#playpen c.rs}} D";
    let contents = vec![Some("fn a() {}".to_string()), Some("fn b() {}".to_string()), None];
    assert_eq!(
        render_playpen(s, &contents),
        "A <pre class=\"playpen\"><code class=\"language-rust\">fn a() {}</code></pre> B <pre class=\"playpen\"><code class=\"language-rust editable\">fn b() {}</code></pre> C {{#playpen c.rs}} D"
    );
}

#[test]
fn playpen_missing_file_leaves_block() {
    let s = "A {{#playpen a.rs}} B {{#playpen b.rs}} C";
    let contents = vec![None, Some("fn b() {}".to_string())];
    assert_eq!(
        render_playpen(s, &contents),
        "A {{#playpen a.rs}} B <pre class=\"playpen\"><code class=\"language-rust\">fn b() {}</code></pre> C"
    );
    assert_eq!(render_playpen(s, &Vec::new()), s);
}

#[test]
fn playpen_files_are_listed_in_block_order() {
    let s = "A {{#playpen a.rs}} B \\{{#playpen skipped.rs}} C {{#playpen dir/b.rs editable}}";
    assert_eq!(
        playpen_files(s),
        vec![Some("a.rs".to_string()), None, Some("dir/b.rs".to_string())]
    );
    assert!(playpen_files("{{#mermaid a.rs}} {{#playpen}}").is_empty());
}
