use book_renderer::helpers::{
    render_functionplot, render_jsxgraph, render_mermaid, render_nomnoml, render_railroad,
};

fn by_pattern(kind: &str, template: &str, text: &str) -> String {
    let pattern = format!(r"(?ms)\{{\{{#{}\s+(?P<spec>.*?)\}}\}}", kind);
    let re = regex::Regex::new(&pattern).unwrap();
    re.replace_all(text, template).into_owned()
}

fn samples() -> Vec<&'static str> {
    vec![
        "",
        "no blocks at all",
        "Some random text with {{#mermaid part1}}...",
        "Some random text with {{#nomnoml part1\npart2\n}}...",
        "{{#jsxgraph a}}{{#jsxgraph b}} and {{#railroad c d e}}",
        "{{#functionplot {a: 1}}} tail {{#functionplot\n\tx\n}}",
        "{{#mermaid}} {{#mermaidx y}} {{#mermaid z",
        "{{#mermaid a {{#mermaid b}} c}} {{#nomnoml [a] -> [b]}}",
        "x {{#railroad \u{2003}wide space}} y {{#jsxgraph $1 $spec}}",
    ]
}

#[test]
fn inline_kinds_agree_with_the_pattern() {
    for text in samples() {
        assert_eq!(
            render_mermaid(text),
            by_pattern("mermaid", "\n<div class=\"mermaid\">\n$spec\n</div>\n", text)
        );
        assert_eq!(
            render_nomnoml(text),
            by_pattern(
                "nomnoml",
                "\n<script class=\"nomnoml-text\" type=\"text/plain\">\n$spec\n</script>\n",
                text
            )
        );
        assert_eq!(
            render_jsxgraph(text),
            by_pattern("jsxgraph", "\n<script type=\"text/javascript\">\n$spec\n</script>\n", text)
        );
        assert_eq!(
            render_railroad(text),
            by_pattern("railroad", "\n<script type=\"text/javascript\">\n$spec\n</script>\n", text)
        );
        assert_eq!(
            render_functionplot(text),
            by_pattern("functionplot", "\n<script>\nfunctionPlot($spec);\n</script>\n", text)
        );
    }
}

fn next(state: &mut u64) -> usize {
    *state = state.wrapping_mul(6364136223846793005).wrapping_add(1442695040888963407);
    (*state >> 33) as usize
}

#[test]
fn generated_texts_agree_with_the_pattern() {
    let pieces = ["{{#mermaid", "{{#mermaid ", " ", "\n", "}}", "}", "{", "#", "a", "b c", "mermaid", "\u{2003}", "é"];
    let re = regex::Regex::new(r"(?ms)\{\{#mermaid\s+(?P<spec>.*?)\}\}").unwrap();
    let mut state: u64 = 7;
    let mut compared = 0;
    for _ in 0..4000 {
        let mut text = String::new();
        for _ in 0..(1 + next(&mut state) % 9) {
            text.push_str(pieces[next(&mut state) % pieces.len()]);
        }
        if re.captures_iter(&text).any(|c| c["spec"].trim().is_empty()) {
            continue;
        }
        let expected = re.replace_all(&text, "\n<div class=\"mermaid\">\n$spec\n</div>\n");
        assert_eq!(render_mermaid(&text), expected, "{:?}", text);
        compared += 1;
    }
    assert!(compared > 2000);
}
