use book_renderer::book::{Book, BookItem, ChapterData};
use book_renderer::error::BuildError;
use book_renderer::renderer::{
    chapter_html, convert_chapters, page_files, print_file, print_page, register_index,
    render_page, render_pages, source_paths, ChapterSource, HtmlHandlebars, Page,
};

const TEMPLATE: &str = "<title>{{title}}</title>\n<base href=\"{{path_to_root}}\">\n<!-- {{path}} -->\n{{{content}}}";

fn chapter(name: &str, path: &str) -> ChapterData {
    ChapterData { name: name.to_string(), path: path.as_bytes().to_vec() }
}

fn source(text: &str) -> ChapterSource {
    ChapterSource { content: text.as_bytes().to_vec(), playpens: Vec::new() }
}

fn sample() -> Book {
    Book {
        title: "T".to_string(),
        description: String::new(),
        livereload: None,
        items: vec![
            BookItem::Chapter("1.".to_string(), chapter("Draft", "")),
            BookItem::Affix(chapter("Intro", "intro.md")),
            BookItem::Spacer,
            BookItem::Chapter("2.".to_string(), chapter("Deep", "a/b/deep.md")),
        ],
    }
}

fn registry() -> handlebars::Handlebars<'static> {
    let mut registry = handlebars::Handlebars::new();
    register_index(&mut registry, TEMPLATE.as_bytes()).unwrap();
    registry
}

#[test]
fn new_makes_a_renderer() {
    let renderer = HtmlHandlebars::new();
    assert_eq!(format!("{:?}", renderer), "HtmlHandlebars");
}

#[test]
fn chapter_is_substituted_then_converted() {
    let html = chapter_html(&source("# Title\n\nSome *text*.\n")).unwrap();
    assert_eq!(html, "<h1>Title</h1>\n<p>Some <em>text</em>.</p>\n");
    let html = chapter_html(&source("Before\n\n{{#mermaid graph TD;}}\n\nAfter\n")).unwrap();
    assert_eq!(html, "<p>Before</p>\n<div class=\"mermaid\">\ngraph TD;\n</div>\n<p>After</p>\n");
}

#[test]
fn chapter_kinds_are_substituted_in_order() {
    let chapter = ChapterSource {
        content: b"{{#playpen a.rs}}\n\n{{#jsxgraph j}}\n\n{{#nomnoml n}}\n\n{{#functionplot f}}\n".to_vec(),
        playpens: vec![Some("{{#mermaid m}}".to_string())],
    };
    let html = chapter_html(&chapter).unwrap();
    assert!(html.contains("<pre class=\"playpen\"><code class=\"language-rust\">\n<div class=\"mermaid\">\nm\n</div>\n</code></pre>"));
    assert!(html.contains("<script type=\"text/javascript\">\nj\n</script>"));
    assert!(html.contains("<script class=\"nomnoml-text\" type=\"text/plain\">\nn\n</script>"));
    assert!(html.contains("{{#functionplot f}}"));
}

#[test]
fn chapter_that_is_not_utf8_fails() {
    let chapter = ChapterSource { content: vec![b'a', 0xc3, 0x28], playpens: Vec::new() };
    assert!(matches!(chapter_html(&chapter), Err(BuildError::SourceNotUtf8)));
}

#[test]
fn pages_follow_book_order() {
    let pages = convert_chapters(&sample(), &vec![source("one"), source("two")]).unwrap();
    assert_eq!(pages.len(), 2);
    assert_eq!(pages[0].path, "intro.md");
    assert_eq!(pages[0].content, "<p>one</p>\n");
    assert_eq!(pages[0].path_to_root, "");
    assert_eq!(pages[1].path, "a/b/deep.md");
    assert_eq!(pages[1].content, "<p>two</p>\n");
    assert_eq!(pages[1].path_to_root, "../../");
}

#[test]
fn sources_must_match_the_pages() {
    assert!(matches!(convert_chapters(&sample(), &vec![source("one")]), Err(BuildError::SourceCount)));
    assert!(matches!(
        convert_chapters(&sample(), &vec![source("one"), source("two"), source("three")]),
        Err(BuildError::SourceCount)
    ));
    assert!(matches!(convert_chapters(&sample(), &Vec::new()), Err(BuildError::SourceCount)));
}

#[test]
fn first_failure_in_book_order_is_reported() {
    let mut book = sample();
    book.items.push(BookItem::Affix(ChapterData { name: "Bad".to_string(), path: vec![0xff] }));
    let bad = ChapterSource { content: vec![0xff], playpens: Vec::new() };
    let sources = vec![source("one"), bad, source("three")];
    assert!(matches!(convert_chapters(&book, &sources), Err(BuildError::SourceNotUtf8)));
    let sources = vec![source("one"), source("two"), source("three")];
    assert!(matches!(convert_chapters(&book, &sources), Err(BuildError::PathNotUtf8)));
}

#[test]
fn print_page_joins_the_contents() {
    let pages = vec![
        Page { path: "a.md".to_string(), content: "<p>a</p>\n".to_string(), path_to_root: String::new() },
        Page { path: "x/b.md".to_string(), content: "<p>b</p>".to_string(), path_to_root: "../".to_string() },
        Page { path: "c.md".to_string(), content: "<p>c</p>\n".to_string(), path_to_root: String::new() },
    ];
    let print = print_page(&pages);
    assert_eq!(print.path, "print.md");
    assert_eq!(print.content, "<p>a</p>\n<p>b</p><p>c</p>\n");
    assert_eq!(print.path_to_root, "");
    let empty = print_page(&Vec::new());
    assert_eq!(empty.content, "");
}

#[test]
fn first_page_gives_the_index_page() {
    let rendered = "<head>\n<base href=\"x\">\n</head>\n<body>hi</body>\n".to_string();
    let files = page_files("a/first.md", rendered.clone(), true);
    assert_eq!(files.len(), 2);
    assert_eq!(files[0].path, "a/first.html");
    assert_eq!(files[0].content, rendered);
    assert_eq!(files[1].path, "index.html");
    assert_eq!(files[1].content, "<head>\n</head>\n<body>hi</body>\n");
    let files = page_files("a/second.md", rendered.clone(), false);
    assert_eq!(files.len(), 1);
    assert_eq!(files[0].path, "a/second.html");
    assert_eq!(files[0].content, rendered);
}

#[test]
fn book_is_rendered_to_pages_index_and_print() {
    let sources = vec![source("# One\n"), source("Two {{#mermaid m}}\n")];
    let files = HtmlHandlebars::new().render(&sample(), &sources, &registry()).unwrap();
    let paths: Vec<&str> = files.iter().map(|f| f.path.as_str()).collect();
    assert_eq!(paths, vec!["intro.html", "index.html", "a/b/deep.html", "print.html"]);
    assert_eq!(
        files[0].content,
        "<title>T</title>\n<base href=\"\">\n<!-- intro.md -->\n<h1>One</h1>\n"
    );
    assert_eq!(files[1].content, "<title>T</title>\n<!-- intro.md -->\n<h1>One</h1>\n");
    assert_eq!(
        files[2].content,
        "<title>T</title>\n<base href=\"../../\">\n<!-- a/b/deep.md -->\n<p>Two</p>\n<div class=\"mermaid\">\nm\n</div>\n"
    );
    assert_eq!(
        files[3].content,
        "<title>T</title>\n<base href=\"\">\n<!-- print.md -->\n<h1>One</h1>\n<p>Two</p>\n<div class=\"mermaid\">\nm\n</div>\n"
    );
}

#[test]
fn book_without_pages_has_a_print_page_only() {
    let book = Book {
        title: "T".to_string(),
        description: String::new(),
        livereload: None,
        items: vec![BookItem::Spacer],
    };
    let files = HtmlHandlebars::new().render(&book, &Vec::new(), &registry()).unwrap();
    assert_eq!(files.len(), 1);
    assert_eq!(files[0].path, "print.html");
    assert_eq!(files[0].content, "<title>T</title>\n<base href=\"\">\n<!-- print.md -->\n");
}

#[test]
fn render_reports_failures() {
    let renderer = HtmlHandlebars::new();
    let mut book = sample();
    let sources = vec![source("one"), source("two")];
    let empty = handlebars::Handlebars::new();
    let failure = renderer.render(&book, &sources, &empty).unwrap_err();
    assert!(matches!(failure, BuildError::Template(_)));
    assert!(!failure.message().is_empty());
    assert!(matches!(
        renderer.render(&book, &vec![source("one")], &registry()),
        Err(BuildError::SourceCount)
    ));
    book.items.push(BookItem::Affix(ChapterData { name: "Bad".to_string(), path: vec![0xff] }));
    assert!(matches!(renderer.render(&book, &sources, &registry()), Err(BuildError::PathNotUtf8)));
}

#[test]
fn render_pages_leaves_the_print_keys_in_the_data() {
    let mut data = book_renderer::context::make_data(&sample()).unwrap();
    let pages = convert_chapters(&sample(), &vec![source("one"), source("two")]).unwrap();
    let files = render_pages(&registry(), &mut data, &pages).unwrap();
    assert_eq!(files.len(), 4);
    assert_eq!(data.get("path"), Some(&serde_json::Value::String("print.md".to_string())));
    assert_eq!(
        data.get("content"),
        Some(&serde_json::Value::String("<p>one</p>\n<p>two</p>\n".to_string()))
    );
}

#[test]
fn template_must_be_utf8_and_compile() {
    let mut registry = handlebars::Handlebars::new();
    assert!(matches!(register_index(&mut registry, &[0xff, 0xfe]), Err(BuildError::TemplateNotUtf8)));
    let failure = register_index(&mut registry, b"{{#if x}} never closed").unwrap_err();
    assert!(matches!(failure, BuildError::Template(_)));
    assert!(!failure.message().is_empty());
    assert!(register_index(&mut registry, b"{{title}}").is_ok());
}

#[test]
fn sources_are_listed_in_book_order() {
    assert_eq!(source_paths(&sample()).unwrap(), vec!["intro.md", "a/b/deep.md"]);
    let mut book = sample();
    book.items.clear();
    assert!(source_paths(&book).unwrap().is_empty());
    book.items.push(BookItem::Affix(ChapterData { name: "Bad".to_string(), path: vec![0xc0, 0x80] }));
    assert!(matches!(source_paths(&book), Err(BuildError::PathNotUtf8)));
}

#[test]
fn page_is_rendered_from_its_own_keys() {
    let mut data = book_renderer::context::make_data(&sample()).unwrap();
    let one = Page {
        path: "a/one.md".to_string(),
        content: "<p>one</p>".to_string(),
        path_to_root: "../".to_string(),
    };
    let two = Page {
        path: "two.md".to_string(),
        content: "<p>two</p>".to_string(),
        path_to_root: String::new(),
    };
    let files = render_page(&registry(), &mut data, &one, true).unwrap();
    assert_eq!(files.len(), 2);
    assert_eq!(files[0].path, "a/one.html");
    assert_eq!(
        files[0].content,
        "<title>T</title>\n<base href=\"../\">\n<!-- a/one.md -->\n<p>one</p>"
    );
    assert_eq!(files[1].path, "index.html");
    assert_eq!(files[1].content, "<title>T</title>\n<!-- a/one.md -->\n<p>one</p>");
    let files = render_page(&registry(), &mut data, &two, false).unwrap();
    assert_eq!(files.len(), 1);
    assert_eq!(files[0].path, "two.html");
    assert_eq!(
        files[0].content,
        "<title>T</title>\n<base href=\"\">\n<!-- two.md -->\n<p>two</p>"
    );
    assert_eq!(data.get("path"), Some(&serde_json::Value::String("two.md".to_string())));
    assert_eq!(data.get("content"), Some(&serde_json::Value::String("<p>two</p>".to_string())));
    assert_eq!(data.get("path_to_root"), Some(&serde_json::Value::String(String::new())));
}

#[test]
fn page_keys_are_set_even_when_the_engine_fails() {
    let mut data = book_renderer::context::make_data(&sample()).unwrap();
    let page = Page {
        path: "a/one.md".to_string(),
        content: "<p>one</p>".to_string(),
        path_to_root: "../".to_string(),
    };
    let empty = handlebars::Handlebars::new();
    let failure = render_page(&empty, &mut data, &page, true).unwrap_err();
    assert!(matches!(failure, BuildError::Template(_)));
    assert_eq!(data.get("path"), Some(&serde_json::Value::String("a/one.md".to_string())));
    assert_eq!(data.get("path_to_root"), Some(&serde_json::Value::String("../".to_string())));
}

#[test]
fn print_file_holds_what_the_engine_made() {
    let file = print_file("<html>all</html>".to_string());
    assert_eq!(file.path, "print.html");
    assert_eq!(file.content, "<html>all</html>");
    assert_eq!(print_file(String::new()).content, "");
}

#[test]
fn registration_succeeds_exactly_on_templates_that_compile() {
    let good: [&[u8]; 3] = [b"", b"plain", b"{{#if x}}a{{else}}b{{/if}} {{{content}}}"];
    for template in good {
        let mut registry = handlebars::Handlebars::new();
        assert!(register_index(&mut registry, template).is_ok());
        assert!(registry.has_template("index"));
    }
    let bad: [&[u8]; 3] = [b"{{#if x}} never closed", b"{{#if x}}{{/each}}", b"{{"];
    for template in bad {
        let mut registry = handlebars::Handlebars::new();
        assert!(matches!(register_index(&mut registry, template), Err(BuildError::Template(_))));
        assert!(!registry.has_template("index"));
    }
}
