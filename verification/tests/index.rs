use book_renderer::index::strip_base_lines;

#[test]
fn base_line_is_removed_and_the_rest_kept() {
    let html = "<html>\n<head>\n  <base href=\"x\">\n<title>t</title>\n</head>\n";
    assert_eq!(strip_base_lines(html), "<html>\n<head>\n<title>t</title>\n</head>\n");
}

#[test]
fn text_without_base_line_is_unchanged() {
    for html in ["", "\n", "a", "a\n", "a\r\nb\r\n", "\n\n<base>\n", "<base href"] {
        assert_eq!(strip_base_lines(html), html);
    }
}

#[test]
fn every_base_line_is_removed() {
    assert_eq!(strip_base_lines("<base href=1>\na\n<base href=2>\nb\n<base href=3>"), "a\nb\n");
    assert_eq!(strip_base_lines("<base href=\"../\">"), "");
    assert_eq!(strip_base_lines("a\nb <base href=\"../\"> c"), "a\n");
}
