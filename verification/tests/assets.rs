use book_renderer::assets::{
    archive_files, bundle_files, bundles, is_directory, is_static_file, should_extract,
    theme_files, Bundle, Theme,
};
use book_renderer::error::BuildError;
use std::io::Write;

fn options(method: zip::CompressionMethod) -> zip::write::SimpleFileOptions {
    zip::write::SimpleFileOptions::default().compression_method(method)
}

fn sample_archive() -> Vec<u8> {
    let mut writer = zip::ZipWriter::new(std::io::Cursor::new(Vec::new()));
    writer.add_directory("mermaid/", options(zip::CompressionMethod::Stored)).unwrap();
    writer.start_file("mermaid/mermaid.js", options(zip::CompressionMethod::Stored)).unwrap();
    writer.write_all(b"var mermaid;").unwrap();
    writer.add_directory("mermaid/css/deep/", options(zip::CompressionMethod::Stored)).unwrap();
    writer.start_file("mermaid/css/deep/style.css", options(zip::CompressionMethod::Deflated)).unwrap();
    writer.write_all(&vec![b'a'; 5000]).unwrap();
    writer.start_file("empty.txt", options(zip::CompressionMethod::Stored)).unwrap();
    writer.finish().unwrap().into_inner()
}

#[test]
fn archive_gives_its_files_without_directories() {
    let files = archive_files(&sample_archive()).unwrap();
    assert_eq!(files.len(), 3);
    assert_eq!(files[0].path, "mermaid/mermaid.js");
    assert_eq!(files[0].content, b"var mermaid;");
    assert_eq!(files[1].path, "mermaid/css/deep/style.css");
    assert_eq!(files[1].content, vec![b'a'; 5000]);
    assert_eq!(files[2].path, "empty.txt");
    assert_eq!(files[2].content, b"");
}

#[test]
fn empty_archive_gives_no_files() {
    let writer = zip::ZipWriter::new(std::io::Cursor::new(Vec::new()));
    let bytes = writer.finish().unwrap().into_inner();
    assert!(archive_files(&bytes).unwrap().is_empty());
}

#[test]
fn bytes_that_are_no_archive_fail() {
    let failure = archive_files(b"this is no archive").unwrap_err();
    assert!(matches!(failure, BuildError::Archive(_)));
    assert!(!failure.message().is_empty());
    assert!(matches!(archive_files(b""), Err(BuildError::Archive(_))));
}

#[test]
fn damaged_entry_fails() {
    let mut bytes = sample_archive();
    let at = bytes.windows(12).position(|w| w == b"var mermaid;").unwrap();
    bytes[at] = b'V';
    assert!(matches!(archive_files(&bytes), Err(BuildError::Archive(_))));
}

#[test]
fn extraction_is_skipped_when_the_directory_is_there() {
    assert!(should_extract(true, true));
    assert!(should_extract(true, false));
    assert!(should_extract(false, false));
    assert!(!should_extract(false, true));
    let archive = sample_archive();
    assert_eq!(bundle_files(false, true, &archive).unwrap().len(), 0);
    assert_eq!(bundle_files(false, true, b"no archive").unwrap().len(), 0);
    assert_eq!(bundle_files(true, true, &archive).unwrap().len(), 3);
    assert_eq!(bundle_files(false, false, &archive).unwrap().len(), 3);
    assert!(matches!(bundle_files(true, true, b"no archive"), Err(BuildError::Archive(_))));
}

#[test]
fn bundles_and_their_directories() {
    let all = bundles();
    assert_eq!(
        all,
        vec![Bundle::Fontawesome, Bundle::Nomnoml, Bundle::Mermaid, Bundle::Mathjax, Bundle::Jsxgraph]
    );
    let names: Vec<&str> = all.iter().map(|b| b.directory()).collect();
    assert_eq!(names, vec!["fontawesome", "nomnoml", "mermaid", "mathjax", "jsxgraph"]);
}

#[test]
fn directory_names_end_in_a_slash() {
    assert!(is_directory("a/"));
    assert!(is_directory("/"));
    assert!(!is_directory(""));
    assert!(!is_directory("a/b"));
    assert!(!is_directory("a\\"));
}

#[test]
fn theme_files_have_fixed_names() {
    let theme = Theme {
        index: b"index".to_vec(),
        css: b"css".to_vec(),
        js: b"js".to_vec(),
        favicon: vec![0x89, b'P', b'N', b'G'],
        jquery: b"jquery".to_vec(),
        highlight_css: b"hcss".to_vec(),
        tomorrow_night_css: b"tn".to_vec(),
        highlight_js: b"hjs".to_vec(),
    };
    let files = theme_files(theme);
    let listed: Vec<(&str, &[u8])> =
        files.iter().map(|f| (f.path.as_str(), f.content.as_slice())).collect();
    let expected: Vec<(&str, &[u8])> = vec![
        ("book.js", b"js"),
        ("book.css", b"css"),
        ("favicon.png", &[0x89, b'P', b'N', b'G']),
        ("jquery.js", b"jquery"),
        ("highlight.css", b"hcss"),
        ("tomorrow-night.css", b"tn"),
        ("highlight.js", b"hjs"),
    ];
    assert_eq!(listed, expected);
}

#[test]
fn markdown_sources_are_not_copied() {
    assert!(!is_static_file("chapter.md"));
    assert!(!is_static_file("a/b/c.md"));
    assert!(!is_static_file("a.b.md"));
    assert!(is_static_file("image.png"));
    assert!(is_static_file("md"));
    assert!(is_static_file(".md"));
    assert!(is_static_file("a/.md"));
    assert!(is_static_file("notes.MD"));
    assert!(is_static_file("notes.mdx"));
    assert!(is_static_file("notes.m"));
    assert!(is_static_file("dir.md/file"));
    assert!(is_static_file(""));
}
