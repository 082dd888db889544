use book_renderer::book::{Book, BookItem, ChapterData};
use book_renderer::context::{make_data, set_page};
use book_renderer::error::BuildError;
use serde_json::Value;

fn chapter(name: &str, path: &str) -> ChapterData {
    ChapterData { name: name.to_string(), path: path.as_bytes().to_vec() }
}

fn sample() -> Book {
    Book {
        title: "The Book".to_string(),
        description: "About things".to_string(),
        livereload: None,
        items: vec![
            BookItem::Affix(chapter("Preface", "preface.md")),
            BookItem::Chapter("1.".to_string(), chapter("One", "one/index.md")),
            BookItem::Spacer,
            BookItem::Chapter("2.".to_string(), chapter("Draft", "")),
        ],
    }
}

fn text(s: &str) -> Value {
    Value::String(s.to_string())
}

#[test]
fn book_level_keys() {
    let data = make_data(&sample()).unwrap();
    assert_eq!(data.get("language"), Some(&text("en")));
    assert_eq!(data.get("title"), Some(&text("The Book")));
    assert_eq!(data.get("description"), Some(&text("About things")));
    assert_eq!(data.get("favicon"), Some(&text("favicon.png")));
    assert_eq!(data.get("livereload"), None);
    assert_eq!(data.len(), 5);
    assert!(data.get("path").is_none() && data.get("content").is_none());
}

#[test]
fn livereload_is_set_when_given() {
    let mut book = sample();
    book.livereload = Some("<script>reload()</script>".to_string());
    let data = make_data(&book).unwrap();
    assert_eq!(data.get("livereload"), Some(&text("<script>reload()</script>")));
    assert_eq!(data.len(), 6);
}

#[test]
fn chapters_keep_book_order_and_shape() {
    let data = make_data(&sample()).unwrap();
    let chapters = data.get("chapters").unwrap().as_array().unwrap();
    assert_eq!(chapters.len(), 4);

    let preface = chapters[0].as_object().unwrap();
    assert_eq!(preface.len(), 2);
    assert_eq!(preface.get("name"), Some(&text("Preface")));
    assert_eq!(preface.get("path"), Some(&text("preface.md")));
    assert!(preface.get("section").is_none());

    let one = chapters[1].as_object().unwrap();
    assert_eq!(one.len(), 3);
    assert_eq!(one.get("section"), Some(&text("1.")));
    assert_eq!(one.get("name"), Some(&text("One")));
    assert_eq!(one.get("path"), Some(&text("one/index.md")));

    let spacer = chapters[2].as_object().unwrap();
    assert_eq!(spacer.len(), 1);
    assert_eq!(spacer.get("spacer"), Some(&text("_spacer_")));

    let draft = chapters[3].as_object().unwrap();
    assert_eq!(draft.get("path"), Some(&text("")));
    assert_eq!(draft.get("section"), Some(&text("2.")));
}

#[test]
fn empty_book() {
    let book = Book {
        title: String::new(),
        description: String::new(),
        livereload: None,
        items: Vec::new(),
    };
    let data = make_data(&book).unwrap();
    assert_eq!(data.get("chapters"), Some(&Value::Array(Vec::new())));
}

#[test]
fn path_that_is_not_utf8_fails_the_whole_book() {
    let mut book = sample();
    book.items.push(BookItem::Affix(ChapterData {
        name: "Bad".to_string(),
        path: vec![b'a', 0xff, b'.', b'm', b'd'],
    }));
    let failure = make_data(&book).unwrap_err();
    assert!(matches!(failure, BuildError::PathNotUtf8));
    assert_eq!(failure.message(), "Could not convert path to str");
}

#[test]
fn page_keys_are_replaced_for_every_page() {
    let mut data = make_data(&sample()).unwrap();
    set_page(&mut data, "one/index.md", "<p>one</p>", "../");
    assert_eq!(data.get("path"), Some(&text("one/index.md")));
    assert_eq!(data.get("content"), Some(&text("<p>one</p>")));
    assert_eq!(data.get("path_to_root"), Some(&text("../")));
    assert_eq!(data.len(), 8);
    set_page(&mut data, "print.md", "<p>all</p>", "");
    assert_eq!(data.get("path"), Some(&text("print.md")));
    assert_eq!(data.get("content"), Some(&text("<p>all</p>")));
    assert_eq!(data.get("path_to_root"), Some(&text("")));
    assert_eq!(data.len(), 8);
    assert_eq!(data.get("title"), Some(&text("The Book")));
}
