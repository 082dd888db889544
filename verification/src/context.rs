//! The data that the template engine reads: the part that describes the
//! whole book, and the three keys that change from page to page.

use crate::book::{Book, BookItem};
use crate::error::BuildError;
use crate::json::{entries_of, json_array, json_object, json_of, json_text, jsons_of, Json};
use vstd::prelude::*;
use vstd::utf8::decode_utf8;

verus! {

/// The entry of one item in the list of chapters. A spacer is marked by the
/// key `spacer`; a chapter carries `name` and `path`, and a numbered one its
/// `section` as well.
pub open spec fn item_entries(item: BookItem) -> Map<Seq<char>, Json> {
    match item {
        BookItem::Affix(ch) => Map::empty().insert("name"@, Json::Text(ch.name@)).insert(
            "path"@,
            Json::Text(decode_utf8(ch.path@)),
        ),
        BookItem::Chapter(section, ch) => Map::empty().insert(
            "section"@,
            Json::Text(section@),
        ).insert("name"@, Json::Text(ch.name@)).insert("path"@, Json::Text(decode_utf8(ch.path@))),
        BookItem::Spacer => Map::empty().insert("spacer"@, Json::Text("_spacer_"@)),
    }
}

/// The list of chapters: one object per item of the book, in book order.
pub open spec fn chapter_list(items: Seq<BookItem>) -> Seq<Json> {
    Seq::new(items.len(), |i: int| Json::Object(item_entries(items[i])))
}

/// The data that describes the whole book.
pub open spec fn book_entries(book: Book) -> Map<Seq<char>, Json> {
    let fixed = Map::empty().insert("language"@, Json::Text("en"@)).insert(
        "title"@,
        Json::Text(book.title@),
    ).insert("description"@, Json::Text(book.description@)).insert(
        "favicon"@,
        Json::Text("favicon.png"@),
    );
    let reloading = match book.livereload {
        Some(script) => fixed.insert("livereload"@, Json::Text(script@)),
        None => fixed,
    };
    reloading.insert("chapters"@, Json::Array(chapter_list(book.items@)))
}

/// The data for one page: that of the book, with `path`, `content` and
/// `path_to_root` set to those of the page.
pub open spec fn page_entries(
    data: Map<Seq<char>, Json>,
    path: Seq<char>,
    content: Seq<char>,
    path_to_root: Seq<char>,
) -> Map<Seq<char>, Json> {
    data.insert("path"@, Json::Text(path)).insert("content"@, Json::Text(content)).insert(
        "path_to_root"@,
        Json::Text(path_to_root),
    )
}

/// Builds the entry of one item, or fails on a path that is not UTF-8.
fn make_item(item: &BookItem) -> (r: Option<serde_json::Value>)
    ensures
        match r {
            Some(value) => item.path_valid() && json_of(value) == Json::Object(
                item_entries(*item),
            ),
            None => !item.path_valid(),
        },
{
    let mut chapter = serde_json::Map::new();
    match item {
        BookItem::Affix(ch) => {
            chapter.insert("name".to_owned(), json_text(ch.name.as_str()));
            match core::str::from_utf8(ch.path.as_slice()) {
                Ok(p) => {
                    chapter.insert("path".to_owned(), json_text(p));
                },
                Err(_) => {
                    return None;
                },
            }
        },
        BookItem::Chapter(section, ch) => {
            chapter.insert("section".to_owned(), json_text(section.as_str()));
            chapter.insert("name".to_owned(), json_text(ch.name.as_str()));
            match core::str::from_utf8(ch.path.as_slice()) {
                Ok(p) => {
                    chapter.insert("path".to_owned(), json_text(p));
                },
                Err(_) => {
                    return None;
                },
            }
        },
        BookItem::Spacer => {
            chapter.insert("spacer".to_owned(), json_text("_spacer_"));
        },
    }
    Some(json_object(chapter))
}

/// Builds the data that describes the whole book. Fails if the path of any
/// item is not valid UTF-8, and only then.
pub fn make_data(book: &Book) -> (r: Result<
    serde_json::Map<String, serde_json::Value>,
    BuildError,
>)
    ensures
        match r {
            Ok(data) => book.paths_valid() && entries_of(data) == book_entries(*book),
            Err(e) => !book.paths_valid() && e is PathNotUtf8,
        },
{
    let mut data = serde_json::Map::new();
    data.insert("language".to_owned(), json_text("en"));
    data.insert("title".to_owned(), json_text(book.title.as_str()));
    data.insert("description".to_owned(), json_text(book.description.as_str()));
    data.insert("favicon".to_owned(), json_text("favicon.png"));
    if let Some(script) = &book.livereload {
        data.insert("livereload".to_owned(), json_text(script.as_str()));
    }
    let mut chapters: Vec<serde_json::Value> = Vec::new();
    let mut i: usize = 0;
    while i < book.items.len()
        invariant
            i <= book.items@.len(),
            jsons_of(chapters@) =~= chapter_list(book.items@.take(i as int)),
            forall|j: int| 0 <= j < i ==> (#[trigger] book.items@[j]).path_valid(),
        decreases book.items@.len() - i,
    {
        match make_item(&book.items[i]) {
            Some(value) => {
                let ghost before = chapters@;
                chapters.push(value);
                assert(jsons_of(chapters@) =~= jsons_of(before).push(json_of(value)));
                assert(chapter_list(book.items@.take(i + 1)) =~= chapter_list(
                    book.items@.take(i as int),
                ).push(Json::Object(item_entries(book.items@[i as int]))));
            },
            None => {
                return Err(BuildError::PathNotUtf8);
            },
        }
        i += 1;
    }
    assert(book.items@.take(i as int) =~= book.items@);
    data.insert("chapters".to_owned(), json_array(chapters));
    Ok(data)
}

/// Sets the three keys of a page. What a page before has left in them is
/// replaced.
pub fn set_page(
    data: &mut serde_json::Map<String, serde_json::Value>,
    path: &str,
    content: &str,
    path_to_root: &str,
)
    ensures
        entries_of(*final(data)) == page_entries(
            entries_of(*old(data)),
            path@,
            content@,
            path_to_root@,
        ),
{
    data.insert("path".to_owned(), json_text(path));
    data.insert("content".to_owned(), json_text(content));
    data.insert("path_to_root".to_owned(), json_text(path_to_root));
}

/// The keys of a page hold nothing of the page before: setting them twice
/// gives what setting them once to the later values gives.
pub proof fn law_page_keys_replaced(
    data: Map<Seq<char>, Json>,
    first: (Seq<char>, Seq<char>, Seq<char>),
    second: (Seq<char>, Seq<char>, Seq<char>),
)
    ensures
        page_entries(page_entries(data, first.0, first.1, first.2), second.0, second.1, second.2)
            == page_entries(data, second.0, second.1, second.2),
{
    assert(page_entries(
        page_entries(data, first.0, first.1, first.2),
        second.0,
        second.1,
        second.2,
    ) =~= page_entries(data, second.0, second.1, second.2));
}

/// Setting the keys of a page leaves every other key of the data as it was.
pub proof fn law_page_keeps_book_data(
    data: Map<Seq<char>, Json>,
    page: (Seq<char>, Seq<char>, Seq<char>),
    key: Seq<char>,
)
    requires
        key != "path"@,
        key != "content"@,
        key != "path_to_root"@,
    ensures
        page_entries(data, page.0, page.1, page.2).contains_key(key) == data.contains_key(key),
        page_entries(data, page.0, page.1, page.2)[key] == data[key],
{
}

} // verus!
