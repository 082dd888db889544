//! The book: an ordered list of chapters, front and back matter, and
//! spacers.

use vstd::prelude::*;
use vstd::utf8::valid_utf8;

verus! {

/// `core::str::Utf8Error`, carried through as it is.
#[verifier::external_type_specification]
#[verifier::external_body]
pub struct ExUtf8Error(core::str::Utf8Error);

/// `core::str::from_utf8` succeeds exactly on valid UTF-8 and then gives the
/// string that these bytes encode.
pub assume_specification[ core::str::from_utf8 ](v: &[u8]) -> (r: Result<&str, core::str::Utf8Error>)
    ensures
        r is Ok <==> valid_utf8(v@),
        r matches Ok(s) ==> s@ == vstd::utf8::decode_utf8(v@),
;

/// A chapter: its name in the navigation and the path of its source,
/// relative to the source directory. A chapter with an empty path stands in
/// the navigation only and has no page.
#[derive(Clone, Debug)]
pub struct ChapterData {
    /// The name shown in the navigation.
    pub name: String,
    /// The bytes of the relative path, with `/` between segments.
    pub path: Vec<u8>,
}

/// One entry of a book.
#[derive(Clone, Debug)]
pub enum BookItem {
    /// A numbered chapter, with its section number.
    Chapter(String, ChapterData),
    /// Front or back matter: a chapter without a section number.
    Affix(ChapterData),
    /// A separator in the navigation.
    Spacer,
}

/// A book. The order of its items is the order of the navigation and of the
/// print page.
#[derive(Clone, Debug)]
pub struct Book {
    /// The title.
    pub title: String,
    /// The description.
    pub description: String,
    /// The script that reloads a page when the book changes, if wanted.
    pub livereload: Option<String>,
    /// The items, in order.
    pub items: Vec<BookItem>,
}

impl BookItem {
    /// The chapter that this item holds, if it holds one.
    pub open spec fn chapter(self) -> Option<ChapterData> {
        match self {
            BookItem::Chapter(_, ch) => Some(ch),
            BookItem::Affix(ch) => Some(ch),
            BookItem::Spacer => None,
        }
    }

    /// Whether this item has a page of its own: it holds a chapter whose
    /// path is not empty.
    pub open spec fn is_page(self) -> bool {
        match self.chapter() {
            Some(ch) => ch.path@.len() > 0,
            None => false,
        }
    }

    /// Whether the path of this item, if it has one, is valid UTF-8.
    pub open spec fn path_valid(self) -> bool {
        match self.chapter() {
            Some(ch) => valid_utf8(ch.path@),
            None => true,
        }
    }

    /// The chapter that this item holds, if it holds one.
    pub fn get_chapter(&self) -> (r: Option<&ChapterData>)
        ensures
            match r {
                Some(ch) => self.chapter() == Some(*ch),
                None => self.chapter() is None,
            },
    {
        match self {
            BookItem::Chapter(_, ch) => Some(ch),
            BookItem::Affix(ch) => Some(ch),
            BookItem::Spacer => None,
        }
    }
}

impl Book {
    /// Whether every path in the book is valid UTF-8.
    pub open spec fn paths_valid(self) -> bool {
        forall|i: int| 0 <= i < self.items@.len() ==> (#[trigger] self.items@[i]).path_valid()
    }
}

} // verus!
