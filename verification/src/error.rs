//! The ways in which rendering a book fails.

use vstd::prelude::*;

verus! {

/// Why a book could not be rendered. Every failure ends the whole render.
#[derive(Debug)]
pub enum BuildError {
    /// The path of a chapter is not valid UTF-8.
    PathNotUtf8,
    /// The source of a chapter is not valid UTF-8.
    SourceNotUtf8,
    /// The sources handed in do not match the pages of the book in number.
    SourceCount,
    /// The template of the theme is not valid UTF-8.
    TemplateNotUtf8,
    /// The template engine failed; its message is attached.
    Template(String),
    /// A bundled archive could not be read; the message is attached.
    Archive(String),
}

impl BuildError {
    /// The sentence that describes a failure.
    pub open spec fn message_of(self) -> Seq<char> {
        match self {
            BuildError::PathNotUtf8 => "Could not convert path to str"@,
            BuildError::SourceNotUtf8 => "Chapter source is not valid UTF-8"@,
            BuildError::SourceCount => "Chapter sources do not match the book"@,
            BuildError::TemplateNotUtf8 => "Template is not valid UTF-8"@,
            BuildError::Template(text) => text@,
            BuildError::Archive(text) => text@,
        }
    }

    /// A sentence that describes the failure: a fixed one, or the message of
    /// the template engine or of the archive reader.
    pub fn message(&self) -> (text: String)
        ensures
            text@ == self.message_of(),
    {
        match self {
            BuildError::PathNotUtf8 => "Could not convert path to str".to_owned(),
            BuildError::SourceNotUtf8 => "Chapter source is not valid UTF-8".to_owned(),
            BuildError::SourceCount => "Chapter sources do not match the book".to_owned(),
            BuildError::TemplateNotUtf8 => "Template is not valid UTF-8".to_owned(),
            BuildError::Template(text) => text.clone(),
            BuildError::Archive(text) => text.clone(),
        }
    }
}

} // verus!
