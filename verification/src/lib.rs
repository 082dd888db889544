//! Rendering of a book of chapters into static HTML pages: shortcode
//! substitution in chapter text, conversion of markdown, the data for the
//! page template, the pages with index and print page, and the static files
//! beside them.

pub mod assets;
pub mod book;
pub mod context;
pub mod error;
pub mod helpers;
pub mod index;
pub mod json;
pub mod laws;
pub mod lemmas;
pub mod markdown;
pub mod paths;
pub mod renderer;
pub mod shortcode;
pub mod substitute;
pub mod text;
