//! The renderer: from a book and the sources of its chapters to the pages
//! that are written out.

use crate::book::{Book, BookItem};
use crate::context::{law_page_keys_replaced, make_data, page_entries, set_page};
use crate::error::BuildError;
use crate::helpers::{render_jsxgraph, render_mermaid, render_nomnoml, render_playpen};
use crate::index::{strip_base_lines, without_base_lines};
use crate::json::entries_of;
use crate::markdown::{markdown_html, to_html};
use crate::paths::{html_path, html_path_of, path_to_root, root_of};
use crate::shortcode::Kind;
use crate::substitute::{contents_view, substituted};
use vstd::prelude::*;
use vstd::string::StringExecFns;
use vstd::utf8::{decode_utf8, valid_utf8};

verus! {

/// `handlebars::Handlebars`, the registry of templates and helpers, carried
/// through as it is.
#[verifier::external_type_specification]
#[verifier::external_body]
pub struct ExRegistry<'reg>(handlebars::Handlebars<'reg>);

/// `handlebars::RenderError`, carried through as it is.
#[verifier::external_type_specification]
#[verifier::external_body]
pub struct ExRenderFailure(handlebars::RenderError);

/// `handlebars::TemplateError`, carried through as it is.
#[verifier::external_type_specification]
#[verifier::external_body]
pub struct ExTemplateFailure(handlebars::TemplateError);

/// `Handlebars::render` renders the template of the given name with the
/// data. What comes back depends on the templates and helpers that the
/// registry holds, so nothing is stated of it.
#[verifier::external_body]
pub(crate) fn render_template(
    registry: &handlebars::Handlebars<'_>,
    name: &str,
    data: &serde_json::Map<String, serde_json::Value>,
) -> Result<String, handlebars::RenderError> {
    registry.render(name, data)
}

/// Whether handlebars can compile a template text.
pub uninterp spec fn template_compiles(template: Seq<char>) -> bool;

/// `Handlebars::register_template_string` compiles a template and keeps it
/// under the given name, or says why the template does not compile. Whether
/// the template compiles depends on its text alone: the name and the
/// settings of the registry shape the compiled template and the message of a
/// failure, not the outcome.
#[verifier::external_body]
pub(crate) fn register_template(
    registry: &mut handlebars::Handlebars<'_>,
    name: &str,
    template: &str,
) -> (r: Result<(), handlebars::TemplateError>)
    ensures
        r is Ok <==> template_compiles(template@),
{
    registry.register_template_string(name, template)
}

/// The message of a `handlebars::RenderError`, as its `Display` writes it.
#[verifier::external_body]
pub(crate) fn render_failure_text(failure: &handlebars::RenderError) -> String {
    format!("{}", failure)
}

/// The message of a `handlebars::TemplateError`, as its `Display` writes it.
#[verifier::external_body]
pub(crate) fn template_failure_text(failure: &handlebars::TemplateError) -> String {
    format!("{}", failure)
}

/// What was read for one chapter: the bytes of its source, and for each
/// playpen block of the source, in block order, the content of the file it
/// names, or `None` where that file could not be read.
#[derive(Clone, Debug)]
pub struct ChapterSource {
    /// The bytes of the chapter's source file.
    pub content: Vec<u8>,
    /// The files that the playpen blocks of the source refer to.
    pub playpens: Vec<Option<String>>,
}

/// A page before the template is applied.
#[derive(Clone, Debug)]
pub struct Page {
    /// The path of the chapter, relative to the source directory.
    pub path: String,
    /// The content of the chapter as HTML.
    pub content: String,
    /// The way from the page back to the root of the book.
    pub path_to_root: String,
}

/// A page as contracts speak of it.
pub struct PageView {
    /// The path of the chapter.
    pub path: Seq<char>,
    /// The content of the chapter as HTML.
    pub content: Seq<char>,
    /// The way from the page back to the root of the book.
    pub path_to_root: Seq<char>,
}

impl View for Page {
    type V = PageView;

    open spec fn view(&self) -> PageView {
        PageView { path: self.path@, content: self.content@, path_to_root: self.path_to_root@ }
    }
}

/// A file to write below the destination directory.
#[derive(Clone, Debug)]
pub struct OutputFile {
    /// The path of the file, relative to the destination directory.
    pub path: String,
    /// What the file holds.
    pub content: String,
}

/// The views of a list of pages.
pub open spec fn page_views(pages: Seq<Page>) -> Seq<PageView> {
    pages.map_values(|p: Page| p@)
}

/// The path and content of each file of a list.
pub open spec fn file_views(files: Seq<OutputFile>) -> Seq<(Seq<char>, Seq<char>)> {
    files.map_values(|f: OutputFile| (f.path@, f.content@))
}

/// The paths of a list of files.
pub open spec fn output_paths(files: Seq<OutputFile>) -> Seq<Seq<char>> {
    files.map_values(|f: OutputFile| f.path@)
}

/// The text of a chapter after the four substitutions, in their fixed order:
/// playpen, mermaid, nomnoml, jsxgraph.
pub open spec fn preprocessed(text: Seq<char>, playpens: Seq<Option<Seq<char>>>) -> Seq<char> {
    substituted(
        substituted(
            substituted(substituted(text, Kind::Playpen, playpens), Kind::Mermaid, Seq::empty()),
            Kind::Nomnoml,
            Seq::empty(),
        ),
        Kind::Jsxgraph,
        Seq::empty(),
    )
}

/// The HTML of a chapter: its source decoded, the blocks substituted, and the
/// result converted from markdown once.
pub open spec fn chapter_html_of(source: ChapterSource) -> Seq<char> {
    markdown_html(preprocessed(decode_utf8(source.content@), contents_view(source.playpens@)))
}

/// The page of a chapter with the given path and source.
pub open spec fn page_of(path: Seq<u8>, source: ChapterSource) -> PageView {
    PageView {
        path: decode_utf8(path),
        content: chapter_html_of(source),
        path_to_root: root_of(decode_utf8(path)),
    }
}

/// The paths of the items from `i` on that have a page, in book order.
pub open spec fn page_paths_from(items: Seq<BookItem>, i: int) -> Seq<Seq<char>>
    decreases items.len() - i,
{
    if i < 0 || i >= items.len() {
        Seq::empty()
    } else if items[i].is_page() {
        seq![decode_utf8(items[i].chapter()->0.path@)] + page_paths_from(items, i + 1)
    } else {
        page_paths_from(items, i + 1)
    }
}

/// The paths of the sources to read for a book: those of the items that have
/// a page, in book order.
pub open spec fn source_paths_of(book: Book) -> Seq<Seq<char>> {
    page_paths_from(book.items@, 0)
}

/// The strings of a list as sequences of characters.
pub open spec fn string_views(strings: Seq<String>) -> Seq<Seq<char>> {
    strings.map_values(|s: String| s@)
}

/// The pages of the items from `i` on, where `sources[k]` is the source of
/// the next page. Items without a page are passed over. The first page that
/// has no source, a path that is not UTF-8 or a source that is not UTF-8
/// fails the whole conversion, as does a source that is left over.
pub open spec fn pages_from(
    items: Seq<BookItem>,
    sources: Seq<ChapterSource>,
    i: int,
    k: int,
) -> Result<Seq<PageView>, BuildError>
    decreases items.len() - i,
{
    if i < 0 || i >= items.len() {
        if k == sources.len() {
            Ok(Seq::empty())
        } else {
            Err(BuildError::SourceCount)
        }
    } else if !items[i].is_page() {
        pages_from(items, sources, i + 1, k)
    } else if k < 0 || k >= sources.len() {
        Err(BuildError::SourceCount)
    } else if !items[i].path_valid() {
        Err(BuildError::PathNotUtf8)
    } else if !valid_utf8(sources[k].content@) {
        Err(BuildError::SourceNotUtf8)
    } else {
        match pages_from(items, sources, i + 1, k + 1) {
            Ok(rest) => Ok(seq![page_of(items[i].chapter()->0.path@, sources[k])] + rest),
            Err(e) => Err(e),
        }
    }
}

/// The pages of a book, in book order.
pub open spec fn pages_of(book: Book, sources: Seq<ChapterSource>) -> Result<
    Seq<PageView>,
    BuildError,
> {
    pages_from(book.items@, sources, 0, 0)
}

/// The contents of the pages, one after the other, with nothing between.
pub open spec fn joined_content(pages: Seq<PageView>) -> Seq<char>
    decreases pages.len(),
{
    if pages.len() == 0 {
        Seq::empty()
    } else {
        joined_content(pages.drop_last()) + pages.last().content
    }
}

/// The joined contents of two lists of pages, one after the other, are the
/// joined contents of the first and then those of the second.
pub proof fn law_joined_in_order(first: Seq<PageView>, second: Seq<PageView>)
    ensures
        joined_content(first + second) == joined_content(first) + joined_content(second),
    decreases second.len(),
{
    if second.len() == 0 {
        assert(first + second =~= first);
        assert(joined_content(first) + Seq::<char>::empty() =~= joined_content(first));
    } else {
        law_joined_in_order(first, second.drop_last());
        assert((first + second).drop_last() =~= first + second.drop_last());
        assert((first + second).last() == second.last());
        assert(joined_content(first) + (joined_content(second.drop_last())
            + second.last().content) =~= (joined_content(first) + joined_content(
            second.drop_last(),
        )) + second.last().content);
    }
}

/// The print page of a list of pages.
pub open spec fn print_page_of(pages: Seq<PageView>) -> PageView {
    PageView {
        path: "print.md"@,
        content: joined_content(pages),
        path_to_root: root_of("print.md"@),
    }
}

/// The files that a rendered page gives: the page itself, and for the first
/// page of a book the index page as well.
pub open spec fn files_of_page(path: Seq<char>, rendered: Seq<char>, first: bool) -> Seq<
    (Seq<char>, Seq<char>),
> {
    if first {
        seq![(html_path_of(path), rendered), ("index.html"@, without_base_lines(rendered))]
    } else {
        seq![(html_path_of(path), rendered)]
    }
}

/// The paths of the files that the pages give, in the order in which they
/// are made: the first page, the index page, then every other page.
pub open spec fn paths_of_pages(pages: Seq<PageView>) -> Seq<Seq<char>> {
    if pages.len() == 0 {
        Seq::empty()
    } else {
        seq![html_path_of(pages[0].path), "index.html"@] + pages.skip(1).map_values(
            |p: PageView| html_path_of(p.path),
        )
    }
}

/// The renderer of a book to HTML pages through a handlebars template.
#[derive(Clone, Copy, Debug)]
pub struct HtmlHandlebars;

impl HtmlHandlebars {
    /// A renderer.
    pub fn new() -> (r: Self)
        ensures
            r == HtmlHandlebars,
    {
        HtmlHandlebars
    }
}

/// Converts the source of one chapter to HTML: decodes it, substitutes the
/// playpen, mermaid, nomnoml and jsxgraph blocks in this order, and converts
/// the markdown once. Fails if the source is not valid UTF-8, and only then.
pub fn chapter_html(source: &ChapterSource) -> (r: Result<String, BuildError>)
    ensures
        match r {
            Ok(html) => valid_utf8(source.content@) && html@ == chapter_html_of(*source),
            Err(e) => !valid_utf8(source.content@) && e is SourceNotUtf8,
        },
{
    let text = match core::str::from_utf8(source.content.as_slice()) {
        Ok(text) => text,
        Err(_) => {
            return Err(BuildError::SourceNotUtf8);
        },
    };
    let content = render_playpen(text, &source.playpens);
    let content = render_mermaid(content.as_str());
    let content = render_nomnoml(content.as_str());
    let content = render_jsxgraph(content.as_str());
    Ok(to_html(content.as_str()))
}

/// Lists the paths of the sources to read, relative to the source directory:
/// one for each item that has a page, in book order. Fails if the path of
/// any item is not valid UTF-8, and only then.
pub fn source_paths(book: &Book) -> (r: Result<Vec<String>, BuildError>)
    ensures
        match r {
            Ok(paths) => book.paths_valid() && string_views(paths@) == source_paths_of(*book),
            Err(e) => !book.paths_valid() && e is PathNotUtf8,
        },
{
    let mut paths: Vec<String> = Vec::new();
    let mut i: usize = 0;
    assert(string_views(paths@) =~= Seq::empty());
    while i < book.items.len()
        invariant
            i <= book.items@.len(),
            forall|j: int| 0 <= j < i ==> (#[trigger] book.items@[j]).path_valid(),
            string_views(paths@) + page_paths_from(book.items@, i as int) == source_paths_of(
                *book,
            ),
        decreases book.items@.len() - i,
    {
        match book.items[i].get_chapter() {
            Some(ch) => {
                match core::str::from_utf8(ch.path.as_slice()) {
                    Ok(path) => {
                        if ch.path.len() > 0 {
                            let ghost before = string_views(paths@);
                            paths.push(path.to_owned());
                            assert(string_views(paths@) =~= before.push(path@));
                            assert(before.push(path@) + page_paths_from(book.items@, i + 1)
                                =~= before + (seq![path@] + page_paths_from(
                                book.items@,
                                i + 1,
                            )));
                        }
                    },
                    Err(_) => {
                        return Err(BuildError::PathNotUtf8);
                    },
                }
            },
            None => {},
        }
        i += 1;
    }
    assert(string_views(paths@) + Seq::<Seq<char>>::empty() =~= string_views(paths@));
    Ok(paths)
}

/// The pages of the items from `i` on lie at the paths of these items.
pub proof fn lemma_pages_follow_sources(
    items: Seq<BookItem>,
    sources: Seq<ChapterSource>,
    i: int,
    k: int,
)
    requires
        0 <= i,
        pages_from(items, sources, i, k) is Ok,
    ensures
        pages_from(items, sources, i, k)->Ok_0.map_values(|p: PageView| p.path)
            == page_paths_from(items, i),
    decreases items.len() - i,
{
    let pages = pages_from(items, sources, i, k)->Ok_0;
    let paths = pages.map_values(|p: PageView| p.path);
    if i < items.len() {
        if items[i].is_page() {
            lemma_pages_follow_sources(items, sources, i + 1, k + 1);
            let rest = pages_from(items, sources, i + 1, k + 1)->Ok_0;
            assert(paths =~= seq![decode_utf8(items[i].chapter()->0.path@)] + rest.map_values(
                |p: PageView| p.path,
            ));
        } else {
            lemma_pages_follow_sources(items, sources, i + 1, k);
        }
    } else {
        assert(paths =~= page_paths_from(items, i));
    }
}

/// The pages of a book lie at the paths of its sources, one page for each
/// path, in the same order.
pub proof fn law_pages_follow_sources(book: Book, sources: Seq<ChapterSource>)
    requires
        pages_of(book, sources) is Ok,
    ensures
        pages_of(book, sources)->Ok_0.map_values(|p: PageView| p.path) == source_paths_of(book),
{
    lemma_pages_follow_sources(book.items@, sources, 0, 0);
}

/// Converts the chapters of a book to pages, in book order. `sources` holds
/// one entry for each item that has a page, in that order.
pub fn convert_chapters(book: &Book, sources: &Vec<ChapterSource>) -> (r: Result<
    Vec<Page>,
    BuildError,
>)
    ensures
        match r {
            Ok(pages) => pages_of(*book, sources@) matches Ok(views) && views == page_views(
                pages@,
            ),
            Err(e) => pages_of(*book, sources@) matches Err(f) && f == e,
        },
{
    let mut pages: Vec<Page> = Vec::new();
    let mut i: usize = 0;
    let mut k: usize = 0;
    assert(page_views(pages@) =~= Seq::empty());
    while i < book.items.len()
        invariant
            i <= book.items@.len(),
            k <= sources@.len(),
            match pages_from(book.items@, sources@, i as int, k as int) {
                Ok(rest) => pages_of(*book, sources@) matches Ok(views) && views == page_views(
                    pages@,
                ) + rest,
                Err(e) => pages_of(*book, sources@) matches Err(f) && f == e,
            },
        decreases book.items@.len() - i,
    {
        match book.items[i].get_chapter() {
            Some(ch) => {
                if ch.path.len() > 0 {
                    if k >= sources.len() {
                        return Err(BuildError::SourceCount);
                    }
                    let path = match core::str::from_utf8(ch.path.as_slice()) {
                        Ok(path) => path,
                        Err(_) => {
                            return Err(BuildError::PathNotUtf8);
                        },
                    };
                    let content = match chapter_html(&sources[k]) {
                        Ok(content) => content,
                        Err(_) => {
                            return Err(BuildError::SourceNotUtf8);
                        },
                    };
                    let page = Page {
                        path: path.to_owned(),
                        content,
                        path_to_root: path_to_root(path),
                    };
                    proof {
                        let view = page_of(ch.path@, sources@[k as int]);
                        let before = page_views(pages@);
                        assert(page@ == view);
                        if let Ok(rest) = pages_from(book.items@, sources@, i + 1, k + 1) {
                            assert(before.push(view) + rest =~= before + (seq![view] + rest));
                        }
                        assert(page_views(pages@.push(page)) =~= before.push(view));
                    }
                    pages.push(page);
                    k += 1;
                }
            },
            None => {},
        }
        i += 1;
    }
    if k != sources.len() {
        return Err(BuildError::SourceCount);
    }
    assert(page_views(pages@) + Seq::<PageView>::empty() =~= page_views(pages@));
    Ok(pages)
}

/// Makes the print page: the contents of all pages in their order, with
/// nothing added between them, under the path `print.md`.
pub fn print_page(pages: &Vec<Page>) -> (page: Page)
    ensures
        page@ == print_page_of(page_views(pages@)),
{
    let mut content = String::new();
    let mut i: usize = 0;
    assert(page_views(pages@).take(0) =~= Seq::empty());
    while i < pages.len()
        invariant
            i <= pages@.len(),
            content@ == joined_content(page_views(pages@).take(i as int)),
        decreases pages@.len() - i,
    {
        content.append(pages[i].content.as_str());
        proof {
            let views = page_views(pages@);
            assert(views.take(i + 1).drop_last() =~= views.take(i as int));
            assert(views.take(i + 1).last() == pages@[i as int]@);
        }
        i += 1;
    }
    assert(page_views(pages@).take(i as int) =~= page_views(pages@));
    Page { path: "print.md".to_owned(), content, path_to_root: path_to_root("print.md") }
}

/// The files that a rendered page gives. `rendered` is what the template
/// engine made of the page, and `first` says whether the page is the first of
/// the book, which is also written as the index page, without the lines that
/// set a base address.
pub fn page_files(path: &str, rendered: String, first: bool) -> (files: Vec<OutputFile>)
    ensures
        file_views(files@) == files_of_page(path@, rendered@, first),
{
    let mut files: Vec<OutputFile> = Vec::new();
    let index = if first {
        Some(strip_base_lines(rendered.as_str()))
    } else {
        None
    };
    files.push(OutputFile { path: html_path(path), content: rendered });
    match index {
        Some(content) => {
            files.push(OutputFile { path: "index.html".to_owned(), content });
        },
        None => {},
    }
    assert(file_views(files@) =~= files_of_page(path@, rendered@, first));
    files
}

/// Renders one page: sets the three keys of the page in `data`, applies the
/// template `index`, and gives the files that the outcome makes, the first of
/// which holds what the engine returned. The keys are set whether or not the
/// engine succeeds. Only the template engine can fail here.
pub fn render_page(
    registry: &handlebars::Handlebars<'_>,
    data: &mut serde_json::Map<String, serde_json::Value>,
    page: &Page,
    first: bool,
) -> (r: Result<Vec<OutputFile>, BuildError>)
    ensures
        entries_of(*final(data)) == page_entries(
            entries_of(*old(data)),
            page@.path,
            page@.content,
            page@.path_to_root,
        ),
        match r {
            Ok(files) => file_views(files@) == files_of_page(
                page@.path,
                files@[0].content@,
                first,
            ),
            Err(e) => e is Template,
        },
{
    set_page(data, page.path.as_str(), page.content.as_str(), page.path_to_root.as_str());
    match render_template(registry, "index", data) {
        Ok(rendered) => {
            let files = page_files(page.path.as_str(), rendered, first);
            assert(file_views(files@).len() == files@.len());
            assert(file_views(files@)[0] == (files@[0].path@, files@[0].content@));
            Ok(files)
        },
        Err(failure) => Err(BuildError::Template(render_failure_text(&failure))),
    }
}

/// The file of the print page: what the template engine made of the print
/// page, under the name `print.html`.
pub fn print_file(rendered: String) -> (file: OutputFile)
    ensures
        file.path@ == "print.html"@,
        file.content@ == rendered@,
{
    OutputFile { path: "print.html".to_owned(), content: rendered }
}

/// Applies the template `index` to every page and to the print page made of
/// them, and gives the files to write, in order: the first page, the index
/// page, the other pages, the print page. Each page is rendered by
/// `render_page`, which sets the three keys of the page in `data` before it
/// calls the template engine; the same is done for the print page, so that in
/// the end `data` holds the keys of the print page. Only the template engine
/// can fail here.
pub fn render_pages(
    registry: &handlebars::Handlebars<'_>,
    data: &mut serde_json::Map<String, serde_json::Value>,
    pages: &Vec<Page>,
) -> (r: Result<Vec<OutputFile>, BuildError>)
    ensures
        match r {
            Ok(files) => {
                &&& output_paths(files@) == paths_of_pages(page_views(pages@)).push("print.html"@)
                &&& pages@.len() > 0 ==> files@[1].content@ == without_base_lines(
                    files@[0].content@,
                )
                &&& entries_of(*final(data)) == page_entries(
                    entries_of(*old(data)),
                    "print.md"@,
                    joined_content(page_views(pages@)),
                    root_of("print.md"@),
                )
            },
            Err(e) => e is Template,
        },
{
    let ghost views = page_views(pages@);
    let ghost book_data = entries_of(*data);
    let mut files: Vec<OutputFile> = Vec::new();
    let mut i: usize = 0;
    assert(output_paths(files@) =~= paths_of_pages(views.take(0)));
    while i < pages.len()
        invariant
            i <= pages@.len(),
            views == page_views(pages@),
            i == 0 ==> entries_of(*data) == book_data,
            i > 0 ==> entries_of(*data) == page_entries(
                book_data,
                views[i - 1].path,
                views[i - 1].content,
                views[i - 1].path_to_root,
            ),
            output_paths(files@) == paths_of_pages(views.take(i as int)),
            i > 0 ==> files@.len() >= 2 && files@[1].content@ == without_base_lines(
                files@[0].content@,
            ),
        decreases pages@.len() - i,
    {
        let page = &pages[i];
        let mut made = match render_page(registry, data, page, i == 0) {
            Ok(made) => made,
            Err(e) => {
                return Err(e);
            },
        };
        proof {
            if i > 0 {
                let last = views[i - 1];
                law_page_keys_replaced(
                    book_data,
                    (last.path, last.content, last.path_to_root),
                    (page@.path, page@.content, page@.path_to_root),
                );
            }
            let before = output_paths(files@);
            assert(views.take(i + 1)[i as int] == page@);
            assert(file_views(made@).len() == made@.len());
            assert(made@.len() == if i == 0 { 2int } else { 1int });
            assert(file_views(made@)[0] == (made@[0].path@, made@[0].content@));
            if i == 0 {
                assert(file_views(made@)[1] == (made@[1].path@, made@[1].content@));
                assert(files@.len() == output_paths(files@).len());
                assert(views.take(1).len() == 1 && views.take(1)[0] == page@);
                assert(output_paths(files@ + made@) =~= seq![
                    html_path_of(page@.path),
                    "index.html"@,
                ]);
                assert(output_paths(files@ + made@) =~= paths_of_pages(views.take(1)));
            } else {
                assert(output_paths(files@ + made@) =~= before.push(html_path_of(page@.path)));
                assert(views.take(i + 1)[0] == views.take(i as int)[0]);
                assert(views.take(i + 1).skip(1) =~= views.take(i as int).skip(1).push(page@));
                assert(paths_of_pages(views.take(i + 1)) =~= paths_of_pages(
                    views.take(i as int),
                ).push(html_path_of(page@.path)));
            }
        }
        files.append(&mut made);
        i += 1;
    }
    assert(views.take(i as int) =~= views);
    let print = print_page(pages);
    set_page(data, print.path.as_str(), print.content.as_str(), print.path_to_root.as_str());
    proof {
        if i > 0 {
            let last = views[i - 1];
            law_page_keys_replaced(
                book_data,
                (last.path, last.content, last.path_to_root),
                (print@.path, print@.content, print@.path_to_root),
            );
        }
    }
    let rendered = match render_template(registry, "index", data) {
        Ok(rendered) => rendered,
        Err(failure) => {
            return Err(BuildError::Template(render_failure_text(&failure)));
        },
    };
    let ghost before = output_paths(files@);
    files.push(print_file(rendered));
    assert(output_paths(files@) =~= before.push("print.html"@));
    Ok(files)
}

/// Keeps the template of the theme in the registry under the name `index`.
/// Succeeds exactly if the template is valid UTF-8 and its text compiles. A
/// template that is not valid UTF-8 never reaches the engine; one that does
/// not compile fails with the message of the engine.
pub fn register_index(registry: &mut handlebars::Handlebars<'_>, template: &[u8]) -> (r: Result<
    (),
    BuildError,
>)
    ensures
        r is Ok <==> valid_utf8(template@) && template_compiles(decode_utf8(template@)),
        r matches Err(e) ==> (if valid_utf8(template@) {
            e is Template
        } else {
            e is TemplateNotUtf8
        }),
{
    let text = match core::str::from_utf8(template) {
        Ok(text) => text,
        Err(_) => {
            return Err(BuildError::TemplateNotUtf8);
        },
    };
    match register_template(registry, "index", text) {
        Ok(()) => Ok(()),
        Err(failure) => Err(BuildError::Template(template_failure_text(&failure))),
    }
}

impl HtmlHandlebars {
    /// Renders a book: builds the data of the book, converts the chapters,
    /// and applies the template to every page and to the print page.
    /// `sources` holds what was read for each item that has a page, in book
    /// order, and the registry holds the template `index`. The result lists
    /// the files to write below the destination directory.
    pub fn render(
        &self,
        book: &Book,
        sources: &Vec<ChapterSource>,
        registry: &handlebars::Handlebars<'_>,
    ) -> (r: Result<Vec<OutputFile>, BuildError>)
        ensures
            !book.paths_valid() ==> (r matches Err(e) && e is PathNotUtf8),
            book.paths_valid() ==> match pages_of(*book, sources@) {
                Err(f) => r matches Err(e) && e == f,
                Ok(pages) => match r {
                    Ok(files) => {
                        &&& output_paths(files@) == paths_of_pages(pages).push("print.html"@)
                        &&& pages.len() > 0 ==> files@[1].content@ == without_base_lines(
                            files@[0].content@,
                        )
                    },
                    Err(e) => e is Template,
                },
            },
    {
        let mut data = match make_data(book) {
            Ok(data) => data,
            Err(_) => {
                return Err(BuildError::PathNotUtf8);
            },
        };
        let pages = match convert_chapters(book, sources) {
            Ok(pages) => pages,
            Err(e) => {
                return Err(e);
            },
        };
        render_pages(registry, &mut data, &pages)
    }
}

} // verus!
