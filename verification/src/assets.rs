//! The files beside the pages: those of the theme, those of the bundled
//! archives, and the rule for the other files of the source directory.

use crate::error::BuildError;
use crate::paths::{extension_dot, find_extension};
use crate::text::chars_of;
use vstd::prelude::*;

verus! {

/// `zip::ZipArchive`, carried through as it is.
#[verifier::external_type_specification]
#[verifier::external_body]
#[verifier::reject_recursive_types(R)]
pub struct ExZipArchive<R>(zip::ZipArchive<R>);

/// `zip::result::ZipError`, carried through as it is.
#[verifier::external_type_specification]
#[verifier::external_body]
pub struct ExZipError(zip::result::ZipError);

/// `std::io::Cursor`, carried through as it is.
#[verifier::external_type_specification]
#[verifier::external_body]
#[verifier::reject_recursive_types(T)]
pub struct ExCursor<T>(std::io::Cursor<T>);

/// What reading one entry of an archive gives: its name and its content,
/// each `None` where the entry cannot be opened or that part of it cannot be
/// read.
pub struct ZipEntry {
    /// The name of the entry.
    pub name: Option<Seq<char>>,
    /// The bytes of the entry, uncompressed.
    pub content: Option<Seq<u8>>,
}

/// The entries of an open archive, in the order of its central directory.
pub uninterp spec fn archive_entries(archive: zip::ZipArchive<std::io::Cursor<&[u8]>>) -> Seq<
    ZipEntry,
>;

/// The entries of the archive that the bytes hold, or `None` if the bytes
/// are no archive that `zip` can open.
pub uninterp spec fn zip_entries(bytes: Seq<u8>) -> Option<Seq<ZipEntry>>;

/// `zip::ZipArchive::new` reads the central directory of the archive in the
/// bytes. Whether it succeeds, and the entries of the archive, depend on the
/// bytes alone.
#[verifier::external_body]
pub(crate) fn open_archive(bytes: &[u8]) -> (r: Result<
    zip::ZipArchive<std::io::Cursor<&[u8]>>,
    zip::result::ZipError,
>)
    ensures
        match r {
            Ok(archive) => zip_entries(bytes@) == Some(archive_entries(archive)),
            Err(_) => zip_entries(bytes@) is None,
        },
{
    zip::ZipArchive::new(std::io::Cursor::new(bytes))
}

/// `zip::ZipArchive::len` gives the number of entries.
#[verifier::external_body]
pub(crate) fn archive_len(archive: &zip::ZipArchive<std::io::Cursor<&[u8]>>) -> (n: usize)
    ensures
        n == archive_entries(*archive).len(),
{
    archive.len()
}

/// `zip::ZipArchive::by_index` opens entry `i`, and `name` on the entry gives
/// its name. The entries stay what they are.
#[verifier::external_body]
pub(crate) fn entry_name(archive: &mut zip::ZipArchive<std::io::Cursor<&[u8]>>, i: usize) -> (r:
    Result<String, zip::result::ZipError>)
    requires
        i < archive_entries(*old(archive)).len(),
    ensures
        archive_entries(*final(archive)) == archive_entries(*old(archive)),
        match r {
            Ok(name) => archive_entries(*old(archive))[i as int].name == Some(name@),
            Err(_) => archive_entries(*old(archive))[i as int].name is None,
        },
{
    let entry = archive.by_index(i)?;
    let name = entry.name()?;
    Ok(name.into_owned())
}

/// `zip::ZipArchive::by_index` opens entry `i`, and `std::io::copy` reads
/// its bytes to the end. The entries stay what they are.
#[verifier::external_body]
pub(crate) fn entry_content(archive: &mut zip::ZipArchive<std::io::Cursor<&[u8]>>, i: usize) -> (r:
    Result<Vec<u8>, zip::result::ZipError>)
    requires
        i < archive_entries(*old(archive)).len(),
    ensures
        archive_entries(*final(archive)) == archive_entries(*old(archive)),
        match r {
            Ok(content) => archive_entries(*old(archive))[i as int].content == Some(content@),
            Err(_) => archive_entries(*old(archive))[i as int].content is None,
        },
{
    let mut entry = archive.by_index(i)?;
    let mut content: Vec<u8> = Vec::new();
    std::io::copy(&mut entry, &mut content)?;
    Ok(content)
}

/// The message of a `zip::result::ZipError`, as its `Display` writes it.
#[verifier::external_body]
pub(crate) fn zip_failure_text(failure: &zip::result::ZipError) -> String {
    format!("{}", failure)
}

/// A file to write below the destination directory, given as bytes.
#[derive(Clone, Debug)]
pub struct AssetFile {
    /// The path of the file, relative to the destination directory.
    pub path: String,
    /// What the file holds.
    pub content: Vec<u8>,
}

/// The path and content of each file of a list.
pub open spec fn asset_views(files: Seq<AssetFile>) -> Seq<(Seq<char>, Seq<u8>)> {
    files.map_values(|f: AssetFile| (f.path@, f.content@))
}

/// Whether the name of an entry is that of a directory: it ends in `/`.
pub open spec fn is_directory_name(name: Seq<char>) -> bool {
    name.len() > 0 && name.last() == '/'
}

/// Whether an entry can be extracted: it has a name, and content unless it
/// is a directory.
pub open spec fn entry_readable(entry: ZipEntry) -> bool {
    match entry.name {
        Some(name) => is_directory_name(name) || entry.content is Some,
        None => false,
    }
}

/// Whether every entry can be extracted.
pub open spec fn all_readable(entries: Seq<ZipEntry>) -> bool {
    forall|i: int| 0 <= i < entries.len() ==> entry_readable(#[trigger] entries[i])
}

/// The file that an entry gives; a directory gives none.
pub open spec fn entry_file(entry: ZipEntry) -> Option<(Seq<char>, Seq<u8>)> {
    match (entry.name, entry.content) {
        (Some(name), Some(content)) => if is_directory_name(name) {
            None
        } else {
            Some((name, content))
        },
        _ => None,
    }
}

/// The files that the entries give, in the order of the entries.
pub open spec fn extracted(entries: Seq<ZipEntry>) -> Seq<(Seq<char>, Seq<u8>)> {
    entries.filter_map(|e: ZipEntry| entry_file(e))
}

/// Tests whether the name of an entry is that of a directory.
pub fn is_directory(name: &str) -> (r: bool)
    ensures
        r == is_directory_name(name@),
{
    let text = chars_of(name);
    text.len() > 0 && text[text.len() - 1] == '/'
}

/// Reads the files out of an archive: every entry that is no directory, with
/// its name and its bytes, in the order of the archive. Fails if the bytes
/// are no archive or if an entry cannot be read.
pub fn archive_files(bytes: &[u8]) -> (r: Result<Vec<AssetFile>, BuildError>)
    ensures
        match r {
            Ok(files) => zip_entries(bytes@) matches Some(entries) && all_readable(entries)
                && asset_views(files@) == extracted(entries),
            Err(e) => e is Archive && !(zip_entries(bytes@) matches Some(entries) && all_readable(
                entries,
            )),
        },
{
    let mut archive = match open_archive(bytes) {
        Ok(archive) => archive,
        Err(failure) => {
            return Err(BuildError::Archive(zip_failure_text(&failure)));
        },
    };
    let ghost entries = archive_entries(archive);
    let count = archive_len(&archive);
    let mut files: Vec<AssetFile> = Vec::new();
    let mut i: usize = 0;
    assert(entries.take(0) =~= Seq::empty());
    assert(asset_views(files@) =~= extracted(entries.take(0)));
    while i < count
        invariant
            i <= count == entries.len(),
            archive_entries(archive) == entries,
            zip_entries(bytes@) == Some(entries),
            forall|j: int| 0 <= j < i ==> entry_readable(#[trigger] entries[j]),
            asset_views(files@) == extracted(entries.take(i as int)),
        decreases count - i,
    {
        let ghost before = asset_views(files@);
        proof {
            entries.lemma_filter_map_take_succ(|e: ZipEntry| entry_file(e), i as int);
        }
        let name = match entry_name(&mut archive, i) {
            Ok(name) => name,
            Err(failure) => {
                assert(!entry_readable(entries[i as int]));
                return Err(BuildError::Archive(zip_failure_text(&failure)));
            },
        };
        if !is_directory(name.as_str()) {
            let content = match entry_content(&mut archive, i) {
                Ok(content) => content,
                Err(failure) => {
                    assert(!entry_readable(entries[i as int]));
                    return Err(BuildError::Archive(zip_failure_text(&failure)));
                },
            };
            files.push(AssetFile { path: name, content });
            assert(asset_views(files@) =~= before + seq![(name@, content@)]);
        }
        i += 1;
    }
    assert(entries.take(i as int) =~= entries);
    Ok(files)
}

/// Whether a bundled archive is extracted: always on a full rebuild, else
/// only if its directory is not there yet.
pub open spec fn must_extract(full_rebuild: bool, present: bool) -> bool {
    full_rebuild || !present
}

/// Decides whether a bundled archive is extracted.
pub fn should_extract(full_rebuild: bool, present: bool) -> (r: bool)
    ensures
        r == must_extract(full_rebuild, present),
{
    full_rebuild || !present
}

/// The archives of static files that are bundled with the renderer.
#[derive(Clone, Copy, Debug, PartialEq, Eq)]
pub enum Bundle {
    /// The Font Awesome icons.
    Fontawesome,
    /// The nomnoml scripts.
    Nomnoml,
    /// The mermaid scripts.
    Mermaid,
    /// The MathJax scripts.
    Mathjax,
    /// The JSXGraph scripts.
    Jsxgraph,
}

impl Bundle {
    /// The directory below the destination that the archive fills; where it
    /// is there already, the archive counts as extracted.
    pub open spec fn directory_name(self) -> Seq<char> {
        match self {
            Bundle::Fontawesome => "fontawesome"@,
            Bundle::Nomnoml => "nomnoml"@,
            Bundle::Mermaid => "mermaid"@,
            Bundle::Mathjax => "mathjax"@,
            Bundle::Jsxgraph => "jsxgraph"@,
        }
    }

    /// The directory below the destination that the archive fills.
    pub fn directory(self) -> (name: &'static str)
        ensures
            name@ == self.directory_name(),
    {
        match self {
            Bundle::Fontawesome => "fontawesome",
            Bundle::Nomnoml => "nomnoml",
            Bundle::Mermaid => "mermaid",
            Bundle::Mathjax => "mathjax",
            Bundle::Jsxgraph => "jsxgraph",
        }
    }
}

/// The bundles in the order in which they are written.
pub fn bundles() -> (all: Vec<Bundle>)
    ensures
        all@ == seq![
            Bundle::Fontawesome,
            Bundle::Nomnoml,
            Bundle::Mermaid,
            Bundle::Mathjax,
            Bundle::Jsxgraph,
        ],
{
    let mut all: Vec<Bundle> = Vec::new();
    all.push(Bundle::Fontawesome);
    all.push(Bundle::Nomnoml);
    all.push(Bundle::Mermaid);
    all.push(Bundle::Mathjax);
    all.push(Bundle::Jsxgraph);
    all
}

/// The files to write for a bundled archive: none if the archive is not to
/// be extracted, else the files of the archive.
pub fn bundle_files(full_rebuild: bool, present: bool, archive: &[u8]) -> (r: Result<
    Vec<AssetFile>,
    BuildError,
>)
    ensures
        match r {
            Ok(files) => if must_extract(full_rebuild, present) {
                zip_entries(archive@) matches Some(entries) && all_readable(entries)
                    && asset_views(files@) == extracted(entries)
            } else {
                files@.len() == 0
            },
            Err(e) => e is Archive && must_extract(full_rebuild, present) && !(zip_entries(
                archive@,
            ) matches Some(entries) && all_readable(entries)),
        },
{
    if should_extract(full_rebuild, present) {
        archive_files(archive)
    } else {
        Ok(Vec::new())
    }
}

/// The byte buffers of a theme.
#[derive(Clone, Debug)]
pub struct Theme {
    /// The template of a page.
    pub index: Vec<u8>,
    /// The stylesheet.
    pub css: Vec<u8>,
    /// The script.
    pub js: Vec<u8>,
    /// The icon.
    pub favicon: Vec<u8>,
    /// The local copy of jQuery.
    pub jquery: Vec<u8>,
    /// The stylesheet of the highlighter.
    pub highlight_css: Vec<u8>,
    /// The dark stylesheet of the highlighter.
    pub tomorrow_night_css: Vec<u8>,
    /// The script of the highlighter.
    pub highlight_js: Vec<u8>,
}

/// The files of the theme that are written beside the pages, under their
/// fixed names.
pub open spec fn theme_files_of(theme: Theme) -> Seq<(Seq<char>, Seq<u8>)> {
    seq![
        ("book.js"@, theme.js@),
        ("book.css"@, theme.css@),
        ("favicon.png"@, theme.favicon@),
        ("jquery.js"@, theme.jquery@),
        ("highlight.css"@, theme.highlight_css@),
        ("tomorrow-night.css"@, theme.tomorrow_night_css@),
        ("highlight.js"@, theme.highlight_js@),
    ]
}

/// The files of the theme to write, in the order in which they are written.
pub fn theme_files(theme: Theme) -> (files: Vec<AssetFile>)
    ensures
        asset_views(files@) == theme_files_of(theme),
{
    let mut files: Vec<AssetFile> = Vec::new();
    files.push(AssetFile { path: "book.js".to_owned(), content: theme.js });
    files.push(AssetFile { path: "book.css".to_owned(), content: theme.css });
    files.push(AssetFile { path: "favicon.png".to_owned(), content: theme.favicon });
    files.push(AssetFile { path: "jquery.js".to_owned(), content: theme.jquery });
    files.push(AssetFile { path: "highlight.css".to_owned(), content: theme.highlight_css });
    files.push(
        AssetFile { path: "tomorrow-night.css".to_owned(), content: theme.tomorrow_night_css },
    );
    files.push(AssetFile { path: "highlight.js".to_owned(), content: theme.highlight_js });
    assert(asset_views(files@) =~= theme_files_of(theme));
    files
}

/// Whether a file of the source directory is markdown: the extension of its
/// name is `md`.
pub open spec fn is_markdown_path(path: Seq<char>) -> bool {
    let dot = extension_dot(path, path.len() as int);
    dot >= 0 && path.subrange(dot + 1, path.len() as int) == seq!['m', 'd']
}

/// Tests whether a file of the source directory is copied to the destination
/// as it is: every file but the markdown sources.
pub fn is_static_file(path: &str) -> (r: bool)
    ensures
        r == !is_markdown_path(path@),
{
    let text = chars_of(path);
    match find_extension(text.as_slice()) {
        Some(dot) => {
            let markdown = text.len() - dot == 3 && text[dot + 1] == 'm' && text[dot + 2] == 'd';
            proof {
                let extension = text@.subrange(dot + 1, text@.len() as int);
                if markdown {
                    assert(extension =~= seq!['m', 'd']);
                } else if extension.len() == 2 {
                    assert(extension[0] == text@[dot + 1] && extension[1] == text@[dot + 2]);
                }
            }
            !markdown
        },
        None => true,
    }
}

} // verus!
