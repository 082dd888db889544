//! One entry point per shortcode kind.

use crate::shortcode::{block_views, blocks_of, find_blocks, BlockView, Kind};
use crate::substitute::{contents_view, substitute, substituted};
use vstd::prelude::*;

verus! {

/// Substitutes the blocks of an inline kind.
fn render_inline(s: &str, kind: Kind) -> (out: String)
    requires
        kind.is_inline(),
    ensures
        out@ == substituted(s@, kind, Seq::empty()),
{
    let contents: Vec<Option<String>> = Vec::new();
    assert(contents_view(contents@) =~= Seq::empty());
    substitute(s, kind, &contents)
}

/// Replaces every `{{#mermaid body}}` by a `div` of class `mermaid` that
/// holds the body.
pub fn render_mermaid(s: &str) -> (out: String)
    ensures
        out@ == substituted(s@, Kind::Mermaid, Seq::empty()),
{
    render_inline(s, Kind::Mermaid)
}

/// Replaces every `{{#nomnoml body}}` by a plain-text `script` of class
/// `nomnoml-text` that holds the body.
pub fn render_nomnoml(s: &str) -> (out: String)
    ensures
        out@ == substituted(s@, Kind::Nomnoml, Seq::empty()),
{
    render_inline(s, Kind::Nomnoml)
}

/// Replaces every `{{#jsxgraph body}}` by a JavaScript `script` that holds
/// the body.
pub fn render_jsxgraph(s: &str) -> (out: String)
    ensures
        out@ == substituted(s@, Kind::Jsxgraph, Seq::empty()),
{
    render_inline(s, Kind::Jsxgraph)
}

/// Replaces every `{{#functionplot body}}` by a `script` that calls
/// `functionPlot` on the body.
pub fn render_functionplot(s: &str) -> (out: String)
    ensures
        out@ == substituted(s@, Kind::Functionplot, Seq::empty()),
{
    render_inline(s, Kind::Functionplot)
}

/// Replaces every `{{#railroad body}}` by a JavaScript `script` that holds
/// the body.
pub fn render_railroad(s: &str) -> (out: String)
    ensures
        out@ == substituted(s@, Kind::Railroad, Seq::empty()),
{
    render_inline(s, Kind::Railroad)
}

/// The file that each playpen block of a text asks for, in block order: the
/// first token of its body, or `None` for an escaped block, which is copied
/// and needs no file.
pub open spec fn wanted_files(text: Seq<char>) -> Seq<Option<Seq<char>>> {
    blocks_of(text, Kind::Playpen).map_values(
        |b: BlockView|
            if b.escaped {
                None
            } else {
                Some(b.reference)
            },
    )
}

/// Lists the files to read for the playpen blocks of `s`. The contents of
/// these files, in this order, are what `render_playpen` takes.
pub fn playpen_files(s: &str) -> (files: Vec<Option<String>>)
    ensures
        contents_view(files@) == wanted_files(s@),
{
    let blocks = find_blocks(s, Kind::Playpen);
    let mut files: Vec<Option<String>> = Vec::new();
    let mut k: usize = 0;
    while k < blocks.len()
        invariant
            k <= blocks@.len(),
            block_views(blocks@) == blocks_of(s@, Kind::Playpen),
            contents_view(files@) =~= wanted_files(s@).take(k as int),
        decreases blocks@.len() - k,
    {
        let ghost before = contents_view(files@);
        let ghost view = blocks@[k as int]@;
        assert(block_views(blocks@)[k as int] == view);
        if blocks[k].escaped {
            files.push(None);
            assert(contents_view(files@) =~= before.push(None));
        } else {
            files.push(Some(blocks[k].reference.clone()));
            assert(contents_view(files@) =~= before.push(Some(view.reference)));
        }
        k += 1;
    }
    assert(wanted_files(s@).take(k as int) =~= wanted_files(s@));
    files
}

/// Replaces every `{{#playpen file}}` whose file content is given by the
/// content wrapped as a Rust code block. `contents` holds one entry per
/// block of `find_blocks(s, Kind::Playpen)`, in that order.
pub fn render_playpen(s: &str, contents: &Vec<Option<String>>) -> (out: String)
    ensures
        out@ == substituted(s@, Kind::Playpen, contents_view(contents@)),
{
    substitute(s, Kind::Playpen, contents)
}

} // verus!
