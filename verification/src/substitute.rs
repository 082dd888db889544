//! Substitution of shortcode blocks: each block is replaced by markup that
//! embeds its content, and the text between blocks is copied unchanged.

use crate::shortcode::{
    block_views, blocks_from, blocks_of, lemma_blocks_from_within, scan_blocks, BlockView, Kind,
    ShortcodeBlock,
};
use crate::text::{chars_of, push_range};
use vstd::prelude::*;
use vstd::string::StringExecFns;

verus! {

impl Kind {
    /// The markup that stands before the embedded content.
    pub open spec fn before(self, editable: bool) -> Seq<char> {
        match self {
            Kind::Playpen => if editable {
                "<pre class=\"playpen\"><code class=\"language-rust editable\">"@
            } else {
                "<pre class=\"playpen\"><code class=\"language-rust\">"@
            },
            Kind::Mermaid => "\n<div class=\"mermaid\">\n"@,
            Kind::Nomnoml => "\n<script class=\"nomnoml-text\" type=\"text/plain\">\n"@,
            Kind::Jsxgraph => "\n<script type=\"text/javascript\">\n"@,
            Kind::Functionplot => "\n<script>\nfunctionPlot("@,
            Kind::Railroad => "\n<script type=\"text/javascript\">\n"@,
        }
    }

    /// The markup that stands after the embedded content.
    pub open spec fn after(self) -> Seq<char> {
        match self {
            Kind::Playpen => "</code></pre>"@,
            Kind::Mermaid => "\n</div>\n"@,
            Kind::Nomnoml => "\n</script>\n"@,
            Kind::Jsxgraph => "\n</script>\n"@,
            Kind::Functionplot => ");\n</script>\n"@,
            Kind::Railroad => "\n</script>\n"@,
        }
    }

    /// The markup that stands before the embedded content, as a string.
    pub fn before_str(self, editable: bool) -> (s: &'static str)
        ensures
            s@ == self.before(editable),
    {
        match self {
            Kind::Playpen => if editable {
                "<pre class=\"playpen\"><code class=\"language-rust editable\">"
            } else {
                "<pre class=\"playpen\"><code class=\"language-rust\">"
            },
            Kind::Mermaid => "\n<div class=\"mermaid\">\n",
            Kind::Nomnoml => "\n<script class=\"nomnoml-text\" type=\"text/plain\">\n",
            Kind::Jsxgraph => "\n<script type=\"text/javascript\">\n",
            Kind::Functionplot => "\n<script>\nfunctionPlot(",
            Kind::Railroad => "\n<script type=\"text/javascript\">\n",
        }
    }

    /// The markup that stands after the embedded content, as a string.
    pub fn after_str(self) -> (s: &'static str)
        ensures
            s@ == self.after(),
    {
        match self {
            Kind::Playpen => "</code></pre>",
            Kind::Mermaid => "\n</div>\n",
            Kind::Nomnoml => "\n</script>\n",
            Kind::Jsxgraph => "\n</script>\n",
            Kind::Functionplot => ");\n</script>\n",
            Kind::Railroad => "\n</script>\n",
        }
    }
}

/// The contents of the files that the blocks of a text refer to, one entry
/// per block in block order; `None` where the file could not be had.
pub open spec fn contents_view(contents: Seq<Option<String>>) -> Seq<Option<Seq<char>>> {
    contents.map_values(
        |c: Option<String>|
            match c {
                Some(s) => Some(s@),
                None => None,
            },
    )
}

/// The content to embed for block `k`: the block's own reference for an
/// inline kind, else the entry `k` of `contents`, if there is one.
pub open spec fn content_of(
    kind: Kind,
    block: BlockView,
    contents: Seq<Option<Seq<char>>>,
    k: int,
) -> Option<Seq<char>> {
    if kind.is_inline() {
        Some(block.reference)
    } else if 0 <= k < contents.len() {
        contents[k]
    } else {
        None
    }
}

/// The text that takes the place of block `k`, or `None` if the block is
/// left unresolved.
pub open spec fn replacement(
    kind: Kind,
    block: BlockView,
    contents: Seq<Option<Seq<char>>>,
    k: int,
) -> Option<Seq<char>> {
    match content_of(kind, block, contents, k) {
        Some(c) => Some(kind.before(block.editable) + c + kind.after()),
        None => None,
    }
}

/// The replacement of every block, in block order.
pub open spec fn replacements(
    kind: Kind,
    blocks: Seq<BlockView>,
    contents: Seq<Option<Seq<char>>>,
) -> Seq<Option<Seq<char>>> {
    Seq::new(blocks.len(), |k: int| replacement(kind, blocks[k], contents, k))
}

/// The offset at which the span of a block begins: at its backslash if it is
/// escaped, else at its opening token.
pub open spec fn span_start(block: BlockView) -> int {
    if block.escaped {
        block.start - 1
    } else {
        block.start
    }
}

/// The output for `text[cursor..]`, given that the blocks before `k` are
/// dealt with. Blocks are taken in order. A block whose span begins before
/// the cursor, or that has no replacement, is passed over. An escaped block
/// is copied without its backslash. Any other block gives way to its
/// replacement. The text between is copied.
pub open spec fn assemble_from(
    text: Seq<char>,
    blocks: Seq<BlockView>,
    repl: Seq<Option<Seq<char>>>,
    k: int,
    cursor: int,
) -> Seq<char>
    decreases blocks.len() - k,
{
    if k < 0 || k >= blocks.len() {
        text.subrange(cursor, text.len() as int)
    } else if span_start(blocks[k]) < cursor {
        assemble_from(text, blocks, repl, k + 1, cursor)
    } else if blocks[k].escaped {
        text.subrange(cursor, blocks[k].start - 1) + text.subrange(blocks[k].start, blocks[k].end)
            + assemble_from(text, blocks, repl, k + 1, blocks[k].end)
    } else {
        match repl[k] {
            Some(r) => text.subrange(cursor, blocks[k].start) + r + assemble_from(
                text,
                blocks,
                repl,
                k + 1,
                blocks[k].end,
            ),
            None => assemble_from(text, blocks, repl, k + 1, cursor),
        }
    }
}

/// `text` with its blocks of the given kind substituted.
pub open spec fn substituted(text: Seq<char>, kind: Kind, contents: Seq<Option<Seq<char>>>) -> Seq<
    char,
> {
    assemble_from(
        text,
        blocks_of(text, kind),
        replacements(kind, blocks_of(text, kind), contents),
        0,
        0,
    )
}

/// The number of blocks of a text that start before offset `m`.
pub open spec fn blocks_before(text: Seq<char>, kind: Kind, m: int) -> int {
    blocks_of(text, kind).len() - blocks_from(text, kind, m).len()
}

/// The files that are left for the blocks after the first `n`.
pub open spec fn contents_after(contents: Seq<Option<Seq<char>>>, n: int) -> Seq<
    Option<Seq<char>>,
> {
    if 0 <= n <= contents.len() {
        contents.skip(n)
    } else {
        Seq::empty()
    }
}

/// Whether a block lies within `text`.
pub open spec fn block_fits(text: Seq<char>, block: BlockView) -> bool {
    0 <= span_start(block) <= block.start <= block.end <= text.len()
}

/// Builds the output from `text` and its blocks.
pub(crate) fn assemble(
    text: &[char],
    kind: Kind,
    blocks: &Vec<ShortcodeBlock>,
    contents: &Vec<Option<String>>,
) -> (out: String)
    requires
        forall|k: int| 0 <= k < blocks@.len() ==> block_fits(text@, #[trigger] blocks@[k]@),
    ensures
        out@ == assemble_from(
            text@,
            block_views(blocks@),
            replacements(kind, block_views(blocks@), contents_view(contents@)),
            0,
            0,
        ),
{
    let ghost views = block_views(blocks@);
    let ghost repl = replacements(kind, views, contents_view(contents@));
    let mut out = String::new();
    let mut cursor: usize = 0;
    let mut k: usize = 0;
    assert(out@ + assemble_from(text@, views, repl, 0, 0) =~= assemble_from(text@, views, repl, 0, 0));
    while k < blocks.len()
        invariant
            k <= blocks@.len(),
            cursor <= text@.len(),
            views == block_views(blocks@),
            repl == replacements(kind, views, contents_view(contents@)),
            forall|j: int| 0 <= j < blocks@.len() ==> block_fits(text@, #[trigger] blocks@[j]@),
            out@ + assemble_from(text@, views, repl, k as int, cursor as int) == assemble_from(
                text@,
                views,
                repl,
                0,
                0,
            ),
        decreases blocks@.len() - k,
    {
        let block = &blocks[k];
        let ghost bv = views[k as int];
        let ghost before = out@;
        let ghost rest = assemble_from(text@, views, repl, k + 1, block.end_index as int);
        assert(bv == block@);
        assert(block_fits(text@, blocks@[k as int]@));
        let start: usize = if block.escaped {
            block.start_index - 1
        } else {
            block.start_index
        };
        if start >= cursor {
            if block.escaped {
                push_range(&mut out, text, cursor, start);
                push_range(&mut out, text, block.start_index, block.end_index);
                assert(out@ + rest =~= before + (text@.subrange(cursor as int, bv.start - 1)
                    + text@.subrange(bv.start, bv.end) + rest));
                cursor = block.end_index;
            } else if kind.inline() {
                push_range(&mut out, text, cursor, start);
                out.append(kind.before_str(block.editable));
                out.append(block.reference.as_str());
                out.append(kind.after_str());
                assert(repl[k as int] == Some(
                    kind.before(bv.editable) + bv.reference + kind.after(),
                ));
                assert(out@ + rest =~= before + (text@.subrange(cursor as int, bv.start)
                    + repl[k as int]->0 + rest));
                cursor = block.end_index;
            } else if k < contents.len() {
                match &contents[k] {
                    Some(c) => {
                        push_range(&mut out, text, cursor, start);
                        out.append(kind.before_str(block.editable));
                        out.append(c.as_str());
                        out.append(kind.after_str());
                        assert(repl[k as int] == Some(
                            kind.before(bv.editable) + c@ + kind.after(),
                        ));
                        assert(out@ + rest =~= before + (text@.subrange(cursor as int, bv.start)
                            + repl[k as int]->0 + rest));
                        cursor = block.end_index;
                    },
                    None => {
                        assert(repl[k as int] is None);
                    },
                }
            } else {
                assert(repl[k as int] is None);
            }
        }
        k += 1;
    }
    let ghost before = out@;
    push_range(&mut out, text, cursor, text.len());
    out
}

/// Substitutes every block of the given kind in `s`. For a kind that
/// includes files, `contents` holds the content of the file that each block
/// of `find_blocks(s, kind)` refers to, in that order, and `None` where the
/// file is missing; a block without an entry counts as missing. For an inline
/// kind `contents` is not read.
pub fn substitute(s: &str, kind: Kind, contents: &Vec<Option<String>>) -> (out: String)
    ensures
        out@ == substituted(s@, kind, contents_view(contents@)),
{
    let text = chars_of(s);
    let blocks = scan_blocks(text.as_slice(), kind);
    proof {
        lemma_blocks_from_within(text@, kind, 0);
        assert forall|k: int| 0 <= k < blocks@.len() implies block_fits(
            text@,
            #[trigger] blocks@[k]@,
        ) by {
            assert(block_views(blocks@)[k] == blocks@[k]@);
        }
    }
    assemble(text.as_slice(), kind, &blocks, contents)
}

} // verus!
