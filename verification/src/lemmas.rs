//! Lemmas on which the laws of substitution rest: how blocks and output
//! behave when a text is cut in two.

use crate::shortcode::{
    block_at, block_text, block_within, blocks_from, blocks_of, closes_at, first_close,
    is_plain_body, lemma_block_at_within, lemma_blocks_from_within, lemma_first_close,
    lemma_skip_token, lemma_skip_whitespace, occurs_at, opening, skip_token, skip_whitespace,
    BlockView, Kind,
};
use crate::substitute::{
    assemble_from, blocks_before, contents_after, replacements, span_start, substituted,
};
use crate::text::is_whitespace;
use vstd::prelude::*;

verus! {

/// A text in which no block starts at `i` or later has no blocks from `i` on.
pub proof fn lemma_no_block_no_blocks(text: Seq<char>, kind: Kind, i: int)
    requires
        forall|j: int| i <= j ==> block_at(text, kind, j) is None,
    ensures
        blocks_from(text, kind, i) == Seq::<BlockView>::empty(),
    decreases text.len() - i,
{
    if 0 <= i < text.len() {
        lemma_no_block_no_blocks(text, kind, i + 1);
    }
}

/// Whitespace all the way from `from` to `to` is skipped as a whole.
pub proof fn lemma_skip_all_whitespace(text: Seq<char>, from: int, to: int)
    requires
        0 <= from <= to <= text.len(),
        forall|j: int| from <= j < to ==> is_whitespace(text[j]),
    ensures
        skip_whitespace(text, from, to) == to,
    decreases to - from,
{
    if from < to {
        lemma_skip_all_whitespace(text, from + 1, to);
    }
}

/// A text without blocks is its own substitution.
pub proof fn lemma_no_blocks_identity(text: Seq<char>, kind: Kind, contents: Seq<Option<Seq<char>>>)
    requires
        blocks_of(text, kind).len() == 0,
    ensures
        substituted(text, kind, contents) == text,
{
    assert(text.subrange(0, text.len() as int) =~= text);
}

/// The output from block `k` and a cursor on does not change when a block
/// without replacement that is not escaped is taken out of the list.
pub proof fn lemma_unresolved_block_is_passed(
    text: Seq<char>,
    blocks: Seq<BlockView>,
    repl: Seq<Option<Seq<char>>>,
    gone: int,
    k: int,
    cursor: int,
)
    requires
        0 <= k <= gone < blocks.len(),
        repl.len() == blocks.len(),
        repl[gone] is None,
        !blocks[gone].escaped,
    ensures
        assemble_from(text, blocks, repl, k, cursor) == assemble_from(
            text,
            blocks.remove(gone),
            repl.remove(gone),
            k,
            cursor,
        ),
    decreases blocks.len() - k,
{
    let blocks2 = blocks.remove(gone);
    let repl2 = repl.remove(gone);
    if k < gone {
        assert(blocks2[k] == blocks[k]);
        assert(repl2[k] == repl[k]);
        lemma_unresolved_block_is_passed(text, blocks, repl, gone, k + 1, cursor);
        lemma_unresolved_block_is_passed(text, blocks, repl, gone, k + 1, blocks[k].end);
    } else {
        lemma_removed_tail(text, blocks, repl, gone, k + 1, cursor);
    }
}

/// Past a removed entry the two lists hold the same blocks, one index apart.
pub proof fn lemma_removed_tail(
    text: Seq<char>,
    blocks: Seq<BlockView>,
    repl: Seq<Option<Seq<char>>>,
    gone: int,
    k: int,
    cursor: int,
)
    requires
        0 <= gone < k <= blocks.len(),
        repl.len() == blocks.len(),
    ensures
        assemble_from(text, blocks, repl, k, cursor) == assemble_from(
            text,
            blocks.remove(gone),
            repl.remove(gone),
            k - 1,
            cursor,
        ),
    decreases blocks.len() - k,
{
    let blocks2 = blocks.remove(gone);
    let repl2 = repl.remove(gone);
    if k < blocks.len() {
        assert(blocks2[k - 1] == blocks[k]);
        assert(repl2[k - 1] == repl[k]);
        lemma_removed_tail(text, blocks, repl, gone, k + 1, cursor);
        lemma_removed_tail(text, blocks, repl, gone, k + 1, blocks[k].end);
    }
}

/// If no block from `k` on is escaped or has a replacement, the text from
/// the cursor on is copied.
pub proof fn lemma_all_unresolved(
    text: Seq<char>,
    blocks: Seq<BlockView>,
    repl: Seq<Option<Seq<char>>>,
    k: int,
    cursor: int,
)
    requires
        0 <= k,
        repl.len() == blocks.len(),
        forall|j: int| k <= j < blocks.len() ==> !blocks[j].escaped && repl[j] is None,
    ensures
        assemble_from(text, blocks, repl, k, cursor) == text.subrange(cursor, text.len() as int),
    decreases blocks.len() - k,
{
    if k < blocks.len() {
        lemma_all_unresolved(text, blocks, repl, k + 1, cursor);
    }
}

/// No tag holds a closing brace.
pub proof fn lemma_tag_without_brace(kind: Kind)
    ensures
        forall|j: int| 0 <= j < kind.tag().len() ==> kind.tag()[j] != '}',
{
    reveal_strlit("playpen");
    reveal_strlit("mermaid");
    reveal_strlit("nomnoml");
    reveal_strlit("jsxgraph");
    reveal_strlit("functionplot");
    reveal_strlit("railroad");
}

/// Where no closing token stands between `from` and `to`, the first closing
/// token from `from` on is the first from `to` on.
pub proof fn lemma_first_close_later(text: Seq<char>, from: int, to: int)
    requires
        0 <= from <= to,
        forall|j: int| from <= j < to ==> !closes_at(text, j),
    ensures
        first_close(text, from) == first_close(text, to),
    decreases to - from,
{
    if from < to {
        lemma_first_close_later(text, from + 1, to);
        if from + 2 > text.len() {
            lemma_first_close(text, to);
        }
    }
}

/// A block moved by `by` characters.
pub open spec fn shifted(block: BlockView, by: int) -> BlockView {
    BlockView {
        start: block.start + by,
        end: block.end + by,
        reference: block.reference,
        editable: block.editable,
        escaped: block.escaped,
    }
}

/// Every block of a list moved by `by` characters.
pub open spec fn all_shifted(blocks: Seq<BlockView>, by: int) -> Seq<BlockView> {
    blocks.map_values(|b: BlockView| shifted(b, by))
}

/// The first closing token of a text without its first `m` characters is
/// that of the text, `m` characters earlier.
pub proof fn lemma_first_close_skip(text: Seq<char>, m: int, from: int)
    requires
        0 <= m <= from,
        m <= text.len(),
    ensures
        first_close(text.skip(m), from - m) == match first_close(text, from) {
            Some(c) => Some(c - m),
            None => None,
        },
    decreases text.len() - from,
{
    if from + 2 <= text.len() {
        assert(closes_at(text.skip(m), from - m) == closes_at(text, from));
        if !closes_at(text, from) {
            lemma_first_close_skip(text, m, from + 1);
        }
    }
}

/// Skipping whitespace in a text without its first `m` characters.
pub proof fn lemma_skip_whitespace_skip(text: Seq<char>, m: int, from: int, to: int)
    requires
        0 <= m <= from,
        m <= text.len(),
    ensures
        skip_whitespace(text.skip(m), from - m, to - m) == skip_whitespace(text, from, to) - m,
    decreases to - from,
{
    if from < to <= text.len() && is_whitespace(text[from]) {
        assert(text.skip(m)[from - m] == text[from]);
        lemma_skip_whitespace_skip(text, m, from + 1, to);
    }
}

/// Skipping a token in a text without its first `m` characters.
pub proof fn lemma_skip_token_skip(text: Seq<char>, m: int, from: int, to: int)
    requires
        0 <= m <= from,
        m <= text.len(),
    ensures
        skip_token(text.skip(m), from - m, to - m) == skip_token(text, from, to) - m,
    decreases to - from,
{
    if from < to <= text.len() && !is_whitespace(text[from]) {
        assert(text.skip(m)[from - m] == text[from]);
        lemma_skip_token_skip(text, m, from + 1, to);
    }
}

/// The block at an offset of a text without its first `m` characters is the
/// block of the text at that place, unless the cut parts a backslash from
/// the block that it escapes.
pub proof fn lemma_block_at_skip(text: Seq<char>, kind: Kind, m: int, i: int)
    requires
        0 <= m <= i,
        m <= text.len(),
        i > m || m == 0 || text[m - 1] != '\\',
    ensures
        block_at(text.skip(m), kind, i - m) == match block_at(text, kind, i) {
            Some(b) => Some(shifted(b, -m)),
            None => None,
        },
{
    reveal(block_at);
    let rest = text.skip(m);
    let open = opening(kind.tag());
    let body = i + open.len();
    if i + open.len() <= text.len() {
        assert(rest.subrange(i - m, i - m + open.len()) =~= text.subrange(i, i + open.len()));
    }
    assert(occurs_at(rest, open, i - m) == occurs_at(text, open, i));
    if occurs_at(text, open, i) {
        lemma_first_close_skip(text, m, body);
        lemma_first_close(text, body);
        if let Some(close) = first_close(text, body) {
            lemma_skip_whitespace_skip(text, m, body, close);
            lemma_skip_whitespace(text, body, close);
            let content = skip_whitespace(text, body, close);
            lemma_skip_token_skip(text, m, content, close);
            lemma_skip_token(text, content, close);
            let token_end = skip_token(text, content, close);
            lemma_skip_whitespace_skip(text, m, token_end, close);
            lemma_skip_whitespace(text, token_end, close);
            let second = skip_whitespace(text, token_end, close);
            lemma_skip_token_skip(text, m, second, close);
            lemma_skip_token(text, second, close);
            let second_end = skip_token(text, second, close);
            assert(rest.subrange(content - m, close - m) =~= text.subrange(content, close));
            assert(rest.subrange(content - m, token_end - m) =~= text.subrange(
                content,
                token_end,
            ));
            assert(rest.subrange(second - m, second_end - m) =~= text.subrange(
                second,
                second_end,
            ));
            if i > m {
                assert(rest[i - m - 1] == text[i - 1]);
            }
        }
    }
}

/// The blocks of a text without its first `m` characters are the blocks of
/// the text from `m` on, `m` characters earlier.
pub proof fn lemma_blocks_from_skip(text: Seq<char>, kind: Kind, m: int, i: int)
    requires
        0 <= m <= i,
        m <= text.len(),
        m == 0 || text[m - 1] != '\\',
    ensures
        blocks_from(text, kind, i) == all_shifted(blocks_from(text.skip(m), kind, i - m), m),
    decreases text.len() - i,
{
    let rest = text.skip(m);
    if i < text.len() {
        lemma_blocks_from_skip(text, kind, m, i + 1);
        lemma_block_at_skip(text, kind, m, i);
        match block_at(text, kind, i) {
            Some(b) => {
                let moved = block_at(rest, kind, i - m)->0;
                assert(shifted(moved, m) == b);
                assert(all_shifted(seq![moved] + blocks_from(rest, kind, i - m + 1), m) =~= seq![b]
                    + all_shifted(blocks_from(rest, kind, i - m + 1), m));
            },
            None => {},
        }
    } else {
        assert(blocks_from(text, kind, i) =~= all_shifted(blocks_from(rest, kind, i - m), m));
    }
}

/// The output for a text from a cursor on, where every block still to come
/// lies at `m` or later, is the output for the text without its first `m`
/// characters, after what stands between the cursor and `m`.
pub proof fn lemma_assemble_skip(
    text: Seq<char>,
    m: int,
    blocks: Seq<BlockView>,
    repl: Seq<Option<Seq<char>>>,
    k: int,
    blocks2: Seq<BlockView>,
    repl2: Seq<Option<Seq<char>>>,
    k2: int,
    cursor: int,
)
    requires
        0 <= m <= text.len(),
        0 <= cursor <= text.len(),
        0 <= k <= blocks.len(),
        0 <= k2 <= blocks2.len(),
        blocks.len() - k == blocks2.len() - k2,
        forall|j: int|
            k <= j < blocks.len() ==> #[trigger] blocks[j] == shifted(blocks2[j - k + k2], m)
                && repl[j] == repl2[j - k + k2],
        forall|j: int|
            k <= j < blocks.len() ==> block_within(text, #[trigger] blocks[j]) && span_start(
                blocks[j],
            ) >= m,
    ensures
        assemble_from(text, blocks, repl, k, cursor) == if cursor >= m {
            assemble_from(text.skip(m), blocks2, repl2, k2, cursor - m)
        } else {
            text.subrange(cursor, m) + assemble_from(text.skip(m), blocks2, repl2, k2, 0)
        },
    decreases blocks.len() - k,
{
    let rest = text.skip(m);
    if k < blocks.len() {
        let b = blocks[k];
        let b2 = blocks2[k2];
        assert(b == shifted(blocks2[k - k + k2], m));
        assert(repl[k] == repl2[k - k + k2]);
        assert(block_within(text, b));
        assert forall|j: int| k + 1 <= j < blocks.len() implies #[trigger] blocks[j] == shifted(
            blocks2[j - (k + 1) + (k2 + 1)],
            m,
        ) && repl[j] == repl2[j - (k + 1) + (k2 + 1)] by {
            assert(blocks[j] == shifted(blocks2[j - k + k2], m));
        }
        lemma_assemble_skip(text, m, blocks, repl, k + 1, blocks2, repl2, k2 + 1, cursor);
        lemma_assemble_skip(text, m, blocks, repl, k + 1, blocks2, repl2, k2 + 1, b.end);
        let from = if cursor >= m {
            cursor - m
        } else {
            0
        };
        if span_start(b) >= cursor {
            if b.escaped {
                assert(text.subrange(b.start, b.end) =~= rest.subrange(b2.start, b2.end));
                if cursor >= m {
                    assert(text.subrange(cursor, b.start - 1) =~= rest.subrange(
                        from,
                        b2.start - 1,
                    ));
                } else {
                    assert(text.subrange(cursor, b.start - 1) =~= text.subrange(cursor, m)
                        + rest.subrange(from, b2.start - 1));
                    assert(text.subrange(cursor, b.start - 1) + text.subrange(b.start, b.end)
                        + assemble_from(text, blocks, repl, k + 1, b.end) =~= text.subrange(
                        cursor,
                        m,
                    ) + (rest.subrange(from, b2.start - 1) + rest.subrange(b2.start, b2.end)
                        + assemble_from(rest, blocks2, repl2, k2 + 1, b2.end)));
                }
            } else if let Some(r) = repl[k] {
                if cursor >= m {
                    assert(text.subrange(cursor, b.start) =~= rest.subrange(from, b2.start));
                } else {
                    assert(text.subrange(cursor, b.start) =~= text.subrange(cursor, m)
                        + rest.subrange(from, b2.start));
                    assert(text.subrange(cursor, b.start) + r + assemble_from(
                        text,
                        blocks,
                        repl,
                        k + 1,
                        b.end,
                    ) =~= text.subrange(cursor, m) + (rest.subrange(from, b2.start) + r
                        + assemble_from(rest, blocks2, repl2, k2 + 1, b2.end)));
                }
            }
        }
    } else {
        if cursor >= m {
            assert(text.subrange(cursor, text.len() as int) =~= rest.subrange(
                cursor - m,
                rest.len() as int,
            ));
        } else {
            assert(text.subrange(cursor, text.len() as int) =~= text.subrange(cursor, m)
                + rest.subrange(0, rest.len() as int));
        }
    }
}

/// Blocks whose span begins before the cursor are passed over.
pub proof fn lemma_overlapped_passed(
    text: Seq<char>,
    blocks: Seq<BlockView>,
    repl: Seq<Option<Seq<char>>>,
    k: int,
    upto: int,
    cursor: int,
)
    requires
        0 <= k <= upto <= blocks.len(),
        forall|j: int| k <= j < upto ==> span_start(#[trigger] blocks[j]) < cursor,
    ensures
        assemble_from(text, blocks, repl, k, cursor) == assemble_from(
            text,
            blocks,
            repl,
            upto,
            cursor,
        ),
    decreases upto - k,
{
    if k < upto {
        lemma_overlapped_passed(text, blocks, repl, k + 1, upto, cursor);
    }
}

/// The blocks from `i` on are those that start before `m`, followed by the
/// blocks from `m` on.
pub proof fn lemma_blocks_split(text: Seq<char>, kind: Kind, i: int, m: int)
    requires
        0 <= i <= m <= text.len(),
    ensures
        blocks_from(text, kind, m).len() <= blocks_from(text, kind, i).len(),
        blocks_from(text, kind, i).skip(
            blocks_from(text, kind, i).len() - blocks_from(text, kind, m).len(),
        ) == blocks_from(text, kind, m),
        forall|j: int|
            0 <= j < blocks_from(text, kind, i).len() - blocks_from(text, kind, m).len() ==> i <= (
            #[trigger] blocks_from(text, kind, i)[j]).start < m,
    decreases m - i,
{
    let all = blocks_from(text, kind, i);
    let tail = blocks_from(text, kind, m);
    if i < m {
        lemma_blocks_split(text, kind, i + 1, m);
        lemma_block_at_within(text, kind, i);
        let next = blocks_from(text, kind, i + 1);
        match block_at(text, kind, i) {
            Some(b) => {
                assert(all =~= seq![b] + next);
                assert(all.skip(all.len() - tail.len()) =~= next.skip(next.len() - tail.len()));
                assert forall|j: int| 0 <= j < all.len() - tail.len() implies i <= (
                #[trigger] all[j]).start < m by {
                    if j > 0 {
                        assert(all[j] == next[j - 1]);
                    }
                }
            },
            None => {},
        }
    } else {
        assert(all.skip(0) =~= all);
    }
}

/// Where no block starts between `i` and `m`, the blocks from `i` on are
/// those from `m` on.
pub proof fn lemma_no_block_before(text: Seq<char>, kind: Kind, i: int, m: int)
    requires
        0 <= i <= m <= text.len(),
        forall|j: int| i <= j < m ==> block_at(text, kind, j) is None,
    ensures
        blocks_from(text, kind, i) == blocks_from(text, kind, m),
    decreases m - i,
{
    if i < m {
        lemma_no_block_before(text, kind, i + 1, m);
    }
}

/// The output for the blocks from `m` on and a cursor before `m`: what
/// stands between the cursor and `m`, then the substitution of the text from
/// `m` on, taken by itself.
pub proof fn lemma_substituted_after(
    text: Seq<char>,
    kind: Kind,
    contents: Seq<Option<Seq<char>>>,
    m: int,
    cursor: int,
)
    requires
        0 <= cursor <= m <= text.len(),
        m == 0 || text[m - 1] != '\\',
    ensures
        assemble_from(
            text,
            blocks_of(text, kind),
            replacements(kind, blocks_of(text, kind), contents),
            blocks_before(text, kind, m),
            cursor,
        ) == text.subrange(cursor, m) + substituted(
            text.skip(m),
            kind,
            contents_after(contents, blocks_before(text, kind, m)),
        ),
{
    let rest = text.skip(m);
    let all = blocks_of(text, kind);
    let n = blocks_before(text, kind, m);
    let repl = replacements(kind, all, contents);
    let all2 = blocks_of(rest, kind);
    let contents2 = contents_after(contents, n);
    let repl2 = replacements(kind, all2, contents2);
    lemma_blocks_split(text, kind, 0, m);
    lemma_blocks_from_skip(text, kind, m, m);
    lemma_blocks_from_within(text, kind, m);
    assert(all.skip(n) == all_shifted(all2, m));
    assert forall|j: int| n <= j < all.len() implies #[trigger] all[j] == shifted(
        all2[j - n + 0],
        m,
    ) && repl[j] == repl2[j - n + 0] by {
        assert(all.skip(n)[j - n] == all[j]);
        assert(all_shifted(all2, m)[j - n] == shifted(all2[j - n], m));
    }
    assert forall|j: int| n <= j < all.len() implies block_within(text, #[trigger] all[j])
        && span_start(all[j]) >= m by {
        assert(all.skip(n)[j - n] == all[j]);
        let b = blocks_from(text, kind, m)[j - n];
        assert(b == all[j]);
        if b.start == m {
            lemma_block_is_block_at(text, kind, m, j - n);
            reveal(block_at);
        }
    }
    lemma_assemble_skip(text, m, all, repl, n, all2, repl2, 0, cursor);
    if cursor == m {
        assert(text.subrange(cursor, m) + substituted(rest, kind, contents2) =~= substituted(
            rest,
            kind,
            contents2,
        ));
    }
}

/// Each block of the list from `i` on is the block that starts where it
/// starts.
pub proof fn lemma_block_is_block_at(text: Seq<char>, kind: Kind, i: int, k: int)
    requires
        0 <= i,
        0 <= k < blocks_from(text, kind, i).len(),
    ensures
        block_at(text, kind, blocks_from(text, kind, i)[k].start) == Some(
            blocks_from(text, kind, i)[k],
        ),
    decreases text.len() - i,
{
    if i < text.len() {
        lemma_block_at_within(text, kind, i);
        match block_at(text, kind, i) {
            Some(b) => {
                if k > 0 {
                    lemma_block_is_block_at(text, kind, i + 1, k - 1);
                    assert(blocks_from(text, kind, i)[k] == blocks_from(text, kind, i + 1)[k - 1]);
                }
            },
            None => {
                lemma_block_is_block_at(text, kind, i + 1, k);
            },
        }
    }
}

/// The first block of a text heads the list of its blocks, the blocks that
/// start inside it follow, and a closing brace ends it.
pub proof fn lemma_first_block(text: Seq<char>, kind: Kind, i: int)
    requires
        block_at(text, kind, i) is Some,
        forall|j: int| 0 <= j < i ==> block_at(text, kind, j) is None,
    ensures
        0 <= i < text.len(),
        text[i] == '{',
        block_within(text, block_at(text, kind, i)->0),
        block_at(text, kind, i)->0.start == i,
        text[block_at(text, kind, i)->0.end - 1] == '}',
        block_at(text, kind, i)->0.escaped ==> i >= 1 && text[i - 1] == '\\',
        blocks_of(text, kind).len() >= 1,
        blocks_of(text, kind)[0] == block_at(text, kind, i)->0,
        blocks_before(text, kind, i + 1) == 1,
        blocks_before(text, kind, block_at(text, kind, i)->0.end) >= 1,
        forall|j: int|
            0 <= j < blocks_before(text, kind, block_at(text, kind, i)->0.end) ==> (
            #[trigger] blocks_of(text, kind)[j]).start < block_at(text, kind, i)->0.end,
{
    reveal(block_at);
    let b = block_at(text, kind, i)->0;
    let open = opening(kind.tag());
    lemma_block_at_within(text, kind, i);
    lemma_first_close(text, i + open.len());
    assert(text.subrange(i, i + open.len())[0] == text[i]);
    assert(open[0] == '{');
    lemma_no_block_before(text, kind, 0, i);
    assert(blocks_from(text, kind, i) =~= seq![b] + blocks_from(text, kind, i + 1));
    lemma_blocks_split(text, kind, 0, b.end);
    lemma_blocks_from_within(text, kind, b.end);
    if blocks_before(text, kind, b.end) == 0 {
        assert(blocks_of(text, kind).skip(0) =~= blocks_of(text, kind));
        assert(blocks_from(text, kind, b.end)[0].start >= b.end);
    }
}

/// A closing token that is the first of a text is the first of every text
/// that begins with that text.
pub proof fn lemma_first_close_prefix(head: Seq<char>, tail: Seq<char>, from: int)
    requires
        0 <= from,
        first_close(head, from) is Some,
    ensures
        first_close(head + tail, from) == first_close(head, from),
    decreases head.len() - from,
{
    if from + 2 <= head.len() {
        assert((head + tail)[from] == head[from] && (head + tail)[from + 1] == head[from + 1]);
        if !closes_at(head, from) {
            lemma_first_close_prefix(head, tail, from + 1);
        }
    }
}

/// A block starts with an opening brace.
pub proof fn lemma_block_starts_with_brace(text: Seq<char>, kind: Kind, i: int)
    requires
        0 <= i < text.len(),
        text[i] != '{',
    ensures
        block_at(text, kind, i) is None,
{
    reveal(block_at);
    let open = opening(kind.tag());
    if occurs_at(text, open, i) {
        assert(text.subrange(i, i + open.len())[0] == text[i]);
        assert(open[0] == '{');
    }
}

/// The block that a well-formed block text after `before` makes.
pub proof fn lemma_block_text(
    kind: Kind,
    before: Seq<char>,
    gap: char,
    body: Seq<char>,
    after: Seq<char>,
)
    requires
        kind.is_inline(),
        is_whitespace(gap),
        is_plain_body(body),
    ensures
        block_at(before + block_text(kind, gap, body) + after, kind, before.len() as int)
            matches Some(b) && b.start == before.len() && b.end == before.len() + block_text(
            kind,
            gap,
            body,
        ).len() && b.reference == body && (b.escaped <==> before.len() > 0 && before.last()
            == '\\'),
{
    reveal(block_at);
    let open = opening(kind.tag());
    let block = block_text(kind, gap, body);
    let text = before + block + after;
    let i = before.len() as int;
    let at = i + open.len();
    let close = at + 1 + body.len();
    assert(text.subrange(i, i + open.len()) =~= open);
    assert(text[at] == gap);
    assert(text.skip(at + 1) =~= body + seq!['}', '}'] + after);
    lemma_first_close_prefix(body + seq!['}', '}'], after, 0);
    lemma_first_close_skip(text, at + 1, at + 1);
    assert(gap != '}');
    assert(first_close(text, at) == first_close(text, at + 1));
    assert(first_close(text, at) == Some(close));
    assert(text[at + 1] == body[0]);
    assert(skip_whitespace(text, at + 1, close) == at + 1);
    assert(skip_whitespace(text, at, close) == at + 1);
    assert(text.subrange(at + 1, close) =~= body);
    if i > 0 {
        assert(text[i - 1] == before.last());
    }
}

/// Every block that starts at `from` or later is in the list of the blocks
/// from `from` on.
pub proof fn lemma_block_listed(text: Seq<char>, kind: Kind, from: int, i: int)
    requires
        0 <= from <= i,
        block_at(text, kind, i) is Some,
    ensures
        blocks_from(text, kind, from).contains(block_at(text, kind, i)->0),
    decreases i - from,
{
    lemma_block_at_within(text, kind, i);
    let all = blocks_from(text, kind, from);
    if from == i {
        assert(all[0] == block_at(text, kind, i)->0);
    } else {
        lemma_block_listed(text, kind, from + 1, i);
        let rest = blocks_from(text, kind, from + 1);
        let k = choose|k: int| 0 <= k < rest.len() && rest[k] == block_at(text, kind, i)->0;
        if block_at(text, kind, from) is Some {
            assert(all[k + 1] == rest[k]);
        } else {
            assert(all[k] == rest[k]);
        }
    }
}

} // verus!
