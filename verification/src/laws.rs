//! Laws of shortcode substitution, proved from the definitions.

use crate::lemmas::{
    lemma_all_unresolved, lemma_block_is_block_at, lemma_block_listed,
    lemma_block_starts_with_brace, lemma_block_text, lemma_first_block, lemma_first_close_later,
    lemma_no_block_no_blocks, lemma_no_blocks_identity, lemma_overlapped_passed,
    lemma_skip_all_whitespace, lemma_substituted_after, lemma_tag_without_brace,
    lemma_unresolved_block_is_passed,
};
use crate::shortcode::{
    block_at, block_text, blocks_of, closes_at, first_close, is_plain_body,
    lemma_blocks_from_within, lemma_first_close, occurs_at, opening, Kind,
};
use crate::substitute::{
    assemble_from, blocks_before, contents_after, replacement, replacements, substituted,
};
use crate::text::is_whitespace;
use vstd::prelude::*;

verus! {

/// Substitution is the identity on a text in which the opening token of the
/// kind does not occur.
pub proof fn law_no_occurrence_identity(
    text: Seq<char>,
    kind: Kind,
    contents: Seq<Option<Seq<char>>>,
)
    requires
        forall|i: int| !occurs_at(text, opening(kind.tag()), i),
    ensures
        substituted(text, kind, contents) == text,
{
    assert forall|j: int| 0 <= j implies block_at(text, kind, j) is None by {
        reveal(block_at);
    }
    lemma_no_block_no_blocks(text, kind, 0);
    lemma_no_blocks_identity(text, kind, contents);
}

/// Substitution leaves a text unmodified if each opening token in it is
/// malformed: no closing token follows, or nothing but whitespace stands
/// between the two.
pub proof fn law_blank_bodies_unmodified(
    text: Seq<char>,
    kind: Kind,
    contents: Seq<Option<Seq<char>>>,
)
    requires
        forall|i: int| #[trigger]
            occurs_at(text, opening(kind.tag()), i) ==> match first_close(
                text,
                i + opening(kind.tag()).len(),
            ) {
                Some(close) => forall|j: int|
                    i + opening(kind.tag()).len() <= j < close ==> is_whitespace(text[j]),
                None => true,
            },
    ensures
        substituted(text, kind, contents) == text,
{
    assert forall|i: int| 0 <= i implies block_at(text, kind, i) is None by {
        reveal(block_at);
        let body = i + opening(kind.tag()).len();
        if occurs_at(text, opening(kind.tag()), i) {
            if let Some(close) = first_close(text, body) {
                lemma_first_close(text, body);
                lemma_skip_all_whitespace(text, body, close);
            }
        }
    }
    lemma_no_block_no_blocks(text, kind, 0);
    lemma_no_blocks_identity(text, kind, contents);
}

/// The closing token of a block is the first one at or after the start of
/// its opening token: none can stand inside the opening token.
pub proof fn law_closing_token_follows_opening(text: Seq<char>, kind: Kind, i: int)
    requires
        occurs_at(text, opening(kind.tag()), i),
    ensures
        first_close(text, i) == first_close(text, i + opening(kind.tag()).len()),
{
    let open = opening(kind.tag());
    lemma_tag_without_brace(kind);
    assert forall|j: int| i <= j < i + open.len() implies !closes_at(text, j) by {
        assert(text.subrange(i, i + open.len())[j - i] == text[j]);
        if j - i >= 3 {
            assert(open[j - i] == kind.tag()[j - i - 3]);
        }
    }
    lemma_first_close_later(text, i, i + open.len());
}

/// Every block of a text is in the list of its blocks.
pub proof fn law_every_block_listed(text: Seq<char>, kind: Kind, i: int)
    requires
        0 <= i,
        block_at(text, kind, i) is Some,
    ensures
        blocks_of(text, kind).contains(block_at(text, kind, i)->0),
{
    lemma_block_listed(text, kind, 0, i);
}

/// Every block in the list of the blocks of a text is the block that starts
/// where it starts, and the blocks of the list start one after the other.
pub proof fn law_listed_blocks_ascend(text: Seq<char>, kind: Kind, j: int, k: int)
    requires
        0 <= j < k < blocks_of(text, kind).len(),
    ensures
        block_at(text, kind, blocks_of(text, kind)[k].start) == Some(blocks_of(text, kind)[k]),
        blocks_of(text, kind)[j].start < blocks_of(text, kind)[k].start,
{
    lemma_block_is_block_at(text, kind, 0, k);
    lemma_blocks_from_within(text, kind, 0);
}

/// For an inline kind the files play no part.
pub proof fn law_inline_ignores_contents(
    text: Seq<char>,
    kind: Kind,
    first: Seq<Option<Seq<char>>>,
    second: Seq<Option<Seq<char>>>,
)
    requires
        kind.is_inline(),
    ensures
        substituted(text, kind, first) == substituted(text, kind, second),
{
    assert(replacements(kind, blocks_of(text, kind), first) =~= replacements(
        kind,
        blocks_of(text, kind),
        second,
    ));
}

/// The first block of a text, if it is resolved and not escaped, gives way
/// to its replacement: the markup of the kind around the content. What
/// stands before the block is copied, and what follows the block is
/// substituted by itself, whatever the length of the replacement.
pub proof fn law_block_replaced(
    text: Seq<char>,
    kind: Kind,
    contents: Seq<Option<Seq<char>>>,
    i: int,
)
    requires
        block_at(text, kind, i) is Some,
        forall|j: int| 0 <= j < i ==> block_at(text, kind, j) is None,
        !block_at(text, kind, i)->0.escaped,
        replacement(kind, block_at(text, kind, i)->0, contents, 0) is Some,
    ensures
        substituted(text, kind, contents) == text.subrange(0, i) + replacement(
            kind,
            block_at(text, kind, i)->0,
            contents,
            0,
        )->0 + substituted(
            text.skip(block_at(text, kind, i)->0.end),
            kind,
            contents_after(contents, blocks_before(text, kind, block_at(text, kind, i)->0.end)),
        ),
{
    let b = block_at(text, kind, i)->0;
    let all = blocks_of(text, kind);
    let repl = replacements(kind, all, contents);
    let n = blocks_before(text, kind, b.end);
    lemma_first_block(text, kind, i);
    lemma_overlapped_passed(text, all, repl, 1, n, b.end);
    lemma_substituted_after(text, kind, contents, b.end, b.end);
    assert(text.subrange(b.end, b.end) =~= Seq::<char>::empty());
    assert(Seq::<char>::empty() + substituted(text.skip(b.end), kind, contents_after(contents, n))
        =~= substituted(text.skip(b.end), kind, contents_after(contents, n)));
}

/// The first block of a text, if it is escaped, is copied as it stands and
/// loses its backslash. What stands before the backslash is copied, and what
/// follows the block is substituted by itself.
pub proof fn law_escaped_block_copied(
    text: Seq<char>,
    kind: Kind,
    contents: Seq<Option<Seq<char>>>,
    i: int,
)
    requires
        block_at(text, kind, i) is Some,
        forall|j: int| 0 <= j < i ==> block_at(text, kind, j) is None,
        block_at(text, kind, i)->0.escaped,
    ensures
        i >= 1 && text[i - 1] == '\\',
        substituted(text, kind, contents) == text.subrange(0, i - 1) + text.subrange(
            i,
            block_at(text, kind, i)->0.end,
        ) + substituted(
            text.skip(block_at(text, kind, i)->0.end),
            kind,
            contents_after(contents, blocks_before(text, kind, block_at(text, kind, i)->0.end)),
        ),
{
    let b = block_at(text, kind, i)->0;
    let all = blocks_of(text, kind);
    let repl = replacements(kind, all, contents);
    let n = blocks_before(text, kind, b.end);
    lemma_first_block(text, kind, i);
    lemma_overlapped_passed(text, all, repl, 1, n, b.end);
    lemma_substituted_after(text, kind, contents, b.end, b.end);
    assert(text.subrange(b.end, b.end) =~= Seq::<char>::empty());
    assert(Seq::<char>::empty() + substituted(text.skip(b.end), kind, contents_after(contents, n))
        =~= substituted(text.skip(b.end), kind, contents_after(contents, n)));
}

/// The first block of a text, if its file is missing, is left as it stands:
/// the text up to it and its first character are copied, and what follows is
/// substituted by itself, with the files of the other blocks.
pub proof fn law_unresolved_block_kept(
    text: Seq<char>,
    kind: Kind,
    contents: Seq<Option<Seq<char>>>,
    i: int,
)
    requires
        block_at(text, kind, i) is Some,
        forall|j: int| 0 <= j < i ==> block_at(text, kind, j) is None,
        !block_at(text, kind, i)->0.escaped,
        replacement(kind, block_at(text, kind, i)->0, contents, 0) is None,
    ensures
        substituted(text, kind, contents) == text.subrange(0, i + 1) + substituted(
            text.skip(i + 1),
            kind,
            contents_after(contents, 1),
        ),
{
    lemma_first_block(text, kind, i);
    lemma_substituted_after(text, kind, contents, i + 1, 0);
}

/// A block whose file is missing is left as it stands and changes nothing
/// else: the output is the one that the other blocks alone would give.
pub proof fn law_missing_file_leaves_block(
    text: Seq<char>,
    kind: Kind,
    contents: Seq<Option<Seq<char>>>,
    k: int,
)
    requires
        0 <= k < blocks_of(text, kind).len(),
        !blocks_of(text, kind)[k].escaped,
        replacements(kind, blocks_of(text, kind), contents)[k] is None,
    ensures
        substituted(text, kind, contents) == assemble_from(
            text,
            blocks_of(text, kind).remove(k),
            replacements(kind, blocks_of(text, kind), contents).remove(k),
            0,
            0,
        ),
{
    lemma_unresolved_block_is_passed(
        text,
        blocks_of(text, kind),
        replacements(kind, blocks_of(text, kind), contents),
        k,
        0,
        0,
    );
}

/// With no file at hand and no escaped block, the output is the input.
pub proof fn law_all_files_missing_identity(text: Seq<char>, kind: Kind)
    requires
        !kind.is_inline(),
        forall|k: int| 0 <= k < blocks_of(text, kind).len() ==> !blocks_of(text, kind)[k].escaped,
    ensures
        substituted(text, kind, Seq::empty()) == text,
{
    let blocks = blocks_of(text, kind);
    let repl = replacements(kind, blocks, Seq::empty());
    lemma_all_unresolved(text, blocks, repl, 0, 0);
    assert(text.subrange(0, text.len() as int) =~= text);
}

/// A well-formed block of an inline kind gives way to the markup of the kind
/// with the body of the block in it. What stands before the block is copied,
/// and what follows it is substituted by itself.
pub proof fn law_well_formed_block_replaced(
    kind: Kind,
    before: Seq<char>,
    gap: char,
    body: Seq<char>,
    after: Seq<char>,
    contents: Seq<Option<Seq<char>>>,
)
    requires
        kind.is_inline(),
        is_whitespace(gap),
        is_plain_body(body),
        before.len() == 0 || before.last() != '\\',
        forall|j: int|
            0 <= j < before.len() ==> block_at(
                before + block_text(kind, gap, body) + after,
                kind,
                j,
            ) is None,
    ensures
        substituted(before + block_text(kind, gap, body) + after, kind, contents) == before
            + kind.before(false) + body + kind.after() + substituted(after, kind, contents),
{
    let block = block_text(kind, gap, body);
    let text = before + block + after;
    let i = before.len() as int;
    lemma_block_text(kind, before, gap, body, after);
    let b = block_at(text, kind, i)->0;
    law_block_replaced(text, kind, contents, i);
    law_inline_ignores_contents(
        after,
        kind,
        contents,
        contents_after(contents, blocks_before(text, kind, b.end)),
    );
    assert(text.subrange(0, i) =~= before);
    assert(text.skip(b.end) =~= after);
    assert(kind.before(b.editable) == kind.before(false));
    assert(before + (kind.before(false) + body + kind.after()) + substituted(
        after,
        kind,
        contents,
    ) =~= before + kind.before(false) + body + kind.after() + substituted(after, kind, contents));
}

/// A well-formed block behind a backslash is copied as it stands, and the
/// backslash is dropped. What stands before the backslash is copied, and
/// what follows the block is substituted by itself.
pub proof fn law_escaped_block_literal(
    kind: Kind,
    before: Seq<char>,
    gap: char,
    body: Seq<char>,
    after: Seq<char>,
    contents: Seq<Option<Seq<char>>>,
)
    requires
        kind.is_inline(),
        is_whitespace(gap),
        is_plain_body(body),
        forall|j: int|
            0 <= j < before.len() ==> block_at(
                before + seq!['\\'] + block_text(kind, gap, body) + after,
                kind,
                j,
            ) is None,
    ensures
        substituted(
            before + seq!['\\'] + block_text(kind, gap, body) + after,
            kind,
            contents,
        ) == before + block_text(kind, gap, body) + substituted(after, kind, contents),
{
    let block = block_text(kind, gap, body);
    let head = before + seq!['\\'];
    let text = head + block + after;
    let i = head.len() as int;
    lemma_block_text(kind, head, gap, body, after);
    let b = block_at(text, kind, i)->0;
    assert(text[i - 1] == '\\');
    lemma_block_starts_with_brace(text, kind, i - 1);
    law_escaped_block_copied(text, kind, contents, i);
    law_inline_ignores_contents(
        after,
        kind,
        contents,
        contents_after(contents, blocks_before(text, kind, b.end)),
    );
    assert(text.subrange(0, i - 1) =~= before);
    assert(text.subrange(i, b.end) =~= block);
    assert(text.skip(b.end) =~= after);
}

} // verus!
