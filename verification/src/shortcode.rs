//! The shortcode grammar: blocks of the form `{{#kind body}}` inside chapter
//! text, and the scanner that finds them.

use crate::text::{char_is_whitespace, chars_of, is_whitespace, string_of_range};
use vstd::prelude::*;

verus! {

/// The supported shortcode kinds.
#[derive(Clone, Copy, Debug, PartialEq, Eq)]
pub enum Kind {
    /// A reference to a source file whose contents are included.
    Playpen,
    /// An inline mermaid diagram.
    Mermaid,
    /// An inline nomnoml diagram.
    Nomnoml,
    /// An inline JSXGraph script.
    Jsxgraph,
    /// An inline function-plot call.
    Functionplot,
    /// An inline railroad diagram script.
    Railroad,
}

impl Kind {
    /// The tag that follows `{{#` in a block of this kind.
    pub open spec fn tag(self) -> Seq<char> {
        match self {
            Kind::Playpen => "playpen"@,
            Kind::Mermaid => "mermaid"@,
            Kind::Nomnoml => "nomnoml"@,
            Kind::Jsxgraph => "jsxgraph"@,
            Kind::Functionplot => "functionplot"@,
            Kind::Railroad => "railroad"@,
        }
    }

    /// Whether the body of a block of this kind is itself the content to
    /// embed; otherwise its first token names a file to include.
    pub open spec fn is_inline(self) -> bool {
        !(self is Playpen)
    }

    /// The tag of this kind as a string.
    pub fn tag_str(self) -> (s: &'static str)
        ensures
            s@ == self.tag(),
    {
        match self {
            Kind::Playpen => "playpen",
            Kind::Mermaid => "mermaid",
            Kind::Nomnoml => "nomnoml",
            Kind::Jsxgraph => "jsxgraph",
            Kind::Functionplot => "functionplot",
            Kind::Railroad => "railroad",
        }
    }

    /// Tests whether blocks of this kind carry their content inline.
    pub fn inline(self) -> (r: bool)
        ensures
            r == self.is_inline(),
    {
        match self {
            Kind::Playpen => false,
            _ => true,
        }
    }
}

/// The opening token of a block with the given tag: `{{#` and the tag.
pub open spec fn opening(tag: Seq<char>) -> Seq<char> {
    seq!['{', '{', '#'] + tag
}

/// Whether `pat` occurs in `text` at offset `i`.
pub open spec fn occurs_at(text: Seq<char>, pat: Seq<char>, i: int) -> bool {
    0 <= i && i + pat.len() <= text.len() && text.subrange(i, i + pat.len()) == pat
}

/// Whether `pat` occurs somewhere in `s`.
pub open spec fn contains(s: Seq<char>, pat: Seq<char>) -> bool {
    exists|i: int| occurs_at(s, pat, i)
}

/// Whether the closing token `}}` stands in `text` at offset `c`.
pub open spec fn closes_at(text: Seq<char>, c: int) -> bool {
    0 <= c && c + 1 < text.len() && text[c] == '}' && text[c + 1] == '}'
}

/// The offset of the first closing token at or after `from`, if there is one.
pub open spec fn first_close(text: Seq<char>, from: int) -> Option<int>
    decreases text.len() - from,
{
    if from < 0 || from + 2 > text.len() {
        None
    } else if closes_at(text, from) {
        Some(from)
    } else {
        first_close(text, from + 1)
    }
}

/// The first offset in `from..to` that holds no whitespace, or `to`.
pub open spec fn skip_whitespace(text: Seq<char>, from: int, to: int) -> int
    decreases to - from,
{
    if 0 <= from < to <= text.len() && is_whitespace(text[from]) {
        skip_whitespace(text, from + 1, to)
    } else {
        from
    }
}

/// The first offset in `from..to` that holds whitespace, or `to`.
pub open spec fn skip_token(text: Seq<char>, from: int, to: int) -> int
    decreases to - from,
{
    if 0 <= from < to <= text.len() && !is_whitespace(text[from]) {
        skip_token(text, from + 1, to)
    } else {
        from
    }
}

/// A shortcode block as the grammar defines it, with offsets as integers.
pub struct BlockView {
    /// Offset of the first `{` of the opening token.
    pub start: int,
    /// Offset just past the closing token.
    pub end: int,
    /// For an inline kind the body without its leading whitespace; otherwise
    /// the first token of the body.
    pub reference: Seq<char>,
    /// Whether the second token of the body contains `editable`.
    pub editable: bool,
    /// Whether a backslash stands directly before the opening token.
    pub escaped: bool,
}

/// A shortcode block found in a text. Offsets count characters of that text.
#[derive(Clone, Debug)]
pub struct ShortcodeBlock {
    /// Offset of the first `{` of the opening token.
    pub start_index: usize,
    /// Offset just past the closing token.
    pub end_index: usize,
    /// Inline content, or the name of the file to include.
    pub reference: String,
    /// Whether the block asks for editable output.
    pub editable: bool,
    /// Whether the block is escaped by a backslash.
    pub escaped: bool,
}

impl View for ShortcodeBlock {
    type V = BlockView;

    open spec fn view(&self) -> BlockView {
        BlockView {
            start: self.start_index as int,
            end: self.end_index as int,
            reference: self.reference@,
            editable: self.editable,
            escaped: self.escaped,
        }
    }
}

/// The views of a sequence of blocks.
pub open spec fn block_views(blocks: Seq<ShortcodeBlock>) -> Seq<BlockView> {
    blocks.map_values(|b: ShortcodeBlock| b@)
}

/// The block that starts at offset `i` of `text`, if one does: the opening
/// token stands at `i`, whitespace follows it, a closing token follows, and
/// the body between them is not blank.
#[verifier::opaque]
pub open spec fn block_at(text: Seq<char>, kind: Kind, i: int) -> Option<BlockView> {
    let body = i + opening(kind.tag()).len();
    if !occurs_at(text, opening(kind.tag()), i) {
        None
    } else {
        match first_close(text, body) {
            None => None,
            Some(close) => {
                let content = skip_whitespace(text, body, close);
                let token_end = skip_token(text, content, close);
                let second = skip_whitespace(text, token_end, close);
                let second_end = skip_token(text, second, close);
                if content == body || content == close {
                    None
                } else {
                    Some(
                        BlockView {
                            start: i,
                            end: close + 2,
                            reference: if kind.is_inline() {
                                text.subrange(content, close)
                            } else {
                                text.subrange(content, token_end)
                            },
                            editable: contains(text.subrange(second, second_end), "editable"@),
                            escaped: i > 0 && text[i - 1] == '\\',
                        },
                    )
                }
            },
        }
    }
}

/// The blocks of `text` that start at offset `i` or later, by ascending start.
pub open spec fn blocks_from(text: Seq<char>, kind: Kind, i: int) -> Seq<BlockView>
    decreases text.len() - i,
{
    if i < 0 || i >= text.len() {
        Seq::empty()
    } else {
        match block_at(text, kind, i) {
            Some(b) => seq![b] + blocks_from(text, kind, i + 1),
            None => blocks_from(text, kind, i + 1),
        }
    }
}

/// All blocks of the given kind in `text`, by ascending start.
pub open spec fn blocks_of(text: Seq<char>, kind: Kind) -> Seq<BlockView> {
    blocks_from(text, kind, 0)
}

/// The text of a block of an inline kind: the opening token, one whitespace
/// character, the body and the closing token.
pub open spec fn block_text(kind: Kind, gap: char, body: Seq<char>) -> Seq<char> {
    opening(kind.tag()) + seq![gap] + body + seq!['}', '}']
}

/// Whether `body` can stand in a block as it is: it does not begin with
/// whitespace, and the first closing token after it is the one that is put
/// behind it.
pub open spec fn is_plain_body(body: Seq<char>) -> bool {
    &&& body.len() > 0
    &&& !is_whitespace(body[0])
    &&& first_close(body + seq!['}', '}'], 0) == Some(body.len() as int)
}

/// `first_close` finds a closing token, and none stands before it.
pub proof fn lemma_first_close(text: Seq<char>, from: int)
    requires
        0 <= from,
    ensures
        match first_close(text, from) {
            Some(c) => from <= c && closes_at(text, c) && forall|j: int|
                from <= j < c ==> !closes_at(text, j),
            None => forall|j: int| from <= j ==> !closes_at(text, j),
        },
    decreases text.len() - from,
{
    if from + 2 <= text.len() && !closes_at(text, from) {
        lemma_first_close(text, from + 1);
    }
}

/// `skip_whitespace` stays within its range and passes whitespace only.
pub proof fn lemma_skip_whitespace(text: Seq<char>, from: int, to: int)
    requires
        0 <= from <= to <= text.len(),
    ensures
        from <= skip_whitespace(text, from, to) <= to,
        forall|j: int| from <= j < skip_whitespace(text, from, to) ==> is_whitespace(text[j]),
        skip_whitespace(text, from, to) < to ==> !is_whitespace(
            text[skip_whitespace(text, from, to)],
        ),
    decreases to - from,
{
    if from < to && is_whitespace(text[from]) {
        lemma_skip_whitespace(text, from + 1, to);
    }
}

/// `skip_token` stays within its range and passes no whitespace.
pub proof fn lemma_skip_token(text: Seq<char>, from: int, to: int)
    requires
        0 <= from <= to <= text.len(),
    ensures
        from <= skip_token(text, from, to) <= to,
        forall|j: int| from <= j < skip_token(text, from, to) ==> !is_whitespace(text[j]),
        skip_token(text, from, to) < to ==> is_whitespace(text[skip_token(text, from, to)]),
    decreases to - from,
{
    if from < to && !is_whitespace(text[from]) {
        lemma_skip_token(text, from + 1, to);
    }
}

/// Whether a block lies within `text`, together with its backslash if it is
/// escaped, and is not empty.
pub open spec fn block_within(text: Seq<char>, block: BlockView) -> bool {
    &&& 0 <= block.start < block.end <= text.len()
    &&& block.escaped ==> block.start >= 1
}

/// A block that starts at `i` lies within the text.
pub proof fn lemma_block_at_within(text: Seq<char>, kind: Kind, i: int)
    ensures
        block_at(text, kind, i) matches Some(b) ==> b.start == i && block_within(text, b),
{
    reveal(block_at);
    if occurs_at(text, opening(kind.tag()), i) {
        lemma_first_close(text, i + opening(kind.tag()).len());
    }
}

/// Every block of `blocks_from(text, kind, i)` lies within the text and
/// starts at `i` or later, and the starts ascend strictly.
pub proof fn lemma_blocks_from_within(text: Seq<char>, kind: Kind, i: int)
    requires
        0 <= i,
    ensures
        forall|k: int|
            0 <= k < blocks_from(text, kind, i).len() ==> i <= (#[trigger] blocks_from(
                text,
                kind,
                i,
            )[k]).start && block_within(text, blocks_from(text, kind, i)[k]),
        forall|j: int, k: int|
            0 <= j < k < blocks_from(text, kind, i).len() ==> (#[trigger] blocks_from(
                text,
                kind,
                i,
            )[j]).start < (#[trigger] blocks_from(text, kind, i)[k]).start,
    decreases text.len() - i,
{
    if i < text.len() {
        lemma_blocks_from_within(text, kind, i + 1);
        lemma_block_at_within(text, kind, i);
        let all = blocks_from(text, kind, i);
        let rest = blocks_from(text, kind, i + 1);
        if block_at(text, kind, i) is Some {
            assert forall|k: int| 0 < k < all.len() implies #[trigger] all[k] == rest[k - 1] by {}
            assert(all[0] == block_at(text, kind, i)->0);
        }
    }
}

/// Tests whether `pat` occurs in `text` at offset `i`.
pub(crate) fn occurs_at_exec(text: &[char], pat: &[char], i: usize) -> (r: bool)
    ensures
        r == occurs_at(text@, pat@, i as int),
{
    if pat.len() > text.len() || i > text.len() - pat.len() {
        return false;
    }
    let mut j: usize = 0;
    while j < pat.len()
        invariant
            j <= pat@.len(),
            i + pat@.len() <= text@.len() <= usize::MAX,
            forall|k: int| 0 <= k < j ==> text@[i + k] == pat@[k],
        decreases pat@.len() - j,
    {
        if text[i + j] != pat[j] {
            assert(text@.subrange(i as int, i + pat@.len())[j as int] == text@[i + j]);
            return false;
        }
        j += 1;
    }
    assert(text@.subrange(i as int, i + pat@.len()) =~= pat@);
    true
}

/// Finds the first closing token at or after `from`.
pub(crate) fn find_close(text: &[char], from: usize) -> (r: Option<usize>)
    ensures
        match r {
            Some(c) => first_close(text@, from as int) == Some(c as int),
            None => first_close(text@, from as int) is None,
        },
{
    let mut c: usize = from;
    while c < text.len() && c + 1 < text.len()
        invariant
            from <= c,
            first_close(text@, from as int) == first_close(text@, c as int),
        decreases text@.len() - c,
    {
        if text[c] == '}' && text[c + 1] == '}' {
            return Some(c);
        }
        c += 1;
    }
    None
}

/// Passes over whitespace in `from..to`.
pub(crate) fn skip_whitespace_exec(text: &[char], from: usize, to: usize) -> (r: usize)
    requires
        from <= to <= text@.len(),
    ensures
        r == skip_whitespace(text@, from as int, to as int),
        from <= r <= to,
{
    let mut i: usize = from;
    while i < to && char_is_whitespace(text[i])
        invariant
            from <= i <= to <= text@.len(),
            skip_whitespace(text@, from as int, to as int) == skip_whitespace(
                text@,
                i as int,
                to as int,
            ),
        decreases to - i,
    {
        i += 1;
    }
    i
}

/// Passes over one token in `from..to`.
pub(crate) fn skip_token_exec(text: &[char], from: usize, to: usize) -> (r: usize)
    requires
        from <= to <= text@.len(),
    ensures
        r == skip_token(text@, from as int, to as int),
        from <= r <= to,
{
    let mut i: usize = from;
    while i < to && !char_is_whitespace(text[i])
        invariant
            from <= i <= to <= text@.len(),
            skip_token(text@, from as int, to as int) == skip_token(text@, i as int, to as int),
        decreases to - i,
    {
        i += 1;
    }
    i
}

/// Tests whether `pat` occurs somewhere in `text[from..to]`.
pub(crate) fn contains_exec(text: &[char], from: usize, to: usize, pat: &[char]) -> (r: bool)
    requires
        from <= to <= text@.len(),
    ensures
        r == contains(text@.subrange(from as int, to as int), pat@),
{
    let ghost part = text@.subrange(from as int, to as int);
    if pat.len() > to - from {
        assert(forall|i: int| !occurs_at(part, pat@, i));
        return false;
    }
    if pat.len() == 0 {
        assert(part.subrange(0, 0) =~= pat@);
        assert(occurs_at(part, pat@, 0));
        return true;
    }
    let last: usize = to - pat.len();
    let mut i: usize = from;
    while i <= last
        invariant
            from <= i <= last + 1,
            last + pat@.len() == to,
            pat@.len() > 0,
            to <= text@.len(),
            part == text@.subrange(from as int, to as int),
            forall|k: int| 0 <= k < i - from ==> !occurs_at(part, pat@, k),
        decreases last + 1 - i,
    {
        let hit = occurs_at_exec(text, pat, i);
        proof {
            let k = i - from;
            assert(part.subrange(k, k + pat@.len()) =~= text@.subrange(
                i as int,
                i + pat@.len(),
            ));
        }
        if hit {
            assert(occurs_at(part, pat@, i - from));
            return true;
        }
        i += 1;
    }
    assert(forall|k: int| !occurs_at(part, pat@, k));
    false
}

/// The opening token of `kind` as characters.
pub(crate) fn opening_of(kind: Kind) -> (open: Vec<char>)
    ensures
        open@ == opening(kind.tag()),
{
    let mut open: Vec<char> = Vec::new();
    open.push('{');
    open.push('{');
    open.push('#');
    let mut tag = chars_of(kind.tag_str());
    open.append(&mut tag);
    assert(open@ =~= opening(kind.tag()));
    open
}

/// Reads the block that starts at offset `i`, if one does. `open` is the
/// opening token of `kind` and `word` the text `editable`.
pub(crate) fn read_block(text: &[char], kind: Kind, open: &[char], word: &[char], i: usize) -> (r: Option<
    ShortcodeBlock,
>)
    requires
        open@ == opening(kind.tag()),
        word@ == "editable"@,
    ensures
        match r {
            Some(b) => block_at(text@, kind, i as int) == Some(b@),
            None => block_at(text@, kind, i as int) is None,
        },
{
    proof {
        reveal(block_at);
    }
    let len: usize = text.len();
    if !occurs_at_exec(text, open, i) {
        return None;
    }
    assert(i + open@.len() <= len);
    let body: usize = i + open.len();
    let close: usize = match find_close(text, body) {
        Some(c) => c,
        None => { return None; },
    };
    proof {
        lemma_first_close(text@, body as int);
    }
    assert(close + 2 <= len);
    let content = skip_whitespace_exec(text, body, close);
    if content == body || content == close {
        return None;
    }
    let token_end = skip_token_exec(text, content, close);
    let second = skip_whitespace_exec(text, token_end, close);
    let second_end = skip_token_exec(text, second, close);
    let reference = if kind.inline() {
        string_of_range(text, content, close)
    } else {
        string_of_range(text, content, token_end)
    };
    let editable = contains_exec(text, second, second_end, word);
    let escaped = i > 0 && text[i - 1] == '\\';
    Some(ShortcodeBlock { start_index: i, end_index: close + 2, reference, editable, escaped })
}

/// Finds every block of the given kind in `text`, by ascending start.
pub(crate) fn scan_blocks(text: &[char], kind: Kind) -> (blocks: Vec<ShortcodeBlock>)
    ensures
        block_views(blocks@) == blocks_of(text@, kind),
{
    let open = opening_of(kind);
    let word = chars_of("editable");
    let mut blocks: Vec<ShortcodeBlock> = Vec::new();
    let mut i: usize = 0;
    assert(block_views(blocks@) =~= Seq::empty());
    while i < text.len()
        invariant
            i <= text@.len(),
            open@ == opening(kind.tag()),
            word@ == "editable"@,
            block_views(blocks@) + blocks_from(text@, kind, i as int) == blocks_of(text@, kind),
        decreases text@.len() - i,
    {
        let ghost before = block_views(blocks@);
        match read_block(text, kind, open.as_slice(), word.as_slice(), i) {
            Some(b) => {
                let ghost bv = b@;
                blocks.push(b);
                assert(block_views(blocks@) =~= before.push(bv));
                assert(before.push(bv) + blocks_from(text@, kind, i + 1) =~= before + (seq![bv]
                    + blocks_from(text@, kind, i + 1)));
            },
            None => {},
        }
        i += 1;
    }
    assert(block_views(blocks@) + Seq::<BlockView>::empty() =~= block_views(blocks@));
    blocks
}

/// Finds every block of the given kind in `s`, by ascending start.
pub fn find_blocks(s: &str, kind: Kind) -> (blocks: Vec<ShortcodeBlock>)
    ensures
        block_views(blocks@) == blocks_of(s@, kind),
{
    let text = chars_of(s);
    scan_blocks(text.as_slice(), kind)
}

} // verus!
