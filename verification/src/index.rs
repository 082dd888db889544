//! The index page: the page of the first chapter without the lines that set
//! a base address.

use crate::shortcode::{contains, contains_exec, occurs_at};
use crate::text::{chars_of, push_range};
use vstd::prelude::*;

verus! {

/// The text that marks a line to be left out of the index page.
pub open spec fn base_marker() -> Seq<char> {
    "<base href="@
}

/// The offset just past the line that begins at `from`: past its line feed,
/// or the end of the text if no line feed follows.
pub open spec fn line_end(text: Seq<char>, from: int) -> int
    decreases text.len() - from,
{
    if from < 0 || from >= text.len() {
        text.len() as int
    } else if text[from] == '\n' {
        from + 1
    } else {
        line_end(text, from + 1)
    }
}

/// The lines of `text[from..]` that do not contain the marker, each with its
/// line feed, in order.
pub open spec fn kept_lines_from(text: Seq<char>, from: int) -> Seq<char>
    decreases text.len() - from,
{
    if from < 0 || from >= text.len() {
        Seq::empty()
    } else {
        let end = line_end(text, from);
        let line = text.subrange(from, end);
        if end <= from || end > text.len() {
            Seq::empty()
        } else if contains(line, base_marker()) {
            kept_lines_from(text, end)
        } else {
            line + kept_lines_from(text, end)
        }
    }
}

/// `text` without the lines that contain the marker. Every other line stays
/// as it is, line feed and all.
pub open spec fn without_base_lines(text: Seq<char>) -> Seq<char> {
    kept_lines_from(text, 0)
}

/// A line ends after it begins, and within the text.
pub proof fn lemma_line_end(text: Seq<char>, from: int)
    requires
        0 <= from < text.len(),
    ensures
        from < line_end(text, from) <= text.len(),
        forall|j: int| from <= j < line_end(text, from) - 1 ==> text[j] != '\n',
        line_end(text, from) < text.len() ==> text[line_end(text, from) - 1] == '\n',
    decreases text.len() - from,
{
    if text[from] != '\n' {
        if from + 1 < text.len() {
            lemma_line_end(text, from + 1);
        } else {
            assert(line_end(text, from + 1) == text.len());
        }
    }
}

/// The end of a line of a text without its first `m` characters.
pub proof fn lemma_line_end_skip(text: Seq<char>, m: int, from: int)
    requires
        0 <= m <= from,
        m <= text.len(),
    ensures
        line_end(text.skip(m), from - m) == line_end(text, from) - m,
    decreases text.len() - from,
{
    if from < text.len() {
        assert(text.skip(m)[from - m] == text[from]);
        if text[from] != '\n' {
            lemma_line_end_skip(text, m, from + 1);
        }
    }
}

/// The kept lines of a text without its first `m` characters.
pub proof fn lemma_kept_lines_skip(text: Seq<char>, m: int, from: int)
    requires
        0 <= m <= from,
        m <= text.len(),
    ensures
        kept_lines_from(text.skip(m), from - m) == kept_lines_from(text, from),
    decreases text.len() - from,
{
    if from < text.len() {
        lemma_line_end_skip(text, m, from);
        lemma_line_end(text, from);
        let end = line_end(text, from);
        assert(text.skip(m).subrange(from - m, end - m) =~= text.subrange(from, end));
        lemma_kept_lines_skip(text, m, end);
    }
}

/// A line that ends within the head of a text ends there whatever follows
/// the head.
pub proof fn lemma_line_end_prefix(head: Seq<char>, tail: Seq<char>, from: int)
    requires
        0 <= from < head.len(),
        head.last() == '\n',
    ensures
        line_end(head + tail, from) == line_end(head, from),
        line_end(head, from) <= head.len(),
    decreases head.len() - from,
{
    assert((head + tail)[from] == head[from]);
    if head[from] != '\n' {
        lemma_line_end_prefix(head, tail, from + 1);
    }
}

/// The kept lines of a text in two parts, the first of which ends with its
/// last line, are those of the first part and then those of the second.
pub proof fn lemma_kept_lines_concat(head: Seq<char>, tail: Seq<char>, from: int)
    requires
        0 <= from <= head.len(),
        head.len() == 0 || head.last() == '\n',
    ensures
        kept_lines_from(head + tail, from) == kept_lines_from(head, from) + kept_lines_from(
            tail,
            0,
        ),
    decreases head.len() - from,
{
    let text = head + tail;
    if from < head.len() {
        lemma_line_end_prefix(head, tail, from);
        lemma_line_end(head, from);
        let end = line_end(head, from);
        assert(text.subrange(from, end) =~= head.subrange(from, end));
        lemma_kept_lines_concat(head, tail, end);
        let line = head.subrange(from, end);
        assert(line + (kept_lines_from(head, end) + kept_lines_from(tail, 0)) =~= (line
            + kept_lines_from(head, end)) + kept_lines_from(tail, 0));
    } else {
        lemma_kept_lines_skip(text, from, from);
        assert(text.skip(from) =~= tail);
        assert(kept_lines_from(head, from) + kept_lines_from(tail, 0) =~= kept_lines_from(
            tail,
            0,
        ));
    }
}

/// What occurs in a part of a text occurs in the text.
pub proof fn lemma_contains_in_part(text: Seq<char>, from: int, to: int, pat: Seq<char>)
    requires
        0 <= from <= to <= text.len(),
        contains(text.subrange(from, to), pat),
    ensures
        contains(text, pat),
{
    let i = choose|i: int| occurs_at(text.subrange(from, to), pat, i);
    assert(text.subrange(from + i, from + i + pat.len()) =~= text.subrange(from, to).subrange(
        i,
        i + pat.len(),
    ));
    assert(occurs_at(text, pat, from + i));
}

/// A text in which the marker does not occur keeps all its lines.
pub proof fn lemma_keeps_all(text: Seq<char>, from: int)
    requires
        0 <= from <= text.len(),
        !contains(text, base_marker()),
    ensures
        kept_lines_from(text, from) == text.subrange(from, text.len() as int),
    decreases text.len() - from,
{
    if from < text.len() {
        lemma_line_end(text, from);
        let end = line_end(text, from);
        if contains(text.subrange(from, end), base_marker()) {
            lemma_contains_in_part(text, from, end, base_marker());
        }
        lemma_keeps_all(text, end);
        assert(text.subrange(from, end) + text.subrange(end, text.len() as int)
            =~= text.subrange(from, text.len() as int));
    } else {
        assert(text.subrange(from, text.len() as int) =~= Seq::<char>::empty());
    }
}

/// Whether `line` is one whole line: it is not empty, and a line feed stands
/// at its end and nowhere else, or nowhere at all.
pub open spec fn is_line(line: Seq<char>) -> bool {
    line.len() > 0 && forall|j: int| 0 <= j < line.len() - 1 ==> line[j] != '\n'
}

/// A whole line ends at its end.
pub proof fn lemma_whole_line(line: Seq<char>, from: int)
    requires
        is_line(line),
        0 <= from < line.len(),
    ensures
        line_end(line, from) == line.len(),
    decreases line.len() - from,
{
    if from + 1 < line.len() {
        lemma_whole_line(line, from + 1);
    } else if line[from] != '\n' {
        assert(line_end(line, from + 1) == line.len());
    }
}

/// Lines are judged one by one: where the first part of a page ends with a
/// line feed, the index page is that of the first part and then that of the
/// rest.
pub proof fn law_index_line_by_line(head: Seq<char>, tail: Seq<char>)
    requires
        head.len() == 0 || head.last() == '\n',
    ensures
        without_base_lines(head + tail) == without_base_lines(head) + without_base_lines(tail),
{
    lemma_kept_lines_concat(head, tail, 0);
}

/// A single line stays as it is, unless it contains the marker; then nothing
/// is left of it.
pub proof fn law_index_of_line(line: Seq<char>)
    requires
        is_line(line),
    ensures
        without_base_lines(line) == if contains(line, base_marker()) {
            Seq::<char>::empty()
        } else {
            line
        },
{
    lemma_whole_line(line, 0);
    assert(line.subrange(0, line.len() as int) =~= line);
    assert(kept_lines_from(line, line.len() as int) =~= Seq::<char>::empty());
    assert(line + Seq::<char>::empty() =~= line);
}

/// A text without a line that sets a base address is its own index page.
pub proof fn law_no_base_line_identity(text: Seq<char>)
    requires
        !contains(text, base_marker()),
    ensures
        without_base_lines(text) == text,
{
    lemma_keeps_all(text, 0);
    assert(text.subrange(0, text.len() as int) =~= text);
}

/// The index page of a page with one line that sets a base address is the
/// page without that line: the lines before it and after it stay as they
/// are. `line` is a whole line of the page, with its line feed unless it is
/// the last line.
pub proof fn law_index_drops_base_line(head: Seq<char>, line: Seq<char>, tail: Seq<char>)
    requires
        head.len() == 0 || head.last() == '\n',
        is_line(line),
        line.last() == '\n' || tail.len() == 0,
        contains(line, base_marker()),
        !contains(head, base_marker()),
        !contains(tail, base_marker()),
    ensures
        without_base_lines(head + line + tail) == head + tail,
{
    lemma_kept_lines_concat(head, line + tail, 0);
    assert(head + (line + tail) =~= head + line + tail);
    lemma_keeps_all(head, 0);
    assert(head.subrange(0, head.len() as int) =~= head);
    lemma_whole_line(line, 0);
    if tail.len() == 0 {
        assert(line + tail =~= line);
        assert(line.subrange(0, line.len() as int) =~= line);
        assert(kept_lines_from(line, line.len() as int) =~= Seq::<char>::empty());
        assert(head + tail =~= head + Seq::<char>::empty());
    } else {
        lemma_kept_lines_concat(line, tail, 0);
        assert(line.subrange(0, line.len() as int) =~= line);
        assert(kept_lines_from(line, line.len() as int) =~= Seq::<char>::empty());
        lemma_keeps_all(tail, 0);
        assert(tail.subrange(0, tail.len() as int) =~= tail);
        assert(Seq::<char>::empty() + tail =~= tail);
    }
}

/// Finds the end of the line that begins at `from`.
fn find_line_end(text: &[char], from: usize) -> (end: usize)
    requires
        from < text@.len(),
    ensures
        end == line_end(text@, from as int),
        from < end <= text@.len(),
{
    let mut i: usize = from;
    while i < text.len() && text[i] != '\n'
        invariant
            from <= i <= text@.len(),
            line_end(text@, from as int) == line_end(text@, i as int),
        decreases text@.len() - i,
    {
        i += 1;
    }
    if i < text.len() {
        i + 1
    } else {
        proof {
            lemma_line_end(text@, from as int);
        }
        i
    }
}

/// Removes every line that contains `<base href=` and leaves the other lines
/// as they are.
pub fn strip_base_lines(html: &str) -> (out: String)
    ensures
        out@ == without_base_lines(html@),
{
    let text = chars_of(html);
    let marker = chars_of("<base href=");
    let mut out = String::new();
    let mut from: usize = 0;
    assert(out@ + kept_lines_from(text@, 0) =~= kept_lines_from(text@, 0));
    while from < text.len()
        invariant
            from <= text@.len(),
            marker@ == base_marker(),
            out@ + kept_lines_from(text@, from as int) == without_base_lines(text@),
        decreases text@.len() - from,
    {
        let end = find_line_end(text.as_slice(), from);
        let ghost before = out@;
        let ghost line = text@.subrange(from as int, end as int);
        let ghost rest = kept_lines_from(text@, end as int);
        if !contains_exec(text.as_slice(), from, end, marker.as_slice()) {
            push_range(&mut out, text.as_slice(), from, end);
            assert(out@ + rest =~= before + (line + rest));
        }
        from = end;
    }
    assert(out@ + Seq::<char>::empty() =~= out@);
    out
}

} // verus!
