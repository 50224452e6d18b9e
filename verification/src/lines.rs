//! Texts and their lines.

use crate::text::{
    from_chars, lemma_prefix_len, lemma_prefix_len_unique, non_newline, prefix_len, texts,
    to_chars,
};
use vstd::prelude::*;
use vstd::slice::slice_subrange;

verus! {

/// Whether `s` can stand on a line of its own: it holds no line feed.
pub open spec fn is_line(s: Seq<char>) -> bool {
    forall|i: int| 0 <= i < s.len() ==> #[trigger] s[i] != '\n'
}

/// Whether each of `lines` can stand on a line of its own.
pub open spec fn all_lines(lines: Seq<Seq<char>>) -> bool {
    forall|i: int| 0 <= i < lines.len() ==> is_line(#[trigger] lines[i])
}

/// The lines of a text.  Each line feed ends a line and belongs to none; what
/// follows the last line feed is a line too, unless it is empty.  So the empty
/// text has no lines, and a text has the same lines with and without a line
/// feed at its end.
pub open spec fn lines_of(text: Seq<char>) -> Seq<Seq<char>>
    decreases text.len(),
{
    if text.len() == 0 {
        Seq::empty()
    } else {
        let n = prefix_len(text, non_newline()) as int;
        proof {
            lemma_prefix_len(text, non_newline());
        }
        if n == text.len() {
            seq![text]
        } else {
            seq![text.take(n)] + lines_of(text.skip(n + 1))
        }
    }
}

/// The text made of the given lines, each followed by a line feed.
pub open spec fn unlines(lines: Seq<Seq<char>>) -> Seq<char>
    decreases lines.len(),
{
    if lines.len() == 0 {
        Seq::empty()
    } else {
        lines[0] + seq!['\n'] + unlines(lines.drop_first())
    }
}

/// No line of a text holds a line feed.
pub proof fn lemma_lines_of_are_lines(text: Seq<char>)
    ensures
        all_lines(lines_of(text)),
    decreases text.len(),
{
    if text.len() > 0 {
        let n = prefix_len(text, non_newline()) as int;
        lemma_prefix_len(text, non_newline());
        if n < text.len() {
            lemma_lines_of_are_lines(text.skip(n + 1));
            assert forall|i: int| 0 <= i < lines_of(text).len() implies is_line(
                #[trigger] lines_of(text)[i],
            ) by {
                if i > 0 {
                    assert(lines_of(text)[i] == lines_of(text.skip(n + 1))[i - 1]);
                }
            }
        }
    }
}

/// The text of two runs of lines, one after the other, is the text of the
/// first followed by the text of the second.
pub proof fn lemma_unlines_concat(a: Seq<Seq<char>>, b: Seq<Seq<char>>)
    ensures
        unlines(a + b) == unlines(a) + unlines(b),
    decreases a.len(),
{
    if a.len() == 0 {
        assert(a + b =~= b);
    } else {
        assert((a + b).drop_first() =~= a.drop_first() + b);
        lemma_unlines_concat(a.drop_first(), b);
    }
}

/// Splitting the text of some lines gives those lines back.
pub proof fn lemma_lines_of_unlines(lines: Seq<Seq<char>>)
    requires
        all_lines(lines),
    ensures
        lines_of(unlines(lines)) == lines,
    decreases lines.len(),
{
    if lines.len() > 0 {
        let first = lines[0];
        let rest = lines.drop_first();
        let text = unlines(lines);
        assert forall|i: int| 0 <= i < first.len() implies non_newline()(#[trigger] text[i]) by {
            assert(text[i] == first[i]);
        }
        lemma_prefix_len_unique(text, non_newline(), first.len() as int);
        assert(text.take(first.len() as int) =~= first);
        assert(text.skip(first.len() as int + 1) =~= unlines(rest));
        assert forall|i: int| 0 <= i < rest.len() implies is_line(#[trigger] rest[i]) by {
            assert(rest[i] == lines[i + 1]);
        }
        lemma_lines_of_unlines(rest);
    }
}

/// The lines of what is left of a text from `from` on are the line that
/// begins there and the lines of what is left after it.
pub proof fn lemma_lines_of_rest(text: Seq<char>, from: int)
    requires
        0 <= from < text.len(),
    ensures
        ({
            let end = from + prefix_len(text.skip(from), non_newline());
            let next = if end == text.len() {
                end
            } else {
                end + 1
            };
            &&& from <= end <= text.len()
            &&& lines_of(text.skip(from)) == seq![text.subrange(from, end)] + lines_of(
                text.skip(next),
            )
        }),
{
    let rest = text.skip(from);
    let n = prefix_len(rest, non_newline()) as int;
    lemma_prefix_len(rest, non_newline());
    assert(rest.take(n) =~= text.subrange(from, from + n));
    if n == rest.len() {
        assert(rest.take(n) =~= rest);
    } else {
        assert(rest.skip(n + 1) =~= text.skip(from + n + 1));
    }
}

/// Where the line that begins at `from` ends: the position of the first line
/// feed at or after `from`, or the length of `text` if there is none.
pub(crate) fn line_end(text: &[char], from: usize) -> (to: usize)
    requires
        from <= text.len(),
    ensures
        to == from + prefix_len(text@.skip(from as int), non_newline()),
        from <= to <= text.len(),
{
    let mut i: usize = from;
    while i < text.len() && text[i] != '\n'
        invariant
            from <= i <= text.len(),
            forall|k: int| from <= k < i ==> #[trigger] text@[k] != '\n',
        decreases text.len() - i,
    {
        i += 1;
    }
    proof {
        lemma_prefix_len_unique(text@.skip(from as int), non_newline(), i - from);
    }
    i
}

/// The lines of `text`, each as a string of its own.
pub fn split_lines(text: &str) -> (lines: Vec<String>)
    ensures
        texts(lines@) == lines_of(text@),
{
    let chars = to_chars(text);
    let chars = chars.as_slice();
    let mut lines: Vec<String> = Vec::new();
    let mut start: usize = 0;
    assert(text@.skip(0) =~= text@);
    while start < chars.len()
        invariant
            start <= chars.len(),
            chars@ == text@,
            lines_of(text@) == texts(lines@) + lines_of(text@.skip(start as int)),
        decreases chars.len() - start,
    {
        proof {
            lemma_lines_of_rest(text@, start as int);
        }
        let end = line_end(chars, start);
        lines.push(from_chars(slice_subrange(chars, start, end)));
        start = if end == chars.len() {
            end
        } else {
            end + 1
        };
    }
    lines
}

} // verus!
