//! Building blocks for working with text as a sequence of characters:
//! whitespace, runs of characters, and the conversions between strings and
//! character slices that the rest of the crate relies on.

use vstd::prelude::*;

verus! {

/// `String::push` of the standard library: the string afterwards is the
/// string before with `ch` appended at its end, and nothing else changes.
pub assume_specification[ String::push ](s: &mut String, ch: char)
    ensures
        final(s)@ == old(s)@.push(ch),
;

/// Whether `c` is whitespace: a code point with the Unicode property
/// `White_Space`.
pub open spec fn is_whitespace(c: char) -> bool {
    ||| '\u{9}' <= c <= '\u{d}'
    ||| c == ' '
    ||| c == '\u{85}'
    ||| c == '\u{a0}'
    ||| c == '\u{1680}'
    ||| '\u{2000}' <= c <= '\u{200a}'
    ||| c == '\u{2028}'
    ||| c == '\u{2029}'
    ||| c == '\u{202f}'
    ||| c == '\u{205f}'
    ||| c == '\u{3000}'
}

/// Whether `c` is one of the ten ASCII decimal digits.
pub open spec fn is_digit(c: char) -> bool {
    '0' <= c <= '9'
}

/// A word: a non-empty run of characters none of which is whitespace.
pub open spec fn is_word(s: Seq<char>) -> bool {
    &&& s.len() > 0
    &&& forall|i: int| 0 <= i < s.len() ==> !is_whitespace(#[trigger] s[i])
}

/// The predicate "is whitespace", as a value.
pub open spec fn whitespace() -> spec_fn(char) -> bool {
    |c: char| is_whitespace(c)
}

/// The predicate "is not whitespace", as a value.
pub open spec fn non_whitespace() -> spec_fn(char) -> bool {
    |c: char| !is_whitespace(c)
}

/// The predicate "is a decimal digit", as a value.
pub open spec fn digit() -> spec_fn(char) -> bool {
    |c: char| is_digit(c)
}

/// The predicate "is not a line feed", as a value.
pub open spec fn non_newline() -> spec_fn(char) -> bool {
    |c: char| c != '\n'
}

/// What a sequence of strings holds.
pub open spec fn texts(strings: Seq<String>) -> Seq<Seq<char>> {
    strings.map_values(|s: String| s@)
}

/// The length of the longest prefix of `s` all of whose characters satisfy
/// `keep`.
pub open spec fn prefix_len(s: Seq<char>, keep: spec_fn(char) -> bool) -> nat
    decreases s.len(),
{
    if s.len() > 0 && keep(s[0]) {
        1 + prefix_len(s.drop_first(), keep)
    } else {
        0
    }
}

/// `prefix_len` stays within the sequence, every character before it
/// satisfies `keep`, and the character at it, if there is one, does not.
pub proof fn lemma_prefix_len(s: Seq<char>, keep: spec_fn(char) -> bool)
    ensures
        prefix_len(s, keep) <= s.len(),
        forall|i: int| 0 <= i < prefix_len(s, keep) ==> keep(#[trigger] s[i]),
        prefix_len(s, keep) < s.len() ==> !keep(s[prefix_len(s, keep) as int]),
    decreases s.len(),
{
    if s.len() > 0 && keep(s[0]) {
        let t = s.drop_first();
        lemma_prefix_len(t, keep);
        assert forall|i: int| 0 <= i < prefix_len(s, keep) implies keep(#[trigger] s[i]) by {
            if i > 0 {
                assert(s[i] == t[i - 1]);
            }
        }
    }
}

/// The only position that ends a run of `keep` characters is `prefix_len`.
pub proof fn lemma_prefix_len_unique(s: Seq<char>, keep: spec_fn(char) -> bool, n: int)
    requires
        0 <= n <= s.len(),
        forall|i: int| 0 <= i < n ==> keep(#[trigger] s[i]),
        n < s.len() ==> !keep(s[n]),
    ensures
        prefix_len(s, keep) == n,
    decreases s.len(),
{
    if n > 0 {
        let t = s.drop_first();
        assert forall|i: int| 0 <= i < n - 1 implies keep(#[trigger] t[i]) by {
            assert(t[i] == s[i + 1]);
        }
        lemma_prefix_len_unique(t, keep, n - 1);
    }
}

/// Tells whether `c` is whitespace.
pub fn char_is_whitespace(c: char) -> (b: bool)
    ensures
        b == is_whitespace(c),
{
    ('\u{9}' <= c && c <= '\u{d}') || c == ' ' || c == '\u{85}' || c == '\u{a0}' || c == '\u{1680}'
        || ('\u{2000}' <= c && c <= '\u{200a}') || c == '\u{2028}' || c == '\u{2029}' || c
        == '\u{202f}' || c == '\u{205f}' || c == '\u{3000}'
}

/// Tells whether `c` is an ASCII decimal digit.
pub fn char_is_digit(c: char) -> (b: bool)
    ensures
        b == is_digit(c),
{
    '0' <= c && c <= '9'
}

/// The characters of `s`, in order.
pub fn to_chars(s: &str) -> (v: Vec<char>)
    ensures
        v@ == s@,
{
    let mut v: Vec<char> = Vec::new();
    for c in it: s.chars()
        invariant
            it.seq() == s@,
            v@ == s@.take(it.index() as int),
    {
        v.push(c);
    }
    v
}

/// The string made of the characters of `chars`, in order.
pub fn from_chars(chars: &[char]) -> (s: String)
    ensures
        s@ == chars@,
{
    let mut s = String::new();
    let mut i: usize = 0;
    while i < chars.len()
        invariant
            i <= chars.len(),
            s@ == chars@.take(i as int),
        decreases chars.len() - i,
    {
        s.push(chars[i]);
        i += 1;
    }
    s
}

/// The first position at or after `from` whose character is not whitespace,
/// or the length of `line` if there is none.
pub(crate) fn skip_whitespace(line: &[char], from: usize) -> (to: usize)
    requires
        from <= line.len(),
    ensures
        to == from + prefix_len(line@.skip(from as int), whitespace()),
        from <= to <= line.len(),
{
    let mut i: usize = from;
    while i < line.len() && char_is_whitespace(line[i])
        invariant
            from <= i <= line.len(),
            forall|k: int| from <= k < i ==> is_whitespace(#[trigger] line@[k]),
        decreases line.len() - i,
    {
        i += 1;
    }
    proof {
        lemma_prefix_len_unique(line@.skip(from as int), whitespace(), i - from);
    }
    i
}

/// The first position at or after `from` whose character is whitespace, or
/// the length of `line` if there is none.
pub(crate) fn skip_word(line: &[char], from: usize) -> (to: usize)
    requires
        from <= line.len(),
    ensures
        to == from + prefix_len(line@.skip(from as int), non_whitespace()),
        from <= to <= line.len(),
{
    let mut i: usize = from;
    while i < line.len() && !char_is_whitespace(line[i])
        invariant
            from <= i <= line.len(),
            forall|k: int| from <= k < i ==> !is_whitespace(#[trigger] line@[k]),
        decreases line.len() - i,
    {
        i += 1;
    }
    proof {
        lemma_prefix_len_unique(line@.skip(from as int), non_whitespace(), i - from);
    }
    i
}

/// The first position at or after `from` whose character is not a decimal
/// digit, or the length of `s` if there is none.
pub(crate) fn skip_digits(s: &[char], from: usize) -> (to: usize)
    requires
        from <= s.len(),
    ensures
        to == from + prefix_len(s@.skip(from as int), digit()),
        from <= to <= s.len(),
{
    let mut i: usize = from;
    while i < s.len() && char_is_digit(s[i])
        invariant
            from <= i <= s.len(),
            forall|k: int| from <= k < i ==> is_digit(#[trigger] s@[k]),
        decreases s.len() - i,
    {
        i += 1;
    }
    proof {
        lemma_prefix_len_unique(s@.skip(from as int), digit(), i - from);
    }
    i
}

} // verus!
