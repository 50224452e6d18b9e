//! Splitting a line into its whitespace-separated tokens.

use crate::text::{
    from_chars, is_whitespace, is_word, lemma_prefix_len, lemma_prefix_len_unique,
    non_whitespace, prefix_len, skip_whitespace, skip_word, texts, to_chars, whitespace,
};
use vstd::prelude::*;
use vstd::slice::slice_subrange;

verus! {

/// The tokens of `s`: its maximal runs of non-whitespace characters, from
/// left to right.  Whitespace only separates tokens and belongs to none.
pub open spec fn tokens(s: Seq<char>) -> Seq<Seq<char>>
    decreases s.len(),
{
    if s.len() == 0 {
        Seq::empty()
    } else if is_whitespace(s[0]) {
        tokens(s.drop_first())
    } else {
        let n = prefix_len(s, non_whitespace()) as int;
        proof {
            lemma_prefix_len(s, non_whitespace());
        }
        seq![s.take(n)] + tokens(s.skip(n))
    }
}

/// A line is blank when it holds no token: it is empty or all whitespace.
pub open spec fn is_blank(s: Seq<char>) -> bool {
    tokens(s).len() == 0
}

/// Every token is a word.
pub proof fn lemma_tokens_are_words(s: Seq<char>)
    ensures
        forall|i: int| 0 <= i < tokens(s).len() ==> is_word(#[trigger] tokens(s)[i]),
    decreases s.len(),
{
    if s.len() > 0 && is_whitespace(s[0]) {
        lemma_tokens_are_words(s.drop_first());
        assert(tokens(s) == tokens(s.drop_first()));
    } else if s.len() > 0 {
        let n = prefix_len(s, non_whitespace()) as int;
        lemma_prefix_len(s, non_whitespace());
        lemma_tokens_are_words(s.skip(n));
        assert forall|i: int| 0 <= i < tokens(s).len() implies is_word(#[trigger] tokens(s)[i]) by {
            if i > 0 {
                assert(tokens(s)[i] == tokens(s.skip(n))[i - 1]);
            }
        }
    }
}

/// Whitespace in front of a text does not change its tokens.
pub proof fn lemma_tokens_after_whitespace(space: Seq<char>, rest: Seq<char>)
    requires
        forall|i: int| 0 <= i < space.len() ==> is_whitespace(#[trigger] space[i]),
    ensures
        tokens(space + rest) == tokens(rest),
    decreases space.len(),
{
    if space.len() == 0 {
        assert(space + rest =~= rest);
    } else {
        assert((space + rest).drop_first() =~= space.drop_first() + rest);
        lemma_tokens_after_whitespace(space.drop_first(), rest);
    }
}

/// A word in front of a text that is empty or begins with whitespace is the
/// first token, and the tokens of the text follow.
pub proof fn lemma_tokens_after_word(word: Seq<char>, rest: Seq<char>)
    requires
        is_word(word),
        rest.len() == 0 || is_whitespace(rest[0]),
    ensures
        tokens(word + rest) == seq![word] + tokens(rest),
{
    let s = word + rest;
    lemma_prefix_len_unique(s, non_whitespace(), word.len() as int);
    assert(s.take(word.len() as int) =~= word);
    assert(s.skip(word.len() as int) =~= rest);
}

/// Where the next token at or after `from` begins and ends, or `None` when
/// only whitespace is left.
pub(crate) fn next_token(line: &[char], from: usize) -> (r: Option<(usize, usize)>)
    requires
        from <= line.len(),
    ensures
        match r {
            None => tokens(line@.skip(from as int)).len() == 0,
            Some((start, end)) => {
                &&& from <= start < end <= line.len()
                &&& start == from + prefix_len(line@.skip(from as int), whitespace())
                &&& end == start + prefix_len(line@.skip(start as int), non_whitespace())
                &&& tokens(line@.skip(from as int)) == seq![
                    line@.subrange(start as int, end as int),
                ] + tokens(line@.skip(end as int))
            },
        },
{
    let start = skip_whitespace(line, from);
    proof {
        let s = line@.skip(from as int);
        lemma_prefix_len(s, whitespace());
        assert(s =~= s.take(start - from) + line@.skip(start as int));
        lemma_tokens_after_whitespace(s.take(start - from), line@.skip(start as int));
    }
    if start == line.len() {
        return None;
    }
    let end = skip_word(line, start);
    proof {
        let s = line@.skip(start as int);
        lemma_prefix_len(s, whitespace());
        lemma_prefix_len(s, non_whitespace());
        assert(s.take(end - start) =~= line@.subrange(start as int, end as int));
        assert(s.skip(end - start) =~= line@.skip(end as int));
    }
    Some((start, end))
}

/// The tokens of `line`, each as a string of its own.
pub fn split_tokens(line: &str) -> (found: Vec<String>)
    ensures
        texts(found@) == tokens(line@),
{
    let chars = to_chars(line);
    let chars = chars.as_slice();
    let mut found: Vec<String> = Vec::new();
    let mut from: usize = 0;
    assert(line@.skip(0) =~= line@);
    loop
        invariant
            from <= chars.len(),
            chars@ == line@,
            tokens(line@) == texts(found@) + tokens(line@.skip(from as int)),
        ensures
            texts(found@) == tokens(line@),
        decreases chars.len() - from,
    {
        match next_token(chars, from) {
            None => {
                break;
            },
            Some((start, end)) => {
                found.push(from_chars(slice_subrange(chars, start, end)));
                from = end;
            },
        }
    }
    found
}

} // verus!
