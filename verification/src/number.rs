//! Numbers as they are written in a file: the unsigned decimal integer of a
//! count line, and the grammar of a decimal floating-point literal.

use crate::text::{
    char_is_digit, digit, is_digit, is_whitespace, is_word, lemma_prefix_len, prefix_len,
    skip_digits,
};
use vstd::prelude::*;
use vstd::slice::slice_subrange;

verus! {

/// The number that the decimal digit `c` stands for.
pub open spec fn digit_value(c: char) -> nat {
    (c as int - '0' as int) as nat
}

/// The decimal digit that stands for `d`, a number below ten.
pub open spec fn digit_char(d: nat) -> char {
    ('0' as int + d) as char
}

/// Whether every character of `s` is a decimal digit.
pub open spec fn all_digits(s: Seq<char>) -> bool {
    forall|i: int| 0 <= i < s.len() ==> is_digit(#[trigger] s[i])
}

/// The number that a run of decimal digits denotes; the empty run denotes 0.
pub open spec fn decimal_value(s: Seq<char>) -> nat
    decreases s.len(),
{
    if s.len() == 0 {
        0
    } else {
        10 * decimal_value(s.drop_last()) + digit_value(s.last())
    }
}

/// The decimal digits of `n`, most significant first, without leading zeros.
pub open spec fn decimal_digits(n: nat) -> Seq<char>
    decreases n,
{
    if n < 10 {
        seq![digit_char(n)]
    } else {
        decimal_digits(n / 10).push(digit_char(n % 10))
    }
}

/// `s` without one leading plus sign, if it has one.
pub open spec fn without_plus(s: Seq<char>) -> Seq<char> {
    if s.len() > 0 && s[0] == '+' {
        s.drop_first()
    } else {
        s
    }
}

/// The value of an unsigned decimal integer: an optional plus sign followed by
/// one or more decimal digits and nothing else.  `None` for any other text.
pub open spec fn parse_unsigned(s: Seq<char>) -> Option<nat> {
    let d = without_plus(s);
    if d.len() > 0 && all_digits(d) {
        Some(decimal_value(d))
    } else {
        None
    }
}

/// An atom count: an unsigned decimal integer that fits in `usize`.
pub open spec fn parse_count(s: Seq<char>) -> Option<usize> {
    match parse_unsigned(s) {
        Some(n) => if n <= usize::MAX {
            Some(n as usize)
        } else {
            None
        },
        None => None,
    }
}

/// `s` without one leading plus or minus sign, if it has one.
pub open spec fn without_sign(s: Seq<char>) -> Seq<char> {
    if s.len() > 0 && (s[0] == '+' || s[0] == '-') {
        s.drop_first()
    } else {
        s
    }
}

/// Whether `c` is the lower-case ASCII letter `lower` or its upper-case form.
pub open spec fn is_letter(c: char, lower: char) -> bool {
    c == lower || c as int + 32 == lower as int
}

/// Whether `s` spells `word`, a word in lower-case ASCII letters, in any mix
/// of upper and lower case.
pub open spec fn spells(s: Seq<char>, word: Seq<char>) -> bool {
    &&& s.len() == word.len()
    &&& forall|i: int| 0 <= i < s.len() ==> is_letter(#[trigger] s[i], word[i])
}

/// The unsigned literals that are not numbers: `inf`, `infinity` and `nan`,
/// in any mix of upper and lower case.
pub open spec fn is_special_literal(s: Seq<char>) -> bool {
    ||| spells(s, seq!['i', 'n', 'f'])
    ||| spells(s, seq!['n', 'a', 'n'])
    ||| spells(s, seq!['i', 'n', 'f', 'i', 'n', 'i', 't', 'y'])
}

/// An exponent: `e` or `E`, an optional sign, and one or more digits.
pub open spec fn is_exponent(s: Seq<char>) -> bool {
    &&& s.len() > 0
    &&& (s[0] == 'e' || s[0] == 'E')
    &&& without_sign(s.drop_first()).len() > 0
    &&& all_digits(without_sign(s.drop_first()))
}

/// An unsigned decimal number: digits with at most one decimal point among,
/// before or after them, at least one digit in all, and then an optional
/// exponent.
pub open spec fn is_number_literal(s: Seq<char>) -> bool {
    let whole = prefix_len(s, digit()) as int;
    let after_whole = s.skip(whole);
    let pointed = after_whole.len() > 0 && after_whole[0] == '.';
    let after_point = if pointed {
        after_whole.drop_first()
    } else {
        after_whole
    };
    let fraction = if pointed {
        prefix_len(after_point, digit()) as int
    } else {
        0
    };
    let rest = after_point.skip(fraction);
    &&& whole + fraction >= 1
    &&& (rest.len() == 0 || is_exponent(rest))
}

/// The grammar of a decimal floating-point literal: an optional sign, then
/// either a decimal number or one of `inf`, `infinity`, `nan`.
pub open spec fn is_float_literal(s: Seq<char>) -> bool {
    is_special_literal(without_sign(s)) || is_number_literal(without_sign(s))
}

/// The digit for a number below ten is a decimal digit with that value; it is
/// neither whitespace nor a plus sign.
pub proof fn lemma_digit_chars(d: nat)
    requires
        d < 10,
    ensures
        is_digit(digit_char(d)),
        digit_value(digit_char(d)) == d,
        !is_whitespace(digit_char(d)),
        digit_char(d) != '+',
{
}

/// The digits of `n` are one or more decimal digits that denote `n`.
pub proof fn lemma_decimal_digits(n: nat)
    ensures
        decimal_digits(n).len() > 0,
        all_digits(decimal_digits(n)),
        decimal_value(decimal_digits(n)) == n,
        is_word(decimal_digits(n)),
        parse_unsigned(decimal_digits(n)) == Some(n),
    decreases n,
{
    let s = decimal_digits(n);
    if n < 10 {
        lemma_digit_chars(n);
        assert(decimal_value(s.drop_last()) == 0);
    } else {
        lemma_decimal_digits(n / 10);
        lemma_digit_chars(n % 10);
        assert(s.drop_last() =~= decimal_digits(n / 10));
    }
}

/// Among digits, a prefix never denotes more than the whole.
pub proof fn lemma_decimal_value_prefix(s: Seq<char>, k: int)
    requires
        0 <= k <= s.len(),
    ensures
        decimal_value(s.take(k)) <= decimal_value(s),
    decreases s.len(),
{
    if k < s.len() {
        lemma_decimal_value_prefix(s.drop_last(), k);
        assert(s.drop_last().take(k) =~= s.take(k));
    } else {
        assert(s.take(k) =~= s);
    }
}

/// A word that spells one of the special literals holds no whitespace.
proof fn lemma_spelling_is_word(s: Seq<char>, word: Seq<char>)
    requires
        spells(s, word),
        word.len() > 0,
        forall|i: int| 0 <= i < word.len() ==> 'a' <= #[trigger] word[i] <= 'z',
    ensures
        is_word(s),
{
    assert forall|i: int| 0 <= i < s.len() implies !is_whitespace(#[trigger] s[i]) by {
        assert(is_letter(s[i], word[i]));
    }
}

/// An exponent holds no whitespace.
proof fn lemma_exponent_is_word(s: Seq<char>)
    requires
        is_exponent(s),
    ensures
        is_word(s),
{
    let tail = s.drop_first();
    let d = without_sign(tail);
    assert forall|i: int| 0 <= i < s.len() implies !is_whitespace(#[trigger] s[i]) by {
        if i >= 1 {
            if d.len() == tail.len() {
                assert(is_digit(d[i - 1]));
            } else if i >= 2 {
                assert(is_digit(d[i - 2]));
            }
        }
    }
}

/// A decimal number holds no whitespace.
proof fn lemma_number_literal_is_word(s: Seq<char>)
    requires
        is_number_literal(s),
    ensures
        is_word(s),
{
    let whole = prefix_len(s, digit()) as int;
    let after_whole = s.skip(whole);
    let pointed = after_whole.len() > 0 && after_whole[0] == '.';
    let after_point = if pointed {
        after_whole.drop_first()
    } else {
        after_whole
    };
    let fraction = if pointed {
        prefix_len(after_point, digit()) as int
    } else {
        0
    };
    let rest = after_point.skip(fraction);
    let mantissa = if pointed {
        whole + 1 + fraction
    } else {
        whole
    };
    lemma_prefix_len(s, digit());
    lemma_prefix_len(after_point, digit());
    if rest.len() > 0 {
        lemma_exponent_is_word(rest);
    }
    assert forall|i: int| 0 <= i < s.len() implies !is_whitespace(#[trigger] s[i]) by {
        if whole < i < mantissa {
            assert(is_digit(after_point[i - whole - 1]));
        } else if i >= mantissa {
            assert(s[i] == rest[i - mantissa]);
        }
    }
}

/// A decimal floating-point literal is a word: it is not empty and holds no
/// whitespace.
pub proof fn lemma_float_literal_is_word(s: Seq<char>)
    requires
        is_float_literal(s),
    ensures
        is_word(s),
{
    let u = without_sign(s);
    if spells(u, seq!['i', 'n', 'f']) {
        lemma_spelling_is_word(u, seq!['i', 'n', 'f']);
    } else if spells(u, seq!['n', 'a', 'n']) {
        lemma_spelling_is_word(u, seq!['n', 'a', 'n']);
    } else if spells(u, seq!['i', 'n', 'f', 'i', 'n', 'i', 't', 'y']) {
        lemma_spelling_is_word(u, seq!['i', 'n', 'f', 'i', 'n', 'i', 't', 'y']);
    } else {
        lemma_number_literal_is_word(u);
    }
    assert forall|i: int| 0 <= i < s.len() implies !is_whitespace(#[trigger] s[i]) by {
        if u.len() < s.len() && i >= 1 {
            assert(s[i] == u[i - 1]);
        }
    }
}

/// Reads an atom count.
pub fn read_count(s: &[char]) -> (r: Option<usize>)
    ensures
        r == parse_count(s@),
{
    let n = s.len();
    let start: usize = if n > 0 && s[0] == '+' {
        1
    } else {
        0
    };
    let ghost d = without_plus(s@);
    if start == n {
        return None;
    }
    let mut value: usize = 0;
    let mut i: usize = start;
    while i < n
        invariant
            start <= i <= n == s.len(),
            d == without_plus(s@),
            d == s@.skip(start as int),
            all_digits(d.take(i - start)),
            value == decimal_value(d.take(i - start)),
        decreases n - i,
    {
        let c = s[i];
        if !char_is_digit(c) {
            assert(!is_digit(d[i - start]));
            return None;
        }
        let digit: usize = (c as u32 - '0' as u32) as usize;
        proof {
            let next = d.take(i - start + 1);
            assert(next.drop_last() =~= d.take(i - start));
            if all_digits(d) {
                lemma_decimal_value_prefix(d, i - start + 1);
            }
            assert forall|k: int| 0 <= k < next.len() implies is_digit(#[trigger] next[k]) by {
                if k < i - start {
                    assert(next[k] == d.take(i - start)[k]);
                }
            }
        }
        let scaled = match value.checked_mul(10) {
            Some(v) => v,
            None => {
                return None;
            },
        };
        value = match scaled.checked_add(digit) {
            Some(v) => v,
            None => {
                return None;
            },
        };
        i += 1;
    }
    assert(d.take(i - start) =~= d);
    Some(value)
}

/// Appends the decimal digits of `n` to `out`.
pub fn push_decimal(out: &mut String, n: usize)
    ensures
        final(out)@ == old(out)@ + decimal_digits(n as nat),
    decreases n,
{
    if n >= 10 {
        push_decimal(out, n / 10);
    }
    let d: u8 = (n % 10) as u8;
    out.push(('0' as u8 + d) as char);
}

/// Tells whether `c` is the lower-case ASCII letter `lower` or its upper-case
/// form.
fn char_is_letter(c: char, lower: char) -> (b: bool)
    requires
        'a' <= lower <= 'z',
    ensures
        b == is_letter(c, lower),
{
    c == lower || c as u32 + 32 == lower as u32
}

/// Tells whether `s` is one of the special literals.
fn check_special_literal(s: &[char]) -> (b: bool)
    ensures
        b == is_special_literal(s@),
{
    if s.len() == 3 {
        let inf = char_is_letter(s[0], 'i') && char_is_letter(s[1], 'n') && char_is_letter(
            s[2],
            'f',
        );
        let nan = char_is_letter(s[0], 'n') && char_is_letter(s[1], 'a') && char_is_letter(
            s[2],
            'n',
        );
        inf || nan
    } else if s.len() == 8 {
        char_is_letter(s[0], 'i') && char_is_letter(s[1], 'n') && char_is_letter(s[2], 'f')
            && char_is_letter(s[3], 'i') && char_is_letter(s[4], 'n') && char_is_letter(s[5], 'i')
            && char_is_letter(s[6], 't') && char_is_letter(s[7], 'y')
    } else {
        false
    }
}

/// Tells whether `s` is an exponent.
fn check_exponent(s: &[char]) -> (b: bool)
    ensures
        b == is_exponent(s@),
{
    let n = s.len();
    if n == 0 || !(s[0] == 'e' || s[0] == 'E') {
        return false;
    }
    let start: usize = if n > 1 && (s[1] == '+' || s[1] == '-') {
        2
    } else {
        1
    };
    let ghost d = without_sign(s@.drop_first());
    assert(d =~= s@.skip(start as int));
    let end = skip_digits(s, start);
    proof {
        lemma_prefix_len(d, digit());
        if end == n {
            assert forall|i: int| 0 <= i < d.len() implies is_digit(#[trigger] d[i]) by {}
        }
    }
    start < n && end == n
}

/// Tells whether `s` is an unsigned decimal number.
fn check_number_literal(s: &[char]) -> (b: bool)
    ensures
        b == is_number_literal(s@),
{
    let n = s.len();
    let whole = skip_digits(s, 0);
    assert(s@.skip(0) =~= s@);
    let pointed = whole < n && s[whole] == '.';
    let ghost after_point = if pointed {
        s@.skip(whole as int).drop_first()
    } else {
        s@.skip(whole as int)
    };
    let fraction_start: usize = if pointed {
        whole + 1
    } else {
        whole
    };
    assert(after_point =~= s@.skip(fraction_start as int));
    let fraction_end: usize = if pointed {
        skip_digits(s, fraction_start)
    } else {
        whole
    };
    assert(after_point.skip(fraction_end - fraction_start) =~= s@.skip(fraction_end as int));
    if whole == 0 && fraction_end == fraction_start {
        return false;
    }
    if fraction_end == n {
        return true;
    }
    check_exponent(slice_subrange(s, fraction_end, n))
}

/// Tells whether `s` is a decimal floating-point literal.
pub fn check_float_literal(s: &[char]) -> (b: bool)
    ensures
        b == is_float_literal(s@),
{
    let n = s.len();
    let start: usize = if n > 0 && (s[0] == '+' || s[0] == '-') {
        1
    } else {
        0
    };
    let unsigned = slice_subrange(s, start, n);
    assert(unsigned@ =~= without_sign(s@));
    check_special_literal(unsigned) || check_number_literal(unsigned)
}

} // verus!
