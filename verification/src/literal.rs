//! The text of a floating-point number.
//!
//! A field counts as a number when it is written as a decimal literal: an
//! optional sign, digits with an optional decimal point, and an optional
//! exponent. The words `inf`, `infinity` and `nan`, in any mix of upper and
//! lower case and with an optional sign, are accepted as well, as the
//! standard conversion from text to a 64-bit float accepts them. Nothing
//! may stand before or after the literal, not even a blank.
//!
//! ```text
//! Literal  ::= Sign? ( 'inf' | 'infinity' | 'nan' | Decimal )
//! Decimal  ::= ( Digit+ | Digit+ '.' Digit* | Digit* '.' Digit+ ) Exponent?
//! Exponent ::= ( 'e' | 'E' ) Sign? Digit+
//! Sign     ::= '+' | '-'
//! Digit    ::= '0' ... '9'
//! ```

use vstd::prelude::*;
use vstd::std_specs::iter::IteratorSpec;
use crate::fields::{tab_free, TAB};

verus! {

/// True of the ten decimal digits.
pub open spec fn is_digit(c: char) -> bool {
    '0' <= c && c <= '9'
}

/// True of `+` and `-`.
pub open spec fn is_sign(c: char) -> bool {
    c == '+' || c == '-'
}

/// True of the letter that opens an exponent, in either case.
pub open spec fn is_exponent_mark(c: char) -> bool {
    c == 'e' || c == 'E'
}


/// The number of digits that `s` begins with.
pub open spec fn digit_run(s: Seq<char>) -> nat
    decreases s.len(),
{
    if s.len() > 0 && is_digit(s[0]) {
        1 + digit_run(s.drop_first())
    } else {
        0
    }
}

/// `Digit+`: one digit or more, and nothing else.
pub open spec fn is_digits(s: Seq<char>) -> bool {
    s.len() >= 1 && digit_run(s) == s.len()
}

/// `s` without its sign, if it begins with one.
pub open spec fn unsigned_part(s: Seq<char>) -> Seq<char> {
    if s.len() > 0 && is_sign(s[0]) {
        s.skip(1)
    } else {
        s
    }
}

/// True if `s` spells a word, letter for letter, in any mix of upper and
/// lower case. The word is given twice, in lower and in upper case.
pub open spec fn spells(s: Seq<char>, lower: Seq<char>, upper: Seq<char>) -> bool {
    s.len() == lower.len() && forall|i: int|
        0 <= i < s.len() ==> s[i] == lower[i] || s[i] == upper[i]
}

/// The word `inf`, in lower case.
pub open spec fn inf_lower() -> Seq<char> {
    seq!['i', 'n', 'f']
}

/// The word `inf`, in upper case.
pub open spec fn inf_upper() -> Seq<char> {
    seq!['I', 'N', 'F']
}

/// The word `infinity`, in lower case.
pub open spec fn infinity_lower() -> Seq<char> {
    seq!['i', 'n', 'f', 'i', 'n', 'i', 't', 'y']
}

/// The word `infinity`, in upper case.
pub open spec fn infinity_upper() -> Seq<char> {
    seq!['I', 'N', 'F', 'I', 'N', 'I', 'T', 'Y']
}

/// The word `nan`, in lower case.
pub open spec fn nan_lower() -> Seq<char> {
    seq!['n', 'a', 'n']
}

/// The word `nan`, in upper case.
pub open spec fn nan_upper() -> Seq<char> {
    seq!['N', 'A', 'N']
}

/// `'inf' | 'infinity' | 'nan'`.
pub open spec fn is_special(s: Seq<char>) -> bool {
    ||| spells(s, inf_lower(), inf_upper())
    ||| spells(s, infinity_lower(), infinity_upper())
    ||| spells(s, nan_lower(), nan_upper())
}

/// `Exponent?`: nothing, or an exponent mark, an optional sign and digits.
pub open spec fn is_exponent_or_empty(s: Seq<char>) -> bool {
    s.len() == 0 || (is_exponent_mark(s[0]) && is_digits(unsigned_part(s.skip(1))))
}

/// `Decimal`: digits before and after an optional point, at least one digit
/// in all, then an optional exponent.
pub open spec fn is_decimal(s: Seq<char>) -> bool {
    let whole = digit_run(s);
    let after_whole = s.skip(whole as int);
    if after_whole.len() > 0 && after_whole[0] == '.' {
        let fraction = digit_run(after_whole.skip(1));
        whole + fraction >= 1 && is_exponent_or_empty(after_whole.skip(1 + fraction as int))
    } else {
        whole >= 1 && is_exponent_or_empty(after_whole)
    }
}

/// `Literal`: the text of a floating-point number.
pub open spec fn is_float_literal(s: Seq<char>) -> bool {
    is_special(unsigned_part(s)) || is_decimal(unsigned_part(s))
}

/// A run of digits is no longer than the text it begins.
pub proof fn lemma_digit_run_bound(s: Seq<char>)
    ensures
        digit_run(s) <= s.len(),
        forall|i: int| 0 <= i < digit_run(s) ==> is_digit(#[trigger] s[i]),
        digit_run(s) < s.len() ==> !is_digit(s[digit_run(s) as int]),
    decreases s.len(),
{
    if s.len() > 0 && is_digit(s[0]) {
        let rest = s.drop_first();
        lemma_digit_run_bound(rest);
        assert forall|i: int| 0 <= i < digit_run(s) implies is_digit(#[trigger] s[i]) by {
            if i > 0 {
                assert(s[i] == rest[i - 1]);
            }
        }
        if digit_run(s) < s.len() {
            assert(s[digit_run(s) as int] == rest[digit_run(rest) as int]);
        }
    }
}

/// The empty text is no number.
pub proof fn lemma_literal_not_empty(s: Seq<char>)
    requires
        is_float_literal(s),
    ensures
        s.len() >= 1,
{
    let body = unsigned_part(s);
    if is_decimal(body) {
        lemma_digit_run_bound(body);
    }
}

/// The characters of `s`, in order.
fn to_chars(s: &str) -> (chars: Vec<char>)
    ensures
        chars@ == s@,
{
    let mut chars: Vec<char> = Vec::new();
    let mut it = s.chars();
    let ghost mut done: Seq<char> = Seq::empty();
    loop
        invariant
            chars@ == done,
            done + it.remaining() == s@,
        decreases s@.len() - done.len(),
    {
        match it.next() {
            Some(c) => {
                chars.push(c);
                proof {
                    done = done.push(c);
                }
            },
            None => {
                return chars;
            },
        }
    }
}

/// Counts the digits that stand in `chars` from the position `from` on, and
/// returns the position after the last of them.
fn scan_digits(chars: &Vec<char>, from: usize) -> (to: usize)
    requires
        from <= chars.len(),
    ensures
        from <= to <= chars.len(),
        to - from == digit_run(chars@.skip(from as int)),
{
    let mut to = from;
    while to < chars.len() && '0' <= chars[to] && chars[to] <= '9'
        invariant
            from <= to <= chars.len(),
            digit_run(chars@.skip(from as int)) == (to - from) + digit_run(chars@.skip(to as int)),
        decreases chars.len() - to,
    {
        proof {
            assert(chars@.skip(to as int).drop_first() =~= chars@.skip(to + 1));
        }
        to = to + 1;
    }
    to
}

/// Tells whether the characters of `chars` from the position `from` on
/// spell the word that `lower` and `upper` hold in lower and in upper case.
fn spells_word(chars: &Vec<char>, from: usize, lower: &Vec<char>, upper: &Vec<char>) -> (hit: bool)
    requires
        from <= chars.len(),
        lower.len() == upper.len(),
    ensures
        hit == spells(chars@.skip(from as int), lower@, upper@),
{
    if chars.len() - from != lower.len() {
        return false;
    }
    let ghost s = chars@.skip(from as int);
    let mut i: usize = 0;
    while i < lower.len()
        invariant
            from <= chars.len(),
            chars.len() - from == lower.len(),
            lower.len() == upper.len(),
            i <= lower.len(),
            s == chars@.skip(from as int),
            forall|k: int| 0 <= k < i ==> s[k] == lower@[k] || s[k] == upper@[k],
        decreases lower.len() - i,
    {
        let c = chars[from + i];
        if !(c == lower[i] || c == upper[i]) {
            proof {
                assert(s[i as int] == c);
            }
            return false;
        }
        i = i + 1;
    }
    true
}

/// Tells whether the characters of `chars` from the position `from` on are
/// empty or an exponent.
fn exponent_or_empty(chars: &Vec<char>, from: usize) -> (ok: bool)
    requires
        from <= chars.len(),
    ensures
        ok == is_exponent_or_empty(chars@.skip(from as int)),
{
    let len = chars.len();
    if from == len {
        return true;
    }
    if !(chars[from] == 'e' || chars[from] == 'E') {
        return false;
    }
    let ghost tail = chars@.skip(from as int).skip(1);
    proof {
        assert(tail =~= chars@.skip(from + 1));
    }
    let mut digits = from + 1;
    if digits < len && (chars[digits] == '+' || chars[digits] == '-') {
        proof {
            assert(tail.skip(1) =~= chars@.skip(digits + 1));
        }
        digits = digits + 1;
    }
    let end = scan_digits(chars, digits);
    digits < len && end == len
}

/// Tells whether `text` is the text of a floating-point number.
pub fn is_literal(text: &str) -> (ok: bool)
    ensures
        ok == is_float_literal(text@),
{
    let chars = to_chars(text);
    let len = chars.len();
    let mut body: usize = 0;
    if len > 0 && (chars[0] == '+' || chars[0] == '-') {
        body = 1;
    }
    let ghost s = chars@.skip(body as int);
    proof {
        assert(chars@.skip(0) =~= chars@);
        assert(s == unsigned_part(text@));
    }
    let inf_words = (vec!['i', 'n', 'f'], vec!['I', 'N', 'F']);
    let infinity_words = (
        vec!['i', 'n', 'f', 'i', 'n', 'i', 't', 'y'],
        vec!['I', 'N', 'F', 'I', 'N', 'I', 'T', 'Y'],
    );
    let nan_words = (vec!['n', 'a', 'n'], vec!['N', 'A', 'N']);
    proof {
        assert(inf_words.0@ =~= inf_lower());
        assert(inf_words.1@ =~= inf_upper());
        assert(infinity_words.0@ =~= infinity_lower());
        assert(infinity_words.1@ =~= infinity_upper());
        assert(nan_words.0@ =~= nan_lower());
        assert(nan_words.1@ =~= nan_upper());
    }
    let inf = spells_word(&chars, body, &inf_words.0, &inf_words.1);
    let infinity = spells_word(&chars, body, &infinity_words.0, &infinity_words.1);
    let nan = spells_word(&chars, body, &nan_words.0, &nan_words.1);
    if inf || infinity || nan {
        return true;
    }
    let whole_end = scan_digits(&chars, body);
    proof {
        assert(s.skip(whole_end - body) =~= chars@.skip(whole_end as int));
    }
    if whole_end < len && chars[whole_end] == '.' {
        let fraction_end = scan_digits(&chars, whole_end + 1);
        proof {
            assert(chars@.skip(whole_end as int).skip(1) =~= chars@.skip(whole_end + 1));
            assert(chars@.skip(whole_end as int).skip(1 + (fraction_end - whole_end - 1))
                =~= chars@.skip(fraction_end as int));
        }
        if fraction_end - body < 2 {
            return false;
        }
        exponent_or_empty(&chars, fraction_end)
    } else {
        if whole_end == body {
            return false;
        }
        exponent_or_empty(&chars, whole_end)
    }
}

/// A number's text holds no tab, so it is a field of any line that it is
/// written into.
pub proof fn lemma_literal_tab_free(s: Seq<char>)
    requires
        is_float_literal(s),
    ensures
        tab_free(s),
{
    assert forall|i: int| 0 <= i < s.len() implies s[i] != TAB by {
        lemma_literal_char(s, i);
    }
}

/// True of the characters that a number's text is written in: digits,
/// signs, the point, and the letters of the exponent mark and of the three
/// words.
pub open spec fn is_literal_char(c: char) -> bool {
    ||| is_digit(c)
    ||| is_sign(c)
    ||| c == '.'
    ||| c == 'a' || c == 'A'
    ||| c == 'e' || c == 'E'
    ||| c == 'f' || c == 'F'
    ||| c == 'i' || c == 'I'
    ||| c == 'n' || c == 'N'
    ||| c == 't' || c == 'T'
    ||| c == 'y' || c == 'Y'
}

/// Every character of a number's text is a digit, a sign, the point or one
/// of seven letters.
pub proof fn lemma_literal_char(s: Seq<char>, i: int)
    requires
        is_float_literal(s),
        0 <= i < s.len(),
    ensures
        is_literal_char(s[i]),
{
    let body = unsigned_part(s);
    let shift = s.len() - body.len();
    if i < shift {
    } else {
        let j = i - shift;
        assert(s[i] == body[j]);
        if is_special(body) {
            if spells(body, inf_lower(), inf_upper()) {
                assert(body[j] == inf_lower()[j] || body[j] == inf_upper()[j]);
            } else if spells(body, infinity_lower(), infinity_upper()) {
                assert(body[j] == infinity_lower()[j] || body[j] == infinity_upper()[j]);
            } else {
                assert(body[j] == nan_lower()[j] || body[j] == nan_upper()[j]);
            }
        } else {
            lemma_decimal_char(body, j);
        }
    }
}

proof fn lemma_digits_char(s: Seq<char>, i: int)
    requires
        is_digits(s),
        0 <= i < s.len(),
    ensures
        is_digit(s[i]),
{
    lemma_digit_run_bound(s);
}

proof fn lemma_exponent_char(s: Seq<char>, i: int)
    requires
        is_exponent_or_empty(s),
        0 <= i < s.len(),
    ensures
        is_literal_char(s[i]),
{
    if i >= 1 {
        let tail = s.skip(1);
        let digits = unsigned_part(tail);
        let shift = tail.len() - digits.len();
        assert(s[i] == tail[i - 1]);
        if i - 1 >= shift {
            assert(tail[i - 1] == digits[i - 1 - shift]);
            lemma_digits_char(digits, i - 1 - shift);
        }
    }
}

proof fn lemma_decimal_char(s: Seq<char>, i: int)
    requires
        is_decimal(s),
        0 <= i < s.len(),
    ensures
        is_literal_char(s[i]),
{
    let whole = digit_run(s);
    let after_whole = s.skip(whole as int);
    lemma_digit_run_bound(s);
    if i >= whole {
        assert(s[i] == after_whole[i - whole]);
        if after_whole.len() > 0 && after_whole[0] == '.' {
            let after_point = after_whole.skip(1);
            let fraction = digit_run(after_point);
            lemma_digit_run_bound(after_point);
            if i > whole {
                assert(after_whole[i - whole] == after_point[i - whole - 1]);
                if i - whole - 1 >= fraction {
                    let rest = after_whole.skip(1 + fraction as int);
                    assert(after_point[i - whole - 1] == rest[i - whole - 1 - fraction]);
                    lemma_exponent_char(rest, i - whole - 1 - fraction);
                }
            }
        } else {
            lemma_exponent_char(after_whole, i - whole);
        }
    }
}

} // verus!
