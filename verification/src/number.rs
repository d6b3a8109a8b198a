//! The decimal numbers that appear as tokens: unsigned integers, which are
//! read and written, and floating-point numbers, which are recognized.

use crate::text::{chars_of, eq_ignoring_case, is_space, is_word, lower_code, spells};
use vstd::prelude::*;

verus! {

/// Whether `c` is one of the ASCII digits `0` to `9`.
pub open spec fn is_digit(c: char) -> bool {
    0x30 <= c as u32 <= 0x39
}

/// The number that the digit `c` stands for.
pub open spec fn digit_value(c: char) -> nat
    recommends
        is_digit(c),
{
    (c as u32 - 0x30) as nat
}

/// The digit that stands for `d`.
pub open spec fn digit_char(d: nat) -> char
    recommends
        d < 10,
{
    if d == 0 {
        '0'
    } else if d == 1 {
        '1'
    } else if d == 2 {
        '2'
    } else if d == 3 {
        '3'
    } else if d == 4 {
        '4'
    } else if d == 5 {
        '5'
    } else if d == 6 {
        '6'
    } else if d == 7 {
        '7'
    } else if d == 8 {
        '8'
    } else {
        '9'
    }
}

/// Whether `s` holds digits only.
pub open spec fn all_digits(s: Seq<char>) -> bool {
    forall|i: int| 0 <= i < s.len() ==> is_digit(#[trigger] s[i])
}

/// The number written by the digits `s`, most significant digit first.
pub open spec fn decimal_value(s: Seq<char>) -> nat
    decreases s.len(),
{
    if s.len() == 0 {
        0
    } else {
        10 * decimal_value(s.drop_last()) + digit_value(s.last())
    }
}

/// The shortest decimal writing of `n`.
pub open spec fn decimal_text(n: nat) -> Seq<char>
    decreases n,
{
    if n < 10 {
        seq![digit_char(n)]
    } else {
        decimal_text(n / 10).push(digit_char(n % 10))
    }
}

/// `s` without a leading `+`.
pub open spec fn unsigned_digits(s: Seq<char>) -> Seq<char> {
    if s.len() > 0 && s[0] == '+' {
        s.drop_first()
    } else {
        s
    }
}

/// Whether `s` writes a non-negative integer: an optional `+`, then one or
/// more digits and nothing else.
pub open spec fn is_unsigned(s: Seq<char>) -> bool {
    unsigned_digits(s).len() > 0 && all_digits(unsigned_digits(s))
}

/// The number that `s` writes, where `s` writes a non-negative integer.
pub open spec fn unsigned_value(s: Seq<char>) -> nat {
    decimal_value(unsigned_digits(s))
}

/// Whether `s` writes a non-negative integer that a `usize` can hold.
pub open spec fn is_index(s: Seq<char>) -> bool {
    is_unsigned(s) && unsigned_value(s) <= usize::MAX
}

/// A prefix of a digit string writes no greater a number than the whole.
pub proof fn lemma_decimal_value_prefix(s: Seq<char>, k: int)
    requires
        0 <= k <= s.len(),
    ensures
        decimal_value(s.take(k)) <= decimal_value(s),
    decreases s.len() - k,
{
    if k == s.len() {
        assert(s.take(k) =~= s);
    } else {
        lemma_decimal_value_prefix(s.drop_last(), k);
        assert(s.drop_last().take(k) =~= s.take(k));
    }
}

/// Reading back what `decimal_text` wrote gives the number again.
pub proof fn lemma_decimal_text_value(n: nat)
    ensures
        decimal_text(n).len() > 0,
        all_digits(decimal_text(n)),
        decimal_value(decimal_text(n)) == n,
        is_unsigned(decimal_text(n)),
        unsigned_value(decimal_text(n)) == n,
        is_word(decimal_text(n)),
    decreases n,
{
    let t = decimal_text(n);
    if n < 10 {
        assert(t.drop_last() =~= Seq::<char>::empty());
        assert(decimal_value(t.drop_last()) == 0);
    } else {
        lemma_decimal_text_value(n / 10);
        assert(t.drop_last() =~= decimal_text(n / 10));
    }
    assert(t[0] != '+');
    lemma_digits_are_a_word(t);
}

/// Digits are not white space.
pub proof fn lemma_digits_are_a_word(s: Seq<char>)
    requires
        s.len() > 0,
        all_digits(s),
    ensures
        is_word(s),
{
    assert forall|i: int| 0 <= i < s.len() implies !is_space(#[trigger] s[i]) by {
        assert(is_digit(s[i]));
    }
}

pub(crate) fn is_digit_char(c: char) -> (b: bool)
    ensures
        b == is_digit(c),
{
    let n: u32 = c as u32;
    0x30 <= n && n <= 0x39
}

/// Reads `tok` as a `usize`, as `str::parse::<usize>` does: `None` when `tok`
/// is not an optional `+` followed by digits only, or when the number is
/// too large.
pub fn parse_usize(tok: &str) -> (r: Option<usize>)
    ensures
        r == if is_index(tok@) {
            Some(unsigned_value(tok@) as usize)
        } else {
            None
        },
{
    let chars = chars_of(tok);
    let start: usize = if chars.len() > 0 && chars[0] == '+' {
        1
    } else {
        0
    };
    if start == chars.len() {
        return None;
    }
    let ghost digits = unsigned_digits(tok@);
    assert(digits =~= chars@.skip(start as int));
    let mut acc: usize = 0;
    let mut i: usize = start;
    assert(digits.take(0) =~= Seq::<char>::empty());
    while i < chars.len()
        invariant
            chars@ == tok@,
            digits == unsigned_digits(tok@),
            digits == chars@.skip(start as int),
            start <= i <= chars.len(),
            all_digits(digits.take(i - start)),
            acc == decimal_value(digits.take(i - start)),
        decreases chars.len() - i,
    {
        let c = chars[i];
        let ghost k = i - start;
        assert(digits[k] == c);
        if !is_digit_char(c) {
            return None;
        }
        let d: usize = (c as u32 - 0x30) as usize;
        proof {
            assert(digits.take(k + 1).drop_last() =~= digits.take(k));
            assert(digits.take(k + 1).last() == c);
            assert(decimal_value(digits.take(k + 1)) == 10 * acc + d);
            assert forall|j: int| 0 <= j < k + 1 implies is_digit(
                #[trigger] digits.take(k + 1)[j],
            ) by {
                if j < k {
                    assert(digits.take(k)[j] == digits.take(k + 1)[j]);
                }
            }
        }
        if acc > (usize::MAX - d) / 10 {
            proof {
                if all_digits(digits) {
                    lemma_decimal_value_prefix(digits, k + 1);
                }
            }
            return None;
        }
        acc = acc * 10 + d;
        i += 1;
    }
    assert(digits.take(i - start) =~= digits);
    Some(acc)
}

/// Number of digits at the start of `s`.
pub open spec fn digit_run(s: Seq<char>) -> nat
    decreases s.len(),
{
    if s.len() == 0 || !is_digit(s[0]) {
        0
    } else {
        1 + digit_run(s.drop_first())
    }
}

/// Whether `c` is `+` or `-`.
pub open spec fn is_sign(c: char) -> bool {
    c == '+' || c == '-'
}

/// `s` without a leading `+` or `-`.
pub open spec fn strip_sign(s: Seq<char>) -> Seq<char> {
    if s.len() > 0 && is_sign(s[0]) {
        s.drop_first()
    } else {
        s
    }
}

/// What follows the `e` of an exponent: an optional sign, then one or more
/// digits.
pub open spec fn is_exponent(s: Seq<char>) -> bool {
    strip_sign(s).len() > 0 && all_digits(strip_sign(s))
}

/// Nothing, or an `e` or `E` and an exponent.
pub open spec fn is_exponent_part(s: Seq<char>) -> bool {
    s.len() == 0 || ((s[0] == 'e' || s[0] == 'E') && is_exponent(s.skip(1)))
}

/// Whether `s` writes a number in decimal notation: digits, optionally a
/// point and more digits, with at least one digit before or after the point,
/// then optionally an exponent.
pub open spec fn is_decimal(s: Seq<char>) -> bool {
    let whole = digit_run(s) as int;
    let rest = s.skip(whole);
    if rest.len() > 0 && rest[0] == '.' {
        let fraction = digit_run(rest.skip(1)) as int;
        whole + fraction >= 1 && is_exponent_part(rest.skip(1 + fraction))
    } else {
        whole >= 1 && is_exponent_part(rest)
    }
}

/// Whether `s` names an infinity or a value that is not a number.
pub open spec fn is_special(s: Seq<char>) -> bool {
    eq_ignoring_case(s, "inf"@) || eq_ignoring_case(s, "infinity"@) || eq_ignoring_case(s, "nan"@)
}

/// Whether `s` is a text that `str::parse` accepts as a floating-point
/// number: an optional sign, then a special value or a decimal number.
pub open spec fn is_float(s: Seq<char>) -> bool {
    is_special(strip_sign(s)) || is_decimal(strip_sign(s))
}

/// Whether `s` writes a number in decimal notation with an optional sign
/// before it. These are the texts of floating-point numbers but for those
/// of the infinities and of the values that are no numbers.
pub open spec fn is_finite_number(s: Seq<char>) -> bool {
    is_decimal(strip_sign(s))
}

/// The leading digits of `s` are digits, and what follows them is not.
pub proof fn lemma_digit_run(s: Seq<char>)
    ensures
        digit_run(s) <= s.len(),
        forall|i: int| 0 <= i < digit_run(s) ==> is_digit(#[trigger] s[i]),
        digit_run(s) < s.len() ==> !is_digit(s[digit_run(s) as int]),
        all_digits(s) <==> digit_run(s) == s.len(),
    decreases s.len(),
{
    if s.len() > 0 && is_digit(s[0]) {
        let t = s.drop_first();
        lemma_digit_run(t);
        assert forall|i: int| 0 <= i < digit_run(s) implies is_digit(#[trigger] s[i]) by {
            if i > 0 {
                assert(s[i] == t[i - 1]);
            }
        }
        if digit_run(s) < s.len() {
            assert(s[digit_run(s) as int] == t[digit_run(t) as int]);
        }
        if all_digits(s) {
            assert forall|i: int| 0 <= i < t.len() implies is_digit(#[trigger] t[i]) by {
                assert(t[i] == s[i + 1]);
            }
        }
    }
}

/// A character that is a letter once its case is ignored is not white space.
proof fn lemma_letter_is_not_space(c: char)
    requires
        0x61 <= lower_code(c) <= 0x7a,
    ensures
        !is_space(c),
{
}

/// A text that spells `word`, whatever the case, holds no white space where
/// `word` is made of small letters.
proof fn lemma_spelling_has_no_space(s: Seq<char>, word: Seq<char>)
    requires
        eq_ignoring_case(s, word),
        forall|i: int| 0 <= i < word.len() ==> 0x61 <= #[trigger] word[i] as u32 <= 0x7a,
    ensures
        forall|i: int| 0 <= i < s.len() ==> !is_space(#[trigger] s[i]),
{
    assert forall|i: int| 0 <= i < s.len() implies !is_space(#[trigger] s[i]) by {
        assert(0x61 <= word[i] as u32 <= 0x7a);
        assert(lower_code(s[i]) == lower_code(word[i]));
        lemma_letter_is_not_space(s[i]);
    }
}

/// The name of a special value is not empty and holds no white space.
proof fn lemma_special_is_word(s: Seq<char>)
    requires
        is_special(s),
    ensures
        is_word(s),
{
    reveal_strlit("inf");
    reveal_strlit("infinity");
    reveal_strlit("nan");
    if eq_ignoring_case(s, "inf"@) {
        lemma_spelling_has_no_space(s, "inf"@);
    } else if eq_ignoring_case(s, "infinity"@) {
        lemma_spelling_has_no_space(s, "infinity"@);
    } else {
        lemma_spelling_has_no_space(s, "nan"@);
    }
}

/// An exponent part holds no white space.
proof fn lemma_exponent_part_has_no_space(s: Seq<char>)
    requires
        is_exponent_part(s),
    ensures
        forall|i: int| 0 <= i < s.len() ==> !is_space(#[trigger] s[i]),
{
    if s.len() > 0 {
        let e = s.skip(1);
        let d = strip_sign(e);
        assert forall|i: int| 0 <= i < s.len() implies !is_space(#[trigger] s[i]) by {
            if i >= 1 {
                assert(s[i] == e[i - 1]);
                if d.len() == e.len() {
                    assert(is_digit(d[i - 1]));
                } else if i >= 2 {
                    assert(e[i - 1] == d[i - 2]);
                    assert(is_digit(d[i - 2]));
                }
            }
        }
    }
}

/// A decimal number is not empty and holds no white space.
proof fn lemma_decimal_is_word(s: Seq<char>)
    requires
        is_decimal(s),
    ensures
        is_word(s),
{
    let whole = digit_run(s) as int;
    let rest = s.skip(whole);
    lemma_digit_run(s);
    if rest.len() > 0 && rest[0] == '.' {
        let after = rest.skip(1);
        let fraction = digit_run(after) as int;
        let tail = rest.skip(1 + fraction);
        lemma_digit_run(after);
        lemma_exponent_part_has_no_space(tail);
        assert forall|i: int| 0 <= i < s.len() implies !is_space(#[trigger] s[i]) by {
            if i < whole {
                assert(is_digit(s[i]));
            } else if i == whole {
                assert(s[i] == rest[0]);
            } else if i < whole + 1 + fraction {
                assert(s[i] == after[i - whole - 1]);
                assert(is_digit(after[i - whole - 1]));
            } else {
                assert(s[i] == tail[i - whole - 1 - fraction]);
            }
        }
    } else {
        lemma_exponent_part_has_no_space(rest);
        assert forall|i: int| 0 <= i < s.len() implies !is_space(#[trigger] s[i]) by {
            if i < whole {
                assert(is_digit(s[i]));
            } else {
                assert(s[i] == rest[i - whole]);
            }
        }
    }
}

/// The text of a floating-point number is a word.
pub proof fn lemma_float_is_word(s: Seq<char>)
    requires
        is_float(s),
    ensures
        is_word(s),
{
    let body = strip_sign(s);
    if is_special(body) {
        lemma_special_is_word(body);
    } else {
        lemma_decimal_is_word(body);
    }
    assert forall|i: int| 0 <= i < s.len() implies !is_space(#[trigger] s[i]) by {
        if body.len() == s.len() {
        } else if i >= 1 {
            assert(s[i] == body[i - 1]);
        }
    }
}

fn is_sign_char(c: char) -> (b: bool)
    ensures
        b == is_sign(c),
{
    c == '+' || c == '-'
}

/// Index of the first character at or after `from` that is not a digit, or
/// the length of `chars`.
fn digits_end(chars: &Vec<char>, from: usize) -> (to: usize)
    requires
        from <= chars.len(),
    ensures
        from <= to <= chars.len(),
        to - from == digit_run(chars@.skip(from as int)),
{
    let mut j: usize = from;
    while j < chars.len() && is_digit_char(chars[j])
        invariant
            from <= j <= chars.len(),
            digit_run(chars@.skip(from as int)) == (j - from) + digit_run(chars@.skip(j as int)),
        decreases chars.len() - j,
    {
        assert(chars@.skip(j as int).drop_first() =~= chars@.skip(j + 1));
        j += 1;
    }
    j
}

/// Whether the characters from `from` on are nothing, or an `e` and an
/// exponent.
fn is_exponent_part_at(chars: &Vec<char>, from: usize) -> (b: bool)
    requires
        from <= chars.len(),
    ensures
        b == is_exponent_part(chars@.skip(from as int)),
{
    let n = chars.len();
    if from == n {
        return true;
    }
    let ghost tail = chars@.skip(from as int);
    assert(tail[0] == chars@[from as int]);
    if chars[from] != 'e' && chars[from] != 'E' {
        return false;
    }
    let ghost exponent = tail.skip(1);
    assert(exponent =~= chars@.skip(from + 1));
    let mut q: usize = from + 1;
    if q < n && is_sign_char(chars[q]) {
        q = q + 1;
    }
    assert(strip_sign(exponent) =~= chars@.skip(q as int));
    if q == n {
        return false;
    }
    let exponent_end = digits_end(chars, q);
    proof {
        lemma_digit_run(chars@.skip(q as int));
    }
    exponent_end == n
}

/// Whether the characters from `from` on write a decimal number.
fn is_decimal_at(chars: &Vec<char>, from: usize) -> (b: bool)
    requires
        from <= chars.len(),
    ensures
        b == is_decimal(chars@.skip(from as int)),
{
    let ghost body = chars@.skip(from as int);
    let whole_end = digits_end(chars, from);
    let ghost rest = body.skip(whole_end - from);
    assert(rest =~= chars@.skip(whole_end as int));
    if whole_end < chars.len() && chars[whole_end] == '.' {
        let fraction_end = digits_end(chars, whole_end + 1);
        assert(rest.skip(1) =~= chars@.skip(whole_end + 1));
        assert(rest.skip(1 + (fraction_end - (whole_end + 1))) =~= chars@.skip(
            fraction_end as int,
        ));
        (whole_end - from) + (fraction_end - (whole_end + 1)) >= 1 && is_exponent_part_at(
            chars,
            fraction_end,
        )
    } else {
        whole_end - from >= 1 && is_exponent_part_at(chars, whole_end)
    }
}

/// Whether `str::parse` would read `tok` as a floating-point number.
pub fn is_float_token(tok: &str) -> (b: bool)
    ensures
        b == is_float(tok@),
{
    let chars = chars_of(tok);
    let start: usize = if chars.len() > 0 && is_sign_char(chars[0]) {
        1
    } else {
        0
    };
    assert(strip_sign(tok@) =~= chars@.skip(start as int));
    spells(&chars, start, "inf") || spells(&chars, start, "infinity") || spells(
        &chars,
        start,
        "nan",
    ) || is_decimal_at(&chars, start)
}

/// Whether `tok` writes a number in decimal notation, with or without a
/// sign.
pub fn is_finite_token(tok: &str) -> (b: bool)
    ensures
        b == is_finite_number(tok@),
        b ==> is_float(tok@),
{
    let chars = chars_of(tok);
    let start: usize = if chars.len() > 0 && is_sign_char(chars[0]) {
        1
    } else {
        0
    };
    assert(strip_sign(tok@) =~= chars@.skip(start as int));
    is_decimal_at(&chars, start)
}

/// The one-character text of the digit `d`.
fn digit_str(d: u8) -> (r: &'static str)
    requires
        d < 10,
    ensures
        r@ == seq![digit_char(d as nat)],
{
    proof {
        reveal_strlit("0");
        reveal_strlit("1");
        reveal_strlit("2");
        reveal_strlit("3");
        reveal_strlit("4");
        reveal_strlit("5");
        reveal_strlit("6");
        reveal_strlit("7");
        reveal_strlit("8");
        reveal_strlit("9");
    }
    let r = match d {
        0 => "0",
        1 => "1",
        2 => "2",
        3 => "3",
        4 => "4",
        5 => "5",
        6 => "6",
        7 => "7",
        8 => "8",
        _ => "9",
    };
    assert(r@ =~= seq![digit_char(d as nat)]);
    r
}

/// Appends the shortest decimal writing of `n` to `out`.
pub fn push_decimal(out: &mut String, n: u128)
    ensures
        final(out)@ == old(out)@ + decimal_text(n as nat),
    decreases n,
{
    if n >= 10 {
        push_decimal(out, n / 10);
    }
    out.append(digit_str((n % 10) as u8));
}

} // verus!
