//! Reading the literals of a schema: decimal numbers and truth values, and
//! the test for what a floating-point literal looks like.
use vstd::prelude::*;
use crate::text::chars_of;
use crate::text::same_text;

verus! {

/// Whether `c` is one of `0` to `9`.
#[verifier::allow_in_spec]
pub fn is_digit(c: char) -> bool
    returns
        '0' <= c && c <= '9',
{
    '0' <= c && c <= '9'
}

/// The number that a digit stands for.
pub open spec fn digit_value(c: char) -> nat {
    (c as u32 - '0' as u32) as nat
}

/// Whether every character of `s` is a digit.
pub open spec fn all_digits(s: Seq<char>) -> bool {
    forall|i: int| 0 <= i < s.len() ==> is_digit(#[trigger] s[i])
}

/// The number that a sequence of digits writes in base ten.
pub open spec fn decimal_value(s: Seq<char>) -> nat
    decreases s.len(),
{
    if s.len() == 0 {
        0
    } else {
        10 * decimal_value(s.drop_last()) + digit_value(s.last())
    }
}

/// Whether `s` begins with the given sign.
pub open spec fn has_sign(s: Seq<char>, sign: char) -> bool {
    s.len() > 0 && s[0] == sign
}

/// The number that `s` writes, if it writes one that is at most `max`: an
/// optional `+`, then one digit or more, and nothing else.
pub open spec fn unsigned_value(s: Seq<char>, max: nat) -> Option<nat> {
    let digits = if has_sign(s, '+') {
        s.skip(1)
    } else {
        s
    };
    if digits.len() > 0 && all_digits(digits) && decimal_value(digits) <= max {
        Some(decimal_value(digits))
    } else {
        None
    }
}

/// The number that `s` writes, if it writes one from `min` to `max`: an
/// optional `+` or `-`, then one digit or more, and nothing else.
pub open spec fn signed_value(s: Seq<char>, min: int, max: int) -> Option<int> {
    let negative = has_sign(s, '-');
    let digits = if negative || has_sign(s, '+') {
        s.skip(1)
    } else {
        s
    };
    let value = if negative {
        -decimal_value(digits)
    } else {
        decimal_value(digits) as int
    };
    if digits.len() > 0 && all_digits(digits) && min <= value <= max {
        Some(value)
    } else {
        None
    }
}

/// What `text` gives as a `usize`.
pub open spec fn usize_of(text: Seq<char>) -> Option<usize> {
    match unsigned_value(text, usize::MAX as nat) {
        Some(value) => Some(value as usize),
        None => None,
    }
}

/// What `text` gives as a `u128`.
pub open spec fn u128_of(text: Seq<char>) -> Option<u128> {
    match unsigned_value(text, u128::MAX as nat) {
        Some(value) => Some(value as u128),
        None => None,
    }
}

/// What `text` gives as an `i128`.
pub open spec fn i128_of(text: Seq<char>) -> Option<i128> {
    match signed_value(text, i128::MIN as int, i128::MAX as int) {
        Some(value) => Some(value as i128),
        None => None,
    }
}

/// What `text` gives as a truth value: `true` and `false` are the only two
/// texts that give one.
pub open spec fn bool_of(text: Seq<char>) -> Option<bool> {
    if text == seq!['t', 'r', 'u', 'e'] {
        Some(true)
    } else if text == seq!['f', 'a', 'l', 's', 'e'] {
        Some(false)
    } else {
        None
    }
}

/// A number grows with each digit written behind it.
pub proof fn lemma_decimal_value_grows(s: Seq<char>, n: int)
    requires
        0 <= n <= s.len(),
    ensures
        decimal_value(s.take(n)) <= decimal_value(s),
    decreases s.len() - n,
{
    if n < s.len() {
        lemma_decimal_value_grows(s, n + 1);
        assert(s.take(n + 1).drop_last() =~= s.take(n));
    } else {
        assert(s.take(n) =~= s);
    }
}

/// The number that the digits `chars[from..]` write, where they are digits,
/// at least one, and the number fits.
fn parse_digits(chars: &Vec<char>, from: usize) -> (value: Option<u128>)
    requires
        from <= chars.len(),
    ensures
        value == (if chars@.skip(from as int).len() > 0 && all_digits(chars@.skip(from as int))
            && decimal_value(chars@.skip(from as int)) <= u128::MAX {
            Some(decimal_value(chars@.skip(from as int)) as u128)
        } else {
            None
        }),
{
    let ghost digits = chars@.skip(from as int);
    if from == chars.len() {
        return None;
    }
    let mut value: u128 = 0;
    let mut i: usize = from;
    while i < chars.len()
        invariant
            from <= i <= chars.len(),
            digits == chars@.skip(from as int),
            all_digits(digits.take(i - from)),
            value == decimal_value(digits.take(i - from)),
        decreases chars.len() - i,
    {
        let c = chars[i];
        let ghost next = digits.take(i - from + 1);
        proof {
            assert(next.drop_last() =~= digits.take(i - from));
            lemma_decimal_value_grows(digits, i - from + 1);
        }
        if !is_digit(c) {
            return None;
        }
        let digit: u128 = (c as u32 - '0' as u32) as u128;
        let shifted = match value.checked_mul(10) {
            Some(shifted) => shifted,
            None => {
                return None;
            },
        };
        value = match shifted.checked_add(digit) {
            Some(sum) => sum,
            None => {
                return None;
            },
        };
        i += 1;
    }
    proof {
        assert(digits.take(i - from) =~= digits);
    }
    Some(value)
}

/// Reads a `usize` written in base ten.
pub fn parse_usize(text: &str) -> (value: Option<usize>)
    ensures
        value == usize_of(text@),
{
    let chars = chars_of(text);
    let from: usize = if chars.len() > 0 && chars[0] == '+' {
        1
    } else {
        0
    };
    proof {
        assert(chars@.skip(0) =~= chars@);
    }
    match parse_digits(&chars, from) {
        Some(value) => if value <= usize::MAX as u128 {
            Some(value as usize)
        } else {
            None
        },
        None => None,
    }
}

/// Reads a `u128` written in base ten.
pub fn parse_u128(text: &str) -> (value: Option<u128>)
    ensures
        value == u128_of(text@),
{
    let chars = chars_of(text);
    let from: usize = if chars.len() > 0 && chars[0] == '+' {
        1
    } else {
        0
    };
    proof {
        assert(chars@.skip(0) =~= chars@);
    }
    parse_digits(&chars, from)
}

/// Reads an `i128` written in base ten.
pub fn parse_i128(text: &str) -> (value: Option<i128>)
    ensures
        value == i128_of(text@),
{
    let chars = chars_of(text);
    let negative = chars.len() > 0 && chars[0] == '-';
    let from: usize = if chars.len() > 0 && (chars[0] == '-' || chars[0] == '+') {
        1
    } else {
        0
    };
    proof {
        assert(chars@.skip(0) =~= chars@);
    }
    match parse_digits(&chars, from) {
        Some(size) => if negative {
            if size <= i128::MAX as u128 {
                Some(-(size as i128))
            } else if size == i128::MAX as u128 + 1 {
                Some(i128::MIN)
            } else {
                None
            }
        } else {
            if size <= i128::MAX as u128 {
                Some(size as i128)
            } else {
                None
            }
        },
        None => None,
    }
}

/// Reads a truth value.
pub fn parse_bool(text: &str) -> (value: Option<bool>)
    ensures
        value == bool_of(text@),
{
    proof {
        reveal_strlit("true");
        reveal_strlit("false");
        assert("true"@ =~= seq!['t', 'r', 'u', 'e']);
        assert("false"@ =~= seq!['f', 'a', 'l', 's', 'e']);
    }
    if same_text(text, "true") {
        Some(true)
    } else if same_text(text, "false") {
        Some(false)
    } else {
        None
    }
}

/// Whether `c` is the small letter `letter` or its capital.
#[verifier::allow_in_spec]
pub fn is_letter(c: char, letter: char) -> bool
    returns
        c == letter || ('A' <= c && c <= 'Z' && c as u32 + 32 == letter as u32),
{
    c == letter || ('A' <= c && c <= 'Z' && c as u32 + 32 == letter as u32)
}

/// How many digits stand in a row from `from` on.
pub open spec fn digit_run(s: Seq<char>, from: int) -> nat
    decreases s.len() - from,
{
    if 0 <= from < s.len() && is_digit(s[from]) {
        1 + digit_run(s, from + 1)
    } else {
        0
    }
}

/// Whether `s[from..]` is one digit or more, and nothing else.
pub open spec fn digits_to_end(s: Seq<char>, from: int) -> bool {
    from < s.len() && from + digit_run(s, from) == s.len()
}

/// Whether `s[from..]` spells `word`, in small letters or capitals.
pub open spec fn spells(s: Seq<char>, from: int, word: Seq<char>) -> bool {
    &&& s.len() - from == word.len()
    &&& forall|i: int| 0 <= i < word.len() ==> is_letter(#[trigger] s[from + i], word[i])
}

/// Where the digits of an exponent begin whose `e` stands at `from`: behind
/// the `e`, and behind the sign where there is one.
pub open spec fn exponent_digits(s: Seq<char>, from: int) -> int {
    if from + 1 < s.len() && (s[from + 1] == '+' || s[from + 1] == '-') {
        from + 2
    } else {
        from + 1
    }
}

/// Whether `s[from..]` is an exponent: `e` or `E`, an optional sign, then
/// one digit or more, and nothing else.
pub open spec fn is_exponent(s: Seq<char>, from: int) -> bool {
    &&& 0 <= from < s.len()
    &&& is_letter(s[from], 'e')
    &&& digits_to_end(s, exponent_digits(s, from))
}

/// Where the mantissa ends that begins at `from`: behind its digits, and
/// behind the point and the digits that follow it where there is a point.
pub open spec fn mantissa_end(s: Seq<char>, from: int) -> int {
    let point = from + digit_run(s, from);
    if 0 <= point < s.len() && s[point] == '.' {
        point + 1 + digit_run(s, point + 1)
    } else {
        point
    }
}

/// How many digits the mantissa holds that begins at `from`.
pub open spec fn mantissa_digits(s: Seq<char>, from: int) -> nat {
    let point = from + digit_run(s, from);
    if 0 <= point < s.len() && s[point] == '.' {
        digit_run(s, from) + digit_run(s, point + 1)
    } else {
        digit_run(s, from)
    }
}

/// Whether `s[from..]` is a decimal number: digits with at most one point
/// among them, before it, or behind it, at least one digit in all, and then
/// an exponent or nothing.
pub open spec fn is_number(s: Seq<char>, from: int) -> bool {
    &&& mantissa_digits(s, from) > 0
    &&& (mantissa_end(s, from) == s.len() || is_exponent(s, mantissa_end(s, from)))
}

/// Where the text begins behind its sign, if it has one.
pub open spec fn behind_sign(s: Seq<char>) -> int {
    if has_sign(s, '+') || has_sign(s, '-') {
        1
    } else {
        0
    }
}

/// Whether `s` is written as a floating-point literal: an optional sign,
/// then a decimal number, or `inf`, `infinity` or `nan` in small letters or
/// capitals.
pub open spec fn is_float_literal(s: Seq<char>) -> bool {
    ||| spells(s, behind_sign(s), "inf"@)
    ||| spells(s, behind_sign(s), "infinity"@)
    ||| spells(s, behind_sign(s), "nan"@)
    ||| is_number(s, behind_sign(s))
}

/// Where the digits end that begin at `from`.
fn digits_end(chars: &Vec<char>, from: usize) -> (end: usize)
    requires
        from <= chars.len(),
    ensures
        end == from + digit_run(chars@, from as int),
        from <= end <= chars.len(),
{
    let mut end: usize = from;
    while end < chars.len() && is_digit(chars[end])
        invariant
            from <= end <= chars.len(),
            from + digit_run(chars@, from as int) == end + digit_run(chars@, end as int),
        decreases chars.len() - end,
    {
        end += 1;
    }
    end
}

/// Whether `chars[from..]` spells `word`.
fn spells_word(chars: &Vec<char>, from: usize, word: &str) -> (yes: bool)
    requires
        from <= chars.len(),
    ensures
        yes == spells(chars@, from as int, word@),
{
    let letters = chars_of(word);
    if chars.len() - from != letters.len() {
        return false;
    }
    let mut i: usize = 0;
    while i < letters.len()
        invariant
            from <= chars.len(),
            chars.len() - from == letters.len(),
            letters@ == word@,
            i <= letters.len(),
            forall|k: int| 0 <= k < i ==> is_letter(#[trigger] chars@[from + k], letters@[k]),
        decreases letters.len() - i,
    {
        if !is_letter(chars[from + i], letters[i]) {
            return false;
        }
        i += 1;
    }
    true
}

/// Whether `text` spells `word`, in small letters or capitals.
pub fn spells_text(text: &str, word: &str) -> (yes: bool)
    ensures
        yes == spells(text@, 0, word@),
{
    let chars = chars_of(text);
    spells_word(&chars, 0, word)
}

/// Whether `chars[from..]` is an exponent.
fn exponent_at(chars: &Vec<char>, from: usize) -> (yes: bool)
    requires
        from < chars.len(),
    ensures
        yes == is_exponent(chars@, from as int),
{
    if !is_letter(chars[from], 'e') {
        return false;
    }
    let digits: usize = if from + 1 < chars.len() && (chars[from + 1] == '+' || chars[from + 1]
        == '-') {
        from + 2
    } else {
        from + 1
    };
    digits < chars.len() && digits_end(chars, digits) == chars.len()
}

/// Whether `chars[from..]` is a decimal number.
fn number_at(chars: &Vec<char>, from: usize) -> (yes: bool)
    requires
        from <= chars.len(),
    ensures
        yes == is_number(chars@, from as int),
{
    let point = digits_end(chars, from);
    let mut end = point;
    let mut digits = point - from;
    if point < chars.len() && chars[point] == '.' {
        end = digits_end(chars, point + 1);
        digits = digits + (end - (point + 1));
    }
    digits > 0 && (end == chars.len() || exponent_at(chars, end))
}

/// Whether `text` is written as a floating-point literal.
pub fn is_float_text(text: &str) -> (yes: bool)
    ensures
        yes == is_float_literal(text@),
{
    let chars = chars_of(text);
    let from: usize = if chars.len() > 0 && (chars[0] == '+' || chars[0] == '-') {
        1
    } else {
        0
    };
    spells_word(&chars, from, "inf") || spells_word(&chars, from, "infinity") || spells_word(
        &chars,
        from,
        "nan",
    ) || number_at(&chars, from)
}

/// A text that is written as a floating-point literal. The library checks
/// the writing and keeps the text as it stands.
#[derive(Debug)]
pub struct FloatLiteral {
    text: String,
}

impl FloatLiteral {
    #[verifier::type_invariant]
    spec fn well_written(self) -> bool {
        is_float_literal(self.text@)
    }

    /// The literal for `text`, if `text` is written as one.
    pub fn parse(text: &str) -> (literal: Option<FloatLiteral>)
        ensures
            literal is Some == is_float_literal(text@),
            literal matches Some(l) ==> l@ == text@,
    {
        if is_float_text(text) {
            Some(FloatLiteral { text: text.to_owned() })
        } else {
            None
        }
    }

    /// The literal as it was written.
    pub fn as_str(&self) -> (text: &str)
        ensures
            text@ == self@,
            is_float_literal(text@),
    {
        proof {
            use_type_invariant(self);
        }
        self.text.as_str()
    }
}

impl View for FloatLiteral {
    type V = Seq<char>;

    closed spec fn view(&self) -> Seq<char> {
        self.text@
    }
}

impl DeepView for FloatLiteral {
    type V = Seq<char>;

    open spec fn deep_view(&self) -> Seq<char> {
        self@
    }
}

} // verus!
