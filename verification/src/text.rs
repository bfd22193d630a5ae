//! ASCII text: case-insensitive comparison, decimal numerals and UTF-8.

use vstd::prelude::*;
use vstd::string::*;
use vstd::utf8::*;

verus! {

/// The byte `b`, an upper-case ASCII letter turned into its lower-case form.
pub open spec fn ascii_lower(b: u8) -> u8 {
    if 0x41 <= b <= 0x5a {
        (b + 0x20) as u8
    } else {
        b
    }
}

/// `a` and `b` are the same text but for the case of ASCII letters.
pub open spec fn same_but_case(a: Seq<u8>, b: Seq<u8>) -> bool {
    a.map_values(|c: u8| ascii_lower(c)) == b.map_values(|c: u8| ascii_lower(c))
}

fn to_ascii_lower(b: u8) -> (r: u8)
    ensures
        r == ascii_lower(b),
{
    if 0x41 <= b && b <= 0x5a {
        b + 0x20
    } else {
        b
    }
}

/// Whether `a` and `b` are the same text but for the case of ASCII letters.
pub fn eq_ignore_ascii_case(a: &[u8], b: &[u8]) -> (r: bool)
    ensures
        r == same_but_case(a@, b@),
{
    let ghost x = a@.map_values(|c: u8| ascii_lower(c));
    let ghost y = b@.map_values(|c: u8| ascii_lower(c));
    if a.len() != b.len() {
        assert(x.len() != y.len());
        return false;
    }
    let mut i: usize = 0;
    while i < a.len()
        invariant
            i <= a@.len() == b@.len(),
            x == a@.map_values(|c: u8| ascii_lower(c)),
            y == b@.map_values(|c: u8| ascii_lower(c)),
            forall|j: int| 0 <= j < i ==> x[j] == y[j],
        decreases a@.len() - i,
    {
        if to_ascii_lower(a[i]) != to_ascii_lower(b[i]) {
            assert(x[i as int] != y[i as int]);
            return false;
        }
        i = i + 1;
    }
    assert(x =~= y);
    true
}

/// Whether `a` and `b` hold the same bytes.
pub fn eq_bytes(a: &[u8], b: &[u8]) -> (r: bool)
    ensures
        r == (a@ == b@),
{
    if a.len() != b.len() {
        return false;
    }
    let mut i: usize = 0;
    while i < a.len()
        invariant
            i <= a@.len() == b@.len(),
            forall|j: int| 0 <= j < i ==> a@[j] == b@[j],
        decreases a@.len() - i,
    {
        if a[i] != b[i] {
            return false;
        }
        i = i + 1;
    }
    assert(a@ =~= b@);
    true
}

/// The number that `digits` write down, the most significant digit first.
pub open spec fn numeral(digits: Seq<nat>, radix: nat) -> nat
    decreases digits.len(),
{
    if digits.len() == 0 {
        0
    } else {
        numeral(digits.drop_last(), radix) * radix + digits.last()
    }
}

/// Numerals of one length with different digits stand for different numbers.
pub proof fn lemma_numeral_injective(a: Seq<nat>, b: Seq<nat>, radix: nat)
    requires
        a.len() == b.len(),
        forall|i: int| 0 <= i < a.len() ==> #[trigger] a[i] < radix,
        forall|i: int| 0 <= i < b.len() ==> #[trigger] b[i] < radix,
        numeral(a, radix) == numeral(b, radix),
    ensures
        a == b,
    decreases a.len(),
{
    if a.len() > 0 {
        let p = numeral(a.drop_last(), radix);
        let q = numeral(b.drop_last(), radix);
        assert(p == q && a.last() == b.last()) by (nonlinear_arith)
            requires
                p * radix + a.last() == q * radix + b.last(),
                a.last() < radix,
                b.last() < radix,
        ;
        lemma_numeral_injective(a.drop_last(), b.drop_last(), radix);
        assert(a =~= a.drop_last().push(a.last()));
        assert(b =~= b.drop_last().push(b.last()));
    }
}

/// The bytes of an ASCII text.
pub open spec fn ascii(chars: Seq<char>) -> Seq<u8> {
    chars.map_values(|c: char| c as u8)
}

/// The UTF-8 form of an ASCII text holds one byte for each character.
pub proof fn lemma_ascii_is_utf8(chars: Seq<char>)
    requires
        is_ascii_chars(chars),
    ensures
        encode_utf8(chars) == ascii(chars),
{
    is_ascii_chars_encode_utf8(chars);
    assert(encode_utf8(chars) =~= ascii(chars));
}

/// `b` is an ASCII decimal digit.
pub open spec fn is_digit(b: u8) -> bool {
    0x30 <= b <= 0x39
}

/// The number that the decimal digits `digits` write down.
pub open spec fn decimal_value(digits: Seq<u8>) -> nat {
    numeral(digits.map_values(|b: u8| (b - 0x30) as nat), 10)
}

/// How many decimal digits `text` starts with.
pub open spec fn leading_digits(text: Seq<u8>) -> nat
    decreases text.len(),
{
    if text.len() > 0 && is_digit(text[0]) {
        1 + leading_digits(text.drop_first())
    } else {
        0
    }
}

/// The number at the start of `text`, where it is at most `max`: an optional sign and
/// the decimal digits after it, whatever follows. A sign without digits counts as zero,
/// and a minus sign admits no other number.
pub open spec fn leading_number(text: Seq<u8>, max: nat) -> Option<nat> {
    let signed = text.len() > 0 && (text[0] == 0x2b || text[0] == 0x2d);
    let limit = if text.len() > 0 && text[0] == 0x2d {
        0
    } else {
        max
    };
    let rest = if signed {
        text.drop_first()
    } else {
        text
    };
    let value = decimal_value(rest.take(leading_digits(rest) as int));
    if (signed || leading_digits(rest) > 0) && value <= limit {
        Some(value)
    } else {
        None
    }
}

/// `atoi::atoi` at `u16`: the number at the start of the text, if it fits.
#[verifier::external_body]
pub(crate) fn atoi_u16(text: &[u8]) -> (r: Option<u16>)
    ensures
        r is Some <==> leading_number(text@, u16::MAX as nat) is Some,
        r matches Some(n) ==> leading_number(text@, u16::MAX as nat) == Some(n as nat),
{
    atoi::atoi::<u16>(text)
}

/// `atoi::atoi` at `u32`: the number at the start of the text, if it fits.
#[verifier::external_body]
pub(crate) fn atoi_u32(text: &[u8]) -> (r: Option<u32>)
    ensures
        r is Some <==> leading_number(text@, u32::MAX as nat) is Some,
        r matches Some(n) ==> leading_number(text@, u32::MAX as nat) == Some(n as nat),
{
    atoi::atoi::<u32>(text)
}

/// The text of the error that `std::str::from_utf8` gives on `bytes`.
pub uninterp spec fn utf8_error(bytes: Seq<u8>) -> Seq<char>;

/// `std::str::from_utf8`: the string of those bytes, if they are valid UTF-8; otherwise the
/// text of its error, which is named.
#[verifier::external_body]
pub(crate) fn utf8_text(bytes: &[u8]) -> (r: Result<&str, String>)
    ensures
        r is Ok <==> valid_utf8(bytes@),
        r matches Ok(s) ==> s.spec_bytes() == bytes@,
        r matches Err(text) ==> text@ == utf8_error(bytes@),
{
    std::str::from_utf8(bytes).map_err(|e| e.to_string())
}

/// The decimal digits of `n`, without leading zeros.
pub open spec fn decimal(n: nat) -> Seq<char>
    decreases n,
{
    if n < 10 {
        seq![(0x30 + n) as char]
    } else {
        decimal(n / 10).push((0x30 + n % 10) as char)
    }
}

/// The lower-case hexadecimal digit of value `n`.
pub open spec fn hex_char(n: int) -> char {
    if n < 10 {
        (0x30 + n) as char
    } else {
        (0x61 + n - 10) as char
    }
}

/// The lower-case hexadecimal digits of `n`, without leading zeros.
pub open spec fn hexadecimal(n: nat) -> Seq<char>
    decreases n,
{
    if n < 16 {
        seq![hex_char(n as int)]
    } else {
        hexadecimal(n / 16).push(hex_char((n % 16) as int))
    }
}

fn digit_text(n: u32) -> (r: &'static str)
    requires
        n < 10,
    ensures
        r@ == seq![(0x30 + n) as char],
{
    proof {
        reveal_strlit("0");
        reveal_strlit("1");
        reveal_strlit("2");
        reveal_strlit("3");
        reveal_strlit("4");
        reveal_strlit("5");
        reveal_strlit("6");
        reveal_strlit("7");
        reveal_strlit("8");
        reveal_strlit("9");
    }
    if n == 0 {
        "0"
    } else if n == 1 {
        "1"
    } else if n == 2 {
        "2"
    } else if n == 3 {
        "3"
    } else if n == 4 {
        "4"
    } else if n == 5 {
        "5"
    } else if n == 6 {
        "6"
    } else if n == 7 {
        "7"
    } else if n == 8 {
        "8"
    } else {
        "9"
    }
}

/// Writes `n` in decimal.
pub fn decimal_text(n: u32) -> (r: String)
    ensures
        r@ == decimal(n as nat),
    decreases n,
{
    let mut text = if n < 10 {
        String::new()
    } else {
        decimal_text(n / 10)
    };
    text.append(digit_text(n % 10));
    assert(text@ =~= decimal(n as nat));
    text
}

/// The bytes of a decimal numeral are decimal digits, and they write down the number.
pub proof fn lemma_decimal_bytes(n: nat)
    ensures
        is_ascii_chars(decimal(n)),
        decimal(n).len() > 0,
        encode_utf8(decimal(n)).len() == decimal(n).len(),
        forall|i: int| 0 <= i < decimal(n).len() ==> is_digit(#[trigger] encode_utf8(decimal(n))[i]),
        decimal_value(encode_utf8(decimal(n))) == n,
    decreases n,
{
    lemma_decimal_chars(n);
    is_ascii_chars_encode_utf8(decimal(n));
    let bytes = encode_utf8(decimal(n));
    assert forall|i: int| 0 <= i < decimal(n).len() implies is_digit(#[trigger] bytes[i]) by {
        assert(decimal(n)[i] as u8 == bytes[i]);
    }
    let digits = bytes.map_values(|b: u8| (b - 0x30) as nat);
    if n < 10 {
        assert(bytes[0] == decimal(n)[0] as u8);
        assert(digits.drop_last() =~= Seq::<nat>::empty());
        assert(numeral(digits.drop_last(), 10) == 0);
    } else {
        let m = n / 10;
        lemma_decimal_bytes(m);
        is_ascii_chars_encode_utf8(decimal(m));
        let last = decimal(n).len() - 1;
        assert(bytes[last] == decimal(n)[last] as u8);
        let head = encode_utf8(decimal(m)).map_values(|b: u8| (b - 0x30) as nat);
        assert(digits.drop_last() =~= head) by {
            assert forall|i: int| 0 <= i < last implies digits.drop_last()[i] == head[i] by {
                assert(decimal(n)[i] == decimal(m)[i]);
                assert(decimal(n)[i] as u8 == bytes[i]);
            }
        }
    }
}

proof fn lemma_decimal_chars(n: nat)
    ensures
        decimal(n).len() > 0,
        forall|i: int|
            0 <= i < decimal(n).len() ==> '0' <= #[trigger] decimal(n)[i] <= '9',
    decreases n,
{
    if n >= 10 {
        lemma_decimal_chars(n / 10);
    }
}

/// A number of 32 bits has at most ten decimal digits.
pub proof fn lemma_decimal_is_short(n: u32)
    ensures
        decimal(n as nat).len() <= 10,
{
    reveal_with_fuel(decimal, 10);
}

/// A text of decimal digits alone starts with that many digits.
pub proof fn lemma_all_digits(text: Seq<u8>)
    requires
        forall|i: int| 0 <= i < text.len() ==> is_digit(#[trigger] text[i]),
    ensures
        leading_digits(text) == text.len(),
    decreases text.len(),
{
    if text.len() > 0 {
        assert forall|i: int| 0 <= i < text.len() - 1 implies is_digit(
            #[trigger] text.drop_first()[i],
        ) by {
            assert(text.drop_first()[i] == text[i + 1]);
        }
        assert(is_digit(text[0]));
        lemma_all_digits(text.drop_first());
    }
}

/// A decimal numeral reads back as the number that it was written from.
pub proof fn law_decimal_reads_back(n: nat, max: nat)
    requires
        n <= max,
    ensures
        leading_number(encode_utf8(decimal(n)), max) == Some(n),
{
    let text = encode_utf8(decimal(n));
    lemma_decimal_bytes(n);
    lemma_all_digits(text);
    assert(is_digit(text[0]));
    assert(text.take(text.len() as int) =~= text);
}

/// Two texts are the same but for case exactly where they have the same length and differ, byte
/// by byte, at most as an upper-case letter and its lower-case form do.
pub proof fn law_case_differs_letter_by_letter(a: Seq<u8>, b: Seq<u8>)
    ensures
        same_but_case(a, b) <==> a.len() == b.len() && forall|i: int|
            0 <= i < a.len() ==> {
                ||| #[trigger] a[i] == b[i]
                ||| 0x41 <= a[i] <= 0x5a && b[i] == a[i] + 0x20
                ||| 0x41 <= b[i] <= 0x5a && a[i] == b[i] + 0x20
            },
{
    let x = a.map_values(|c: u8| ascii_lower(c));
    let y = b.map_values(|c: u8| ascii_lower(c));
    if same_but_case(a, b) {
        assert(x.len() == y.len());
        assert forall|i: int| 0 <= i < a.len() implies {
            ||| #[trigger] a[i] == b[i]
            ||| 0x41 <= a[i] <= 0x5a && b[i] == a[i] + 0x20
            ||| 0x41 <= b[i] <= 0x5a && a[i] == b[i] + 0x20
        } by {
            assert(x[i] == y[i]);
        }
    } else if a.len() == b.len() {
        assert(!(x =~= y));
        let i = choose|i: int| 0 <= i < a.len() && x[i] != y[i];
        assert(a[i] != b[i]);
    }
}

/// The bytes of an ASCII text are the codes of its characters.
pub proof fn law_ascii_is_character_by_character(chars: Seq<char>, i: int)
    requires
        0 <= i < chars.len(),
    ensures
        ascii(chars).len() == chars.len(),
        ascii(chars)[i] == chars[i] as u8,
{
}

/// A further digit multiplies the number by the radix and adds the digit.
pub proof fn law_numeral_grows_by_a_digit(digits: Seq<nat>, digit: nat, radix: nat)
    ensures
        numeral(Seq::empty(), radix) == 0,
        numeral(digits.push(digit), radix) == numeral(digits, radix) * radix + digit,
{
    assert(digits.push(digit).drop_last() =~= digits);
}

/// A further decimal digit multiplies the number by ten and adds the digit.
pub proof fn law_decimal_value_grows_by_a_digit(digits: Seq<u8>, digit: u8)
    requires
        0x30 <= digit <= 0x39,
    ensures
        decimal_value(Seq::empty()) == 0,
        decimal_value(digits.push(digit)) == 10 * decimal_value(digits) + (digit - 0x30),
{
    let value = |b: u8| (b - 0x30) as nat;
    assert(digits.push(digit).map_values(value).drop_last() =~= digits.map_values(value));
    assert(Seq::<u8>::empty().map_values(value) =~= Seq::<nat>::empty());
}

proof fn lemma_leading_digits(digits: Seq<u8>, rest: Seq<u8>)
    requires
        forall|i: int| 0 <= i < digits.len() ==> 0x30 <= #[trigger] digits[i] <= 0x39,
        rest.len() > 0 ==> !(0x30 <= rest[0] <= 0x39),
    ensures
        leading_digits(digits + rest) == digits.len(),
        (digits + rest).take(digits.len() as int) == digits,
    decreases digits.len(),
{
    let text = digits + rest;
    if digits.len() > 0 {
        let tail = digits.drop_first();
        assert forall|i: int| 0 <= i < tail.len() implies 0x30 <= #[trigger] tail[i] <= 0x39 by {
            assert(tail[i] == digits[i + 1]);
        }
        lemma_leading_digits(tail, rest);
        assert(text.drop_first() =~= tail + rest);
        assert(text[0] == digits[0]);
    }
    assert(text.take(digits.len() as int) =~= digits);
}

/// Decimal digits at the start of a text, up to the first other byte, are read as the number
/// that they write down, where it is at most `max`. A plus sign before them changes nothing; after
/// a minus sign only zero is read.
pub proof fn law_number_ends_at_the_first_other_byte(digits: Seq<u8>, rest: Seq<u8>, max: nat)
    requires
        digits.len() > 0,
        forall|i: int| 0 <= i < digits.len() ==> 0x30 <= #[trigger] digits[i] <= 0x39,
        rest.len() > 0 ==> !(0x30 <= rest[0] <= 0x39),
    ensures
        leading_number(digits + rest, max) == if decimal_value(digits) <= max {
            Some(decimal_value(digits))
        } else {
            None
        },
        leading_number(seq![0x2bu8] + (digits + rest), max) == leading_number(digits + rest, max),
        leading_number(seq![0x2du8] + (digits + rest), max) == if decimal_value(digits) == 0 {
            Some(0nat)
        } else {
            None
        },
{
    lemma_leading_digits(digits, rest);
    let text = digits + rest;
    assert(text[0] == digits[0]);
    assert((seq![0x2bu8] + text).drop_first() =~= text);
    assert((seq![0x2du8] + text).drop_first() =~= text);
}

/// A text that starts with neither a digit nor a sign holds no number; a sign alone is zero.
pub proof fn law_other_texts_start_with_no_number(text: Seq<u8>, max: nat)
    requires
        text.len() > 0 ==> !(0x30 <= text[0] <= 0x39),
    ensures
        text.len() == 0 || (text[0] != 0x2b && text[0] != 0x2d) ==> leading_number(text, max)
            is None,
        leading_number(seq![0x2bu8] + text, max) == Some(0nat),
        leading_number(seq![0x2du8] + text, max) == Some(0nat),
{
    lemma_leading_digits(Seq::empty(), text);
    assert(Seq::<u8>::empty() + text =~= text);
    assert((seq![0x2bu8] + text).drop_first() =~= text);
    assert((seq![0x2du8] + text).drop_first() =~= text);
    assert(Seq::<u8>::empty().map_values(|b: u8| (b - 0x30) as nat) =~= Seq::<nat>::empty());
}

/// A decimal numeral is of decimal digits alone and has no leading zero, but for zero itself.
pub proof fn law_decimal_has_no_leading_zero(n: nat)
    ensures
        decimal(n).len() > 0,
        n > 0 ==> decimal(n)[0] != '0',
        n == 0 ==> decimal(n) == seq!['0'],
        forall|i: int| 0 <= i < decimal(n).len() ==> '0' <= #[trigger] decimal(n)[i] <= '9',
    decreases n,
{
    lemma_decimal_chars(n);
    if n >= 10 {
        law_decimal_has_no_leading_zero(n / 10);
        lemma_decimal_chars(n / 10);
        assert(decimal(n)[0] == decimal(n / 10)[0]);
    }
}

/// Different numbers have different numerals.
pub proof fn law_decimals_differ(n: nat, m: nat)
    ensures
        decimal(n) == decimal(m) <==> n == m,
{
    lemma_decimal_bytes(n);
    lemma_decimal_bytes(m);
}

} // verus!
