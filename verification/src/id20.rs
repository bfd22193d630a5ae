//! Twenty-byte torrent identifiers and their textual forms.

use vstd::arithmetic::power::*;
use vstd::prelude::*;
use vstd::string::*;
use vstd::utf8::*;

use crate::text::{
    ascii, ascii_lower, hex_char, law_case_differs_letter_by_letter, lemma_ascii_is_utf8,
    lemma_numeral_injective, numeral, same_but_case,
};

verus! {

/// A twenty-byte identifier: the infohash of a torrent.
#[derive(Clone, Copy, Debug, Eq)]
pub struct Id20(pub [u8; 20]);

/// A text that denotes no identifier; the words say what is wrong with it.
#[derive(Debug, PartialEq, Eq)]
pub struct InvalidId20(pub String);

impl View for InvalidId20 {
    type V = Seq<char>;

    open spec fn view(&self) -> Seq<char> {
        self.0@
    }
}

impl View for Id20 {
    type V = Seq<u8>;

    open spec fn view(&self) -> Seq<u8> {
        self.0@
    }
}

impl PartialEq for Id20 {
    fn eq(&self, other: &Self) -> (r: bool) {
        let mut i: usize = 0;
        while i < 20
            invariant
                i <= 20,
                forall|j: int| 0 <= j < i ==> self.0@[j] == other.0@[j],
            decreases 20 - i,
        {
            if self.0[i] != other.0[i] {
                return false;
            }
            i = i + 1;
        }
        assert(self@ =~= other@);
        true
    }
}

impl vstd::std_specs::cmp::PartialEqSpecImpl for Id20 {
    open spec fn obeys_eq_spec() -> bool {
        true
    }

    open spec fn eq_spec(&self, other: &Self) -> bool {
        self@ == other@
    }
}

/// The value of a hexadecimal digit, of either case.
pub open spec fn hex_value(b: u8) -> Option<nat> {
    if 0x30 <= b <= 0x39 {
        Some((b - 0x30) as nat)
    } else if 0x41 <= b <= 0x46 {
        Some((b - 0x41 + 10) as nat)
    } else if 0x61 <= b <= 0x66 {
        Some((b - 0x61 + 10) as nat)
    } else {
        None
    }
}

/// The value of a base32 digit: `A` to `Z`, then `2` to `7`.
pub open spec fn base32_value(b: u8) -> Option<nat> {
    if 0x41 <= b <= 0x5a {
        Some((b - 0x41) as nat)
    } else if 0x32 <= b <= 0x37 {
        Some((b - 0x32 + 26) as nat)
    } else {
        None
    }
}

/// Forty hexadecimal digits.
pub open spec fn is_hex_text(text: Seq<u8>) -> bool {
    text.len() == 40 && forall|i: int| 0 <= i < 40 ==> hex_value(#[trigger] text[i]) is Some
}

/// Thirty-two base32 digits.
pub open spec fn is_base32_text(text: Seq<u8>) -> bool {
    text.len() == 32 && forall|i: int| 0 <= i < 32 ==> base32_value(#[trigger] text[i]) is Some
}

/// `text` is one of the two ways of writing an identifier.
pub open spec fn is_id_text(text: Seq<u8>) -> bool {
    is_hex_text(text) || is_base32_text(text)
}

/// `text` writes down the twenty bytes `id`.
pub open spec fn denotes(text: Seq<u8>, id: Seq<u8>) -> bool {
    &&& id.len() == 20
    &&& is_hex_text(text) ==> forall|i: int|
        0 <= i < 20 ==> #[trigger] id[i] == 16 * hex_value(text[2 * i])->0 + hex_value(
            text[2 * i + 1],
        )->0
    &&& is_base32_text(text) ==> numeral(id.map_values(|b: u8| b as nat), 256) == numeral(
        text.map_values(|b: u8| base32_value(b)->0),
        32,
    )
    &&& is_id_text(text)
}

/// The identifier that `text` writes down, if it writes down one.
pub open spec fn id_of(text: Seq<u8>) -> Option<Seq<u8>> {
    if is_id_text(text) {
        Some(choose|id: Seq<u8>| denotes(text, id))
    } else {
        None
    }
}

/// The number that the last of `n` base32 digits is a multiple of, so that the bits beyond the
/// last whole byte are zero; `None` where `n` digits end no block of up to five bytes.
pub open spec fn last_digit_unit(n: int) -> Option<nat> {
    if n == 2 {
        Some(4)
    } else if n == 4 {
        Some(16)
    } else if n == 5 {
        Some(2)
    } else if n == 7 {
        Some(8)
    } else if n == 8 {
        Some(1)
    } else {
        None
    }
}

/// The eight characters of `text` from `start` on are `n` base32 digits of whole bytes, filled
/// up with equals signs.
pub open spec fn is_block_of(text: Seq<u8>, start: int, n: int) -> bool {
    &&& forall|i: int| start <= i < start + n ==> base32_value(#[trigger] text[i]) is Some
    &&& forall|i: int| start + n <= i < start + 8 ==> #[trigger] text[i] == 0x3d
    &&& last_digit_unit(n) matches Some(unit) && base32_value(text[start + n - 1])->0 % unit == 0
}

/// The eight characters of `text` from `start` on are a block of padded base32.
pub open spec fn is_block(text: Seq<u8>, start: int) -> bool {
    exists|n: int| #[trigger] is_block_of(text, start, n)
}

/// Four blocks of padded base32, not all of them full: they stand for fewer than twenty bytes.
pub open spec fn is_short(text: Seq<u8>) -> bool {
    &&& text.len() == 32
    &&& is_block(text, 0)
    &&& is_block(text, 8)
    &&& is_block(text, 16)
    &&& is_block(text, 24)
    &&& text.contains(0x3d)
}

/// The text of the error that `librtbit_core::Id20::from_str` gives on the text whose UTF-8
/// form is `text`.
pub uninterp spec fn core_error(text: Seq<u8>) -> Seq<char>;

/// `librtbit_core::Id20::from_str`: forty hexadecimal digits of either case, or
/// thirty-two upper-case base32 digits, give the bytes that they write down; every
/// other text gives an error, whose text is named. It panics on padded base32 of
/// that length that stands for fewer than twenty bytes, which is left out.
#[verifier::external_body]
fn core_from_str(s: &str) -> (r: Result<[u8; 20], String>)
    requires
        !is_short(s.spec_bytes()),
    ensures
        r is Ok <==> is_id_text(s.spec_bytes()),
        r matches Ok(id) ==> denotes(s.spec_bytes(), id@),
        r matches Err(text) ==> text@ == core_error(s.spec_bytes()),
{
    match s.parse::<librtbit_core::Id20>() {
        Ok(id) => Ok(id.0),
        Err(e) => Err(format!("{e:#}")),
    }
}

/// What is wrong with a text that denotes no identifier.
pub open spec fn id_error(text: Seq<u8>) -> Seq<char> {
    if is_short(text) {
        "base32 string of fewer than 20 bytes"@
    } else {
        core_error(text)
    }
}

/// Two lower-case hexadecimal digits for each byte of `id`, the high one first.
pub open spec fn hex_text(id: Seq<u8>) -> Seq<char> {
    Seq::new(
        2 * id.len(),
        |i: int| hex_char(if i % 2 == 0 { id[i / 2] / 16 } else { id[i / 2] % 16 } as int),
    )
}

/// `librtbit_core::Id20::as_string`: the lower-case hexadecimal digits of the bytes.
#[verifier::external_body]
fn core_as_string(id: [u8; 20]) -> (r: String)
    ensures
        r@ == hex_text(id@),
{
    librtbit_core::Id20::new(id).as_string()
}

impl Id20 {
    /// Reads an identifier from forty hexadecimal or thirty-two base32 digits.
    pub fn from_str(s: &str) -> (r: Result<Id20, InvalidId20>)
        ensures
            r is Ok <==> is_id_text(s.spec_bytes()),
            r matches Ok(id) ==> denotes(s.spec_bytes(), id@),
            r matches Ok(id) ==> id_of(s.spec_bytes()) == Some(id@),
            r matches Err(error) ==> error@ == id_error(s.spec_bytes()),
    {
        if stands_for_less(s.as_bytes()) {
            proof {
                let text = s.spec_bytes();
                let k = choose|k: int| 0 <= k < text.len() && text[k] == 0x3d;
                assert(base32_value(text[k]) is None);
            }
            let mut words = String::new();
            words.append("base32 string of fewer than 20 bytes");
            assert(words@ =~= "base32 string of fewer than 20 bytes"@);
            return Err(InvalidId20(words));
        }
        match core_from_str(s) {
            Ok(bytes) => {
                proof {
                    lemma_id_of(s.spec_bytes(), bytes@);
                }
                Ok(Id20(bytes))
            },
            Err(text) => Err(InvalidId20(text)),
        }
    }

    /// The identifier in lower-case hexadecimal.
    pub fn as_string(&self) -> (r: String)
        ensures
            r@ == hex_text(self@),
    {
        core_as_string(self.0)
    }
}

fn base32_digit(b: u8) -> (r: Option<u8>)
    ensures
        r is Some <==> base32_value(b) is Some,
        r matches Some(n) ==> base32_value(b) == Some(n as nat),
{
    if 0x41 <= b && b <= 0x5a {
        Some(b - 0x41)
    } else if 0x32 <= b && b <= 0x37 {
        Some(b - 0x32 + 26)
    } else {
        None
    }
}

/// Whether the eight characters from `start` on are a block of padded base32.
fn has_block(text: &[u8], start: usize) -> (r: bool)
    requires
        start + 8 <= text@.len() == 32,
    ensures
        r == is_block(text@, start as int),
{
    let mut n: usize = 0;
    let mut last: u8 = 0;
    while n < 8
        invariant
            n <= 8,
            start + 8 <= text@.len() == 32,
            forall|i: int| start <= i < start + n ==> base32_value(#[trigger] text@[i]) is Some,
            n > 0 ==> base32_value(text@[start + n - 1]) == Some(last as nat),
        ensures
            n <= 8,
            n < 8 ==> base32_value(text@[start + n]) is None,
            forall|i: int| start <= i < start + n ==> base32_value(#[trigger] text@[i]) is Some,
            n > 0 ==> base32_value(text@[start + n - 1]) == Some(last as nat),
        decreases 8 - n,
    {
        match base32_digit(text[start + n]) {
            Some(digit) => {
                last = digit;
            },
            None => {
                break;
            },
        }
        n = n + 1;
    }
    proof {
        assert forall|m: int| #[trigger] is_block_of(text@, start as int, m) implies m == n by {
            if m < n {
                assert(text@[start + m] == 0x3d);
                assert(base32_value(text@[start + m]) is Some);
            } else if m > n {
                assert(base32_value(text@[start + n]) is Some);
            }
        }
    }
    let unit: u8 = if n == 2 {
        4
    } else if n == 4 {
        16
    } else if n == 5 {
        2
    } else if n == 7 {
        8
    } else if n == 8 {
        1
    } else {
        return false;
    };
    if last % unit != 0 {
        return false;
    }
    let mut i: usize = n;
    while i < 8
        invariant
            n <= i <= 8,
            start + 8 <= text@.len() == 32,
            forall|m: int| #[trigger] is_block_of(text@, start as int, m) ==> m == n,
            forall|j: int| start + n <= j < start + i ==> #[trigger] text@[j] == 0x3d,
        decreases 8 - i,
    {
        if text[start + i] != 0x3d {
            return false;
        }
        i = i + 1;
    }
    assert(is_block_of(text@, start as int, n as int));
    true
}

/// Whether `text` is padded base32 of the length of an identifier that stands for fewer bytes.
fn stands_for_less(text: &[u8]) -> (r: bool)
    ensures
        r == is_short(text@),
{
    if text.len() != 32 {
        return false;
    }
    if !(has_block(text, 0) && has_block(text, 8) && has_block(text, 16) && has_block(text, 24)) {
        return false;
    }
    let mut i: usize = 0;
    while i < 32
        invariant
            i <= 32,
            text@.len() == 32,
            is_block(text@, 0) && is_block(text@, 8) && is_block(text@, 16) && is_block(text@, 24),
            forall|j: int| 0 <= j < i ==> text@[j] != 0x3d,
        decreases 32 - i,
    {
        if text[i] == 0x3d {
            return true;
        }
        i = i + 1;
    }
    false
}

/// One text denotes one identifier.
pub proof fn law_text_is_unambiguous(text: Seq<u8>, a: Seq<u8>, b: Seq<u8>)
    requires
        denotes(text, a),
        denotes(text, b),
    ensures
        a == b,
{
    if is_hex_text(text) {
        assert forall|i: int| 0 <= i < 20 implies a[i] == b[i] by {}
        assert(a =~= b);
    } else {
        let x = a.map_values(|c: u8| c as nat);
        let y = b.map_values(|c: u8| c as nat);
        lemma_numeral_injective(x, y, 256);
        assert forall|i: int| 0 <= i < 20 implies a[i] == b[i] by {
            assert(x[i] == y[i]);
        }
        assert(a =~= b);
    }
}

/// What a text denotes is the identifier of that text.
pub proof fn lemma_id_of(text: Seq<u8>, id: Seq<u8>)
    requires
        denotes(text, id),
    ensures
        id_of(text) == Some(id),
{
    law_text_is_unambiguous(text, id, choose|x: Seq<u8>| denotes(text, x));
}

/// The bytes of the hexadecimal form, one by one.
pub proof fn lemma_hex_text_bytes(id: Seq<u8>)
    ensures
        is_ascii_chars(hex_text(id)),
        encode_utf8(hex_text(id)).len() == 2 * id.len(),
        forall|i: int|
            0 <= i < 2 * id.len() ==> {
                let n = if i % 2 == 0 { id[i / 2] / 16 } else { id[i / 2] % 16 };
                #[trigger] encode_utf8(hex_text(id))[i] == (if n < 10 {
                    0x30 + n
                } else {
                    0x61 + n - 10
                })
            },
{
    assert forall|i: int| 0 <= i < 2 * id.len() implies '\0' <= #[trigger] hex_text(id)[i]
        <= '\u{7f}' by {
        let n = if i % 2 == 0 { id[i / 2] / 16 } else { id[i / 2] % 16 };
        assert(n < 16);
    }
    is_ascii_chars_encode_utf8(hex_text(id));
    assert forall|i: int| 0 <= i < 2 * id.len() implies {
        let n = if i % 2 == 0 { id[i / 2] / 16 } else { id[i / 2] % 16 };
        #[trigger] encode_utf8(hex_text(id))[i] == (if n < 10 { 0x30 + n } else { 0x61 + n - 10 })
    } by {
        let n = if i % 2 == 0 { id[i / 2] / 16 } else { id[i / 2] % 16 };
        assert(n < 16);
        assert(hex_text(id)[i] as u8 == encode_utf8(hex_text(id))[i]);
    }
}

/// The hexadecimal form of an identifier denotes that identifier.
pub proof fn law_hex_text_reads_back(id: Seq<u8>)
    requires
        id.len() == 20,
    ensures
        is_hex_text(encode_utf8(hex_text(id))),
        denotes(encode_utf8(hex_text(id)), id),
{
    let text = encode_utf8(hex_text(id));
    lemma_hex_text_bytes(id);
    assert forall|i: int| 0 <= i < 40 implies hex_value(#[trigger] text[i]) is Some by {}
    assert forall|i: int| 0 <= i < 20 implies #[trigger] id[i] == 16 * hex_value(text[2 * i])->0
        + hex_value(text[2 * i + 1])->0 by {
        assert((2 * i) / 2 == i && (2 * i) % 2 == 0);
        assert((2 * i + 1) / 2 == i && (2 * i + 1) % 2 == 1);
    }
}

/// An identifier that was read from hexadecimal digits is written with the same digits in
/// lower case.
pub proof fn law_hex_text_is_kept(text: Seq<u8>, id: Seq<u8>)
    requires
        is_hex_text(text),
        denotes(text, id),
    ensures
        encode_utf8(hex_text(id)) == text.map_values(|b: u8| ascii_lower(b)),
{
    let written = encode_utf8(hex_text(id));
    let lowered = text.map_values(|b: u8| ascii_lower(b));
    lemma_hex_text_bytes(id);
    assert forall|i: int| 0 <= i < 40 implies written[i] == lowered[i] by {
        let k = i / 2;
        assert(id[k] == 16 * hex_value(text[2 * k])->0 + hex_value(text[2 * k + 1])->0);
        assert(hex_value(text[i]) is Some);
        assert(hex_value(text[2 * k]) is Some && hex_value(text[2 * k + 1]) is Some);
    }
    assert(written =~= lowered);
}

/// The hexadecimal digits are those of zero to fifteen, the letters in either case.
pub proof fn law_hex_digits(b: u8)
    ensures
        0x30 <= b <= 0x39 ==> hex_value(b) == Some((b - 0x30) as nat),
        0x41 <= b <= 0x46 ==> hex_value(b) == Some((b - 0x37) as nat),
        0x61 <= b <= 0x66 ==> hex_value(b) == Some((b - 0x57) as nat),
        hex_value(b) is Some ==> 0x30 <= b <= 0x39 || 0x41 <= b <= 0x46 || 0x61 <= b <= 0x66,
{
}

/// The base32 digits are the upper-case letters, from zero on, and then two to seven.
pub proof fn law_base32_digits(b: u8)
    ensures
        0x41 <= b <= 0x5a ==> base32_value(b) == Some((b - 0x41) as nat),
        0x32 <= b <= 0x37 ==> base32_value(b) == Some((b - 0x18) as nat),
        base32_value(b) is Some ==> 0x41 <= b <= 0x5a || 0x32 <= b <= 0x37,
{
}

/// Identifiers are written as forty hexadecimal digits of either case, or as thirty-two
/// upper-case letters and digits from two to seven; in no other way.
pub proof fn law_texts_of_identifiers(text: Seq<u8>)
    ensures
        is_id_text(text) <==> {
            ||| text.len() == 40 && forall|i: int|
                0 <= i < 40 ==> {
                    ||| 0x30 <= #[trigger] text[i] <= 0x39
                    ||| 0x41 <= text[i] <= 0x46
                    ||| 0x61 <= text[i] <= 0x66
                }
            ||| text.len() == 32 && forall|i: int|
                0 <= i < 32 ==> {
                    ||| 0x41 <= #[trigger] text[i] <= 0x5a
                    ||| 0x32 <= text[i] <= 0x37
                }
        },
{
    if text.len() == 40 && forall|i: int|
        0 <= i < 40 ==> {
            ||| 0x30 <= #[trigger] text[i] <= 0x39
            ||| 0x41 <= text[i] <= 0x46
            ||| 0x61 <= text[i] <= 0x66
        } {
        assert forall|i: int| 0 <= i < 40 implies hex_value(#[trigger] text[i]) is Some by {}
    }
    if text.len() == 32 && forall|i: int|
        0 <= i < 32 ==> {
            ||| 0x41 <= #[trigger] text[i] <= 0x5a
            ||| 0x32 <= text[i] <= 0x37
        } {
        assert forall|i: int| 0 <= i < 32 implies base32_value(#[trigger] text[i]) is Some by {}
    }
    if is_hex_text(text) {
        assert forall|i: int| 0 <= i < 40 implies {
            ||| 0x30 <= #[trigger] text[i] <= 0x39
            ||| 0x41 <= text[i] <= 0x46
            ||| 0x61 <= text[i] <= 0x66
        } by {
            assert(hex_value(text[i]) is Some);
        }
    }
    if is_base32_text(text) {
        assert forall|i: int| 0 <= i < 32 implies {
            ||| 0x41 <= #[trigger] text[i] <= 0x5a
            ||| 0x32 <= text[i] <= 0x37
        } by {
            assert(base32_value(text[i]) is Some);
        }
    }
}

/// Hexadecimal digits in another case denote the same identifier.
pub proof fn law_case_of_hex_digits_does_not_matter(a: Seq<u8>, b: Seq<u8>, id: Seq<u8>)
    requires
        a.len() == 40,
        same_but_case(a, b),
        denotes(a, id),
    ensures
        denotes(b, id),
{
    law_case_differs_letter_by_letter(a, b);
    assert(is_hex_text(a));
    assert forall|i: int| 0 <= i < 40 implies hex_value(#[trigger] b[i]) == hex_value(a[i]) && hex_value(
        b[i],
    ) is Some by {
        assert(hex_value(a[i]) is Some);
    }
    assert(is_hex_text(b));
    assert forall|i: int| 0 <= i < 20 implies #[trigger] id[i] == 16 * hex_value(b[2 * i])->0
        + hex_value(b[2 * i + 1])->0 by {
        assert(hex_value(b[2 * i]) == hex_value(a[2 * i]));
        assert(hex_value(b[2 * i + 1]) == hex_value(a[2 * i + 1]));
    }
}

/// Each byte of an identifier comes from two hexadecimal digits, the high one first.
pub proof fn law_two_hex_digits_make_a_byte(text: Seq<u8>, id: Seq<u8>, i: int)
    requires
        denotes(text, id),
        text.len() == 40,
        0 <= i < 20,
    ensures
        hex_value(text[2 * i]) == Some((id[i] / 16) as nat),
        hex_value(text[2 * i + 1]) == Some((id[i] % 16) as nat),
{
    assert(is_hex_text(text));
    assert(hex_value(text[2 * i]) is Some);
    assert(hex_value(text[2 * i + 1]) is Some);
    assert(id[i] == 16 * hex_value(text[2 * i])->0 + hex_value(text[2 * i + 1])->0);
}

/// Base32 digits and the bytes of the identifier that they denote write down one number.
pub proof fn law_base32_digits_are_one_number(text: Seq<u8>, id: Seq<u8>)
    requires
        denotes(text, id),
        text.len() == 32,
    ensures
        id.len() == 20,
        numeral(id.map_values(|b: u8| b as nat), 256) == numeral(
            text.map_values(|b: u8| base32_value(b)->0),
            32,
        ),
{
    assert(is_base32_text(text));
}

proof fn lemma_numeral_bound(digits: Seq<nat>, radix: nat)
    requires
        radix > 0,
        forall|i: int| 0 <= i < digits.len() ==> #[trigger] digits[i] < radix,
    ensures
        numeral(digits, radix) < pow(radix as int, digits.len()),
    decreases digits.len(),
{
    lemma_pow0(radix as int);
    if digits.len() > 0 {
        let n = (digits.len() - 1) as nat;
        lemma_numeral_bound(digits.drop_last(), radix);
        lemma_pow_adds(radix as int, 1, n);
        lemma_pow1(radix as int);
        let p = numeral(digits.drop_last(), radix);
        let q = pow(radix as int, n);
        assert(p * radix + digits.last() < radix * q) by (nonlinear_arith)
            requires
                p < q,
                digits.last() < radix,
        ;
    }
}

proof fn lemma_bytes_of(number: nat, n: nat) -> (bytes: Seq<u8>)
    requires
        number < pow(256, n),
    ensures
        bytes.len() == n,
        numeral(bytes.map_values(|b: u8| b as nat), 256) == number,
    decreases n,
{
    let value = |b: u8| b as nat;
    if n == 0 {
        lemma_pow0(256);
        let bytes = Seq::<u8>::empty();
        assert(bytes.map_values(value) =~= Seq::<nat>::empty());
        bytes
    } else {
        lemma_pow_adds(256, 1, (n - 1) as nat);
        lemma_pow1(256);
        let head = lemma_bytes_of(number / 256, (n - 1) as nat);
        let bytes = head.push((number % 256) as u8);
        assert(bytes.map_values(value).drop_last() =~= head.map_values(value));
        bytes
    }
}

/// Every text of an identifier denotes one, and that is the identifier of the text.
pub proof fn law_every_text_denotes_its_identifier(text: Seq<u8>) -> (id: Seq<u8>)
    requires
        is_id_text(text),
    ensures
        denotes(text, id),
        id_of(text) == Some(id),
{
    let id = if is_hex_text(text) {
        let id = Seq::new(
            20,
            |i: int| (16 * hex_value(text[2 * i])->0 + hex_value(text[2 * i + 1])->0) as u8,
        );
        assert forall|i: int| 0 <= i < 20 implies #[trigger] id[i] == 16 * hex_value(text[2 * i])->0
            + hex_value(text[2 * i + 1])->0 by {
            assert(hex_value(text[2 * i]) is Some);
            assert(hex_value(text[2 * i + 1]) is Some);
        }
        id
    } else {
        let digits = text.map_values(|b: u8| base32_value(b)->0);
        assert forall|i: int| 0 <= i < digits.len() implies #[trigger] digits[i] < 32 by {
            assert(base32_value(text[i]) is Some);
        }
        lemma_numeral_bound(digits, 32);
        reveal_with_fuel(pow, 9);
        assert(pow(2, 5) == 32);
        assert(pow(2, 8) == 256);
        lemma_pow_multiplies(2, 5, 32);
        lemma_pow_multiplies(2, 8, 20);
        lemma_bytes_of(numeral(digits, 32), 20)
    };
    lemma_id_of(text, id);
    id
}

/// A text without an identifier has none, and it has one otherwise.
pub proof fn law_other_texts_have_no_identifier(text: Seq<u8>, id: Seq<u8>)
    ensures
        !is_id_text(text) ==> id_of(text) is None && !denotes(text, id),
        denotes(text, id) ==> id_of(text) == Some(id),
{
    if denotes(text, id) {
        lemma_id_of(text, id);
    }
}

/// Texts of identifiers are ASCII, and so they are UTF-8.
pub proof fn lemma_id_text_is_utf8(text: Seq<u8>)
    requires
        is_id_text(text),
    ensures
        valid_utf8(text),
{
    let chars = text.map_values(|b: u8| b as char);
    law_texts_of_identifiers(text);
    assert forall|i: int| 0 <= i < chars.len() implies '\0' <= #[trigger] chars[i] <= '\u{7f}' by {
        assert(text[i] < 0x80);
    }
    lemma_ascii_is_utf8(chars);
    assert(ascii(chars) =~= text) by {
        assert forall|i: int| 0 <= i < text.len() implies ascii(chars)[i] == text[i] by {
            assert(text[i] < 0x80);
        }
    }
    encode_utf8_valid_utf8(chars);
}

/// Whole bytes end after two, four, five, seven and eight base32 digits of a block: there fewer
/// bits than a digit has are left over, and these are zero.
pub proof fn law_blocks_end_at_whole_bytes(n: int)
    ensures
        last_digit_unit(n) is Some <==> 1 <= n <= 8 && (5 * n) % 8 < 5,
        last_digit_unit(n) matches Some(unit) ==> unit == pow(2, ((5 * n) % 8) as nat),
{
    reveal_with_fuel(pow, 5);
}

/// Padded base32 of fewer than twenty bytes is no text of an identifier: it is thirty-two
/// characters, base32 digits and at least one equals sign.
pub proof fn law_short_texts_are_padded(text: Seq<u8>, i: int)
    requires
        is_short(text),
        0 <= i < 32,
    ensures
        text.len() == 32,
        base32_value(text[i]) is Some || text[i] == 0x3d,
        exists|k: int| 0 <= k < 32 && #[trigger] text[k] == 0x3d,
        !is_id_text(text),
{
    let start = 8 * (i / 8);
    assert(is_block(text, start));
    let n = choose|n: int| #[trigger] is_block_of(text, start, n);
    let k = choose|k: int| 0 <= k < text.len() && text[k] == 0x3d;
    assert(base32_value(text[k]) is None);
}

/// Four full or filled-up blocks of base32 digits, with at least one equals sign, stand for
/// fewer than twenty bytes; a text in which one of the blocks is no such block does not.
pub proof fn law_short_texts_are_four_blocks(
    text: Seq<u8>,
    n0: int,
    n1: int,
    n2: int,
    n3: int,
)
    requires
        text.len() == 32,
    ensures
        is_block_of(text, 0, n0) && is_block_of(text, 8, n1) && is_block_of(text, 16, n2)
            && is_block_of(text, 24, n3) && text.contains(0x3d) ==> is_short(text),
        is_short(text) ==> {
            &&& exists|n: int| #[trigger] is_block_of(text, 0, n)
            &&& exists|n: int| #[trigger] is_block_of(text, 8, n)
            &&& exists|n: int| #[trigger] is_block_of(text, 16, n)
            &&& exists|n: int| #[trigger] is_block_of(text, 24, n)
        },
{
}

/// A block is base32 digits and then equals signs; the digits end at a whole byte, and the bits
/// that are left over are zero.
pub proof fn law_blocks_are_digits_and_equals_signs(text: Seq<u8>, start: int, n: int)
    ensures
        is_block_of(text, start, n) <==> {
            &&& 1 <= n <= 8
            &&& (5 * n) % 8 < 5
            &&& forall|i: int|
                start <= i < start + n ==> 0x41 <= #[trigger] text[i] <= 0x5a || 0x32 <= text[i]
                    <= 0x37
            &&& forall|i: int| start + n <= i < start + 8 ==> #[trigger] text[i] == 0x3d
            &&& base32_value(text[start + n - 1])->0 % pow(2, ((5 * n) % 8) as nat) as nat == 0
        },
{
    law_blocks_end_at_whole_bytes(n);
    if 1 <= n <= 8 {
        lemma_pow_positive(2, ((5 * n) % 8) as nat);
    }
    if is_block_of(text, start, n) {
        assert forall|i: int| start <= i < start + n implies 0x41 <= #[trigger] text[i] <= 0x5a
            || 0x32 <= text[i] <= 0x37 by {
            assert(base32_value(text[i]) is Some);
        }
    }
    if forall|i: int|
        start <= i < start + n ==> 0x41 <= #[trigger] text[i] <= 0x5a || 0x32 <= text[i] <= 0x37 {
        assert forall|i: int| start <= i < start + n implies base32_value(#[trigger] text[i])
            is Some by {}
    }
}

/// The words for a text that denotes no identifier are those of the outside decoder, but for
/// padded base32 of fewer than twenty bytes.
pub proof fn law_words_for_other_texts(text: Seq<u8>)
    ensures
        !is_short(text) ==> id_error(text) == core_error(text),
{
}

/// Two digits stand for each byte of an identifier, in lower case.
pub proof fn law_hex_text_is_lower_case(id: Seq<u8>, i: int)
    requires
        0 <= i < id.len(),
    ensures
        hex_text(id).len() == 2 * id.len(),
        hex_value(encode_utf8(hex_text(id))[2 * i]) == Some((id[i] / 16) as nat),
        hex_value(encode_utf8(hex_text(id))[2 * i + 1]) == Some((id[i] % 16) as nat),
        !('A' <= hex_text(id)[2 * i] <= 'Z'),
        !('A' <= hex_text(id)[2 * i + 1] <= 'Z'),
{
    lemma_hex_text_bytes(id);
    assert((2 * i) / 2 == i && (2 * i) % 2 == 0);
    assert((2 * i + 1) / 2 == i && (2 * i + 1) % 2 == 1);
    assert(encode_utf8(hex_text(id))[2 * i] < 0x80);
    assert(encode_utf8(hex_text(id))[2 * i + 1] < 0x80);
}

} // verus!
