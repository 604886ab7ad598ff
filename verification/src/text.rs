//! Conversions between ASCII bytes and strings.

use vstd::prelude::*;
use vstd::slice::slice_subrange;
use vstd::utf8::*;

verus! {

/// The characters spelled by `bytes`, one character per byte.
pub open spec fn text_of(bytes: Seq<u8>) -> Seq<char> {
    Seq::new(bytes.len(), |i: int| bytes[i] as char)
}

/// The character sequences of a list of strings.
pub open spec fn texts(list: Seq<String>) -> Seq<Seq<char>> {
    Seq::new(list.len(), |i: int| list[i]@)
}

/// Every byte of `bytes` is an ASCII code.
pub open spec fn all_ascii(bytes: Seq<u8>) -> bool {
    forall|i: int| 0 <= i < bytes.len() ==> #[trigger] bytes[i] < 0x80
}

/// ASCII bytes are valid UTF-8 and decode to one character per byte.
pub proof fn lemma_ascii_is_utf8(bytes: Seq<u8>)
    requires
        all_ascii(bytes),
    ensures
        valid_utf8(bytes),
        decode_utf8(bytes) == text_of(bytes),
{
    let chars = text_of(bytes);
    assert(is_ascii_chars(chars)) by {
        assert forall|i: int| 0 <= i < chars.len() implies '\0' <= #[trigger] chars[i]
            <= '\u{7f}' by {
            assert(bytes[i] < 0x80);
        }
    }
    is_ascii_chars_encode_utf8(chars);
    assert(encode_utf8(chars) =~= bytes) by {
        assert forall|i: int| 0 <= i < bytes.len() implies encode_utf8(chars)[i] == bytes[i] by {
            assert(bytes[i] < 0x80);
            assert(chars[i] as u8 == encode_utf8(chars)[i]);
        }
    }
    encode_utf8_valid_utf8(chars);
    encode_utf8_decode_utf8(chars);
}

/// `std::str::from_utf8`: the bytes are accepted exactly when they are valid
/// UTF-8, and the string slice that comes back spells the characters they
/// encode.
#[verifier::external_body]
fn str_from_utf8(bytes: &[u8]) -> (r: Option<&str>)
    ensures
        r is Some <==> valid_utf8(bytes@),
        r matches Some(t) ==> t@ == decode_utf8(bytes@),
{
    match std::str::from_utf8(bytes) {
        Ok(t) => Some(t),
        Err(_) => None,
    }
}

/// The string spelled by the ASCII bytes `input[start..end]`.
pub(crate) fn ascii_string(input: &[u8], start: usize, end: usize) -> (r: String)
    requires
        start <= end <= input.len(),
        all_ascii(input@.subrange(start as int, end as int)),
    ensures
        r@ == text_of(input@.subrange(start as int, end as int)),
{
    let part = slice_subrange(input, start, end);
    proof {
        lemma_ascii_is_utf8(part@);
    }
    match str_from_utf8(part) {
        Some(t) => t.to_owned(),
        None => String::new(),
    }
}

/// The decimal digits of `n`, the most significant first, without leading
/// zeros.
pub open spec fn decimal_digits(n: nat) -> Seq<u8>
    decreases n,
{
    if n < 10 {
        seq![(0x30 + n) as u8]
    } else {
        decimal_digits(n / 10).push((0x30 + n % 10) as u8)
    }
}

/// The decimal numeral of `n`.
pub open spec fn decimal_text(n: nat) -> Seq<char> {
    text_of(decimal_digits(n))
}

/// Decimal digits are ASCII codes.
pub proof fn lemma_decimal_digits_ascii(n: nat)
    ensures
        all_ascii(decimal_digits(n)),
    decreases n,
{
    if n >= 10 {
        lemma_decimal_digits_ascii(n / 10);
    }
}

/// Appends the decimal digits of `n` to `out`.
fn push_decimal(n: usize, out: &mut Vec<u8>)
    ensures
        final(out)@ == old(out)@ + decimal_digits(n as nat),
    decreases n,
{
    if n >= 10 {
        push_decimal(n / 10, out);
    }
    let digit: u8 = 0x30 + (n % 10) as u8;
    out.push(digit);
    proof {
        if n >= 10 {
            assert(final(out)@ =~= old(out)@ + decimal_digits((n / 10) as nat).push(digit));
        } else {
            assert(final(out)@ =~= old(out)@ + seq![digit]);
        }
    }
}

/// The decimal numeral of `n`.
pub fn decimal_string(n: usize) -> (r: String)
    ensures
        r@ == decimal_text(n as nat),
{
    let mut digits: Vec<u8> = Vec::new();
    push_decimal(n, &mut digits);
    proof {
        lemma_decimal_digits_ascii(n as nat);
        assert(digits@ =~= decimal_digits(n as nat));
        assert(digits@.subrange(0, digits@.len() as int) =~= digits@);
    }
    ascii_string(digits.as_slice(), 0, digits.len())
}

/// The UTF-8 encoding of a text with an ASCII character behind it is the
/// encoding of the text with the character's code behind it.
pub proof fn lemma_encode_push_ascii(text: Seq<char>, c: char)
    requires
        c as u32 <= 0x7F,
    ensures
        encode_utf8(text.push(c)) == encode_utf8(text).push(c as u8),
    decreases text.len(),
{
    let code = c as u32;
    if text.len() == 0 {
        assert(text.push(c).drop_first() =~= Seq::<char>::empty());
        assert(code as u8 == leading_byte_width_1(code)) by (bit_vector)
            requires
                code <= 0x7F,
        ;
        assert(text.push(c)[0] == c);
        assert(encode_scalar(code) =~= seq![code as u8]);
        assert(encode_utf8(text.push(c).drop_first()) =~= Seq::<u8>::empty());
        assert(encode_utf8(text) =~= Seq::<u8>::empty());
        assert(code as u8 == c as u8);
        assert(encode_utf8(text.push(c)) =~= encode_utf8(text).push(c as u8));
    } else {
        assert(text.push(c).drop_first() =~= text.drop_first().push(c));
        assert(text.push(c)[0] == text[0]);
        lemma_encode_push_ascii(text.drop_first(), c);
        assert(encode_utf8(text.push(c)) =~= encode_utf8(text).push(c as u8));
    }
}

} // verus!
