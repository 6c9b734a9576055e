//! Bytes spelled by hexadecimal text.
//!
//! The text is read as its bytes, two to a window, and every window of two
//! hexadecimal digits gives one byte. [`hex_decoding`] says what the outcome
//! is for every text; [`hex_to_bytes`] computes it.

use crate::error::DecodeHexError;
use crate::error::InvalidDigit;
use vstd::prelude::*;
use vstd::string::StringSliceAdditionalSpecFns;
use vstd::utf8::encode_scalar;
use vstd::utf8::encode_utf8;

verus! {

/// Whether `b` is one of the characters `0-9`, `a-f`, `A-F`.
pub open spec fn is_hex_digit(b: u8) -> bool {
    ||| '0' as u8 <= b <= '9' as u8
    ||| 'a' as u8 <= b <= 'f' as u8
    ||| 'A' as u8 <= b <= 'F' as u8
}

/// Whether every byte of `text` is a hexadecimal digit.
pub open spec fn all_hex_digits(text: Seq<u8>) -> bool {
    forall|i: int| 0 <= i < text.len() ==> is_hex_digit(#[trigger] text[i])
}

/// The number from 0 to 15 that the hexadecimal digit `b` stands for; the two
/// cases of a letter stand for the same number.
pub open spec fn digit_value(b: u8) -> int
    recommends
        is_hex_digit(b),
{
    if '0' as u8 <= b <= '9' as u8 {
        b - '0' as u8
    } else if 'a' as u8 <= b <= 'f' as u8 {
        b - 'a' as u8 + 10
    } else {
        b - 'A' as u8 + 10
    }
}

/// Whether the window `w` of `text`, the bytes `2 * w` and `2 * w + 1`, holds
/// two hexadecimal digits.
pub open spec fn window_is_valid(text: Seq<u8>, w: int) -> bool {
    is_hex_digit(text[2 * w]) && is_hex_digit(text[2 * w + 1])
}

/// The byte that the window `w` of `text` spells: its first digit counts
/// sixteen times, its second once.
pub open spec fn window_value(text: Seq<u8>, w: int) -> u8
    recommends
        window_is_valid(text, w),
{
    (16 * digit_value(text[2 * w]) + digit_value(text[2 * w + 1])) as u8
}

/// Whether every window of `text` holds two hexadecimal digits.
pub open spec fn all_windows_valid(text: Seq<u8>) -> bool {
    forall|w: int| 0 <= w < text.len() / 2 ==> window_is_valid(text, w)
}

/// Whether `w` is the first window of `text` that does not hold two
/// hexadecimal digits.
pub open spec fn is_first_invalid_window(text: Seq<u8>, w: int) -> bool {
    &&& 0 <= w < text.len() / 2
    &&& !window_is_valid(text, w)
    &&& forall|v: int| 0 <= v < w ==> window_is_valid(text, v)
}

/// The first window of `text` that does not hold two hexadecimal digits, where
/// there is one.
pub open spec fn first_invalid_window(text: Seq<u8>) -> int
    recommends
        !all_windows_valid(text),
{
    choose|w: int| is_first_invalid_window(text, w)
}

/// The outcome of decoding `text`.
///
/// A text of odd length is refused outright. A text of even length gives one
/// byte for each window, in the order of the windows, if every window holds
/// two hexadecimal digits; else it is refused as a whole, and the error names
/// the first window that does not.
pub open spec fn hex_decoding(text: Seq<u8>) -> Result<Seq<u8>, DecodeHexError> {
    if text.len() % 2 != 0 {
        Err(DecodeHexError::OddLength)
    } else if all_windows_valid(text) {
        Ok(Seq::new(text.len() / 2, |w: int| window_value(text, w)))
    } else {
        Err(DecodeHexError::ParseInt(InvalidDigit { window: first_invalid_window(text) as usize }))
    }
}

/// The result of [`hex_to_bytes`] with its bytes as a sequence.
pub open spec fn outcome_view(outcome: Result<Vec<u8>, DecodeHexError>) -> Result<
    Seq<u8>,
    DecodeHexError,
> {
    match outcome {
        Ok(bytes) => Ok(bytes@),
        Err(error) => Err(error),
    }
}

/// A text has at most one first invalid window.
proof fn lemma_first_invalid_window_unique(text: Seq<u8>, w: int)
    requires
        is_first_invalid_window(text, w),
    ensures
        !all_windows_valid(text),
        first_invalid_window(text) == w,
{
    let chosen = first_invalid_window(text);
    assert(is_first_invalid_window(text, chosen));
    if chosen < w {
        assert(window_is_valid(text, chosen));
    } else if w < chosen {
        assert(window_is_valid(text, w));
    }
}

/// Reads one hexadecimal digit.
fn hex_digit(b: u8) -> (value: Option<u8>)
    ensures
        value is Some <==> is_hex_digit(b),
        value matches Some(d) ==> d == digit_value(b),
{
    if 0x30 <= b && b <= 0x39 {
        // '0' to '9'
        Some(b - 0x30)
    } else if 0x61 <= b && b <= 0x66 {
        // 'a' to 'f'
        Some(b - 0x61 + 10)
    } else if 0x41 <= b && b <= 0x46 {
        // 'A' to 'F'
        Some(b - 0x41 + 10)
    } else {
        None
    }
}

/// Decodes hexadecimal text into the bytes it spells.
///
/// The text may be anything; the length that counts is its length in bytes.
/// The outcome is [`hex_decoding`] of those bytes: no partial result is ever
/// returned, and no text makes the function panic.
pub fn hex_to_bytes(hex: &str) -> (outcome: Result<Vec<u8>, DecodeHexError>)
    ensures
        outcome_view(outcome) == hex_decoding(hex.spec_bytes()),
        outcome matches Ok(bytes) ==> 2 * bytes@.len() == hex.spec_bytes().len(),
{
    let text = hex.as_bytes();
    let n = text.len();
    if n % 2 != 0 {
        return Err(DecodeHexError::OddLength);
    }
    let mut bytes: Vec<u8> = Vec::new();
    let mut w: usize = 0;
    while w < n / 2
        invariant
            text@ == hex.spec_bytes(),
            n == text@.len(),
            n % 2 == 0,
            w <= n / 2,
            bytes@.len() == w,
            forall|v: int| 0 <= v < w ==> window_is_valid(text@, v),
            forall|v: int| 0 <= v < w ==> bytes@[v] == window_value(text@, v),
        decreases n / 2 - w,
    {
        let high = hex_digit(text[2 * w]);
        let low = hex_digit(text[2 * w + 1]);
        match (high, low) {
            (Some(h), Some(l)) => {
                bytes.push(16 * h + l);
            },
            _ => {
                proof {
                    lemma_first_invalid_window_unique(text@, w as int);
                }
                return Err(DecodeHexError::from(InvalidDigit { window: w }));
            },
        }
        w += 1;
    }
    assert(bytes@ =~= Seq::new(text@.len() / 2, |v: int| window_value(text@, v)));
    Ok(bytes)
}

/// The hexadecimal digit for a number from 0 to 15, with its letters in upper
/// case if `upper` and in lower case if not.
pub open spec fn digit_for(value: int, upper: bool) -> u8
    recommends
        0 <= value < 16,
{
    if value < 10 {
        ('0' as u8 + value) as u8
    } else if upper {
        ('A' as u8 + value - 10) as u8
    } else {
        ('a' as u8 + value - 10) as u8
    }
}

/// The hexadecimal text of `bytes`: two digits for each byte, the one for its
/// high four bits first, all letters in one case.
pub open spec fn hex_text(bytes: Seq<u8>, upper: bool) -> Seq<u8> {
    Seq::new(
        2 * bytes.len(),
        |i: int|
            if i % 2 == 0 {
                digit_for(bytes[i / 2] as int / 16, upper)
            } else {
                digit_for(bytes[i / 2] as int % 16, upper)
            },
    )
}

/// The byte `b` with an upper-case ASCII letter turned into its lower case.
pub open spec fn to_lower(b: u8) -> u8 {
    if 'A' as u8 <= b <= 'Z' as u8 {
        (b + ('a' as u8 - 'A' as u8)) as u8
    } else {
        b
    }
}

/// Whether two texts differ at most in the case of their ASCII letters.
pub open spec fn same_ignoring_case(a: Seq<u8>, b: Seq<u8>) -> bool {
    &&& a.len() == b.len()
    &&& forall|i: int| 0 <= i < a.len() ==> to_lower(a[i]) == to_lower(b[i])
}

/// Every window of a text of even length is valid exactly if every byte of
/// the text is a hexadecimal digit.
pub proof fn lemma_windows_valid_iff_digits(text: Seq<u8>)
    requires
        text.len() % 2 == 0,
    ensures
        all_windows_valid(text) <==> all_hex_digits(text),
{
    if all_windows_valid(text) {
        assert forall|i: int| 0 <= i < text.len() implies is_hex_digit(#[trigger] text[i]) by {
            assert(window_is_valid(text, i / 2));
        }
    }
}

/// Where not every window is valid, there is a first one that is not.
pub proof fn lemma_first_invalid_window_exists(text: Seq<u8>)
    requires
        !all_windows_valid(text),
    ensures
        is_first_invalid_window(text, first_invalid_window(text)),
{
    let w = choose|w: int| 0 <= w < text.len() / 2 && !window_is_valid(text, w);
    lemma_invalid_window_before(text, w);
}

/// Below or at an invalid window there is a first invalid window.
proof fn lemma_invalid_window_before(text: Seq<u8>, w: int)
    requires
        0 <= w < text.len() / 2,
        !window_is_valid(text, w),
    ensures
        exists|f: int| is_first_invalid_window(text, f),
    decreases w,
{
    if exists|v: int| 0 <= v < w && !window_is_valid(text, v) {
        let v = choose|v: int| 0 <= v < w && !window_is_valid(text, v);
        lemma_invalid_window_before(text, v);
    } else {
        assert(is_first_invalid_window(text, w));
    }
}

/// Decoding inverts hexadecimal encoding: the text of any bytes, in either
/// case, decodes to those bytes.
pub proof fn lemma_decoding_inverts_hex_text(bytes: Seq<u8>, upper: bool)
    ensures
        hex_decoding(hex_text(bytes, upper)) == Ok::<Seq<u8>, DecodeHexError>(bytes),
{
    let text = hex_text(bytes, upper);
    assert forall|w: int| 0 <= w < text.len() / 2 implies window_is_valid(text, w)
        && window_value(text, w) == bytes[w] by {
        assert((2 * w) / 2 == w && (2 * w) % 2 == 0);
        assert((2 * w + 1) / 2 == w && (2 * w + 1) % 2 == 1);
    }
    assert(Seq::new(text.len() / 2, |w: int| window_value(text, w)) =~= bytes);
}

/// Decoding fails with `OddLength` on every text of odd length, and on no
/// text of even length, whatever its characters.
pub proof fn lemma_odd_length(text: Seq<u8>)
    ensures
        hex_decoding(text) == Err::<Seq<u8>, DecodeHexError>(DecodeHexError::OddLength)
            <==> text.len() % 2 == 1,
{
}

/// Decoding fails with `ParseInt` exactly on the texts of even length in which
/// some byte is not a hexadecimal digit, and succeeds exactly on those in which
/// every byte is one.
pub proof fn lemma_invalid_digit(text: Seq<u8>)
    ensures
        (hex_decoding(text) matches Err(DecodeHexError::ParseInt(_))) <==> (text.len() % 2 == 0
            && !all_hex_digits(text)),
        hex_decoding(text) is Ok <==> (text.len() % 2 == 0 && all_hex_digits(text)),
{
    if text.len() % 2 == 0 {
        lemma_windows_valid_iff_digits(text);
    }
}

/// Where decoding fails with `ParseInt`, the cause names the first window that
/// does not hold two hexadecimal digits.
pub proof fn lemma_invalid_digit_names_first_window(text: Seq<u8>, cause: InvalidDigit)
    requires
        text.len() <= usize::MAX,
        hex_decoding(text) == Err::<Seq<u8>, DecodeHexError>(DecodeHexError::ParseInt(cause)),
    ensures
        is_first_invalid_window(text, cause.window as int),
{
    lemma_first_invalid_window_exists(text);
}

/// Decoding does not tell the two cases of a letter apart: texts that differ
/// only in case have the same outcome.
pub proof fn lemma_case_insensitive(a: Seq<u8>, b: Seq<u8>)
    requires
        same_ignoring_case(a, b),
    ensures
        hex_decoding(a) == hex_decoding(b),
{
    assert forall|i: int| 0 <= i < a.len() implies is_hex_digit(a[i]) == is_hex_digit(b[i]) && (
    is_hex_digit(a[i]) ==> digit_value(a[i]) == digit_value(b[i])) by {
        assert(to_lower(a[i]) == to_lower(b[i]));
    }
    assert forall|w: int| 0 <= w < a.len() / 2 implies window_is_valid(a, w) == window_is_valid(
        b,
        w,
    ) && (window_is_valid(a, w) ==> window_value(a, w) == window_value(b, w)) by {}
    if a.len() % 2 == 0 {
        if all_windows_valid(a) {
            assert(all_windows_valid(b));
            assert(Seq::new(a.len() / 2, |w: int| window_value(a, w)) =~= Seq::new(
                b.len() / 2,
                |w: int| window_value(b, w),
            ));
        } else {
            lemma_first_invalid_window_exists(a);
            let w = first_invalid_window(a);
            assert(is_first_invalid_window(b, w));
            lemma_first_invalid_window_unique(b, w);
        }
    }
}

/// Whether `c` is one of the characters `0-9`, `a-f`, `A-F`.
pub open spec fn is_hex_char(c: char) -> bool {
    ||| '0' <= c <= '9'
    ||| 'a' <= c <= 'f'
    ||| 'A' <= c <= 'F'
}

/// Whether every character of `chars` is a hexadecimal digit.
pub open spec fn all_hex_chars(chars: Seq<char>) -> bool {
    forall|i: int| 0 <= i < chars.len() ==> is_hex_char(#[trigger] chars[i])
}

/// The bytes of one character start with a hexadecimal digit exactly if the
/// character is one, and then that byte is all of them.
proof fn lemma_bytes_of_char(c: char)
    ensures
        encode_scalar(c as u32).len() >= 1,
        is_hex_digit(encode_scalar(c as u32)[0]) <==> is_hex_char(c),
        is_hex_char(c) ==> encode_scalar(c as u32) =~= seq![c as u8],
{
    let scalar = c as u32;
    assert(scalar <= 0x7F ==> (scalar & 0x7F) as u8 == scalar) by (bit_vector);
    assert(0xC0u8 | ((scalar >> 6) & 0x1F) as u8 >= 0xC0) by (bit_vector);
    assert(0xE0u8 | ((scalar >> 12) & 0x0F) as u8 >= 0xE0) by (bit_vector);
    assert(0xF0u8 | ((scalar >> 18) & 0x7) as u8 >= 0xF0) by (bit_vector);
}

/// The bytes of a text are all hexadecimal digits exactly if its characters
/// are, and then the text has one byte for each character: the character's
/// code.
pub proof fn lemma_hex_chars_iff_hex_digits(chars: Seq<char>)
    ensures
        all_hex_chars(chars) <==> all_hex_digits(encode_utf8(chars)),
        all_hex_chars(chars) ==> {
            &&& encode_utf8(chars).len() == chars.len()
            &&& forall|i: int|
                0 <= i < chars.len() ==> encode_utf8(chars)[i] == #[trigger] chars[i] as u8
        },
    decreases chars.len(),
{
    if chars.len() > 0 {
        let rest = chars.drop_first();
        let head = encode_scalar(chars[0] as u32);
        let tail = encode_utf8(rest);
        let text = encode_utf8(chars);
        assert(text == head + tail);
        lemma_bytes_of_char(chars[0]);
        lemma_hex_chars_iff_hex_digits(rest);
        assert(text[0] == head[0]);
        if all_hex_chars(chars) {
            assert(is_hex_char(chars[0]));
            assert forall|i: int| 0 <= i < rest.len() implies is_hex_char(#[trigger] rest[i]) by {
                assert(rest[i] == chars[i + 1]);
            }
            assert forall|i: int| 0 <= i < text.len() implies is_hex_digit(#[trigger] text[i])
                && text[i] == chars[i] as u8 by {
                if i > 0 {
                    assert(text[i] == tail[i - 1]);
                    assert(rest[i - 1] == chars[i]);
                }
            }
        }
        if all_hex_digits(text) {
            assert(is_hex_digit(text[0]));
            assert(head.len() == 1);
            assert forall|j: int| 0 <= j < tail.len() implies is_hex_digit(#[trigger] tail[j]) by {
                assert(tail[j] == text[j + 1]);
            }
            assert forall|i: int| 0 <= i < chars.len() implies is_hex_char(#[trigger] chars[i]) by {
                if i > 0 {
                    assert(chars[i] == rest[i - 1]);
                }
            }
        }
    }
}

/// The outcome of decoding a text, told from its characters: `OddLength` if
/// its length in bytes is odd; else `ParseInt` if some character of it is not
/// a hexadecimal digit; else its bytes, one for every two characters.
pub proof fn lemma_outcome_by_characters(chars: Seq<char>)
    ensures
        hex_decoding(encode_utf8(chars)) == Err::<Seq<u8>, DecodeHexError>(
            DecodeHexError::OddLength,
        ) <==> encode_utf8(chars).len() % 2 == 1,
        (hex_decoding(encode_utf8(chars)) matches Err(DecodeHexError::ParseInt(_))) <==> (
        encode_utf8(chars).len() % 2 == 0 && !all_hex_chars(chars)),
        hex_decoding(encode_utf8(chars)) is Ok <==> (encode_utf8(chars).len() % 2 == 0
            && all_hex_chars(chars)),
        hex_decoding(encode_utf8(chars)) matches Ok(bytes) ==> 2 * bytes.len() == chars.len(),
{
    lemma_hex_chars_iff_hex_digits(chars);
    lemma_invalid_digit(encode_utf8(chars));
}

} // verus!
