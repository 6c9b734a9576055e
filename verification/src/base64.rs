//! Base64 text of a byte sequence, over the standard alphabet with `=` padding.
//!
//! The text is described by [`base64_text`]: the bytes are taken three at a
//! time, each group of three gives four symbols of the alphabet, and a last
//! group of one or two bytes is filled up with `=`.

use vstd::prelude::*;

verus! {

/// The 64 symbols, in the order of the values they stand for.
pub const ALPHABET: [char; 64] = [
    'A', 'B', 'C', 'D', 'E', 'F', 'G', 'H', 'I', 'J', 'K', 'L', 'M', 'N', 'O', 'P',
    'Q', 'R', 'S', 'T', 'U', 'V', 'W', 'X', 'Y', 'Z', 'a', 'b', 'c', 'd', 'e', 'f',
    'g', 'h', 'i', 'j', 'k', 'l', 'm', 'n', 'o', 'p', 'q', 'r', 's', 't', 'u', 'v',
    'w', 'x', 'y', 'z', '0', '1', '2', '3', '4', '5', '6', '7', '8', '9', '+', '/',
];

/// The character that fills up a last group of fewer than three bytes.
pub const PAD: char = '=';

/// The symbol that stands for the 6-bit value `index`.
pub open spec fn symbol(index: u8) -> char
    recommends
        index < 64,
{
    ALPHABET@[index as int]
}

/// The 6-bit value of the first symbol of a group: the high six bits of `b0`.
pub open spec fn index0(b0: u8) -> u8 {
    b0 >> 2
}

/// The 6-bit value of the second symbol: the low two bits of `b0`, then the
/// high four bits of `b1`.
pub open spec fn index1(b0: u8, b1: u8) -> u8 {
    ((b0 & 0x03) << 4) | (b1 >> 4)
}

/// The 6-bit value of the third symbol: the low four bits of `b1`, then the
/// high two bits of `b2`.
pub open spec fn index2(b1: u8, b2: u8) -> u8 {
    ((b1 & 0x0F) << 2) | (b2 >> 6)
}

/// The 6-bit value of the fourth symbol: the low six bits of `b2`.
pub open spec fn index3(b2: u8) -> u8 {
    b2 & 0x3F
}

/// The four symbols of the group `b0, b1, b2`.
pub open spec fn group_symbols(b0: u8, b1: u8, b2: u8) -> Seq<char> {
    seq![
        symbol(index0(b0)),
        symbol(index1(b0, b1)),
        symbol(index2(b1, b2)),
        symbol(index3(b2)),
    ]
}

/// The Base64 text of `bytes`.
///
/// A full group of three bytes gives its four symbols. A last group of two
/// bytes gives the first three symbols of the group filled with a zero byte,
/// then one `=`; a last group of one byte gives the first two symbols, then
/// `==`. No bytes give no text.
pub open spec fn base64_text(bytes: Seq<u8>) -> Seq<char>
    decreases bytes.len(),
{
    if bytes.len() == 0 {
        Seq::empty()
    } else if bytes.len() == 1 {
        group_symbols(bytes[0], 0, 0).take(2) + seq![PAD, PAD]
    } else if bytes.len() == 2 {
        group_symbols(bytes[0], bytes[1], 0).take(3) + seq![PAD]
    } else {
        group_symbols(bytes[0], bytes[1], bytes[2]) + base64_text(bytes.skip(3))
    }
}

/// The four 6-bit values of a group are below 64, so each has a symbol.
pub proof fn lemma_indices_in_range(b0: u8, b1: u8, b2: u8)
    ensures
        index0(b0) < 64,
        index1(b0, b1) < 64,
        index2(b1, b2) < 64,
        index3(b2) < 64,
{
    assert(b0 >> 2 < 64) by (bit_vector);
    assert(((b0 & 0x03) << 4) | (b1 >> 4) < 64) by (bit_vector);
    assert(((b1 & 0x0F) << 2) | (b2 >> 6) < 64) by (bit_vector);
    assert(b2 & 0x3F < 64) by (bit_vector);
}

/// Computes the four symbols of one group.
fn encode_group(b0: u8, b1: u8, b2: u8) -> (group: [char; 4])
    ensures
        group@ == group_symbols(b0, b1, b2),
{
    proof {
        lemma_indices_in_range(b0, b1, b2);
    }
    let i0: u8 = b0 >> 2;
    let i1: u8 = ((b0 & 0x03) << 4) | (b1 >> 4);
    let i2: u8 = ((b1 & 0x0F) << 2) | (b2 >> 6);
    let i3: u8 = b2 & 0x3F;
    let group: [char; 4] = [
        ALPHABET[i0 as usize],
        ALPHABET[i1 as usize],
        ALPHABET[i2 as usize],
        ALPHABET[i3 as usize],
    ];
    assert(group@ =~= group_symbols(b0, b1, b2));
    group
}

/// `String::push` of the standard library: the string afterwards is the string
/// before with `ch` appended as its last character, and nothing else changed.
pub assume_specification[ String::push ](text: &mut String, ch: char)
    ensures
        final(text)@ == old(text)@.push(ch),
;

/// Writes `bytes` as Base64 text.
///
/// Every byte sequence has a text, the empty one included. The text has four
/// characters for every started group of three bytes.
pub fn bytes_to_base64(bytes: &[u8]) -> (text: String)
    ensures
        text@ == base64_text(bytes@),
        text@.len() == 4 * ((bytes@.len() + 2) / 3),
        text@.len() % 4 == 0,
{
    let n = bytes.len();
    let mut text = String::new();
    let mut i: usize = 0;
    assert(bytes@.skip(0) =~= bytes@);
    while n - i >= 3
        invariant
            n == bytes@.len(),
            i <= n,
            text@ + base64_text(bytes@.skip(i as int)) == base64_text(bytes@),
        decreases n - i,
    {
        let group = encode_group(bytes[i], bytes[i + 1], bytes[i + 2]);
        proof {
            let rest = bytes@.skip(i as int);
            assert(rest.skip(3) =~= bytes@.skip(i + 3));
            assert(text@ + group@ + base64_text(rest.skip(3)) =~= text@ + base64_text(rest));
        }
        text.push(group[0]);
        text.push(group[1]);
        text.push(group[2]);
        text.push(group[3]);
        i += 3;
    }
    if n - i == 2 {
        let group = encode_group(bytes[i], bytes[i + 1], 0);
        text.push(group[0]);
        text.push(group[1]);
        text.push(group[2]);
        text.push(PAD);
    } else if n - i == 1 {
        let group = encode_group(bytes[i], 0, 0);
        text.push(group[0]);
        text.push(group[1]);
        text.push(PAD);
        text.push(PAD);
    }
    proof {
        lemma_base64_text_len(bytes@);
    }
    text
}

/// The text has four characters for every started group of three bytes, so
/// its length is `4 * ceil(len / 3)`, a multiple of four.
pub proof fn lemma_base64_text_len(bytes: Seq<u8>)
    ensures
        base64_text(bytes).len() == 4 * ((bytes.len() + 2) / 3),
        base64_text(bytes).len() % 4 == 0,
    decreases bytes.len(),
{
    if bytes.len() >= 3 {
        lemma_base64_text_len(bytes.skip(3));
    }
}

/// Whether `c` is one of the 64 characters `A-Z`, `a-z`, `0-9`, `+`, `/`.
pub open spec fn is_alphabet_char(c: char) -> bool {
    ||| 'A' <= c <= 'Z'
    ||| 'a' <= c <= 'z'
    ||| '0' <= c <= '9'
    ||| c == '+'
    ||| c == '/'
}

/// How many `=` end the text of `len` bytes: as many as the last group lacks
/// bytes.
pub open spec fn padding_len(len: nat) -> nat {
    if len % 3 == 1 {
        2
    } else if len % 3 == 2 {
        1
    } else {
        0
    }
}

/// The symbols run through `A-Z`, then `a-z`, then `0-9`, then `+` and `/`.
pub proof fn lemma_symbol_order(index: u8)
    requires
        index < 64,
    ensures
        index < 26 ==> symbol(index) as int == 'A' as int + index,
        26 <= index < 52 ==> symbol(index) as int == 'a' as int + (index - 26),
        52 <= index < 62 ==> symbol(index) as int == '0' as int + (index - 52),
        index == 62 ==> symbol(index) == '+',
        index == 63 ==> symbol(index) == '/',
        is_alphabet_char(symbol(index)),
{
}

/// The text is made of characters of the alphabet, but for its end, which is
/// as many `=` as the last group lacks bytes.
pub proof fn lemma_base64_text_shape(bytes: Seq<u8>)
    ensures
        padding_len(bytes.len()) <= base64_text(bytes).len(),
        forall|k: int|
            0 <= k < base64_text(bytes).len() - padding_len(bytes.len()) ==> is_alphabet_char(
                #[trigger] base64_text(bytes)[k],
            ),
        forall|k: int|
            base64_text(bytes).len() - padding_len(bytes.len()) <= k < base64_text(bytes).len()
                ==> #[trigger] base64_text(bytes)[k] == PAD,
    decreases bytes.len(),
{
    let text = base64_text(bytes);
    lemma_base64_text_len(bytes);
    if bytes.len() == 1 {
        lemma_indices_in_range(bytes[0], 0, 0);
        lemma_symbol_order(index0(bytes[0]));
        lemma_symbol_order(index1(bytes[0], 0));
    } else if bytes.len() == 2 {
        lemma_indices_in_range(bytes[0], bytes[1], 0);
        lemma_symbol_order(index0(bytes[0]));
        lemma_symbol_order(index1(bytes[0], bytes[1]));
        lemma_symbol_order(index2(bytes[1], 0));
    } else if bytes.len() >= 3 {
        let rest = bytes.skip(3);
        lemma_base64_text_shape(rest);
        lemma_base64_text_len(rest);
        lemma_indices_in_range(bytes[0], bytes[1], bytes[2]);
        lemma_symbol_order(index0(bytes[0]));
        lemma_symbol_order(index1(bytes[0], bytes[1]));
        lemma_symbol_order(index2(bytes[1], bytes[2]));
        lemma_symbol_order(index3(bytes[2]));
        assert forall|k: int| 4 <= k < text.len() implies text[k] == base64_text(rest)[k - 4] by {}
    }
}

} // verus!
