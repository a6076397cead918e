//! Text carried by frames and by error messages: UTF-8 validation, the
//! decimal and list forms used in diagnostics.

use crate::resp::decimal::{digits, lemma_digits_value};
use vstd::prelude::*;
use vstd::string::StringExecFns;
use vstd::utf8::{
    decode_utf8, encode_scalar, encode_utf8, encode_utf8_decode_utf8, encode_utf8_valid_utf8,
    is_ascii_chars, is_ascii_chars_encode_utf8, valid_utf8,
};

verus! {

/// `core::str::Utf8Error`, what `core::str::from_utf8` fails with. Nothing is
/// said of what it holds.
#[verifier::external_type_specification]
#[verifier::external_body]
pub struct ExUtf8Error(core::str::Utf8Error);

/// `core::str::from_utf8` succeeds exactly on byte runs that are well-formed
/// UTF-8, and the string slice it then returns holds the scalar values that
/// those bytes encode.
pub assume_specification<'a>[ core::str::from_utf8 ](v: &'a [u8]) -> (r: Result<
    &'a str,
    core::str::Utf8Error,
>)
    ensures
        r is Ok <==> valid_utf8(v@),
        r matches Ok(s) ==> s@ == decode_utf8(v@),
;

/// The text that `bytes` encode, if they are well-formed UTF-8.
pub fn read_text(bytes: &[u8]) -> (r: Option<String>)
    ensures
        r is Some <==> valid_utf8(bytes@),
        r matches Some(s) ==> s@ == decode_utf8(bytes@),
{
    match core::str::from_utf8(bytes) {
        Ok(s) => Some(s.to_owned()),
        Err(_) => None,
    }
}

/// The text that `String::from_utf8_lossy` makes of `bytes`.
pub uninterp spec fn lossy_text(bytes: Seq<u8>) -> Seq<char>;

/// `String::from_utf8_lossy` reads `bytes` as UTF-8 and puts the replacement
/// character where they are not. What it makes of given bytes is always the
/// same text.
#[verifier::external_body]
fn lossy(bytes: &[u8]) -> (s: String)
    ensures
        s@ == lossy_text(bytes@),
{
    String::from_utf8_lossy(bytes).into_owned()
}

/// The text of `bytes`: what they encode, where they are well-formed UTF-8,
/// and else what a reading that replaces the malformed parts makes of them.
pub open spec fn text_of(bytes: Seq<u8>) -> Seq<char> {
    if valid_utf8(bytes) {
        decode_utf8(bytes)
    } else {
        lossy_text(bytes)
    }
}

/// Reads `bytes` as text.
pub fn to_text(bytes: &[u8]) -> (s: String)
    ensures
        s@ == text_of(bytes@),
{
    match read_text(bytes) {
        Some(s) => s,
        None => lossy(bytes),
    }
}

/// The characters of a run of ASCII bytes.
pub open spec fn ascii_chars(bytes: Seq<u8>) -> Seq<char> {
    Seq::new(bytes.len(), |i: int| bytes[i] as char)
}

/// Whether every byte of `bytes` is an ASCII character.
pub open spec fn is_ascii_bytes(bytes: Seq<u8>) -> bool {
    forall|i: int| 0 <= i < bytes.len() ==> #[trigger] bytes[i] < 128
}

/// A run of ASCII bytes is well-formed UTF-8, and encodes its characters.
pub proof fn lemma_ascii_is_utf8(bytes: Seq<u8>)
    requires
        is_ascii_bytes(bytes),
    ensures
        valid_utf8(bytes),
        decode_utf8(bytes) == ascii_chars(bytes),
        encode_utf8(ascii_chars(bytes)) == bytes,
{
    let chars = ascii_chars(bytes);
    assert forall|i: int| 0 <= i < chars.len() implies '\0' <= #[trigger] chars[i] <= '\u{7f}' by {
        assert(bytes[i] < 128);
    }
    assert(is_ascii_chars(chars));
    is_ascii_chars_encode_utf8(chars);
    assert forall|i: int| 0 <= i < bytes.len() implies encode_utf8(chars)[i] == bytes[i] by {
        assert(chars[i] as u8 == encode_utf8(chars)[i]);
        assert(bytes[i] < 128);
    }
    assert(encode_utf8(chars) =~= bytes);
    encode_utf8_valid_utf8(chars);
    encode_utf8_decode_utf8(chars);
}

/// The bytes of one character: the character itself where it is ASCII, and
/// else bytes that are not ASCII.
pub proof fn lemma_scalar_bytes(c: char)
    ensures
        (c as u32) < 128 ==> encode_scalar(c as u32) == seq![c as u8],
        (c as u32) >= 128 ==> forall|i: int|
            0 <= i < encode_scalar(c as u32).len() ==> #[trigger] encode_scalar(c as u32)[i] >= 128,
        1 <= encode_scalar(c as u32).len() <= 4,
{
    let s = c as u32;
    if s < 128 {
        assert((s & 0x7F) as u8 == s as u8) by (bit_vector)
            requires
                s < 128,
        ;
        assert(encode_scalar(s) =~= seq![c as u8]);
    } else {
        let lead2 = ((s >> 6) & 0x1F) as u8;
        let lead3 = ((s >> 12) & 0x0F) as u8;
        let lead4 = ((s >> 18) & 0x7) as u8;
        let last = (s & 0x3F) as u8;
        let second = ((s >> 6) & 0x3F) as u8;
        let third = ((s >> 12) & 0x3F) as u8;
        assert(0xC0u8 | lead2 >= 128) by (bit_vector);
        assert(0xE0u8 | lead3 >= 128) by (bit_vector);
        assert(0xF0u8 | lead4 >= 128) by (bit_vector);
        assert(0x80u8 | last >= 128) by (bit_vector);
        assert(0x80u8 | second >= 128) by (bit_vector);
        assert(0x80u8 | third >= 128) by (bit_vector);
    }
}

/// ASCII characters of the same byte are the same.
proof fn lemma_ascii_chars_by_byte(a: char, c: char)
    requires
        (a as u32) < 128,
        (c as u32) < 128,
        a as u8 == c as u8,
    ensures
        a == c,
{
    assert((a as u8) as u32 == a as u32);
    assert((c as u8) as u32 == c as u32);
}

/// Whether `bytes` hold the byte `b`.
pub open spec fn holds_byte(bytes: Seq<u8>, b: u8) -> bool {
    exists|i: int| 0 <= i < bytes.len() && #[trigger] bytes[i] == b
}

/// Whether `text` holds the character `c`.
pub open spec fn holds_char(text: Seq<char>, c: char) -> bool {
    exists|i: int| 0 <= i < text.len() && #[trigger] text[i] == c
}

/// The bytes of a text hold an ASCII byte where the text holds that
/// character, and nowhere else.
pub proof fn lemma_ascii_byte_in_text(text: Seq<char>, c: char)
    requires
        (c as u32) < 128,
    ensures
        holds_byte(encode_utf8(text), c as u8) <==> holds_char(text, c),
    decreases text.len(),
{
    if text.len() == 0 {
    } else {
        let first = encode_scalar(text[0] as u32);
        let rest = text.drop_first();
        let bytes = encode_utf8(text);
        lemma_scalar_bytes(text[0]);
        lemma_ascii_byte_in_text(rest, c);
        assert(bytes =~= first + encode_utf8(rest));
        if holds_char(text, c) {
            let i = choose|i: int| 0 <= i < text.len() && #[trigger] text[i] == c;
            if i == 0 {
                assert(bytes[0] == c as u8);
            } else {
                assert(rest[i - 1] == c);
                assert(holds_char(rest, c));
                let j = choose|j: int|
                    0 <= j < encode_utf8(rest).len() && #[trigger] encode_utf8(rest)[j] == c as u8;
                assert(bytes[first.len() + j] == c as u8);
            }
        }
        if holds_byte(bytes, c as u8) {
            let j = choose|j: int| 0 <= j < bytes.len() && #[trigger] bytes[j] == c as u8;
            if j < first.len() {
                assert(bytes[j] == first[j]);
                if (text[0] as u32) >= 128 {
                    assert(first[j] >= 128);
                } else {
                    lemma_ascii_chars_by_byte(text[0], c);
                }
            } else {
                assert(encode_utf8(rest)[j - first.len()] == c as u8);
                assert(holds_byte(encode_utf8(rest), c as u8));
                let i = choose|i: int| 0 <= i < rest.len() && #[trigger] rest[i] == c;
                assert(text[i + 1] == c);
            }
        }
    }
}

/// The decimal text of `n`.
pub open spec fn decimal_chars(n: nat) -> Seq<char> {
    ascii_chars(digits(n))
}

/// The numbers of `bytes` in decimal, separated by a comma and a space.
pub open spec fn listed_chars(bytes: Seq<u8>) -> Seq<char>
    decreases bytes.len(),
{
    if bytes.len() == 0 {
        Seq::empty()
    } else if bytes.len() == 1 {
        decimal_chars(bytes[0] as nat)
    } else {
        listed_chars(bytes.drop_last()) + seq![',', ' '] + decimal_chars(bytes.last() as nat)
    }
}

/// The list form of a byte run: its numbers between square brackets.
pub open spec fn debug_chars(bytes: Seq<u8>) -> Seq<char> {
    seq!['['] + listed_chars(bytes) + seq![']']
}

/// The one-character string of the decimal digit `d`.
fn digit_str(d: u8) -> (s: &'static str)
    requires
        d < 10,
    ensures
        s@ == seq![(48 + d) as u8 as char],
{
    proof {
        reveal_strlit("0");
        reveal_strlit("1");
        reveal_strlit("2");
        reveal_strlit("3");
        reveal_strlit("4");
        reveal_strlit("5");
        reveal_strlit("6");
        reveal_strlit("7");
        reveal_strlit("8");
        reveal_strlit("9");
    }
    let s = if d == 0 {
        "0"
    } else if d == 1 {
        "1"
    } else if d == 2 {
        "2"
    } else if d == 3 {
        "3"
    } else if d == 4 {
        "4"
    } else if d == 5 {
        "5"
    } else if d == 6 {
        "6"
    } else if d == 7 {
        "7"
    } else if d == 8 {
        "8"
    } else {
        "9"
    };
    assert(s@ =~= seq![(48 + d) as u8 as char]);
    s
}

/// Appends the decimal text of `n` to `out`.
pub fn push_decimal(n: u64, out: &mut String)
    ensures
        final(out)@ == old(out)@ + decimal_chars(n as nat),
    decreases n,
{
    if n >= 10 {
        push_decimal(n / 10, out);
    }
    let d: u8 = (n % 10) as u8;
    out.append(digit_str(d));
    proof {
        lemma_digits_value(n as nat);
        assert(final(out)@ =~= old(out)@ + decimal_chars(n as nat));
    }
}

/// Appends the list form of `bytes` to `out`.
pub fn push_debug(bytes: &[u8], out: &mut String)
    ensures
        final(out)@ == old(out)@ + debug_chars(bytes@),
{
    proof {
        reveal_strlit("[");
        reveal_strlit("]");
        reveal_strlit(", ");
    }
    out.append("[");
    let ghost start = out@;
    let mut i: usize = 0;
    while i < bytes.len()
        invariant
            0 <= i <= bytes.len(),
            out@ == start + listed_chars(bytes@.take(i as int)),
        decreases bytes.len() - i,
    {
        if i > 0 {
            out.append(", ");
        }
        push_decimal(bytes[i] as u64, out);
        i = i + 1;
        proof {
            let seen = bytes@.take(i as int);
            assert(seen.drop_last() =~= bytes@.take(i - 1));
            assert(seen.last() == bytes@[i - 1]);
            reveal_strlit(", ");
            assert(", "@ =~= seq![',', ' ']);
            assert(out@ =~= start + listed_chars(seen));
        }
    }
    out.append("]");
    proof {
        assert(bytes@.take(bytes.len() as int) =~= bytes@);
        assert("["@ =~= seq!['[']);
        assert("]"@ =~= seq![']']);
        assert(final(out)@ =~= old(out)@ + debug_chars(bytes@));
    }
}

} // verus!
