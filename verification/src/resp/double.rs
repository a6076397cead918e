//! Double frames: `,[<+|->]<integral>[.<fractional>][<E|e>[sign]<exponent>]\r\n`.
//!
//! A double is held as the decimal text that stands for it on the wire, so
//! that it goes out as it came in. The text is a sign, if any, and then
//! `inf`, `infinity` or `nan` in any case, or digits with an optional
//! fraction and an optional exponent.

use crate::resp::decimal::is_digit;
use crate::resp::text::read_text;
use crate::resp::{
    crlf_free, line_field, line_wire, push_all, push_line_end, read_line, DecodeError,
    RespDecode, RespEncode, RespError, CR, LF,
};
use vstd::prelude::*;
use vstd::utf8::{decode_utf8, decode_utf8_encode_utf8, encode_utf8, valid_utf8};

verus! {

/// The prefix byte of a double frame.
pub const PREFIX: u8 = 44;

/// A double, by its decimal text.
#[derive(Debug, PartialEq)]
pub struct Double(String);

impl View for Double {
    type V = Seq<char>;

    closed spec fn view(&self) -> Seq<char> {
        self.0@
    }
}

/// The frame of the double whose text is `text`.
pub open spec fn wire_of(text: Seq<char>) -> Seq<u8> {
    line_wire(PREFIX, encode_utf8(text))
}

/// The double at the front of `buf`.
pub open spec fn read_of(buf: Seq<u8>) -> Result<Seq<char>, DecodeError> {
    match line_field(buf) {
        Err(e) => Err(e),
        Ok(field) => if !valid_utf8(field) {
            Err(DecodeError::Utf8Error)
        } else if !is_double_text(field) {
            Err(DecodeError::ParseFloatError)
        } else {
            Ok(decode_utf8(field))
        },
    }
}

impl Double {
    /// The text of a double is the decimal text of a number.
    #[verifier::type_invariant]
    spec fn decimal(self) -> bool {
        is_double_text(encode_utf8(self.0@))
    }

    /// Tells that the text is the decimal text of a number. There is nothing
    /// to run.
    pub fn is_decimal(&self)
        ensures
            is_double_text(encode_utf8(self@)),
    {
        proof {
            use_type_invariant(self);
        }
    }

    /// The double that `text` stands for, if it is the text of one.
    pub fn new(text: &str) -> (r: Option<Self>)
        ensures
            r is Some <==> is_double_text(encode_utf8(text@)),
            r matches Some(d) ==> d@ == text@,
    {
        if check_double_text(text.as_bytes()) {
            Some(Double(text.to_owned()))
        } else {
            None
        }
    }

    /// The decimal text.
    pub fn as_str(&self) -> (s: &str)
        ensures
            s@ == self@,
    {
        self.0.as_str()
    }
}

impl Clone for Double {
    fn clone(&self) -> (r: Self)
        ensures
            r@ == self@,
    {
        proof {
            use_type_invariant(self);
        }
        Double(self.0.clone())
    }
}

impl RespEncode for Double {
    open spec fn wire(&self) -> Seq<u8> {
        wire_of(self@)
    }

    fn encode(&self) -> (buf: Vec<u8>) {
        let mut buf: Vec<u8> = Vec::new();
        buf.push(PREFIX);
        push_all(&mut buf, self.0.as_str().as_bytes());
        push_line_end(&mut buf);
        assert(buf@ =~= self.wire());
        buf
    }

    fn byte_size(&self) -> (size: usize) {
        self.0.as_str().as_bytes().len() + 3
    }
}

impl RespDecode for Double {
    open spec fn read(buf: Seq<u8>) -> Result<Seq<char>, DecodeError> {
        read_of(buf)
    }

    fn decode(buf: &[u8]) -> (r: Result<Self, RespError>) {
        let field = match read_line(buf) {
            Ok(field) => field,
            Err(e) => {
                return Err(e);
            },
        };
        let text = match read_text(field) {
            Some(text) => text,
            None => {
                return Err(RespError::Utf8Error);
            },
        };
        if !check_double_text(field) {
            return Err(RespError::ParseFloatError);
        }
        proof {
            decode_utf8_encode_utf8(field@);
        }
        Ok(Double(text))
    }
}

/// The lower-case form of an ASCII letter; any other byte as it is.
pub open spec fn lower(b: u8) -> u8 {
    if 65 <= b <= 90 {
        (b + 32) as u8
    } else {
        b
    }
}

/// Whether `s` is `word` when letters are taken without their case.
pub open spec fn is_word(s: Seq<u8>, word: Seq<u8>) -> bool {
    s.len() == word.len() && forall|i: int| 0 <= i < s.len() ==> lower(#[trigger] s[i]) == word[i]
}

/// The name of infinity, short.
pub open spec fn word_inf() -> Seq<u8> {
    seq![105u8, 110u8, 102u8]
}

/// The name of infinity, long.
pub open spec fn word_infinity() -> Seq<u8> {
    seq![105u8, 110u8, 102u8, 105u8, 110u8, 105u8, 116u8, 121u8]
}

/// The name of what is not a number.
pub open spec fn word_nan() -> Seq<u8> {
    seq![110u8, 97u8, 110u8]
}

/// The index of the first byte at or after `from` that is no digit.
pub open spec fn digits_end(s: Seq<u8>, from: int) -> int
    decreases s.len() - from,
{
    if 0 <= from < s.len() && is_digit(s[from]) {
        digits_end(s, from + 1)
    } else {
        from
    }
}

/// Whether a sign stands at `at`.
pub open spec fn sign_at(s: Seq<u8>, at: int) -> bool {
    0 <= at < s.len() && (s[at] == 43 || s[at] == 45)
}

/// Whether `s` from `from` on is an exponent: `e` or `E`, a sign if any, and
/// one digit or more up to the end.
pub open spec fn is_exponent(s: Seq<u8>, from: int) -> bool {
    let start = if sign_at(s, from + 1) {
        from + 2
    } else {
        from + 1
    };
    &&& 0 <= from < s.len()
    &&& (s[from] == 101 || s[from] == 69)
    &&& digits_end(s, start) == s.len()
    &&& start < s.len()
}

/// Whether `s` from `from` on is a number without sign: digits, of which a
/// point may stand before, between or after, and an exponent if any.
pub open spec fn is_number(s: Seq<u8>, from: int) -> bool {
    let whole_end = digits_end(s, from);
    let has_point = whole_end < s.len() && s[whole_end] == 46;
    let mantissa_end = if has_point {
        digits_end(s, whole_end + 1)
    } else {
        whole_end
    };
    let digit_count = if has_point {
        mantissa_end - from - 1
    } else {
        mantissa_end - from
    };
    &&& digit_count >= 1
    &&& (mantissa_end == s.len() || is_exponent(s, mantissa_end))
}

/// Whether `s` is the decimal text of a double.
pub open spec fn is_double_text(s: Seq<u8>) -> bool {
    let from: int = if sign_at(s, 0) {
        1
    } else {
        0
    };
    let body = s.skip(from);
    is_word(body, word_inf()) || is_word(body, word_infinity()) || is_word(body, word_nan())
        || is_number(s, from)
}

/// The digits of a text end within the text, after where they start.
pub proof fn lemma_digits_end_bounds(s: Seq<u8>, from: int)
    requires
        0 <= from <= s.len(),
    ensures
        from <= digits_end(s, from) <= s.len(),
        forall|i: int| from <= i < digits_end(s, from) ==> is_digit(#[trigger] s[i]),
        digits_end(s, from) < s.len() ==> !is_digit(s[digits_end(s, from)]),
    decreases s.len() - from,
{
    if from < s.len() && is_digit(s[from]) {
        lemma_digits_end_bounds(s, from + 1);
    }
}

/// Finds the first byte at or after `from` that is no digit.
fn skip_digits(s: &[u8], from: usize) -> (end: usize)
    requires
        from <= s@.len(),
    ensures
        end == digits_end(s@, from as int),
        from <= end <= s@.len(),
{
    let mut i: usize = from;
    while i < s.len() && s[i] >= 48 && s[i] <= 57
        invariant
            from <= i <= s@.len(),
            digits_end(s@, from as int) == digits_end(s@, i as int),
        decreases s@.len() - i,
    {
        i = i + 1;
    }
    i
}

/// The lower-case form of an ASCII letter; any other byte as it is.
fn to_lower(b: u8) -> (r: u8)
    ensures
        r == lower(b),
{
    if b >= 65 && b <= 90 {
        b + 32
    } else {
        b
    }
}

/// Whether `s` from `from` on is the three-letter word `a b c`, whatever the
/// case of its letters.
fn is_word3(s: &[u8], from: usize, a: u8, b: u8, c: u8) -> (r: bool)
    requires
        from <= s@.len(),
    ensures
        r == is_word(s@.skip(from as int), seq![a, b, c]),
{
    if s.len() - from != 3 {
        return false;
    }
    let r = to_lower(s[from]) == a && to_lower(s[from + 1]) == b && to_lower(s[from + 2]) == c;
    proof {
        let body = s@.skip(from as int);
        let word = seq![a, b, c];
        assert(body[0] == s@[from as int]);
        assert(body[1] == s@[from + 1]);
        assert(body[2] == s@[from + 2]);
        if r {
            assert forall|i: int| 0 <= i < body.len() implies lower(#[trigger] body[i])
                == word[i] by {}
        }
    }
    r
}

/// Whether `s` from `from` on is `infinity`, whatever the case of its letters.
fn is_infinity(s: &[u8], from: usize) -> (r: bool)
    requires
        from <= s@.len(),
    ensures
        r == is_word(s@.skip(from as int), word_infinity()),
{
    if s.len() - from != 8 {
        return false;
    }
    let r = to_lower(s[from]) == 105 && to_lower(s[from + 1]) == 110 && to_lower(s[from + 2])
        == 102 && to_lower(s[from + 3]) == 105 && to_lower(s[from + 4]) == 110 && to_lower(
        s[from + 5],
    ) == 105 && to_lower(s[from + 6]) == 116 && to_lower(s[from + 7]) == 121;
    proof {
        let body = s@.skip(from as int);
        let word = word_infinity();
        assert(body[0] == s@[from as int]);
        assert(body[1] == s@[from + 1]);
        assert(body[2] == s@[from + 2]);
        assert(body[3] == s@[from + 3]);
        assert(body[4] == s@[from + 4]);
        assert(body[5] == s@[from + 5]);
        assert(body[6] == s@[from + 6]);
        assert(body[7] == s@[from + 7]);
        if r {
            assert forall|i: int| 0 <= i < body.len() implies lower(#[trigger] body[i])
                == word[i] by {}
        }
    }
    r
}

/// Whether `s` from `from` on is an exponent.
fn check_exponent(s: &[u8], from: usize) -> (r: bool)
    requires
        from < s@.len(),
    ensures
        r == is_exponent(s@, from as int),
{
    if s[from] != 101 && s[from] != 69 {
        return false;
    }
    let start: usize = if from + 1 < s.len() && (s[from + 1] == 43 || s[from + 1] == 45) {
        from + 2
    } else {
        from + 1
    };
    if start >= s.len() {
        proof {
            if start == s@.len() {
            } else {
                assert(digits_end(s@, start as int) == start);
            }
        }
        return false;
    }
    let end = skip_digits(s, start);
    end == s.len()
}

/// Whether `s` from `from` on is a number without sign.
fn check_number(s: &[u8], from: usize) -> (r: bool)
    requires
        from <= s@.len(),
    ensures
        r == is_number(s@, from as int),
{
    let whole_end = skip_digits(s, from);
    let has_point = whole_end < s.len() && s[whole_end] == 46;
    let mantissa_end = if has_point {
        skip_digits(s, whole_end + 1)
    } else {
        whole_end
    };
    let digit_count = if has_point {
        mantissa_end - from - 1
    } else {
        mantissa_end - from
    };
    if digit_count < 1 {
        return false;
    }
    if mantissa_end == s.len() {
        return true;
    }
    check_exponent(s, mantissa_end)
}

/// Whether `s` is the decimal text of a double.
pub fn check_double_text(s: &[u8]) -> (r: bool)
    ensures
        r == is_double_text(s@),
{
    let from: usize = if s.len() > 0 && (s[0] == 43 || s[0] == 45) {
        1
    } else {
        0
    };
    is_word3(s, from, 105, 110, 102) || is_infinity(s, from) || is_word3(s, from, 110, 97, 110)
        || check_number(s, from)
}

/// The text of a double has neither a carriage return nor a line feed.
pub proof fn lemma_double_text_crlf_free(s: Seq<u8>)
    requires
        is_double_text(s),
    ensures
        crlf_free(s),
{
    let from: int = if sign_at(s, 0) {
        1
    } else {
        0
    };
    let body = s.skip(from);
    assert forall|i: int| 0 <= i < s.len() implies #[trigger] s[i] != CR && s[i] != LF by {
        if i >= from {
            assert(body[i - from] == s[i]);
        }
        if is_word(body, word_inf()) || is_word(body, word_infinity()) || is_word(
            body,
            word_nan(),
        ) {
        } else {
            lemma_number_crlf_free(s, from, i);
        }
    }
}

/// No byte of a number is a carriage return or a line feed.
proof fn lemma_number_crlf_free(s: Seq<u8>, from: int, i: int)
    requires
        0 <= from <= 1,
        from == 1 ==> sign_at(s, 0),
        is_number(s, from),
        0 <= i < s.len(),
    ensures
        s[i] != CR && s[i] != LF,
{
    let whole_end = digits_end(s, from);
    lemma_digits_end_bounds(s, from);
    let has_point = whole_end < s.len() && s[whole_end] == 46;
    if has_point {
        lemma_digits_end_bounds(s, whole_end + 1);
    }
    let mantissa_end = if has_point {
        digits_end(s, whole_end + 1)
    } else {
        whole_end
    };
    if mantissa_end < s.len() {
        let start = if sign_at(s, mantissa_end + 1) {
            mantissa_end + 2
        } else {
            mantissa_end + 1
        };
        lemma_digits_end_bounds(s, start);
    }
}

} // verus!
