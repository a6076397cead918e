//! The frame family of the wire protocol and its codec.
//!
//! Every frame starts with one prefix byte that tells its kind, and every
//! header line ends with a carriage return and a line feed:
//!
//! - simple string: `+OK\r\n`
//! - simple error: `-Error message\r\n`
//! - integer: `:[<+|->]<value>\r\n`
//! - bulk string: `$<length>\r\n<data>\r\n`, and `$-1\r\n` for the null one
//! - bulk error: `!<length>\r\n<error>\r\n`
//! - null: `_\r\n`
//! - boolean: `#<t|f>\r\n`
//! - double: `,[<+|->]<integral>[.<fractional>][<E|e>[sign]<exponent>]\r\n`
//! - array: `*<number-of-elements>\r\n<element-1>...<element-n>`, and
//!   `*-1\r\n` for the null one
//! - set: `~<number-of-elements>\r\n<element-1>...<element-n>`
//! - map: `%<number-of-entries>\r\n<key-1><value-1>...<key-n><value-n>`

pub mod array;
pub mod boolean;
pub mod bulk_error;
pub mod bulk_string;
pub mod collection;
pub mod convert;
pub mod decimal;
pub mod decode;
pub mod double;
pub mod encode;
pub mod frame;
pub mod integer;
pub mod laws;
pub mod mapping;
pub mod null;
pub mod simple_error;
pub mod simple_string;
pub mod text;

use crate::resp::decimal::{parse_i64, read_i64};
use crate::resp::text::{debug_chars, push_debug, read_text};
use vstd::prelude::*;
use vstd::string::StringExecFns;
use vstd::utf8::{decode_utf8, valid_utf8};

verus! {

/// Carriage return.
pub const CR: u8 = 13;

/// Line feed.
pub const LF: u8 = 10;

/// Why a buffer could not be decoded.
#[derive(Debug, PartialEq)]
pub enum RespError {
    /// The bytes are not a frame of the kind that their prefix announces.
    InvalidFrame(String),
    /// The first byte is not the prefix of any kind of frame.
    InvalidFrameType(String),
    /// A length or count that no frame can have.
    InvalidFrameLength(i64),
    /// The buffer ends before the frame does.
    NotComplete,
    /// A header or an integer frame holds no decimal integer in range.
    ParseIntError,
    /// A double frame holds no decimal number.
    ParseFloatError,
    /// A text field is not well-formed UTF-8.
    Utf8Error,
}

/// The mathematical value of a [`RespError`].
pub enum DecodeError {
    InvalidFrame(Seq<char>),
    InvalidFrameType(Seq<char>),
    InvalidFrameLength(i64),
    NotComplete,
    ParseIntError,
    ParseFloatError,
    Utf8Error,
}

impl View for RespError {
    type V = DecodeError;

    open spec fn view(&self) -> DecodeError {
        match self {
            RespError::InvalidFrame(msg) => DecodeError::InvalidFrame(msg@),
            RespError::InvalidFrameType(msg) => DecodeError::InvalidFrameType(msg@),
            RespError::InvalidFrameLength(n) => DecodeError::InvalidFrameLength(*n),
            RespError::NotComplete => DecodeError::NotComplete,
            RespError::ParseIntError => DecodeError::ParseIntError,
            RespError::ParseFloatError => DecodeError::ParseFloatError,
            RespError::Utf8Error => DecodeError::Utf8Error,
        }
    }
}

/// The outcome of decoding, with the value and the error by their views.
pub open spec fn outcome<T: View>(r: Result<T, RespError>) -> Result<T::V, DecodeError> {
    match r {
        Ok(v) => Ok(v@),
        Err(e) => Err(e@),
    }
}

/// A value that can be written as one frame.
pub trait RespEncode {
    /// The bytes of the frame that stands for this value.
    spec fn wire(&self) -> Seq<u8>;

    /// Writes the frame.
    fn encode(&self) -> (buf: Vec<u8>)
        ensures
            buf@ == self.wire(),
    ;

    /// The number of bytes that [`RespEncode::encode`] writes.
    fn byte_size(&self) -> (size: usize)
        requires
            self.wire().len() <= usize::MAX,
        ensures
            size == self.wire().len(),
    ;
}

/// A value that can be read from the front of a buffer.
pub trait RespDecode: Sized + View {
    /// What the front of `buf` decodes to.
    spec fn read(buf: Seq<u8>) -> Result<Self::V, DecodeError>;

    /// Decodes the frame at the front of `buf`, leaving `buf` as it is.
    fn decode(buf: &[u8]) -> (r: Result<Self, RespError>)
        ensures
            outcome(r) == Self::read(buf@),
    ;
}

/// Whether a carriage return stands at `i` in `buf` with a line feed after it.
pub open spec fn crlf_at(buf: Seq<u8>, i: int) -> bool {
    0 <= i && i + 1 < buf.len() && buf[i] == CR && buf[i + 1] == LF
}

/// The first index at or after `from` where a line ending starts.
pub open spec fn first_crlf_from(buf: Seq<u8>, from: int) -> Option<int>
    decreases buf.len() - from,
{
    if from < 0 || from + 1 >= buf.len() {
        None
    } else if buf[from] == CR && buf[from + 1] == LF {
        Some(from)
    } else {
        first_crlf_from(buf, from + 1)
    }
}

/// The index of the first carriage return that a line feed follows.
pub open spec fn first_crlf(buf: Seq<u8>) -> Option<int> {
    first_crlf_from(buf, 0)
}

/// The first line ending is a line ending, and none starts before it.
pub proof fn lemma_first_crlf_is_first(buf: Seq<u8>, from: int)
    requires
        0 <= from,
    ensures
        match first_crlf_from(buf, from) {
            Some(i) => from <= i && crlf_at(buf, i) && forall|j: int|
                from <= j < i ==> !crlf_at(buf, j),
            None => forall|j: int| from <= j ==> !crlf_at(buf, j),
        },
    decreases buf.len() - from,
{
    if from + 1 >= buf.len() {
    } else if buf[from] == CR && buf[from + 1] == LF {
    } else {
        lemma_first_crlf_is_first(buf, from + 1);
    }
}

/// A line ending with none before it is the first one.
pub proof fn lemma_first_crlf_found(buf: Seq<u8>, from: int, i: int)
    requires
        0 <= from <= i,
        crlf_at(buf, i),
        forall|j: int| from <= j < i ==> !crlf_at(buf, j),
    ensures
        first_crlf_from(buf, from) == Some(i),
    decreases i - from,
{
    if from < i {
        assert(!crlf_at(buf, from));
        lemma_first_crlf_found(buf, from + 1, i);
    }
}

/// Where no line ending starts, none is found.
pub proof fn lemma_first_crlf_absent(buf: Seq<u8>, from: int)
    requires
        0 <= from,
        forall|j: int| from <= j ==> !crlf_at(buf, j),
    ensures
        first_crlf_from(buf, from) is None,
    decreases buf.len() - from,
{
    if from + 1 < buf.len() {
        assert(!crlf_at(buf, from));
        lemma_first_crlf_absent(buf, from + 1);
    }
}

/// Returns the position of the first line ending in `buf`.
pub fn find_crlf(buf: &[u8]) -> (r: Option<usize>)
    ensures
        match r {
            Some(i) => first_crlf(buf@) == Some(i as int),
            None => first_crlf(buf@) is None,
        },
{
    let n = buf.len();
    let mut i: usize = 0;
    while i < n && n - i >= 2
        invariant
            0 <= i <= n,
            n == buf@.len(),
            first_crlf(buf@) == first_crlf_from(buf@, i as int),
        decreases n - i,
    {
        if buf[i] == CR && buf[i + 1] == LF {
            return Some(i);
        }
        i = i + 1;
    }
    None
}

/// What is said of a buffer whose line ending leaves no room for a prefix.
pub open spec fn missing_prefix_message() -> Seq<char> {
    "Missing frame prefix"@
}

/// The error for a buffer whose line ending leaves no room for a prefix.
pub fn missing_prefix() -> (e: RespError)
    ensures
        e@ == DecodeError::InvalidFrame(missing_prefix_message()),
{
    RespError::InvalidFrame(String::from_str("Missing frame prefix"))
}

/// The line feed that ends every line.
pub open spec fn line_end() -> Seq<u8> {
    seq![CR, LF]
}

/// The frame of one line: a prefix byte, a field, and the line ending.
pub open spec fn line_wire(prefix: u8, field: Seq<u8>) -> Seq<u8> {
    seq![prefix] + field + line_end()
}

/// The field of the first line of `buf`: the bytes between its first byte
/// and its first line ending.
pub open spec fn line_field(buf: Seq<u8>) -> Result<Seq<u8>, DecodeError> {
    match first_crlf(buf) {
        None => Err(DecodeError::NotComplete),
        Some(end) => if end == 0 {
            Err(DecodeError::InvalidFrame(missing_prefix_message()))
        } else {
            Ok(buf.subrange(1, end))
        },
    }
}

/// Reads the field of the first line of `buf`.
pub fn read_line(buf: &[u8]) -> (r: Result<&[u8], RespError>)
    ensures
        outcome(r) == line_field(buf@),
        r matches Ok(field) ==> field@.len() + 3 <= buf@.len(),
{
    let end = match find_crlf(buf) {
        Some(end) => end,
        None => {
            return Err(RespError::NotComplete);
        },
    };
    proof {
        lemma_first_crlf_is_first(buf@, 0);
        assert(crlf_at(buf@, end as int));
    }
    if end == 0 {
        return Err(missing_prefix());
    }
    Ok(vstd::slice::slice_subrange(buf, 1, end))
}

/// What the header line of `buf` holds: the integer after the prefix byte,
/// and the offset of the first byte after the line.
pub open spec fn header(buf: Seq<u8>) -> Result<(i64, int), DecodeError> {
    match line_field(buf) {
        Err(e) => Err(e),
        Ok(field) => if !valid_utf8(field) {
            Err(DecodeError::Utf8Error)
        } else {
            match parse_i64(field) {
                Some(v) => Ok((v, (field.len() + 3) as int)),
                None => Err(DecodeError::ParseIntError),
            }
        },
    }
}

/// Reads the header line of a frame: the length or count that it announces,
/// and the position where the rest of the frame starts.
pub fn read_len(buf: &[u8]) -> (r: Result<(i64, usize), RespError>)
    ensures
        match r {
            Ok((v, next)) => header(buf@) == Ok::<(i64, int), DecodeError>((v, next as int)),
            Err(e) => header(buf@) == Err::<(i64, int), DecodeError>(e@),
        },
        r matches Ok((_, next)) ==> 3 <= next <= buf@.len(),
{
    let field = match read_line(buf) {
        Ok(field) => field,
        Err(e) => {
            return Err(e);
        },
    };
    proof {
        vstd::slice::axiom_spec_len(buf);
    }
    if core::str::from_utf8(field).is_err() {
        return Err(RespError::Utf8Error);
    }
    match read_i64(field) {
        Some(v) => Ok((v, field.len() + 3)),
        None => Err(RespError::ParseIntError),
    }
}

/// The text of the first line of `buf`.
pub open spec fn line_text(buf: Seq<u8>) -> Result<Seq<char>, DecodeError> {
    match line_field(buf) {
        Err(e) => Err(e),
        Ok(field) => if valid_utf8(field) {
            Ok(decode_utf8(field))
        } else {
            Err(DecodeError::Utf8Error)
        },
    }
}

/// Reads the text of the first line of `buf`.
pub fn read_line_text(buf: &[u8]) -> (r: Result<String, RespError>)
    ensures
        outcome(r) == line_text(buf@),
{
    let field = match read_line(buf) {
        Ok(field) => field,
        Err(e) => {
            return Err(e);
        },
    };
    match read_text(field) {
        Some(text) => Ok(text),
        None => Err(RespError::Utf8Error),
    }
}

/// The payload of a bulk frame whose header announced `len` bytes from
/// `next` on: the bytes, if all of them and the line ending after them are
/// there. `what` starts the message for a payload that no line ending follows.
pub open spec fn bulk_body(buf: Seq<u8>, next: int, len: int, what: Seq<char>) -> Result<
    Seq<u8>,
    DecodeError,
> {
    if buf.len() < next + len + 2 {
        Err(DecodeError::NotComplete)
    } else if buf[next + len] != CR || buf[next + len + 1] != LF {
        Err(DecodeError::InvalidFrame(what + debug_chars(buf.subrange(next + len, next + len + 2))))
    } else {
        Ok(buf.subrange(next, next + len))
    }
}

/// Reads the payload of a bulk frame whose header announced `len` bytes from
/// `next` on.
pub fn read_bulk_body(buf: &[u8], next: usize, len: i64, what: &str) -> (r: Result<
    Vec<u8>,
    RespError,
>)
    requires
        next <= buf@.len(),
        len >= 0,
    ensures
        outcome(r) == bulk_body(buf@, next as int, len as int, what@),
{
    let remaining = buf.len() - next;
    if remaining < 2 || ((remaining - 2) as u64) < (len as u64) {
        return Err(RespError::NotComplete);
    }
    let end: usize = next + (len as usize);
    if buf[end] != CR || buf[end + 1] != LF {
        let mut msg = String::from_str(what);
        push_debug(vstd::slice::slice_subrange(buf, end, end + 2), &mut msg);
        return Err(RespError::InvalidFrame(msg));
    }
    let mut data: Vec<u8> = Vec::new();
    push_all(&mut data, vstd::slice::slice_subrange(buf, next, end));
    assert(data@ =~= buf@.subrange(next as int, end as int));
    Ok(data)
}

/// The header line that announces the number `n`.
pub open spec fn count_line(prefix: u8, n: nat) -> Seq<u8> {
    line_wire(prefix, crate::resp::decimal::digits(n))
}

/// Appends the header line that announces the number `n`.
pub fn push_count_line(buf: &mut Vec<u8>, prefix: u8, n: usize)
    ensures
        final(buf)@ == old(buf)@ + count_line(prefix, n as nat),
{
    buf.push(prefix);
    crate::resp::decimal::push_digits(n as u64, buf);
    push_line_end(buf);
    assert(final(buf)@ =~= old(buf)@ + count_line(prefix, n as nat));
}

/// The length of the header line that announces the number `n`.
pub fn count_line_len(n: usize) -> (len: usize)
    ensures
        len == crate::resp::decimal::digits(n as nat).len() + 3,
        4 <= len <= 23,
{
    crate::resp::decimal::digits_len(n as u64) + 3
}

/// Appends `bytes` to `buf`.
pub fn push_all(buf: &mut Vec<u8>, bytes: &[u8])
    ensures
        final(buf)@ == old(buf)@ + bytes@,
{
    let mut i: usize = 0;
    while i < bytes.len()
        invariant
            0 <= i <= bytes.len(),
            buf@ == old(buf)@ + bytes@.take(i as int),
        decreases bytes.len() - i,
    {
        buf.push(bytes[i]);
        i = i + 1;
        assert(buf@ =~= old(buf)@ + bytes@.take(i as int));
    }
    assert(bytes@.take(bytes.len() as int) =~= bytes@);
}

/// Appends a line ending to `buf`.
pub fn push_line_end(buf: &mut Vec<u8>)
    ensures
        final(buf)@ == old(buf)@ + line_end(),
{
    buf.push(CR);
    buf.push(LF);
    assert(final(buf)@ =~= old(buf)@ + line_end());
}

/// Whether `field` holds neither a carriage return nor a line feed.
pub open spec fn crlf_free(field: Seq<u8>) -> bool {
    forall|i: int| 0 <= i < field.len() ==> #[trigger] field[i] != CR && field[i] != LF
}

/// A line frame with anything after it gives its field back.
pub proof fn lemma_line_field_of_wire(prefix: u8, field: Seq<u8>, tail: Seq<u8>)
    requires
        prefix != CR,
        crlf_free(field),
    ensures
        first_crlf(line_wire(prefix, field) + tail) == Some((field.len() + 1) as int),
        line_field(line_wire(prefix, field) + tail) == Ok::<Seq<u8>, DecodeError>(field),
{
    let buf = line_wire(prefix, field) + tail;
    let end: int = field.len() as int + 1;
    assert(buf[end] == CR);
    assert(buf[end + 1] == LF);
    assert forall|j: int| 0 <= j < end implies !crlf_at(buf, j) by {
        if j >= 1 {
            assert(buf[j] == field[j - 1]);
        }
    }
    lemma_first_crlf_found(buf, 0, end);
    assert(buf.subrange(1, end) =~= field);
}

/// A line frame cut short holds no line ending.
pub proof fn lemma_line_cut_short(prefix: u8, field: Seq<u8>, k: int)
    requires
        prefix != CR,
        crlf_free(field),
        0 <= k < line_wire(prefix, field).len(),
    ensures
        first_crlf(line_wire(prefix, field).take(k)) is None,
        line_field(line_wire(prefix, field).take(k)) == Err::<Seq<u8>, DecodeError>(
            DecodeError::NotComplete,
        ),
{
    let whole = line_wire(prefix, field);
    let buf = whole.take(k);
    assert forall|j: int| 0 <= j implies !crlf_at(buf, j) by {
        if j + 1 < buf.len() {
            assert(buf[j] == whole[j]);
            assert(buf[j + 1] == whole[j + 1]);
            if j >= 1 && j <= field.len() {
                assert(whole[j] == field[j - 1]);
            }
        }
    }
    lemma_first_crlf_absent(buf, 0);
}

} // verus!
