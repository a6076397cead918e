//! Bulk strings: `$<length>\r\n<data>\r\n`, and `$-1\r\n` for the null one.

use crate::resp::decimal::digits_len;
use crate::resp::{
    bulk_body, count_line, header, line_end, push_all, push_count_line, push_line_end,
    read_bulk_body, read_len, DecodeError, RespDecode, RespEncode, RespError, CR, LF,
};
use crate::resp::text::{text_of, to_text};
use vstd::prelude::*;

verus! {

/// The prefix byte of a bulk string.
pub const PREFIX: u8 = 36;

/// A run of bytes of any kind. The empty run is the null bulk string.
#[derive(Debug, PartialEq)]
pub struct BulkString(pub Vec<u8>);

impl View for BulkString {
    type V = Seq<u8>;

    open spec fn view(&self) -> Seq<u8> {
        self.0@
    }
}

/// The frame of the null bulk string.
pub open spec fn null_wire() -> Seq<u8> {
    seq![PREFIX, 45u8, 49u8, CR, LF]
}

/// The frame of the bulk string `data`.
pub open spec fn wire_of(data: Seq<u8>) -> Seq<u8> {
    if data.len() == 0 {
        null_wire()
    } else {
        count_line(PREFIX, data.len()) + data + line_end()
    }
}

/// What is said of a bulk string that no line ending follows.
pub open spec fn tail_message() -> Seq<char> {
    "Invalid bulk string tail: "@
}

/// The bulk string at the front of `buf`.
pub open spec fn read_of(buf: Seq<u8>) -> Result<Seq<u8>, DecodeError> {
    match header(buf) {
        Err(e) => Err(e),
        Ok((len, next)) => if len == -1 {
            Ok(Seq::empty())
        } else if len < -1 {
            Err(DecodeError::InvalidFrameLength(len))
        } else {
            bulk_body(buf, next, len as int, tail_message())
        },
    }
}

impl BulkString {
    /// A bulk string that holds `data`.
    pub fn new(data: Vec<u8>) -> (r: Self)
        ensures
            r@ == data@,
    {
        BulkString(data)
    }

    /// The bytes.
    pub fn as_bytes(&self) -> (bytes: &[u8])
        ensures
            bytes@ == self@,
    {
        self.0.as_slice()
    }

    /// The bytes as text, with the replacement character where they are not
    /// well-formed UTF-8.
    pub fn to_string(&self) -> (s: String)
        ensures
            s@ == text_of(self@),
    {
        to_text(self.0.as_slice())
    }

    /// The number of bytes.
    pub fn len(&self) -> (n: usize)
        ensures
            n == self@.len(),
    {
        self.0.len()
    }

    /// Whether this is the null bulk string.
    pub fn is_empty(&self) -> (b: bool)
        ensures
            b == (self@.len() == 0),
    {
        self.0.len() == 0
    }
}

impl Default for BulkString {
    /// The null bulk string.
    fn default() -> (r: Self)
        ensures
            r@ == Seq::<u8>::empty(),
    {
        BulkString(Vec::new())
    }
}

impl Clone for BulkString {
    fn clone(&self) -> (r: Self)
        ensures
            r@ == self@,
    {
        let mut data: Vec<u8> = Vec::new();
        push_all(&mut data, self.0.as_slice());
        assert(data@ =~= self@);
        BulkString(data)
    }
}

impl core::ops::Deref for BulkString {
    type Target = Vec<u8>;

    /// The bytes.
    fn deref(&self) -> (bytes: &Vec<u8>)
        ensures
            bytes@ == self@,
    {
        &self.0
    }
}

impl AsRef<[u8]> for BulkString {
    /// The bytes.
    fn as_ref(&self) -> (bytes: &[u8])
        ensures
            bytes@ == self@,
    {
        self.0.as_slice()
    }
}

impl RespEncode for BulkString {
    open spec fn wire(&self) -> Seq<u8> {
        wire_of(self@)
    }

    fn encode(&self) -> (buf: Vec<u8>) {
        let mut buf: Vec<u8> = Vec::new();
        if self.0.len() == 0 {
            buf.push(PREFIX);
            buf.push(45u8);
            buf.push(49u8);
            push_line_end(&mut buf);
            assert(buf@ =~= self.wire());
            return buf;
        }
        push_count_line(&mut buf, PREFIX, self.0.len());
        push_all(&mut buf, self.0.as_slice());
        push_line_end(&mut buf);
        assert(buf@ =~= self.wire());
        buf
    }

    fn byte_size(&self) -> (size: usize) {
        if self.0.len() == 0 {
            return 5;
        }
        self.0.len() + digits_len(self.0.len() as u64) + 5
    }
}

impl RespDecode for BulkString {
    open spec fn read(buf: Seq<u8>) -> Result<Seq<u8>, DecodeError> {
        read_of(buf)
    }

    fn decode(buf: &[u8]) -> (r: Result<Self, RespError>) {
        let (len, next) = match read_len(buf) {
            Ok(found) => found,
            Err(e) => {
                return Err(e);
            },
        };
        if len == -1 {
            return Ok(BulkString(Vec::new()));
        }
        if len < -1 {
            return Err(RespError::InvalidFrameLength(len));
        }
        match read_bulk_body(buf, next, len, "Invalid bulk string tail: ") {
            Ok(data) => Ok(BulkString(data)),
            Err(e) => Err(e),
        }
    }
}

} // verus!
