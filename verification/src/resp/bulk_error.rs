//! Bulk errors: `!<length>\r\n<error>\r\n`.

use crate::resp::decimal::digits_len;
use crate::resp::{
    bulk_body, count_line, header, line_end, push_all, push_count_line, push_line_end,
    read_bulk_body, read_len, DecodeError, RespDecode, RespEncode, RespError,
};
use vstd::prelude::*;

verus! {

/// The prefix byte of a bulk error.
pub const PREFIX: u8 = 33;

/// A run of bytes that reports a failure.
#[derive(Debug, PartialEq)]
pub struct BulkError(pub Vec<u8>);

impl View for BulkError {
    type V = Seq<u8>;

    open spec fn view(&self) -> Seq<u8> {
        self.0@
    }
}

/// The frame of the bulk error `data`.
pub open spec fn wire_of(data: Seq<u8>) -> Seq<u8> {
    count_line(PREFIX, data.len()) + data + line_end()
}

/// What is said of a bulk error that no line ending follows.
pub open spec fn tail_message() -> Seq<char> {
    "Invalid bulk error tail: "@
}

/// The bulk error at the front of `buf`.
pub open spec fn read_of(buf: Seq<u8>) -> Result<Seq<u8>, DecodeError> {
    match header(buf) {
        Err(e) => Err(e),
        Ok((len, next)) => if len < 0 {
            Err(DecodeError::InvalidFrameLength(len))
        } else {
            bulk_body(buf, next, len as int, tail_message())
        },
    }
}

impl BulkError {
    /// A bulk error that holds `data`.
    pub fn new(data: Vec<u8>) -> (r: Self)
        ensures
            r@ == data@,
    {
        BulkError(data)
    }

    /// The bytes.
    pub fn as_bytes(&self) -> (bytes: &[u8])
        ensures
            bytes@ == self@,
    {
        self.0.as_slice()
    }
}

impl Clone for BulkError {
    fn clone(&self) -> (r: Self)
        ensures
            r@ == self@,
    {
        let mut data: Vec<u8> = Vec::new();
        push_all(&mut data, self.0.as_slice());
        assert(data@ =~= self@);
        BulkError(data)
    }
}

impl AsRef<[u8]> for BulkError {
    /// The bytes.
    fn as_ref(&self) -> (bytes: &[u8])
        ensures
            bytes@ == self@,
    {
        self.0.as_slice()
    }
}

impl RespEncode for BulkError {
    open spec fn wire(&self) -> Seq<u8> {
        wire_of(self@)
    }

    fn encode(&self) -> (buf: Vec<u8>) {
        let mut buf: Vec<u8> = Vec::new();
        push_count_line(&mut buf, PREFIX, self.0.len());
        push_all(&mut buf, self.0.as_slice());
        push_line_end(&mut buf);
        assert(buf@ =~= self.wire());
        buf
    }

    fn byte_size(&self) -> (size: usize) {
        self.0.len() + digits_len(self.0.len() as u64) + 5
    }
}

impl RespDecode for BulkError {
    open spec fn read(buf: Seq<u8>) -> Result<Seq<u8>, DecodeError> {
        read_of(buf)
    }

    fn decode(buf: &[u8]) -> (r: Result<Self, RespError>) {
        let (len, next) = match read_len(buf) {
            Ok(found) => found,
            Err(e) => {
                return Err(e);
            },
        };
        if len < 0 {
            return Err(RespError::InvalidFrameLength(len));
        }
        match read_bulk_body(buf, next, len, "Invalid bulk error tail: ") {
            Ok(data) => Ok(BulkError(data)),
            Err(e) => Err(e),
        }
    }
}

} // verus!
