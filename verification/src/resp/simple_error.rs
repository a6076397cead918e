//! Simple errors: `-Error message\r\n`.

use crate::resp::{
    line_text, line_wire, push_all, push_line_end, read_line_text, DecodeError, RespDecode,
    RespEncode, RespError,
};
use vstd::prelude::*;
use vstd::utf8::encode_utf8;

verus! {

/// The prefix byte of a simple error.
pub const PREFIX: u8 = 45;

/// A line of text that reports a failure.
#[derive(Debug, PartialEq)]
pub struct SimpleError(pub String);

impl View for SimpleError {
    type V = Seq<char>;

    open spec fn view(&self) -> Seq<char> {
        self.0@
    }
}

/// The frame of the simple error `text`.
pub open spec fn wire_of(text: Seq<char>) -> Seq<u8> {
    line_wire(PREFIX, encode_utf8(text))
}

/// The simple error at the front of `buf`.
pub open spec fn read_of(buf: Seq<u8>) -> Result<Seq<char>, DecodeError> {
    line_text(buf)
}

impl SimpleError {
    /// A simple error that holds `s`.
    pub fn new(s: &str) -> (r: Self)
        ensures
            r@ == s@,
    {
        SimpleError(s.to_owned())
    }

    /// The text.
    pub fn as_str(&self) -> (s: &str)
        ensures
            s@ == self@,
    {
        self.0.as_str()
    }
}

impl Clone for SimpleError {
    fn clone(&self) -> (r: Self)
        ensures
            r@ == self@,
    {
        SimpleError(self.0.clone())
    }
}

impl RespEncode for SimpleError {
    open spec fn wire(&self) -> Seq<u8> {
        wire_of(self@)
    }

    fn encode(&self) -> (buf: Vec<u8>) {
        let mut buf: Vec<u8> = Vec::new();
        buf.push(PREFIX);
        push_all(&mut buf, self.0.as_str().as_bytes());
        push_line_end(&mut buf);
        assert(buf@ =~= self.wire());
        buf
    }

    fn byte_size(&self) -> (size: usize) {
        self.0.as_str().as_bytes().len() + 3
    }
}

impl RespDecode for SimpleError {
    open spec fn read(buf: Seq<u8>) -> Result<Seq<char>, DecodeError> {
        read_of(buf)
    }

    fn decode(buf: &[u8]) -> (r: Result<Self, RespError>) {
        match read_line_text(buf) {
            Ok(text) => Ok(SimpleError(text)),
            Err(e) => Err(e),
        }
    }
}

} // verus!
