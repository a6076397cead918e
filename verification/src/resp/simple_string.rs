//! Simple strings: `+OK\r\n`.

use crate::resp::{
    line_text, line_wire, push_all, push_line_end, read_line_text, DecodeError, RespDecode,
    RespEncode, RespError,
};
use vstd::prelude::*;
use vstd::utf8::encode_utf8;

verus! {

/// The prefix byte of a simple string.
pub const PREFIX: u8 = 43;

/// A line of text.
#[derive(Debug, PartialEq)]
pub struct SimpleString(pub String);

impl View for SimpleString {
    type V = Seq<char>;

    open spec fn view(&self) -> Seq<char> {
        self.0@
    }
}

/// The frame of the simple string `text`.
pub open spec fn wire_of(text: Seq<char>) -> Seq<u8> {
    line_wire(PREFIX, encode_utf8(text))
}

/// The simple string at the front of `buf`.
pub open spec fn read_of(buf: Seq<u8>) -> Result<Seq<char>, DecodeError> {
    line_text(buf)
}

impl SimpleString {
    /// A simple string that holds `s`.
    pub fn new(s: &str) -> (r: Self)
        ensures
            r@ == s@,
    {
        SimpleString(s.to_owned())
    }

    /// The text.
    pub fn as_str(&self) -> (s: &str)
        ensures
            s@ == self@,
    {
        self.0.as_str()
    }
}

impl Clone for SimpleString {
    fn clone(&self) -> (r: Self)
        ensures
            r@ == self@,
    {
        SimpleString(self.0.clone())
    }
}

impl core::ops::Deref for SimpleString {
    type Target = str;

    /// The text.
    fn deref(&self) -> (s: &str)
        ensures
            s@ == self@,
    {
        self.0.as_str()
    }
}

impl core::str::FromStr for SimpleString {
    type Err = ();

    /// The simple string that holds `s`.
    fn from_str(s: &str) -> (r: Result<Self, ()>)
        ensures
            r matches Ok(made) && made@ == s@,
    {
        Ok(SimpleString::new(s))
    }
}

impl RespEncode for SimpleString {
    open spec fn wire(&self) -> Seq<u8> {
        wire_of(self@)
    }

    fn encode(&self) -> (buf: Vec<u8>) {
        let mut buf: Vec<u8> = Vec::new();
        buf.push(PREFIX);
        push_all(&mut buf, self.0.as_str().as_bytes());
        push_line_end(&mut buf);
        assert(buf@ =~= self.wire());
        buf
    }

    fn byte_size(&self) -> (size: usize) {
        self.0.as_str().as_bytes().len() + 3
    }
}

impl RespDecode for SimpleString {
    open spec fn read(buf: Seq<u8>) -> Result<Seq<char>, DecodeError> {
        read_of(buf)
    }

    fn decode(buf: &[u8]) -> (r: Result<Self, RespError>) {
        match read_line_text(buf) {
            Ok(text) => Ok(SimpleString(text)),
            Err(e) => Err(e),
        }
    }
}

} // verus!
