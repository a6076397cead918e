//! Integers: `:[<+|->]<value>\r\n`.

use crate::resp::decimal::{parse_i64, push_signed, read_i64, signed_len, signed_text};
use crate::resp::{
    line_field, line_wire, push_line_end, read_line, DecodeError, RespDecode, RespEncode,
    RespError,
};
use vstd::prelude::*;
use vstd::utf8::valid_utf8;

verus! {

/// The prefix byte of an integer.
pub const PREFIX: u8 = 58;

/// The frame of the integer `v`.
pub open spec fn wire_of(v: i64) -> Seq<u8> {
    line_wire(PREFIX, signed_text(v as int))
}

/// The integer at the front of `buf`.
pub open spec fn read_of(buf: Seq<u8>) -> Result<i64, DecodeError> {
    match line_field(buf) {
        Err(e) => Err(e),
        Ok(field) => if !valid_utf8(field) {
            Err(DecodeError::Utf8Error)
        } else {
            match parse_i64(field) {
                Some(v) => Ok(v),
                None => Err(DecodeError::ParseIntError),
            }
        },
    }
}

impl RespEncode for i64 {
    open spec fn wire(&self) -> Seq<u8> {
        wire_of(*self)
    }

    fn encode(&self) -> (buf: Vec<u8>) {
        let mut buf: Vec<u8> = Vec::new();
        buf.push(PREFIX);
        push_signed(*self, &mut buf);
        push_line_end(&mut buf);
        assert(buf@ =~= self.wire());
        buf
    }

    fn byte_size(&self) -> (size: usize) {
        signed_len(*self) + 3
    }
}

impl RespDecode for i64 {
    open spec fn read(buf: Seq<u8>) -> Result<i64, DecodeError> {
        read_of(buf)
    }

    fn decode(buf: &[u8]) -> (r: Result<Self, RespError>) {
        let field = match read_line(buf) {
            Ok(field) => field,
            Err(e) => {
                return Err(e);
            },
        };
        if core::str::from_utf8(field).is_err() {
            return Err(RespError::Utf8Error);
        }
        match read_i64(field) {
            Some(v) => Ok(v),
            None => Err(RespError::ParseIntError),
        }
    }
}

} // verus!
