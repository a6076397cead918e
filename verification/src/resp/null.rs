//! Null: `_\r\n`.

use crate::resp::text::{debug_chars, push_debug};
use crate::resp::{DecodeError, RespDecode, RespEncode, RespError, CR, LF};
use vstd::prelude::*;
use vstd::string::StringExecFns;

verus! {

/// The prefix byte of null.
pub const PREFIX: u8 = 95;

/// The number of bytes of the null frame.
pub const BYTE_SIZE: usize = 3;

/// The absence of a value.
#[derive(Debug, Clone, Copy, PartialEq)]
pub struct RespNull;

impl View for RespNull {
    type V = ();

    open spec fn view(&self) -> () {
        ()
    }
}

/// The null frame.
pub open spec fn wire_of() -> Seq<u8> {
    seq![PREFIX, CR, LF]
}

/// What is said of a buffer that starts with the null prefix and is not null.
pub open spec fn invalid_message(buf: Seq<u8>) -> Seq<char> {
    "Invalid null frame: "@ + debug_chars(buf.take(3))
}

/// Null at the front of `buf`.
pub open spec fn read_of(buf: Seq<u8>) -> Result<(), DecodeError> {
    if buf.len() < 3 {
        Err(DecodeError::NotComplete)
    } else if buf.take(3) == wire_of() {
        Ok(())
    } else {
        Err(DecodeError::InvalidFrame(invalid_message(buf)))
    }
}

impl RespEncode for RespNull {
    open spec fn wire(&self) -> Seq<u8> {
        wire_of()
    }

    fn encode(&self) -> (buf: Vec<u8>) {
        let mut buf: Vec<u8> = Vec::new();
        buf.push(PREFIX);
        buf.push(CR);
        buf.push(LF);
        assert(buf@ =~= self.wire());
        buf
    }

    fn byte_size(&self) -> (size: usize) {
        BYTE_SIZE
    }
}

impl RespDecode for RespNull {
    open spec fn read(buf: Seq<u8>) -> Result<(), DecodeError> {
        read_of(buf)
    }

    fn decode(buf: &[u8]) -> (r: Result<Self, RespError>) {
        if buf.len() < BYTE_SIZE {
            return Err(RespError::NotComplete);
        }
        if buf[0] == PREFIX && buf[1] == CR && buf[2] == LF {
            assert(buf@.take(3) =~= wire_of());
            Ok(RespNull)
        } else {
            let mut msg = String::from_str("Invalid null frame: ");
            push_debug(vstd::slice::slice_subrange(buf, 0, 3), &mut msg);
            proof {
                let front = buf@.take(3);
                assert(front[0] == buf@[0] && front[1] == buf@[1] && front[2] == buf@[2]);
                assert(buf@.subrange(0, 3) =~= front);
            }
            Err(RespError::InvalidFrame(msg))
        }
    }
}

} // verus!
