//! Booleans: `#<t|f>\r\n`.

use crate::resp::text::{debug_chars, push_debug};
use crate::resp::{DecodeError, RespDecode, RespEncode, RespError, CR, LF};
use vstd::prelude::*;
use vstd::string::StringExecFns;

verus! {

/// The prefix byte of a boolean.
pub const PREFIX: u8 = 35;

/// The number of bytes of a boolean frame.
pub const BYTE_SIZE: usize = 4;

/// The letter of truth.
pub const LETTER_TRUE: u8 = 116;

/// The letter of falsehood.
pub const LETTER_FALSE: u8 = 102;

/// The frame of the boolean `b`.
pub open spec fn wire_of(b: bool) -> Seq<u8> {
    if b {
        seq![PREFIX, LETTER_TRUE, CR, LF]
    } else {
        seq![PREFIX, LETTER_FALSE, CR, LF]
    }
}

/// What is said of a buffer that starts with the boolean prefix and is none.
pub open spec fn invalid_message(buf: Seq<u8>) -> Seq<char> {
    "Invalid boolean frame: "@ + debug_chars(buf)
}

/// The boolean at the front of `buf`.
pub open spec fn read_of(buf: Seq<u8>) -> Result<bool, DecodeError> {
    if buf.len() < 4 {
        Err(DecodeError::NotComplete)
    } else if buf.take(4) == wire_of(true) {
        Ok(true)
    } else if buf.take(4) == wire_of(false) {
        Ok(false)
    } else {
        Err(DecodeError::InvalidFrame(invalid_message(buf)))
    }
}

impl RespEncode for bool {
    open spec fn wire(&self) -> Seq<u8> {
        wire_of(*self)
    }

    fn encode(&self) -> (buf: Vec<u8>) {
        let mut buf: Vec<u8> = Vec::new();
        buf.push(PREFIX);
        if *self {
            buf.push(LETTER_TRUE);
        } else {
            buf.push(LETTER_FALSE);
        }
        buf.push(CR);
        buf.push(LF);
        assert(buf@ =~= self.wire());
        buf
    }

    fn byte_size(&self) -> (size: usize) {
        BYTE_SIZE
    }
}

impl RespDecode for bool {
    open spec fn read(buf: Seq<u8>) -> Result<bool, DecodeError> {
        read_of(buf)
    }

    fn decode(buf: &[u8]) -> (r: Result<Self, RespError>) {
        if buf.len() < BYTE_SIZE {
            return Err(RespError::NotComplete);
        }
        let framed = buf[0] == PREFIX && buf[2] == CR && buf[3] == LF;
        proof {
            let front = buf@.take(4);
            assert(front[0] == buf@[0] && front[1] == buf@[1] && front[2] == buf@[2] && front[3]
                == buf@[3]);
            if framed && buf@[1] == LETTER_TRUE {
                assert(front =~= wire_of(true));
            }
            if framed && buf@[1] == LETTER_FALSE {
                assert(front =~= wire_of(false));
            }
        }
        if framed && buf[1] == LETTER_TRUE {
            Ok(true)
        } else if framed && buf[1] == LETTER_FALSE {
            Ok(false)
        } else {
            let mut msg = String::from_str("Invalid boolean frame: ");
            push_debug(buf, &mut msg);
            Err(RespError::InvalidFrame(msg))
        }
    }
}

} // verus!
