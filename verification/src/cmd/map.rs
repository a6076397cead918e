//! `GET` and `SET`: a frame under a key.

use crate::backend::Backend;
use crate::cmd::error::{CommandError, CommandFault};
use crate::cmd::{
    frame_at, parsed, read_frame_at, read_text_at, resp_ok, text_at, CommandExecutor, Get, Request,
    SetValue,
};
use crate::resp::array::RespArray;
use crate::resp::frame::{Frame, RespFrame};
use crate::resp::null::RespNull;
use vstd::prelude::*;
use vstd::std_specs::convert::TryFromSpecImpl;

verus! {

/// The request that the items of a `GET` command make: `[GET, key]`.
pub open spec fn parse_get(items: Seq<Frame>) -> Result<Request, CommandFault> {
    match text_at(items, 1) {
        Some(key) => Ok(Request::Get { key }),
        None => Err(CommandFault::InvalidCommand("GET command must have a key"@)),
    }
}

/// The request that the items of a `SET` command make: `[SET, key, value]`.
pub open spec fn parse_set(items: Seq<Frame>) -> Result<Request, CommandFault> {
    match text_at(items, 1) {
        Some(key) => match frame_at(items, 2) {
            Some(value) => Ok(Request::SetValue { key, value }),
            None => Err(CommandFault::InvalidCommand("SET command must have a value"@)),
        },
        None => Err(CommandFault::InvalidCommand("SET command must have a key"@)),
    }
}

impl CommandExecutor for Get {
    open spec fn request(&self) -> Request {
        self@
    }

    fn execute(&self, backend: &mut Backend) -> (reply: RespFrame) {
        match backend.get(self.key.as_str()) {
            Some(value) => value,
            None => RespFrame::Null(RespNull),
        }
    }
}

impl CommandExecutor for SetValue {
    open spec fn request(&self) -> Request {
        self@
    }

    fn execute(&self, backend: &mut Backend) -> (reply: RespFrame) {
        backend.set(self.key.clone(), self.value.clone());
        resp_ok()
    }
}

impl TryFrom<RespArray> for Get {
    type Error = CommandError;

    fn try_from(value: RespArray) -> (r: Result<Self, CommandError>)
        ensures
            parsed(r) == parse_get(value@),
    {
        match read_text_at(&value, 1) {
            Some(key) => Ok(Get { key }),
            None => Err(CommandError::invalid("GET command must have a key")),
        }
    }
}

impl TryFromSpecImpl<RespArray> for Get {
    open spec fn obeys_try_from_spec() -> bool {
        false
    }

    open spec fn try_from_spec(v: RespArray) -> Result<Self, CommandError> {
        arbitrary()
    }
}

impl TryFrom<RespArray> for SetValue {
    type Error = CommandError;

    fn try_from(value: RespArray) -> (r: Result<Self, CommandError>)
        ensures
            parsed(r) == parse_set(value@),
    {
        match read_text_at(&value, 1) {
            Some(key) => match read_frame_at(&value, 2) {
                Some(val) => Ok(SetValue { key, value: val }),
                None => Err(CommandError::invalid("SET command must have a value")),
            },
            None => Err(CommandError::invalid("SET command must have a key")),
        }
    }
}

impl TryFromSpecImpl<RespArray> for SetValue {
    open spec fn obeys_try_from_spec() -> bool {
        false
    }

    open spec fn try_from_spec(v: RespArray) -> Result<Self, CommandError> {
        arbitrary()
    }
}

} // verus!
