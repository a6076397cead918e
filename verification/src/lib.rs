//! A small key/value server core speaking the RESP3 wire format: a codec for
//! the frame family, the typed commands carried by frames, the in-memory store
//! and the buffer framing used by a connection.

pub mod backend;
pub mod cmd;
pub mod network;
pub mod resp;

pub use backend::{Backend, BackendState};
pub use cmd::error::CommandError;
pub use cmd::{
    resp_ok, Command, CommandExecutor, Get, HGet, HGetAll, HSet, SetValue, Unrecognized,
};
pub use network::{request_handler, RespFrameCodec};
pub use resp::array::RespArray;
pub use resp::bulk_error::BulkError;
pub use resp::bulk_string::BulkString;
pub use resp::collection::RespSet;
pub use resp::double::Double;
pub use resp::frame::RespFrame;
pub use resp::mapping::RespMap;
pub use resp::null::RespNull;
pub use resp::simple_error::SimpleError;
pub use resp::simple_string::SimpleString;
pub use resp::{find_crlf, read_len, RespDecode, RespEncode, RespError};
