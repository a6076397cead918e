//! What a connection does between reading bytes and writing bytes: it takes
//! the frames out of the buffer that it reads into, one by one, carries out
//! the command of each, and puts the reply into the buffer that it writes
//! from.

use crate::backend::Backend;
use crate::cmd::error::CommandError;
use crate::cmd::{answers, next_state, parse_command, Command, CommandExecutor};
use crate::resp::decode::{decode_frame, read_frame};
use crate::resp::encode::frame_len;
use crate::resp::frame::{well_formed, wire, Frame, RespFrame};
use crate::resp::laws::frame_before_tail;
use crate::resp::{DecodeError, RespEncode, RespError};
use bytes::{Buf, BytesMut};
use vstd::prelude::*;
use vstd::string::StringExecFns;

verus! {

/// `bytes::BytesMut`, a buffer of bytes that grows at its end and is emptied
/// from its front. What a buffer holds is told by [`buffered`] only.
#[verifier::external_type_specification]
#[verifier::external_body]
pub struct ExBytesMut(BytesMut);

/// The bytes that a buffer holds, from the first that was not yet taken.
pub uninterp spec fn buffered(b: BytesMut) -> Seq<u8>;

/// `BytesMut::as_ref` shows the bytes that the buffer holds.
#[verifier::external_body]
fn buffer_bytes(b: &BytesMut) -> (bytes: &[u8])
    ensures
        bytes@ == buffered(*b),
{
    b.as_ref()
}

/// `Buf::advance` takes `n` bytes from the front of the buffer. It panics
/// where the buffer holds fewer.
#[verifier::external_body]
fn buffer_advance(b: &mut BytesMut, n: usize)
    requires
        n <= buffered(*old(b)).len(),
    ensures
        buffered(*final(b)) == buffered(*old(b)).skip(n as int),
{
    b.advance(n)
}

/// `BytesMut::extend_from_slice` puts `bytes` at the end of the buffer.
#[verifier::external_body]
fn buffer_extend(b: &mut BytesMut, bytes: &[u8])
    ensures
        buffered(*final(b)) == buffered(*old(b)) + bytes@,
{
    b.extend_from_slice(bytes)
}

/// What is said of a frame that is written longer than the bytes that it
/// was read from.
pub open spec fn overrun_message() -> Seq<char> {
    "Frame is longer than its input"@
}

/// What one pull at a buffer that holds `buf` gives, and what the buffer
/// holds after it. A frame that is complete is taken out, with as many bytes
/// as it is written in. Where the frame is not complete yet, nothing is taken
/// and nothing is wrong. Any other error is handed on, and nothing is taken.
pub open spec fn pull(buf: Seq<u8>) -> (Result<Option<Frame>, DecodeError>, Seq<u8>) {
    match read_frame(buf) {
        Ok(f) => if wire(f).len() <= buf.len() {
            (Ok(Some(f)), buf.skip(wire(f).len() as int))
        } else {
            (Err(DecodeError::InvalidFrame(overrun_message())), buf)
        },
        Err(DecodeError::NotComplete) => (Ok(None), buf),
        Err(e) => (Err(e), buf),
    }
}

/// The outcome of a pull, with the frame and the error by their views.
pub open spec fn pulled(r: Result<Option<RespFrame>, RespError>) -> Result<
    Option<Frame>,
    DecodeError,
> {
    match r {
        Ok(Some(f)) => Ok(Some(f@)),
        Ok(None) => Ok(None),
        Err(e) => Err(e@),
    }
}

/// A well-formed frame at the front of a buffer is taken out by one pull, and
/// the bytes after it are left as they are.
pub proof fn pull_takes_one_frame(f: Frame, tail: Seq<u8>)
    requires
        well_formed(f),
    ensures
        pull(wire(f) + tail) == (Ok::<Option<Frame>, DecodeError>(Some(f)), tail),
{
    frame_before_tail(f, tail);
    assert((wire(f) + tail).skip(wire(f).len() as int) =~= tail);
}

/// The framing of a connection: frames out of the bytes that came in, and
/// frames into the bytes that go out.
#[derive(Debug)]
pub struct RespFrameCodec;

impl RespFrameCodec {
    /// Puts the frame of `item` at the end of `dst`.
    pub fn encode(&mut self, item: RespFrame, dst: &mut BytesMut)
        ensures
            buffered(*final(dst)) == buffered(*old(dst)) + wire(item@),
    {
        let bytes = item.encode();
        buffer_extend(dst, bytes.as_slice());
    }

    /// Takes the frame at the front of `src` out of it, if it is complete.
    pub fn decode(&mut self, src: &mut BytesMut) -> (r: Result<Option<RespFrame>, RespError>)
        ensures
            (pulled(r), buffered(*final(src))) == pull(buffered(*old(src))),
    {
        let bytes = buffer_bytes(src);
        let len = bytes.len();
        match decode_frame(bytes) {
            Ok(frame) => {
                match frame_len(&frame) {
                    Some(size) => {
                        if size <= len {
                            buffer_advance(src, size);
                            return Ok(Some(frame));
                        }
                    },
                    None => {},
                }
                Err(
                    RespError::InvalidFrame(String::from_str("Frame is longer than its input")),
                )
            },
            Err(RespError::NotComplete) => Ok(None),
            Err(e) => Err(e),
        }
    }
}

/// Carries out the command that `frame` makes, and returns the reply. A
/// frame that makes no command changes nothing.
pub fn request_handler(frame: RespFrame, backend: &mut Backend) -> (r: Result<
    RespFrame,
    CommandError,
>)
    ensures
        match parse_command(frame@) {
            Ok(req) => {
                &&& r matches Ok(reply)
                &&& answers(req, old(backend)@, reply@)
                &&& final(backend)@ == next_state(req, old(backend)@)
            },
            Err(e) => {
                &&& r matches Err(err)
                &&& err@ == e
                &&& final(backend)@ == old(backend)@
            },
        },
{
    match Command::try_from(frame) {
        Ok(cmd) => Ok(cmd.execute(backend)),
        Err(e) => Err(e),
    }
}

} // verus!
