//! Reading frames of any kind from the front of a buffer.
//!
//! A decoder looks at the bytes and never changes them. It answers with the
//! frame, with [`RespError::NotComplete`] where the buffer ends before the
//! frame does, or with what is wrong with the bytes. After each item of an
//! array, a set or a map, the reading goes on where the frame of that item
//! ends, as the item itself is written.

use crate::resp::array::RespArray;
use crate::resp::bulk_error::BulkError;
use crate::resp::bulk_string::BulkString;
use crate::resp::collection::RespSet;
use crate::resp::double::Double;
use crate::resp::encode::{frame_len, measures};
use crate::resp::frame::{frames_view, wire, Frame, RespFrame};
use crate::resp::mapping::{insert_entry, RespMap};
use crate::resp::null::RespNull;
use crate::resp::simple_error::SimpleError;
use crate::resp::simple_string::SimpleString;
use crate::resp::text::{decimal_chars, push_decimal};
use crate::resp::{
    array, boolean, bulk_error, bulk_string, collection, double, header, integer, mapping, null,
    outcome, read_len, simple_error, simple_string, DecodeError, RespDecode, RespError,
};
use vstd::prelude::*;
use vstd::string::StringExecFns;

verus! {

/// What is left of `rest` once `n` bytes are taken from its front; nothing
/// where it has fewer.
pub open spec fn after(rest: Seq<u8>, n: nat) -> Seq<u8> {
    if n <= rest.len() {
        rest.skip(n as int)
    } else {
        Seq::empty()
    }
}

/// What is said of a first byte that starts no kind of frame.
pub open spec fn type_message(prefix: u8) -> Seq<char> {
    "Invalid frame type: "@ + decimal_chars(prefix as nat)
}

/// The frame at the front of `buf`.
pub open spec fn read_frame(buf: Seq<u8>) -> Result<Frame, DecodeError>
    decreases buf.len(), 2nat, 0nat,
{
    if buf.len() == 0 {
        Err(DecodeError::NotComplete)
    } else if buf[0] == array::PREFIX {
        match read_array(buf) {
            Ok(items) => Ok(Frame::Array(items)),
            Err(e) => Err(e),
        }
    } else if buf[0] == boolean::PREFIX {
        match boolean::read_of(buf) {
            Ok(b) => Ok(Frame::Bool(b)),
            Err(e) => Err(e),
        }
    } else if buf[0] == bulk_error::PREFIX {
        match bulk_error::read_of(buf) {
            Ok(data) => Ok(Frame::BulkError(data)),
            Err(e) => Err(e),
        }
    } else if buf[0] == bulk_string::PREFIX {
        match bulk_string::read_of(buf) {
            Ok(data) => Ok(Frame::BulkString(data)),
            Err(e) => Err(e),
        }
    } else if buf[0] == double::PREFIX {
        match double::read_of(buf) {
            Ok(text) => Ok(Frame::Double(text)),
            Err(e) => Err(e),
        }
    } else if buf[0] == integer::PREFIX {
        match integer::read_of(buf) {
            Ok(v) => Ok(Frame::Integer(v)),
            Err(e) => Err(e),
        }
    } else if buf[0] == mapping::PREFIX {
        match read_map(buf) {
            Ok(entries) => Ok(Frame::Mapping(entries)),
            Err(e) => Err(e),
        }
    } else if buf[0] == null::PREFIX {
        match null::read_of(buf) {
            Ok(_) => Ok(Frame::Null),
            Err(e) => Err(e),
        }
    } else if buf[0] == collection::PREFIX {
        match read_set(buf) {
            Ok(items) => Ok(Frame::Collection(items)),
            Err(e) => Err(e),
        }
    } else if buf[0] == simple_error::PREFIX {
        match simple_error::read_of(buf) {
            Ok(text) => Ok(Frame::SimpleError(text)),
            Err(e) => Err(e),
        }
    } else if buf[0] == simple_string::PREFIX {
        match simple_string::read_of(buf) {
            Ok(text) => Ok(Frame::SimpleString(text)),
            Err(e) => Err(e),
        }
    } else {
        Err(DecodeError::InvalidFrameType(type_message(buf[0])))
    }
}

/// The items of the array at the front of `buf`. The count `-1` announces the
/// null array, which has no item.
pub open spec fn read_array(buf: Seq<u8>) -> Result<Seq<Frame>, DecodeError>
    decreases buf.len(), 1nat, 0nat,
{
    match header(buf) {
        Err(e) => Err(e),
        Ok((count, next)) => if count == -1 {
            Ok(Seq::empty())
        } else if count < -1 {
            Err(DecodeError::InvalidFrameLength(count))
        } else {
            read_frames(after(buf, next as nat), count as nat, Seq::empty())
        },
    }
}

/// The members of the set at the front of `buf`.
pub open spec fn read_set(buf: Seq<u8>) -> Result<Seq<Frame>, DecodeError>
    decreases buf.len(), 1nat, 0nat,
{
    match header(buf) {
        Err(e) => Err(e),
        Ok((count, next)) => if count < 0 {
            Err(DecodeError::InvalidFrameLength(count))
        } else {
            read_frames(after(buf, next as nat), count as nat, Seq::empty())
        },
    }
}

/// The entries of the map at the front of `buf`, each put under its key as
/// it is read.
pub open spec fn read_map(buf: Seq<u8>) -> Result<Seq<(Seq<char>, Frame)>, DecodeError>
    decreases buf.len(), 1nat, 0nat,
{
    match header(buf) {
        Err(e) => Err(e),
        Ok((count, next)) => if count < 0 {
            Err(DecodeError::InvalidFrameLength(count))
        } else {
            read_entries(after(buf, next as nat), count as nat, Seq::empty())
        },
    }
}

/// The frames in `acc` and, after them, the `n` frames at the front of `rest`.
pub open spec fn read_frames(rest: Seq<u8>, n: nat, acc: Seq<Frame>) -> Result<
    Seq<Frame>,
    DecodeError,
>
    decreases rest.len(), 3nat, n,
{
    if n == 0 {
        Ok(acc)
    } else {
        match read_frame(rest) {
            Err(e) => Err(e),
            Ok(f) => read_frames(after(rest, wire(f).len()), (n - 1) as nat, acc.push(f)),
        }
    }
}

/// The entries in `acc` with the `n` entries at the front of `rest` put
/// under their keys, one after the other.
pub open spec fn read_entries(rest: Seq<u8>, n: nat, acc: Seq<(Seq<char>, Frame)>) -> Result<
    Seq<(Seq<char>, Frame)>,
    DecodeError,
>
    decreases rest.len(), 3nat, n,
{
    if n == 0 {
        Ok(acc)
    } else {
        match simple_string::read_of(rest) {
            Err(e) => Err(e),
            Ok(key) => {
                let rest_value = after(rest, simple_string::wire_of(key).len());
                match read_frame(rest_value) {
                    Err(e) => Err(e),
                    Ok(value) => read_entries(
                        after(rest_value, wire(value).len()),
                        (n - 1) as nat,
                        insert_entry(acc, key, value),
                    ),
                }
            },
        }
    }
}

/// The error for a first byte that starts no kind of frame.
fn invalid_type(prefix: u8) -> (e: RespError)
    ensures
        e@ == DecodeError::InvalidFrameType(type_message(prefix)),
{
    let mut msg = String::from_str("Invalid frame type: ");
    push_decimal(prefix as u64, &mut msg);
    RespError::InvalidFrameType(msg)
}

/// Where the reading goes on in a buffer of `len` bytes after a frame of
/// `size` bytes that starts at `offset`: at the end of that frame, or at the
/// end of the buffer where the frame is longer than what is left.
fn step(len: usize, offset: usize, size: Option<usize>) -> (next: usize)
    requires
        offset <= len,
    ensures
        offset <= next <= len,
        match size {
            Some(n) => if n <= len - offset {
                next == offset + n
            } else {
                next == len
            },
            None => next == len,
        },
{
    match size {
        Some(n) => if n <= len - offset {
            offset + n
        } else {
            len
        },
        None => len,
    }
}

/// The bytes from `next` on are what is left after the frame at `offset`.
proof fn lemma_step(buf: Seq<u8>, offset: int, next: int, size: Option<usize>, n: nat)
    requires
        0 <= offset <= next <= buf.len(),
        buf.len() <= usize::MAX,
        measures(size, n),
        match size {
            Some(n) => if n <= buf.len() - offset {
                next == offset + n
            } else {
                next == buf.len()
            },
            None => next == buf.len(),
        },
    ensures
        buf.skip(next) == after(buf.skip(offset), n),
{
    if n <= buf.len() - offset {
        assert(buf.skip(offset).skip(n as int) =~= buf.skip(next));
    } else {
        assert(buf.skip(next) =~= Seq::<u8>::empty());
    }
}

/// Decodes the frame at the front of `buf`.
pub fn decode_frame(buf: &[u8]) -> (r: Result<RespFrame, RespError>)
    ensures
        outcome(r) == read_frame(buf@),
    decreases buf@.len(), 2nat,
{
    if buf.len() == 0 {
        return Err(RespError::NotComplete);
    }
    let prefix = buf[0];
    if prefix == array::PREFIX {
        match decode_array(buf) {
            Ok(a) => Ok(RespFrame::Array(a)),
            Err(e) => Err(e),
        }
    } else if prefix == boolean::PREFIX {
        match bool::decode(buf) {
            Ok(b) => Ok(RespFrame::Bool(b)),
            Err(e) => Err(e),
        }
    } else if prefix == bulk_error::PREFIX {
        match BulkError::decode(buf) {
            Ok(e) => Ok(RespFrame::BulkError(e)),
            Err(e) => Err(e),
        }
    } else if prefix == bulk_string::PREFIX {
        match BulkString::decode(buf) {
            Ok(s) => Ok(RespFrame::BulkString(s)),
            Err(e) => Err(e),
        }
    } else if prefix == double::PREFIX {
        match Double::decode(buf) {
            Ok(d) => Ok(RespFrame::Double(d)),
            Err(e) => Err(e),
        }
    } else if prefix == integer::PREFIX {
        match i64::decode(buf) {
            Ok(v) => Ok(RespFrame::Integer(v)),
            Err(e) => Err(e),
        }
    } else if prefix == mapping::PREFIX {
        match decode_map(buf) {
            Ok(m) => Ok(RespFrame::Mapping(m)),
            Err(e) => Err(e),
        }
    } else if prefix == null::PREFIX {
        match RespNull::decode(buf) {
            Ok(n) => Ok(RespFrame::Null(n)),
            Err(e) => Err(e),
        }
    } else if prefix == collection::PREFIX {
        match decode_set(buf) {
            Ok(s) => Ok(RespFrame::Collection(s)),
            Err(e) => Err(e),
        }
    } else if prefix == simple_error::PREFIX {
        match SimpleError::decode(buf) {
            Ok(e) => Ok(RespFrame::SimpleError(e)),
            Err(e) => Err(e),
        }
    } else if prefix == simple_string::PREFIX {
        match SimpleString::decode(buf) {
            Ok(s) => Ok(RespFrame::SimpleString(s)),
            Err(e) => Err(e),
        }
    } else {
        Err(invalid_type(prefix))
    }
}

/// Decodes the array at the front of `buf`.
pub fn decode_array(buf: &[u8]) -> (r: Result<RespArray, RespError>)
    ensures
        outcome(r) == read_array(buf@),
    decreases buf@.len(), 1nat,
{
    let (count, next) = match read_len(buf) {
        Ok(found) => found,
        Err(e) => {
            return Err(e);
        },
    };
    if count == -1 {
        let a = RespArray(Vec::new());
        assert(a@ =~= Seq::<Frame>::empty());
        return Ok(a);
    }
    if count < -1 {
        return Err(RespError::InvalidFrameLength(count));
    }
    match decode_items(buf, next, count) {
        Ok(items) => Ok(RespArray(items)),
        Err(e) => Err(e),
    }
}

/// Decodes the set at the front of `buf`.
pub fn decode_set(buf: &[u8]) -> (r: Result<RespSet, RespError>)
    ensures
        outcome(r) == read_set(buf@),
    decreases buf@.len(), 1nat,
{
    let (count, next) = match read_len(buf) {
        Ok(found) => found,
        Err(e) => {
            return Err(e);
        },
    };
    if count < 0 {
        return Err(RespError::InvalidFrameLength(count));
    }
    match decode_items(buf, next, count) {
        Ok(items) => Ok(RespSet(items)),
        Err(e) => Err(e),
    }
}

/// Decodes `count` frames, one after the other, from `start` on in `buf`.
fn decode_items(buf: &[u8], start: usize, count: i64) -> (r: Result<Vec<RespFrame>, RespError>)
    requires
        0 < start <= buf@.len(),
        count >= 0,
    ensures
        match r {
            Ok(items) => read_frames(buf@.skip(start as int), count as nat, Seq::empty()) == Ok::<
                Seq<Frame>,
                DecodeError,
            >(frames_view(items@)),
            Err(e) => read_frames(buf@.skip(start as int), count as nat, Seq::empty()) == Err::<
                Seq<Frame>,
                DecodeError,
            >(e@),
        },
    decreases buf@.len(), 0nat,
{
    let mut items: Vec<RespFrame> = Vec::new();
    let mut offset: usize = start;
    let mut left: i64 = count;
    assert(frames_view(items@) =~= Seq::<Frame>::empty());
    while left > 0
        invariant
            0 < start <= offset <= buf@.len(),
            0 <= left <= count,
            read_frames(buf@.skip(start as int), count as nat, Seq::empty()) == read_frames(
                buf@.skip(offset as int),
                left as nat,
                frames_view(items@),
            ),
        decreases left,
    {
        let rest = vstd::slice::slice_subrange(buf, offset, buf.len());
        assert(rest@ =~= buf@.skip(offset as int));
        let frame = match decode_frame(rest) {
            Ok(frame) => frame,
            Err(e) => {
                return Err(e);
            },
        };
        let size = frame_len(&frame);
        let next = step(buf.len(), offset, size);
        proof {
            lemma_step(buf@, offset as int, next as int, size, wire(frame@).len());
            assert(frames_view(items@.push(frame)) =~= frames_view(items@).push(frame@));
        }
        items.push(frame);
        offset = next;
        left = left - 1;
    }
    Ok(items)
}

/// Decodes the map at the front of `buf`.
pub fn decode_map(buf: &[u8]) -> (r: Result<RespMap, RespError>)
    ensures
        outcome(r) == read_map(buf@),
        r matches Ok(m) ==> m.wf(),
    decreases buf@.len(), 1nat,
{
    let (count, start) = match read_len(buf) {
        Ok(found) => found,
        Err(e) => {
            return Err(e);
        },
    };
    if count < 0 {
        return Err(RespError::InvalidFrameLength(count));
    }
    decode_entries(buf, start, count)
}

/// Decodes `count` entries, one after the other, from `start` on in `buf`,
/// and puts each under its key.
fn decode_entries(buf: &[u8], start: usize, count: i64) -> (r: Result<RespMap, RespError>)
    requires
        0 < start <= buf@.len(),
        count >= 0,
    ensures
        outcome(r) == read_entries(buf@.skip(start as int), count as nat, Seq::empty()),
        r matches Ok(m) ==> m.wf(),
    decreases buf@.len(), 0nat,
{
    let mut map = RespMap::new();
    let mut offset: usize = start;
    let mut left: i64 = count;
    while left > 0
        invariant
            0 < start <= offset <= buf@.len(),
            0 <= left <= count,
            map.wf(),
            read_entries(buf@.skip(start as int), count as nat, Seq::empty()) == read_entries(
                buf@.skip(offset as int),
                left as nat,
                map@,
            ),
        decreases left,
    {
        let rest = vstd::slice::slice_subrange(buf, offset, buf.len());
        assert(rest@ =~= buf@.skip(offset as int));
        let key = match SimpleString::decode(rest) {
            Ok(key) => key,
            Err(e) => {
                return Err(e);
            },
        };
        let key_size = key.0.as_str().as_bytes().len().checked_add(3);
        let value_at = step(buf.len(), offset, key_size);
        proof {
            lemma_step(
                buf@,
                offset as int,
                value_at as int,
                key_size,
                simple_string::wire_of(key@).len(),
            );
        }
        let rest_value = vstd::slice::slice_subrange(buf, value_at, buf.len());
        assert(rest_value@ =~= buf@.skip(value_at as int));
        let value = match decode_frame(rest_value) {
            Ok(value) => value,
            Err(e) => {
                return Err(e);
            },
        };
        let size = frame_len(&value);
        let next = step(buf.len(), value_at, size);
        proof {
            lemma_step(buf@, value_at as int, next as int, size, wire(value@).len());
        }
        map.insert(key.0, value);
        offset = next;
        left = left - 1;
    }
    Ok(map)
}

impl RespDecode for RespFrame {
    open spec fn read(buf: Seq<u8>) -> Result<Frame, DecodeError> {
        read_frame(buf)
    }

    fn decode(buf: &[u8]) -> (r: Result<Self, RespError>) {
        decode_frame(buf)
    }
}

impl RespDecode for RespArray {
    open spec fn read(buf: Seq<u8>) -> Result<Seq<Frame>, DecodeError> {
        read_array(buf)
    }

    fn decode(buf: &[u8]) -> (r: Result<Self, RespError>) {
        decode_array(buf)
    }
}

impl RespDecode for RespSet {
    open spec fn read(buf: Seq<u8>) -> Result<Seq<Frame>, DecodeError> {
        read_set(buf)
    }

    fn decode(buf: &[u8]) -> (r: Result<Self, RespError>) {
        decode_set(buf)
    }
}

impl RespDecode for RespMap {
    open spec fn read(buf: Seq<u8>) -> Result<Seq<(Seq<char>, Frame)>, DecodeError> {
        read_map(buf)
    }

    fn decode(buf: &[u8]) -> (r: Result<Self, RespError>) {
        decode_map(buf)
    }
}

} // verus!
