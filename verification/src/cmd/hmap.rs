//! `HGET`, `HSET` and `HGETALL`: frames under the fields of a key.

use crate::backend::{fields_of, lists, Backend};
use crate::cmd::error::{CommandError, CommandFault};
use crate::cmd::{
    frame_at, listing, parsed, read_frame_at, read_text_at, resp_ok, text_at, CommandExecutor,
    HGet, HGetAll, HSet, Request,
};
use crate::resp::array::RespArray;
use crate::resp::bulk_string::BulkString;
use crate::resp::frame::{entries_view, frames_view, Frame, RespFrame};
use crate::resp::mapping::{
    content, distinct_keys, has_key, lemma_content_push, lemma_sorted_is_distinct, RespMap,
};
use crate::resp::null::RespNull;
use crate::resp::push_all;
use vstd::prelude::*;
use vstd::std_specs::convert::TryFromSpecImpl;

verus! {

/// The request that the items of an `HGET` command make: `[HGET, key, field]`.
pub open spec fn parse_hget(items: Seq<Frame>) -> Result<Request, CommandFault> {
    match text_at(items, 1) {
        Some(key) => match text_at(items, 2) {
            Some(field) => Ok(Request::HGet { key, field }),
            None => Err(CommandFault::InvalidCommand("HGET command must have a field"@)),
        },
        None => Err(CommandFault::InvalidCommand("HGET command must have a key"@)),
    }
}

/// The request that the items of an `HSET` command make:
/// `[HSET, key, field, value]`.
pub open spec fn parse_hset(items: Seq<Frame>) -> Result<Request, CommandFault> {
    match text_at(items, 1) {
        Some(key) => match text_at(items, 2) {
            Some(field) => match frame_at(items, 3) {
                Some(value) => Ok(Request::HSet { key, field, value }),
                None => Err(CommandFault::InvalidCommand("HSET command must have a value"@)),
            },
            None => Err(CommandFault::InvalidCommand("HSET command must have a field"@)),
        },
        None => Err(CommandFault::InvalidCommand("HSET command must have a key"@)),
    }
}

/// The request that the items of an `HGETALL` command make: `[HGETALL, key]`.
/// The fields are not asked for in order.
pub open spec fn parse_hgetall(items: Seq<Frame>) -> Result<Request, CommandFault> {
    match text_at(items, 1) {
        Some(key) => Ok(Request::HGetAll { key, sort: false }),
        None => Err(CommandFault::InvalidCommand("HGETALL command must have a key"@)),
    }
}

/// The entries of `list` in ascending order of their keys.
pub fn sort_entries(list: &Vec<(String, RespFrame)>) -> (r: RespMap)
    requires
        distinct_keys(entries_view(list@)),
    ensures
        r.wf(),
        content(r@) == content(entries_view(list@)),
{
    let ghost all = entries_view(list@);
    let mut map = RespMap::new();
    let mut i: usize = 0;
    assert(all.take(0) =~= map@);
    while i < list.len()
        invariant
            0 <= i <= list.len(),
            all == entries_view(list@),
            distinct_keys(all),
            map.wf(),
            content(map@) == content(all.take(i as int)),
        decreases list.len() - i,
    {
        proof {
            let seen = all.take(i as int);
            assert(all.take(i + 1) =~= seen.push(all[i as int]));
            assert(distinct_keys(seen)) by {
                assert forall|a: int, b: int| 0 <= a < b < seen.len() implies (#[trigger] seen[a]).0
                    != (#[trigger] seen[b]).0 by {
                    assert(seen[a] == all[a] && seen[b] == all[b]);
                }
            }
            if has_key(seen, all[i as int].0) {
                let j = choose|j: int|
                    0 <= j < seen.len() && (#[trigger] seen[j]).0 == all[i as int].0;
                assert(seen[j] == all[j]);
            }
            lemma_content_push(seen, all[i as int].0, all[i as int].1);
        }
        map.insert(list[i].0.clone(), list[i].1.clone());
        i = i + 1;
    }
    assert(all.take(list.len() as int) =~= all);
    map
}

/// The items of the array that lists `entries`: each key as a bulk string,
/// and its value after it.
pub fn list_entries(entries: &Vec<(String, RespFrame)>) -> (r: Vec<RespFrame>)
    ensures
        frames_view(r@) == listing(entries_view(entries@)),
{
    let ghost all = entries_view(entries@);
    let mut out: Vec<RespFrame> = Vec::new();
    let mut i: usize = 0;
    while i < entries.len()
        invariant
            0 <= i <= entries.len(),
            all == entries_view(entries@),
            out@.len() == 2 * i,
            forall|j: int| 0 <= j < 2 * i ==> (#[trigger] out@[j])@ == listing(all)[j],
        decreases entries.len() - i,
    {
        let mut name: Vec<u8> = Vec::new();
        push_all(&mut name, entries[i].0.as_str().as_bytes());
        out.push(RespFrame::BulkString(BulkString::new(name)));
        out.push(entries[i].1.clone());
        i = i + 1;
    }
    assert(frames_view(out@) =~= listing(all));
    out
}

impl CommandExecutor for HGet {
    open spec fn request(&self) -> Request {
        self@
    }

    fn execute(&self, backend: &mut Backend) -> (reply: RespFrame) {
        match backend.hget(self.key.as_str(), self.field.as_str()) {
            Some(value) => value,
            None => RespFrame::Null(RespNull),
        }
    }
}

impl CommandExecutor for HSet {
    open spec fn request(&self) -> Request {
        self@
    }

    fn execute(&self, backend: &mut Backend) -> (reply: RespFrame) {
        backend.hset(self.key.clone(), self.field.clone(), self.value.clone());
        resp_ok()
    }
}

impl CommandExecutor for HGetAll {
    open spec fn request(&self) -> Request {
        self@
    }

    fn execute(&self, backend: &mut Backend) -> (reply: RespFrame) {
        let ghost held = fields_of(backend@.nested, self.key@);
        match backend.hgetall(self.key.as_str()) {
            Some(list) => {
                if self.sort {
                    let in_order = sort_entries(&list);
                    let ghost ordered = in_order@;
                    let reply = RespFrame::Array(
                        RespArray::new(list_entries(&in_order.into_entries())),
                    );
                    proof {
                        lemma_sorted_is_distinct(ordered);
                        assert(lists(ordered, held));
                        assert(reply@ == Frame::Array(listing(ordered)));
                    }
                    reply
                } else {
                    let reply = RespFrame::Array(RespArray::new(list_entries(&list)));
                    proof {
                        assert(reply@ == Frame::Array(listing(entries_view(list@))));
                    }
                    reply
                }
            },
            None => {
                let reply = RespFrame::Array(RespArray::new(Vec::new()));
                proof {
                    let none = Seq::<(Seq<char>, Frame)>::empty();
                    assert(content(none) =~= held);
                    assert(listing(none) =~= reply@->Array_0);
                    assert(reply@ == Frame::Array(listing(none)));
                }
                reply
            },
        }
    }
}

impl TryFrom<RespArray> for HGet {
    type Error = CommandError;

    fn try_from(value: RespArray) -> (r: Result<Self, CommandError>)
        ensures
            parsed(r) == parse_hget(value@),
    {
        match read_text_at(&value, 1) {
            Some(key) => match read_text_at(&value, 2) {
                Some(field) => Ok(HGet { key, field }),
                None => Err(CommandError::invalid("HGET command must have a field")),
            },
            None => Err(CommandError::invalid("HGET command must have a key")),
        }
    }
}

impl TryFromSpecImpl<RespArray> for HGet {
    open spec fn obeys_try_from_spec() -> bool {
        false
    }

    open spec fn try_from_spec(v: RespArray) -> Result<Self, CommandError> {
        arbitrary()
    }
}

impl TryFrom<RespArray> for HSet {
    type Error = CommandError;

    fn try_from(value: RespArray) -> (r: Result<Self, CommandError>)
        ensures
            parsed(r) == parse_hset(value@),
    {
        match read_text_at(&value, 1) {
            Some(key) => match read_text_at(&value, 2) {
                Some(field) => match read_frame_at(&value, 3) {
                    Some(val) => Ok(HSet { key, field, value: val }),
                    None => Err(CommandError::invalid("HSET command must have a value")),
                },
                None => Err(CommandError::invalid("HSET command must have a field")),
            },
            None => Err(CommandError::invalid("HSET command must have a key")),
        }
    }
}

impl TryFromSpecImpl<RespArray> for HSet {
    open spec fn obeys_try_from_spec() -> bool {
        false
    }

    open spec fn try_from_spec(v: RespArray) -> Result<Self, CommandError> {
        arbitrary()
    }
}

impl TryFrom<RespArray> for HGetAll {
    type Error = CommandError;

    fn try_from(value: RespArray) -> (r: Result<Self, CommandError>)
        ensures
            parsed(r) == parse_hgetall(value@),
    {
        match read_text_at(&value, 1) {
            Some(key) => Ok(HGetAll { key, sort: false }),
            None => Err(CommandError::invalid("HGETALL command must have a key")),
        }
    }
}

impl TryFromSpecImpl<RespArray> for HGetAll {
    open spec fn obeys_try_from_spec() -> bool {
        false
    }

    open spec fn try_from_spec(v: RespArray) -> Result<Self, CommandError> {
        arbitrary()
    }
}

} // verus!
