//! The commands that a frame can carry, and what each does to the store.
//!
//! A command is an array whose first item is a bulk string that names it.
//! The names are `GET`, `SET`, `HGET`, `HSET` and `HGETALL`, in upper case;
//! an array with any other name is a command that is not recognized, which
//! is answered and does nothing.

pub mod error;
pub mod hmap;
pub mod map;

use crate::backend::{fields_of, lists, Backend, BackendState};
use crate::cmd::error::{CommandError, CommandFault};
use crate::cmd::hmap::{parse_hget, parse_hgetall, parse_hset};
use crate::cmd::map::{parse_get, parse_set};
use crate::resp::array::RespArray;
use crate::resp::frame::{Frame, RespFrame};
use crate::resp::mapping::sorted;
use crate::resp::simple_string::SimpleString;
use crate::resp::text::text_of;
use vstd::prelude::*;
use vstd::std_specs::convert::TryFromSpecImpl;
use vstd::utf8::encode_utf8;

verus! {

/// Reads the frame under a key.
#[derive(Debug, PartialEq)]
pub struct Get {
    pub key: String,
}

/// Puts a frame under a key.
#[derive(Debug, PartialEq)]
pub struct SetValue {
    pub key: String,
    pub value: RespFrame,
}

/// Reads the frame under a field of a key.
#[derive(Debug, PartialEq)]
pub struct HGet {
    pub key: String,
    pub field: String,
}

/// Puts a frame under a field of a key.
#[derive(Debug, PartialEq)]
pub struct HSet {
    pub key: String,
    pub field: String,
    pub value: RespFrame,
}

/// Reads all the fields of a key with their frames.
#[derive(Debug, PartialEq)]
pub struct HGetAll {
    pub key: String,
    /// Whether the fields are listed in ascending order.
    pub sort: bool,
}

/// A command of a name that is not known.
#[derive(Debug, Clone, Copy, PartialEq)]
pub struct Unrecognized;

/// A command.
#[derive(Debug, PartialEq)]
pub enum Command {
    Get(Get),
    SetValue(SetValue),
    HGet(HGet),
    HSet(HSet),
    HGetAll(HGetAll),
    Unrecognized(Unrecognized),
}

/// The mathematical value of a command.
pub enum Request {
    Get { key: Seq<char> },
    SetValue { key: Seq<char>, value: Frame },
    HGet { key: Seq<char>, field: Seq<char> },
    HSet { key: Seq<char>, field: Seq<char>, value: Frame },
    HGetAll { key: Seq<char>, sort: bool },
    Unrecognized,
}

impl View for Get {
    type V = Request;

    open spec fn view(&self) -> Request {
        Request::Get { key: self.key@ }
    }
}

impl View for SetValue {
    type V = Request;

    open spec fn view(&self) -> Request {
        Request::SetValue { key: self.key@, value: self.value@ }
    }
}

impl View for HGet {
    type V = Request;

    open spec fn view(&self) -> Request {
        Request::HGet { key: self.key@, field: self.field@ }
    }
}

impl View for HSet {
    type V = Request;

    open spec fn view(&self) -> Request {
        Request::HSet { key: self.key@, field: self.field@, value: self.value@ }
    }
}

impl View for HGetAll {
    type V = Request;

    open spec fn view(&self) -> Request {
        Request::HGetAll { key: self.key@, sort: self.sort }
    }
}

impl View for Unrecognized {
    type V = Request;

    open spec fn view(&self) -> Request {
        Request::Unrecognized
    }
}

impl View for Command {
    type V = Request;

    open spec fn view(&self) -> Request {
        match self {
            Command::Get(c) => c@,
            Command::SetValue(c) => c@,
            Command::HGet(c) => c@,
            Command::HSet(c) => c@,
            Command::HGetAll(c) => c@,
            Command::Unrecognized(c) => c@,
        }
    }
}

/// The outcome of reading a command, with the command and the error by their
/// views.
pub open spec fn parsed<T: View>(r: Result<T, CommandError>) -> Result<T::V, CommandFault> {
    match r {
        Ok(v) => Ok(v@),
        Err(e) => Err(e@),
    }
}

/// The reply to a command that went well and has nothing to hand back.
pub open spec fn ok_reply() -> Frame {
    Frame::SimpleString("OK"@)
}

/// The frame `+OK\r\n`.
pub fn resp_ok() -> (r: RespFrame)
    ensures
        r@ == ok_reply(),
{
    RespFrame::SimpleString(SimpleString::new("OK"))
}

/// The text of the bulk string at `i` in `items`, if a bulk string stands
/// there.
pub open spec fn text_at(items: Seq<Frame>, i: int) -> Option<Seq<char>> {
    if 0 <= i < items.len() && items[i] is BulkString {
        Some(text_of(items[i]->BulkString_0))
    } else {
        None
    }
}

/// The frame at `i` in `items`, if one stands there.
pub open spec fn frame_at(items: Seq<Frame>, i: int) -> Option<Frame> {
    if 0 <= i < items.len() {
        Some(items[i])
    } else {
        None
    }
}

/// The text of the bulk string at `i` in `items`, if a bulk string stands
/// there.
pub fn read_text_at(items: &RespArray, i: usize) -> (r: Option<String>)
    ensures
        match r {
            Some(s) => text_at(items@, i as int) == Some(s@),
            None => text_at(items@, i as int) is None,
        },
{
    match items.get(i) {
        Some(RespFrame::BulkString(s)) => Some(s.to_string()),
        _ => None,
    }
}

/// A copy of the frame at `i` in `items`, if one stands there.
pub fn read_frame_at(items: &RespArray, i: usize) -> (r: Option<RespFrame>)
    ensures
        match r {
            Some(f) => frame_at(items@, i as int) == Some(f@),
            None => frame_at(items@, i as int) is None,
        },
{
    match items.get(i) {
        Some(f) => Some(f.clone()),
        None => None,
    }
}

/// The list of `entries` as the items of an array: each key as a bulk
/// string, and its value after it.
pub open spec fn listing(entries: Seq<(Seq<char>, Frame)>) -> Seq<Frame> {
    Seq::new(
        2 * entries.len(),
        |i: int|
            if i % 2 == 0 {
                Frame::BulkString(encode_utf8(entries[i / 2].0))
            } else {
                entries[i / 2].1
            },
    )
}

/// Whether `reply` answers the request `req` made of a store that holds
/// `state`.
pub open spec fn answers(req: Request, state: BackendState, reply: Frame) -> bool {
    match req {
        Request::Get { key } => reply == if state.flat.contains_key(key) {
            state.flat[key]
        } else {
            Frame::Null
        },
        Request::SetValue { .. } => reply == ok_reply(),
        Request::HGet { key, field } => reply == if state.nested.contains_key(key)
            && state.nested[key].contains_key(field) {
            state.nested[key][field]
        } else {
            Frame::Null
        },
        Request::HSet { .. } => reply == ok_reply(),
        Request::HGetAll { key, sort } => exists|entries: Seq<(Seq<char>, Frame)>|
            {
                &&& lists(entries, fields_of(state.nested, key))
                &&& sort ==> sorted(entries)
                &&& reply == Frame::Array(#[trigger] listing(entries))
            },
        Request::Unrecognized => reply == ok_reply(),
    }
}

/// What the store holds after the request `req`, where it held `state`.
pub open spec fn next_state(req: Request, state: BackendState) -> BackendState {
    match req {
        Request::SetValue { key, value } => BackendState {
            flat: state.flat.insert(key, value),
            nested: state.nested,
        },
        Request::HSet { key, field, value } => BackendState {
            flat: state.flat,
            nested: state.nested.insert(key, fields_of(state.nested, key).insert(field, value)),
        },
        _ => state,
    }
}

/// What was put under a key is what a later `GET` of that key is answered
/// with.
pub proof fn get_after_set(key: Seq<char>, value: Frame, state: BackendState, reply: Frame)
    requires
        answers(Request::Get { key }, next_state(Request::SetValue { key, value }, state), reply),
    ensures
        reply == value,
{
}

/// What was put under a field of a key is what a later `HGET` of that field
/// is answered with.
pub proof fn hget_after_hset(
    key: Seq<char>,
    field: Seq<char>,
    value: Frame,
    state: BackendState,
    reply: Frame,
)
    requires
        answers(
            Request::HGet { key, field },
            next_state(Request::HSet { key, field, value }, state),
            reply,
        ),
    ensures
        reply == value,
{
}

/// An `HGETALL` that asks for the fields in order has one answer only.
pub proof fn sorted_listing_is_one(key: Seq<char>, state: BackendState, a: Frame, b: Frame)
    requires
        answers(Request::HGetAll { key, sort: true }, state, a),
        answers(Request::HGetAll { key, sort: true }, state, b),
    ensures
        a == b,
{
    let held = fields_of(state.nested, key);
    let first = choose|entries: Seq<(Seq<char>, Frame)>|
        lists(entries, held) && sorted(entries) && a == Frame::Array(#[trigger] listing(entries));
    let second = choose|entries: Seq<(Seq<char>, Frame)>|
        lists(entries, held) && sorted(entries) && b == Frame::Array(#[trigger] listing(entries));
    crate::resp::mapping::lemma_sorted_same_content(first, second);
}

/// A command that can be carried out on the store.
pub trait CommandExecutor {
    /// The request that this command makes.
    spec fn request(&self) -> Request;

    /// Carries the command out, and returns the reply.
    fn execute(&self, backend: &mut Backend) -> (reply: RespFrame)
        ensures
            answers(self.request(), old(backend)@, reply@),
            final(backend)@ == next_state(self.request(), old(backend)@),
    ;
}

/// The name `GET`.
pub open spec fn name_get() -> Seq<u8> {
    seq![71u8, 69u8, 84u8]
}

/// The name `SET`.
pub open spec fn name_set() -> Seq<u8> {
    seq![83u8, 69u8, 84u8]
}

/// The name `HGET`.
pub open spec fn name_hget() -> Seq<u8> {
    seq![72u8, 71u8, 69u8, 84u8]
}

/// The name `HSET`.
pub open spec fn name_hset() -> Seq<u8> {
    seq![72u8, 83u8, 69u8, 84u8]
}

/// The name `HGETALL`.
pub open spec fn name_hgetall() -> Seq<u8> {
    seq![72u8, 71u8, 69u8, 84u8, 65u8, 76u8, 76u8]
}

/// What is said of a frame that cannot be a command.
pub open spec fn not_a_command() -> Seq<char> {
    "Command must be an array"@
}

/// The request that the items of an array make. The first item names the
/// command, and has to be a bulk string.
pub open spec fn parse_array(items: Seq<Frame>) -> Result<Request, CommandFault> {
    if items.len() > 0 && items[0] is BulkString {
        let name = items[0]->BulkString_0;
        if name == name_get() {
            parse_get(items)
        } else if name == name_set() {
            parse_set(items)
        } else if name == name_hget() {
            parse_hget(items)
        } else if name == name_hset() {
            parse_hset(items)
        } else if name == name_hgetall() {
            parse_hgetall(items)
        } else {
            Ok(Request::Unrecognized)
        }
    } else {
        Err(CommandFault::InvalidCommand(not_a_command()))
    }
}

/// The request that a frame makes. Only an array can make one.
pub open spec fn parse_command(f: Frame) -> Result<Request, CommandFault> {
    match f {
        Frame::Array(items) => parse_array(items),
        _ => Err(CommandFault::InvalidCommand(not_a_command())),
    }
}

/// Whether `name` is `GET` or `SET`, as `first` says: `G` or `S`.
fn is_three_letters(name: &[u8], first: u8) -> (r: bool)
    ensures
        r == (name@ == seq![first, 69u8, 84u8]),
{
    let r = name.len() == 3 && name[0] == first && name[1] == 69 && name[2] == 84;
    proof {
        if r {
            assert(name@ =~= seq![first, 69u8, 84u8]);
        }
    }
    r
}

/// Whether `name` is `HGET` or `HSET`, as `second` says: `G` or `S`.
fn is_four_letters(name: &[u8], second: u8) -> (r: bool)
    ensures
        r == (name@ == seq![72u8, second, 69u8, 84u8]),
{
    let r = name.len() == 4 && name[0] == 72 && name[1] == second && name[2] == 69 && name[3]
        == 84;
    proof {
        if r {
            assert(name@ =~= seq![72u8, second, 69u8, 84u8]);
        }
    }
    r
}

/// Whether `name` is `HGETALL`.
fn is_hgetall(name: &[u8]) -> (r: bool)
    ensures
        r == (name@ == name_hgetall()),
{
    let r = name.len() == 7 && name[0] == 72 && name[1] == 71 && name[2] == 69 && name[3] == 84
        && name[4] == 65 && name[5] == 76 && name[6] == 76;
    proof {
        if r {
            assert(name@ =~= name_hgetall());
        }
    }
    r
}

/// The commands by the letter that tells them apart.
enum Name {
    Get,
    SetValue,
    HGet,
    HSet,
    HGetAll,
    Other,
    Missing,
}

/// The name that the first item of `items` gives.
fn read_name(items: &RespArray) -> (name: Name)
    ensures
        match name {
            Name::Missing => !(items@.len() > 0 && items@[0] is BulkString),
            other => {
                &&& items@.len() > 0
                &&& items@[0] is BulkString
                &&& (other is Get) == (items@[0]->BulkString_0 == name_get())
                &&& (other is SetValue) == (items@[0]->BulkString_0 == name_set())
                &&& (other is HGet) == (items@[0]->BulkString_0 == name_hget())
                &&& (other is HSet) == (items@[0]->BulkString_0 == name_hset())
                &&& (other is HGetAll) == (items@[0]->BulkString_0 == name_hgetall())
            },
        },
{
    proof {
        assert(name_get()[0] != name_set()[0]);
        assert(name_hget()[1] != name_hset()[1]);
        assert(name_get().len() == 3 && name_set().len() == 3);
        assert(name_hget().len() == 4 && name_hset().len() == 4);
        assert(name_hgetall().len() == 7);
    }
    match items.get(0) {
        Some(RespFrame::BulkString(name)) => {
            let bytes = name.as_bytes();
            if is_three_letters(bytes, 71) {
                Name::Get
            } else if is_three_letters(bytes, 83) {
                Name::SetValue
            } else if is_four_letters(bytes, 71) {
                Name::HGet
            } else if is_four_letters(bytes, 83) {
                Name::HSet
            } else if is_hgetall(bytes) {
                Name::HGetAll
            } else {
                Name::Other
            }
        },
        _ => Name::Missing,
    }
}

impl TryFrom<RespArray> for Command {
    type Error = CommandError;

    fn try_from(value: RespArray) -> (r: Result<Self, CommandError>)
        ensures
            parsed(r) == parse_array(value@),
    {
        match read_name(&value) {
            Name::Get => match Get::try_from(value) {
                Ok(c) => Ok(Command::Get(c)),
                Err(e) => Err(e),
            },
            Name::SetValue => match SetValue::try_from(value) {
                Ok(c) => Ok(Command::SetValue(c)),
                Err(e) => Err(e),
            },
            Name::HGet => match HGet::try_from(value) {
                Ok(c) => Ok(Command::HGet(c)),
                Err(e) => Err(e),
            },
            Name::HSet => match HSet::try_from(value) {
                Ok(c) => Ok(Command::HSet(c)),
                Err(e) => Err(e),
            },
            Name::HGetAll => match HGetAll::try_from(value) {
                Ok(c) => Ok(Command::HGetAll(c)),
                Err(e) => Err(e),
            },
            Name::Other => Ok(Command::Unrecognized(Unrecognized)),
            Name::Missing => Err(CommandError::invalid("Command must be an array")),
        }
    }
}

impl TryFromSpecImpl<RespArray> for Command {
    open spec fn obeys_try_from_spec() -> bool {
        false
    }

    open spec fn try_from_spec(v: RespArray) -> Result<Self, CommandError> {
        arbitrary()
    }
}

impl TryFrom<RespFrame> for Command {
    type Error = CommandError;

    fn try_from(value: RespFrame) -> (r: Result<Self, CommandError>)
        ensures
            parsed(r) == parse_command(value@),
    {
        match value {
            RespFrame::Array(array) => Command::try_from(array),
            _ => Err(CommandError::invalid("Command must be an array")),
        }
    }
}

impl TryFromSpecImpl<RespFrame> for Command {
    open spec fn obeys_try_from_spec() -> bool {
        false
    }

    open spec fn try_from_spec(v: RespFrame) -> Result<Self, CommandError> {
        arbitrary()
    }
}

impl CommandExecutor for Command {
    open spec fn request(&self) -> Request {
        self@
    }

    fn execute(&self, backend: &mut Backend) -> (reply: RespFrame) {
        match self {
            Command::Get(c) => c.execute(backend),
            Command::SetValue(c) => c.execute(backend),
            Command::HGet(c) => c.execute(backend),
            Command::HSet(c) => c.execute(backend),
            Command::HGetAll(c) => c.execute(backend),
            Command::Unrecognized(c) => c.execute(backend),
        }
    }
}

impl CommandExecutor for Unrecognized {
    open spec fn request(&self) -> Request {
        self@
    }

    fn execute(&self, backend: &mut Backend) -> (reply: RespFrame) {
        resp_ok()
    }
}

} // verus!
