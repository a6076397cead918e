//! The frame: one self-delimited value of the wire protocol, of any kind.

use crate::resp::array::RespArray;
use crate::resp::bulk_error::BulkError;
use crate::resp::bulk_string::BulkString;
use crate::resp::collection::RespSet;

use crate::resp::double::{is_double_text, Double};
use crate::resp::mapping::{map_view, sorted, RespMap};
use crate::resp::null::RespNull;
use crate::resp::simple_error::SimpleError;
use crate::resp::simple_string::SimpleString;
use crate::resp::{
    array, boolean, bulk_error, bulk_string, collection, count_line, double, integer, mapping,
    null, simple_error, simple_string,
};
use vstd::prelude::*;
use vstd::utf8::encode_utf8;

verus! {

/// A frame of any kind.
#[derive(Debug, PartialEq)]
pub enum RespFrame {
    Array(RespArray),
    Bool(bool),
    BulkError(BulkError),
    BulkString(BulkString),
    Double(Double),
    Integer(i64),
    Mapping(RespMap),
    Null(RespNull),
    Collection(RespSet),
    SimpleError(SimpleError),
    SimpleString(SimpleString),
}

/// The mathematical value of a frame.
pub enum Frame {
    /// A sequence of frames.
    Array(Seq<Frame>),
    Bool(bool),
    /// The bytes of a bulk error.
    BulkError(Seq<u8>),
    /// The bytes of a bulk string.
    BulkString(Seq<u8>),
    /// The decimal text of a double.
    Double(Seq<char>),
    Integer(i64),
    /// The entries of a map, in the order in which they are written.
    Mapping(Seq<(Seq<char>, Frame)>),
    Null,
    /// The members of a set, in the order in which they are written.
    Collection(Seq<Frame>),
    /// The text of a simple error.
    SimpleError(Seq<char>),
    /// The text of a simple string.
    SimpleString(Seq<char>),
}

/// The value of the frame `f`.
pub open spec fn frame_view(f: RespFrame) -> Frame
    decreases f,
{
    match f {
        RespFrame::Array(a) => Frame::Array(frames_view(a.0@)),
        RespFrame::Bool(b) => Frame::Bool(b),
        RespFrame::BulkError(e) => Frame::BulkError(e@),
        RespFrame::BulkString(s) => Frame::BulkString(s@),
        RespFrame::Double(d) => Frame::Double(d@),
        RespFrame::Integer(v) => Frame::Integer(v),
        RespFrame::Mapping(m) => Frame::Mapping(map_view(m)),
        RespFrame::Null(_) => Frame::Null,
        RespFrame::Collection(s) => Frame::Collection(frames_view(s.0@)),
        RespFrame::SimpleError(e) => Frame::SimpleError(e@),
        RespFrame::SimpleString(s) => Frame::SimpleString(s@),
    }
}

/// The values of the frames `items`.
pub open spec fn frames_view(items: Seq<RespFrame>) -> Seq<Frame>
    decreases items,
{
    Seq::new(
        items.len(),
        |i: int|
            if 0 <= i < items.len() {
                frame_view(items[i])
            } else {
                Frame::Null
            },
    )
}

/// The values of the entries `entries`.
pub open spec fn entries_view(entries: Seq<(String, RespFrame)>) -> Seq<(Seq<char>, Frame)>
    decreases entries,
{
    Seq::new(
        entries.len(),
        |i: int|
            if 0 <= i < entries.len() {
                (entries[i].0@, frame_view(entries[i].1))
            } else {
                (Seq::empty(), Frame::Null)
            },
    )
}

impl View for RespFrame {
    type V = Frame;

    open spec fn view(&self) -> Frame {
        frame_view(*self)
    }
}

/// The bytes of the frame that stands for `f`.
pub open spec fn wire(f: Frame) -> Seq<u8>
    decreases f, 0nat,
{
    match f {
        Frame::Array(items) => if items.len() == 0 {
            array::null_wire()
        } else {
            count_line(array::PREFIX, items.len()) + wire_all(items)
        },
        Frame::Bool(b) => boolean::wire_of(b),
        Frame::BulkError(data) => bulk_error::wire_of(data),
        Frame::BulkString(data) => bulk_string::wire_of(data),
        Frame::Double(text) => double::wire_of(text),
        Frame::Integer(v) => integer::wire_of(v),
        Frame::Mapping(entries) => count_line(mapping::PREFIX, entries.len()) + wire_entries(
            entries,
        ),
        Frame::Null => null::wire_of(),
        Frame::Collection(items) => count_line(collection::PREFIX, items.len()) + wire_all(items),
        Frame::SimpleError(text) => simple_error::wire_of(text),
        Frame::SimpleString(text) => simple_string::wire_of(text),
    }
}

/// The frames of `items`, one after the other.
pub open spec fn wire_all(items: Seq<Frame>) -> Seq<u8>
    decreases items, 1nat,
{
    if items.len() == 0 {
        Seq::empty()
    } else {
        wire(items.first()) + wire_all(items.drop_first())
    }
}

/// The entries of a map, one after the other: each key as a simple string,
/// and its value after it.
pub open spec fn wire_entries(entries: Seq<(Seq<char>, Frame)>) -> Seq<u8>
    decreases entries, 1nat,
{
    if entries.len() == 0 {
        Seq::empty()
    } else {
        simple_string::wire_of(entries.first().0) + wire(entries.first().1) + wire_entries(
            entries.drop_first(),
        )
    }
}

/// Whether `text` can stand in one line: it holds neither a carriage return
/// nor a line feed.
pub open spec fn one_line(text: Seq<char>) -> bool {
    forall|i: int| 0 <= i < text.len() ==> #[trigger] text[i] != '\r' && text[i] != '\n'
}

/// Whether `f` is a frame as the protocol defines them: text without line
/// endings, doubles in decimal text, the keys of a map in ascending order,
/// and lengths that a header can announce.
pub open spec fn well_formed(f: Frame) -> bool
    decreases f,
{
    match f {
        Frame::Array(items) => items.len() <= i64::MAX && forall|i: int|
            0 <= i < items.len() ==> well_formed(#[trigger] items[i]),
        Frame::Bool(_) => true,
        Frame::BulkError(data) => data.len() <= i64::MAX,
        Frame::BulkString(data) => data.len() <= i64::MAX,
        Frame::Double(text) => is_double_text(encode_utf8(text)),
        Frame::Integer(_) => true,
        Frame::Mapping(entries) => {
            &&& entries.len() <= i64::MAX
            &&& sorted(entries)
            &&& forall|i: int|
                0 <= i < entries.len() ==> one_line((#[trigger] entries[i]).0) && well_formed(
                    entries[i].1,
                )
        },
        Frame::Null => true,
        Frame::Collection(items) => items.len() <= i64::MAX && forall|i: int|
            0 <= i < items.len() ==> well_formed(#[trigger] items[i]),
        Frame::SimpleError(text) => one_line(text),
        Frame::SimpleString(text) => one_line(text),
    }
}

/// The frames of two runs, one run after the other, are the frames of the
/// first run and then those of the second.
pub proof fn lemma_wire_all_concat(a: Seq<Frame>, b: Seq<Frame>)
    ensures
        wire_all(a + b) == wire_all(a) + wire_all(b),
    decreases a.len(),
{
    if a.len() == 0 {
        assert(a + b =~= b);
    } else {
        lemma_wire_all_concat(a.drop_first(), b);
        assert((a + b).drop_first() =~= a.drop_first() + b);
        assert((a + b).first() == a.first());
        assert(wire_all(a + b) =~= wire_all(a) + wire_all(b));
    }
}

/// The frames of a run with one more frame at its end.
pub proof fn lemma_wire_all_push(items: Seq<Frame>, last: Frame)
    ensures
        wire_all(items.push(last)) == wire_all(items) + wire(last),
{
    lemma_wire_all_concat(items, seq![last]);
    assert(items.push(last) =~= items + seq![last]);
    assert(seq![last].drop_first() =~= Seq::<Frame>::empty());
    assert(wire_all(Seq::<Frame>::empty()) =~= Seq::<u8>::empty());
    assert(seq![last].first() == last);
    assert(wire_all(seq![last]) =~= wire(last));
}

/// The entries of two runs, one run after the other.
pub proof fn lemma_wire_entries_concat(a: Seq<(Seq<char>, Frame)>, b: Seq<(Seq<char>, Frame)>)
    ensures
        wire_entries(a + b) == wire_entries(a) + wire_entries(b),
    decreases a.len(),
{
    if a.len() == 0 {
        assert(a + b =~= b);
    } else {
        lemma_wire_entries_concat(a.drop_first(), b);
        assert((a + b).drop_first() =~= a.drop_first() + b);
        assert((a + b).first() == a.first());
        assert(wire_entries(a + b) =~= wire_entries(a) + wire_entries(b));
    }
}

/// The entries of a run with one more entry at its end.
pub proof fn lemma_wire_entries_push(
    entries: Seq<(Seq<char>, Frame)>,
    key: Seq<char>,
    value: Frame,
)
    ensures
        wire_entries(entries.push((key, value))) == wire_entries(entries) + simple_string::wire_of(
            key,
        ) + wire(value),
{
    let one = seq![(key, value)];
    lemma_wire_entries_concat(entries, one);
    assert(entries.push((key, value)) =~= entries + one);
    assert(one.drop_first() =~= Seq::<(Seq<char>, Frame)>::empty());
    assert(wire_entries(Seq::<(Seq<char>, Frame)>::empty()) =~= Seq::<u8>::empty());
    assert(one.first() == (key, value));
    assert(wire_entries(one) =~= simple_string::wire_of(key) + wire(value));
    assert(wire_entries(entries) + (simple_string::wire_of(key) + wire(value)) =~= wire_entries(
        entries,
    ) + simple_string::wire_of(key) + wire(value));
}

} // verus!
