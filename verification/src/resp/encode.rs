//! Writing frames of any kind, and measuring what will be written.

use crate::resp::array::RespArray;
use crate::resp::collection::RespSet;
use crate::resp::frame::{
    entries_view, frame_view, frames_view, lemma_wire_all_concat, lemma_wire_all_push,
    lemma_wire_entries_concat, lemma_wire_entries_push, wire, wire_all, wire_entries, Frame,
    RespFrame,
};
use crate::resp::mapping::{copy_map, map_entries_len, write_map_entries, RespMap};
use crate::resp::decimal::{digits_len, signed_len};
use crate::resp::{
    array, collection, count_line_len, mapping, push_all, push_count_line, push_line_end,
    simple_string, RespEncode,
};
use vstd::prelude::*;

verus! {

/// Appends the frame of `f` to `buf`.
pub fn write_frame(f: &RespFrame, buf: &mut Vec<u8>)
    ensures
        final(buf)@ == old(buf)@ + wire(f@),
    decreases f,
{
    match f {
        RespFrame::Array(a) => {
            if a.0.len() == 0 {
                buf.push(array::PREFIX);
                buf.push(45u8);
                buf.push(49u8);
                push_line_end(buf);
                assert(final(buf)@ =~= old(buf)@ + wire(f@));
            } else {
                push_count_line(buf, array::PREFIX, a.0.len());
                write_items(&a.0, buf);
                assert(final(buf)@ =~= old(buf)@ + wire(f@));
            }
        },
        RespFrame::Bool(b) => {
            let bytes = b.encode();
            push_all(buf, bytes.as_slice());
        },
        RespFrame::BulkError(e) => {
            let bytes = e.encode();
            push_all(buf, bytes.as_slice());
        },
        RespFrame::BulkString(s) => {
            let bytes = s.encode();
            push_all(buf, bytes.as_slice());
        },
        RespFrame::Double(d) => {
            let bytes = d.encode();
            push_all(buf, bytes.as_slice());
        },
        RespFrame::Integer(v) => {
            let bytes = v.encode();
            push_all(buf, bytes.as_slice());
        },
        RespFrame::Mapping(m) => {
            push_count_line(buf, mapping::PREFIX, m.len());
            write_map_entries(m, buf);
            assert(final(buf)@ =~= old(buf)@ + wire(f@));
        },
        RespFrame::Null(n) => {
            let bytes = n.encode();
            push_all(buf, bytes.as_slice());
        },
        RespFrame::Collection(s) => {
            push_count_line(buf, collection::PREFIX, s.0.len());
            write_items(&s.0, buf);
            assert(final(buf)@ =~= old(buf)@ + wire(f@));
        },
        RespFrame::SimpleError(e) => {
            let bytes = e.encode();
            push_all(buf, bytes.as_slice());
        },
        RespFrame::SimpleString(s) => {
            let bytes = s.encode();
            push_all(buf, bytes.as_slice());
        },
    }
}

/// Appends the frames of `items` to `buf`, one after the other.
pub fn write_items(items: &Vec<RespFrame>, buf: &mut Vec<u8>)
    ensures
        final(buf)@ == old(buf)@ + wire_all(frames_view(items@)),
    decreases items,
{
    let ghost all = frames_view(items@);
    let mut i: usize = 0;
    assert(all.take(0) =~= Seq::<Frame>::empty());
    while i < items.len()
        invariant
            0 <= i <= items.len(),
            all == frames_view(items@),
            buf@ == old(buf)@ + wire_all(all.take(i as int)),
        decreases items.len() - i,
    {
        write_frame(&items[i], buf);
        proof {
            lemma_wire_all_push(all.take(i as int), all[i as int]);
            assert(all.take(i + 1) =~= all.take(i as int).push(all[i as int]));
            assert(buf@ =~= old(buf)@ + wire_all(all.take(i + 1)));
        }
        i = i + 1;
    }
    assert(all.take(items.len() as int) =~= all);
}

/// Appends the entries of a map to `buf`, one after the other.
pub fn write_entries(entries: &Vec<(String, RespFrame)>, buf: &mut Vec<u8>)
    ensures
        final(buf)@ == old(buf)@ + wire_entries(entries_view(entries@)),
    decreases entries,
{
    let ghost all = entries_view(entries@);
    let mut i: usize = 0;
    assert(all.take(0) =~= Seq::<(Seq<char>, Frame)>::empty());
    while i < entries.len()
        invariant
            0 <= i <= entries.len(),
            all == entries_view(entries@),
            buf@ == old(buf)@ + wire_entries(all.take(i as int)),
        decreases entries.len() - i,
    {
        let ghost before = buf@;
        buf.push(simple_string::PREFIX);
        push_all(buf, entries[i].0.as_str().as_bytes());
        push_line_end(buf);
        assert(buf@ =~= before + simple_string::wire_of(all[i as int].0));
        write_frame(&entries[i].1, buf);
        proof {
            lemma_wire_entries_push(all.take(i as int), all[i as int].0, all[i as int].1);
            assert(all.take(i + 1) =~= all.take(i as int).push(all[i as int]));
            assert(buf@ =~= old(buf)@ + wire_entries(all.take(i + 1)));
        }
        i = i + 1;
    }
    assert(all.take(entries.len() as int) =~= all);
}

/// Whether `r` is the number `n`, where `n` fits in a machine word, and
/// nothing where it does not.
pub open spec fn measures(r: Option<usize>, n: nat) -> bool {
    match r {
        Some(size) => size == n,
        None => n > usize::MAX,
    }
}

/// The number of bytes of the frame of `f`, if a machine word can hold it.
pub fn frame_len(f: &RespFrame) -> (r: Option<usize>)
    ensures
        measures(r, wire(f@).len()),
    decreases f,
{
    match f {
        RespFrame::Array(a) => {
            if a.0.len() == 0 {
                Some(5)
            } else {
                match items_len(&a.0) {
                    Some(n) => n.checked_add(count_line_len(a.0.len())),
                    None => None,
                }
            }
        },
        RespFrame::Bool(_) => Some(4),
        RespFrame::BulkError(e) => e.0.len().checked_add(digits_len(e.0.len() as u64) + 5),
        RespFrame::BulkString(s) => {
            if s.0.len() == 0 {
                Some(5)
            } else {
                s.0.len().checked_add(digits_len(s.0.len() as u64) + 5)
            }
        },
        RespFrame::Double(d) => d.as_str().as_bytes().len().checked_add(3),
        RespFrame::Integer(v) => Some(signed_len(*v) + 3),
        RespFrame::Mapping(m) => {
            match map_entries_len(m) {
                Some(n) => n.checked_add(count_line_len(m.len())),
                None => None,
            }
        },
        RespFrame::Null(_) => Some(3),
        RespFrame::Collection(s) => {
            match items_len(&s.0) {
                Some(n) => n.checked_add(count_line_len(s.0.len())),
                None => None,
            }
        },
        RespFrame::SimpleError(e) => e.0.as_str().as_bytes().len().checked_add(3),
        RespFrame::SimpleString(s) => s.0.as_str().as_bytes().len().checked_add(3),
    }
}

/// The number of bytes of the frames of `items`, if a machine word can hold it.
pub fn items_len(items: &Vec<RespFrame>) -> (r: Option<usize>)
    ensures
        measures(r, wire_all(frames_view(items@)).len()),
    decreases items,
{
    let ghost all = frames_view(items@);
    let mut total: usize = 0;
    let mut i: usize = 0;
    assert(all.take(0) =~= Seq::<Frame>::empty());
    while i < items.len()
        invariant
            0 <= i <= items.len(),
            all == frames_view(items@),
            total == wire_all(all.take(i as int)).len(),
        decreases items.len() - i,
    {
        proof {
            lemma_wire_all_push(all.take(i as int), all[i as int]);
            assert(all.take(i + 1) =~= all.take(i as int).push(all[i as int]));
            lemma_wire_all_concat(all.take(i + 1), all.skip(i + 1));
            assert(all.take(i + 1) + all.skip(i + 1) =~= all);
        }
        let n = match frame_len(&items[i]) {
            Some(n) => n,
            None => {
                return None;
            },
        };
        total = match total.checked_add(n) {
            Some(sum) => sum,
            None => {
                return None;
            },
        };
        i = i + 1;
    }
    assert(all.take(items.len() as int) =~= all);
    Some(total)
}

/// The number of bytes of the entries of a map, if a machine word can hold it.
pub fn entries_len(entries: &Vec<(String, RespFrame)>) -> (r: Option<usize>)
    ensures
        measures(r, wire_entries(entries_view(entries@)).len()),
    decreases entries,
{
    let ghost all = entries_view(entries@);
    let mut total: usize = 0;
    let mut i: usize = 0;
    assert(all.take(0) =~= Seq::<(Seq<char>, Frame)>::empty());
    while i < entries.len()
        invariant
            0 <= i <= entries.len(),
            all == entries_view(entries@),
            total == wire_entries(all.take(i as int)).len(),
        decreases entries.len() - i,
    {
        proof {
            lemma_wire_entries_push(all.take(i as int), all[i as int].0, all[i as int].1);
            assert(all.take(i + 1) =~= all.take(i as int).push(all[i as int]));
            lemma_wire_entries_concat(all.take(i + 1), all.skip(i + 1));
            assert(all.take(i + 1) + all.skip(i + 1) =~= all);
        }
        let key_len = match entries[i].0.as_str().as_bytes().len().checked_add(3) {
            Some(n) => n,
            None => {
                return None;
            },
        };
        let value_len = match frame_len(&entries[i].1) {
            Some(n) => n,
            None => {
                return None;
            },
        };
        let entry_len = match key_len.checked_add(value_len) {
            Some(n) => n,
            None => {
                return None;
            },
        };
        total = match total.checked_add(entry_len) {
            Some(sum) => sum,
            None => {
                return None;
            },
        };
        i = i + 1;
    }
    assert(all.take(entries.len() as int) =~= all);
    Some(total)
}

impl RespEncode for RespFrame {
    open spec fn wire(&self) -> Seq<u8> {
        wire(self@)
    }

    fn encode(&self) -> (buf: Vec<u8>) {
        let mut buf: Vec<u8> = Vec::new();
        write_frame(self, &mut buf);
        assert(buf@ =~= wire(self@));
        buf
    }

    fn byte_size(&self) -> (size: usize) {
        match frame_len(self) {
            Some(n) => n,
            None => 0,
        }
    }
}

impl RespEncode for RespArray {
    open spec fn wire(&self) -> Seq<u8> {
        wire(Frame::Array(self@))
    }

    fn encode(&self) -> (buf: Vec<u8>) {
        let mut buf: Vec<u8> = Vec::new();
        if self.0.len() == 0 {
            buf.push(array::PREFIX);
            buf.push(45u8);
            buf.push(49u8);
            push_line_end(&mut buf);
        } else {
            push_count_line(&mut buf, array::PREFIX, self.0.len());
            write_items(&self.0, &mut buf);
        }
        assert(buf@ =~= self.wire());
        buf
    }

    fn byte_size(&self) -> (size: usize) {
        if self.0.len() == 0 {
            return 5;
        }
        match items_len(&self.0) {
            Some(n) => n + count_line_len(self.0.len()),
            None => 0,
        }
    }
}

impl RespEncode for RespSet {
    open spec fn wire(&self) -> Seq<u8> {
        wire(Frame::Collection(self@))
    }

    fn encode(&self) -> (buf: Vec<u8>) {
        let mut buf: Vec<u8> = Vec::new();
        push_count_line(&mut buf, collection::PREFIX, self.0.len());
        write_items(&self.0, &mut buf);
        assert(buf@ =~= self.wire());
        buf
    }

    fn byte_size(&self) -> (size: usize) {
        match items_len(&self.0) {
            Some(n) => n + count_line_len(self.0.len()),
            None => 0,
        }
    }
}

impl RespEncode for RespMap {
    open spec fn wire(&self) -> Seq<u8> {
        wire(Frame::Mapping(self@))
    }

    /// Writes the frame, with the entries in ascending order of their keys.
    fn encode(&self) -> (buf: Vec<u8>)
        ensures
            self.wf(),
    {
        self.in_order();
        let mut buf: Vec<u8> = Vec::new();
        push_count_line(&mut buf, mapping::PREFIX, self.len());
        write_map_entries(self, &mut buf);
        assert(buf@ =~= self.wire());
        buf
    }

    fn byte_size(&self) -> (size: usize) {
        match map_entries_len(self) {
            Some(n) => n + count_line_len(self.len()),
            None => 0,
        }
    }
}

/// A copy of `f`.
pub fn copy_frame(f: &RespFrame) -> (r: RespFrame)
    ensures
        r@ == f@,
    decreases f,
{
    match f {
        RespFrame::Array(a) => RespFrame::Array(RespArray(copy_items(&a.0))),
        RespFrame::Bool(b) => RespFrame::Bool(*b),
        RespFrame::BulkError(e) => RespFrame::BulkError(e.clone()),
        RespFrame::BulkString(s) => RespFrame::BulkString(s.clone()),
        RespFrame::Double(d) => RespFrame::Double(d.clone()),
        RespFrame::Integer(v) => RespFrame::Integer(*v),
        RespFrame::Mapping(m) => RespFrame::Mapping(copy_map(m)),
        RespFrame::Null(_) => RespFrame::Null(crate::resp::null::RespNull),
        RespFrame::Collection(s) => RespFrame::Collection(RespSet(copy_items(&s.0))),
        RespFrame::SimpleError(e) => RespFrame::SimpleError(e.clone()),
        RespFrame::SimpleString(s) => RespFrame::SimpleString(s.clone()),
    }
}

/// A copy of each frame of `items`.
pub fn copy_items(items: &Vec<RespFrame>) -> (r: Vec<RespFrame>)
    ensures
        frames_view(r@) == frames_view(items@),
    decreases items,
{
    let mut out: Vec<RespFrame> = Vec::new();
    let mut i: usize = 0;
    while i < items.len()
        invariant
            0 <= i <= items.len(),
            out@.len() == i,
            forall|j: int| 0 <= j < i ==> frame_view(#[trigger] out@[j]) == frame_view(items@[j]),
        decreases items.len() - i,
    {
        out.push(copy_frame(&items[i]));
        i = i + 1;
    }
    assert(frames_view(out@) =~= frames_view(items@));
    out
}

/// A copy of each entry of a map.
pub fn copy_entries(entries: &Vec<(String, RespFrame)>) -> (r: Vec<(String, RespFrame)>)
    ensures
        entries_view(r@) == entries_view(entries@),
    decreases entries,
{
    let mut out: Vec<(String, RespFrame)> = Vec::new();
    let mut i: usize = 0;
    while i < entries.len()
        invariant
            0 <= i <= entries.len(),
            out@.len() == i,
            forall|j: int|
                0 <= j < i ==> (#[trigger] out@[j]).0@ == entries@[j].0@ && frame_view(out@[j].1)
                    == frame_view(entries@[j].1),
        decreases entries.len() - i,
    {
        out.push((entries[i].0.clone(), copy_frame(&entries[i].1)));
        i = i + 1;
    }
    assert(entries_view(out@) =~= entries_view(entries@));
    out
}

impl Clone for RespFrame {
    fn clone(&self) -> (r: Self)
        ensures
            r@ == self@,
    {
        copy_frame(self)
    }
}

impl Clone for RespArray {
    fn clone(&self) -> (r: Self)
        ensures
            r@ == self@,
    {
        RespArray(copy_items(&self.0))
    }
}

impl Clone for RespSet {
    fn clone(&self) -> (r: Self)
        ensures
            r@ == self@,
    {
        RespSet(copy_items(&self.0))
    }
}

} // verus!
