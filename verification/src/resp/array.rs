//! Arrays: `*<number-of-elements>\r\n<element-1>...<element-n>`, and
//! `*-1\r\n` for the null one.

use crate::resp::frame::{frames_view, Frame, RespFrame};
use crate::resp::{CR, LF};
use vstd::prelude::*;

verus! {

/// The prefix byte of an array.
pub const PREFIX: u8 = 42;

/// A sequence of frames. The empty sequence is the null array.
#[derive(Debug, PartialEq)]
pub struct RespArray(pub Vec<RespFrame>);

impl View for RespArray {
    type V = Seq<Frame>;

    open spec fn view(&self) -> Seq<Frame> {
        frames_view(self.0@)
    }
}

/// The frame of the null array.
pub open spec fn null_wire() -> Seq<u8> {
    seq![PREFIX, 45u8, 49u8, CR, LF]
}

impl Default for RespArray {
    /// The null array.
    fn default() -> (r: Self)
        ensures
            r@ == Seq::<Frame>::empty(),
    {
        let r = RespArray(Vec::new());
        assert(r@ =~= Seq::<Frame>::empty());
        r
    }
}

impl RespArray {
    /// An array that holds `items`.
    pub fn new(items: Vec<RespFrame>) -> (r: Self)
        ensures
            r@ == frames_view(items@),
    {
        RespArray(items)
    }

    /// The number of items.
    pub fn len(&self) -> (n: usize)
        ensures
            n == self@.len(),
    {
        self.0.len()
    }

    /// Whether this is the null array.
    pub fn is_empty(&self) -> (b: bool)
        ensures
            b == (self@.len() == 0),
    {
        self.0.len() == 0
    }

    /// The item at `i`, if there is one.
    pub fn get(&self, i: usize) -> (r: Option<&RespFrame>)
        ensures
            r is Some <==> i < self@.len(),
            r matches Some(f) ==> f@ == self@[i as int],
    {
        if i < self.0.len() {
            Some(&self.0[i])
        } else {
            None
        }
    }
}

impl core::ops::Deref for RespArray {
    type Target = Vec<RespFrame>;

    /// The items.
    fn deref(&self) -> (items: &Vec<RespFrame>)
        ensures
            *items == self.0,
    {
        &self.0
    }
}

} // verus!
