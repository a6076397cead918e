//! Sets: `~<number-of-elements>\r\n<element-1>...<element-n>`.

use crate::resp::frame::{frames_view, Frame, RespFrame};
use vstd::prelude::*;

verus! {

/// The prefix byte of a set.
pub const PREFIX: u8 = 126;

/// The members of a set, in the order in which they were given. A member may
/// stand in it more than once.
#[derive(Debug, PartialEq)]
pub struct RespSet(pub Vec<RespFrame>);

impl View for RespSet {
    type V = Seq<Frame>;

    open spec fn view(&self) -> Seq<Frame> {
        frames_view(self.0@)
    }
}

impl RespSet {
    /// A set that holds `items`.
    pub fn new(items: Vec<RespFrame>) -> (r: Self)
        ensures
            r@ == frames_view(items@),
    {
        RespSet(items)
    }

    /// The number of members.
    pub fn len(&self) -> (n: usize)
        ensures
            n == self@.len(),
    {
        self.0.len()
    }

    /// Puts `item` after the members that the set has.
    pub fn push(&mut self, item: RespFrame)
        ensures
            final(self)@ == old(self)@.push(item@),
    {
        self.0.push(item);
        assert(final(self)@ =~= old(self)@.push(item@));
    }

    /// Whether the set has no member.
    pub fn is_empty(&self) -> (b: bool)
        ensures
            b == (self@.len() == 0),
    {
        self.0.len() == 0
    }
}

impl core::ops::Deref for RespSet {
    type Target = Vec<RespFrame>;

    /// The members.
    fn deref(&self) -> (items: &Vec<RespFrame>)
        ensures
            *items == self.0,
    {
        &self.0
    }
}

} // verus!
