//! Frames from the values that they hold.

use crate::resp::array::RespArray;
use crate::resp::bulk_error::BulkError;
use crate::resp::bulk_string::BulkString;
use crate::resp::collection::RespSet;
use crate::resp::double::Double;
use crate::resp::frame::{Frame, RespFrame};
use crate::resp::mapping::RespMap;
use crate::resp::null::RespNull;
use crate::resp::push_all;
use crate::resp::simple_error::SimpleError;
use crate::resp::simple_string::SimpleString;
use vstd::prelude::*;
use vstd::std_specs::convert::FromSpecImpl;
use vstd::utf8::encode_utf8;

verus! {

impl From<RespArray> for RespFrame {
    /// The frame that holds an array.
    fn from(v: RespArray) -> (r: Self) {
        RespFrame::Array(v)
    }
}

impl FromSpecImpl<RespArray> for RespFrame {
    open spec fn obeys_from_spec() -> bool {
        true
    }

    open spec fn from_spec(v: RespArray) -> Self {
        RespFrame::Array(v)
    }
}

impl From<bool> for RespFrame {
    /// The frame that holds a boolean.
    fn from(v: bool) -> (r: Self) {
        RespFrame::Bool(v)
    }
}

impl FromSpecImpl<bool> for RespFrame {
    open spec fn obeys_from_spec() -> bool {
        true
    }

    open spec fn from_spec(v: bool) -> Self {
        RespFrame::Bool(v)
    }
}

impl From<BulkError> for RespFrame {
    /// The frame that holds a bulk error.
    fn from(v: BulkError) -> (r: Self) {
        RespFrame::BulkError(v)
    }
}

impl FromSpecImpl<BulkError> for RespFrame {
    open spec fn obeys_from_spec() -> bool {
        true
    }

    open spec fn from_spec(v: BulkError) -> Self {
        RespFrame::BulkError(v)
    }
}

impl From<BulkString> for RespFrame {
    /// The frame that holds a bulk string.
    fn from(v: BulkString) -> (r: Self) {
        RespFrame::BulkString(v)
    }
}

impl FromSpecImpl<BulkString> for RespFrame {
    open spec fn obeys_from_spec() -> bool {
        true
    }

    open spec fn from_spec(v: BulkString) -> Self {
        RespFrame::BulkString(v)
    }
}

impl From<Double> for RespFrame {
    /// The frame that holds a double.
    fn from(v: Double) -> (r: Self) {
        RespFrame::Double(v)
    }
}

impl FromSpecImpl<Double> for RespFrame {
    open spec fn obeys_from_spec() -> bool {
        true
    }

    open spec fn from_spec(v: Double) -> Self {
        RespFrame::Double(v)
    }
}

impl From<i64> for RespFrame {
    /// The frame that holds an integer.
    fn from(v: i64) -> (r: Self) {
        RespFrame::Integer(v)
    }
}

impl FromSpecImpl<i64> for RespFrame {
    open spec fn obeys_from_spec() -> bool {
        true
    }

    open spec fn from_spec(v: i64) -> Self {
        RespFrame::Integer(v)
    }
}

impl From<RespMap> for RespFrame {
    /// The frame that holds a map.
    fn from(v: RespMap) -> (r: Self) {
        RespFrame::Mapping(v)
    }
}

impl FromSpecImpl<RespMap> for RespFrame {
    open spec fn obeys_from_spec() -> bool {
        true
    }

    open spec fn from_spec(v: RespMap) -> Self {
        RespFrame::Mapping(v)
    }
}

impl From<RespNull> for RespFrame {
    /// The frame that holds null.
    fn from(v: RespNull) -> (r: Self) {
        RespFrame::Null(v)
    }
}

impl FromSpecImpl<RespNull> for RespFrame {
    open spec fn obeys_from_spec() -> bool {
        true
    }

    open spec fn from_spec(v: RespNull) -> Self {
        RespFrame::Null(v)
    }
}

impl From<RespSet> for RespFrame {
    /// The frame that holds a set.
    fn from(v: RespSet) -> (r: Self) {
        RespFrame::Collection(v)
    }
}

impl FromSpecImpl<RespSet> for RespFrame {
    open spec fn obeys_from_spec() -> bool {
        true
    }

    open spec fn from_spec(v: RespSet) -> Self {
        RespFrame::Collection(v)
    }
}

impl From<SimpleError> for RespFrame {
    /// The frame that holds a simple error.
    fn from(v: SimpleError) -> (r: Self) {
        RespFrame::SimpleError(v)
    }
}

impl FromSpecImpl<SimpleError> for RespFrame {
    open spec fn obeys_from_spec() -> bool {
        true
    }

    open spec fn from_spec(v: SimpleError) -> Self {
        RespFrame::SimpleError(v)
    }
}

impl From<SimpleString> for RespFrame {
    /// The frame that holds a simple string.
    fn from(v: SimpleString) -> (r: Self) {
        RespFrame::SimpleString(v)
    }
}

impl FromSpecImpl<SimpleString> for RespFrame {
    open spec fn obeys_from_spec() -> bool {
        true
    }

    open spec fn from_spec(v: SimpleString) -> Self {
        RespFrame::SimpleString(v)
    }
}

impl From<&str> for RespFrame {
    /// The simple string that holds `s`.
    fn from(s: &str) -> (r: Self)
        ensures
            r@ == Frame::SimpleString(s@),
    {
        RespFrame::SimpleString(SimpleString::new(s))
    }
}

impl FromSpecImpl<&str> for RespFrame {
    open spec fn obeys_from_spec() -> bool {
        false
    }

    open spec fn from_spec(s: &str) -> Self {
        arbitrary()
    }
}

impl From<&[u8]> for RespFrame {
    /// The bulk string that holds `s`.
    fn from(s: &[u8]) -> (r: Self)
        ensures
            r@ == Frame::BulkString(s@),
    {
        RespFrame::BulkString(BulkString::from(s))
    }
}

impl FromSpecImpl<&[u8]> for RespFrame {
    open spec fn obeys_from_spec() -> bool {
        false
    }

    open spec fn from_spec(s: &[u8]) -> Self {
        arbitrary()
    }
}

impl<const N: usize> From<&[u8; N]> for RespFrame {
    /// The bulk string that holds `s`.
    fn from(s: &[u8; N]) -> (r: Self)
        ensures
            r@ == Frame::BulkString(s@),
    {
        RespFrame::BulkString(BulkString::from(s))
    }
}

impl<const N: usize> FromSpecImpl<&[u8; N]> for RespFrame {
    open spec fn obeys_from_spec() -> bool {
        false
    }

    open spec fn from_spec(s: &[u8; N]) -> Self {
        arbitrary()
    }
}

impl From<&[u8]> for BulkString {
    /// The bulk string that holds `s`.
    fn from(s: &[u8]) -> (r: Self)
        ensures
            r@ == s@,
    {
        let mut data: Vec<u8> = Vec::new();
        push_all(&mut data, s);
        assert(data@ =~= s@);
        BulkString(data)
    }
}

impl FromSpecImpl<&[u8]> for BulkString {
    open spec fn obeys_from_spec() -> bool {
        false
    }

    open spec fn from_spec(s: &[u8]) -> Self {
        arbitrary()
    }
}

impl<const N: usize> From<&[u8; N]> for BulkString {
    /// The bulk string that holds `s`.
    fn from(s: &[u8; N]) -> (r: Self)
        ensures
            r@ == s@,
    {
        let mut data: Vec<u8> = Vec::new();
        push_all(&mut data, s.as_slice());
        assert(data@ =~= s@);
        BulkString(data)
    }
}

impl<const N: usize> FromSpecImpl<&[u8; N]> for BulkString {
    open spec fn obeys_from_spec() -> bool {
        false
    }

    open spec fn from_spec(s: &[u8; N]) -> Self {
        arbitrary()
    }
}

impl From<&str> for BulkString {
    /// The bulk string that holds the bytes of `s`.
    fn from(s: &str) -> (r: Self)
        ensures
            r@ == encode_utf8(s@),
    {
        BulkString::from(s.as_bytes())
    }
}

impl FromSpecImpl<&str> for BulkString {
    open spec fn obeys_from_spec() -> bool {
        false
    }

    open spec fn from_spec(s: &str) -> Self {
        arbitrary()
    }
}

impl From<String> for BulkString {
    /// The bulk string that holds the bytes of `s`.
    fn from(s: String) -> (r: Self)
        ensures
            r@ == encode_utf8(s@),
    {
        BulkString::from(s.as_str().as_bytes())
    }
}

impl FromSpecImpl<String> for BulkString {
    open spec fn obeys_from_spec() -> bool {
        false
    }

    open spec fn from_spec(s: String) -> Self {
        arbitrary()
    }
}

impl From<&str> for SimpleString {
    /// The simple string that holds `s`.
    fn from(s: &str) -> (r: Self)
        ensures
            r@ == s@,
    {
        SimpleString::new(s)
    }
}

impl FromSpecImpl<&str> for SimpleString {
    open spec fn obeys_from_spec() -> bool {
        false
    }

    open spec fn from_spec(s: &str) -> Self {
        arbitrary()
    }
}

impl From<String> for SimpleString {
    /// The simple string that holds `s`.
    fn from(s: String) -> (r: Self) {
        SimpleString(s)
    }
}

impl FromSpecImpl<String> for SimpleString {
    open spec fn obeys_from_spec() -> bool {
        true
    }

    open spec fn from_spec(s: String) -> Self {
        SimpleString(s)
    }
}

} // verus!
