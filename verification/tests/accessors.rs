use simple_redis::{
    BulkError, BulkString, RespArray, RespEncode, RespFrame, RespMap, RespSet, SimpleString,
};
use std::str::FromStr;

#[test]
fn simple_string_is_read_as_text() {
    let s = SimpleString::new("hello");
    assert_eq!(s.len(), 5);
    assert!(s.starts_with("he"));
    assert_eq!(&*s, "hello");
    assert_eq!(SimpleString::from_str("hello"), Ok(s));
}

#[test]
fn bulk_string_is_read_as_bytes() {
    let s = BulkString::from("abc");
    let bytes: &[u8] = s.as_ref();
    assert_eq!(bytes, b"abc");
    assert_eq!(s.first(), Some(&97));
    assert_eq!(s.iter().count(), 3);
    let e = BulkError::new(b"oops".to_vec());
    let bytes: &[u8] = e.as_ref();
    assert_eq!(bytes, b"oops");
    assert_eq!(e.as_bytes(), b"oops");
}

#[test]
fn array_and_set_are_read_as_sequences() {
    let array = RespArray::new(vec![1.into(), 2.into()]);
    assert_eq!(array.first(), Some(&RespFrame::Integer(1)));
    assert_eq!(array.iter().count(), 2);
    let mut set = RespSet::new(vec![1.into()]);
    set.push(2.into());
    set.push(1.into());
    assert_eq!(set.iter().count(), 3);
    assert_eq!(set.last(), Some(&RespFrame::Integer(1)));
    assert_eq!(set.encode(), b"~3\r\n:+1\r\n:+2\r\n:+1\r\n");
}

#[test]
fn map_hands_its_entries_out_in_key_order() {
    let mut map = RespMap::new();
    map.insert("b".to_string(), 2.into());
    map.insert("a".to_string(), 1.into());
    map.insert("c".to_string(), 3.into());
    map.in_order();
    assert_eq!(
        map.into_entries(),
        vec![
            ("a".to_string(), RespFrame::Integer(1)),
            ("b".to_string(), RespFrame::Integer(2)),
            ("c".to_string(), RespFrame::Integer(3)),
        ]
    );
}

#[test]
fn defaults_are_empty() {
    assert!(BulkString::default().is_empty());
    assert!(RespArray::default().is_empty());
    assert!(RespMap::default().is_empty());
    assert_eq!(RespMap::default(), RespMap::new());
    assert_eq!(RespMap::default().byte_size(), 4);
}
