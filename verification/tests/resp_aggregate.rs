use simple_redis::{
    BulkString, Double, RespArray, RespDecode, RespEncode, RespError, RespFrame, RespMap, RespSet,
    SimpleString,
};

const NULL: &[u8] = b"*-1\r\n";

#[test]
fn test_array_encode() {
    let buf = b"*3\r\n$3\r\nset\r\n$5\r\nhello\r\n$5\r\nworld\r\n";
    let frame: RespFrame = RespArray::new(vec![
        BulkString::from("set".to_string()).into(),
        BulkString::from("hello".to_string()).into(),
        BulkString::from("world".to_string()).into(),
    ])
    .into();
    assert_eq!(&frame.encode(), buf);
    assert_eq!(frame.byte_size(), buf.len());

    let frame: RespFrame = RespArray::new(vec![]).into();
    assert_eq!(frame.encode(), NULL);
    let frame: RespFrame = RespArray::default().into();
    assert_eq!(frame.encode(), NULL);
    assert_eq!(NULL.len(), frame.byte_size());
}

#[test]
fn test_array_decode() {
    let buf = b"*2\r\n$3\r\nset\r\n$5\r\nhello\r\n";
    let frame = RespArray::decode(buf).unwrap();
    assert_eq!(
        frame,
        RespArray::new(vec![b"set".into(), b"hello".into()])
    );
    assert_eq!(frame.byte_size(), buf.len());

    let ret = RespArray::decode(b"*2\r\n$3\r\nset\r\n");
    assert_eq!(ret.unwrap_err(), RespError::NotComplete);

    let frame = RespFrame::decode(NULL).unwrap();
    assert_eq!(frame, RespArray::default().into());
}

#[test]
fn test_set_encode() {
    let frame: RespFrame = RespSet::new(vec![
        RespArray::new(vec![1234.into(), true.into()]).into(),
        BulkString::from("world".to_string()).into(),
    ])
    .into();
    assert_eq!(
        frame.encode(),
        b"~2\r\n*2\r\n:+1234\r\n#t\r\n$5\r\nworld\r\n"
    );
}

#[test]
fn test_set_decode() {
    let buf = b"~2\r\n$3\r\nset\r\n$5\r\nhello\r\n";

    let frame = RespSet::decode(buf).unwrap();
    assert_eq!(
        frame,
        RespSet::new(vec![
            BulkString::new(b"set".to_vec()).into(),
            BulkString::new(b"hello".to_vec()).into()
        ])
    );
}

#[test]
fn test_map_encode() {
    let mut map = RespMap::new();
    map.insert(
        "hello".to_string(),
        BulkString::from("world".to_string()).into(),
    );
    map.insert(
        "foo".to_string(),
        Double::new(&format!("{}", -123456.789)).unwrap().into(),
    );

    let buf = b"%2\r\n+foo\r\n,-123456.789\r\n+hello\r\n$5\r\nworld\r\n";
    let frame: RespFrame = map.into();
    assert_eq!(&frame.encode(), buf);
    assert_eq!(frame.byte_size(), buf.len());
}

#[test]
fn test_map_decode() {
    let buf = b"%2\r\n+hello\r\n$5\r\nworld\r\n+foo\r\n$3\r\nbar\r\n";
    let frame = RespMap::decode(buf).unwrap();
    let mut map = RespMap::new();
    map.insert(
        "hello".to_string(),
        BulkString::new(b"world".to_vec()).into(),
    );
    map.insert("foo".to_string(), BulkString::new(b"bar".to_vec()).into());
    assert_eq!(frame, map);
    assert_eq!(frame.byte_size(), buf.len());
}

#[test]
fn map_is_written_in_key_order_whatever_the_order_of_inserts() {
    let keys = ["b", "a", "ab", "", "B", "\u{e9}", "z"];
    let mut forward = RespMap::new();
    for (i, k) in keys.iter().enumerate() {
        forward.insert(k.to_string(), (i as i64).into());
    }
    let mut backward = RespMap::new();
    for (i, k) in keys.iter().enumerate().rev() {
        backward.insert(k.to_string(), (i as i64).into());
    }
    assert_eq!(forward, backward);
    assert_eq!(forward.encode(), backward.encode());
    assert_eq!(
        forward.encode(),
        b"%7\r\n+\r\n:+3\r\n+B\r\n:+4\r\n+a\r\n:+1\r\n+ab\r\n:+2\r\n+b\r\n:+0\r\n+z\r\n:+6\r\n+\xc3\xa9\r\n:+5\r\n"
    );
    assert_eq!(forward.len(), 7);
}

#[test]
fn map_insert_replaces_and_hands_back() {
    let mut map = RespMap::new();
    assert!(map.is_empty());
    assert_eq!(map.insert("k".to_string(), 1.into()), None);
    assert_eq!(map.insert("k".to_string(), 2.into()), Some(1.into()));
    assert_eq!(map.len(), 1);
    assert_eq!(map.get("k"), Some(&RespFrame::Integer(2)));
    assert_eq!(map.get("j"), None);
    assert_eq!(map.encode(), b"%1\r\n+k\r\n:+2\r\n");
}

#[test]
fn map_decode_keeps_the_last_of_equal_keys() {
    let map = RespMap::decode(b"%2\r\n+k\r\n:+1\r\n+k\r\n:+2\r\n").unwrap();
    assert_eq!(map.len(), 1);
    assert_eq!(map.get("k"), Some(&RespFrame::Integer(2)));
}

#[test]
fn counts_below_zero_are_refused() {
    assert_eq!(
        RespArray::decode(b"*-2\r\n"),
        Err(RespError::InvalidFrameLength(-2))
    );
    assert_eq!(
        RespSet::decode(b"~-1\r\n"),
        Err(RespError::InvalidFrameLength(-1))
    );
    assert_eq!(
        RespMap::decode(b"%-1\r\n"),
        Err(RespError::InvalidFrameLength(-1))
    );
}

#[test]
fn empty_set_and_map() {
    assert_eq!(RespSet::new(vec![]).encode(), b"~0\r\n");
    assert_eq!(RespSet::new(vec![]).byte_size(), 4);
    assert_eq!(RespSet::decode(b"~0\r\n"), Ok(RespSet::new(vec![])));
    assert_eq!(RespMap::new().encode(), b"%0\r\n");
    assert_eq!(RespMap::decode(b"%0\r\n"), Ok(RespMap::new()));
    assert_eq!(RespArray::decode(b"*0\r\n"), Ok(RespArray::default()));
}

#[test]
fn set_keeps_equal_members() {
    let set = RespSet::new(vec![1.into(), 1.into()]);
    assert_eq!(set.len(), 2);
    assert!(!set.is_empty());
    assert_eq!(set.encode(), b"~2\r\n:+1\r\n:+1\r\n");
    assert_eq!(RespSet::decode(&set.encode()), Ok(set));
}

#[test]
fn unknown_prefix_is_an_invalid_frame_type() {
    assert_eq!(
        RespFrame::decode(b"x\r\n"),
        Err(RespError::InvalidFrameType(
            "Invalid frame type: 120".to_string()
        ))
    );
    assert_eq!(RespFrame::decode(b""), Err(RespError::NotComplete));
}

#[test]
fn array_items_and_copies() {
    let array = RespArray::new(vec![1.into(), BulkString::from("a").into()]);
    assert_eq!(array.len(), 2);
    assert!(!array.is_empty());
    assert_eq!(array.get(0), Some(&RespFrame::Integer(1)));
    assert_eq!(array.get(2), None);
    let copy = array.clone();
    assert_eq!(copy, array);
    let frame: RespFrame = RespArray::new(vec![
        array.into(),
        RespMap::new().into(),
        RespSet::new(vec![SimpleString::new("x").into()]).into(),
    ])
    .into();
    assert_eq!(frame.clone(), frame);
}

#[test]
fn from_text_and_bytes() {
    assert_eq!(
        RespFrame::from("OK"),
        RespFrame::SimpleString(SimpleString::new("OK"))
    );
    assert_eq!(
        RespFrame::from(&b"ab"[..]),
        RespFrame::BulkString(BulkString::new(vec![97, 98]))
    );
    assert_eq!(
        RespFrame::from(b"ab"),
        RespFrame::BulkString(BulkString::new(vec![97, 98]))
    );
    assert_eq!(SimpleString::from("a"), SimpleString::new("a"));
    assert_eq!(SimpleString::from("a".to_string()), SimpleString::new("a"));
}
