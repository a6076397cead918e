use simple_redis::{BulkError, BulkString, RespDecode, RespEncode, RespError, RespFrame};

const NULL: &[u8] = b"$-1\r\n";

#[test]
fn bulk_string_test_encode() {
    let frame: RespFrame = BulkString::from(b"bulk string").into();
    assert_eq!(frame.encode(), b"$11\r\nbulk string\r\n");

    let frame: RespFrame = BulkString::default().into();
    assert_eq!(frame.encode(), NULL);
    assert_eq!(5, frame.byte_size());
}

#[test]
fn bulk_string_test_byte_size() {
    let frame: RespFrame = BulkString::from(b"bulk string").into();
    assert_eq!(frame.byte_size(), 18);
}

#[test]
fn bulk_string_test_decode() {
    assert_eq!(
        RespFrame::decode(b"$11\r\nbulk string\r\n"),
        Ok(BulkString::from(b"bulk string").into()),
    );
    assert_eq!(
        RespFrame::decode(b"$11\r\nbulk string\r\nabc"),
        Ok(BulkString::from(b"bulk string").into()),
    );
    assert_eq!(
        RespFrame::decode(b"$11\r\nbulk string"),
        Err(RespError::NotComplete),
    );
    assert_eq!(
        RespFrame::decode(b"$11\r\nbulk string\r"),
        Err(RespError::NotComplete),
    );
    assert_eq!(
        RespFrame::decode(b"$11\r\nbulk string\n\nextra"),
        Err(RespError::InvalidFrame(
            "Invalid bulk string tail: [10, 10]".to_string()
        )),
    );

    assert_eq!(RespFrame::decode(NULL), Ok(BulkString::default().into()),);
}

#[test]
fn bulk_error_test_encode() {
    let frame: RespFrame = BulkError::new(b"bulk error".to_vec()).into();
    assert_eq!(frame.encode(), b"!10\r\nbulk error\r\n");
}

#[test]
fn bulk_error_test_byte_size() {
    let frame: RespFrame = BulkError::new(b"bulk error".to_vec()).into();
    assert_eq!(frame.byte_size(), 17);
}

#[test]
fn bulk_error_test_decode() {
    assert_eq!(
        RespFrame::decode(b"!10\r\nbulk error\r\n"),
        Ok(BulkError::new(b"bulk error".to_vec()).into()),
    );
    assert_eq!(
        RespFrame::decode(b"!10\r\nbulk error"),
        Err(RespError::NotComplete),
    );
    assert_eq!(
        RespFrame::decode(b"!10\r\nbulk error\r\nextra"),
        Ok(BulkError::new(b"bulk error".to_vec()).into()),
    );
    assert_eq!(
        RespFrame::decode(b"!10\r\nbulk error\n\nextra"),
        Err(RespError::InvalidFrame(
            "Invalid bulk error tail: [10, 10]".to_string()
        )),
    );
}

#[test]
fn bulk_lengths_below_the_null_one_are_refused() {
    assert_eq!(
        BulkString::decode(b"$-2\r\n"),
        Err(RespError::InvalidFrameLength(-2))
    );
    assert_eq!(
        BulkError::decode(b"!-1\r\n"),
        Err(RespError::InvalidFrameLength(-1))
    );
    assert_eq!(
        BulkString::decode(b"$9223372036854775807\r\nab\r\n"),
        Err(RespError::NotComplete)
    );
}

#[test]
fn empty_bulk_forms() {
    assert_eq!(BulkString::new(Vec::new()).encode(), NULL);
    assert_eq!(BulkString::decode(b"$0\r\n\r\n"), Ok(BulkString::default()));
    assert_eq!(BulkError::new(Vec::new()).encode(), b"!0\r\n\r\n");
    assert_eq!(BulkError::new(Vec::new()).byte_size(), 6);
    assert_eq!(
        BulkError::decode(b"!0\r\n\r\n"),
        Ok(BulkError::new(Vec::new()))
    );
}

#[test]
fn bulk_string_holds_any_bytes() {
    let data = vec![0u8, 13, 10, 255, 36];
    let s = BulkString::new(data.clone());
    assert_eq!(s.as_bytes(), &data[..]);
    assert_eq!(s.len(), 5);
    assert!(!s.is_empty());
    let bytes = s.encode();
    assert_eq!(bytes, b"$5\r\n\x00\r\n\xff$\r\n");
    assert_eq!(bytes.len(), s.byte_size());
    assert_eq!(BulkString::decode(&bytes), Ok(s));
}

#[test]
fn bulk_string_as_text() {
    assert_eq!(BulkString::from("hello").to_string(), "hello");
    assert_eq!(
        BulkString::new(vec![104, 255, 105]).to_string(),
        "h\u{fffd}i"
    );
    assert_eq!(BulkString::from("h\u{e9}".to_string()).as_bytes(), b"h\xc3\xa9");
}
