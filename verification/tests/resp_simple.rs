use simple_redis::{
    RespDecode, RespEncode, RespError, RespFrame, RespNull, SimpleError, SimpleString,
};

const SIMPLE_OK: &[u8] = b"+OK\r\n";
const NULL: &[u8] = b"_\r\n";
const TRUE: &[u8] = b"#t\r\n";
const FALSE: &[u8] = b"#f\r\n";

#[test]
fn simple_string_test_encode() {
    assert_eq!(SimpleString::new("OK").encode(), SIMPLE_OK);
    let frame: RespFrame = SimpleString::new("OK").into();
    assert_eq!(frame.encode(), SIMPLE_OK);
}

#[test]
fn simple_string_test_byte_size() {
    assert_eq!(SimpleString::new("OK").byte_size(), 5);
    let frame = RespFrame::from(SimpleString::new("OK"));
    assert_eq!(frame.byte_size(), 5);
}

#[test]
fn simple_string_test_decode() {
    assert_eq!(SimpleString::decode(SIMPLE_OK), Ok(SimpleString::new("OK")));
    assert_eq!(
        SimpleString::decode(b"+OK\r\nextra"),
        Ok(SimpleString::new("OK"))
    );
    assert_eq!(SimpleString::decode(b"+OK\r"), Err(RespError::NotComplete));
    assert_eq!(
        RespFrame::decode(SIMPLE_OK),
        Ok(SimpleString::new("OK").into())
    );
}

#[test]
fn simple_error_test_encode() {
    assert_eq!(
        SimpleError::new("Error message").encode(),
        b"-Error message\r\n"
    );
    let frame: RespFrame = SimpleError::new("Error message").into();
    assert_eq!(frame.encode(), b"-Error message\r\n");
}

#[test]
fn simple_error_test_byte_size() {
    assert_eq!(SimpleError::new("Error message").byte_size(), 16);
    let frame: RespFrame = SimpleError::new("Error message").into();
    assert_eq!(frame.byte_size(), 16);
}

#[test]
fn simple_error_test_decode() {
    assert_eq!(
        RespFrame::decode(b"-Error message\r\n"),
        Ok(SimpleError::new("Error message").into()),
    );
    assert_eq!(
        RespFrame::decode(b"-Error message"),
        Err(RespError::NotComplete),
    );
}

#[test]
fn null_test_encode() {
    assert_eq!(RespNull.encode(), NULL);
    let frame: RespFrame = RespNull.into();
    assert_eq!(frame.encode(), NULL);
}

#[test]
fn null_test_byte_size() {
    assert_eq!(RespNull.byte_size(), 3);
}

#[test]
fn null_test_decode() {
    assert!(RespNull::decode(NULL).is_ok());
    assert!(RespNull::decode(b"_\r\n").is_ok());
    assert!(RespNull::decode(b"_\r\nextra").is_ok());
    assert_eq!(RespNull::decode(b"_"), Err(RespError::NotComplete));
    assert!(RespNull::decode(b"_\r\r").is_err());
    assert_eq!(RespFrame::decode(NULL), Ok(RespNull.into()));
}

#[test]
fn null_decode_names_the_bytes() {
    assert_eq!(
        RespNull::decode(b"_\r\rrest"),
        Err(RespError::InvalidFrame(
            "Invalid null frame: [95, 13, 13]".to_string()
        ))
    );
}

#[test]
fn bool_test_encode() {
    assert_eq!(true.encode(), TRUE);
    assert_eq!(false.encode(), FALSE);
}

#[test]
fn bool_test_byte_size() {
    assert_eq!(true.byte_size(), 4);
    assert_eq!(false.byte_size(), 4);
}

#[test]
fn bool_test_decode() {
    assert!(bool::decode(TRUE).unwrap());
    assert!(!bool::decode(FALSE).unwrap());
}

#[test]
fn bool_decode_rejects_other_letters() {
    assert_eq!(bool::decode(b"#t\r"), Err(RespError::NotComplete));
    assert_eq!(
        bool::decode(b"#x\r\n"),
        Err(RespError::InvalidFrame(
            "Invalid boolean frame: [35, 120, 13, 10]".to_string()
        ))
    );
    assert_eq!(RespFrame::decode(b"#t\r\nrest"), Ok(true.into()));
}

#[test]
fn line_without_prefix_is_invalid() {
    assert_eq!(
        SimpleString::decode(b"\r\n"),
        Err(RespError::InvalidFrame("Missing frame prefix".to_string()))
    );
}

#[test]
fn simple_string_rejects_bad_utf8() {
    assert_eq!(
        SimpleString::decode(b"+\xff\xfe\r\n"),
        Err(RespError::Utf8Error)
    );
}

#[test]
fn simple_string_keeps_its_text() {
    let s = SimpleString::new("h\u{e9}llo");
    assert_eq!(s.as_str(), "h\u{e9}llo");
    assert_eq!(s.encode(), b"+h\xc3\xa9llo\r\n");
    assert_eq!(s.byte_size(), 9);
    assert_eq!(SimpleString::decode(&s.encode()), Ok(s));
}
