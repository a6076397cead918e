use simple_redis::{find_crlf, read_len, RespDecode, RespEncode, RespError, RespFrame};

#[test]
fn test_integer_encode() {
    let frame: RespFrame = 123.into();
    assert_eq!(frame.encode(), b":+123\r\n");

    let frame: RespFrame = (-123).into();
    assert_eq!(frame.encode(), b":-123\r\n");
}

#[test]
fn test_integer_decode() {
    let frame = i64::decode(b":+123\r\n").unwrap();
    assert_eq!(frame, 123);

    let frame = i64::decode(b":-123\r\n").unwrap();
    assert_eq!(frame, -123);
}

#[test]
fn integer_extremes_round_trip() {
    for v in [0i64, 1, -1, 9, 10, -10, i64::MAX, i64::MIN] {
        let bytes = v.encode();
        assert_eq!(bytes.len(), v.byte_size());
        assert_eq!(i64::decode(&bytes), Ok(v));
    }
    assert_eq!(0i64.encode(), b":+0\r\n");
    assert_eq!(i64::MIN.encode(), b":-9223372036854775808\r\n");
    assert_eq!(i64::MAX.encode(), b":+9223372036854775807\r\n");
}

#[test]
fn integer_decode_reads_plain_digits() {
    assert_eq!(i64::decode(b":42\r\n"), Ok(42));
    assert_eq!(i64::decode(b":007\r\n"), Ok(7));
    assert_eq!(i64::decode(b":-0\r\n"), Ok(0));
}

#[test]
fn integer_decode_errors() {
    assert_eq!(i64::decode(b":12"), Err(RespError::NotComplete));
    assert_eq!(i64::decode(b":\r\n"), Err(RespError::ParseIntError));
    assert_eq!(i64::decode(b":+\r\n"), Err(RespError::ParseIntError));
    assert_eq!(i64::decode(b":1x\r\n"), Err(RespError::ParseIntError));
    assert_eq!(
        i64::decode(b":9223372036854775808\r\n"),
        Err(RespError::ParseIntError)
    );
    assert_eq!(
        i64::decode(b":-9223372036854775809\r\n"),
        Err(RespError::ParseIntError)
    );
    assert_eq!(i64::decode(b":\xff\r\n"), Err(RespError::Utf8Error));
}

#[test]
fn find_crlf_finds_the_first() {
    assert_eq!(find_crlf(b""), None);
    assert_eq!(find_crlf(b"\r"), None);
    assert_eq!(find_crlf(b"abc\r"), None);
    assert_eq!(find_crlf(b"\r\n"), Some(0));
    assert_eq!(find_crlf(b"ab\rc\r\nd\r\n"), Some(4));
    assert_eq!(find_crlf(b"\n\r\r\n"), Some(2));
}

#[test]
fn read_len_reads_the_header() {
    assert_eq!(read_len(b"$11\r\nbulk string\r\n"), Ok((11, 5)));
    assert_eq!(read_len(b"*-1\r\n"), Ok((-1, 5)));
    assert_eq!(read_len(b"*+3\r\nrest"), Ok((3, 5)));
    assert_eq!(read_len(b"*3"), Err(RespError::NotComplete));
    assert_eq!(read_len(b"*x\r\n"), Err(RespError::ParseIntError));
    assert_eq!(
        read_len(b"\r\n"),
        Err(RespError::InvalidFrame("Missing frame prefix".to_string()))
    );
}
