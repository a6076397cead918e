use simple_redis::{Double, RespDecode, RespEncode, RespError, RespFrame};

/// The decimal text of a number as a server makes it before it hands the
/// number to the library.
fn number_text(f: f64) -> String {
    let size = f.abs();
    if size > 1e+8 || (size > 0.0 && size < 1e-8) {
        format!("{:+e}", f)
    } else {
        let sign = if f.is_sign_negative() { "" } else { "+" };
        format!("{sign}{f}")
    }
}

fn double(f: f64) -> Double {
    Double::new(&number_text(f)).unwrap()
}

#[test]
fn test_double_encode() {
    let frame: RespFrame = double(123.456).into();
    assert_eq!(frame.encode(), b",+123.456\r\n");

    let frame: RespFrame = double(-123.456).into();
    assert_eq!(frame.encode(), b",-123.456\r\n");

    let frame: RespFrame = double(1.23456e+8).into();
    assert_eq!(frame.encode(), b",+1.23456e8\r\n");

    let frame: RespFrame = double(-1.23456e-9).into();
    assert_eq!(&frame.encode(), b",-1.23456e-9\r\n");
}

#[test]
fn every_number_has_a_double() {
    for f in [
        0.0,
        -0.0,
        1.0,
        1e8,
        1e-8,
        f64::MAX,
        f64::MIN,
        f64::MIN_POSITIVE,
        f64::EPSILON,
        f64::INFINITY,
        f64::NEG_INFINITY,
        f64::NAN,
    ] {
        let d = double(f);
        let back = d.as_str().parse::<f64>().unwrap();
        assert!(back == f || (back.is_nan() && f.is_nan()), "{}", f);
        assert_eq!(Double::decode(&d.encode()), Ok(d));
    }
}

#[test]
fn test_double_decode() {
    let f = Double::decode(b",123.45\r\n").unwrap();
    assert_eq!(f.as_str().parse::<f64>().unwrap(), 123.45);

    let f = Double::decode(b",+1.23456e-9\r\n").unwrap();
    assert_eq!(f.as_str().parse::<f64>().unwrap(), 1.23456e-9);
}

#[test]
fn double_text_is_written_as_it_is() {
    for (text, wire) in [
        ("+123.456", &b",+123.456\r\n"[..]),
        ("-123.456", &b",-123.456\r\n"[..]),
        ("+1.23456e8", &b",+1.23456e8\r\n"[..]),
        ("-1.23456e-9", &b",-1.23456e-9\r\n"[..]),
    ] {
        let d = Double::new(text).unwrap();
        assert_eq!(d.as_str(), text);
        assert_eq!(d.encode(), wire);
        assert_eq!(d.byte_size(), wire.len());
        let frame: RespFrame = d.clone().into();
        assert_eq!(frame.encode(), wire);
        assert_eq!(RespFrame::decode(wire), Ok(frame));
    }
}

#[test]
fn double_text_follows_the_grammar_of_numbers() {
    for text in [
        "0", "5.", ".5", "1e5", "1E5", "1e+5", "1.5e-3", "+inf", "-Infinity", "NaN", "nan", "INF",
        "007.5", "-.5e10",
    ] {
        assert!(Double::new(text).is_some(), "{}", text);
        assert!(text.parse::<f64>().is_ok(), "{}", text);
    }
    for text in [
        "", "+", "-", ".", "e5", "1e", "1e+", "1.2.3", "1 ", " 1", "in", "infinit", "nane", "1f",
        "++1", "0x10", "1_000", "+.e1",
    ] {
        assert!(Double::new(text).is_none(), "{}", text);
        assert!(text.parse::<f64>().is_err(), "{}", text);
    }
}

#[test]
fn double_decode_errors() {
    assert_eq!(Double::decode(b",1.5"), Err(RespError::NotComplete));
    assert_eq!(Double::decode(b",abc\r\n"), Err(RespError::ParseFloatError));
    assert_eq!(Double::decode(b",\r\n"), Err(RespError::ParseFloatError));
    assert_eq!(Double::decode(b",\xff\r\n"), Err(RespError::Utf8Error));
}
