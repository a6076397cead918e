use simple_redis::{Double, RespDecode, RespError};

fn words(alphabet: &[u8], max_len: usize) -> Vec<Vec<u8>> {
    let mut all: Vec<Vec<u8>> = vec![Vec::new()];
    let mut last: Vec<Vec<u8>> = vec![Vec::new()];
    for _ in 0..max_len {
        let mut next = Vec::new();
        for w in &last {
            for c in alphabet {
                let mut longer = w.clone();
                longer.push(*c);
                next.push(longer);
            }
        }
        all.extend(next.iter().cloned());
        last = next;
    }
    all
}

#[test]
fn double_text_is_what_the_number_parser_takes() {
    for w in words(b"+-.eE10", 6) {
        let text = String::from_utf8(w).unwrap();
        assert_eq!(
            Double::new(&text).is_some(),
            text.parse::<f64>().is_ok(),
            "{:?}",
            text
        );
    }
    for w in words(b"+-iInNfFaAtTyY", 4) {
        let text = String::from_utf8(w).unwrap();
        assert_eq!(
            Double::new(&text).is_some(),
            text.parse::<f64>().is_ok(),
            "{:?}",
            text
        );
    }
    for sign in ["", "+", "-"] {
        for word in ["infinity", "INFINITY", "Infinity", "infinit", "infinityy", "iNfInItY"] {
            let text = format!("{}{}", sign, word);
            assert_eq!(
                Double::new(&text).is_some(),
                text.parse::<f64>().is_ok(),
                "{:?}",
                text
            );
        }
    }
}

#[test]
fn integer_text_is_what_the_number_parser_takes() {
    for w in words(b"+-019 x", 5) {
        let mut frame = vec![b':'];
        frame.extend_from_slice(&w);
        frame.extend_from_slice(b"\r\n");
        let text = String::from_utf8(w).unwrap();
        let expected = match text.parse::<i64>() {
            Ok(v) => Ok(v),
            Err(_) => Err(RespError::ParseIntError),
        };
        assert_eq!(i64::decode(&frame), expected, "{:?}", text);
    }
    for text in [
        "9223372036854775807",
        "9223372036854775808",
        "-9223372036854775808",
        "-9223372036854775809",
        "+9223372036854775807",
        "0000000000000000000000000000009223372036854775807",
        "-0000000000000000000000000000009223372036854775808",
        "99999999999999999999999999999999999",
        "18446744073709551616",
        "18446744073709551615",
    ] {
        let frame = format!(":{}\r\n", text);
        let expected = match text.parse::<i64>() {
            Ok(v) => Ok(v),
            Err(_) => Err(RespError::ParseIntError),
        };
        assert_eq!(i64::decode(frame.as_bytes()), expected, "{:?}", text);
    }
}
