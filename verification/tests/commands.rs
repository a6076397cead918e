use simple_redis::{
    resp_ok, Backend, BulkString, Command, CommandError, CommandExecutor, Get, HGet, HGetAll, HSet,
    RespArray, RespDecode, RespEncode, RespFrame, RespMap, RespNull, SetValue, SimpleString,
    Unrecognized,
};

fn command(parts: &[&str]) -> RespFrame {
    RespArray::new(
        parts
            .iter()
            .map(|p| BulkString::from(*p).into())
            .collect::<Vec<RespFrame>>(),
    )
    .into()
}

#[test]
fn test_command() {
    let buf = b"*2\r\n$3\r\nGET\r\n$5\r\nnnnnn\r\n";
    let frame: RespFrame = RespArray::decode(buf).unwrap().into();
    let cmd: Command = frame.try_into().unwrap();
    assert_eq!(
        cmd,
        Command::Get(Get {
            key: "nnnnn".to_string()
        })
    );
    let mut backend = Backend::new();
    let ret = cmd.execute(&mut backend);
    assert_eq!(ret, RespFrame::Null(RespNull));
}

#[test]
fn test_set_get_command() {
    let mut backend = Backend::new();
    let cmd = SetValue {
        key: "hello".to_string(),
        value: RespFrame::BulkString(b"world".into()),
    };
    let result = cmd.execute(&mut backend);
    assert_eq!(result, resp_ok());

    let cmd = Get {
        key: "hello".to_string(),
    };
    let result = cmd.execute(&mut backend);
    assert_eq!(result, RespFrame::BulkString(b"world".into()));
}

#[test]
fn test_hset_hget_hgetall_commands() {
    let mut backend = Backend::new();
    let cmd = HSet {
        key: "map".to_string(),
        field: "hello".to_string(),
        value: RespFrame::BulkString(b"world".into()),
    };
    let result = cmd.execute(&mut backend);
    assert_eq!(result, resp_ok());

    let cmd = HSet {
        key: "map".to_string(),
        field: "hello1".to_string(),
        value: RespFrame::BulkString(b"world1".into()),
    };
    cmd.execute(&mut backend);

    let cmd = HGet {
        key: "map".to_string(),
        field: "hello".to_string(),
    };
    let result = cmd.execute(&mut backend);
    assert_eq!(result, RespFrame::BulkString(b"world".into()));

    let cmd = HGetAll {
        key: "map".to_string(),
        sort: true,
    };
    let result = cmd.execute(&mut backend);

    let expected = RespArray::new(vec![
        BulkString::from("hello").into(),
        BulkString::from("world").into(),
        BulkString::from("hello1").into(),
        BulkString::from("world1").into(),
    ]);
    assert_eq!(result, expected.into());
    assert_eq!(
        result.encode(),
        b"*4\r\n$5\r\nhello\r\n$5\r\nworld\r\n$6\r\nhello1\r\n$6\r\nworld1\r\n"
    );
}

#[test]
fn ok_reply_is_plus_ok() {
    assert_eq!(resp_ok(), RespFrame::SimpleString(SimpleString::new("OK")));
    assert_eq!(resp_ok().encode(), b"+OK\r\n");
}

#[test]
fn commands_are_told_apart_by_their_names() {
    assert_eq!(
        Command::try_from(command(&["GET", "k"])),
        Ok(Command::Get(Get {
            key: "k".to_string()
        }))
    );
    assert_eq!(
        Command::try_from(command(&["SET", "k", "v"])),
        Ok(Command::SetValue(SetValue {
            key: "k".to_string(),
            value: BulkString::from("v").into()
        }))
    );
    assert_eq!(
        Command::try_from(command(&["HGET", "k", "f"])),
        Ok(Command::HGet(HGet {
            key: "k".to_string(),
            field: "f".to_string()
        }))
    );
    assert_eq!(
        Command::try_from(command(&["HSET", "k", "f", "v"])),
        Ok(Command::HSet(HSet {
            key: "k".to_string(),
            field: "f".to_string(),
            value: BulkString::from("v").into()
        }))
    );
    assert_eq!(
        Command::try_from(command(&["HGETALL", "k"])),
        Ok(Command::HGetAll(HGetAll {
            key: "k".to_string(),
            sort: false
        }))
    );
    for name in ["PING", "get", "GETX", "HGETAL", "", "HSETT"] {
        assert_eq!(
            Command::try_from(command(&[name, "k"])),
            Ok(Command::Unrecognized(Unrecognized)),
            "{}",
            name
        );
    }
}

#[test]
fn set_takes_any_frame_as_value() {
    let frame: RespFrame = RespArray::new(vec![
        BulkString::from("SET").into(),
        BulkString::from("k").into(),
        RespMap::new().into(),
    ])
    .into();
    assert_eq!(
        Command::try_from(frame),
        Ok(Command::SetValue(SetValue {
            key: "k".to_string(),
            value: RespMap::new().into()
        }))
    );
}

fn invalid(msg: &str) -> Result<Command, CommandError> {
    Err(CommandError::InvalidCommand(msg.to_string()))
}

#[test]
fn what_is_no_command_is_refused() {
    assert_eq!(
        Command::try_from(RespFrame::from("GET")),
        invalid("Command must be an array")
    );
    assert_eq!(
        Command::try_from(RespFrame::from(RespArray::default())),
        invalid("Command must be an array")
    );
    assert_eq!(
        Command::try_from(RespFrame::from(RespArray::new(vec![1.into()]))),
        invalid("Command must be an array")
    );
}

#[test]
fn missing_arguments_are_named() {
    assert_eq!(
        Command::try_from(command(&["GET"])),
        invalid("GET command must have a key")
    );
    assert_eq!(
        Command::try_from(command(&["SET"])),
        invalid("SET command must have a key")
    );
    assert_eq!(
        Command::try_from(command(&["SET", "k"])),
        invalid("SET command must have a value")
    );
    assert_eq!(
        Command::try_from(command(&["HGET"])),
        invalid("HGET command must have a key")
    );
    assert_eq!(
        Command::try_from(command(&["HGET", "k"])),
        invalid("HGET command must have a field")
    );
    assert_eq!(
        Command::try_from(command(&["HSET"])),
        invalid("HSET command must have a key")
    );
    assert_eq!(
        Command::try_from(command(&["HSET", "k"])),
        invalid("HSET command must have a field")
    );
    assert_eq!(
        Command::try_from(command(&["HSET", "k", "f"])),
        invalid("HSET command must have a value")
    );
    assert_eq!(
        Command::try_from(command(&["HGETALL"])),
        invalid("HGETALL command must have a key")
    );
    let key_is_a_number: RespFrame =
        RespArray::new(vec![BulkString::from("GET").into(), 1.into()]).into();
    assert_eq!(
        Command::try_from(key_is_a_number),
        invalid("GET command must have a key")
    );
}

#[test]
fn parts_of_a_command_by_their_own_readers() {
    let items = || RespArray::new(vec![
        BulkString::from("HSET").into(),
        BulkString::from("k").into(),
        BulkString::from("f").into(),
        7.into(),
    ]);
    assert_eq!(Get::try_from(items()), Ok(Get { key: "k".to_string() }));
    assert_eq!(
        SetValue::try_from(items()),
        Ok(SetValue {
            key: "k".to_string(),
            value: BulkString::from("f").into()
        })
    );
    assert_eq!(
        HGet::try_from(items()),
        Ok(HGet {
            key: "k".to_string(),
            field: "f".to_string()
        })
    );
    assert_eq!(
        HSet::try_from(items()),
        Ok(HSet {
            key: "k".to_string(),
            field: "f".to_string(),
            value: 7.into()
        })
    );
    assert_eq!(
        HGetAll::try_from(items()),
        Ok(HGetAll {
            key: "k".to_string(),
            sort: false
        })
    );
}

#[test]
fn keys_that_are_no_utf8_get_the_replacement_character() {
    let frame: RespFrame = RespArray::new(vec![
        BulkString::from("GET").into(),
        BulkString::new(vec![107, 255]).into(),
    ])
    .into();
    assert_eq!(
        Command::try_from(frame),
        Ok(Command::Get(Get {
            key: "k\u{fffd}".to_string()
        }))
    );
}

#[test]
fn store_keeps_what_is_put() {
    let mut backend = Backend::new();
    assert_eq!(backend.get("a"), None);
    backend.set("a".to_string(), 1.into());
    backend.set("b".to_string(), 2.into());
    assert_eq!(backend.get("a"), Some(1.into()));
    assert_eq!(backend.get("b"), Some(2.into()));
    backend.set("a".to_string(), RespNull.into());
    assert_eq!(backend.get("a"), Some(RespNull.into()));
    assert_eq!(backend.get("c"), None);
    assert_eq!(backend.hget("a", "f"), None);
    assert_eq!(backend.hgetall("a"), None);
}

#[test]
fn store_keeps_fields_apart() {
    let mut backend = Backend::default();
    assert_eq!(backend.hget("k", "f"), None);
    backend.hset("k".to_string(), "f".to_string(), 1.into());
    backend.hset("k".to_string(), "g".to_string(), 2.into());
    backend.hset("j".to_string(), "f".to_string(), 3.into());
    backend.hset("k".to_string(), "f".to_string(), 4.into());
    assert_eq!(backend.hget("k", "f"), Some(4.into()));
    assert_eq!(backend.hget("k", "g"), Some(2.into()));
    assert_eq!(backend.hget("j", "f"), Some(3.into()));
    assert_eq!(backend.hget("j", "g"), None);
    assert_eq!(backend.hget("i", "f"), None);
    assert_eq!(backend.get("k"), None);
    let mut listed = backend.hgetall("k").unwrap();
    listed.sort_by(|a, b| a.0.cmp(&b.0));
    assert_eq!(
        listed,
        vec![("f".to_string(), 4.into()), ("g".to_string(), 2.into())]
    );
}

#[test]
fn hgetall_lists_every_field_once() {
    let mut backend = Backend::new();
    let fields = ["d", "a", "c", "b", "e", "aa", ""];
    for (i, f) in fields.iter().enumerate() {
        HSet {
            key: "k".to_string(),
            field: f.to_string(),
            value: (i as i64).into(),
        }
        .execute(&mut backend);
    }
    let sorted = HGetAll {
        key: "k".to_string(),
        sort: true,
    }
    .execute(&mut backend);
    assert_eq!(
        sorted.encode(),
        b"*14\r\n$-1\r\n:+6\r\n$1\r\na\r\n:+1\r\n$2\r\naa\r\n:+5\r\n$1\r\nb\r\n:+3\r\n$1\r\nc\r\n:+2\r\n$1\r\nd\r\n:+0\r\n$1\r\ne\r\n:+4\r\n"
    );
    let unsorted = HGetAll {
        key: "k".to_string(),
        sort: false,
    }
    .execute(&mut backend);
    let RespFrame::Array(items) = unsorted else {
        panic!("not an array");
    };
    assert_eq!(items.len(), 14);
    let mut seen = Vec::new();
    for i in 0..7 {
        let RespFrame::BulkString(name) = items.get(2 * i).unwrap() else {
            panic!("not a bulk string");
        };
        let name = name.to_string();
        let at = fields.iter().position(|f| *f == name).unwrap();
        assert_eq!(items.get(2 * i + 1), Some(&RespFrame::Integer(at as i64)));
        assert!(!seen.contains(&name));
        seen.push(name);
    }
    let absent = HGetAll {
        key: "none".to_string(),
        sort: true,
    }
    .execute(&mut backend);
    assert_eq!(absent, RespArray::default().into());
    assert_eq!(absent.encode(), b"*-1\r\n");
}

#[test]
fn unrecognized_changes_nothing() {
    let mut backend = Backend::new();
    backend.set("a".to_string(), 1.into());
    assert_eq!(Unrecognized.execute(&mut backend), resp_ok());
    assert_eq!(
        Command::Unrecognized(Unrecognized).execute(&mut backend),
        resp_ok()
    );
    assert_eq!(backend.get("a"), Some(1.into()));
}
