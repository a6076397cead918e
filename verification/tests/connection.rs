use bytes::BytesMut;
use simple_redis::{
    request_handler, Backend, BulkString, CommandError, RespArray, RespError, RespFrame,
    RespFrameCodec,
};

fn serve(codec: &mut RespFrameCodec, backend: &mut Backend, input: &mut BytesMut) -> BytesMut {
    let mut output = BytesMut::new();
    while let Some(frame) = codec.decode(input).unwrap() {
        let reply = request_handler(frame, backend).unwrap();
        codec.encode(reply, &mut output);
    }
    output
}

#[test]
fn set_then_get() {
    let mut codec = RespFrameCodec;
    let mut backend = Backend::new();
    let mut input = BytesMut::from(&b"*3\r\n$3\r\nSET\r\n$5\r\nhello\r\n$5\r\nworld\r\n"[..]);
    assert_eq!(&serve(&mut codec, &mut backend, &mut input)[..], b"+OK\r\n");
    assert!(input.is_empty());
    input.extend_from_slice(b"*2\r\n$3\r\nGET\r\n$5\r\nhello\r\n");
    assert_eq!(
        &serve(&mut codec, &mut backend, &mut input)[..],
        b"$5\r\nworld\r\n"
    );
}

#[test]
fn get_of_absent_key() {
    let mut codec = RespFrameCodec;
    let mut backend = Backend::new();
    let mut input = BytesMut::from(&b"*2\r\n$3\r\nGET\r\n$5\r\nnnnnn\r\n"[..]);
    assert_eq!(&serve(&mut codec, &mut backend, &mut input)[..], b"_\r\n");
}

#[test]
fn hset_then_hget() {
    let mut codec = RespFrameCodec;
    let mut backend = Backend::new();
    let mut input = BytesMut::new();
    input.extend_from_slice(b"*4\r\n$4\r\nHSET\r\n$3\r\nmap\r\n$5\r\nhello\r\n$5\r\nworld\r\n");
    input.extend_from_slice(b"*4\r\n$4\r\nHSET\r\n$3\r\nmap\r\n$6\r\nhello1\r\n$6\r\nworld1\r\n");
    input.extend_from_slice(b"*3\r\n$4\r\nHGET\r\n$3\r\nmap\r\n$5\r\nhello\r\n");
    input.extend_from_slice(b"*2\r\n$7\r\nHGETALL\r\n$4\r\nnone\r\n");
    assert_eq!(
        &serve(&mut codec, &mut backend, &mut input)[..],
        b"+OK\r\n+OK\r\n$5\r\nworld\r\n*-1\r\n"
    );
}

#[test]
fn frames_back_to_back_are_taken_one_by_one() {
    let mut codec = RespFrameCodec;
    let mut backend = Backend::new();
    let mut input = BytesMut::from(&b"*1\r\n$4\r\nPING\r\n*2\r\n$3\r\nGET\r\n$1\r\nk\r\n"[..]);
    let first = codec.decode(&mut input).unwrap().unwrap();
    assert_eq!(
        first,
        RespArray::new(vec![BulkString::from("PING").into()]).into()
    );
    assert_eq!(&input[..], b"*2\r\n$3\r\nGET\r\n$1\r\nk\r\n");
    let second = codec.decode(&mut input).unwrap().unwrap();
    assert_eq!(
        second,
        RespArray::new(vec![
            BulkString::from("GET").into(),
            BulkString::from("k").into()
        ])
        .into()
    );
    assert!(input.is_empty());
    assert_eq!(codec.decode(&mut input), Ok(None));

    let mut input = BytesMut::from(&b"*1\r\n$4\r\nPING\r\n*2\r\n$3\r\nGET\r\n$1\r\nk\r\n"[..]);
    assert_eq!(
        &serve(&mut codec, &mut backend, &mut input)[..],
        b"+OK\r\n_\r\n"
    );
}

#[test]
fn a_partial_frame_stays_in_the_buffer() {
    let mut codec = RespFrameCodec;
    let mut input = BytesMut::from(&b"$11\r\nbulk strin"[..]);
    assert_eq!(codec.decode(&mut input), Ok(None));
    assert_eq!(&input[..], b"$11\r\nbulk strin");
    input.extend_from_slice(b"g\r\n+more");
    assert_eq!(
        codec.decode(&mut input),
        Ok(Some(BulkString::from("bulk string").into()))
    );
    assert_eq!(&input[..], b"+more");
    assert_eq!(codec.decode(&mut input), Ok(None));
    assert_eq!(&input[..], b"+more");
}

#[test]
fn a_bad_frame_is_handed_on_and_stays() {
    let mut codec = RespFrameCodec;
    let mut input = BytesMut::from(&b"?what\r\n"[..]);
    assert_eq!(
        codec.decode(&mut input),
        Err(RespError::InvalidFrameType(
            "Invalid frame type: 63".to_string()
        ))
    );
    assert_eq!(&input[..], b"?what\r\n");
}

#[test]
fn a_frame_that_is_written_longer_than_it_was_read_is_refused() {
    let mut codec = RespFrameCodec;
    let mut input = BytesMut::from(&b":1\r\n"[..]);
    assert_eq!(
        codec.decode(&mut input),
        Err(RespError::InvalidFrame(
            "Frame is longer than its input".to_string()
        ))
    );
    assert_eq!(&input[..], b":1\r\n");
}

#[test]
fn encode_appends() {
    let mut codec = RespFrameCodec;
    let mut output = BytesMut::from(&b"+a\r\n"[..]);
    codec.encode(RespFrame::from(7), &mut output);
    codec.encode(RespFrame::from(true), &mut output);
    assert_eq!(&output[..], b"+a\r\n:+7\r\n#t\r\n");
}

#[test]
fn a_frame_that_is_no_command_is_an_error() {
    let mut backend = Backend::new();
    assert_eq!(
        request_handler(RespFrame::from(1), &mut backend),
        Err(CommandError::InvalidCommand(
            "Command must be an array".to_string()
        ))
    );
}
