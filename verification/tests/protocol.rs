use std::io;

use dls3::protocol::{
    encode_server_message, ClientMessage, MessageReader, ReadMessageError, ReadStep, ServerMessage,
    WriteMessageError,
};

/// Feeds `bytes` to a fresh reader, chunk by chunk as it asks.
fn read_all(bytes: &[u8]) -> Result<Option<ClientMessage>, ReadMessageError> {
    let mut reader = MessageReader::new();
    let mut pos = 0;
    loop {
        let want = reader.wanted();
        if pos + want > bytes.len() {
            return reader.fail(io::Error::new(io::ErrorKind::UnexpectedEof, "eof"));
        }
        let chunk = bytes[pos..pos + want].to_vec();
        pos += want;
        match reader.feed(chunk) {
            ReadStep::Need(n) => assert_eq!(n, reader.wanted()),
            ReadStep::Done(r) => return r,
        }
    }
}

#[test]
fn reads_open_message() {
    let bytes = [3, 0, 0, 0, b'a', b'/', b'b'];
    match read_all(&bytes) {
        Ok(Some(ClientMessage::Open { path })) => assert_eq!(path, "a/b"),
        other => panic!("unexpected {:?}", other),
    }
}

#[test]
fn reads_close_message() {
    let bytes = [4, 0, 1, 0, b'x', b'.', b'g', b'z'];
    match read_all(&bytes) {
        Ok(Some(ClientMessage::Close { path })) => assert_eq!(path, "x.gz"),
        other => panic!("unexpected {:?}", other),
    }
}

#[test]
fn reads_multibyte_path_and_long_length() {
    let path = "é".repeat(200);
    let len = path.len() as u16;
    let mut bytes = vec![(len % 256) as u8, (len / 256) as u8, 0, 0];
    bytes.extend_from_slice(path.as_bytes());
    assert_eq!(len, 400);
    match read_all(&bytes) {
        Ok(Some(ClientMessage::Open { path: p })) => assert_eq!(p, path),
        other => panic!("unexpected {:?}", other),
    }
}

#[test]
fn reads_empty_path() {
    match read_all(&[0, 0, 1, 0]) {
        Ok(Some(ClientMessage::Close { path })) => assert_eq!(path, ""),
        other => panic!("unexpected {:?}", other),
    }
}

#[test]
fn rejects_unknown_tag() {
    let mut reader = MessageReader::new();
    match reader.feed(vec![1, 0, 2, 1]) {
        ReadStep::Done(Err(ReadMessageError::UnknownTag { tag })) => assert_eq!(tag, 258),
        other => panic!("unexpected {:?}", other),
    }
    assert_eq!(reader.wanted(), 4);
}

#[test]
fn rejects_invalid_utf8() {
    match read_all(&[2, 0, 0, 0, 0xff, 0xfe]) {
        Err(ReadMessageError::InvalidString { .. }) => {}
        other => panic!("unexpected {:?}", other),
    }
}

#[test]
fn end_of_stream_is_no_message() {
    assert!(matches!(read_all(&[]), Ok(None)));
    assert!(matches!(read_all(&[5, 0, 0]), Ok(None)));
    assert!(matches!(read_all(&[5, 0, 0, 0, b'a']), Ok(None)));
}

#[test]
fn other_stream_failure_is_an_error() {
    let mut reader = MessageReader::new();
    match reader.fail(io::Error::new(io::ErrorKind::BrokenPipe, "gone")) {
        Err(ReadMessageError::Io { source }) => assert_eq!(source.kind(), io::ErrorKind::BrokenPipe),
        other => panic!("unexpected {:?}", other),
    }
}

#[test]
fn reader_is_reusable_after_a_message() {
    let mut reader = MessageReader::new();
    assert!(matches!(reader.feed(vec![1, 0, 0, 0]), ReadStep::Need(1)));
    assert!(matches!(reader.feed(vec![b'q']), ReadStep::Done(Ok(Some(_)))));
    assert_eq!(reader.wanted(), 4);
    assert!(matches!(reader.feed(vec![0, 0, 1, 0]), ReadStep::Need(0)));
}

#[test]
fn encodes_successful_open() {
    let bytes = encode_server_message(&ServerMessage::Opened { path: "a/b", error: None }).unwrap();
    assert_eq!(bytes, vec![8, 0, 0, 0, 0, 0, 0, 0, 0, b'a', b'/', b'b']);
}

#[test]
fn encodes_failed_open() {
    let bytes = encode_server_message(&ServerMessage::Opened { path: "k", error: Some(2) }).unwrap();
    assert_eq!(bytes, vec![6, 0, 0, 0, 1, 2, 0, 0, 0, b'k']);
    let bytes = encode_server_message(&ServerMessage::Opened { path: "", error: Some(-2) }).unwrap();
    assert_eq!(bytes, vec![5, 0, 0, 0, 1, 0xfe, 0xff, 0xff, 0xff]);
    let bytes = encode_server_message(&ServerMessage::Opened { path: "", error: Some(0x01020304) }).unwrap();
    assert_eq!(bytes, vec![5, 0, 0, 0, 1, 4, 3, 2, 1]);
}

#[test]
fn encodes_multibyte_path_by_its_utf8_length() {
    let bytes = encode_server_message(&ServerMessage::Opened { path: "ü", error: None }).unwrap();
    assert_eq!(bytes, vec![7, 0, 0, 0, 0, 0, 0, 0, 0, 0xc3, 0xbc]);
}

#[test]
fn too_big_message_is_refused() {
    let fits = "a".repeat(65530);
    let bytes = encode_server_message(&ServerMessage::Opened { path: &fits, error: None }).unwrap();
    assert_eq!(bytes.len(), 65539);
    assert_eq!((bytes[0], bytes[1]), (0xff, 0xff));
    let big = "a".repeat(65531);
    assert!(matches!(
        encode_server_message(&ServerMessage::Opened { path: &big, error: None }),
        Err(WriteMessageError::TooBig)
    ));
}

fn auth_message(fields: &[&[u8]], extra: &[u8]) -> Vec<u8> {
    let mut payload = Vec::new();
    for f in fields {
        payload.push((f.len() % 256) as u8);
        payload.push((f.len() / 256) as u8);
        payload.extend_from_slice(f);
    }
    payload.extend_from_slice(extra);
    let mut bytes = vec![(payload.len() % 256) as u8, (payload.len() / 256) as u8, 2, 0];
    bytes.extend_from_slice(&payload);
    bytes
}

#[test]
fn reads_auth_update_with_session_token() {
    match read_all(&auth_message(&[b"AKID", b"s3cr3t", b"tok"], &[])) {
        Ok(Some(ClientMessage::UpdateAuth(auth))) => {
            assert_eq!(auth.access_key_id, "AKID");
            assert_eq!(auth.secret_access_key, "s3cr3t");
            assert_eq!(auth.session_token.as_deref(), Some("tok"));
        }
        other => panic!("unexpected {:?}", other),
    }
}

#[test]
fn reads_auth_update_without_session_token() {
    match read_all(&auth_message(&[b"A", b"S", b""], &[])) {
        Ok(Some(ClientMessage::UpdateAuth(auth))) => {
            assert_eq!(auth.access_key_id, "A");
            assert_eq!(auth.secret_access_key, "S");
            assert_eq!(auth.session_token, None);
        }
        other => panic!("unexpected {:?}", other),
    }
}

#[test]
fn rejects_malformed_auth_update() {
    // trailing byte after the three fields
    assert!(matches!(
        read_all(&auth_message(&[b"A", b"S", b""], &[9])),
        Err(ReadMessageError::MalformedPayload)
    ));
    // only two fields
    assert!(matches!(read_all(&auth_message(&[b"A", b"S"], &[])), Err(ReadMessageError::MalformedPayload)));
    // a length running past the payload
    assert!(matches!(read_all(&[3, 0, 2, 0, 9, 0, b'x']), Err(ReadMessageError::MalformedPayload)));
}

#[test]
fn rejects_auth_update_with_invalid_utf8() {
    assert!(matches!(
        read_all(&auth_message(&[b"A", &[0xc3], b""], &[])),
        Err(ReadMessageError::InvalidString { .. })
    ));
}
