use lspdock::frame::{drain_frames, frame_message, parse_frame, FrameError, LspFramedReader};

fn framed(body: &[u8]) -> Vec<u8> {
    let mut out = format!("Content-Length: {}\r\n\r\n", body.len()).into_bytes();
    out.extend_from_slice(body);
    out
}

#[test]
fn test_read() {
    let part1 = "Content-Length: 119\n\n";
    let part2 = "{\"jsonrpc\":\"2.0\",\"method\":\"window/logMessage\",\"params\":{\"type\":3,\"message\":\"Pyright language server 1.1.399 starting\"}}";
    let part3 = "Content-Length: 193\n\n";
    let part4 = "{\"jsonrpc\":\"2.0\",\"method\":\"window/logMessage\",\"params\":{\"type\":3,\"message\":\"Server root directory: file:///Users/richard/.pyenv/versions/3.13.1/lib/python3.13/site-packages/pyright/dist/dist\"}}";
    let lsp_message = format!("{part1}{part2}{part3}{part4}");
    let lsp_message = lsp_message.replace("\n\n", "\r\n\r\n");

    let msg = drain_frames(lsp_message.as_bytes());
    let (msgs, _consumed) = match msg {
        Ok(m) => m,
        Err(_) => panic!("framed stream must parse"),
    };

    assert_eq!(msgs.len(), 2);
    assert_eq!(
        msgs[0],
        b"{\"jsonrpc\":\"2.0\",\"method\":\"window/logMessage\",\"params\":{\"type\":3,\"message\":\"Pyright language server 1.1.399 starting\"}}".to_vec()
    );
    assert_eq!(
        msgs[1],
        b"{\"jsonrpc\":\"2.0\",\"method\":\"window/logMessage\",\"params\":{\"type\":3,\"message\":\"Server root directory: file:///Users/richard/.pyenv/versions/3.13.1/lib/python3.13/site-packages/pyright/dist/dist\"}}".to_vec()
    );
}

#[test]
fn framed_batch_returns_bodies_in_order() {
    let b1 = b"{\"id\":1}".to_vec();
    let b2 = b"{\"id\":2}".to_vec();
    let mut stream = framed(&b1);
    stream.extend_from_slice(&framed(&b2));

    let (msgs, consumed) = drain_frames(&stream).unwrap();
    assert_eq!(msgs, vec![b1.clone(), b2.clone()]);
    assert_eq!(consumed, stream.len());

    // re-framing the bodies reproduces the byte-exact stream
    let mut reframed = frame_message(&msgs[0]);
    reframed.extend_from_slice(&frame_message(&msgs[1]));
    assert_eq!(reframed, stream);
}

#[test]
fn writer_produces_canonical_header() {
    assert_eq!(frame_message(b"hello"), b"Content-Length: 5\r\n\r\nhello".to_vec());
    assert_eq!(frame_message(b""), b"Content-Length: 0\r\n\r\n".to_vec());
}

#[test]
fn header_key_is_case_insensitive() {
    let stream = b"content-LENGTH: 2\r\nContent-Type: application/json\r\n\r\nhi";
    let (body, consumed) = parse_frame(stream).unwrap().unwrap();
    assert_eq!(body, b"hi".to_vec());
    assert_eq!(consumed, stream.len());
}

#[test]
fn header_quirk_ontent_length_is_accepted() {
    let stream = b"ontent-length: 2\r\n\r\nhi";
    let (body, _) = parse_frame(stream).unwrap().unwrap();
    assert_eq!(body, b"hi".to_vec());
}

#[test]
fn partial_frames_ask_for_more() {
    assert!(parse_frame(b"Content-Length: 5\r\n\r\nhel").unwrap().is_none());
    assert!(parse_frame(b"Content-Length: 5\r\n").unwrap().is_none());
    let (msgs, consumed) = drain_frames(b"Content-Length: 5\r\n\r\nhel").unwrap();
    assert!(msgs.is_empty());
    assert_eq!(consumed, 0);
}

#[test]
fn missing_content_length_is_fatal() {
    let r = parse_frame(b"Content-Type: application/json\r\n\r\nhi");
    assert!(matches!(r, Err(FrameError::MissingContentLength)));
}

#[test]
fn malformed_content_length_is_fatal() {
    let r = parse_frame(b"Content-Length: five\r\n\r\nhi");
    assert!(matches!(r, Err(FrameError::BadContentLength)));
    let r = parse_frame(b"Content-Length:\r\n\r\nhi");
    assert!(matches!(r, Err(FrameError::BadContentLength)));
}

#[test]
fn oversized_content_length_is_fatal() {
    let r = parse_frame(b"Content-Length: 16777217\r\n\r\nhi");
    assert!(matches!(r, Err(FrameError::ContentLengthTooLarge)));
    let r = parse_frame(b"Content-Length: 99999999999999999999\r\n\r\nhi");
    assert!(matches!(r, Err(FrameError::ContentLengthTooLarge)));
    let r = parse_frame(b"Content-Length: 16777216\r\n\r\n");
    assert!(r.unwrap().is_none());
}

#[test]
fn oversized_header_block_is_fatal() {
    let mut stream = vec![b'X'; 9000];
    stream.extend_from_slice(b"\r\n\r\n");
    assert!(matches!(parse_frame(&stream), Err(FrameError::HeaderTooLarge)));

    let stream = vec![b'X'; 9000];
    assert!(matches!(parse_frame(&stream), Err(FrameError::HeaderTooLarge)));
}

#[test]
fn non_utf8_header_is_fatal() {
    let stream = b"X: \xff\xfe\r\nContent-Length: 2\r\n\r\nhi";
    assert!(matches!(parse_frame(stream), Err(FrameError::HeaderNotUtf8)));

    // the same header in clean text is fine
    let stream = b"X: ok\r\nContent-Length: 2\r\n\r\nhi";
    let (body, _) = parse_frame(stream).unwrap().unwrap();
    assert_eq!(body, b"hi".to_vec());
}

#[test]
fn error_after_a_complete_frame_poisons_the_batch() {
    let mut stream = framed(b"{\"id\":1}");
    stream.extend_from_slice(b"Content-Length: zz\r\n\r\nhi");
    assert!(matches!(drain_frames(&stream), Err(FrameError::BadContentLength)));
}

#[test]
fn reader_keeps_partial_frames_for_the_next_feed() {
    let b1 = b"{\"id\":1}".to_vec();
    let b2 = b"{\"id\":22}".to_vec();
    let mut stream = framed(&b1);
    stream.extend_from_slice(&framed(&b2));
    let (head, tail) = stream.split_at(stream.len() - 4);

    let mut reader = LspFramedReader::new();
    reader.push_bytes(head);
    let msgs = reader.read_messages().unwrap();
    assert_eq!(msgs, vec![b1.clone()]);

    reader.push_bytes(tail);
    let msgs = reader.read_messages().unwrap();
    assert_eq!(msgs, vec![b2.clone()]);
    assert!(reader.buffer.is_empty());
}
