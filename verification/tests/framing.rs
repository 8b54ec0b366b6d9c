use godot_lsp_bridge::framing::{decode_frame, encode_frame, frame_header, FrameError, MAX_MESSAGE_SIZE};

/// Build a raw LSP frame from a body slice.
fn make_frame(body: &[u8]) -> Vec<u8> {
    let mut frame = format!("Content-Length: {}\r\n\r\n", body.len()).into_bytes();
    frame.extend_from_slice(body);
    frame
}

/// Reads one message from `data` at `pos`, as a buffered reader would: the body and
/// the new position, `None` at a clean end.
fn read_at(data: &[u8], pos: usize) -> Result<Option<(Vec<u8>, usize)>, FrameError> {
    match decode_frame(&data[pos..])? {
        Some((body, used)) => Ok(Some((body, pos + used))),
        None => Ok(None),
    }
}

#[test]
fn round_trip_simple() {
    let body = br#"{"jsonrpc":"2.0","id":1,"method":"initialize"}"#;
    let frame = make_frame(body);
    let (got, used) = decode_frame(&frame).unwrap().unwrap();
    assert_eq!(got, body);
    assert_eq!(used, frame.len());
}

#[test]
fn clean_eof_returns_none() {
    let result = decode_frame(b"").unwrap();
    assert!(result.is_none());
}

#[test]
fn two_messages_then_eof() {
    let body1 = br#"{"id":1}"#;
    let body2 = br#"{"id":2}"#;
    let mut data = make_frame(body1);
    data.extend(make_frame(body2));

    let (m1, p1) = read_at(&data, 0).unwrap().unwrap();
    let (m2, p2) = read_at(&data, p1).unwrap().unwrap();
    let eof = read_at(&data, p2).unwrap();

    assert_eq!(m1, body1);
    assert_eq!(m2, body2);
    assert!(eof.is_none());
}

#[test]
fn oversized_message_rejected() {
    let big_len = MAX_MESSAGE_SIZE + 1;
    let header = format!("Content-Length: {big_len}\r\n\r\n");
    let err = decode_frame(header.as_bytes()).unwrap_err();
    assert!(err.message().contains("exceeds maximum"));
    assert_eq!(err, FrameError::TooLarge(big_len));
}

#[test]
fn missing_content_length_rejected() {
    let data = b"Content-Type: application/vscode-jsonrpc; charset=utf-8\r\n\r\n{}";
    let err = decode_frame(data).unwrap_err();
    assert!(err.message().contains("Content-Length"));
    assert_eq!(err, FrameError::MissingLength);
}

#[test]
fn write_then_read_round_trip() {
    let body = br#"{"jsonrpc":"2.0","method":"textDocument/didOpen"}"#;
    let buf = encode_frame(body);
    let (got, _) = decode_frame(&buf).unwrap().unwrap();
    assert_eq!(got, body);
}

#[test]
fn extra_headers_ignored() {
    let body = br#"{"id":99}"#;
    let mut frame = format!(
        "Content-Length: {}\r\nContent-Type: application/vscode-jsonrpc; charset=utf-8\r\n\r\n",
        body.len()
    )
    .into_bytes();
    frame.extend_from_slice(body);
    let (got, _) = decode_frame(&frame).unwrap().unwrap();
    assert_eq!(got, body);
}

#[test]
fn zero_length_body() {
    let body = b"";
    let frame = make_frame(body);
    let (got, used) = decode_frame(&frame).unwrap().unwrap();
    assert_eq!(got, body);
    assert_eq!(used, frame.len());
}

#[test]
fn frame_header_exact_bytes() {
    assert_eq!(frame_header(0), b"Content-Length: 0\r\n\r\n".to_vec());
    assert_eq!(frame_header(1234), b"Content-Length: 1234\r\n\r\n".to_vec());
}

#[test]
fn encode_frame_exact_bytes() {
    assert_eq!(encode_frame(b"{}"), b"Content-Length: 2\r\n\r\n{}".to_vec());
}

#[test]
fn decode_encode_with_trailing_bytes() {
    let body = br#"{"id":7}"#;
    let mut data = encode_frame(body);
    let frame_len = data.len();
    data.extend_from_slice(b"Content-Length: 3\r\n");
    let (got, used) = decode_frame(&data).unwrap().unwrap();
    assert_eq!(got, body);
    assert_eq!(used, frame_len);
}

#[test]
fn headers_cut_short_is_an_error() {
    let err = decode_frame(b"Content-Length: 5\r\n").unwrap_err();
    assert_eq!(err, FrameError::HeadersEof);
    assert_eq!(err.message(), "unexpected EOF while reading LSP headers");
}

#[test]
fn body_cut_short_is_an_error() {
    let err = decode_frame(b"Content-Length: 5\r\n\r\nab").unwrap_err();
    assert_eq!(err, FrameError::BodyTruncated);
}

#[test]
fn invalid_length_is_an_error() {
    let err = decode_frame(b"Content-Length: twelve\r\n\r\n").unwrap_err();
    assert_eq!(err, FrameError::InvalidLength);
    assert_eq!(err.message(), "invalid Content-Length value");
}

#[test]
fn non_utf8_header_is_an_error() {
    let err = decode_frame(b"Content-Length: 1\xff\r\n\r\nx").unwrap_err();
    assert_eq!(err, FrameError::HeaderNotUtf8);
}

#[test]
fn bare_newlines_and_spaces_accepted() {
    let (got, _) = decode_frame(b"Content-Length:   3  \n\nabc").unwrap().unwrap();
    assert_eq!(got, b"abc");
}

#[test]
fn last_content_length_wins() {
    let (got, _) = decode_frame(b"Content-Length: 9\r\nContent-Length: 2\r\n\r\nokrest").unwrap().unwrap();
    assert_eq!(got, b"ok");
}

#[test]
fn too_large_message_text() {
    let e = FrameError::TooLarge(67108865);
    assert_eq!(e.message(), "Content-Length 67108865 exceeds maximum allowed size 67108864");
}
