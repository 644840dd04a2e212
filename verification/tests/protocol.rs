use tessera::protocol::{read_frame, write_frame, FrameError, FrameReader, Request, Response, MAX_FRAME};

#[test]
fn frame_round_trips() {
    let payload = b"hello tessera";
    let mut buf = Vec::new();
    write_frame(&mut buf, payload).unwrap();
    let mut cursor = FrameReader::new(buf);
    let got = read_frame(&mut cursor).unwrap();
    assert_eq!(got, payload);
}

#[test]
fn oversized_frame_is_rejected() {
    // length prefix claims 100 MiB; must error rather than allocate.
    let mut buf = (100u32 * 1024 * 1024).to_be_bytes().to_vec();
    buf.extend_from_slice(b"x");
    let mut cursor = FrameReader::new(buf);
    assert!(read_frame(&mut cursor).is_err());
}

#[test]
fn frame_header_is_big_endian_length() {
    let mut buf = vec![9u8];
    write_frame(&mut buf, &[1, 2, 3]).unwrap();
    assert_eq!(buf, vec![9, 0, 0, 0, 3, 1, 2, 3]);
}

#[test]
fn consecutive_frames_are_read_in_order() {
    let mut buf = Vec::new();
    write_frame(&mut buf, b"first").unwrap();
    write_frame(&mut buf, b"").unwrap();
    write_frame(&mut buf, b"third").unwrap();
    let mut r = FrameReader::new(buf);
    assert_eq!(read_frame(&mut r).unwrap(), b"first");
    assert_eq!(read_frame(&mut r).unwrap(), b"");
    assert_eq!(read_frame(&mut r).unwrap(), b"third");
    assert_eq!(read_frame(&mut r), Err(FrameError::UnexpectedEof));
}

#[test]
fn frame_at_the_limit_is_accepted_and_one_past_is_not() {
    let payload = vec![7u8; MAX_FRAME];
    let mut buf = Vec::new();
    write_frame(&mut buf, &payload).unwrap();
    let mut r = FrameReader::new(buf);
    assert_eq!(read_frame(&mut r).unwrap().len(), MAX_FRAME);

    let mut buf = ((MAX_FRAME + 1) as u32).to_be_bytes().to_vec();
    buf.extend_from_slice(&vec![0u8; MAX_FRAME + 1]);
    let mut r = FrameReader::new(buf);
    assert_eq!(read_frame(&mut r), Err(FrameError::FrameTooLarge));
    assert_eq!(r.consumed(), 4);
}

#[test]
fn truncated_frames_are_unexpected_eof() {
    let mut r = FrameReader::new(vec![0, 0, 0]);
    assert_eq!(read_frame(&mut r), Err(FrameError::UnexpectedEof));
    assert_eq!(r.consumed(), 0);
    let mut r = FrameReader::new(vec![0, 0, 0, 5, 1, 2]);
    assert_eq!(read_frame(&mut r), Err(FrameError::UnexpectedEof));
    assert_eq!(r.consumed(), 4);
}

#[test]
fn frame_len_checks_the_limit() {
    assert_eq!(tessera::protocol::frame_len(&[0, 0x10, 0, 0]), Ok(MAX_FRAME));
    assert_eq!(tessera::protocol::frame_len(&[0, 0x10, 0, 1]), Err(FrameError::FrameTooLarge));
}

#[test]
fn request_debug_redacts_secrets() {
    let req = Request::LoginStart {
        request_b64: "REQUESTBLOB".into(),
        password_file_b64: Some("SECRETRECORD".into()),
        credential_id: "creds-123".into(),
    };
    let s = req.debug_string();
    assert_eq!(
        s,
        "LoginStart { credential_id: \"creds-123\", password_file_b64: Some(\"<redacted>\"), .. }"
    );
    assert!(!s.contains("SECRETRECORD"));
    assert!(!s.contains("REQUESTBLOB"));
    let req = Request::LoginStart {
        request_b64: "x".into(),
        password_file_b64: None,
        credential_id: "c".into(),
    };
    assert_eq!(
        req.debug_string(),
        "LoginStart { credential_id: \"c\", password_file_b64: None, .. }"
    );
    let req = Request::RegisterFinish { upload_b64: "UPLOAD".into() };
    assert_eq!(req.debug_string(), "RegisterFinish { .. }");
    let req = Request::RegisterStart { request_b64: "R".into(), credential_id: "a\"b".into() };
    assert_eq!(req.debug_string(), "RegisterStart { credential_id: \"a\\\"b\", .. }");
    let req = Request::LoginFinish { login_id: "id-1".into(), finalization_b64: "F".into() };
    assert_eq!(req.debug_string(), "LoginFinish { login_id: \"id-1\", .. }");
}

#[test]
fn response_debug_redacts_secrets() {
    let r = Response::LoginFinish { session_key_b64: "SESSIONKEY".into() };
    assert_eq!(r.debug_string(), "LoginFinish { session_key_b64: \"<redacted>\", .. }");
    let r = Response::RegisterFinish { password_file_b64: "RECORD".into() };
    assert_eq!(r.debug_string(), "RegisterFinish { password_file_b64: \"<redacted>\", .. }");
    let r = Response::RegisterStart { response_b64: "RESP".into() };
    assert_eq!(r.debug_string(), "RegisterStart { .. }");
    let r = Response::LoginStart { login_id: "L".into(), response_b64: "RESP".into() };
    assert_eq!(r.debug_string(), "LoginStart { login_id: \"L\", .. }");
    let r = Response::Error { code: "bad_request".into(), message: "boom".into() };
    assert_eq!(r.debug_string(), "Error { code: \"bad_request\", message: \"boom\" }");
}
