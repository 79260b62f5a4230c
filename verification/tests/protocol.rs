use helios::protocol::{
    content_length_of, header_step, message_header, parse_usize, ErrorCode, HeaderError, HeaderStep,
    ProtocolError, RequestId, Status,
};

#[test]
fn test_header_lines() {
    assert_eq!(header_step(None, "Content-Length: 44\r\n"), Ok(HeaderStep::Continue(Some(44))));
    assert_eq!(header_step(Some(44), "\r\n"), Ok(HeaderStep::End(Some(44))));
    assert_eq!(
        header_step(Some(44), "Content-Type: \"application/vscode-jsonrpc; charset=utf-8\"\r\n"),
        Ok(HeaderStep::End(Some(44)))
    );
    assert_eq!(header_step(None, "abcdef\r\n"), Err(HeaderError::UnrecognizedField("abcdef".to_string())));
    assert_eq!(header_step(None, "Foo: abc\r\n"), Err(HeaderError::UnrecognizedField("Foo".to_string())));
    assert_eq!(header_step(None, "Content-Length: \r\n"), Err(HeaderError::InvalidLength("".to_string())));
    assert_eq!(header_step(None, "Content-Length\r\n"), Err(HeaderError::MissingValue));
    assert_eq!(header_step(None, "{\"jsonrpc\""), Err(HeaderError::Malformed("{\"jsonrpc\"".to_string())));
    assert_eq!(content_length_of(None), Err(HeaderError::MissingLength));
    assert_eq!(content_length_of(Some(3)), Ok(3));
}

#[test]
fn test_parse_usize_like_std() {
    for s in ["0", "+7", "0012", "18446744073709551615", "18446744073709551616", "", "+", "-1", "1 ", "x"] {
        assert_eq!(parse_usize(s), s.parse::<usize>().ok(), "input {:?}", s);
    }
}

#[test]
fn test_message_header() {
    assert_eq!(message_header("{}"), "Content-Length: 2\r\n\r\n");
    assert_eq!(message_header("é"), "Content-Length: 2\r\n\r\n");
}

#[test]
fn test_request_id_and_codes() {
    assert_eq!(RequestId::from(-12).to_display_string(), "-12");
    assert_eq!(RequestId::from(i32::MIN).to_display_string(), "-2147483648");
    assert_eq!(RequestId::from(0).to_display_string(), "0");
    assert_eq!(RequestId::from("a\"b".to_string()).to_display_string(), "\"a\\\"b\"");
    assert_eq!(ErrorCode::MethodNotFound.code(), -32601);
    assert_eq!(ErrorCode::ParseError.code(), -32700);
    assert_eq!(Status::default(), Status::Loading);
    assert_eq!(ProtocolError("broken".to_string()).to_display_string(), "broken");
}

#[test]
fn test_header_read_back() {
    for content in ["", "{}", "{\"jsonrpc\":\"2.0\",\"id\":0,\"method\":\"shutdown\"}", "é🍕"] {
        let header = message_header(content);
        let mut lines = header.split_inclusive("\r\n");
        let first = lines.next().unwrap();
        let second = lines.next().unwrap();
        assert_eq!(lines.next(), None);
        assert_eq!(header_step(None, first), Ok(HeaderStep::Continue(Some(content.len()))));
        assert_eq!(header_step(Some(content.len()), second), Ok(HeaderStep::End(Some(content.len()))));
    }
}
