use workspace_index::lsp::{
    classify_header, frame_header, parse_usize, reply_step, server_command, HeaderLine, ReplyStep,
};

#[test]
fn header_frames_the_body_length() {
    assert_eq!(frame_header(42), b"Content-Length: 42\r\n\r\n".to_vec());
    assert_eq!(frame_header(0), b"Content-Length: 0\r\n\r\n".to_vec());
    assert_eq!(frame_header(1234567), b"Content-Length: 1234567\r\n\r\n".to_vec());
    let max = format!("Content-Length: {}\r\n\r\n", usize::MAX);
    assert_eq!(frame_header(usize::MAX), max.into_bytes());
}

#[test]
fn numbers_parse_like_usize_from_str() {
    for s in ["0", "7", "42", "+42", "007", "18446744073709551615", "", "+", "-1", "4x", " 4", "18446744073709551616", "99999999999999999999999"] {
        assert_eq!(parse_usize(s.as_bytes()), s.parse::<usize>().ok(), "input {:?}", s);
    }
}

#[test]
fn header_lines_are_classified() {
    assert!(matches!(classify_header("\r\n"), HeaderLine::End));
    assert!(matches!(classify_header(""), HeaderLine::End));
    assert!(matches!(classify_header("Content-Length: 128\r\n"), HeaderLine::ContentLength(128)));
    assert!(matches!(classify_header("  Content-Length:7  "), HeaderLine::ContentLength(7)));
    assert!(matches!(classify_header("Content-Length: abc\r\n"), HeaderLine::BadLength));
    assert!(matches!(classify_header("Content-Length:\r\n"), HeaderLine::BadLength));
    assert!(matches!(
        classify_header("Content-Type: application/vscode-jsonrpc\r\n"),
        HeaderLine::Other
    ));
    assert!(matches!(classify_header("content-length: 5"), HeaderLine::Other));
}

#[test]
fn replies_are_matched_by_id() {
    let diag = Some("textDocument/publishDiagnostics");
    assert!(matches!(reply_step(diag, true, false), ReplyStep::Diagnostics));
    assert!(matches!(reply_step(diag, false, false), ReplyStep::Diagnostics));
    assert!(matches!(reply_step(None, true, true), ReplyStep::Reply));
    assert!(matches!(reply_step(None, true, false), ReplyStep::Skip));
    assert!(matches!(reply_step(Some("window/logMessage"), true, false), ReplyStep::Skip));
    assert!(matches!(reply_step(Some("window/logMessage"), false, false), ReplyStep::Reply));
}

#[test]
fn server_is_chosen_by_cargo_manifest() {
    let (cmd, args) = server_command(true);
    assert_eq!(cmd, "rust-analyzer");
    assert!(args.is_empty());
    let (cmd, args) = server_command(false);
    assert_eq!(cmd, "typescript-language-server");
    assert_eq!(args, vec!["--stdio".to_string()]);
}
