use dolphin::lsp::{
    change_applies, column_offset, exit_failure, identifier_at, new_session, route, utf16_column, Handler, Route,
    TokenSpan,
};

fn error(code: i64, message: &str) -> Route {
    Route::Error { code, message: message.to_string() }
}

#[test]
fn requests_before_initialize_are_refused() {
    let mut s = new_session();
    assert_eq!(route(&mut s, "textDocument/hover", true), error(-32002, "Server not initialized"));
    assert_eq!(route(&mut s, "textDocument/didOpen", false), Route::Ignore);
    assert_eq!(route(&mut s, "initialize", true), Route::Capabilities);
    assert!(s.initialized);
    assert_eq!(route(&mut s, "initialized", false), Route::Ignore);
    assert_eq!(route(&mut s, "textDocument/hover", true), Route::Handle(Handler::Hover));
    assert_eq!(route(&mut s, "textDocument/didChange", false), Route::Handle(Handler::DidChange));
    assert_eq!(route(&mut s, "workspace/unknown", true), error(-32601, "Method not found"));
    assert_eq!(route(&mut s, "$/cancelRequest", false), Route::Ignore);
}

#[test]
fn shutdown_then_exit_succeeds_and_exit_alone_fails() {
    let mut s = new_session();
    route(&mut s, "initialize", true);
    assert_eq!(route(&mut s, "shutdown", true), Route::NullResult);
    assert_eq!(route(&mut s, "textDocument/hover", true), error(-32600, "Invalid Request"));
    assert_eq!(route(&mut s, "exit", false), Route::Ignore);
    assert!(!exit_failure(&s));

    let mut t = new_session();
    route(&mut t, "initialize", true);
    route(&mut t, "exit", false);
    assert!(exit_failure(&t));
}

#[test]
fn only_newer_versions_change_a_document() {
    assert!(change_applies(3, 4));
    assert!(!change_applies(4, 4));
    assert!(!change_applies(5, 4));
}

#[test]
fn columns_count_utf16_code_units() {
    assert_eq!(utf16_column("let x"), 5);
    assert_eq!(utf16_column("é😀"), 3);
    // Byte offset of a column: `é` takes 2 bytes, `😀` 4 bytes and 2 units.
    assert_eq!(column_offset("é😀x", 10, 0), 10);
    assert_eq!(column_offset("é😀x", 10, 1), 12);
    assert_eq!(column_offset("é😀x", 10, 3), 16);
    assert_eq!(column_offset("é😀x", 10, 2), 16);
    assert_eq!(column_offset("é😀x", 10, 99), 17);
}

#[test]
fn the_identifier_under_the_cursor_is_found() {
    let tokens = vec![
        TokenSpan { identifier: Some("let".to_string()), start: 0, end: 3 },
        TokenSpan { identifier: None, start: 4, end: 5 },
        TokenSpan { identifier: Some("value".to_string()), start: 6, end: 11 },
    ];
    assert_eq!(identifier_at(&tokens, 7), Some(("value".to_string(), 6, 11)));
    assert_eq!(identifier_at(&tokens, 11), Some(("value".to_string(), 6, 11)));
    assert_eq!(identifier_at(&tokens, 3), Some(("let".to_string(), 0, 3)));
    assert_eq!(identifier_at(&tokens, 4), None);
    assert_eq!(identifier_at(&tokens, 0), Some(("let".to_string(), 0, 3)));
}
