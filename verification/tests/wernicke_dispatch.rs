use bf_tools::wernicke::dispatch::{route, Route, INVALID_REQUEST, METHOD_NOT_FOUND};

#[test]
fn requests_are_routed_by_method() {
    assert_eq!(route("initialize", true), Route::Initialize);
    assert_eq!(route("shutdown", true), Route::Shutdown);
    assert_eq!(route("textDocument/hover", true), Route::Hover);
    assert_eq!(route("textDocument/definition", true), Route::Definition);
    assert_eq!(route("textDocument/completion", true), Route::Completion);
    assert_eq!(route("textDocument/documentSymbol", true), Route::DocumentSymbol);
}

#[test]
fn document_notifications_update_the_workspace() {
    assert_eq!(route("textDocument/didOpen", false), Route::DidOpen);
    assert_eq!(route("textDocument/didChange", false), Route::DidChange);
    assert_eq!(route("textDocument/didSave", false), Route::DidSave);
    assert_eq!(route("textDocument/didClose", false), Route::DidClose);
    assert_eq!(route("initialized", false), Route::Ignore);
    assert_eq!(route("exit", true), Route::Ignore);
}

#[test]
fn unknown_requests_are_refused_and_unknown_notifications_ignored() {
    assert_eq!(route("workspace/symbol", true), Route::Refuse { code: METHOD_NOT_FOUND });
    assert_eq!(route("", true), Route::Refuse { code: INVALID_REQUEST });
    assert_eq!(route("workspace/symbol", false), Route::Ignore);
    assert_eq!(route("textDocument/hover", false), Route::Ignore);
    assert_eq!(route("initialize", false), Route::Ignore);
}
