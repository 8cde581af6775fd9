//! What the server does with each message of the editor protocol, decided
//! from its method name and whether it carries an id.

use vstd::prelude::*;
use crate::bytes::str_eq;

verus! {

/// JSON-RPC's code for a message that is not a valid request.
pub const INVALID_REQUEST: i64 = -32600;

/// JSON-RPC's code for a method the server does not know.
pub const METHOD_NOT_FOUND: i64 = -32601;

/// The server's answer to one message.
#[derive(Debug, Clone, Copy, PartialEq, Eq, Structural)]
pub enum Route {
    /// Reply with the server's capabilities.
    Initialize,
    /// Remember that the editor is closing and reply with `null`.
    Shutdown,
    /// Do nothing and send nothing.
    Ignore,
    /// Take the opened document's text and publish its diagnostics.
    DidOpen,
    /// Take the changed document's text and publish its diagnostics.
    DidChange,
    /// Publish the saved document's diagnostics.
    DidSave,
    /// Forget the closed document's text.
    DidClose,
    /// Reply with the document's symbols.
    DocumentSymbol,
    /// Reply with what the cursor rests on.
    Hover,
    /// Reply with where the name under the cursor is defined.
    Definition,
    /// Reply with the names in scope.
    Completion,
    /// Reply with an error carrying `code`.
    Refuse { code: i64 },
}

/// The route for a message with method `method`, which is a request when it
/// carries an id. Notifications are never answered; a request the server
/// does not serve is refused, as an invalid request when it names no method.
pub open spec fn route_of(method: Seq<char>, request: bool) -> Route {
    if method == "initialize"@ && request {
        Route::Initialize
    } else if method == "shutdown"@ && request {
        Route::Shutdown
    } else if method == "initialized"@ || method == "exit"@ {
        Route::Ignore
    } else if method == "textDocument/didOpen"@ {
        Route::DidOpen
    } else if method == "textDocument/didChange"@ {
        Route::DidChange
    } else if method == "textDocument/didSave"@ {
        Route::DidSave
    } else if method == "textDocument/didClose"@ {
        Route::DidClose
    } else if method == "textDocument/documentSymbol"@ && request {
        Route::DocumentSymbol
    } else if method == "textDocument/hover"@ && request {
        Route::Hover
    } else if method == "textDocument/definition"@ && request {
        Route::Definition
    } else if method == "textDocument/completion"@ && request {
        Route::Completion
    } else if request {
        Route::Refuse { code: if method.len() == 0 { INVALID_REQUEST } else { METHOD_NOT_FOUND } }
    } else {
        Route::Ignore
    }
}

/// Decide what to do with a message.
pub fn route(method: &str, request: bool) -> (r: Route)
    ensures
        r == route_of(method@, request),
{
    proof {
        reveal_strlit("");
        assert(""@.len() == 0);
        if method@.len() == 0 {
            assert(method@ =~= ""@);
        }
    }
    if str_eq(method, "initialize") && request {
        Route::Initialize
    } else if str_eq(method, "shutdown") && request {
        Route::Shutdown
    } else if str_eq(method, "initialized") || str_eq(method, "exit") {
        Route::Ignore
    } else if str_eq(method, "textDocument/didOpen") {
        Route::DidOpen
    } else if str_eq(method, "textDocument/didChange") {
        Route::DidChange
    } else if str_eq(method, "textDocument/didSave") {
        Route::DidSave
    } else if str_eq(method, "textDocument/didClose") {
        Route::DidClose
    } else if str_eq(method, "textDocument/documentSymbol") && request {
        Route::DocumentSymbol
    } else if str_eq(method, "textDocument/hover") && request {
        Route::Hover
    } else if str_eq(method, "textDocument/definition") && request {
        Route::Definition
    } else if str_eq(method, "textDocument/completion") && request {
        Route::Completion
    } else if request {
        Route::Refuse { code: if str_eq(method, "") { INVALID_REQUEST } else { METHOD_NOT_FOUND } }
    } else {
        Route::Ignore
    }
}

/// A notification, a message without an id, is never answered with a reply
/// of its own: it is ignored or changes what the server knows.
pub proof fn lemma_notifications_get_no_reply(method: Seq<char>)
    ensures
        !(route_of(method, false) is Initialize || route_of(method, false) is Shutdown || route_of(
            method,
            false,
        ) is DocumentSymbol || route_of(method, false) is Hover || route_of(method, false) is Definition
            || route_of(method, false) is Completion || route_of(method, false) is Refuse),
{
}

} // verus!
