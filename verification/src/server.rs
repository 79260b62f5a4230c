//! The messages of the language server and its decisions: what to do with
//! each message from the client, which handler a method goes to, and how an
//! opened or changed document updates the database.
//!
//! The parameters and results of messages are JSON values, carried through
//! as they are; reading and writing them is left to the caller.

use std::sync::Arc;
use vstd::prelude::*;
use vstd::string::*;

use crate::location::HeliosDatabase;
use crate::protocol::{ErrorCode, RequestId};
use crate::text::str_eq;
use crate::text_sync::{
    apply_changes_spec, apply_content_changes, decode_utf16_spec, encode_utf16_spec, ContentChange,
};

verus! {

#[verifier::external_type_specification]
#[verifier::external_body]
pub struct ExJsonValue(serde_json::Value);

/// Returns the JSON value `null`.
///
/// This is `serde_json::Value::Null`. The value is carried through
/// opaquely, so nothing is stated of it.
#[verifier::external_body]
fn json_null() -> serde_json::Value {
    serde_json::Value::Null
}

/// A request from one side to the other; every request is answered by a
/// response.
#[derive(Debug)]
pub struct Request {
    pub id: RequestId,
    pub method: String,
    pub params: serde_json::Value,
}

impl Request {
    /// Constructs a request with the given identifier, method and
    /// parameters.
    pub fn new(id: RequestId, method: String, params: serde_json::Value) -> (r: Self)
        ensures
            r.id == id,
            r.method@ == method@,
            r.params == params,
    {
        Request { id, method, params }
    }

    /// Constructs a request with the given identifier and method, and
    /// `null` for parameters.
    pub fn new_without_params(id: RequestId, method: String) -> (r: Self)
        ensures
            r.id == id,
            r.method@ == method@,
    {
        Request::new(id, method, json_null())
    }

    /// Checks whether this is the request that starts a session.
    pub fn is_initialize(&self) -> (b: bool)
        ensures
            b == (self.method@ == "initialize"@),
    {
        str_eq(self.method.as_str(), "initialize")
    }

    /// Checks whether this is the request that asks the server to shut
    /// down.
    pub fn is_shutdown(&self) -> (b: bool)
        ensures
            b == (self.method@ == "shutdown"@),
    {
        str_eq(self.method.as_str(), "shutdown")
    }
}

/// The error of a failed request.
#[derive(Debug)]
pub struct ResponseError {
    pub code: i32,
    pub message: String,
    pub data: Option<serde_json::Value>,
}

/// The answer to a request: its result, or the error it failed with.
#[derive(Debug)]
pub struct Response {
    pub id: RequestId,
    pub result: Option<serde_json::Value>,
    pub error: Option<ResponseError>,
}

impl Response {
    /// Constructs the answer to a request that succeeded with the given
    /// result.
    pub fn new_ok(id: RequestId, result: serde_json::Value) -> (r: Self)
        ensures
            r.id == id,
            r.result == Some(result),
            r.error is None,
    {
        Response { id, result: Some(result), error: None }
    }

    /// Constructs the answer to a request that failed with the given code
    /// and message.
    pub fn new_error(id: RequestId, code: ErrorCode, message: String) -> (r: Self)
        ensures
            r.id == id,
            r.result is None,
            r.error matches Some(e) && e.code == code.code_spec() && e.message@ == message@
                && e.data is None,
    {
        let error = ResponseError { code: code.code(), message, data: None };
        Response { id, result: None, error: Some(error) }
    }
}

/// A notification: a message that is not answered.
#[derive(Debug)]
pub struct Notification {
    pub method: String,
    pub params: serde_json::Value,
}

impl Notification {
    /// Constructs a notification with the given method and parameters.
    pub fn new(method: String, params: serde_json::Value) -> (n: Self)
        ensures
            n.method@ == method@,
            n.params == params,
    {
        Notification { method, params }
    }

    /// Checks whether this is the notification that ends the session.
    pub fn is_exit(&self) -> (b: bool)
        ensures
            b == (self.method@ == "exit"@),
    {
        str_eq(self.method.as_str(), "exit")
    }
}

/// A message of the protocol: a request, a response or a notification.
#[derive(Debug)]
pub enum Message {
    Request(Request),
    Response(Response),
    Notification(Notification),
}

impl From<Request> for Message {
    fn from(request: Request) -> (m: Message)
        ensures
            m == Message::Request(request),
    {
        Message::Request(request)
    }
}

impl vstd::std_specs::convert::FromSpecImpl<Request> for Message {
    open spec fn obeys_from_spec() -> bool {
        true
    }

    open spec fn from_spec(request: Request) -> Message {
        Message::Request(request)
    }
}

impl From<Response> for Message {
    fn from(response: Response) -> (m: Message)
        ensures
            m == Message::Response(response),
    {
        Message::Response(response)
    }
}

impl vstd::std_specs::convert::FromSpecImpl<Response> for Message {
    open spec fn obeys_from_spec() -> bool {
        true
    }

    open spec fn from_spec(response: Response) -> Message {
        Message::Response(response)
    }
}

impl From<Notification> for Message {
    fn from(notification: Notification) -> (m: Message)
        ensures
            m == Message::Notification(notification),
    {
        Message::Notification(notification)
    }
}

impl vstd::std_specs::convert::FromSpecImpl<Notification> for Message {
    open spec fn obeys_from_spec() -> bool {
        true
    }

    open spec fn from_spec(notification: Notification) -> Message {
        Message::Notification(notification)
    }
}

/// Whether a message may start a session: it is an `initialize` request.
pub open spec fn starts_session_spec(message: &Message) -> bool {
    message matches Message::Request(r) && r.method@ == "initialize"@
}

/// Checks whether the message may start a session; the first message of a
/// session must.
pub fn starts_session(message: &Message) -> (b: bool)
    ensures
        b == starts_session_spec(message),
{
    match message {
        Message::Request(request) => request.is_initialize(),
        _ => false,
    }
}

/// What the running server does with a message.
#[derive(Clone, Copy, Debug, PartialEq, Eq, Structural)]
pub enum Action {
    /// The session has not started: the message is skipped.
    Wait,
    /// The request goes to its handler.
    HandleRequest,
    /// The session ends.
    Exit,
    /// The notification goes to its handler.
    HandleNotification,
    /// The message is left unhandled.
    Ignore,
}

/// What the running server does with a message, given whether the session
/// has started.
pub open spec fn next_action_spec(did_initialize: bool, message: &Message) -> Action {
    if !did_initialize {
        Action::Wait
    } else {
        match message {
            Message::Request(_) => Action::HandleRequest,
            Message::Notification(n) => if n.method@ == "exit"@ {
                Action::Exit
            } else {
                Action::HandleNotification
            },
            Message::Response(_) => Action::Ignore,
        }
    }
}

/// Returns what the running server does with a message.
pub fn next_action(did_initialize: bool, message: &Message) -> (a: Action)
    ensures
        a == next_action_spec(did_initialize, message),
{
    if !did_initialize {
        return Action::Wait;
    }
    match message {
        Message::Request(_) => Action::HandleRequest,
        Message::Notification(n) => if n.is_exit() {
            Action::Exit
        } else {
            Action::HandleNotification
        },
        Message::Response(_) => Action::Ignore,
    }
}

/// Returns the method of `lsp_types::request::Initialize`.
///
/// This is its `METHOD`, which lsp-types sets to `"initialize"`.
#[verifier::external_body]
fn initialize_method() -> (s: &'static str)
    ensures
        s@ == "initialize"@,
{
    <lsp_types::request::Initialize as lsp_types::request::Request>::METHOD
}

/// Returns the method of `lsp_types::request::Shutdown`.
///
/// This is its `METHOD`, which lsp-types sets to `"shutdown"`.
#[verifier::external_body]
fn shutdown_method() -> (s: &'static str)
    ensures
        s@ == "shutdown"@,
{
    <lsp_types::request::Shutdown as lsp_types::request::Request>::METHOD
}

/// Returns the method of `lsp_types::request::Completion`.
///
/// This is its `METHOD`, which lsp-types sets to
/// `"textDocument/completion"`.
#[verifier::external_body]
fn completion_method() -> (s: &'static str)
    ensures
        s@ == "textDocument/completion"@,
{
    <lsp_types::request::Completion as lsp_types::request::Request>::METHOD
}

/// Returns the method of `lsp_types::request::HoverRequest`.
///
/// This is its `METHOD`, which lsp-types sets to `"textDocument/hover"`.
#[verifier::external_body]
fn hover_method() -> (s: &'static str)
    ensures
        s@ == "textDocument/hover"@,
{
    <lsp_types::request::HoverRequest as lsp_types::request::Request>::METHOD
}

/// Returns the method of `lsp_types::notification::Initialized`.
///
/// This is its `METHOD`, which lsp-types sets to `"initialized"`.
#[verifier::external_body]
fn initialized_method() -> (s: &'static str)
    ensures
        s@ == "initialized"@,
{
    <lsp_types::notification::Initialized as lsp_types::notification::Notification>::METHOD
}

/// Returns the method of `lsp_types::notification::DidOpenTextDocument`.
///
/// This is its `METHOD`, which lsp-types sets to `"textDocument/didOpen"`.
#[verifier::external_body]
fn did_open_method() -> (s: &'static str)
    ensures
        s@ == "textDocument/didOpen"@,
{
    <lsp_types::notification::DidOpenTextDocument as lsp_types::notification::Notification>::METHOD
}

/// Returns the method of `lsp_types::notification::DidChangeTextDocument`.
///
/// This is its `METHOD`, which lsp-types sets to
/// `"textDocument/didChange"`.
#[verifier::external_body]
fn did_change_method() -> (s: &'static str)
    ensures
        s@ == "textDocument/didChange"@,
{
    <lsp_types::notification::DidChangeTextDocument as lsp_types::notification::Notification>::METHOD
}

/// Returns the method of `lsp_types::notification::DidSaveTextDocument`.
///
/// This is its `METHOD`, which lsp-types sets to `"textDocument/didSave"`.
#[verifier::external_body]
fn did_save_method() -> (s: &'static str)
    ensures
        s@ == "textDocument/didSave"@,
{
    <lsp_types::notification::DidSaveTextDocument as lsp_types::notification::Notification>::METHOD
}

/// The handler that a request goes to.
#[derive(Clone, Copy, Debug, PartialEq, Eq, Structural)]
pub enum RequestRoute {
    Initialize,
    Shutdown,
    Completion,
    Hover,
    /// No handler takes the request.
    Unhandled,
}

/// The handler that a request with the given method goes to.
pub open spec fn request_route_spec(method: Seq<char>) -> RequestRoute {
    if method == "initialize"@ {
        RequestRoute::Initialize
    } else if method == "shutdown"@ {
        RequestRoute::Shutdown
    } else if method == "textDocument/completion"@ {
        RequestRoute::Completion
    } else if method == "textDocument/hover"@ {
        RequestRoute::Hover
    } else {
        RequestRoute::Unhandled
    }
}

/// Returns the handler that a request with the given method goes to: the
/// handlers are tried in turn, and the first whose method it is takes it.
pub fn route_request(method: &str) -> (r: RequestRoute)
    ensures
        r == request_route_spec(method@),
{
    if str_eq(method, initialize_method()) {
        RequestRoute::Initialize
    } else if str_eq(method, shutdown_method()) {
        RequestRoute::Shutdown
    } else if str_eq(method, completion_method()) {
        RequestRoute::Completion
    } else if str_eq(method, hover_method()) {
        RequestRoute::Hover
    } else {
        RequestRoute::Unhandled
    }
}

/// The handler that a notification goes to.
#[derive(Clone, Copy, Debug, PartialEq, Eq, Structural)]
pub enum NotificationRoute {
    Initialized,
    DidOpen,
    DidChange,
    DidSave,
    /// No handler takes the notification.
    Unhandled,
}

/// The handler that a notification with the given method goes to.
pub open spec fn notification_route_spec(method: Seq<char>) -> NotificationRoute {
    if method == "initialized"@ {
        NotificationRoute::Initialized
    } else if method == "textDocument/didOpen"@ {
        NotificationRoute::DidOpen
    } else if method == "textDocument/didChange"@ {
        NotificationRoute::DidChange
    } else if method == "textDocument/didSave"@ {
        NotificationRoute::DidSave
    } else {
        NotificationRoute::Unhandled
    }
}

/// Returns the handler that a notification with the given method goes to.
pub fn route_notification(method: &str) -> (r: NotificationRoute)
    ensures
        r == notification_route_spec(method@),
{
    if str_eq(method, initialized_method()) {
        NotificationRoute::Initialized
    } else if str_eq(method, did_open_method()) {
        NotificationRoute::DidOpen
    } else if str_eq(method, did_change_method()) {
        NotificationRoute::DidChange
    } else if str_eq(method, did_save_method()) {
        NotificationRoute::DidSave
    } else {
        NotificationRoute::Unhandled
    }
}

/// The file under which the database keeps the open document.
pub const DOCUMENT_FILE: usize = 0;

/// Keeps the text of a newly opened document as the text of the document
/// file; the other files stay as they were.
pub fn did_open_text_document(db: &mut HeliosDatabase, text: String)
    ensures
        forall|id: usize|
            #[trigger] final(db).source_spec(id) == (if id == DOCUMENT_FILE {
                Some(text@)
            } else {
                old(db).source_spec(id)
            }),
{
    db.set_source(DOCUMENT_FILE, Arc::new(text));
}

/// The text of the document file after the edits, where they all fit.
pub open spec fn changed_text(old_text: Seq<char>, changes: Seq<ContentChange>) -> Option<
    Seq<char>,
> {
    match apply_changes_spec(encode_utf16_spec(old_text), changes, changes.len() as int) {
        Some(u) => Some(decode_utf16_spec(u)),
        None => None,
    }
}

/// Applies the edits of a change to the text of the document file; the
/// other files stay as they were. The document must be open, and every
/// edit must fit the text as the edits before it left it.
pub fn did_change_text_document(db: &mut HeliosDatabase, changes: Vec<ContentChange>)
    requires
        old(db).source_spec(DOCUMENT_FILE) is Some,
        changed_text(old(db).source_spec(DOCUMENT_FILE)->Some_0, changes@) is Some,
    ensures
        forall|id: usize|
            #[trigger] final(db).source_spec(id) == (if id == DOCUMENT_FILE {
                changed_text(old(db).source_spec(DOCUMENT_FILE)->Some_0, changes@)
            } else {
                old(db).source_spec(id)
            }),
{
    let old_source = db.source(DOCUMENT_FILE);
    let new_source = apply_content_changes(old_source.as_str(), changes);
    db.set_source(DOCUMENT_FILE, Arc::new(new_source));
}

} // verus!
