use helios::location::HeliosDatabase;
use helios::protocol::{ErrorCode, RequestId};
use helios::server::{
    did_change_text_document, did_open_text_document, next_action, route_notification, route_request,
    starts_session, Action, Message, Notification, NotificationRoute, Request, RequestRoute, Response,
    DOCUMENT_FILE,
};
use helios::text_sync::{ChangeRange, ContentChange, Position};
use std::sync::Arc;

#[test]
fn test_request_kinds() {
    let r = Request::new_without_params(RequestId::from(0), "initialize".to_string());
    assert!(r.is_initialize());
    assert!(!r.is_shutdown());
    assert_eq!(r.params, serde_json::Value::Null);
    let r = Request::new(RequestId::from(1), "shutdown".to_string(), serde_json::Value::Bool(true));
    assert!(r.is_shutdown());
    assert!(Notification::new("exit".to_string(), serde_json::Value::Null).is_exit());
    assert!(!Notification::new("exited".to_string(), serde_json::Value::Null).is_exit());
}

#[test]
fn test_responses() {
    let ok = Response::new_ok(RequestId::from(3), serde_json::Value::Null);
    assert_eq!(ok.id, RequestId::from(3));
    assert_eq!(ok.result, Some(serde_json::Value::Null));
    assert!(ok.error.is_none());
    let err = Response::new_error(RequestId::from(4), ErrorCode::MethodNotFound, "no".to_string());
    assert!(err.result.is_none());
    let e = err.error.unwrap();
    assert_eq!(e.code, -32601);
    assert_eq!(e.message, "no");
    assert!(e.data.is_none());
}

#[test]
fn test_session_decisions() {
    let init = Message::from(Request::new_without_params(RequestId::from(0), "initialize".to_string()));
    let other = Message::from(Request::new_without_params(RequestId::from(0), "shutdown".to_string()));
    let exit = Message::from(Notification::new("exit".to_string(), serde_json::Value::Null));
    let opened = Message::from(Notification::new("textDocument/didOpen".to_string(), serde_json::Value::Null));
    let answer = Message::from(Response::new_ok(RequestId::from(0), serde_json::Value::Null));
    assert!(starts_session(&init));
    assert!(!starts_session(&other));
    assert!(!starts_session(&exit));
    assert_eq!(next_action(false, &init), Action::Wait);
    assert_eq!(next_action(true, &other), Action::HandleRequest);
    assert_eq!(next_action(true, &exit), Action::Exit);
    assert_eq!(next_action(true, &opened), Action::HandleNotification);
    assert_eq!(next_action(true, &answer), Action::Ignore);
}

#[test]
fn test_routes() {
    assert_eq!(route_request("initialize"), RequestRoute::Initialize);
    assert_eq!(route_request("shutdown"), RequestRoute::Shutdown);
    assert_eq!(route_request("textDocument/completion"), RequestRoute::Completion);
    assert_eq!(route_request("textDocument/hover"), RequestRoute::Hover);
    assert_eq!(route_request("textDocument/definition"), RequestRoute::Unhandled);
    assert_eq!(route_notification("initialized"), NotificationRoute::Initialized);
    assert_eq!(route_notification("textDocument/didOpen"), NotificationRoute::DidOpen);
    assert_eq!(route_notification("textDocument/didChange"), NotificationRoute::DidChange);
    assert_eq!(route_notification("textDocument/didSave"), NotificationRoute::DidSave);
    assert_eq!(route_notification("exit"), NotificationRoute::Unhandled);
}

#[test]
fn test_document_updates() {
    let mut db = HeliosDatabase::new();
    db.set_source(7, Arc::new("other".to_string()));
    did_open_text_document(&mut db, "let a = 1".to_string());
    assert_eq!(*db.source(DOCUMENT_FILE), "let a = 1");
    let change = |text: &str, (sl, sc): (u32, u32), (el, ec): (u32, u32)| ContentChange {
        range: Some(ChangeRange {
            start: Position { line: sl, character: sc },
            end: Position { line: el, character: ec },
        }),
        text: text.to_string(),
    };
    did_change_text_document(&mut db, vec![change("🍕", (0, 4), (0, 5)), change("\n", (0, 6), (0, 6))]);
    assert_eq!(*db.source(DOCUMENT_FILE), "let 🍕\n = 1");
    did_change_text_document(&mut db, vec![ContentChange { range: None, text: "x".to_string() }]);
    assert_eq!(*db.source(DOCUMENT_FILE), "x");
    assert_eq!(*db.source(7), "other");
}
