use godot_lsp_bridge::bridge::{handle_client_message, route_godot_message, ClientRoute, RunOutcome};
use godot_lsp_bridge::json::{object, Json};
use godot_lsp_bridge::synthesizer::Synthesizer;

fn obj(fields: Vec<(&str, Json)>) -> Json {
    object(fields.into_iter().map(|(k, v)| (k.to_owned(), v)).collect())
}

fn did(method: &str, uri: &str) -> Json {
    obj(vec![
        ("jsonrpc", Json::string("2.0")),
        ("method", Json::string(method)),
        ("params", obj(vec![("textDocument", obj(vec![("uri", Json::string(uri))]))])),
    ])
}

#[test]
fn open_and_close_are_tracked_and_forwarded() {
    let mut s = Synthesizer::new();
    assert!(matches!(handle_client_message(&mut s, Some(&did("textDocument/didOpen", "file://a.gd"))), ClientRoute::Forward));
    assert!(s.is_open("file://a.gd"));
    assert!(matches!(handle_client_message(&mut s, Some(&did("textDocument/didClose", "file://a.gd"))), ClientRoute::Forward));
    assert!(!s.is_open("file://a.gd"));
}

#[test]
fn unparsed_and_plain_messages_are_forwarded() {
    let mut s = Synthesizer::new();
    assert!(matches!(handle_client_message(&mut s, None), ClientRoute::Forward));
    let hover = obj(vec![("id", Json::integer(3)), ("method", Json::string("textDocument/hover"))]);
    assert!(matches!(handle_client_message(&mut s, Some(&hover)), ClientRoute::Forward));
}

#[test]
fn synthesised_methods_are_intercepted() {
    let mut s = Synthesizer::new();
    let ws = obj(vec![
        ("id", Json::integer(7)),
        ("method", Json::string("workspace/symbol")),
        ("params", obj(vec![("query", Json::string("Foo"))])),
    ]);
    match handle_client_message(&mut s, Some(&ws)) {
        ClientRoute::WorkspaceSymbol { id, query } => {
            assert_eq!(id.as_i64(), Some(7));
            assert_eq!(query, "Foo");
        }
        other => panic!("unexpected route {other:?}"),
    }
    let no_id = obj(vec![("method", Json::string("callHierarchy/outgoingCalls"))]);
    assert!(matches!(handle_client_message(&mut s, Some(&no_id)), ClientRoute::Drop));
    let inc = obj(vec![
        ("id", Json::string("x")),
        ("method", Json::string("callHierarchy/incomingCalls")),
        ("params", obj(vec![("item", obj(vec![("name", Json::string("f"))]))])),
    ]);
    match handle_client_message(&mut s, Some(&inc)) {
        ClientRoute::IncomingCalls { id, item } => {
            assert_eq!(id.as_str(), Some("x"));
            assert_eq!(item.get("name").and_then(|n| n.as_str()), Some("f"));
        }
        other => panic!("unexpected route {other:?}"),
    }
    let prep = obj(vec![("id", Json::integer(1)), ("method", Json::string("textDocument/prepareCallHierarchy"))]);
    match handle_client_message(&mut s, Some(&prep)) {
        ClientRoute::PrepareCallHierarchy { text_document, position, .. } => {
            assert!(text_document.is_null());
            assert!(position.is_null());
        }
        other => panic!("unexpected route {other:?}"),
    }
}

#[test]
fn godot_sub_responses_are_consumed_once() {
    let mut s = Synthesizer::new();
    let (id, mut rx) = s.alloc_sub();
    let resp = obj(vec![("id", Json::string(&id)), ("result", Json::integer(5))]);
    let (tx, value) = route_godot_message(&mut s, Some(&resp)).unwrap();
    assert_eq!(value.as_i64(), Some(5));
    assert!(tx.send(value).is_ok());
    assert_eq!(rx.try_recv().ok().and_then(|v| v.as_i64()), Some(5));
    assert!(route_godot_message(&mut s, Some(&resp)).is_none());
}

#[test]
fn godot_error_response_is_delivered() {
    let mut s = Synthesizer::new();
    let (id, mut rx) = s.alloc_sub();
    let resp = obj(vec![("id", Json::string(&id)), ("error", obj(vec![("code", Json::integer(-1))]))]);
    let (tx, value) = route_godot_message(&mut s, Some(&resp)).unwrap();
    assert!(tx.send(value).is_ok());
    let v = rx.try_recv().unwrap();
    assert_eq!(v.get("code").and_then(|c| c.as_i64()), Some(-1));
}

#[test]
fn other_godot_messages_go_to_client() {
    let mut s = Synthesizer::new();
    assert!(route_godot_message(&mut s, None).is_none());
    let note = obj(vec![("method", Json::string("textDocument/publishDiagnostics"))]);
    assert!(route_godot_message(&mut s, Some(&note)).is_none());
    let numeric = obj(vec![("id", Json::integer(4)), ("result", Json::Null)]);
    assert!(route_godot_message(&mut s, Some(&numeric)).is_none());
    let foreign = obj(vec![("id", Json::string("__synth_99")), ("result", Json::Null)]);
    assert!(route_godot_message(&mut s, Some(&foreign)).is_none());
}

#[test]
fn run_outcomes_compare() {
    assert_eq!(RunOutcome::StdinClosed, RunOutcome::StdinClosed);
    assert_ne!(RunOutcome::StdinClosed, RunOutcome::TcpClosed);
}
