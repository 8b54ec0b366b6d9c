use godot_lsp_bridge::json::{array, object, Json};
use godot_lsp_bridge::lsp::{in_range, make_error, make_notification, make_request, make_response, position};
use godot_lsp_bridge::synthesizer::{
    document_symbol_params, find_symbol_at, flatten_doc_symbols, incoming_calls_result, outgoing_calls_result,
    prepare_call_hierarchy_result, references_params, workspace_symbols_result, Synthesizer,
};

fn obj(fields: Vec<(&str, Json)>) -> Json {
    object(fields.into_iter().map(|(k, v)| (k.to_owned(), v)).collect())
}

fn s(x: &str) -> Json {
    Json::string(x)
}

fn n(i: i64) -> Json {
    Json::integer(i)
}

fn pos(line: i64, character: i64) -> Json {
    position(line, character)
}

fn range(sl: i64, sc: i64, el: i64, ec: i64) -> Json {
    obj(vec![("start", pos(sl, sc)), ("end", pos(el, ec))])
}

fn at<'a>(v: &'a Json, keys: &[&str]) -> Option<&'a Json> {
    let mut cur = v;
    for k in keys {
        cur = cur.get(k)?;
    }
    Some(cur)
}

fn str_at<'a>(v: &'a Json, keys: &[&str]) -> Option<&'a str> {
    at(v, keys).and_then(|x| x.as_str())
}

fn int_at(v: &Json, keys: &[&str]) -> Option<i64> {
    at(v, keys).and_then(|x| x.as_i64())
}

// ── in_range ─────────────────────────────────────────────────────────────────

#[test]
fn in_range_start_boundary() {
    assert!(in_range(&pos(1, 0), &range(1, 0, 3, 10)));
}

#[test]
fn in_range_end_boundary() {
    assert!(in_range(&pos(3, 10), &range(1, 0, 3, 10)));
}

#[test]
fn in_range_middle() {
    assert!(in_range(&pos(2, 5), &range(1, 0, 3, 10)));
}

#[test]
fn in_range_before_start_line() {
    assert!(!in_range(&pos(0, 0), &range(1, 0, 3, 10)));
}

#[test]
fn in_range_after_end_line() {
    assert!(!in_range(&pos(4, 0), &range(1, 0, 3, 10)));
}

#[test]
fn in_range_same_line_before_start_char() {
    assert!(!in_range(&pos(1, 0), &range(1, 5, 1, 20)));
}

#[test]
fn in_range_same_line_after_end_char() {
    assert!(!in_range(&pos(1, 21), &range(1, 5, 1, 20)));
}

#[test]
fn in_range_missing_fields_read_as_zero() {
    assert!(in_range(&Json::Null, &range(0, 0, 1, 0)));
    assert!(!in_range(&pos(0, 1), &Json::Null));
}

// ── flatten_doc_symbols ──────────────────────────────────────────────────────

#[test]
fn flatten_single_symbol() {
    let sym = vec![obj(vec![
        ("name", s("foo")),
        ("kind", n(12)),
        ("range", range(0, 0, 5, 0)),
        ("selectionRange", range(0, 4, 0, 7)),
    ])];
    let flat = flatten_doc_symbols(&sym, "file://a.gd", None);
    assert_eq!(flat.len(), 1);
    assert_eq!(str_at(&flat[0], &["name"]), Some("foo"));
    assert_eq!(str_at(&flat[0], &["location", "uri"]), Some("file://a.gd"));
    assert_eq!(int_at(&flat[0], &["location", "range", "start", "character"]), Some(4));
    assert_eq!(int_at(&flat[0], &["kind"]), Some(12));
    assert!(at(&flat[0], &["containerName"]).is_none());
}

#[test]
fn flatten_nested_symbols() {
    let sym = vec![obj(vec![
        ("name", s("MyClass")),
        ("kind", n(5)),
        ("range", range(0, 0, 20, 0)),
        ("selectionRange", range(0, 6, 0, 13)),
        (
            "children",
            array(vec![obj(vec![
                ("name", s("my_func")),
                ("kind", n(12)),
                ("range", range(2, 0, 5, 0)),
                ("selectionRange", range(2, 4, 2, 11)),
            ])]),
        ),
    ])];
    let flat = flatten_doc_symbols(&sym, "file://b.gd", None);
    assert_eq!(flat.len(), 2);
    assert_eq!(str_at(&flat[0], &["name"]), Some("MyClass"));
    assert_eq!(str_at(&flat[1], &["name"]), Some("my_func"));
    assert_eq!(str_at(&flat[1], &["containerName"]), Some("MyClass"));
}

#[test]
fn flatten_defaults_for_missing_fields() {
    let sym = vec![obj(vec![("range", range(1, 0, 2, 0))])];
    let flat = flatten_doc_symbols(&sym, "file://c.gd", Some("Outer"));
    assert_eq!(flat.len(), 1);
    assert_eq!(str_at(&flat[0], &["name"]), Some("?"));
    assert!(at(&flat[0], &["kind"]).map(|k| k.is_null()).unwrap_or(false));
    assert_eq!(int_at(&flat[0], &["location", "range", "start", "line"]), Some(1));
    assert_eq!(str_at(&flat[0], &["containerName"]), Some("Outer"));
}

// ── find_symbol_at ───────────────────────────────────────────────────────────

#[test]
fn find_symbol_at_outer() {
    let syms = vec![obj(vec![("name", s("MyClass")), ("kind", n(5)), ("range", range(0, 0, 20, 0))])];
    let found = find_symbol_at(&syms, &pos(10, 0));
    assert!(found.is_some());
    assert_eq!(str_at(found.unwrap(), &["name"]), Some("MyClass"));
}

#[test]
fn find_symbol_at_inner_child_preferred() {
    let syms = vec![obj(vec![
        ("name", s("MyClass")),
        ("kind", n(5)),
        ("range", range(0, 0, 20, 0)),
        (
            "children",
            array(vec![obj(vec![("name", s("inner_func")), ("kind", n(12)), ("range", range(5, 0, 8, 0))])]),
        ),
    ])];
    let found = find_symbol_at(&syms, &pos(6, 0));
    assert!(found.is_some());
    assert_eq!(str_at(found.unwrap(), &["name"]), Some("inner_func"));
}

#[test]
fn find_symbol_at_no_match() {
    let syms = vec![obj(vec![("name", s("MyClass")), ("kind", n(5)), ("range", range(0, 0, 5, 0))])];
    let found = find_symbol_at(&syms, &pos(10, 0));
    assert!(found.is_none());
}

// ── Synthesizer state ────────────────────────────────────────────────────────

#[test]
fn synthesizer_open_close() {
    let mut s = Synthesizer::new();
    s.on_did_open("file://a.gd".to_owned());
    s.on_did_open("file://b.gd".to_owned());
    assert_eq!(s.open_files().len(), 2);
    s.on_did_close("file://a.gd");
    assert_eq!(s.open_files().len(), 1);
    assert!(s.open_files().contains(&"file://b.gd".to_owned()));
}

#[test]
fn synthesizer_alloc_and_complete() {
    let mut s = Synthesizer::new();
    let (id, mut rx) = s.alloc_sub();
    assert!(id.starts_with("__synth_"));

    // try_complete with matching id hands back the sender with the value.
    let done = s.try_complete(&id, obj(vec![("result", n(42))]));
    assert!(done.is_some());
    let (tx, value) = done.unwrap();
    assert!(tx.send(value).is_ok());

    // Receiver should now have the value.
    let v = rx.try_recv().expect("value should be delivered");
    assert_eq!(int_at(&v, &["result"]), Some(42));
}

#[test]
fn synthesizer_try_complete_unknown_id_returns_false() {
    let mut s = Synthesizer::new();
    assert!(s.try_complete("__synth_999", Json::Null).is_none());
}

#[test]
fn synthesizer_ids_are_unique_and_completed_once() {
    let mut s = Synthesizer::new();
    let (a, _ra) = s.alloc_sub();
    let (b, _rb) = s.alloc_sub();
    assert_eq!(a, "__synth_0");
    assert_eq!(b, "__synth_1");
    assert_ne!(a, b);
    assert!(s.try_complete(&b, Json::Null).is_some());
    assert!(s.try_complete(&b, Json::Null).is_none());
    assert!(s.try_complete(&a, Json::Null).is_some());
    assert_eq!(s.next_id(), 2);
}

#[test]
fn synthesizer_reopen_is_tracked_once() {
    let mut s = Synthesizer::new();
    s.on_did_open("file://a.gd".to_owned());
    s.on_did_open("file://a.gd".to_owned());
    assert_eq!(s.open_files().len(), 1);
    s.on_did_close("file://a.gd");
    assert!(!s.is_open("file://a.gd"));
    s.on_did_close("file://never.gd");
    assert_eq!(s.open_files().len(), 0);
}

#[test]
fn workspace_subrequests_one_per_open_file() {
    let mut s = Synthesizer::new();
    s.on_did_open("file://a.gd".to_owned());
    s.on_did_open("file://b.gd".to_owned());
    let subs = s.workspace_subrequests();
    assert_eq!(subs.len(), 2);
    assert_eq!(subs[0].0, "file://a.gd");
    assert_eq!(subs[0].1, "__synth_0");
    assert_eq!(subs[1].0, "file://b.gd");
    assert_eq!(subs[1].1, "__synth_1");
}

// ── JSON-RPC helpers ─────────────────────────────────────────────────────────

#[test]
fn make_request_round_trip() {
    let v = make_request(
        "__synth_0",
        "textDocument/documentSymbol",
        obj(vec![("textDocument", obj(vec![("uri", s("file://x.gd"))]))]),
    );
    assert_eq!(str_at(&v, &["jsonrpc"]), Some("2.0"));
    assert_eq!(str_at(&v, &["id"]), Some("__synth_0"));
    assert_eq!(str_at(&v, &["method"]), Some("textDocument/documentSymbol"));
    assert_eq!(str_at(&v, &["params", "textDocument", "uri"]), Some("file://x.gd"));
}

#[test]
fn make_response_round_trip() {
    let v = make_response(&n(1), array(vec![obj(vec![("name", s("foo"))])]));
    assert_eq!(int_at(&v, &["id"]), Some(1));
    assert!(at(&v, &["result"]).and_then(|r| r.as_array()).is_some());
}

#[test]
fn make_error_round_trip() {
    let v = make_error(&n(2), -32601, "Method not found");
    assert_eq!(int_at(&v, &["error", "code"]), Some(-32601));
    assert_eq!(str_at(&v, &["error", "message"]), Some("Method not found"));
}

#[test]
fn make_notification_has_no_id() {
    let v = make_notification("window/logMessage", Json::Null);
    assert_eq!(str_at(&v, &["method"]), Some("window/logMessage"));
    assert!(at(&v, &["id"]).is_none());
}

// ── Synthesised answers ──────────────────────────────────────────────────────

fn symbols_of_b() -> Json {
    array(vec![obj(vec![
        ("name", s("MyClass")),
        ("kind", n(5)),
        ("range", range(0, 0, 20, 0)),
        ("selectionRange", range(0, 6, 0, 13)),
        (
            "children",
            array(vec![obj(vec![
                ("name", s("my_func")),
                ("kind", n(12)),
                ("range", range(2, 0, 5, 0)),
                ("selectionRange", range(2, 4, 2, 11)),
            ])]),
        ),
    ])])
}

#[test]
fn document_symbol_params_shape() {
    let p = document_symbol_params("file://x.gd");
    assert_eq!(str_at(&p, &["textDocument", "uri"]), Some("file://x.gd"));
}

#[test]
fn workspace_symbols_filter_by_query() {
    let responses = vec![
        ("file://b.gd".to_owned(), Some(symbols_of_b())),
        ("file://c.gd".to_owned(), None),
        ("file://d.gd".to_owned(), Some(Json::Null)),
    ];
    let all = workspace_symbols_result("", &responses);
    assert_eq!(all.as_array().map(|a| a.len()), Some(2));
    let some = workspace_symbols_result("FUNC", &responses);
    let list = some.as_array().unwrap();
    assert_eq!(list.len(), 1);
    assert_eq!(str_at(&list[0], &["name"]), Some("my_func"));
    assert_eq!(str_at(&list[0], &["location", "uri"]), Some("file://b.gd"));
    let none = workspace_symbols_result("zzz", &responses);
    assert_eq!(none.as_array().map(|a| a.len()), Some(0));
}

#[test]
fn prepare_call_hierarchy_finds_innermost() {
    let result = symbols_of_b();
    let r = prepare_call_hierarchy_result("file://b.gd", &pos(3, 0), Some(&result));
    let items = r.as_array().unwrap();
    assert_eq!(items.len(), 1);
    assert_eq!(str_at(&items[0], &["name"]), Some("my_func"));
    assert_eq!(str_at(&items[0], &["uri"]), Some("file://b.gd"));
    assert_eq!(int_at(&items[0], &["selectionRange", "start", "character"]), Some(4));
    let outside = prepare_call_hierarchy_result("file://b.gd", &pos(30, 0), Some(&result));
    assert_eq!(outside.as_array().map(|a| a.len()), Some(0));
    let timed_out = prepare_call_hierarchy_result("file://b.gd", &pos(3, 0), None);
    assert_eq!(timed_out.as_array().map(|a| a.len()), Some(0));
}

#[test]
fn incoming_calls_from_references() {
    let item = obj(vec![
        ("name", s("my_func")),
        ("kind", n(12)),
        ("uri", s("file://b.gd")),
        ("selectionRange", range(2, 4, 2, 11)),
    ]);
    let params = references_params(&item);
    assert_eq!(str_at(&params, &["textDocument", "uri"]), Some("file://b.gd"));
    assert_eq!(int_at(&params, &["position", "character"]), Some(4));
    assert!(at(&params, &["context", "includeDeclaration"]).is_some());
    let locs = array(vec![obj(vec![("uri", s("file://c.gd")), ("range", range(7, 1, 7, 8))])]);
    let r = incoming_calls_result(&item, Some(&locs));
    let calls = r.as_array().unwrap();
    assert_eq!(calls.len(), 1);
    assert_eq!(str_at(&calls[0], &["from", "name"]), Some("my_func"));
    assert_eq!(str_at(&calls[0], &["from", "uri"]), Some("file://c.gd"));
    assert_eq!(int_at(&calls[0], &["from", "range", "start", "line"]), Some(7));
    assert_eq!(at(&calls[0], &["fromRanges"]).and_then(|a| a.as_array()).map(|a| a.len()), Some(1));
    let none = incoming_calls_result(&item, None);
    assert_eq!(none.as_array().map(|a| a.len()), Some(0));
}

#[test]
fn references_params_default_position() {
    let item = obj(vec![("uri", s("file://b.gd"))]);
    let params = references_params(&item);
    assert_eq!(int_at(&params, &["position", "line"]), Some(0));
    assert_eq!(int_at(&params, &["position", "character"]), Some(0));
}

#[test]
fn outgoing_calls_inside_item_range() {
    let item = obj(vec![("name", s("MyClass")), ("uri", s("file://b.gd")), ("range", range(1, 0, 20, 0))]);
    let result = symbols_of_b();
    let r = outgoing_calls_result(&item, Some(&result));
    let calls = r.as_array().unwrap();
    assert_eq!(calls.len(), 1);
    assert_eq!(str_at(&calls[0], &["to", "name"]), Some("my_func"));
    assert_eq!(str_at(&calls[0], &["to", "uri"]), Some("file://b.gd"));
    let none = outgoing_calls_result(&item, Some(&Json::Null));
    assert_eq!(none.as_array().map(|a| a.len()), Some(0));
}
