use godot_lsp_bridge::json::Json;
use godot_lsp_bridge::shader::{
    clear_diagnostics, extract_line_from_location, godot_args, is_shader_uri, missing_godot_diagnostic,
    missing_godot_notification, parse_shader_errors, publish_diagnostics, root_search_start, root_search_step,
    strip_ansi, to_res_path, validation_notification, Diagnostic, RootStep, ShaderState,
};
use godot_lsp_bridge::uri::{percent_decode, percent_decode_panics, uri_decodable, uri_to_path, uri_to_windows_path};

/// `v[k1][k2]...`, or `Json::Null` where a key is missing.
fn at<'a>(v: &'a Json, keys: &[&str]) -> Option<&'a Json> {
    let mut cur = v;
    for k in keys {
        cur = cur.get(k)?;
    }
    Some(cur)
}

fn json_of(d: &Diagnostic) -> Json {
    d.to_json()
}

// ── parse_shader_errors ──────────────────────────────────────────────────────

#[test]
fn parse_empty_stderr_returns_no_diagnostics() {
    assert!(parse_shader_errors("").is_empty());
}

#[test]
fn parse_valid_shader_output_returns_no_diagnostics() {
    let stderr = "Godot Engine v4.4.stable - https://godotengine.org\n";
    assert!(parse_shader_errors(stderr).is_empty());
}

#[test]
fn parse_shader_compilation_error() {
    let stderr = "res://test.gdshader:8 - Unknown identifier in expression: 'xx'. Shader compilation failed.";
    let diags = parse_shader_errors(stderr);
    assert_eq!(diags.len(), 1);
    let d = json_of(&diags[0]);
    assert_eq!(at(&d, &["range", "start", "line"]).and_then(|v| v.as_i64()), Some(7));
    assert_eq!(at(&d, &["severity"]).and_then(|v| v.as_i64()), Some(1));
    assert_eq!(
        at(&d, &["message"]).and_then(|v| v.as_str()),
        Some("Unknown identifier in expression: 'xx'")
    );
    assert_eq!(at(&d, &["source"]).and_then(|v| v.as_str()), Some("gdshader"));
}

#[test]
fn parse_multiple_shader_errors() {
    let stderr = "\
res://test.gdshader:3 - Expected valid type hint after ':'. Shader compilation failed.\n\
res://test.gdshader:8 - Unknown identifier in expression: 'xx'. Shader compilation failed.";
    let diags = parse_shader_errors(stderr);
    assert_eq!(diags.len(), 2);
    assert_eq!(at(&json_of(&diags[0]), &["range", "start", "line"]).and_then(|v| v.as_i64()), Some(2));
    assert_eq!(at(&json_of(&diags[1]), &["range", "start", "line"]).and_then(|v| v.as_i64()), Some(7));
}

#[test]
fn parse_engine_error_with_shader_keyword() {
    let stderr = "ERROR: Shader compilation error at: compile_shader (servers/rendering.cpp:123)";
    let diags = parse_shader_errors(stderr);
    assert_eq!(diags.len(), 1);
    let d = json_of(&diags[0]);
    assert!(at(&d, &["message"]).and_then(|v| v.as_str()).unwrap().contains("Shader compilation error"));
}

#[test]
fn parse_engine_error_without_shader_keyword_ignored() {
    let stderr = "ERROR: Some random engine error at: do_thing (core/main.cpp:50)";
    assert!(parse_shader_errors(stderr).is_empty());
}

#[test]
fn parse_ansi_coded_error() {
    let stderr = "\x1b[1;31mERROR: \x1b[0;91mShader parse failed\x1b[0;90m at: compile (render.cpp:42)";
    let diags = parse_shader_errors(stderr);
    assert_eq!(diags.len(), 1);
    let d = json_of(&diags[0]);
    assert!(at(&d, &["message"]).and_then(|v| v.as_str()).unwrap().contains("Shader parse failed"));
}

#[test]
fn parse_shader_error_line_1_maps_to_lsp_line_0() {
    let stderr = "res://shader.gdshader:1 - Unexpected token. Shader compilation failed.";
    let diags = parse_shader_errors(stderr);
    assert_eq!(at(&json_of(&diags[0]), &["range", "start", "line"]).and_then(|v| v.as_i64()), Some(0));
}

#[test]
fn parse_engine_error_line_numbers_and_exact_message() {
    let diags = parse_shader_errors("ERROR: Shader compilation error at: compile_shader (servers/rendering.cpp:123)");
    assert_eq!(diags[0].line, 122);
    assert_eq!(diags[0].severity, 1);
    assert_eq!(diags[0].message, "Shader compilation error");
    let diags = parse_shader_errors("ERROR: failed to parse thing at: f (x.cpp)");
    assert_eq!(diags.len(), 1);
    assert_eq!(diags[0].line, 0);
    assert_eq!(diags[0].message, "failed to parse thing");
}

#[test]
fn parse_shader_line_zero_saturates() {
    let diags = parse_shader_errors("res://a.gdshader:0 - Boom. Shader compilation failed.");
    assert_eq!(diags.len(), 1);
    assert_eq!(diags[0].line, 0);
    assert_eq!(diags[0].message, "Boom");
}

#[test]
fn parse_shader_lines_without_number_or_message_ignored() {
    assert!(parse_shader_errors("res://a.gdshader: - no line number").is_empty());
    assert!(parse_shader_errors("res://a.gdshader:4 - Shader compilation failed.").is_empty());
    assert!(parse_shader_errors("res://a.gdshader:4 missing separator").is_empty());
}

#[test]
fn parse_crlf_lines() {
    let diags = parse_shader_errors("res://a.gdshader:2 - Bad thing.\r\nres://a.gdshader:5 - Other thing\r\n");
    assert_eq!(diags.len(), 2);
    assert_eq!(diags[0].line, 1);
    assert_eq!(diags[0].message, "Bad thing.");
    assert_eq!(diags[1].line, 4);
    assert_eq!(diags[1].message, "Other thing");
}

// ── strip_ansi ───────────────────────────────────────────────────────────────

#[test]
fn strip_ansi_removes_codes() {
    assert_eq!(strip_ansi("\x1b[1;31mERROR:\x1b[0m hello"), "ERROR: hello");
}

#[test]
fn strip_ansi_passthrough_clean_string() {
    assert_eq!(strip_ansi("hello world"), "hello world");
}

#[test]
fn strip_ansi_unterminated_escape_drops_rest() {
    assert_eq!(strip_ansi("ok\x1b[123"), "ok");
}

// ── uri_to_path ──────────────────────────────────────────────────────────────

#[test]
fn uri_to_path_unix_style() {
    let p = uri_to_path("file:///home/user/project/test.gdshader");
    assert!(p.is_some());
    let s = p.unwrap();
    assert!(s.contains("home") && s.contains("test.gdshader"));
    assert_eq!(s, "/home/user/project/test.gdshader");
}

#[test]
fn uri_to_path_percent_encoded() {
    let p = uri_to_path("file:///path/my%20shader.gdshader");
    assert!(p.is_some());
    assert!(p.unwrap().contains("my shader"));
}

#[test]
fn uri_to_path_not_file_uri_returns_none() {
    assert!(uri_to_path("https://example.com").is_none());
}

#[test]
fn uri_to_windows_path_drops_slash_before_drive() {
    assert_eq!(uri_to_windows_path("file:///C:/proj/a.gdshader").as_deref(), Some("C:/proj/a.gdshader"));
    assert_eq!(uri_to_windows_path("file:///proj/a.gdshader").as_deref(), Some("/proj/a.gdshader"));
}

#[test]
fn uri_decodable_spots_split_characters() {
    assert!(uri_decodable("file:///a%20b"));
    assert!(uri_decodable("https://example.com/%aé"));
    assert!(uri_decodable("file:///%é1"));
    assert!(!uri_decodable("file:///%aé"));
}

// ── percent_decode ───────────────────────────────────────────────────────────

#[test]
fn percent_decode_spaces() {
    assert_eq!(percent_decode("hello%20world"), "hello world");
}

#[test]
fn percent_decode_no_encoding() {
    assert_eq!(percent_decode("hello"), "hello");
}

#[test]
fn percent_decode_bad_escapes_kept() {
    assert_eq!(percent_decode("100%zz"), "100%zz");
    assert_eq!(percent_decode("a%2"), "a%2");
    assert_eq!(percent_decode("%41%+9"), "A\u{9}");
}

#[test]
fn percent_decode_panic_detection() {
    assert!(!percent_decode_panics("a%20b"));
    assert!(!percent_decode_panics("%é1"));
    assert!(percent_decode_panics("%aé"));
}

// ── extract_line_from_location ───────────────────────────────────────────────

#[test]
fn extract_line_from_typical_location() {
    assert_eq!(extract_line_from_location("compile_shader (servers/rendering.cpp:123)"), Some(123));
}

#[test]
fn extract_line_from_location_no_parens() {
    assert_eq!(extract_line_from_location("no_parens"), None);
}

#[test]
fn extract_line_from_location_edge_cases() {
    assert_eq!(extract_line_from_location("f (a:b:42)"), Some(42));
    assert_eq!(extract_line_from_location("f )x( (a:1"), None);
    assert_eq!(extract_line_from_location("f (a.cpp)"), None);
    assert_eq!(extract_line_from_location("f (a.cpp:x1)"), None);
}

// ── is_shader_uri ────────────────────────────────────────────────────────────

#[test]
fn is_shader_uri_checks_suffix() {
    assert!(is_shader_uri("file:///a/b.gdshader"));
    assert!(!is_shader_uri("file:///a/b.gd"));
    assert!(!is_shader_uri("file:///a/b.gdshader.bak"));
}

// ── notifications ────────────────────────────────────────────────────────────

#[test]
fn publish_diagnostics_notification() {
    let diags = parse_shader_errors("res://t.gdshader:8 - Oops. Shader compilation failed.");
    let n = publish_diagnostics("file:///t.gdshader", &diags);
    assert_eq!(at(&n, &["jsonrpc"]).and_then(|v| v.as_str()), Some("2.0"));
    assert_eq!(at(&n, &["method"]).and_then(|v| v.as_str()), Some("textDocument/publishDiagnostics"));
    assert_eq!(at(&n, &["params", "uri"]).and_then(|v| v.as_str()), Some("file:///t.gdshader"));
    let list = at(&n, &["params", "diagnostics"]).and_then(|v| v.as_array()).unwrap();
    assert_eq!(list.len(), 1);
    assert_eq!(at(&list[0], &["range", "end", "line"]).and_then(|v| v.as_i64()), Some(7));
    assert_eq!(at(&list[0], &["range", "end", "character"]).and_then(|v| v.as_i64()), Some(0));
    assert_eq!(at(&list[0], &["message"]).and_then(|v| v.as_str()), Some("Oops"));
}

#[test]
fn clear_diagnostics_sends_empty_list() {
    let n = clear_diagnostics("file:///x.gdshader");
    assert_eq!(at(&n, &["params", "uri"]).and_then(|v| v.as_str()), Some("file:///x.gdshader"));
    assert_eq!(at(&n, &["params", "diagnostics"]).and_then(|v| v.as_array()).map(|a| a.len()), Some(0));
}

#[test]
fn missing_godot_hint() {
    let d = missing_godot_diagnostic();
    assert_eq!(d.line, 0);
    assert_eq!(d.severity, 3);
    assert!(d.message.starts_with("Shader diagnostics unavailable: Godot binary not found."));
    let n = missing_godot_notification("file:///y.gdshader");
    let list = at(&n, &["params", "diagnostics"]).and_then(|v| v.as_array()).unwrap();
    assert_eq!(list.len(), 1);
    assert_eq!(at(&list[0], &["severity"]).and_then(|v| v.as_i64()), Some(3));
}

// ── ShaderState ──────────────────────────────────────────────────────────────

#[test]
fn shader_state_cancel_noop_when_empty() {
    let mut state = ShaderState::default();
    assert!(state.cancel("file:///test.gdshader").is_none());
    assert!(!state.is_pending("file:///test.gdshader"));
}

#[test]
fn shader_state_register_replaces_and_remove_untracks() {
    let rt = tokio::runtime::Runtime::new().unwrap();
    let mut state = ShaderState::new();
    let first = rt.spawn(std::future::pending::<()>());
    assert!(state.register("file:///a.gdshader".to_owned(), first).is_none());
    let second = rt.spawn(async {});
    assert!(state.register("file:///b.gdshader".to_owned(), second).is_none());
    let third = rt.spawn(async {});
    let replaced = state.register("file:///a.gdshader".to_owned(), third).expect("first task handed back");
    replaced.abort();
    assert!(rt.block_on(replaced).unwrap_err().is_cancelled());
    assert!(state.is_pending("file:///a.gdshader"));
    assert!(state.is_pending("file:///b.gdshader"));
    assert!(state.remove("file:///a.gdshader").is_some());
    assert!(!state.is_pending("file:///a.gdshader"));
    assert!(state.is_pending("file:///b.gdshader"));
}

// ── project root and res:// paths ────────────────────────────────────────────

#[test]
fn find_project_root_returns_none_for_nonexistent() {
    // Nothing on the way up from a path that does not exist holds `project.godot`.
    let mut dir = root_search_start("/nonexistent/path/shader.gdshader", false).unwrap();
    let mut found = None;
    let mut steps = 0;
    loop {
        steps += 1;
        assert!(steps < 10);
        match root_search_step(&dir, false) {
            RootStep::Found(d) => {
                found = Some(d);
                break;
            }
            RootStep::Up(p) => dir = p,
            RootStep::NotFound => break,
        }
    }
    assert!(found.is_none());
    assert_eq!(dir, "/");
}

#[test]
fn root_search_walks_up_to_marker() {
    assert_eq!(root_search_start("/p/shaders/a.gdshader", true).as_deref(), Some("/p/shaders"));
    assert!(matches!(root_search_step("/p/shaders", false), RootStep::Up(ref d) if d == "/p"));
    assert!(matches!(root_search_step("/p", true), RootStep::Found(ref d) if d == "/p"));
    assert!(matches!(root_search_step("/", false), RootStep::NotFound));
}

#[test]
fn to_res_path_inside_and_outside_project() {
    assert_eq!(to_res_path("/p/shaders/a.gdshader", "/p").as_deref(), Some("res://shaders/a.gdshader"));
    assert_eq!(to_res_path("/p/sub\\dir/a.gdshader", "/p").as_deref(), Some("res://sub/dir/a.gdshader"));
    assert_eq!(to_res_path("/q/a.gdshader", "/p"), None);
    assert_eq!(to_res_path("/pp/a.gdshader", "/p"), None);
}

#[test]
fn godot_args_order() {
    let args = godot_args("/p", "/tmp/s.gd", "res://a.gdshader");
    assert_eq!(args, vec!["--headless", "--path", "/p", "--script", "/tmp/s.gd", "--", "res://a.gdshader"]);
}

#[test]
fn validation_outcome_published() {
    let diags = parse_shader_errors("res://t.gdshader:2 - Bad. Shader compilation failed.");
    let ok = validation_notification("file:///t.gdshader", Some(&diags));
    assert_eq!(at(&ok, &["params", "diagnostics"]).and_then(|v| v.as_array()).map(|a| a.len()), Some(1));
    let failed = validation_notification("file:///t.gdshader", None);
    assert_eq!(at(&failed, &["params", "diagnostics"]).and_then(|v| v.as_array()).map(|a| a.len()), Some(0));
}

#[test]
fn strip_ansi_idempotent_and_clean() {
    let once = strip_ansi("\x1b[1;31mERROR:\x1b[0m \x1b[2Khi");
    assert!(!once.contains('\x1b'));
    assert_eq!(strip_ansi(&once), once);
    assert_ne!(strip_ansi("a\x1b[0mb"), "a\x1b[0mb");
}
