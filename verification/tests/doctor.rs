use godot_lsp_bridge::doctor::{doctor_report, lsp_label, path_entries, status_line, PROBE_TIMEOUT_SECS};

#[test]
fn status_lines() {
    assert_eq!(status_line("binary in PATH", true), "  [PASS]  binary in PATH");
    assert_eq!(status_line("binary in PATH", false), "  [FAIL]  binary in PATH");
    assert_eq!(lsp_label("127.0.0.1", 6005), "Godot LSP reachable (127.0.0.1:6005)");
    assert_eq!(PROBE_TIMEOUT_SECS, 2);
}

#[test]
fn path_entries_by_platform() {
    assert_eq!(path_entries("/a:/b", false), vec!["/a", "/b"]);
    assert_eq!(path_entries("C:\\a;C:\\b", true), vec!["C:\\a", "C:\\b"]);
    assert_eq!(path_entries("", false), vec![""]);
}

#[test]
fn report_all_passed() {
    let (lines, code) = doctor_report("127.0.0.1", 6005, true, true);
    assert_eq!(code, 0);
    assert_eq!(
        lines,
        vec![
            "godot-lsp-bridge doctor",
            "=======================",
            "  [PASS]  binary in PATH",
            "  [PASS]  Godot LSP reachable (127.0.0.1:6005)",
            "",
            "All checks passed.",
        ]
    );
}

#[test]
fn report_failures() {
    let (lines, code) = doctor_report("localhost", 6010, false, false);
    assert_eq!(code, 1);
    assert_eq!(lines.len(), 7);
    assert_eq!(lines[2], "  [FAIL]  binary in PATH");
    assert!(lines[5].starts_with("  [PATH] Add the directory"));
    assert!(lines[6].starts_with("  [LSP]  Godot is not reachable on localhost:6010."));
    let (lines, code) = doctor_report("h", 1, true, false);
    assert_eq!(code, 1);
    assert_eq!(lines.len(), 6);
    assert!(lines[5].starts_with("  [LSP]"));
}
