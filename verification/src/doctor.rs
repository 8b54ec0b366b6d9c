//! The `doctor` subcommand's report.
//!
//! Two checks: whether the `godot-lsp-bridge` binary is on `PATH`, and whether
//! Godot's Language Server answers on the configured host and port.  Running the
//! checks is the caller's; this module says where the binary is looked for and what
//! the report says.  Any failed check makes the command exit with status 1.

use vstd::prelude::*;
use crate::text::{decimal, push_decimal, push_str, split_char, split_on};

verus! {

/// Seconds each Language Server probe may take.
pub const PROBE_TIMEOUT_SECS: u64 = 2;

/// The directories of the `PATH` value `path_var`, separated by `;` on Windows and
/// by `:` elsewhere.
pub fn path_entries(path_var: &str, windows: bool) -> (r: Vec<String>)
    ensures
        r@.len() == split_char(path_var@, if windows { ';' } else { ':' }).len(),
        forall|j: int|
            0 <= j < r@.len() ==> #[trigger] r@[j]@ == split_char(path_var@, if windows { ';' } else { ':' })[j],
{
    let sep = if windows { ';' } else { ':' };
    split_on(path_var, sep)
}

/// The line reporting one check: `  [PASS]  label` or `  [FAIL]  label`.
pub open spec fn spec_status_line(label: Seq<char>, ok: bool) -> Seq<char> {
    (if ok { "  [PASS]  "@ } else { "  [FAIL]  "@ }) + label
}

/// The line reporting one check.
pub fn status_line(label: &str, ok: bool) -> (r: String)
    ensures
        r@ == spec_status_line(label@, ok),
{
    let mut s = if ok { "  [PASS]  ".to_owned() } else { "  [FAIL]  ".to_owned() };
    push_str(&mut s, label);
    s
}

/// The label of the Language Server check.
pub open spec fn spec_lsp_label(host: Seq<char>, port: u16) -> Seq<char> {
    "Godot LSP reachable ("@ + host + ":"@ + decimal(port as nat) + ")"@
}

/// The label of the Language Server check for `host:port`.
pub fn lsp_label(host: &str, port: u16) -> (r: String)
    ensures
        r@ == spec_lsp_label(host@, port),
{
    let mut s = "Godot LSP reachable (".to_owned();
    push_str(&mut s, host);
    push_str(&mut s, ":");
    push_decimal(&mut s, port as u64);
    push_str(&mut s, ")");
    s
}

/// The advice printed when the binary is not on `PATH`.
pub open spec fn path_advice() -> Seq<char> {
    "  [PATH] Add the directory containing godot-lsp-bridge to your PATH.\n\n  Run `godot-lsp-bridge update` to reinstall and fix PATH automatically,\n  or add the install directory manually and restart your terminal."@
}

/// The advice printed when Godot does not answer on `host:port`.
pub open spec fn spec_lsp_advice(host: Seq<char>, port: u16) -> Seq<char> {
    "  [LSP]  Godot is not reachable on "@ + host + ":"@ + decimal(port as nat)
        + ".\n\n  Open a project in the Godot editor and ensure the Language Server is\n  enabled: Editor -> Editor Settings -> Network -> Language Server -> Enable."@
}

/// The lines of the report, in order, for the outcomes of the two checks.
pub open spec fn spec_report(host: Seq<char>, port: u16, binary_ok: bool, lsp_ok: bool) -> Seq<Seq<char>> {
    let head = seq![
        "godot-lsp-bridge doctor"@,
        "======================="@,
        spec_status_line("binary in PATH"@, binary_ok),
        spec_status_line(spec_lsp_label(host, port), lsp_ok),
    ];
    if binary_ok && lsp_ok {
        head + seq![Seq::<char>::empty(), "All checks passed."@]
    } else {
        head + seq![Seq::<char>::empty()] + (if binary_ok {
            Seq::<Seq<char>>::empty()
        } else {
            seq![path_advice()]
        }) + (if lsp_ok {
            Seq::<Seq<char>>::empty()
        } else {
            seq![spec_lsp_advice(host, port)]
        })
    }
}

/// The report for the outcomes of the checks, one line per element, and the exit
/// status: 0 when both checks passed, 1 otherwise.
pub fn doctor_report(host: &str, port: u16, binary_ok: bool, lsp_ok: bool) -> (r: (Vec<String>, i32))
    ensures
        r.0@.len() == spec_report(host@, port, binary_ok, lsp_ok).len(),
        forall|j: int| 0 <= j < r.0@.len() ==> #[trigger] r.0@[j]@ == spec_report(host@, port, binary_ok, lsp_ok)[j],
        r.1 == (if binary_ok && lsp_ok { 0i32 } else { 1i32 }),
{
    let mut lines: Vec<String> = Vec::new();
    lines.push("godot-lsp-bridge doctor".to_owned());
    lines.push("=======================".to_owned());
    lines.push(status_line("binary in PATH", binary_ok));
    let label = lsp_label(host, port);
    lines.push(status_line(label.as_str(), lsp_ok));
    lines.push(String::new());
    let ghost spec = spec_report(host@, port, binary_ok, lsp_ok);
    if binary_ok && lsp_ok {
        lines.push("All checks passed.".to_owned());
        assert(lines@[4]@ == Seq::<char>::empty());
        assert forall|j: int| 0 <= j < lines@.len() implies #[trigger] lines@[j]@ == spec[j] by {}
        return (lines, 0);
    }
    if !binary_ok {
        lines.push(
            "  [PATH] Add the directory containing godot-lsp-bridge to your PATH.\n\n  Run `godot-lsp-bridge update` to reinstall and fix PATH automatically,\n  or add the install directory manually and restart your terminal.".to_owned(),
        );
    }
    if !lsp_ok {
        let mut s = "  [LSP]  Godot is not reachable on ".to_owned();
        push_str(&mut s, host);
        push_str(&mut s, ":");
        push_decimal(&mut s, port as u64);
        push_str(
            &mut s,
            ".\n\n  Open a project in the Godot editor and ensure the Language Server is\n  enabled: Editor -> Editor Settings -> Network -> Language Server -> Enable.",
        );
        lines.push(s);
    }
    assert(lines@[4]@ == Seq::<char>::empty());
    assert forall|j: int| 0 <= j < lines@.len() implies #[trigger] lines@[j]@ == spec[j] by {}
    (lines, 1)
}

} // verus!
