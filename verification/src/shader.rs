//! Diagnostics for `.gdshader` files, recovered from Godot's stderr.
//!
//! Godot's native LSP only serves diagnostics for GDScript.  The bridge validates a
//! shader by running Godot headless and converts the compiler's stderr into LSP
//! diagnostics.  This module holds the conversion: ANSI colour codes are stripped,
//! and two line formats are recognised:
//!
//! 1. shader compilation errors: `res://path.gdshader:LINE - MESSAGE[. Shader compilation failed.]`
//! 2. engine errors: `ERROR: MESSAGE at: FUNCTION (FILE:LINE)`, kept only when the
//!    message mentions a shader, a compilation or a parse.

use vstd::prelude::*;
use crate::text::{
    ascii_lower, chars_of, contains_chars, contains_seq, digit_run, digit_run_end, ends_with_chars,
    find_chars, find_from, has_prefix, has_suffix, matches_at, parse_uint, parse_uint_chars,
    push_char, rfind_char, string_of, rfind_char_in, string_from_chars, sub_vec, to_ascii_lower, trim_bounds,
    trim_end_dots, trim_ws,
};
use crate::json::{array, int_jv, object, fields_jv, jvs, Json, JsonV};
use crate::lsp::{field, make_notification, position, position_jv, spec_make_notification};
use crate::synthesizer::lemma_remove_unique;
use tokio::task::JoinHandle;

verus! {

/// An LSP diagnostic for a shader: the whole of line `line` (0-based), with a
/// severity (1 error, 3 information) and a message.
#[derive(Debug)]
pub struct Diagnostic {
    /// The 0-based line the diagnostic refers to.
    pub line: u32,
    /// The LSP severity: 1 for an error, 3 for information.
    pub severity: u8,
    /// The message shown to the user.
    pub message: String,
}

/// The view of a [`Diagnostic`].
pub struct DiagnosticV {
    pub line: u32,
    pub severity: u8,
    pub message: Seq<char>,
}

impl Diagnostic {
    /// The mathematical value of this diagnostic.
    pub open spec fn dv(self) -> DiagnosticV {
        DiagnosticV { line: self.line, severity: self.severity, message: self.message@ }
    }
}

/// The views of a list of diagnostics.
pub open spec fn dvs(v: Seq<Diagnostic>) -> Seq<DiagnosticV> {
    Seq::new(v.len(), |i: int| v[i].dv())
}

/// An ASCII letter.
pub open spec fn is_ascii_alpha(c: char) -> bool {
    ('A' <= c <= 'Z') || ('a' <= c <= 'z')
}

/// `s.skip(i)` with ANSI escape sequences removed; `esc` says whether an escape
/// sequence is open.  An escape sequence starts with `'\x1b'` and ends with the next
/// ASCII letter, which is removed with it.
pub open spec fn strip_ansi_from(s: Seq<char>, i: int, esc: bool) -> Seq<char>
    decreases s.len() - i,
{
    if i < 0 || i >= s.len() {
        Seq::empty()
    } else if esc {
        strip_ansi_from(s, i + 1, !is_ascii_alpha(s[i]))
    } else if s[i] == '\x1b' {
        strip_ansi_from(s, i + 1, true)
    } else {
        seq![s[i]] + strip_ansi_from(s, i + 1, false)
    }
}

/// `s` with ANSI escape sequences removed.
pub open spec fn spec_strip_ansi(s: Seq<char>) -> Seq<char> {
    strip_ansi_from(s, 0, false)
}

/// The tail `s.skip(i)` of a text without escape characters is kept as it is.
proof fn lemma_strip_plain_from(s: Seq<char>, i: int)
    requires
        0 <= i <= s.len(),
        !s.contains('\x1b'),
    ensures
        strip_ansi_from(s, i, false) == s.skip(i),
    decreases s.len() - i,
{
    if i < s.len() {
        assert(s[i] != '\x1b');
        lemma_strip_plain_from(s, i + 1);
        assert(seq![s[i]] + s.skip(i + 1) =~= s.skip(i));
    } else {
        assert(s.skip(i) =~= Seq::<char>::empty());
    }
}

/// A text with no escape character comes out of [`strip_ansi`] unchanged.
pub proof fn law_strip_ansi_plain(s: Seq<char>)
    requires
        !s.contains('\x1b'),
    ensures
        spec_strip_ansi(s) == s,
{
    lemma_strip_plain_from(s, 0);
    assert(s.skip(0) =~= s);
}

/// `a` is a subsequence of `b`: its characters occur in `b` in the same order, at
/// the increasing positions `f`.
pub open spec fn subsequence_at(a: Seq<char>, b: Seq<char>, f: Seq<int>) -> bool {
    &&& f.len() == a.len()
    &&& forall|k: int| 0 <= k < f.len() ==> 0 <= #[trigger] f[k] < b.len() && a[k] == b[f[k]]
    &&& forall|k: int, l: int| 0 <= k < l < f.len() ==> f[k] < f[l]
}

/// What [`strip_ansi_from`] keeps of `s.skip(i)`: no escape character, at most as
/// many characters (fewer when an escape character is there), and the kept ones at
/// increasing positions `f` of `s`, all at or after `i`.
proof fn lemma_strip_from(s: Seq<char>, i: int, esc: bool) -> (f: Seq<int>)
    requires
        0 <= i <= s.len(),
    ensures
        !strip_ansi_from(s, i, esc).contains('\x1b'),
        strip_ansi_from(s, i, esc).len() <= s.len() - i,
        (exists|j: int| i <= j < s.len() && s[j] == '\x1b') ==> strip_ansi_from(s, i, esc).len() < s.len() - i,
        subsequence_at(strip_ansi_from(s, i, esc), s, f),
        forall|k: int| 0 <= k < f.len() ==> i <= #[trigger] f[k],
    decreases s.len() - i,
{
    if i == s.len() {
        Seq::empty()
    } else {
        let next = if esc {
            !is_ascii_alpha(s[i])
        } else if s[i] == '\x1b' {
            true
        } else {
            false
        };
        let g = lemma_strip_from(s, i + 1, next);
        let rest = strip_ansi_from(s, i + 1, next);
        if esc || s[i] == '\x1b' {
            assert(strip_ansi_from(s, i, esc) == rest);
            if exists|j: int| i <= j < s.len() && s[j] == '\x1b' {
                let j = choose|j: int| i <= j < s.len() && s[j] == '\x1b';
                if j > i {
                    assert(exists|j2: int| i + 1 <= j2 < s.len() && s[j2] == '\x1b');
                }
            }
            g
        } else {
            let out = seq![s[i]] + rest;
            assert(strip_ansi_from(s, i, esc) == out);
            let f = seq![i] + g;
            assert(!out.contains('\x1b')) by {
                if out.contains('\x1b') {
                    let k = choose|k: int| 0 <= k < out.len() && out[k] == '\x1b';
                    if k > 0 {
                        assert(rest[k - 1] == '\x1b');
                    }
                }
            }
            if exists|j: int| i <= j < s.len() && s[j] == '\x1b' {
                let j = choose|j: int| i <= j < s.len() && s[j] == '\x1b';
                assert(j > i);
                assert(exists|j2: int| i + 1 <= j2 < s.len() && s[j2] == '\x1b');
            }
            assert forall|k: int| 0 <= k < f.len() implies 0 <= #[trigger] f[k] < s.len() && out[k] == s[f[k]] by {
                if k > 0 {
                    assert(f[k] == g[k - 1]);
                    assert(out[k] == rest[k - 1]);
                }
            }
            assert forall|k: int, l: int| 0 <= k < l < f.len() implies f[k] < f[l] by {
                if k > 0 {
                    assert(f[k] == g[k - 1]);
                }
                assert(f[l] == g[l - 1]);
            }
            assert forall|k: int| 0 <= k < f.len() implies i <= #[trigger] f[k] by {
                if k > 0 {
                    assert(f[k] == g[k - 1]);
                }
            }
            f
        }
    }
}

/// [`strip_ansi`] leaves no escape character and keeps the other characters it keeps
/// in order: its output is a subsequence of its input, equal to it exactly when the
/// input has no escape character; stripping twice is stripping once.
pub proof fn law_strip_ansi(s: Seq<char>)
    ensures
        !spec_strip_ansi(s).contains('\x1b'),
        exists|f: Seq<int>| subsequence_at(spec_strip_ansi(s), s, f),
        spec_strip_ansi(s) == s <==> !s.contains('\x1b'),
        spec_strip_ansi(spec_strip_ansi(s)) == spec_strip_ansi(s),
{
    let f = lemma_strip_from(s, 0, false);
    if s.contains('\x1b') {
        let j = choose|j: int| 0 <= j < s.len() && s[j] == '\x1b';
        assert(exists|j2: int| 0 <= j2 < s.len() && s[j2] == '\x1b');
    } else {
        law_strip_ansi_plain(s);
    }
    law_strip_ansi_plain(spec_strip_ansi(s));
}

/// Executable [`spec_strip_ansi`] over characters.
fn strip_ansi_chars(c: &Vec<char>) -> (r: Vec<char>)
    ensures
        r@ == spec_strip_ansi(c@),
{
    let mut out: Vec<char> = Vec::new();
    let mut esc = false;
    let mut i: usize = 0;
    while i < c.len()
        invariant
            i <= c@.len(),
            out@ + strip_ansi_from(c@, i as int, esc) == spec_strip_ansi(c@),
        decreases c.len() - i,
    {
        let ch = c[i];
        let ghost old_out = out@;
        let ghost old_esc = esc;
        if esc {
            esc = !(('A' <= ch && ch <= 'Z') || ('a' <= ch && ch <= 'z'));
        } else if ch == '\x1b' {
            esc = true;
        } else {
            out.push(ch);
            assert(strip_ansi_from(c@, i as int, false) == seq![ch] + strip_ansi_from(
                c@,
                i + 1,
                false,
            ));
            assert(old_out + (seq![ch] + strip_ansi_from(c@, i + 1, false)) =~= out@
                + strip_ansi_from(c@, i + 1, false));
        }
        i = i + 1;
    }
    assert(strip_ansi_from(c@, i as int, esc) =~= Seq::<char>::empty());
    assert(out@ + Seq::<char>::empty() =~= out@);
    out
}

/// Removes ANSI escape sequences from `s`.
pub fn strip_ansi(s: &str) -> (r: String)
    ensures
        r@ == spec_strip_ansi(s@),
{
    let c = chars_of(s);
    let v = strip_ansi_chars(&c);
    string_of(&v)
}

/// The line number in a Godot error location such as `func_name (file.cpp:123)`:
/// the digits after the last `':'` between the last `'('` and the last `')'`.
pub open spec fn spec_extract_line(loc: Seq<char>) -> Option<u32> {
    match rfind_char(loc, '(') {
        None => None,
        Some(ps) => match rfind_char(loc, ')') {
            None => None,
            Some(pe) => if pe <= ps {
                None
            } else {
                let inner = loc.subrange(ps + 1, pe);
                match rfind_char(inner, ':') {
                    None => None,
                    Some(c) => match parse_uint(inner.skip(c + 1), u32::MAX as nat) {
                        Some(n) => Some(n as u32),
                        None => None,
                    },
                }
            },
        },
    }
}

/// A found index is inside the sequence.
proof fn lemma_rfind_in_bounds(s: Seq<char>, ch: char)
    ensures
        rfind_char(s, ch) matches Some(i) ==> 0 <= i < s.len() && s[i] == ch,
    decreases s.len(),
{
    if s.len() > 0 && s.last() != ch {
        lemma_rfind_in_bounds(s.drop_last(), ch);
    }
}

/// Executable [`spec_extract_line`] over characters.
fn extract_line_chars(c: &Vec<char>) -> (r: Option<u32>)
    ensures
        r == spec_extract_line(c@),
{
    proof {
        lemma_rfind_in_bounds(c@, '(');
        lemma_rfind_in_bounds(c@, ')');
    }
    assert(c@.subrange(0, c@.len() as int) =~= c@);
    let ps = match rfind_char_in(c, 0, c.len(), '(') {
        Some(i) => i,
        None => return None,
    };
    let pe = match rfind_char_in(c, 0, c.len(), ')') {
        Some(i) => i,
        None => return None,
    };
    if pe <= ps {
        return None;
    }
    let inner = sub_vec(c, ps + 1, pe);
    assert(inner@.subrange(0, inner@.len() as int) =~= inner@);
    proof {
        lemma_rfind_in_bounds(inner@, ':');
    }
    let col = match rfind_char_in(&inner, 0, inner.len(), ':') {
        Some(i) => i,
        None => return None,
    };
    assert(inner@.subrange(col + 1, inner@.len() as int) =~= inner@.skip(col + 1));
    match parse_uint_chars(&inner, col + 1, inner.len(), 0xffff_ffffusize) {
        Some(n) => Some(n as u32),
        None => None,
    }
}

/// Extracts a line number from a Godot error location like `func_name (file.cpp:123)`.
pub fn extract_line_from_location(location: &str) -> (r: Option<u32>)
    ensures
        r == spec_extract_line(location@),
{
    let c = chars_of(location);
    extract_line_chars(&c)
}

/// The 0-based LSP line of a 1-based Godot line (`saturating_sub(1)`).
pub open spec fn lsp_line(n: u32) -> u32 {
    if n == 0 {
        0
    } else {
        (n - 1) as u32
    }
}

/// The diagnostic of a shader compilation error line,
/// `res://path.gdshader:LINE - MESSAGE[. Shader compilation failed.]`.
pub open spec fn spec_compilation_line(line: Seq<char>) -> Option<DiagnosticV> {
    if !has_prefix(line, "res://"@) {
        None
    } else {
        let rest = line.skip("res://"@.len() as int);
        match find_from(rest, seq![':'], 0) {
            None => None,
            Some(cp) => {
                let after = rest.skip(cp + 1);
                let le = digit_run_end(after, 0);
                if le == 0 {
                    None
                } else {
                    match parse_uint(after.take(le), u32::MAX as nat) {
                        None => None,
                        Some(n) => match find_from(after, " - "@, 0) {
                            None => None,
                            Some(ms) => {
                                let m0 = trim_ws(after.skip(ms + " - "@.len()));
                                let sfx = "Shader compilation failed."@;
                                let m = if has_suffix(m0, sfx) {
                                    trim_end_dots(trim_ws(m0.take(m0.len() - sfx.len())))
                                } else {
                                    m0
                                };
                                if m.len() == 0 {
                                    None
                                } else {
                                    Some(
                                        DiagnosticV {
                                            line: lsp_line(n as u32),
                                            severity: 1,
                                            message: m,
                                        },
                                    )
                                }
                            },
                        },
                    }
                }
            },
        }
    }
}

/// A found pattern lies inside the sequence.
proof fn lemma_find_in_bounds(s: Seq<char>, p: Seq<char>, from: int)
    ensures
        find_from(s, p, from) matches Some(i) ==> from <= i && i + p.len() <= s.len(),
    decreases s.len() + 1 - from,
{
    if !(from < 0 || from + p.len() > s.len()) && !has_prefix(s.skip(from), p) {
        lemma_find_in_bounds(s, p, from + 1);
    }
}

/// Executable [`trim_end_dots`] over characters.
fn trim_end_dots_chars(c: &Vec<char>) -> (r: Vec<char>)
    ensures
        r@ == trim_end_dots(c@),
{
    let mut end = c.len();
    assert(c@.take(c@.len() as int) =~= c@);
    while end > 0 && c[end - 1] == '.'
        invariant
            end <= c@.len(),
            trim_end_dots(c@.take(end as int)) == trim_end_dots(c@),
        decreases end,
    {
        assert(c@.take(end as int).drop_last() =~= c@.take(end - 1));
        end = end - 1;
    }
    let r = sub_vec(c, 0, end);
    assert(r@ =~= c@.take(end as int));
    r
}

/// Parses a shader compilation error line.
fn parse_shader_compilation_line(c: &Vec<char>) -> (r: Option<Diagnostic>)
    ensures
        match r {
            Some(d) => spec_compilation_line(c@) == Some(d.dv()),
            None => spec_compilation_line(c@) is None,
        },
{
    let res = chars_of("res://");
    if res.len() > c.len() || !matches_at(c, 0, &res) {
        assert(c@.skip(0) =~= c@);
        return None;
    }
    assert(c@.skip(0) =~= c@);
    let rest = sub_vec(c, res.len(), c.len());
    assert(rest@ =~= c@.skip(res@.len() as int));
    let colon = vec![':'];
    assert(colon@ =~= seq![':']);
    proof {
        lemma_find_in_bounds(rest@, colon@, 0);
    }
    let cp = match find_chars(&rest, &colon, 0) {
        Some(i) => i,
        None => return None,
    };
    let after = sub_vec(&rest, cp + 1, rest.len());
    assert(after@ =~= rest@.skip(cp + 1));
    let le = digit_run(&after);
    if le == 0 {
        return None;
    }
    assert(after@.subrange(0, le as int) =~= after@.take(le as int));
    let n = match parse_uint_chars(&after, 0, le, 0xffff_ffffusize) {
        Some(n) => n,
        None => return None,
    };
    let sep = chars_of(" - ");
    proof {
        lemma_find_in_bounds(after@, sep@, 0);
    }
    let ms = match find_chars(&after, &sep, 0) {
        Some(i) => i,
        None => return None,
    };
    let (a, b) = trim_bounds(&after, ms + sep.len(), after.len());
    assert(after@.subrange(ms + sep@.len(), after@.len() as int) =~= after@.skip(
        ms + sep@.len(),
    ));
    let m0 = sub_vec(&after, a, b);
    let sfx = chars_of("Shader compilation failed.");
    let m = if ends_with_chars(&m0, &sfx) {
        let (a2, b2) = trim_bounds(&m0, 0, m0.len() - sfx.len());
        assert(m0@.subrange(0, m0@.len() - sfx@.len()) =~= m0@.take(m0@.len() - sfx@.len()));
        let t = sub_vec(&m0, a2, b2);
        trim_end_dots_chars(&t)
    } else {
        m0
    };
    if m.len() == 0 {
        return None;
    }
    let line: u32 = if n == 0 {
        0
    } else {
        (n - 1) as u32
    };
    Some(Diagnostic { line, severity: 1, message: string_of(&m) })
}

/// The diagnostic of an engine error line, `ERROR: MESSAGE at: FUNCTION (FILE:LINE)`,
/// kept only when the message mentions a shader, a compilation or a parse.
pub open spec fn spec_engine_line(line: Seq<char>) -> Option<DiagnosticV> {
    if !has_prefix(line, "ERROR: "@) {
        None
    } else {
        let rest = trim_ws(line.skip("ERROR: "@.len() as int));
        match find_from(rest, " at: "@, 0) {
            None => None,
            Some(at) => {
                let message = trim_ws(rest.take(at));
                let lower = ascii_lower(message);
                if !(contains_seq(lower, "shader"@) || contains_seq(lower, "compile"@)
                    || contains_seq(lower, "parse"@) || contains_seq(lower, "validate_shader"@)) {
                    None
                } else {
                    let location = rest.skip(at + " at: "@.len());
                    let n = match spec_extract_line(location) {
                        Some(n) => n,
                        None => 0,
                    };
                    Some(DiagnosticV { line: lsp_line(n), severity: 1, message })
                }
            },
        }
    }
}

/// Parses an engine `ERROR:` line.
fn parse_engine_error_line(c: &Vec<char>) -> (r: Option<Diagnostic>)
    ensures
        match r {
            Some(d) => spec_engine_line(c@) == Some(d.dv()),
            None => spec_engine_line(c@) is None,
        },
{
    let pre = chars_of("ERROR: ");
    assert(c@.skip(0) =~= c@);
    if pre.len() > c.len() || !matches_at(c, 0, &pre) {
        return None;
    }
    let (a, b) = trim_bounds(c, pre.len(), c.len());
    assert(c@.subrange(pre@.len() as int, c@.len() as int) =~= c@.skip(pre@.len() as int));
    let rest = sub_vec(c, a, b);
    let sep = chars_of(" at: ");
    proof {
        lemma_find_in_bounds(rest@, sep@, 0);
    }
    let at = match find_chars(&rest, &sep, 0) {
        Some(i) => i,
        None => return None,
    };
    let (ma, mb) = trim_bounds(&rest, 0, at);
    assert(rest@.subrange(0, at as int) =~= rest@.take(at as int));
    let message = sub_vec(&rest, ma, mb);
    let lower = to_ascii_lower(&message);
    let k1 = chars_of("shader");
    let k2 = chars_of("compile");
    let k3 = chars_of("parse");
    let k4 = chars_of("validate_shader");
    if !(contains_chars(&lower, &k1) || contains_chars(&lower, &k2) || contains_chars(&lower, &k3)
        || contains_chars(&lower, &k4)) {
        return None;
    }
    let location = sub_vec(&rest, at + sep.len(), rest.len());
    assert(location@ =~= rest@.skip(at + sep@.len()));
    let n = match extract_line_chars(&location) {
        Some(n) => n,
        None => 0,
    };
    let line: u32 = if n > 0 {
        n - 1
    } else {
        0
    };
    proof {
        let sl = c@;
        assert(has_prefix(sl, "ERROR: "@));
        assert(rest@ == trim_ws(sl.skip("ERROR: "@.len() as int)));
        assert(find_from(rest@, " at: "@, 0) == Some(at as int));
        assert(message@ == trim_ws(rest@.take(at as int)));
        assert(location@ == rest@.skip(at + " at: "@.len()));
        let lw = ascii_lower(message@);
        assert(contains_seq(lw, "shader"@) || contains_seq(lw, "compile"@) || contains_seq(lw, "parse"@) || contains_seq(lw, "validate_shader"@));
        assert(lsp_line(n) == line);
        assert(spec_engine_line(sl) == Some(DiagnosticV { line, severity: 1, message: message@ }));
    }
    Some(Diagnostic { line, severity: 1, message: string_of(&message) })
}

/// The diagnostic of one stderr line, if it reports a shader error.
pub open spec fn spec_line_diagnostic(line: Seq<char>) -> Option<DiagnosticV> {
    let clean = spec_strip_ansi(line);
    match spec_compilation_line(clean) {
        Some(d) => Some(d),
        None => spec_engine_line(clean),
    }
}

/// The index of the first `'\n'` at or after `i`, or `s.len()` when there is none.
pub open spec fn next_newline(s: Seq<char>, i: int) -> int
    decreases s.len() - i,
{
    if i >= s.len() {
        s.len() as int
    } else if s[i] == '\n' {
        i
    } else {
        next_newline(s, i + 1)
    }
}

/// A line ends inside the text, no earlier than it starts.
pub proof fn lemma_next_newline(s: Seq<char>, i: int)
    requires
        0 <= i <= s.len(),
    ensures
        i <= next_newline(s, i) <= s.len(),
    decreases s.len() - i,
{
    if i < s.len() && s[i] != '\n' {
        lemma_next_newline(s, i + 1);
    }
}

/// The diagnostics of the lines of `s` from index `i` on (`str::lines`: lines end
/// with `'\n'`, and a `'\r'` just before it is not part of the line).
pub open spec fn spec_errors_from(s: Seq<char>, i: int) -> Seq<DiagnosticV>
    decreases s.len() + 1 - i,
{
    if i < 0 || i >= s.len() {
        Seq::empty()
    } else {
        proof {
            lemma_next_newline(s, i);
        }
        let k = next_newline(s, i);
        let raw = s.subrange(i, k);
        let line = if k < s.len() && raw.len() > 0 && raw.last() == '\r' {
            raw.drop_last()
        } else {
            raw
        };
        let rest = spec_errors_from(s, k + 1);
        match spec_line_diagnostic(line) {
            Some(d) => seq![d] + rest,
            None => rest,
        }
    }
}

/// The diagnostics that Godot's stderr output `s` reports.
pub open spec fn spec_parse_shader_errors(s: Seq<char>) -> Seq<DiagnosticV> {
    spec_errors_from(s, 0)
}

/// Parses Godot's stderr output into shader diagnostics, one per recognised line,
/// in the order of the lines.
pub fn parse_shader_errors(stderr: &str) -> (r: Vec<Diagnostic>)
    ensures
        dvs(r@) == spec_parse_shader_errors(stderr@),
{
    let c = chars_of(stderr);
    let mut out: Vec<Diagnostic> = Vec::new();
    let mut i: usize = 0;
    while i < c.len()
        invariant
            i <= c@.len(),
            dvs(out@) + spec_errors_from(c@, i as int) == spec_parse_shader_errors(c@),
        decreases c.len() - i,
    {
        let mut k = i;
        while k < c.len() && c[k] != '\n'
            invariant
                i <= k <= c@.len(),
                next_newline(c@, k as int) == next_newline(c@, i as int),
            decreases c.len() - k,
        {
            k = k + 1;
        }
        let hi = if k < c.len() && k > i && c[k - 1] == '\r' {
            k - 1
        } else {
            k
        };
        let line = sub_vec(&c, i, hi);
        assert(line@ =~= (if k < c@.len() && c@.subrange(i as int, k as int).len() > 0 && c@.subrange(
            i as int,
            k as int,
        ).last() == '\r' {
            c@.subrange(i as int, k as int).drop_last()
        } else {
            c@.subrange(i as int, k as int)
        }));
        let clean = strip_ansi_chars(&line);
        let d = match parse_shader_compilation_line(&clean) {
            Some(d) => Some(d),
            None => parse_engine_error_line(&clean),
        };
        let ghost before = dvs(out@);
        match d {
            Some(d) => {
                out.push(d);
                assert(dvs(out@) =~= before + seq![d.dv()]);
            },
            None => {},
        }
        proof {
            lemma_next_newline(c@, i as int);
        }
        if k < c.len() {
            i = k + 1;
        } else {
            i = k;
            assert(spec_errors_from(c@, k + 1) =~= spec_errors_from(c@, k as int));
        }
        assert(dvs(out@) + spec_errors_from(c@, i as int) =~= spec_parse_shader_errors(c@));
    }
    assert(spec_errors_from(c@, i as int) =~= Seq::<DiagnosticV>::empty());
    assert(dvs(out@) + Seq::<DiagnosticV>::empty() =~= dvs(out@));
    out
}

/// Returns `true` if `uri` points to a `.gdshader` file.
pub fn is_shader_uri(uri: &str) -> (r: bool)
    ensures
        r == has_suffix(uri@, ".gdshader"@),
{
    let c = chars_of(uri);
    let sfx = chars_of(".gdshader");
    ends_with_chars(&c, &sfx)
}


/// The LSP range that starts and ends at character 0 of line `line`.
pub open spec fn line_range_jv(line: u32) -> JsonV {
    JsonV::Object(seq![("start"@, position_jv(line as int, 0)), ("end"@, position_jv(line as int, 0))])
}

/// The LSP `Diagnostic` object for `d`, with source `gdshader`.
pub open spec fn spec_diagnostic_json(d: DiagnosticV) -> JsonV {
    JsonV::Object(
        seq![
            ("range"@, line_range_jv(d.line)),
            ("severity"@, int_jv(d.severity as int)),
            ("source"@, JsonV::Str("gdshader"@)),
            ("message"@, JsonV::Str(d.message)),
        ],
    )
}

impl Diagnostic {
    /// This diagnostic as an LSP `Diagnostic` object.
    pub fn to_json(&self) -> (r: Json)
        ensures
            r.jv() == spec_diagnostic_json(self.dv()),
    {
        let mut rf: Vec<(String, Json)> = Vec::new();
        rf.push(field("start", position(self.line as i64, 0)));
        rf.push(field("end", position(self.line as i64, 0)));
        assert(fields_jv(rf@) =~= line_range_jv(self.line)->Object_0);
        let range = object(rf);
        let mut f: Vec<(String, Json)> = Vec::new();
        f.push(field("range", range));
        f.push(field("severity", Json::integer(self.severity as i64)));
        f.push(field("source", Json::string("gdshader")));
        f.push(field("message", Json::string(self.message.as_str())));
        let r = object(f);
        assert(fields_jv(f@) =~= spec_diagnostic_json(self.dv())->Object_0);
        r
    }
}

/// The `textDocument/publishDiagnostics` notification that sets the diagnostics of
/// `uri` to `diags`.
pub open spec fn spec_publish_diagnostics(uri: Seq<char>, diags: Seq<DiagnosticV>) -> JsonV {
    spec_make_notification(
        "textDocument/publishDiagnostics"@,
        JsonV::Object(
            seq![
                ("uri"@, JsonV::Str(uri)),
                ("diagnostics"@, JsonV::Array(diags.map_values(|d: DiagnosticV| spec_diagnostic_json(d)))),
            ],
        ),
    )
}

/// The notification that publishes `diags` for `uri`.
pub fn publish_diagnostics(uri: &str, diags: &Vec<Diagnostic>) -> (r: Json)
    ensures
        r.jv() == spec_publish_diagnostics(uri@, dvs(diags@)),
{
    let mut items: Vec<Json> = Vec::new();
    let mut i: usize = 0;
    while i < diags.len()
        invariant
            i <= diags@.len(),
            jvs(items@) =~= dvs(diags@).take(i as int).map_values(|d: DiagnosticV| spec_diagnostic_json(d)),
        decreases diags.len() - i,
    {
        let ghost before = jvs(items@);
        items.push(diags[i].to_json());
        assert(jvs(items@) =~= before.push(spec_diagnostic_json(diags@[i as int].dv())));
        assert(dvs(diags@).take(i + 1) =~= dvs(diags@).take(i as int).push(diags@[i as int].dv()));
        i = i + 1;
    }
    assert(dvs(diags@).take(i as int) =~= dvs(diags@));
    let mut p: Vec<(String, Json)> = Vec::new();
    p.push(field("uri", Json::string(uri)));
    p.push(field("diagnostics", array(items)));
    assert(fields_jv(p@) =~= spec_publish_diagnostics(uri@, dvs(diags@))->Object_0[2].1->Object_0);
    let params = object(p);
    make_notification("textDocument/publishDiagnostics", params)
}

/// The notification that clears the diagnostics of `uri` (sent when a shader closes).
pub fn clear_diagnostics(uri: &str) -> (r: Json)
    ensures
        r.jv() == spec_publish_diagnostics(uri@, Seq::empty()),
{
    let none: Vec<Diagnostic> = Vec::new();
    assert(dvs(none@) =~= Seq::<DiagnosticV>::empty());
    publish_diagnostics(uri, &none)
}

/// What a validation run publishes for `uri`: the diagnostics it found, or an empty
/// list (clearing stale ones) when the run failed (`None`).
pub fn validation_notification(uri: &str, outcome: Option<&Vec<Diagnostic>>) -> (r: Json)
    ensures
        r.jv() == spec_publish_diagnostics(
            uri@,
            match outcome {
                Some(d) => dvs(d@),
                None => Seq::empty(),
            },
        ),
{
    match outcome {
        Some(d) => publish_diagnostics(uri, d),
        None => clear_diagnostics(uri),
    }
}

/// The text of the hint published when no Godot binary is known.
pub open spec fn missing_godot_text() -> Seq<char> {
    "Shader diagnostics unavailable: Godot binary not found. Run `godot-lsp-bridge config set godot-path /path/to/godot` or add Godot to your PATH."@
}

/// The information diagnostic (severity 3, line 0) that tells the user to set up a
/// Godot binary.
pub fn missing_godot_diagnostic() -> (r: Diagnostic)
    ensures
        r.dv() == (DiagnosticV { line: 0, severity: 3, message: missing_godot_text() }),
{
    Diagnostic {
        line: 0,
        severity: 3,
        message: "Shader diagnostics unavailable: Godot binary not found. Run `godot-lsp-bridge config set godot-path /path/to/godot` or add Godot to your PATH.".to_owned(),
    }
}

/// The notification published for `uri` when no Godot binary is known: the single
/// hint of [`missing_godot_diagnostic`].
pub fn missing_godot_notification(uri: &str) -> (r: Json)
    ensures
        r.jv() == spec_publish_diagnostics(
            uri@,
            seq![DiagnosticV { line: 0, severity: 3, message: missing_godot_text() }],
        ),
{
    let mut v: Vec<Diagnostic> = Vec::new();
    v.push(missing_godot_diagnostic());
    assert(dvs(v@) =~= seq![DiagnosticV { line: 0, severity: 3, message: missing_godot_text() }]);
    publish_diagnostics(uri, &v)
}


// ── In-flight validations ───────────────────────────────────────────────────

/// The task handles of `tokio`, carried through [`ShaderState`] unread.
#[verifier::external_type_specification]
#[verifier::external_body]
#[verifier::reject_recursive_types(T)]
pub struct ExJoinHandle<T>(JoinHandle<T>);

/// The error a task handle yields when awaited; declared because the handle's
/// `Future` impl names it.
#[verifier::external_type_specification]
#[verifier::external_body]
pub struct ExJoinError(tokio::task::JoinError);

/// The validation tasks in flight, one per shader URI, so that a re-edit can cancel
/// the previous validation of the same file: the task that stops being tracked is
/// handed back to be aborted (`JoinHandle::abort`).
pub struct ShaderState {
    pending: Vec<(String, JoinHandle<()>)>,
}

/// The URIs of a list of tracked tasks.
pub open spec fn task_uris(e: Seq<(Seq<char>, JoinHandle<()>)>) -> Seq<Seq<char>> {
    Seq::new(e.len(), |i: int| e[i].0)
}

/// `after` is `before` without the task of `uri`: the one entry for `uri` is taken
/// out, and the others keep their order.
pub open spec fn without_task(
    before: Seq<(Seq<char>, JoinHandle<()>)>,
    after: Seq<(Seq<char>, JoinHandle<()>)>,
    uri: Seq<char>,
) -> bool {
    &&& !task_uris(after).contains(uri)
    &&& (task_uris(before).contains(uri) ==> exists|j: int|
        0 <= j < before.len() && before[j].0 == uri && after == before.remove(j))
    &&& (!task_uris(before).contains(uri) ==> after == before)
}

/// `r` is what stops being tracked for `uri` in `before`: `Some` of the task
/// tracked for it, or `None` when none is.
pub open spec fn handed_back(before: Seq<(Seq<char>, JoinHandle<()>)>, uri: Seq<char>, r: Option<JoinHandle<()>>) -> bool {
    match r {
        Some(h) => exists|j: int| 0 <= j < before.len() && before[j] == (uri, h),
        None => !task_uris(before).contains(uri),
    }
}

impl ShaderState {
    /// The tracked tasks, each with the URI it validates, in registration order.
    pub closed spec fn tasks(&self) -> Seq<(Seq<char>, JoinHandle<()>)> {
        Seq::new(self.pending@.len(), |i: int| (self.pending@[i].0@, self.pending@[i].1))
    }

    /// No URI has two tasks.
    pub open spec fn wf(&self) -> bool {
        task_uris(self.tasks()).no_duplicates()
    }

    /// No task in flight.
    pub fn new() -> (r: ShaderState)
        ensures
            r.wf(),
            r.tasks() == Seq::<(Seq<char>, JoinHandle<()>)>::empty(),
    {
        let r = ShaderState { pending: Vec::new() };
        assert(r.tasks() =~= Seq::<(Seq<char>, JoinHandle<()>)>::empty());
        assert(task_uris(r.tasks()) =~= Seq::<Seq<char>>::empty());
        r
    }

    /// Whether a validation of `uri` is in flight.
    pub fn is_pending(&self, uri: &str) -> (r: bool)
        ensures
            r == task_uris(self.tasks()).contains(uri@),
    {
        self.find(uri).is_some()
    }

    /// Where the task of `uri` stands, if there is one.
    fn find(&self, uri: &str) -> (r: Option<usize>)
        ensures
            match r {
                Some(j) => j < self.tasks().len() && self.tasks()[j as int].0 == uri@
                    && task_uris(self.tasks()).contains(uri@),
                None => !task_uris(self.tasks()).contains(uri@),
            },
    {
        let u = uri.to_owned();
        let mut i: usize = 0;
        while i < self.pending.len()
            invariant
                i <= self.pending@.len(),
                u@ == uri@,
                forall|k: int| 0 <= k < i ==> self.pending@[k].0@ != uri@,
            decreases self.pending.len() - i,
        {
            if self.pending[i].0 == u {
                assert(task_uris(self.tasks())[i as int] == uri@);
                return Some(i);
            }
            i = i + 1;
        }
        assert forall|k: int| 0 <= k < task_uris(self.tasks()).len() implies task_uris(
            self.tasks(),
        )[k] != uri@ by {
            assert(task_uris(self.tasks())[k] == self.pending@[k].0@);
        }
        None
    }

    /// Cancels the validation in flight for `uri`, if any: its task is no longer
    /// tracked and is returned, to be aborted.
    pub fn cancel(&mut self, uri: &str) -> (r: Option<JoinHandle<()>>)
        requires
            old(self).wf(),
        ensures
            final(self).wf(),
            without_task(old(self).tasks(), final(self).tasks(), uri@),
            handed_back(old(self).tasks(), uri@, r),
    {
        let ghost before = self.tasks();
        match self.find(uri) {
            Some(j) => {
                let (_, handle) = self.pending.remove(j);
                assert(before[j as int] == (uri@, handle));
                assert(self.tasks() =~= before.remove(j as int));
                assert(task_uris(self.tasks()) =~= task_uris(before).remove(j as int));
                proof {
                    lemma_remove_unique(task_uris(before), j as int);
                }
                assert(task_uris(before)[j as int] == uri@);
                Some(handle)
            },
            None => None,
        }
    }

    /// Tracks `handle` as the validation of `uri`, cancelling the one in flight for
    /// it, if any, which is returned to be aborted.
    pub fn register(&mut self, uri: String, handle: JoinHandle<()>) -> (r: Option<JoinHandle<()>>)
        requires
            old(self).wf(),
        ensures
            final(self).wf(),
            exists|mid: Seq<(Seq<char>, JoinHandle<()>)>|
                without_task(old(self).tasks(), mid, uri@) && final(self).tasks() == mid.push((uri@, handle)),
            handed_back(old(self).tasks(), uri@, r),
    {
        let replaced = self.cancel(uri.as_str());
        let ghost mid = self.tasks();
        let ghost u = uri@;
        self.pending.push((uri, handle));
        assert(self.tasks() =~= mid.push((u, handle)));
        assert(task_uris(self.tasks()) =~= task_uris(mid).push(u));
        assert(task_uris(self.tasks()).no_duplicates()) by {
            let t = task_uris(self.tasks());
            assert forall|a: int, b: int| 0 <= a < b < t.len() implies t[a] != t[b] by {
                if b == mid.len() {
                    assert(task_uris(mid)[a] == t[a]);
                } else {
                    assert(task_uris(mid)[a] == t[a] && task_uris(mid)[b] == t[b]);
                }
            }
        }
        replaced
    }

    /// Stops tracking `uri` when its file closes (`didClose`), cancelling its
    /// validation: the task, if any, is returned to be aborted.
    pub fn remove(&mut self, uri: &str) -> (r: Option<JoinHandle<()>>)
        requires
            old(self).wf(),
        ensures
            final(self).wf(),
            without_task(old(self).tasks(), final(self).tasks(), uri@),
            handed_back(old(self).tasks(), uri@, r),
    {
        self.cancel(uri)
    }
}

/// Taking the task of `uri` out keeps the task of every other URI.
proof fn lemma_without_task_keeps(
    before: Seq<(Seq<char>, JoinHandle<()>)>,
    after: Seq<(Seq<char>, JoinHandle<()>)>,
    uri: Seq<char>,
    other: Seq<char>,
)
    requires
        without_task(before, after, uri),
        other != uri,
    ensures
        task_uris(after).contains(other) <==> task_uris(before).contains(other),
{
    if task_uris(before).contains(uri) {
        let j = choose|j: int| 0 <= j < before.len() && before[j].0 == uri && after == before.remove(j);
        assert(task_uris(after) =~= task_uris(before).remove(j));
        if task_uris(before).contains(other) {
            let k = choose|k: int| 0 <= k < task_uris(before).len() && task_uris(before)[k] == other;
            if k < j {
                assert(task_uris(after)[k] == other);
            } else {
                assert(task_uris(after)[k - 1] == other);
            }
        }
        if task_uris(after).contains(other) {
            let k = choose|k: int| 0 <= k < task_uris(after).len() && task_uris(after)[k] == other;
            if k < j {
                assert(task_uris(before)[k] == other);
            } else {
                assert(task_uris(before)[k + 1] == other);
            }
        }
    }
}

/// Once a validation is cancelled, no task is tracked for its URI, and every other
/// URI keeps its task.
pub proof fn law_cancel_untracks(before: ShaderState, after: ShaderState, uri: Seq<char>, other: Seq<char>)
    requires
        without_task(before.tasks(), after.tasks(), uri),
        other != uri,
    ensures
        !task_uris(after.tasks()).contains(uri),
        task_uris(after.tasks()).contains(other) <==> task_uris(before.tasks()).contains(other),
{
    lemma_without_task_keeps(before.tasks(), after.tasks(), uri, other);
}

/// A newly registered validation replaces the one in flight for its URI: the task
/// handed back to be aborted is exactly the one tracked for the URI before (none
/// when there was none), the new task is the last one tracked, its URI has exactly
/// one task, and every other URI keeps its task.
pub proof fn law_register_replaces(
    before: ShaderState,
    after: ShaderState,
    uri: Seq<char>,
    handle: JoinHandle<()>,
    replaced: Option<JoinHandle<()>>,
    other: Seq<char>,
)
    requires
        after.wf(),
        exists|mid: Seq<(Seq<char>, JoinHandle<()>)>|
            without_task(before.tasks(), mid, uri) && after.tasks() == mid.push((uri, handle)),
        handed_back(before.tasks(), uri, replaced),
        other != uri,
    ensures
        replaced is Some <==> task_uris(before.tasks()).contains(uri),
        replaced matches Some(h) ==> exists|j: int|
            0 <= j < before.tasks().len() && before.tasks()[j] == (uri, h),
        after.tasks().last() == (uri, handle),
        task_uris(after.tasks()).contains(uri),
        forall|j: int| 0 <= j < after.tasks().len() && after.tasks()[j].0 == uri ==> j == after.tasks().len() - 1,
        task_uris(after.tasks()).contains(other) <==> task_uris(before.tasks()).contains(other),
{
    let mid = choose|mid: Seq<(Seq<char>, JoinHandle<()>)>|
        without_task(before.tasks(), mid, uri) && after.tasks() == mid.push((uri, handle));
    if let Some(h) = replaced {
        let j = choose|j: int| 0 <= j < before.tasks().len() && before.tasks()[j] == (uri, h);
        assert(task_uris(before.tasks())[j] == uri);
    }
    let n = after.tasks().len() - 1;
    assert(task_uris(after.tasks())[n] == uri);
    assert forall|j: int| 0 <= j < after.tasks().len() && after.tasks()[j].0 == uri implies j == n by {
        if j != n {
            assert(task_uris(after.tasks())[j] == task_uris(after.tasks())[n]);
        }
    }
    lemma_without_task_keeps(before.tasks(), mid, uri, other);
    assert(task_uris(after.tasks()) =~= task_uris(mid).push(uri));
    if task_uris(mid).contains(other) {
        let k = choose|k: int| 0 <= k < task_uris(mid).len() && task_uris(mid)[k] == other;
        assert(task_uris(after.tasks())[k] == other);
    }
    if task_uris(after.tasks()).contains(other) {
        let k = choose|k: int| 0 <= k < task_uris(after.tasks()).len() && task_uris(after.tasks())[k] == other;
        assert(task_uris(mid)[k] == other);
    }
}

impl Default for ShaderState {
    fn default() -> (r: ShaderState)
        ensures
            r.wf(),
            r.tasks() == Seq::<(Seq<char>, JoinHandle<()>)>::empty(),
    {
        ShaderState::new()
    }
}


// ── Paths inside a Godot project ─────────────────────────────────────────────

/// What `std::path::Path::parent` gives for the path `p`, as text, under the path
/// syntax of the platform the crate is built for.
pub uninterp spec fn path_parent(p: Seq<char>) -> Option<Seq<char>>;

/// Calls std's `Path::parent` on `p`.  The contract names the result
/// `path_parent(p@)` and claims nothing else of it; std documents it as the path
/// without its final component, or `None` for a root or an empty path.
#[verifier::external_body]
fn parent_of(p: &str) -> (r: Option<String>)
    ensures
        match r {
            Some(q) => path_parent(p@) == Some(q@),
            None => path_parent(p@) is None,
        },
{
    std::path::Path::new(p).parent().map(|q| q.to_string_lossy().into_owned())
}

/// What `std::path::Path::strip_prefix` gives for `p` and `base`, as text, under the
/// path syntax of the platform the crate is built for.
pub uninterp spec fn path_strip_prefix(p: Seq<char>, base: Seq<char>) -> Option<Seq<char>>;

/// Calls std's `Path::strip_prefix` on `p` and `base`.  The contract names the result
/// `path_strip_prefix(p@, base@)` and claims nothing else of it; std documents it as
/// the rest of `p` after the components of `base`, or an error (here `None`) when
/// `base` is not a prefix of `p` component by component.
#[verifier::external_body]
fn strip_path_prefix(p: &str, base: &str) -> (r: Option<String>)
    ensures
        match r {
            Some(q) => path_strip_prefix(p@, base@) == Some(q@),
            None => path_strip_prefix(p@, base@) is None,
        },
{
    std::path::Path::new(p).strip_prefix(base).ok().map(|q| q.to_string_lossy().into_owned())
}

/// The directory where the search for `project.godot` starts: the file's directory
/// when `path` is a file, else `path` itself.
pub open spec fn spec_search_start(path: Seq<char>, is_file: bool) -> Option<Seq<char>> {
    if is_file {
        path_parent(path)
    } else {
        Some(path)
    }
}

/// Where the search for the project root starts, given whether `path` names a
/// file; `None` when a file path has no parent.
pub fn root_search_start(path: &str, is_file: bool) -> (r: Option<String>)
    ensures
        match r {
            Some(d) => spec_search_start(path@, is_file) == Some(d@),
            None => spec_search_start(path@, is_file) is None,
        },
{
    if is_file {
        parent_of(path)
    } else {
        Some(path.to_owned())
    }
}

/// One step of the walk up to the directory that holds `project.godot`.
#[derive(Debug)]
pub enum RootStep {
    /// `dir` holds `project.godot`: it is the project root.
    Found(String),
    /// Look in this directory next.
    Up(String),
    /// The walk reached the top without finding a project.
    NotFound,
}

/// Decides the walk at `dir`, given whether `dir/project.godot` exists: the root is
/// found there, or the walk goes on in the parent directory, or stops at the top.
pub fn root_search_step(dir: &str, has_project_file: bool) -> (r: RootStep)
    ensures
        has_project_file ==> (r matches RootStep::Found(d) && d@ == dir@),
        !has_project_file ==> match path_parent(dir@) {
            Some(p) => r matches RootStep::Up(q) && q@ == p,
            None => r is NotFound,
        },
{
    if has_project_file {
        RootStep::Found(dir.to_owned())
    } else {
        match parent_of(dir) {
            Some(p) => RootStep::Up(p),
            None => RootStep::NotFound,
        }
    }
}

/// `s` with every backslash turned into a forward slash.
pub open spec fn forward_slashes(s: Seq<char>) -> Seq<char> {
    s.map_values(|c: char| if c == '\\' { '/' } else { c })
}

/// The `res://` path of `file_path` inside the project rooted at `project_root`:
/// the relative path with forward slashes, after `res://`; `None` when the file is
/// not inside the root.
pub fn to_res_path(file_path: &str, project_root: &str) -> (r: Option<String>)
    ensures
        match path_strip_prefix(file_path@, project_root@) {
            Some(rel) => r matches Some(s) && s@ == "res://"@ + forward_slashes(rel),
            None => r is None,
        },
{
    match strip_path_prefix(file_path, project_root) {
        None => None,
        Some(rel) => {
            let c = chars_of(rel.as_str());
            let mut out = "res://".to_owned();
            let ghost start = out@;
            let mut i: usize = 0;
            while i < c.len()
                invariant
                    i <= c@.len(),
                    out@ == start + forward_slashes(c@.take(i as int)),
                decreases c.len() - i,
            {
                let ch = if c[i] == '\\' { '/' } else { c[i] };
                push_char(&mut out, ch);
                assert(forward_slashes(c@.take(i + 1)) =~= forward_slashes(c@.take(i as int)).push(ch));
                i = i + 1;
            }
            assert(c@.take(i as int) =~= c@);
            Some(out)
        },
    }
}

/// The arguments Godot runs with to validate a shader: headless, in the project at
/// `project_root`, running the script at `script_path` on the shader `res_path`.
pub fn godot_args(project_root: &str, script_path: &str, res_path: &str) -> (r: Vec<String>)
    ensures
        r@.len() == 7,
        r@[0]@ == "--headless"@,
        r@[1]@ == "--path"@,
        r@[2]@ == project_root@,
        r@[3]@ == "--script"@,
        r@[4]@ == script_path@,
        r@[5]@ == "--"@,
        r@[6]@ == res_path@,
{
    let mut v: Vec<String> = Vec::new();
    v.push("--headless".to_owned());
    v.push("--path".to_owned());
    v.push(project_root.to_owned());
    v.push("--script".to_owned());
    v.push(script_path.to_owned());
    v.push("--".to_owned());
    v.push(res_path.to_owned());
    v
}

} // verus!
