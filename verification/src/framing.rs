//! JSON-RPC message framing for the Language Server Protocol.
//!
//! LSP messages use HTTP-style headers to delimit payloads:
//!
//! ```text
//! Content-Length: <N>\r\n
//! \r\n
//! <N bytes of JSON>
//! ```
//!
//! Header lines are read one at a time (up to and including `\n`) and fed to a
//! [`HeaderReader`], which decides whether to keep reading headers, to read a body
//! of a given length, or to fail.  [`decode_frame`] runs the same reader over a
//! complete byte buffer; [`frame_header`] and [`encode_frame`] build frames.
//! The central law, [`lemma_decode_encode`], states that decoding an encoded frame
//! gives back the body.

use vstd::prelude::*;
use vstd::utf8::{decode_utf8, encode_utf8, encode_utf8_decode_utf8, encode_utf8_valid_utf8, is_ascii_chars, is_ascii_chars_encode_utf8, valid_utf8};
use crate::text::{
    chars_of, decimal, decimal_chars, digits_value, has_prefix, is_ws, lemma_decimal,
    matches_at, parse_uint, parse_uint_chars, push_decimal, push_str, trim_bounds, trim_end_ws,
    trim_start_ws, trim_ws, all_digits, is_digit,
};

verus! {

/// Maximum permitted message body size (64 MiB).
///
/// Protects against runaway allocations from malformed `Content-Length` values.
pub const MAX_MESSAGE_SIZE: usize = 64 * 1024 * 1024;

/// Why a frame could not be read.
#[derive(Debug, Clone, Copy, PartialEq, Eq, Structural)]
pub enum FrameError {
    /// A header line is not valid UTF-8.
    HeaderNotUtf8,
    /// The input ended after some header bytes but before the blank separator line.
    HeadersEof,
    /// The value of a `Content-Length` header is not an unsigned integer.
    InvalidLength,
    /// The headers ended without a `Content-Length` header.
    MissingLength,
    /// The declared body length exceeds [`MAX_MESSAGE_SIZE`].
    TooLarge(usize),
    /// The input ended before the declared number of body bytes.
    BodyTruncated,
}

/// The text that describes a [`FrameError`].
pub open spec fn frame_error_text(e: FrameError) -> Seq<char> {
    match e {
        FrameError::HeaderNotUtf8 => "failed to read LSP header line"@,
        FrameError::HeadersEof => "unexpected EOF while reading LSP headers"@,
        FrameError::InvalidLength => "invalid Content-Length value"@,
        FrameError::MissingLength => "LSP message missing Content-Length header"@,
        FrameError::TooLarge(n) => "Content-Length "@ + decimal(n as nat)
            + " exceeds maximum allowed size "@ + decimal(MAX_MESSAGE_SIZE as nat),
        FrameError::BodyTruncated => "failed to read LSP message body"@,
    }
}

impl FrameError {
    /// A human-readable description of the error.
    pub fn message(&self) -> (r: String)
        ensures
            r@ == frame_error_text(*self),
    {
        match self {
            FrameError::HeaderNotUtf8 => "failed to read LSP header line".to_owned(),
            FrameError::HeadersEof => "unexpected EOF while reading LSP headers".to_owned(),
            FrameError::InvalidLength => "invalid Content-Length value".to_owned(),
            FrameError::MissingLength => "LSP message missing Content-Length header".to_owned(),
            FrameError::TooLarge(n) => {
                let mut s = "Content-Length ".to_owned();
                push_decimal(&mut s, *n as u64);
                push_str(&mut s, " exceeds maximum allowed size ");
                push_decimal(&mut s, MAX_MESSAGE_SIZE as u64);
                s
            },
            FrameError::BodyTruncated => "failed to read LSP message body".to_owned(),
        }
    }
}

/// What one header line means.
#[derive(Debug, Clone, Copy, PartialEq, Eq, Structural)]
pub enum HeaderLine {
    /// The blank line that ends the headers.
    Blank,
    /// A `Content-Length` header with a valid value.
    Length(usize),
    /// A `Content-Length` header whose value is not an unsigned integer.
    BadLength,
    /// Any other header; it is ignored.
    Other,
}

/// The name of the length header, with its colon.
pub open spec fn content_length_prefix() -> Seq<char> {
    seq!['C', 'o', 'n', 't', 'e', 'n', 't', '-', 'L', 'e', 'n', 'g', 't', 'h', ':']
}

/// `s` without its trailing `'\r'` and `'\n'` characters.
pub open spec fn trim_end_newlines(s: Seq<char>) -> Seq<char>
    decreases s.len(),
{
    if s.len() > 0 && (s.last() == '\r' || s.last() == '\n') {
        trim_end_newlines(s.drop_last())
    } else {
        s
    }
}

/// The meaning of a header line (which may end with its line terminator).
pub open spec fn spec_classify(line: Seq<char>) -> HeaderLine {
    let t = trim_end_newlines(line);
    if t.len() == 0 {
        HeaderLine::Blank
    } else if has_prefix(t, content_length_prefix()) {
        match parse_uint(trim_ws(t.skip(15)), usize::MAX as nat) {
            Some(n) => HeaderLine::Length(n as usize),
            None => HeaderLine::BadLength,
        }
    } else {
        HeaderLine::Other
    }
}

/// Classifies one header line, as read up to and including its `'\n'`.
pub fn classify_header_line(line: &str) -> (r: HeaderLine)
    ensures
        r == spec_classify(line@),
{
    let c = chars_of(line);
    let mut end = c.len();
    assert(c@.take(c@.len() as int) =~= c@);
    while end > 0 && (c[end - 1] == '\r' || c[end - 1] == '\n')
        invariant
            end <= c@.len(),
            trim_end_newlines(c@.take(end as int)) == trim_end_newlines(c@),
        decreases end,
    {
        assert(c@.take(end as int).drop_last() =~= c@.take(end - 1));
        end = end - 1;
    }
    assert(c@.take(c@.len() as int) =~= c@);
    let ghost t = c@.take(end as int);
    assert(t == trim_end_newlines(c@));
    if end == 0 {
        return HeaderLine::Blank;
    }
    let prefix = vec!['C', 'o', 'n', 't', 'e', 'n', 't', '-', 'L', 'e', 'n', 'g', 't', 'h', ':'];
    assert(prefix@ =~= content_length_prefix());
    let is_length = if end >= 15 {
        matches_at(&c, 0, &prefix)
    } else {
        false
    };
    assert(c@.skip(0) =~= c@);
    assert(is_length ==> t.take(15) =~= c@.take(15));
    assert(!is_length ==> !has_prefix(t, content_length_prefix())) by {
        if end >= 15 && has_prefix(t, content_length_prefix()) {
            assert(c@.take(15) =~= t.take(15));
        }
    }
    if !is_length {
        return HeaderLine::Other;
    }
    let (a, b) = trim_bounds(&c, 15, end);
    assert(c@.subrange(15, end as int) =~= t.skip(15));
    match parse_uint_chars(&c, a, b, usize::MAX) {
        Some(n) => HeaderLine::Length(n),
        None => HeaderLine::BadLength,
    }
}

/// The state of header parsing for one message.
#[derive(Debug, Clone, Copy, PartialEq, Eq, Structural)]
pub struct HeaderReader {
    /// The value of the last `Content-Length` header seen so far.
    pub content_length: Option<usize>,
    /// Whether any header line has been read.
    pub saw_any: bool,
}

/// What to do after a header line.
#[derive(Debug, Clone, Copy, PartialEq, Eq, Structural)]
pub enum LineStep {
    /// Read the next header line.
    Continue,
    /// The headers are complete: read exactly this many body bytes.
    Body(usize),
    /// The message is malformed.
    Fail(FrameError),
}

/// The reader state and the decision after `line` is read in state `r`.
pub open spec fn spec_step(r: HeaderReader, line: Seq<char>) -> (HeaderReader, LineStep) {
    let next = HeaderReader { saw_any: true, ..r };
    match spec_classify(line) {
        HeaderLine::Blank => (
            next,
            match r.content_length {
                None => LineStep::Fail(FrameError::MissingLength),
                Some(n) => if n > MAX_MESSAGE_SIZE {
                    LineStep::Fail(FrameError::TooLarge(n))
                } else {
                    LineStep::Body(n)
                },
            },
        ),
        HeaderLine::Length(n) => (HeaderReader { content_length: Some(n), ..next }, LineStep::Continue),
        HeaderLine::BadLength => (next, LineStep::Fail(FrameError::InvalidLength)),
        HeaderLine::Other => (next, LineStep::Continue),
    }
}

/// The state before the first header line of a message.
pub open spec fn initial_reader() -> HeaderReader {
    HeaderReader { content_length: None, saw_any: false }
}

impl HeaderReader {
    /// A reader that has seen no header line yet.
    pub fn new() -> (r: HeaderReader)
        ensures
            r == initial_reader(),
    {
        HeaderReader { content_length: None, saw_any: false }
    }

    /// Feeds one header line (read up to and including its `'\n'`).
    pub fn on_line(&mut self, line: &str) -> (step: LineStep)
        ensures
            (*final(self), step) == spec_step(*old(self), line@),
    {
        self.saw_any = true;
        match classify_header_line(line) {
            HeaderLine::Blank => match self.content_length {
                None => LineStep::Fail(FrameError::MissingLength),
                Some(n) => if n > MAX_MESSAGE_SIZE {
                    LineStep::Fail(FrameError::TooLarge(n))
                } else {
                    LineStep::Body(n)
                },
            },
            HeaderLine::Length(n) => {
                self.content_length = Some(n);
                LineStep::Continue
            },
            HeaderLine::BadLength => LineStep::Fail(FrameError::InvalidLength),
            HeaderLine::Other => LineStep::Continue,
        }
    }

    /// What the end of the input means in this state: `None` for a clean end before
    /// any header byte, otherwise the error.
    pub fn on_eof(&self) -> (r: Option<FrameError>)
        ensures
            r == (if self.saw_any {
                Some(FrameError::HeadersEof)
            } else {
                None
            }),
    {
        if self.saw_any {
            Some(FrameError::HeadersEof)
        } else {
            None
        }
    }
}

/// The position just after the line that starts at `pos` (after its `'\n'`, or the
/// end of the input when there is no `'\n'`).
pub open spec fn next_line_end(input: Seq<u8>, pos: int) -> int
    decreases input.len() - pos,
{
    if pos >= input.len() {
        input.len() as int
    } else if input[pos] == 10 {
        pos + 1
    } else {
        next_line_end(input, pos + 1)
    }
}

/// A line that starts inside the input ends after it starts, inside the input.
pub proof fn lemma_next_line_end(input: Seq<u8>, pos: int)
    requires
        0 <= pos < input.len(),
    ensures
        pos < next_line_end(input, pos) <= input.len(),
    decreases input.len() - pos,
{
    if input[pos] != 10 {
        if pos + 1 < input.len() {
            lemma_next_line_end(input, pos + 1);
        } else {
            assert(next_line_end(input, pos + 1) == input.len());
        }
    }
}

/// A line with no `'\n'` before position `k`, where `input[k]` is `'\n'`, ends at `k + 1`.
pub proof fn lemma_next_line_end_at(input: Seq<u8>, pos: int, k: int)
    requires
        0 <= pos <= k < input.len(),
        input[k] == 10,
        forall|j: int| pos <= j < k ==> input[j] != 10,
    ensures
        next_line_end(input, pos) == k + 1,
    decreases k - pos,
{
    if pos < k {
        lemma_next_line_end_at(input, pos + 1, k);
    }
}

/// The outcome of reading headers from `input`, starting at `pos` in state `r`:
/// `Ok(None)` for a clean end of input, `Ok(Some((n, start)))` when the headers
/// announce a body of `n` bytes that starts at `start`, or the error.
pub open spec fn scan_headers(input: Seq<u8>, pos: int, r: HeaderReader) -> Result<
    Option<(usize, int)>,
    FrameError,
>
    decreases input.len() - pos,
{
    if pos < 0 || pos >= input.len() {
        if r.saw_any {
            Err(FrameError::HeadersEof)
        } else {
            Ok(None)
        }
    } else {
        let end = next_line_end(input, pos);
        let line = input.subrange(pos, end);
        if !valid_utf8(line) {
            Err(FrameError::HeaderNotUtf8)
        } else {
            let (next, step) = spec_step(r, decode_utf8(line));
            match step {
                LineStep::Continue => {
                    proof {
                        lemma_next_line_end(input, pos);
                    }
                    scan_headers(input, end, next)
                },
                LineStep::Body(n) => Ok(Some((n, end))),
                LineStep::Fail(e) => Err(e),
            }
        }
    }
}

/// The outcome of reading one message from the start of `input`: `Ok(None)` when the
/// input is empty, `Ok(Some((body, consumed)))` for a complete message, or the error.
pub open spec fn spec_decode_frame(input: Seq<u8>) -> Result<Option<(Seq<u8>, int)>, FrameError> {
    match scan_headers(input, 0, initial_reader()) {
        Err(e) => Err(e),
        Ok(None) => Ok(None),
        Ok(Some((n, start))) => if start + n > input.len() {
            Err(FrameError::BodyTruncated)
        } else {
            Ok(Some((input.subrange(start, start + n), start + n)))
        },
    }
}

/// Calls `std::str::from_utf8`; the contract claims that it succeeds exactly when
/// `bytes` are valid UTF-8 and then gives the characters they encode (vstd's
/// `valid_utf8` and `decode_utf8`).
#[verifier::external_body]
fn str_from_utf8<'a>(bytes: &'a [u8]) -> (r: Option<&'a str>)
    ensures
        r is Some <==> valid_utf8(bytes@),
        r matches Some(s) ==> s@ == decode_utf8(bytes@),
{
    std::str::from_utf8(bytes).ok()
}

/// Executable [`next_line_end`].
fn line_end(input: &[u8], pos: usize) -> (r: usize)
    requires
        pos < input@.len(),
    ensures
        r as int == next_line_end(input@, pos as int),
{
    let mut i = pos;
    while i < input.len() && input[i] != 10
        invariant
            pos <= i <= input@.len(),
            next_line_end(input@, i as int) == next_line_end(input@, pos as int),
        decreases input@.len() - i,
    {
        i = i + 1;
    }
    if i < input.len() {
        i + 1
    } else {
        i
    }
}

/// Reads one message from the start of `input`.
///
/// Returns `Ok(None)` when `input` is empty, and otherwise the body of the first
/// message together with the number of bytes it occupies (headers included).
pub fn decode_frame(input: &[u8]) -> (r: Result<Option<(Vec<u8>, usize)>, FrameError>)
    ensures
        spec_decode_frame(input@) == match r {
            Err(e) => Err(e),
            Ok(None) => Ok(None),
            Ok(Some((body, k))) => Ok(Some((body@, k as int))),
        },
{
    let mut reader = HeaderReader::new();
    let mut pos: usize = 0;
    loop
        invariant
            pos <= input@.len(),
            scan_headers(input@, pos as int, reader) == scan_headers(input@, 0, initial_reader()),
        decreases input@.len() - pos,
    {
        if pos >= input.len() {
            return match reader.on_eof() {
                Some(e) => Err(e),
                None => Ok(None),
            };
        }
        let end = line_end(input, pos);
        proof {
            lemma_next_line_end(input@, pos as int);
        }
        let line = &input[pos..end];
        match str_from_utf8(line) {
            None => {
                return Err(FrameError::HeaderNotUtf8);
            },
            Some(s) => {
                match reader.on_line(s) {
                    LineStep::Continue => {
                        pos = end;
                    },
                    LineStep::Fail(e) => {
                        return Err(e);
                    },
                    LineStep::Body(n) => {
                        if n > input.len() - end {
                            return Err(FrameError::BodyTruncated);
                        }
                        let mut body: Vec<u8> = Vec::new();
                        let stop = end + n;
                        let mut i: usize = end;
                        while i < stop
                            invariant
                                stop == end + n,
                                end <= i <= stop <= input@.len(),
                                body@ == input@.subrange(end as int, i as int),
                            decreases stop - i,
                        {
                            body.push(input[i]);
                            i = i + 1;
                            assert(body@ =~= input@.subrange(end as int, i as int));
                        }
                        return Ok(Some((body, stop)));
                    },
                }
            },
        }
    }
}

/// The characters of the header that announces a body of `n` bytes.
pub open spec fn header_chars(n: nat) -> Seq<char> {
    content_length_prefix().push(' ') + decimal(n) + seq!['\r', '\n', '\r', '\n']
}

/// The bytes of the header that announces a body of `n` bytes.
pub open spec fn spec_frame_header(n: nat) -> Seq<u8> {
    encode_utf8(header_chars(n))
}

/// The complete frame of `body`: its header, then the body itself.
pub open spec fn spec_encode_frame(body: Seq<u8>) -> Seq<u8> {
    spec_frame_header(body.len()) + body
}

/// The header is ASCII.
pub proof fn lemma_header_ascii(n: nat)
    ensures
        is_ascii_chars(header_chars(n)),
        header_chars(n).len() == 20 + decimal(n).len(),
{
    lemma_decimal(n);
    let p = content_length_prefix().push(' ');
    let d = decimal(n);
    let e = seq!['\r', '\n', '\r', '\n'];
    let h = header_chars(n);
    assert forall|i: int| 0 <= i < h.len() implies '\0' <= #[trigger] h[i] <= '\u{7f}' by {
        if i < p.len() {
            assert(h[i] == p[i]);
        } else if i < p.len() + d.len() {
            assert(h[i] == d[i - p.len()]);
        } else {
            assert(h[i] == e[i - p.len() - d.len()]);
        }
    }
}

/// The header bytes `Content-Length: <len>\r\n\r\n` for a body of `len` bytes.
pub fn frame_header(len: usize) -> (r: Vec<u8>)
    ensures
        r@ == spec_frame_header(len as nat),
{
    let mut chars = vec!['C', 'o', 'n', 't', 'e', 'n', 't', '-', 'L', 'e', 'n', 'g', 't', 'h', ':', ' '];
    let digits = decimal_chars(len as u64);
    let mut i: usize = 0;
    while i < digits.len()
        invariant
            i <= digits@.len(),
            chars@ == content_length_prefix().push(' ') + digits@.take(i as int),
        decreases digits.len() - i,
    {
        chars.push(digits[i]);
        i = i + 1;
        assert(chars@ =~= content_length_prefix().push(' ') + digits@.take(i as int));
    }
    chars.push('\r');
    chars.push('\n');
    chars.push('\r');
    chars.push('\n');
    assert(digits@.take(digits@.len() as int) =~= digits@);
    assert(chars@ =~= header_chars(len as nat));
    proof {
        lemma_header_ascii(len as nat);
        is_ascii_chars_encode_utf8(chars@);
    }
    let mut out: Vec<u8> = Vec::new();
    let mut j: usize = 0;
    while j < chars.len()
        invariant
            j <= chars@.len(),
            chars@ == header_chars(len as nat),
            is_ascii_chars(chars@),
            out@ == Seq::new(j as nat, |k: int| chars@[k] as u8),
        decreases chars.len() - j,
    {
        let ch = chars[j];
        assert('\0' <= chars@[j as int] <= '\u{7f}');
        out.push(ch as u8);
        j = j + 1;
        assert(out@ =~= Seq::new(j as nat, |k: int| chars@[k] as u8));
    }
    assert(out@ =~= encode_utf8(chars@));
    out
}

/// The complete frame of `body`: `Content-Length: <len>\r\n\r\n` followed by `body`.
pub fn encode_frame(body: &[u8]) -> (r: Vec<u8>)
    ensures
        r@ == spec_encode_frame(body@),
{
    let mut out = frame_header(body.len());
    let ghost h = out@;
    let mut i: usize = 0;
    while i < body.len()
        invariant
            i <= body@.len(),
            out@ == h + body@.take(i as int),
        decreases body.len() - i,
    {
        out.push(body[i]);
        i = i + 1;
        assert(out@ =~= h + body@.take(i as int));
    }
    assert(body@.take(body@.len() as int) =~= body@);
    out
}

/// Decoding the frame of `body`, whatever follows it, gives back `body` and the
/// length of the frame.  (A body longer than [`MAX_MESSAGE_SIZE`] is refused by the
/// decoder, so the law is stated for bodies no longer than that.)
pub proof fn lemma_decode_encode(body: Seq<u8>, rest: Seq<u8>)
    requires
        body.len() <= MAX_MESSAGE_SIZE,
    ensures
        spec_decode_frame(spec_encode_frame(body) + rest) == Ok::<Option<(Seq<u8>, int)>, FrameError>(
            Some((body, spec_encode_frame(body).len() as int)),
        ),
{
    let n = body.len();
    let h = header_chars(n);
    let d = decimal(n);
    let dl = d.len() as int;
    lemma_header_ascii(n);
    lemma_decimal(n);
    is_ascii_chars_encode_utf8(h);
    let hb = encode_utf8(h);
    assert(hb =~= Seq::new(h.len(), |i: int| h[i] as u8));
    let input = spec_encode_frame(body) + rest;
    assert(input =~= hb + body + rest);
    let p = content_length_prefix().push(' ');
    assert(p.len() == 16);
    assert forall|i: int| 0 <= i < h.len() implies #[trigger] input[i] == h[i] as u8 by {
        assert(input[i] == hb[i]);
    }
    assert(forall|i: int| 0 <= i < 16 ==> h[i] == p[i]);
    assert(forall|i: int| 0 <= i < dl ==> h[16 + i] == d[i]);
    assert(h[16 + dl] == '\r');
    assert(h[17 + dl] == '\n');
    assert(h[18 + dl] == '\r');
    assert(h[19 + dl] == '\n');
    // The first line: `Content-Length: <n>\r\n`.
    assert forall|j: int| 0 <= j < 17 + dl implies input[j] != 10 by {
        if j < 16 {
            assert(input[j] == p[j] as u8);
        } else if j < 16 + dl {
            assert(input[j] == d[j - 16] as u8);
            assert(is_digit(d[j - 16]));
        } else {
            assert(input[j] == '\r' as u8);
        }
    }
    lemma_next_line_end_at(input, 0, 17 + dl);
    let l1 = h.take(18 + dl);
    assert(is_ascii_chars(l1));
    is_ascii_chars_encode_utf8(l1);
    assert(input.subrange(0, 18 + dl) =~= encode_utf8(l1));
    encode_utf8_valid_utf8(l1);
    encode_utf8_decode_utf8(l1);
    let t = h.take(16 + dl);
    assert(l1.drop_last() =~= h.take(17 + dl));
    assert(h.take(17 + dl).drop_last() =~= t);
    assert(t.last() == d[dl - 1]);
    assert(is_digit(d[dl - 1]));
    assert(trim_end_newlines(t) == t);
    assert(l1.last() == '\n');
    assert(h.take(17 + dl).last() == '\r');
    assert(trim_end_newlines(h.take(17 + dl)) == trim_end_newlines(t));
    assert(trim_end_newlines(l1) == trim_end_newlines(h.take(17 + dl)));
    assert(trim_end_newlines(l1) == t);
    assert(t.take(15) =~= content_length_prefix());
    let v = t.skip(15);
    assert(v.drop_first() =~= d);
    assert(v[0] == ' ');
    assert(trim_start_ws(d) == d);
    assert(trim_start_ws(v) == d);
    assert(d.last() == d[dl - 1]);
    assert(trim_end_ws(d) == d);
    assert(trim_ws(v) == d);
    assert(parse_uint(d, usize::MAX as nat) == Some(n));
    assert(spec_classify(l1) == HeaderLine::Length(n as usize));
    let r1 = HeaderReader { content_length: Some(n as usize), saw_any: true };
    assert(spec_step(initial_reader(), l1) == (r1, LineStep::Continue));
    // The second line: `\r\n`.
    assert(input[18 + dl] == 13);
    assert(input[19 + dl] == 10);
    lemma_next_line_end_at(input, 18 + dl, 19 + dl);
    let l2 = seq!['\r', '\n'];
    assert(is_ascii_chars(l2));
    is_ascii_chars_encode_utf8(l2);
    assert(input.subrange(18 + dl, 20 + dl) =~= encode_utf8(l2));
    encode_utf8_valid_utf8(l2);
    encode_utf8_decode_utf8(l2);
    assert(l2.drop_last() =~= seq!['\r']);
    assert(seq!['\r'].drop_last() =~= Seq::<char>::empty());
    assert(trim_end_newlines(Seq::<char>::empty()) == Seq::<char>::empty());
    assert(l2.last() == '\n');
    assert(seq!['\r'].last() == '\r');
    assert(trim_end_newlines(seq!['\r']) == trim_end_newlines(Seq::<char>::empty()));
    assert(trim_end_newlines(l2) == trim_end_newlines(seq!['\r']));
    assert(trim_end_newlines(l2) =~= Seq::<char>::empty());
    assert(spec_classify(l2) == HeaderLine::Blank);
    assert(scan_headers(input, 18 + dl, r1) == Ok::<Option<(usize, int)>, FrameError>(
        Some((n as usize, 20 + dl)),
    ));
    assert(scan_headers(input, 0, initial_reader()) == scan_headers(input, 18 + dl, r1));
    assert(hb.len() == 20 + dl);
    assert(input.subrange(20 + dl, 20 + dl + n) =~= body);
}

/// Header scanning never announces a body longer than [`MAX_MESSAGE_SIZE`], and the
/// body it announces starts inside the input.
pub proof fn lemma_scan_headers_bounds(input: Seq<u8>, pos: int, r: HeaderReader)
    ensures
        scan_headers(input, pos, r) matches Ok(Some((n, start))) ==> n <= MAX_MESSAGE_SIZE
            && pos < start <= input.len(),
    decreases input.len() - pos,
{
    if 0 <= pos < input.len() {
        lemma_next_line_end(input, pos);
        let end = next_line_end(input, pos);
        let line = input.subrange(pos, end);
        if valid_utf8(line) {
            let (next, step) = spec_step(r, decode_utf8(line));
            if step is Continue {
                lemma_scan_headers_bounds(input, end, next);
            }
        }
    }
}

/// A decoded body is never longer than [`MAX_MESSAGE_SIZE`], and a message never
/// consumes more than the input holds: no `Content-Length` value makes the decoder
/// allocate more than the limit.
pub proof fn lemma_decode_bounded(input: Seq<u8>)
    ensures
        spec_decode_frame(input) matches Ok(Some((body, k))) ==> body.len() <= MAX_MESSAGE_SIZE
            && body.len() < k <= input.len(),
{
    lemma_scan_headers_bounds(input, 0, initial_reader());
}

/// An empty input is a clean end of the stream, and only an empty input is.
pub proof fn lemma_decode_empty(input: Seq<u8>)
    ensures
        (spec_decode_frame(input) == Ok::<Option<(Seq<u8>, int)>, FrameError>(None)) <==> input.len()
            == 0,
{
    if input.len() > 0 {
        lemma_next_line_end(input, 0);
        let end = next_line_end(input, 0);
        let line = input.subrange(0, end);
        if valid_utf8(line) {
            let (next, step) = spec_step(initial_reader(), decode_utf8(line));
            if step is Continue {
                lemma_scan_after_line(input, end, next);
            }
        }
    }
}

/// Once a header line has been read, the input can no longer end cleanly.
proof fn lemma_scan_after_line(input: Seq<u8>, pos: int, r: HeaderReader)
    requires
        r.saw_any,
    ensures
        scan_headers(input, pos, r) != Ok::<Option<(usize, int)>, FrameError>(None),
    decreases input.len() - pos,
{
    if 0 <= pos < input.len() {
        lemma_next_line_end(input, pos);
        let end = next_line_end(input, pos);
        let line = input.subrange(pos, end);
        if valid_utf8(line) {
            let (next, step) = spec_step(r, decode_utf8(line));
            if step is Continue {
                lemma_scan_after_line(input, end, next);
            }
        }
    }
}

} // verus!
