//! `file://` URIs and the local paths they name.
//!
//! Decoding is byte-wise: every `%XY` escape whose two bytes parse as a hexadecimal
//! `u8` (`u8::from_str_radix(.., 16)`, which also accepts `+X`) becomes the character
//! with that code, and every other byte becomes the character with the byte's value.
//! The two escape bytes are taken as a string slice, so an escape whose slice does not
//! start and end on character boundaries makes the decoder panic; such inputs are
//! outside the contracts, and [`uri_decodable`] tells them apart.

use vstd::prelude::*;
use vstd::utf8::{encode_utf8, is_char_boundary};
use crate::text::{chars_of, has_prefix, push_char, sub_vec, string_of};

verus! {

/// An ASCII hexadecimal digit.
pub open spec fn is_hex(b: u8) -> bool {
    (48 <= b <= 57) || (65 <= b <= 70) || (97 <= b <= 102)
}

/// The value of a hexadecimal digit.
pub open spec fn hex_val(b: u8) -> nat {
    if 48 <= b <= 57 {
        (b - 48) as nat
    } else if 65 <= b <= 70 {
        (b - 55) as nat
    } else if 97 <= b <= 102 {
        (b - 87) as nat
    } else {
        0
    }
}

/// What `u8::from_str_radix` gives for the two-byte string `b1 b2` in base 16.
pub open spec fn hex_pair(b1: u8, b2: u8) -> Option<u8> {
    if is_hex(b1) && is_hex(b2) {
        Some((hex_val(b1) * 16 + hex_val(b2)) as u8)
    } else if b1 == 43 && is_hex(b2) {
        Some(hex_val(b2) as u8)
    } else {
        None
    }
}

/// Whether a `'%'` at `i` is followed by two bytes, so that an escape is tried there.
pub open spec fn escape_at(b: Seq<u8>, i: int) -> bool {
    b[i] == 37 && i + 2 < b.len()
}

/// The decoding of `b.skip(i)`.
pub open spec fn decode_from(b: Seq<u8>, i: int) -> Seq<char>
    decreases b.len() - i,
{
    if i < 0 || i >= b.len() {
        Seq::empty()
    } else if escape_at(b, i) && hex_pair(b[i + 1], b[i + 2]) is Some {
        seq![(hex_pair(b[i + 1], b[i + 2]).unwrap()) as char] + decode_from(b, i + 3)
    } else {
        seq![b[i] as char] + decode_from(b, i + 1)
    }
}

/// Whether decoding `b.skip(i)` reaches an escape whose two bytes are not a whole
/// string slice (slicing the string there panics).
pub open spec fn decode_panics_from(b: Seq<u8>, i: int) -> bool
    decreases b.len() - i,
{
    if i < 0 || i >= b.len() {
        false
    } else if escape_at(b, i) {
        if !is_char_boundary(b, i + 1) || !is_char_boundary(b, i + 3) {
            true
        } else if hex_pair(b[i + 1], b[i + 2]) is Some {
            decode_panics_from(b, i + 3)
        } else {
            decode_panics_from(b, i + 1)
        }
    } else {
        decode_panics_from(b, i + 1)
    }
}

/// The percent-decoding of the UTF-8 bytes `b`.
pub open spec fn spec_percent_decode(b: Seq<u8>) -> Seq<char> {
    decode_from(b, 0)
}

/// Executable [`hex_pair`].
fn hex_pair_exec(b1: u8, b2: u8) -> (r: Option<u8>)
    ensures
        r == hex_pair(b1, b2),
{
    let h2: u8 = if 48 <= b2 && b2 <= 57 {
        b2 - 48
    } else if 65 <= b2 && b2 <= 70 {
        b2 - 55
    } else if 97 <= b2 && b2 <= 102 {
        b2 - 87
    } else {
        return None;
    };
    let h1: u8 = if 48 <= b1 && b1 <= 57 {
        b1 - 48
    } else if 65 <= b1 && b1 <= 70 {
        b1 - 55
    } else if 97 <= b1 && b1 <= 102 {
        b1 - 87
    } else if b1 == 43 {
        return Some(h2);
    } else {
        return None;
    };
    Some(h1 * 16 + h2)
}

/// Whether percent-decoding `s` would slice it off a character boundary.
pub fn percent_decode_panics(s: &str) -> (r: bool)
    ensures
        r == decode_panics_from(encode_utf8(s@), 0),
{
    let b = s.as_bytes();
    let mut i: usize = 0;
    while i < b.len()
        invariant
            b@ == encode_utf8(s@),
            i <= b@.len(),
            decode_panics_from(b@, i as int) == decode_panics_from(b@, 0),
        decreases b.len() - i,
    {
        if b[i] == 37 && b.len() >= 3 && i < b.len() - 2 {
            if !s.is_char_boundary(i + 1) || !s.is_char_boundary(i + 3) {
                return true;
            }
            match hex_pair_exec(b[i + 1], b[i + 2]) {
                Some(_) => {
                    i = i + 3;
                },
                None => {
                    i = i + 1;
                },
            }
        } else {
            i = i + 1;
        }
    }
    false
}

/// Minimal percent-decoding for file URIs: each `%XY` escape becomes the character
/// with code `0xXY`, and every other byte the character with the byte's value.
pub fn percent_decode(s: &str) -> (r: String)
    requires
        !decode_panics_from(encode_utf8(s@), 0),
    ensures
        r@ == spec_percent_decode(encode_utf8(s@)),
{
    let b = s.as_bytes();
    let mut out = String::new();
    let mut i: usize = 0;
    while i < b.len()
        invariant
            i <= b@.len(),
            !decode_panics_from(b@, i as int),
            out@ + decode_from(b@, i as int) == spec_percent_decode(b@),
        decreases b.len() - i,
    {
        let ghost before = out@;
        if b[i] == 37 && b.len() >= 3 && i < b.len() - 2 {
            match hex_pair_exec(b[i + 1], b[i + 2]) {
                Some(v) => {
                    push_char(&mut out, v as char);
                    assert(before + decode_from(b@, i as int) =~= out@ + decode_from(b@, i + 3));
                    i = i + 3;
                },
                None => {
                    push_char(&mut out, b[i] as char);
                    assert(before + decode_from(b@, i as int) =~= out@ + decode_from(b@, i + 1));
                    i = i + 1;
                },
            }
        } else {
            push_char(&mut out, b[i] as char);
            assert(before + decode_from(b@, i as int) =~= out@ + decode_from(b@, i + 1));
            i = i + 1;
        }
    }
    assert(out@ + decode_from(b@, i as int) =~= out@);
    out
}

/// The URI scheme of local files.
pub open spec fn file_scheme() -> Seq<char> {
    "file://"@
}

/// The bytes that follow the `file://` scheme of `uri`.
pub open spec fn uri_path_bytes(uri: Seq<char>) -> Seq<u8> {
    encode_utf8(uri.skip(file_scheme().len() as int))
}

/// Whether decoding `uri` stays on character boundaries (always true when `uri` is
/// not a `file://` URI).
pub open spec fn spec_uri_decodable(uri: Seq<char>) -> bool {
    has_prefix(uri, file_scheme()) ==> !decode_panics_from(uri_path_bytes(uri), 0)
}

/// The local path that a `file://` URI names (Unix convention).
pub open spec fn spec_uri_to_path(uri: Seq<char>) -> Option<Seq<char>> {
    if has_prefix(uri, file_scheme()) {
        Some(spec_percent_decode(uri_path_bytes(uri)))
    } else {
        None
    }
}

/// A decoded path, with the Windows `file:///C:/...` convention applied: the slash
/// before a drive letter is dropped.
pub open spec fn spec_windows_path(decoded: Seq<char>) -> Seq<char> {
    let trimmed = if decoded.len() > 0 && decoded[0] == '/' {
        decoded.drop_first()
    } else {
        decoded
    };
    let tb = encode_utf8(trimmed);
    if tb.len() >= 2 && tb[1] == 58 {
        trimmed
    } else {
        decoded
    }
}

/// The part of `uri` after its `file://` scheme, when it has one.
fn file_uri_rest(uri: &str) -> (r: Option<String>)
    ensures
        match r {
            Some(p) => has_prefix(uri@, file_scheme()) && p@ == uri@.skip(file_scheme().len() as int),
            None => !has_prefix(uri@, file_scheme()),
        },
{
    let c = chars_of(uri);
    let scheme = chars_of("file://");
    assert(c@.skip(0) =~= c@);
    if scheme.len() > c.len() {
        return None;
    }
    if !crate::text::matches_at(&c, 0, &scheme) {
        return None;
    }
    let rest = sub_vec(&c, scheme.len(), c.len());
    assert(rest@ =~= c@.skip(scheme@.len() as int));
    Some(string_of(&rest))
}

/// Whether [`uri_to_path`] and [`uri_to_windows_path`] accept `uri`.
pub fn uri_decodable(uri: &str) -> (r: bool)
    ensures
        r == spec_uri_decodable(uri@),
{
    match file_uri_rest(uri) {
        Some(p) => !percent_decode_panics(p.as_str()),
        None => true,
    }
}

/// Converts a `file://` URI to a local path (Unix convention); `None` for any
/// other URI.
pub fn uri_to_path(uri: &str) -> (r: Option<String>)
    requires
        spec_uri_decodable(uri@),
    ensures
        match r {
            Some(p) => spec_uri_to_path(uri@) == Some(p@),
            None => spec_uri_to_path(uri@) is None,
        },
{
    match file_uri_rest(uri) {
        Some(p) => Some(percent_decode(p.as_str())),
        None => None,
    }
}

/// Converts a `file://` URI to a local path with the Windows convention: the slash
/// before a drive letter (`file:///C:/...`) is dropped.  `None` for any other URI.
pub fn uri_to_windows_path(uri: &str) -> (r: Option<String>)
    requires
        spec_uri_decodable(uri@),
    ensures
        match r {
            Some(p) => spec_uri_to_path(uri@) matches Some(d) && p@ == spec_windows_path(d),
            None => spec_uri_to_path(uri@) is None,
        },
{
    let decoded = match uri_to_path(uri) {
        Some(d) => d,
        None => return None,
    };
    let c = chars_of(decoded.as_str());
    let trimmed = if c.len() > 0 && c[0] == '/' {
        sub_vec(&c, 1, c.len())
    } else {
        sub_vec(&c, 0, c.len())
    };
    assert(c@.subrange(1, c@.len() as int) =~= c@.drop_first());
    assert(c@.subrange(0, c@.len() as int) =~= c@);
    let t = string_of(&trimmed);
    let tb = t.as_str().as_bytes();
    if tb.len() >= 2 && tb[1] == 58 {
        Some(t)
    } else {
        Some(decoded)
    }
}

} // verus!
