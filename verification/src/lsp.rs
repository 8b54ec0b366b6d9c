//! JSON-RPC messages and LSP data helpers.
//!
//! Builders for the requests, responses, errors and notifications the bridge sends,
//! and the position arithmetic used when synthesising call hierarchies.

use vstd::prelude::*;
use crate::json::{
    array, int_jv, jget, ji64, jindex, jstr, jvs, object, fields_jv, Json, JsonV, NumV,
};

verus! {

/// The `jsonrpc` member every message carries.
pub open spec fn jsonrpc_field() -> (Seq<char>, JsonV) {
    ("jsonrpc"@, JsonV::Str("2.0"@))
}

/// A JSON-RPC request with `id`, `method` and `params`.
pub open spec fn spec_make_request(id: Seq<char>, method: Seq<char>, params: JsonV) -> JsonV {
    JsonV::Object(
        seq![
            jsonrpc_field(),
            ("id"@, JsonV::Str(id)),
            ("method"@, JsonV::Str(method)),
            ("params"@, params),
        ],
    )
}

/// A JSON-RPC success response with `id` and `result`.
pub open spec fn spec_make_response(id: JsonV, result: JsonV) -> JsonV {
    JsonV::Object(seq![jsonrpc_field(), ("id"@, id), ("result"@, result)])
}

/// A JSON-RPC error response with `id`, `code` and `message`.
pub open spec fn spec_make_error(id: JsonV, code: i64, message: Seq<char>) -> JsonV {
    JsonV::Object(
        seq![
            jsonrpc_field(),
            ("id"@, id),
            (
                "error"@,
                JsonV::Object(
                    seq![("code"@, int_jv(code as int)), ("message"@, JsonV::Str(message))],
                ),
            ),
        ],
    )
}

/// A JSON-RPC notification with `method` and `params`.
pub open spec fn spec_make_notification(method: Seq<char>, params: JsonV) -> JsonV {
    JsonV::Object(seq![jsonrpc_field(), ("method"@, JsonV::Str(method)), ("params"@, params)])
}

/// The `(key, value)` field of an object under construction.
pub(crate) fn field(key: &str, value: Json) -> (r: (String, Json))
    ensures
        r.0@ == key@,
        r.1.jv() == value.jv(),
{
    (key.to_owned(), value)
}

/// A JSON-RPC request body with `id`, `method` and `params`.
pub fn make_request(id: &str, method: &str, params: Json) -> (r: Json)
    ensures
        r.jv() == spec_make_request(id@, method@, params.jv()),
{
    let ghost p = params.jv();
    let mut f: Vec<(String, Json)> = Vec::new();
    f.push(field("jsonrpc", Json::string("2.0")));
    f.push(field("id", Json::string(id)));
    f.push(field("method", Json::string(method)));
    f.push(field("params", params));
    let r = object(f);
    assert(fields_jv(f@) =~= spec_make_request(id@, method@, p)->Object_0);
    r
}

/// A JSON-RPC success response body with `id` and `result`.
pub fn make_response(id: &Json, result: Json) -> (r: Json)
    ensures
        r.jv() == spec_make_response(id.jv(), result.jv()),
{
    let ghost p = result.jv();
    let mut f: Vec<(String, Json)> = Vec::new();
    f.push(field("jsonrpc", Json::string("2.0")));
    f.push(field("id", id.deep_clone()));
    f.push(field("result", result));
    let r = object(f);
    assert(fields_jv(f@) =~= spec_make_response(id.jv(), p)->Object_0);
    r
}

/// A JSON-RPC error response body with `id`, `code` and `message`.
pub fn make_error(id: &Json, code: i64, message: &str) -> (r: Json)
    ensures
        r.jv() == spec_make_error(id.jv(), code, message@),
{
    let mut e: Vec<(String, Json)> = Vec::new();
    e.push(field("code", Json::integer(code)));
    e.push(field("message", Json::string(message)));
    let err = object(e);
    assert(fields_jv(e@) =~= spec_make_error(id.jv(), code, message@)->Object_0[2].1->Object_0);
    let mut f: Vec<(String, Json)> = Vec::new();
    f.push(field("jsonrpc", Json::string("2.0")));
    f.push(field("id", id.deep_clone()));
    f.push(field("error", err));
    let r = object(f);
    assert(fields_jv(f@) =~= spec_make_error(id.jv(), code, message@)->Object_0);
    r
}

/// A JSON-RPC notification body with `method` and `params`.
pub fn make_notification(method: &str, params: Json) -> (r: Json)
    ensures
        r.jv() == spec_make_notification(method@, params.jv()),
{
    let ghost p = params.jv();
    let mut f: Vec<(String, Json)> = Vec::new();
    f.push(field("jsonrpc", Json::string("2.0")));
    f.push(field("method", Json::string(method)));
    f.push(field("params", params));
    let r = object(f);
    assert(fields_jv(f@) =~= spec_make_notification(method@, p)->Object_0);
    r
}

/// The integer member `key` of an LSP position, or 0 when it is missing or not an
/// `i64`.
pub open spec fn coord(v: JsonV, key: Seq<char>) -> i64 {
    match jget(v, key) {
        Some(x) => match ji64(x) {
            Some(i) => i,
            None => 0,
        },
        None => 0,
    }
}

/// Whether LSP `position` falls within LSP `range` (both ends inclusive).
pub open spec fn spec_in_range(position: JsonV, range: JsonV) -> bool {
    let pl = coord(position, "line"@);
    let pc = coord(position, "character"@);
    let start = jindex(range, "start"@);
    let end = jindex(range, "end"@);
    let sl = coord(start, "line"@);
    let sc = coord(start, "character"@);
    let el = coord(end, "line"@);
    let ec = coord(end, "character"@);
    !(pl < sl || pl > el) && !(pl == sl && pc < sc) && !(pl == el && pc > ec)
}

/// Executable [`coord`].
fn coord_exec(v: &Json, key: &str) -> (r: i64)
    ensures
        r == coord(v.jv(), key@),
{
    match v.get(key) {
        Some(x) => match x.as_i64() {
            Some(i) => i,
            None => 0,
        },
        None => 0,
    }
}

/// The member `key` of `v`, or `null` (`&v[key]`).
pub fn index_or_null(v: &Json, key: &str) -> (r: Json)
    ensures
        r.jv() == jindex(v.jv(), key@),
{
    match v.get(key) {
        Some(x) => x.deep_clone(),
        None => Json::Null,
    }
}

/// Returns `true` if LSP `position` falls within LSP `range` (inclusive start,
/// inclusive end).
pub fn in_range(position: &Json, range: &Json) -> (r: bool)
    ensures
        r == spec_in_range(position.jv(), range.jv()),
{
    let pl = coord_exec(position, "line");
    let pc = coord_exec(position, "character");
    let start = index_or_null(range, "start");
    let end = index_or_null(range, "end");
    let sl = coord_exec(&start, "line");
    let sc = coord_exec(&start, "character");
    let el = coord_exec(&end, "line");
    let ec = coord_exec(&end, "character");
    if pl < sl || pl > el {
        return false;
    }
    if pl == sl && pc < sc {
        return false;
    }
    if pl == el && pc > ec {
        return false;
    }
    true
}

/// `fallback` when `v` is `null`, `v` otherwise.
pub open spec fn spec_pipe_or(v: JsonV, fallback: JsonV) -> JsonV {
    if v is Null {
        fallback
    } else {
        v
    }
}

/// Replaces a `null` value with `fallback`.
pub fn pipe_or(v: Json, fallback: Json) -> (r: Json)
    ensures
        r.jv() == spec_pipe_or(v.jv(), fallback.jv()),
{
    if v.is_null() {
        fallback
    } else {
        v
    }
}

/// An LSP position object `{ "line": line, "character": character }`.
pub open spec fn position_jv(line: int, character: int) -> JsonV {
    JsonV::Object(seq![("line"@, int_jv(line)), ("character"@, int_jv(character))])
}

/// An LSP position object.
pub fn position(line: i64, character: i64) -> (r: Json)
    ensures
        r.jv() == position_jv(line as int, character as int),
{
    let mut f: Vec<(String, Json)> = Vec::new();
    f.push(field("line", Json::integer(line)));
    f.push(field("character", Json::integer(character)));
    let r = object(f);
    assert(fields_jv(f@) =~= position_jv(line as int, character as int)->Object_0);
    r
}

} // verus!
