//! Bridge-side synthesis for LSP methods that Godot's language server lacks.
//!
//! Godot's LSP does not implement `workspace/symbol`,
//! `textDocument/prepareCallHierarchy` or the `callHierarchy/*` methods.  The bridge
//! answers them by composing methods Godot does offer:
//!
//! | Synthesised method | Sub-requests used |
//! |---|---|
//! | `workspace/symbol` | `textDocument/documentSymbol` per open file |
//! | `textDocument/prepareCallHierarchy` | `textDocument/documentSymbol` on current file |
//! | `callHierarchy/incomingCalls` | `textDocument/references` at item position |
//! | `callHierarchy/outgoingCalls` | `textDocument/documentSymbol` on item file |
//!
//! This module holds the state that ties sub-requests to their responses
//! ([`Synthesizer`]), the sub-request parameters, and the computation of each answer
//! from the sub-request results.  A response reaches the waiting synthesis through a
//! `tokio` one-shot channel; sending to Godot and timeouts are the caller's.

use vstd::prelude::*;
use crate::json::{
    field_index_from, array, empty_array, fields_jv, jarray, jget, jindex, jstr, jvs, lemma_array_jv, lemma_jget_decreases,
    object, Json, JsonV,
};
use crate::lsp::{field, in_range, index_or_null, pipe_or, position, position_jv, spec_in_range, spec_pipe_or};
use crate::text::{ascii_lower, chars_of, contains_chars, contains_seq, decimal, lemma_decimal, push_decimal, to_ascii_lower};
use tokio::sync::oneshot::{Receiver, Sender};

pub use crate::lsp::{make_error, make_request, make_response};

verus! {

/// The name of a document symbol, or `"?"`.
pub open spec fn sym_name(sym: JsonV) -> Seq<char> {
    match jstr(jindex(sym, "name"@)) {
        Some(s) => s,
        None => "?"@,
    }
}

/// The `selectionRange` of a document symbol, else its `range`, else `null`.
pub open spec fn sym_selection(sym: JsonV) -> JsonV {
    match jget(sym, "selectionRange"@) {
        Some(r) => r,
        None => jindex(sym, "range"@),
    }
}

/// The `SymbolInformation` of a document symbol found in `uri`, under `container`.
pub open spec fn symbol_info(sym: JsonV, uri: Seq<char>, container: Option<Seq<char>>) -> JsonV {
    let base = seq![
        ("name"@, JsonV::Str(sym_name(sym))),
        ("kind"@, jindex(sym, "kind"@)),
        (
            "location"@,
            JsonV::Object(seq![("uri"@, JsonV::Str(uri)), ("range"@, sym_selection(sym))]),
        ),
    ];
    match container {
        Some(c) => JsonV::Object(base.push(("containerName"@, JsonV::Str(c)))),
        None => JsonV::Object(base),
    }
}

/// The children of a document symbol, when it has an array of them.
pub open spec fn sym_children(sym: JsonV) -> Option<Seq<JsonV>> {
    match jget(sym, "children"@) {
        Some(JsonV::Array(ch)) => Some(ch),
        _ => None,
    }
}

/// Children are parts of their symbol.
pub proof fn lemma_children_decrease(sym: JsonV)
    ensures
        sym_children(sym) matches Some(ch) ==> decreases_to!(sym => ch),
{
    lemma_jget_decreases(sym, "children"@);
    if let Some(x) = jget(sym, "children"@) {
        if let JsonV::Array(ch) = x {
            assert(decreases_to!(x => x->Array_0));
        }
    }
}

/// A `DocumentSymbol[]` tree flattened into `SymbolInformation[]` for `uri`: each
/// symbol, followed by its flattened children (whose container is the symbol's name).
pub open spec fn spec_flatten(syms: Seq<JsonV>, uri: Seq<char>, container: Option<Seq<char>>) -> Seq<
    JsonV,
>
    decreases syms,
{
    if syms.len() == 0 {
        Seq::empty()
    } else {
        let last = syms.last();
        let kids = match sym_children(last) {
            Some(ch) => {
                proof {
                    lemma_children_decrease(last);
                    assert(decreases_to!(syms => last));
                }
                spec_flatten(ch, uri, Some(sym_name(last)))
            },
            None => Seq::empty(),
        };
        spec_flatten(syms.drop_last(), uri, container) + seq![symbol_info(last, uri, container)]
            + kids
    }
}

/// The name of a symbol as `sym["name"].as_str().unwrap_or("?")`.
fn name_of(sym: &Json) -> (r: String)
    ensures
        r@ == sym_name(sym.jv()),
{
    match sym.get("name") {
        Some(x) => match x.as_str() {
            Some(s) => s.to_owned(),
            None => "?".to_owned(),
        },
        None => "?".to_owned(),
    }
}

/// The `selectionRange` of a symbol, else its `range`, else `null`.
fn selection_of(sym: &Json) -> (r: Json)
    ensures
        r.jv() == sym_selection(sym.jv()),
{
    match sym.get("selectionRange") {
        Some(x) => x.deep_clone(),
        None => index_or_null(sym, "range"),
    }
}

/// Builds the `SymbolInformation` of one document symbol.
fn make_symbol_info(sym: &Json, uri: &str, container: Option<&str>) -> (r: Json)
    ensures
        r.jv() == symbol_info(sym.jv(), uri@, match container {
            Some(c) => Some(c@),
            None => None,
        }),
{
    let mut loc: Vec<(String, Json)> = Vec::new();
    loc.push(field("uri", Json::string(uri)));
    loc.push(field("range", selection_of(sym)));
    let location = object(loc);
    assert(fields_jv(loc@) =~= seq![("uri"@, JsonV::Str(uri@)), ("range"@, sym_selection(sym.jv()))]);
    let mut f: Vec<(String, Json)> = Vec::new();
    f.push(field("name", Json::Str(name_of(sym))));
    f.push(field("kind", index_or_null(sym, "kind")));
    f.push(field("location", location));
    match container {
        Some(c) => {
            f.push(field("containerName", Json::string(c)));
        },
        None => {},
    }
    let r = object(f);
    assert(fields_jv(f@) =~= symbol_info(sym.jv(), uri@, match container {
        Some(c) => Some(c@),
        None => None,
    })->Object_0);
    r
}

/// Flattens a `DocumentSymbol[]` tree into a flat `SymbolInformation[]` list for `uri`.
///
/// Each symbol's `selectionRange` (or `range` if absent) becomes the
/// `SymbolInformation.location.range`.  Children are flattened recursively with
/// `containerName` set to the parent's `name`.
pub fn flatten_doc_symbols(symbols: &Vec<Json>, uri: &str, container: Option<&str>) -> (r: Vec<Json>)
    ensures
        jvs(r@) == spec_flatten(jvs(symbols@), uri@, match container {
            Some(c) => Some(c@),
            None => None,
        }),
    decreases symbols@,
{
    let ghost cont = match container {
        Some(c) => Some(c@),
        None => None,
    };
    let mut out: Vec<Json> = Vec::new();
    let mut i: usize = 0;
    while i < symbols.len()
        invariant
            i <= symbols@.len(),
            cont == match container {
                Some(c) => Some(c@),
                None => None,
            },
            jvs(out@) == spec_flatten(jvs(symbols@).take(i as int), uri@, cont),
        decreases symbols.len() - i,
    {
        let sym = &symbols[i];
        let ghost before = jvs(out@);
        let info = make_symbol_info(sym, uri, container);
        out.push(info);
        let ghost mid = jvs(out@);
        assert(mid =~= before.push(symbol_info(sym.jv(), uri@, cont)));
        let ghost take_next = jvs(symbols@).take(i + 1);
        assert(take_next.drop_last() =~= jvs(symbols@).take(i as int));
        assert(take_next.last() == sym.jv());
        match sym.get("children") {
            Some(x) => {
                match x {
                    Json::Array(ch) => {
                        proof {
                            lemma_array_jv(ch);
                            assert(decreases_to!(symbols@ => symbols@[i as int]));
                            assert(decreases_to!(*x => x->Array_0));
                            assert(decreases_to!(*ch => ch@));
                        }
                        let name = name_of(sym);
                        let kids = flatten_doc_symbols(ch, uri, Some(name.as_str()));
                        let mut j: usize = 0;
                        while j < kids.len()
                            invariant
                                j <= kids@.len(),
                                jvs(out@) == mid + jvs(kids@).take(j as int),
                            decreases kids.len() - j,
                        {
                            let k = kids[j].deep_clone();
                            let ghost before2 = jvs(out@);
                            out.push(k);
                            assert(jvs(out@) =~= before2.push(kids@[j as int].jv()));
                            assert(jvs(kids@).take(j + 1) =~= jvs(kids@).take(j as int).push(kids@[j as int].jv()));
                            j = j + 1;
                            assert(jvs(out@) =~= mid + jvs(kids@).take(j as int));
                        }
                        assert(jvs(kids@).take(kids@.len() as int) =~= jvs(kids@));
                    },
                    _ => {
                        assert(jvs(out@) =~= mid + Seq::<JsonV>::empty());
                    },
                }
            },
            None => {
                assert(jvs(out@) =~= mid + Seq::<JsonV>::empty());
            },
        }
        i = i + 1;
    }
    assert(jvs(symbols@).take(symbols@.len() as int) =~= jvs(symbols@));
    out
}

/// Whether the `range` of a document symbol contains `pos`.
pub open spec fn sym_hit(sym: JsonV, pos: JsonV) -> bool {
    match jget(sym, "range"@) {
        Some(rg) => spec_in_range(pos, rg),
        None => false,
    }
}

/// The innermost symbol containing `pos` among `syms.skip(i)`: the first symbol
/// whose `range` contains it, or the innermost such symbol among its children.
pub open spec fn spec_find_from(syms: Seq<JsonV>, pos: JsonV, i: int) -> Option<JsonV>
    decreases syms, syms.len() - i,
{
    if i < 0 || i >= syms.len() {
        None
    } else {
        let s = syms[i];
        if sym_hit(s, pos) {
            match sym_children(s) {
                Some(ch) => {
                    proof {
                        lemma_children_decrease(s);
                        assert(decreases_to!(syms => s));
                    }
                    match spec_find_from(ch, pos, 0) {
                        Some(x) => Some(x),
                        None => Some(s),
                    }
                },
                None => Some(s),
            }
        } else {
            spec_find_from(syms, pos, i + 1)
        }
    }
}

/// The innermost `DocumentSymbol` in a symbol tree whose `range` contains `pos`.
pub open spec fn spec_find_symbol_at(syms: Seq<JsonV>, pos: JsonV) -> Option<JsonV> {
    spec_find_from(syms, pos, 0)
}

/// Finds the innermost `DocumentSymbol` in a symbol tree whose `range` contains
/// `position`.
pub fn find_symbol_at<'a>(symbols: &'a Vec<Json>, position: &Json) -> (r: Option<&'a Json>)
    ensures
        match r {
            Some(x) => spec_find_symbol_at(jvs(symbols@), position.jv()) == Some(x.jv()),
            None => spec_find_symbol_at(jvs(symbols@), position.jv()) is None,
        },
    decreases symbols@,
{
    let mut i: usize = 0;
    while i < symbols.len()
        invariant
            i <= symbols@.len(),
            spec_find_from(jvs(symbols@), position.jv(), i as int) == spec_find_symbol_at(
                jvs(symbols@),
                position.jv(),
            ),
        decreases symbols.len() - i,
    {
        let sym = &symbols[i];
        assert(jvs(symbols@)[i as int] == sym.jv());
        let hit = match sym.get("range") {
            Some(range) => in_range(position, range),
            None => false,
        };
        if hit {
            match sym.get("children") {
                Some(x) => match x {
                    Json::Array(children) => {
                        proof {
                            lemma_array_jv(children);
                            assert(decreases_to!(symbols@ => symbols@[i as int]));
                            assert(decreases_to!(*x => x->Array_0));
                            assert(decreases_to!(*children => children@));
                        }
                        match find_symbol_at(children, position) {
                            Some(inner) => {
                                return Some(inner);
                            },
                            None => {},
                        }
                    },
                    _ => {},
                },
                None => {},
            }
            return Some(sym);
        }
        i = i + 1;
    }
    None
}

/// The string member `uri` of `v`, or `""`.
pub open spec fn uri_of(v: JsonV) -> Seq<char> {
    match jstr(jindex(v, "uri"@)) {
        Some(s) => s,
        None => ""@,
    }
}

/// The member `uri` of a JSON object as `v["uri"].as_str().unwrap_or("")`.
pub fn uri_of_exec(v: &Json) -> (r: String)
    ensures
        r@ == uri_of(v.jv()),
{
    match v.get("uri") {
        Some(x) => match x.as_str() {
            Some(s) => s.to_owned(),
            None => "".to_owned(),
        },
        None => "".to_owned(),
    }
}

/// The parameters `{ "textDocument": { "uri": uri } }` of a `documentSymbol` request.
pub open spec fn spec_document_symbol_params(uri: Seq<char>) -> JsonV {
    JsonV::Object(seq![("textDocument"@, JsonV::Object(seq![("uri"@, JsonV::Str(uri))]))])
}

/// The `textDocument` member `{ "uri": uri }` of a request's parameters.
fn text_document(uri: &str) -> (r: Json)
    ensures
        r.jv() == JsonV::Object(seq![("uri"@, JsonV::Str(uri@))]),
{
    let mut f: Vec<(String, Json)> = Vec::new();
    f.push(field("uri", Json::string(uri)));
    let r = object(f);
    assert(fields_jv(f@) =~= seq![("uri"@, JsonV::Str(uri@))]);
    r
}

/// The parameters of a `textDocument/documentSymbol` sub-request for `uri`.
pub fn document_symbol_params(uri: &str) -> (r: Json)
    ensures
        r.jv() == spec_document_symbol_params(uri@),
{
    let mut f: Vec<(String, Json)> = Vec::new();
    f.push(field("textDocument", text_document(uri)));
    let r = object(f);
    assert(fields_jv(f@) =~= spec_document_symbol_params(uri@)->Object_0);
    r
}

/// The `CallHierarchyItem` of a document symbol found in `uri`.
pub open spec fn call_item(sym: JsonV, uri: Seq<char>) -> JsonV {
    JsonV::Object(
        seq![
            ("name"@, JsonV::Str(sym_name(sym))),
            ("kind"@, jindex(sym, "kind"@)),
            ("uri"@, JsonV::Str(uri)),
            ("range"@, jindex(sym, "range"@)),
            ("selectionRange"@, sym_selection(sym)),
        ],
    )
}

/// The answer to `textDocument/prepareCallHierarchy` at `position` in `uri`, given the
/// `documentSymbol` result (`None` when the sub-request got no answer): the
/// innermost symbol containing the position as a one-element list, or an empty list.
pub open spec fn spec_prepare_result(uri: Seq<char>, position: JsonV, result: Option<JsonV>) -> JsonV {
    match result {
        None => JsonV::Array(Seq::empty()),
        Some(r) => match jarray(r) {
            None => JsonV::Array(Seq::empty()),
            Some(syms) => match spec_find_symbol_at(syms, position) {
                None => JsonV::Array(Seq::empty()),
                Some(sym) => JsonV::Array(seq![call_item(sym, uri)]),
            },
        },
    }
}

/// Computes the `textDocument/prepareCallHierarchy` answer from the
/// `documentSymbol` result for the current file.
pub fn prepare_call_hierarchy_result(uri: &str, position: &Json, result: Option<&Json>) -> (r: Json)
    ensures
        r.jv() == spec_prepare_result(uri@, position.jv(), match result {
            Some(x) => Some(x.jv()),
            None => None,
        }),
{
    let res = match result {
        Some(x) => x,
        None => {
            return empty_array();
        },
    };
    let symbols = match res.as_array() {
        Some(a) => a,
        None => {
            return empty_array();
        },
    };
    assert(jvs(symbols@) =~= Seq::new(symbols@.len(), |i: int| symbols@[i].jv()));
    let sym = match find_symbol_at(symbols, position) {
        Some(s) => s,
        None => {
            return empty_array();
        },
    };
    let mut f: Vec<(String, Json)> = Vec::new();
    f.push(field("name", Json::Str(name_of(sym))));
    f.push(field("kind", index_or_null(sym, "kind")));
    f.push(field("uri", Json::string(uri)));
    f.push(field("range", index_or_null(sym, "range")));
    f.push(field("selectionRange", selection_of(sym)));
    let item = object(f);
    assert(fields_jv(f@) =~= call_item(sym.jv(), uri@)->Object_0);
    let mut items: Vec<Json> = Vec::new();
    items.push(item);
    let r = array(items);
    assert(jvs(items@) =~= seq![call_item(sym.jv(), uri@)]);
    r
}

/// The position at which incoming calls are looked up: the start of the item's
/// `selectionRange`, or line 0, character 0.
pub open spec fn spec_incoming_position(item: JsonV) -> JsonV {
    spec_pipe_or(jindex(jindex(item, "selectionRange"@), "start"@), position_jv(0, 0))
}

/// The parameters of the `textDocument/references` sub-request for an item.
pub open spec fn spec_references_params(item: JsonV) -> JsonV {
    JsonV::Object(
        seq![
            ("textDocument"@, JsonV::Object(seq![("uri"@, JsonV::Str(uri_of(item)))])),
            ("position"@, spec_incoming_position(item)),
            ("context"@, JsonV::Object(seq![("includeDeclaration"@, JsonV::Bool(false))])),
        ],
    )
}

/// Builds the parameters of the `textDocument/references` sub-request that
/// `callHierarchy/incomingCalls` uses for `item`.
pub fn references_params(item: &Json) -> (r: Json)
    ensures
        r.jv() == spec_references_params(item.jv()),
{
    let uri = uri_of_exec(item);
    let sel = index_or_null(item, "selectionRange");
    let start = index_or_null(&sel, "start");
    let pos = pipe_or(start, position(0, 0));
    let mut c: Vec<(String, Json)> = Vec::new();
    c.push(field("includeDeclaration", Json::Bool(false)));
    let context = object(c);
    assert(fields_jv(c@) =~= seq![("includeDeclaration"@, JsonV::Bool(false))]);
    let mut f: Vec<(String, Json)> = Vec::new();
    f.push(field("textDocument", text_document(uri.as_str())));
    f.push(field("position", pos));
    f.push(field("context", context));
    let r = object(f);
    assert(fields_jv(f@) =~= spec_references_params(item.jv())->Object_0);
    r
}

/// The `CallHierarchyIncomingCall` for one reference `loc` to `item`.
pub open spec fn incoming_call(item: JsonV, loc: JsonV) -> JsonV {
    let rr = jindex(loc, "range"@);
    JsonV::Object(
        seq![
            (
                "from"@,
                JsonV::Object(
                    seq![
                        ("name"@, jindex(item, "name"@)),
                        ("kind"@, jindex(item, "kind"@)),
                        ("uri"@, JsonV::Str(uri_of(loc))),
                        ("range"@, rr),
                        ("selectionRange"@, rr),
                    ],
                ),
            ),
            ("fromRanges"@, JsonV::Array(seq![rr])),
        ],
    )
}

/// The answer to `callHierarchy/incomingCalls` for `item`, given the `references`
/// result (`None` when the sub-request got no answer): one incoming call per
/// reference, in order; an empty list when the result is not an array.
pub open spec fn spec_incoming_result(item: JsonV, result: Option<JsonV>) -> JsonV {
    match result {
        None => JsonV::Array(Seq::empty()),
        Some(r) => match jarray(r) {
            Some(locs) => JsonV::Array(locs.map_values(|l: JsonV| incoming_call(item, l))),
            None => JsonV::Array(Seq::empty()),
        },
    }
}

/// Builds one `CallHierarchyIncomingCall`.
fn make_incoming_call(item: &Json, loc: &Json) -> (r: Json)
    ensures
        r.jv() == incoming_call(item.jv(), loc.jv()),
{
    let mut f: Vec<(String, Json)> = Vec::new();
    f.push(field("name", index_or_null(item, "name")));
    f.push(field("kind", index_or_null(item, "kind")));
    f.push(field("uri", Json::Str(uri_of_exec(loc))));
    f.push(field("range", index_or_null(loc, "range")));
    f.push(field("selectionRange", index_or_null(loc, "range")));
    let from = object(f);
    assert(fields_jv(f@) =~= incoming_call(item.jv(), loc.jv())->Object_0[0].1->Object_0);
    let mut ranges: Vec<Json> = Vec::new();
    ranges.push(index_or_null(loc, "range"));
    let from_ranges = array(ranges);
    assert(jvs(ranges@) =~= seq![jindex(loc.jv(), "range"@)]);
    let mut g: Vec<(String, Json)> = Vec::new();
    g.push(field("from", from));
    g.push(field("fromRanges", from_ranges));
    let r = object(g);
    assert(fields_jv(g@) =~= incoming_call(item.jv(), loc.jv())->Object_0);
    r
}

/// Computes the `callHierarchy/incomingCalls` answer from the `references` result.
pub fn incoming_calls_result(item: &Json, result: Option<&Json>) -> (r: Json)
    ensures
        r.jv() == spec_incoming_result(item.jv(), match result {
            Some(x) => Some(x.jv()),
            None => None,
        }),
{
    let res = match result {
        Some(x) => x,
        None => {
            return empty_array();
        },
    };
    let locs = match res.as_array() {
        Some(a) => a,
        None => {
            return empty_array();
        },
    };
    let ghost lv = Seq::new(locs@.len(), |i: int| locs@[i].jv());
    let mut calls: Vec<Json> = Vec::new();
    let mut i: usize = 0;
    while i < locs.len()
        invariant
            i <= locs@.len(),
            lv == Seq::new(locs@.len(), |k: int| locs@[k].jv()),
            jvs(calls@) == lv.take(i as int).map_values(|l: JsonV| incoming_call(item.jv(), l)),
        decreases locs.len() - i,
    {
        let c = make_incoming_call(item, &locs[i]);
        let ghost before = jvs(calls@);
        calls.push(c);
        assert(jvs(calls@) =~= before.push(incoming_call(item.jv(), lv[i as int])));
        assert(lv.take(i + 1).map_values(|l: JsonV| incoming_call(item.jv(), l)) =~= lv.take(
            i as int,
        ).map_values(|l: JsonV| incoming_call(item.jv(), l)).push(incoming_call(item.jv(), lv[i as int])));
        i = i + 1;
        assert(jvs(calls@) =~= lv.take(i as int).map_values(|l: JsonV| incoming_call(item.jv(), l)));
    }
    assert(lv.take(locs@.len() as int) =~= lv);
    array(calls)
}

/// The range of a call hierarchy item, or `null`.
pub open spec fn item_range(item: JsonV) -> JsonV {
    jindex(item, "range"@)
}

/// The start of a flattened symbol's location range, if it has one.
pub open spec fn location_start(sym: JsonV) -> Option<JsonV> {
    match jget(sym, "location"@) {
        Some(l) => match jget(l, "range"@) {
            Some(r) => jget(r, "start"@),
            None => None,
        },
        None => None,
    }
}

/// Whether a flattened symbol starts inside the item's range.
pub open spec fn starts_inside(sym: JsonV, range: JsonV) -> bool {
    match location_start(sym) {
        Some(st) => spec_in_range(st, range),
        None => false,
    }
}

/// The `CallHierarchyOutgoingCall` for a flattened symbol of `uri`.
pub open spec fn outgoing_call(sym: JsonV, uri: Seq<char>) -> JsonV {
    let rg = jindex(jindex(sym, "location"@), "range"@);
    JsonV::Object(
        seq![
            (
                "to"@,
                JsonV::Object(
                    seq![
                        ("name"@, JsonV::Str(sym_name(sym))),
                        ("kind"@, jindex(sym, "kind"@)),
                        ("uri"@, JsonV::Str(uri)),
                        ("range"@, rg),
                        ("selectionRange"@, rg),
                    ],
                ),
            ),
            ("fromRanges"@, JsonV::Array(seq![rg])),
        ],
    )
}

/// The outgoing calls among the flattened symbols `flat`: those that start inside
/// `range`, in order.
pub open spec fn outgoing_from(flat: Seq<JsonV>, range: JsonV, uri: Seq<char>) -> Seq<JsonV>
    decreases flat.len(),
{
    if flat.len() == 0 {
        Seq::empty()
    } else {
        let rest = outgoing_from(flat.drop_last(), range, uri);
        if starts_inside(flat.last(), range) {
            rest.push(outgoing_call(flat.last(), uri))
        } else {
            rest
        }
    }
}

/// The answer to `callHierarchy/outgoingCalls` for `item`, given the
/// `documentSymbol` result for its file: the symbols of the file that start inside
/// the item's range.
pub open spec fn spec_outgoing_result(item: JsonV, result: Option<JsonV>) -> JsonV {
    match result {
        None => JsonV::Array(Seq::empty()),
        Some(r) => match jarray(r) {
            None => JsonV::Array(Seq::empty()),
            Some(syms) => JsonV::Array(
                outgoing_from(spec_flatten(syms, uri_of(item), None), item_range(item), uri_of(item)),
            ),
        },
    }
}

/// The start of a flattened symbol's location range, if it has one.
fn location_start_exec(sym: &Json) -> (r: Option<&Json>)
    ensures
        match r {
            Some(x) => location_start(sym.jv()) == Some(x.jv()),
            None => location_start(sym.jv()) is None,
        },
{
    match sym.get("location") {
        Some(l) => match l.get("range") {
            Some(rg) => rg.get("start"),
            None => None,
        },
        None => None,
    }
}

/// Builds one `CallHierarchyOutgoingCall`.
fn make_outgoing_call(sym: &Json, uri: &str) -> (r: Json)
    ensures
        r.jv() == outgoing_call(sym.jv(), uri@),
{
    let loc = index_or_null(sym, "location");
    let rg = index_or_null(&loc, "range");
    let mut f: Vec<(String, Json)> = Vec::new();
    f.push(field("name", Json::Str(name_of(sym))));
    f.push(field("kind", index_or_null(sym, "kind")));
    f.push(field("uri", Json::string(uri)));
    f.push(field("range", rg.deep_clone()));
    f.push(field("selectionRange", rg.deep_clone()));
    let to = object(f);
    assert(fields_jv(f@) =~= outgoing_call(sym.jv(), uri@)->Object_0[0].1->Object_0);
    let mut ranges: Vec<Json> = Vec::new();
    ranges.push(rg.deep_clone());
    let from_ranges = array(ranges);
    assert(jvs(ranges@) =~= seq![rg.jv()]);
    let mut g: Vec<(String, Json)> = Vec::new();
    g.push(field("to", to));
    g.push(field("fromRanges", from_ranges));
    let r = object(g);
    assert(fields_jv(g@) =~= outgoing_call(sym.jv(), uri@)->Object_0);
    r
}

/// Computes the `callHierarchy/outgoingCalls` answer from the `documentSymbol` result
/// for the item's file.  This is an approximation: Godot does not expose call-graph
/// information, so every symbol inside the item's range counts as called.
pub fn outgoing_calls_result(item: &Json, result: Option<&Json>) -> (r: Json)
    ensures
        r.jv() == spec_outgoing_result(item.jv(), match result {
            Some(x) => Some(x.jv()),
            None => None,
        }),
{
    let res = match result {
        Some(x) => x,
        None => {
            return empty_array();
        },
    };
    let symbols = match res.as_array() {
        Some(a) => a,
        None => {
            return empty_array();
        },
    };
    assert(jvs(symbols@) =~= Seq::new(symbols@.len(), |i: int| symbols@[i].jv()));
    let uri = uri_of_exec(item);
    let range = index_or_null(item, "range");
    let flat = flatten_doc_symbols(symbols, uri.as_str(), None);
    let ghost fv = jvs(flat@);
    let mut calls: Vec<Json> = Vec::new();
    let mut i: usize = 0;
    while i < flat.len()
        invariant
            i <= flat@.len(),
            fv == jvs(flat@),
            jvs(calls@) == outgoing_from(fv.take(i as int), range.jv(), uri@),
        decreases flat.len() - i,
    {
        let sym = &flat[i];
        assert(fv.take(i + 1).drop_last() =~= fv.take(i as int));
        assert(fv.take(i + 1).last() == sym.jv());
        let keep = match location_start_exec(sym) {
            Some(st) => in_range(st, &range),
            None => false,
        };
        if keep {
            let c = make_outgoing_call(sym, uri.as_str());
            let ghost before = jvs(calls@);
            calls.push(c);
            assert(jvs(calls@) =~= before.push(outgoing_call(sym.jv(), uri@)));
        }
        i = i + 1;
    }
    assert(fv.take(flat@.len() as int) =~= fv);
    array(calls)
}

/// Whether a flattened symbol matches a lower-cased `workspace/symbol` query: an
/// empty query matches everything, otherwise the lower-cased name must contain it.
pub open spec fn query_matches(sym: JsonV, q_lower: Seq<char>) -> bool {
    let name = match jstr(jindex(sym, "name"@)) {
        Some(s) => s,
        None => ""@,
    };
    q_lower.len() == 0 || contains_seq(ascii_lower(name), q_lower)
}

/// The symbols among `flat` that match `q_lower`, in order.
pub open spec fn matching_symbols(flat: Seq<JsonV>, q_lower: Seq<char>) -> Seq<JsonV>
    decreases flat.len(),
{
    if flat.len() == 0 {
        Seq::empty()
    } else {
        let rest = matching_symbols(flat.drop_last(), q_lower);
        if query_matches(flat.last(), q_lower) {
            rest.push(flat.last())
        } else {
            rest
        }
    }
}

/// The symbols that one `documentSymbol` response for `uri` contributes.
pub open spec fn response_symbols(uri: Seq<char>, result: Option<JsonV>, q_lower: Seq<char>) -> Seq<
    JsonV,
> {
    match result {
        Some(r) => match jarray(r) {
            Some(syms) => matching_symbols(spec_flatten(syms, uri, None), q_lower),
            None => Seq::empty(),
        },
        None => Seq::empty(),
    }
}

/// The answer to `workspace/symbol` with `query`, given the `documentSymbol` result
/// for each open file (`None` when a sub-request got no answer): the flattened
/// symbols of every file whose name contains the query, ignoring ASCII case.
pub open spec fn spec_workspace_symbols(
    query: Seq<char>,
    responses: Seq<(Seq<char>, Option<JsonV>)>,
) -> Seq<JsonV>
    decreases responses.len(),
{
    if responses.len() == 0 {
        Seq::empty()
    } else {
        spec_workspace_symbols(query, responses.drop_last()) + response_symbols(
            responses.last().0,
            responses.last().1,
            ascii_lower(query),
        )
    }
}

/// The views of the `(uri, result)` responses.
pub open spec fn responses_view(r: Seq<(String, Option<Json>)>) -> Seq<(Seq<char>, Option<JsonV>)> {
    Seq::new(
        r.len(),
        |i: int|
            (
                r[i].0@,
                match r[i].1 {
                    Some(x) => Some(x.jv()),
                    None => None,
                },
            ),
    )
}

/// Aggregates the `documentSymbol` results of all open files into the
/// `workspace/symbol` answer for `query` (case-insensitive substring match).
pub fn workspace_symbols_result(query: &str, responses: &Vec<(String, Option<Json>)>) -> (r: Json)
    ensures
        r.jv() == JsonV::Array(spec_workspace_symbols(query@, responses_view(responses@))),
{
    let qc = chars_of(query);
    let q_lower = to_ascii_lower(&qc);
    let ghost rv = responses_view(responses@);
    let mut all: Vec<Json> = Vec::new();
    let mut i: usize = 0;
    while i < responses.len()
        invariant
            i <= responses@.len(),
            rv == responses_view(responses@),
            q_lower@ == ascii_lower(query@),
            jvs(all@) == spec_workspace_symbols(query@, rv.take(i as int)),
        decreases responses.len() - i,
    {
        let (uri, result) = &responses[i];
        assert(rv.take(i + 1).drop_last() =~= rv.take(i as int));
        assert(rv.take(i + 1).last() == rv[i as int]);
        let ghost before = jvs(all@);
        let ghost added = response_symbols(uri@, match result {
            Some(x) => Some(x.jv()),
            None => None,
        }, q_lower@);
        match result {
            Some(res) => match res.as_array() {
                Some(symbols) => {
                    assert(jvs(symbols@) =~= Seq::new(symbols@.len(), |k: int| symbols@[k].jv()));
                    let flat = flatten_doc_symbols(symbols, uri.as_str(), None);
                    let ghost fv = jvs(flat@);
                    let mut j: usize = 0;
                    while j < flat.len()
                        invariant
                            j <= flat@.len(),
                            fv == jvs(flat@),
                            jvs(all@) == before + matching_symbols(fv.take(j as int), q_lower@),
                        decreases flat.len() - j,
                    {
                        let sym = &flat[j];
                        assert(fv.take(j + 1).drop_last() =~= fv.take(j as int));
                        assert(fv.take(j + 1).last() == sym.jv());
                        let name = match sym.get("name") {
                            Some(x) => match x.as_str() {
                                Some(s) => chars_of(s),
                                None => Vec::new(),
                            },
                            None => Vec::new(),
                        };
                        assert(name@ == match jstr(jindex(sym.jv(), "name"@)) {
                            Some(s) => s,
                            None => ""@,
                        }) by {
                            reveal_strlit("");
                        }
                        let lname = to_ascii_lower(&name);
                        if q_lower.len() == 0 || contains_chars(&lname, &q_lower) {
                            let ghost b2 = jvs(all@);
                            all.push(sym.deep_clone());
                            assert(jvs(all@) =~= b2.push(sym.jv()));
                        }
                        j = j + 1;
                    }
                    assert(fv.take(flat@.len() as int) =~= fv);
                },
                None => {},
            },
            None => {},
        }
        assert(jvs(all@) =~= before + added);
        i = i + 1;
    }
    assert(rv.take(responses@.len() as int) =~= rv);
    array(all)
}

/// The ID of the `n`-th synthesis sub-request: `__synth_<n>`.
pub open spec fn sub_id(n: nat) -> Seq<char> {
    "__synth_"@ + decimal(n)
}

/// `id` is the ID of one of the first `n` sub-requests.
pub open spec fn issued(id: Seq<char>, n: nat) -> bool {
    exists|k: nat| k < n && id == sub_id(k)
}

/// The ID of sub-request `k` is issued among the first `n` when `k < n`.
proof fn lemma_issued_intro(k: nat, n: nat)
    requires
        k < n,
    ensures
        issued(sub_id(k), n),
{
}

/// An ID issued among the first `n` sub-requests is issued among the first `m >= n`,
/// and it is not the ID of sub-request `n` itself.
proof fn lemma_issued(id: Seq<char>, n: nat, m: nat)
    requires
        issued(id, n),
        n <= m,
    ensures
        issued(id, m),
        id != sub_id(n),
{
    let k = choose|k: nat| k < n && id == sub_id(k);
    lemma_sub_id_injective(k, n);
}

/// Different sub-request numbers give different IDs.
pub proof fn lemma_sub_id_injective(a: nat, b: nat)
    ensures
        sub_id(a) == sub_id(b) ==> a == b,
{
    if sub_id(a) == sub_id(b) {
        let p = "__synth_"@;
        assert(sub_id(a).skip(p.len() as int) =~= decimal(a));
        assert(sub_id(b).skip(p.len() as int) =~= decimal(b));
        lemma_decimal(a);
        lemma_decimal(b);
    }
}

/// Shared synthesis state: the files open in the editor, and the sub-requests sent
/// to Godot whose responses are still awaited.
pub struct Synthesizer {
    open_files: Vec<String>,
    pending: Vec<(String, Sender<Json>)>,
    next_id: u64,
}

/// The sending half of a `tokio` one-shot channel, carried unread.
#[verifier::external_type_specification]
#[verifier::external_body]
#[verifier::reject_recursive_types(T)]
pub struct ExOneshotSender<T>(Sender<T>);

/// The receiving half of a `tokio` one-shot channel, carried unread.
#[verifier::external_type_specification]
#[verifier::external_body]
#[verifier::reject_recursive_types(T)]
pub struct ExOneshotReceiver<T>(Receiver<T>);

/// The error a one-shot receiver yields when its sender is gone; declared because the
/// receiver's `Future` impl names it.
#[verifier::external_type_specification]
#[verifier::external_body]
pub struct ExRecvError(tokio::sync::oneshot::error::RecvError);

/// Calls `tokio::sync::oneshot::channel`: a fresh channel for one JSON value.  The
/// contract claims nothing of the pair.
#[verifier::external_body]
fn open_channel() -> (Sender<Json>, Receiver<Json>) {
    tokio::sync::oneshot::channel()
}


/// The views of a list of strings.
pub open spec fn strings_view(v: Seq<String>) -> Seq<Seq<char>> {
    Seq::new(v.len(), |i: int| v[i]@)
}

impl Synthesizer {
    /// The URIs of the files open in the editor, in the order they were opened.
    pub closed spec fn open_seq(&self) -> Seq<Seq<char>> {
        strings_view(self.open_files@)
    }

    /// The IDs of the sub-requests whose responses are awaited, oldest first.
    pub closed spec fn pending_seq(&self) -> Seq<Seq<char>> {
        Seq::new(self.pending@.len(), |i: int| self.pending@[i].0@)
    }

    /// The senders the awaited responses go to, in the order of [`Self::pending_seq`].
    pub closed spec fn pending_senders(&self) -> Seq<Sender<Json>> {
        Seq::new(self.pending@.len(), |i: int| self.pending@[i].1)
    }

    /// The number of the next sub-request.
    pub closed spec fn next_sub(&self) -> nat {
        self.next_id as nat
    }

    /// The state is consistent: no URI is open twice, no ID is awaited twice, and
    /// every awaited ID belongs to a sub-request already numbered.
    pub open spec fn wf(&self) -> bool {
        &&& self.open_seq().no_duplicates()
        &&& self.pending_seq().no_duplicates()
        &&& self.pending_senders().len() == self.pending_seq().len()
        &&& forall|i: int|
            0 <= i < self.pending_seq().len() ==> issued(#[trigger] self.pending_seq()[i], self.next_sub())
    }

    /// An empty state.
    pub fn new() -> (r: Synthesizer)
        ensures
            r.wf(),
            r.open_seq() == Seq::<Seq<char>>::empty(),
            r.pending_seq() == Seq::<Seq<char>>::empty(),
            r.next_sub() == 0,
    {
        let r = Synthesizer { open_files: Vec::new(), pending: Vec::new(), next_id: 0 };
        assert(r.open_seq() =~= Seq::<Seq<char>>::empty());
        assert(r.pending_seq() =~= Seq::<Seq<char>>::empty());
        r
    }

    /// Where `uri` stands among `v`, if it is there.
    fn position_of(v: &Vec<String>, uri: &str) -> (r: Option<usize>)
        ensures
            match r {
                Some(j) => j < v@.len() && v@[j as int]@ == uri@ && strings_view(v@).contains(uri@),
                None => !strings_view(v@).contains(uri@),
            },
    {
        let u = uri.to_owned();
        let mut i: usize = 0;
        while i < v.len()
            invariant
                i <= v@.len(),
                u@ == uri@,
                forall|k: int| 0 <= k < i ==> v@[k]@ != uri@,
            decreases v.len() - i,
        {
            if v[i] == u {
                assert(strings_view(v@)[i as int] == uri@);
                return Some(i);
            }
            i = i + 1;
        }
        assert forall|k: int| 0 <= k < strings_view(v@).len() implies strings_view(v@)[k] != uri@ by {
            assert(strings_view(v@)[k] == v@[k]@);
        }
        None
    }

    /// Where the sub-request `id` stands among the awaited ones, if it is there.
    fn pending_position(&self, id: &str) -> (r: Option<usize>)
        ensures
            match r {
                Some(j) => j < self.pending_seq().len() && self.pending_seq()[j as int] == id@
                    && self.pending_seq().contains(id@),
                None => !self.pending_seq().contains(id@),
            },
    {
        let u = id.to_owned();
        let mut i: usize = 0;
        while i < self.pending.len()
            invariant
                i <= self.pending@.len(),
                u@ == id@,
                forall|k: int| 0 <= k < i ==> self.pending@[k].0@ != id@,
            decreases self.pending.len() - i,
        {
            if self.pending[i].0 == u {
                assert(self.pending_seq()[i as int] == id@);
                return Some(i);
            }
            i = i + 1;
        }
        assert forall|k: int| 0 <= k < self.pending_seq().len() implies self.pending_seq()[k] != id@ by {
            assert(self.pending_seq()[k] == self.pending@[k].0@);
        }
        None
    }

    /// Records that `uri` was opened in the editor (`textDocument/didOpen`).
    pub fn on_did_open(&mut self, uri: String)
        requires
            old(self).wf(),
        ensures
            final(self).wf(),
            final(self).open_seq() == open_post(old(self).open_seq(), uri@),
            final(self).pending_seq() == old(self).pending_seq(),
            final(self).pending_senders() == old(self).pending_senders(),
            final(self).next_sub() == old(self).next_sub(),
    {
        let ghost s0 = *self;
        if Self::position_of(&self.open_files, uri.as_str()).is_none() {
            let ghost before = self.open_seq();
            let ghost u = uri@;
            self.open_files.push(uri);
            assert(self.open_seq() =~= before.push(u));
            assert(self.open_seq().no_duplicates()) by {
                assert forall|a: int, b: int|
                    0 <= a < b < self.open_seq().len() implies self.open_seq()[a] != self.open_seq()[b] by {
                    if b == before.len() {
                        assert(before[a] == self.open_seq()[a]);
                    }
                }
            }
        }
        proof {
            lemma_wf_same_pending(s0, *self);
        }
    }

    /// Records that `uri` was closed in the editor (`textDocument/didClose`).
    pub fn on_did_close(&mut self, uri: &str)
        requires
            old(self).wf(),
        ensures
            final(self).wf(),
            close_post(old(self).open_seq(), final(self).open_seq(), uri@),
            final(self).pending_seq() == old(self).pending_seq(),
            final(self).pending_senders() == old(self).pending_senders(),
            final(self).next_sub() == old(self).next_sub(),
    {
        let ghost before = self.open_seq();
        let ghost s0 = *self;
        match Self::position_of(&self.open_files, uri) {
            Some(j) => {
                self.open_files.remove(j);
                assert(self.open_seq() =~= before.remove(j as int));
                proof {
                    lemma_remove_unique(before, j as int);
                }
                assert(before[j as int] == uri@);
            },
            None => {},
        }
        proof {
            lemma_wf_same_pending(s0, *self);
        }
    }

    /// The URIs of the files currently open in the editor.
    pub fn open_files(&self) -> (r: &Vec<String>)
        ensures
            strings_view(r@) == self.open_seq(),
    {
        &self.open_files
    }

    /// Whether `uri` is open in the editor.
    pub fn is_open(&self, uri: &str) -> (r: bool)
        ensures
            r == self.open_seq().contains(uri@),
    {
        Self::position_of(&self.open_files, uri).is_some()
    }

    /// The number of the next sub-request.
    pub fn next_id(&self) -> (r: u64)
        ensures
            r == self.next_sub(),
    {
        self.next_id
    }

    /// Allocates a unique sub-request ID, `__synth_<n>`, marks it awaited, and
    /// returns it with the receiver its response will arrive on.
    ///
    /// The ID is used as the `id` of the sub-request sent to Godot; the response
    /// that carries it is handed over by [`Synthesizer::try_complete`].
    pub fn alloc_sub(&mut self) -> (r: (String, Receiver<Json>))
        requires
            old(self).wf(),
            old(self).next_sub() < u64::MAX,
        ensures
            final(self).wf(),
            alloc_post(*old(self), *final(self), r.0@),
    {
        let mut id = "__synth_".to_owned();
        push_decimal(&mut id, self.next_id);
        let ghost before = self.pending_seq();
        let ghost n = self.next_id as nat;
        proof {
            assert forall|i: int| 0 <= i < before.len() implies before[i] != id@ by {
                lemma_issued(before[i], n, n);
            }
        }
        let ghost idv = id@;
        let ghost s0 = *self;
        let (tx, rx) = open_channel();
        let ghost senders = s0.pending_senders();
        self.pending.push((id.clone(), tx));
        self.next_id = self.next_id + 1;
        assert(self.pending_seq() =~= before.push(idv));
        assert(self.pending_senders().drop_last() =~= senders);
        assert(self.pending_seq().no_duplicates()) by {
            assert forall|a: int, b: int|
                0 <= a < b < self.pending_seq().len() implies self.pending_seq()[a]
                    != self.pending_seq()[b] by {
                if b == before.len() {
                    assert(before[a] == self.pending_seq()[a]);
                }
            }
        }
        assert forall|i: int| 0 <= i < self.pending_seq().len() implies issued(
            #[trigger] self.pending_seq()[i],
            self.next_sub(),
        ) by {
            if i < before.len() {
                assert(self.pending_seq()[i] == before[i]);
                lemma_issued(before[i], n, n + 1);
            } else {
                assert(self.pending_seq()[i] == sub_id(n));
                lemma_issued_intro(n, n + 1);
            }
        }
        assert(self.open_seq() == s0.open_seq());
        (id, rx)
    }

    /// Completes a waiting sub-request with a Godot response, `result`.
    ///
    /// When `id` is awaited, it is no longer awaited, and the result is `Some` of the
    /// sender its response goes to, with `result`: sending `result` on it hands the
    /// response to the waiting synthesis.  `None` when the response belongs to the
    /// client instead.
    pub fn try_complete(&mut self, id: &str, result: Json) -> (r: Option<(Sender<Json>, Json)>)
        requires
            old(self).wf(),
        ensures
            final(self).wf(),
            complete_post(*old(self), *final(self), id@, r is Some),
            r matches Some((tx, v)) ==> v == result && sender_of(*old(self), id@, tx),
    {
        let ghost before = self.pending_seq();
        let ghost senders = self.pending_senders();
        match self.pending_position(id) {
            Some(j) => {
                let (_, tx) = self.pending.remove(j);
                assert(self.pending_senders() =~= senders.remove(j as int));
                assert(self.pending_seq() =~= before.remove(j as int));
                proof {
                    lemma_remove_unique(before, j as int);
                }
                assert forall|i: int| 0 <= i < self.pending_seq().len() implies issued(
                    #[trigger] self.pending_seq()[i],
                    self.next_sub(),
                ) by {
                    if i < j {
                        assert(self.pending_seq()[i] == before[i]);
                    } else {
                        assert(self.pending_seq()[i] == before[i + 1]);
                    }
                }
                assert(before[j as int] == id@);
                assert(senders[j as int] == tx);
                Some((tx, result))
            },
            None => None,
        }
    }

    /// Allocates one `documentSymbol` sub-request per open file (the first step of
    /// `workspace/symbol`): the list of `(uri, id, receiver)`, in the order of the open
    /// files.
    pub fn workspace_subrequests(&mut self) -> (r: Vec<(String, String, Receiver<Json>)>)
        requires
            old(self).wf(),
            old(self).next_sub() + old(self).open_seq().len() <= u64::MAX,
        ensures
            final(self).wf(),
            r@.len() == old(self).open_seq().len(),
            forall|i: int|
                0 <= i < r@.len() ==> #[trigger] r@[i].0@ == old(self).open_seq()[i] && r@[i].1@
                    == sub_id((old(self).next_sub() + i) as nat),
            final(self).pending_seq() == old(self).pending_seq() + Seq::new(
                r@.len(),
                |i: int| sub_id((old(self).next_sub() + i) as nat),
            ),
            final(self).next_sub() == old(self).next_sub() + r@.len(),
            final(self).open_seq() == old(self).open_seq(),
    {
        let ghost s0 = *self;
        let n = self.open_files.len();
        let mut out: Vec<(String, String, Receiver<Json>)> = Vec::new();
        let mut i: usize = 0;
        while i < n
            invariant
                i <= n == s0.open_seq().len(),
                self.wf(),
                self.open_seq() == s0.open_seq(),
                self.next_sub() == s0.next_sub() + i,
                s0.next_sub() + n <= u64::MAX,
                out@.len() == i,
                forall|k: int|
                    0 <= k < i ==> #[trigger] out@[k].0@ == s0.open_seq()[k] && out@[k].1@
                        == sub_id((s0.next_sub() + k) as nat),
                self.pending_seq() == s0.pending_seq() + Seq::new(
                    i as nat,
                    |k: int| sub_id((s0.next_sub() + k) as nat),
                ),
            decreases n - i,
        {
            let uri = self.open_files[i].clone();
            assert(uri@ == s0.open_seq()[i as int]);
            let ghost before = self.pending_seq();
            let (id, rx) = self.alloc_sub();
            let ghost out0 = out@;
            out.push((uri, id, rx));
            assert(out@[i as int].0@ == s0.open_seq()[i as int]);
            assert(out@[i as int].1@ == sub_id((s0.next_sub() + i) as nat));
            assert forall|k: int| 0 <= k < i + 1 implies #[trigger] out@[k].0@ == s0.open_seq()[k]
                && out@[k].1@ == sub_id((s0.next_sub() + k) as nat) by {
                if k < i {
                    assert(out@[k] == out0[k]);
                }
            }
            i = i + 1;
            assert(self.pending_seq() =~= s0.pending_seq() + Seq::new(
                i as nat,
                |k: int| sub_id((s0.next_sub() + k) as nat),
            ));
        }
        out
    }
}

/// The open files after `uri` is opened: unchanged if it was already open.
pub open spec fn open_post(before: Seq<Seq<char>>, uri: Seq<char>) -> Seq<Seq<char>> {
    if before.contains(uri) {
        before
    } else {
        before.push(uri)
    }
}

/// The open files after `uri` is closed: the same files, in the same order, without
/// `uri`.
pub open spec fn close_post(before: Seq<Seq<char>>, after: Seq<Seq<char>>, uri: Seq<char>) -> bool {
    &&& !after.contains(uri)
    &&& (before.contains(uri) ==> exists|j: int|
        0 <= j < before.len() && before[j] == uri && after == before.remove(j))
    &&& (!before.contains(uri) ==> after == before)
}

/// `after` is `before` after a sub-request ID `id` was allocated.
pub open spec fn alloc_post(before: Synthesizer, after: Synthesizer, id: Seq<char>) -> bool {
    &&& id == sub_id(before.next_sub())
    &&& !before.pending_seq().contains(id)
    &&& after.pending_seq() == before.pending_seq().push(id)
    &&& after.pending_senders().drop_last() == before.pending_senders()
    &&& after.next_sub() == before.next_sub() + 1
    &&& after.open_seq() == before.open_seq()
}

/// `after` is `before` after a response with ID `id` was offered, and `r` says
/// whether it was awaited.
pub open spec fn complete_post(before: Synthesizer, after: Synthesizer, id: Seq<char>, r: bool) -> bool {
    &&& r == before.pending_seq().contains(id)
    &&& !after.pending_seq().contains(id)
    &&& forall|x: Seq<char>| #[trigger]
        after.pending_seq().contains(x) <==> before.pending_seq().contains(x) && x != id
    &&& (r ==> exists|j: int|
        0 <= j < before.pending_seq().len() && before.pending_seq()[j] == id && after.pending_seq()
            == before.pending_seq().remove(j) && after.pending_senders() == before.pending_senders().remove(j))
    &&& (!r ==> after.pending_seq() == before.pending_seq() && after.pending_senders()
        == before.pending_senders())
    &&& after.next_sub() == before.next_sub()
    &&& after.open_seq() == before.open_seq()
}

/// `tx` is the sender that the response to the awaited sub-request `id` goes to in
/// state `s`.
pub open spec fn sender_of(s: Synthesizer, id: Seq<char>, tx: Sender<Json>) -> bool {
    exists|j: int|
        0 <= j < s.pending_seq().len() && s.pending_seq()[j] == id && s.pending_senders()[j] == tx
}

/// A state whose open files have no duplicates and whose sub-requests are those of a
/// consistent state is consistent.
proof fn lemma_wf_same_pending(a: Synthesizer, b: Synthesizer)
    requires
        a.wf(),
        b.open_seq().no_duplicates(),
        b.pending_seq() == a.pending_seq(),
        b.next_sub() == a.next_sub(),
    ensures
        b.wf(),
{
    assert forall|i: int| 0 <= i < b.pending_seq().len() implies issued(
        #[trigger] b.pending_seq()[i],
        b.next_sub(),
    ) by {
        assert(a.pending_seq()[i] == b.pending_seq()[i]);
    }
}

/// Removing an element from a sequence without duplicates removes exactly that value
/// and keeps the rest free of duplicates.
pub proof fn lemma_remove_unique(s: Seq<Seq<char>>, j: int)
    requires
        s.no_duplicates(),
        0 <= j < s.len(),
    ensures
        s.remove(j).no_duplicates(),
        forall|x: Seq<char>| #[trigger] s.remove(j).contains(x) <==> s.contains(x) && x != s[j],
{
    let r = s.remove(j);
    assert forall|a: int, b: int| 0 <= a < b < r.len() implies r[a] != r[b] by {
        let a2 = if a < j { a } else { a + 1 };
        let b2 = if b < j { b } else { b + 1 };
        assert(r[a] == s[a2] && r[b] == s[b2]);
    }
    assert forall|x: Seq<char>| #[trigger] r.contains(x) <==> s.contains(x) && x != s[j] by {
        if r.contains(x) {
            let k = choose|k: int| 0 <= k < r.len() && r[k] == x;
            let k2 = if k < j { k } else { k + 1 };
            assert(s[k2] == x);
        }
        if s.contains(x) && x != s[j] {
            let k = choose|k: int| 0 <= k < s.len() && s[k] == x;
            if k < j {
                assert(r[k] == x);
            } else {
                assert(r[k - 1] == x);
            }
        }
    }
}

/// Two successive allocations give different sub-request IDs.
pub proof fn law_alloc_unique(
    s0: Synthesizer,
    s1: Synthesizer,
    s2: Synthesizer,
    a: Seq<char>,
    b: Seq<char>,
)
    requires
        alloc_post(s0, s1, a),
        alloc_post(s1, s2, b),
    ensures
        a != b,
{
    assert(s1.pending_seq()[s1.pending_seq().len() - 1] == a);
}

/// The response to an allocated sub-request is consumed by the synthesiser.
pub proof fn law_complete_after_alloc(
    s0: Synthesizer,
    s1: Synthesizer,
    s2: Synthesizer,
    id: Seq<char>,
    r: bool,
)
    requires
        alloc_post(s0, s1, id),
        complete_post(s1, s2, id, r),
    ensures
        r,
{
    assert(s1.pending_seq()[s1.pending_seq().len() - 1] == id);
}

/// A sub-request is completed at most once: offering the same ID again forwards it.
pub proof fn law_complete_once(
    s0: Synthesizer,
    s1: Synthesizer,
    s2: Synthesizer,
    id: Seq<char>,
    r1: bool,
    r2: bool,
)
    requires
        complete_post(s0, s1, id, r1),
        complete_post(s1, s2, id, r2),
    ensures
        !r2,
{
}

/// Completing one sub-request leaves every other awaited sub-request awaited.
pub proof fn law_complete_keeps_others(
    s0: Synthesizer,
    s1: Synthesizer,
    id: Seq<char>,
    other: Seq<char>,
    r: bool,
)
    requires
        complete_post(s0, s1, id, r),
        s0.pending_seq().contains(other),
        other != id,
    ensures
        s1.pending_seq().contains(other),
{
}

/// After a file is opened it is tracked as open, once; after it is closed it is no
/// longer tracked, and every other open file stays open.
pub proof fn law_open_close(
    before: Seq<Seq<char>>,
    after: Seq<Seq<char>>,
    uri: Seq<char>,
    other: Seq<char>,
)
    requires
        before.no_duplicates(),
        close_post(open_post(before, uri), after, uri),
    ensures
        open_post(before, uri).contains(uri),
        open_post(before, uri).no_duplicates(),
        !after.contains(uri),
        before.contains(other) && other != uri ==> after.contains(other),
{
    let mid = open_post(before, uri);
    if !before.contains(uri) {
        assert(mid[mid.len() - 1] == uri);
        assert forall|a: int, b: int| 0 <= a < b < mid.len() implies mid[a] != mid[b] by {
            if b == mid.len() - 1 {
                assert(mid[a] == before[a]);
            }
        }
    }
    if before.contains(other) && other != uri {
        let k = choose|k: int| 0 <= k < before.len() && before[k] == other;
        assert(mid[k] == other);
        let j = choose|j: int| 0 <= j < mid.len() && mid[j] == uri && after == mid.remove(j);
        if k < j {
            assert(after[k] == other);
        } else {
            assert(after[k - 1] == other);
        }
    }
}

/// From a fresh state, successive allocations give `__synth_0`, `__synth_1`, ...:
/// the `k`-th ID is `__synth_<k>`, the IDs are pairwise distinct, and they are all
/// awaited, in order.
pub proof fn law_alloc_from_new(states: Seq<Synthesizer>, ids: Seq<Seq<char>>)
    requires
        states.len() == ids.len() + 1,
        states[0].next_sub() == 0,
        states[0].pending_seq() == Seq::<Seq<char>>::empty(),
        forall|k: int|
            #![trigger states[k], ids[k]]
            0 <= k < ids.len() ==> alloc_post(states[k], states[k + 1], ids[k]),
    ensures
        forall|k: int| 0 <= k < ids.len() ==> #[trigger] ids[k] == sub_id(k as nat),
        forall|a: int, b: int| 0 <= a < b < ids.len() ==> ids[a] != ids[b],
        forall|k: int| 0 <= k < states.len() ==> #[trigger] states[k].next_sub() == k,
        states.last().pending_seq() == ids,
    decreases ids.len(),
{
    let n = ids.len() as int;
    if n > 0 {
        let s2 = states.drop_last();
        let i2 = ids.drop_last();
        assert forall|k: int| #![trigger s2[k], i2[k]] 0 <= k < i2.len() implies alloc_post(s2[k], s2[k + 1], i2[k]) by {
            assert(s2[k] == states[k] && s2[k + 1] == states[k + 1] && i2[k] == ids[k]);
        }
        law_alloc_from_new(s2, i2);
        assert(states[n - 1] == s2[n - 1]);
        assert(states[n - 1].next_sub() == n - 1);
        assert(alloc_post(states[n - 1], states[n], ids[n - 1]));
        assert forall|k: int| 0 <= k < ids.len() implies #[trigger] ids[k] == sub_id(k as nat) by {
            if k < n - 1 {
                assert(ids[k] == i2[k]);
            }
        }
        assert forall|a: int, b: int| 0 <= a < b < ids.len() implies ids[a] != ids[b] by {
            lemma_sub_id_injective(a as nat, b as nat);
        }
        assert forall|k: int| 0 <= k < states.len() implies #[trigger] states[k].next_sub() == k by {
            if k < n {
                assert(states[k] == s2[k]);
            }
        }
        assert(states.last().pending_seq() =~= ids);
    }
}

/// One step of the life of a [`Synthesizer`]'s sub-requests: an allocation giving an
/// ID, or a response offered for an ID, with whether it was taken.
pub enum SubOp {
    Alloc(Seq<char>),
    Complete(Seq<char>, bool),
}

/// `after` is `before` after `op`.
pub open spec fn step_post(before: Synthesizer, after: Synthesizer, op: SubOp) -> bool {
    match op {
        SubOp::Alloc(id) => alloc_post(before, after, id),
        SubOp::Complete(id, r) => complete_post(before, after, id, r),
    }
}

/// `x` was allocated by one of `ops` and not completed by a later one.
pub open spec fn awaited_after(ops: Seq<SubOp>, x: Seq<char>) -> bool
    decreases ops.len(),
{
    if ops.len() == 0 {
        false
    } else {
        match ops.last() {
            SubOp::Alloc(id) => id == x || awaited_after(ops.drop_last(), x),
            SubOp::Complete(id, _) => id != x && awaited_after(ops.drop_last(), x),
        }
    }
}

/// From a state awaiting nothing, an ID is awaited exactly when an allocation gave it
/// and no later completion took it, and a response is taken (`try_complete` gives
/// `Some`) exactly for such an ID.
pub proof fn law_awaited_history(states: Seq<Synthesizer>, ops: Seq<SubOp>)
    requires
        states.len() == ops.len() + 1,
        states[0].pending_seq() == Seq::<Seq<char>>::empty(),
        forall|k: int|
            #![trigger states[k], ops[k]]
            0 <= k < ops.len() ==> step_post(states[k], states[k + 1], ops[k]),
    ensures
        forall|x: Seq<char>| #[trigger] states.last().pending_seq().contains(x) <==> awaited_after(ops, x),
        forall|k: int|
            0 <= k < ops.len() ==> (#[trigger] ops[k] matches SubOp::Complete(id, r) ==> r == awaited_after(
                ops.take(k),
                id,
            )),
    decreases ops.len(),
{
    let n = ops.len() as int;
    if n == 0 {
        assert forall|x: Seq<char>| #[trigger] states.last().pending_seq().contains(x) <==> awaited_after(ops, x) by {
            assert(states.last() == states[0]);
        }
    } else {
        let s2 = states.drop_last();
        let o2 = ops.drop_last();
        assert forall|k: int| #![trigger s2[k], o2[k]] 0 <= k < o2.len() implies step_post(s2[k], s2[k + 1], o2[k]) by {
            assert(s2[k] == states[k] && s2[k + 1] == states[k + 1] && o2[k] == ops[k]);
        }
        law_awaited_history(s2, o2);
        let before = states[n - 1];
        let after = states[n];
        assert(before == s2.last());
        assert(step_post(before, after, ops[n - 1]));
        assert forall|x: Seq<char>| #[trigger] states.last().pending_seq().contains(x) <==> awaited_after(ops, x) by {
            assert(before.pending_seq().contains(x) <==> awaited_after(o2, x));
            match ops[n - 1] {
                SubOp::Alloc(id) => {
                    assert(after.pending_seq() == before.pending_seq().push(id));
                    if x == id {
                        assert(after.pending_seq()[before.pending_seq().len() as int] == x);
                    } else if before.pending_seq().contains(x) {
                        let j = choose|j: int| 0 <= j < before.pending_seq().len() && before.pending_seq()[j] == x;
                        assert(after.pending_seq()[j] == x);
                    } else if after.pending_seq().contains(x) {
                        let j = choose|j: int| 0 <= j < after.pending_seq().len() && after.pending_seq()[j] == x;
                        assert(before.pending_seq()[j] == x);
                    }
                },
                SubOp::Complete(id, r) => {},
            }
        }
        assert forall|k: int|
            0 <= k < ops.len() implies (#[trigger] ops[k] matches SubOp::Complete(id, r) ==> r == awaited_after(
                ops.take(k),
                id,
            )) by {
            if k < n - 1 {
                assert(ops[k] == o2[k]);
                assert(ops.take(k) =~= o2.take(k));
            } else {
                assert(ops.take(k) =~= o2);
                if let SubOp::Complete(id, r) = ops[k] {
                    assert(before.pending_seq().contains(id) <==> awaited_after(o2, id));
                }
            }
        }
    }
}

/// The sender handed back for a response to a just-allocated sub-request is the one
/// that allocation stored.
pub proof fn law_completion_sender(s0: Synthesizer, s1: Synthesizer, id: Seq<char>, tx: Sender<Json>)
    requires
        alloc_post(s0, s1, id),
        s1.wf(),
        sender_of(s1, id, tx),
    ensures
        tx == s1.pending_senders().last(),
{
    let n = s1.pending_seq().len() - 1;
    let j = choose|j: int| 0 <= j < s1.pending_seq().len() && s1.pending_seq()[j] == id && s1.pending_senders()[j] == tx;
    assert(s1.pending_seq()[n] == id);
    assert(j == n);
}

/// The `callHierarchy/incomingCalls` answer has one call per reference, in order:
/// call `k` comes from the file and range of reference `k` (its `fromRanges` is
/// exactly that range) and carries the item's name and kind.  Without an array of
/// references the answer is empty.
pub proof fn law_incoming_from_references(item: JsonV, result: Option<JsonV>)
    ensures
        (result matches Some(r) && jarray(r) is Some) ==> ({
            let locs = jarray(result->Some_0)->Some_0;
            let calls = jarray(spec_incoming_result(item, result))->Some_0;
            &&& jarray(spec_incoming_result(item, result)) is Some
            &&& calls.len() == locs.len()
            &&& forall|k: int|
                0 <= k < locs.len() ==> {
                    let from = jindex(#[trigger] calls[k], "from"@);
                    &&& jindex(calls[k], "fromRanges"@) == JsonV::Array(seq![jindex(locs[k], "range"@)])
                    &&& jindex(from, "range"@) == jindex(locs[k], "range"@)
                    &&& jindex(from, "selectionRange"@) == jindex(locs[k], "range"@)
                    &&& jindex(from, "uri"@) == JsonV::Str(
                        match jstr(jindex(locs[k], "uri"@)) {
                            Some(u) => u,
                            None => ""@,
                        },
                    )
                    &&& jindex(from, "name"@) == jindex(item, "name"@)
                    &&& jindex(from, "kind"@) == jindex(item, "kind"@)
                }
        }),
        !(result matches Some(r) && jarray(r) is Some) ==> spec_incoming_result(item, result) == JsonV::Array(
            Seq::empty(),
        ),
{
    reveal_strlit("from");
    reveal_strlit("fromRanges");
    reveal_strlit("name");
    reveal_strlit("kind");
    reveal_strlit("uri");
    reveal_strlit("range");
    reveal_strlit("selectionRange");
    if let Some(r) = result {
        if let Some(locs) = jarray(r) {
            let calls = locs.map_values(|l: JsonV| incoming_call(item, l));
            assert forall|k: int| 0 <= k < locs.len() implies {
                let from = jindex(#[trigger] calls[k], "from"@);
                &&& jindex(calls[k], "fromRanges"@) == JsonV::Array(seq![jindex(locs[k], "range"@)])
                &&& jindex(from, "range"@) == jindex(locs[k], "range"@)
                &&& jindex(from, "selectionRange"@) == jindex(locs[k], "range"@)
                &&& jindex(from, "uri"@) == JsonV::Str(uri_of(locs[k]))
                &&& jindex(from, "name"@) == jindex(item, "name"@)
                &&& jindex(from, "kind"@) == jindex(item, "kind"@)
            } by {
                let c = incoming_call(item, locs[k]);
                assert(calls[k] == c);
                let f = c->Object_0;
                assert(f[0].0 == "from"@);
                assert(f[1].0 == "fromRanges"@);
                assert("from"@ != "fromRanges"@);
                assert(field_index_from(f, "from"@, 0) == Some(0int));
                assert(f.len() == 2);
                assert(field_index_from(f, "fromRanges"@, 1) == Some(1int));
                assert(field_index_from(f, "fromRanges"@, 0) == Some(1int));
                let g = f[0].1->Object_0;
                let keys = seq!["name"@, "kind"@, "uri"@, "range"@, "selectionRange"@];
                assert(forall|a: int| 0 <= a < 5 ==> g[a].0 == keys[a]);
                assert(forall|a: int, b: int| 0 <= a < b < 5 ==> keys[a] != keys[b]) by {
                    assert(keys[0].len() == 4 && keys[1].len() == 4 && keys[2].len() == 3);
                    assert(keys[3].len() == 5 && keys[4].len() == 14);
                    assert(keys[0][0] != keys[1][0]);
                }
                assert(field_index_from(g, "name"@, 0) == Some(0int));
                assert(field_index_from(g, "kind"@, 1) == Some(1int));
                assert(field_index_from(g, "kind"@, 0) == Some(1int));
                assert(field_index_from(g, "uri"@, 2) == Some(2int));
                assert(field_index_from(g, "uri"@, 1) == Some(2int));
                assert(field_index_from(g, "uri"@, 0) == Some(2int));
                assert(field_index_from(g, "range"@, 3) == Some(3int));
                assert(field_index_from(g, "range"@, 2) == Some(3int));
                assert(field_index_from(g, "range"@, 1) == Some(3int));
                assert(field_index_from(g, "range"@, 0) == Some(3int));
                assert(field_index_from(g, "selectionRange"@, 4) == Some(4int));
                assert(field_index_from(g, "selectionRange"@, 3) == Some(4int));
                assert(field_index_from(g, "selectionRange"@, 2) == Some(4int));
                assert(field_index_from(g, "selectionRange"@, 1) == Some(4int));
                assert(field_index_from(g, "selectionRange"@, 0) == Some(4int));
            }
        }
    }
}

/// What the search among `syms.skip(i)` finds: a symbol whose `range` contains
/// `pos`, found exactly when one of `syms.skip(i)` has such a range.
proof fn lemma_find_from(syms: Seq<JsonV>, pos: JsonV, i: int)
    requires
        0 <= i,
    ensures
        spec_find_from(syms, pos, i) matches Some(x) ==> (jget(x, "range"@) matches Some(rg) && spec_in_range(
            pos,
            rg,
        )),
        spec_find_from(syms, pos, i) is Some <==> exists|j: int|
            i <= j < syms.len() && (jget(#[trigger] syms[j], "range"@) matches Some(rg) && spec_in_range(pos, rg)),
    decreases syms, syms.len() - i,
{
    if i < syms.len() {
        let s = syms[i];
        if sym_hit(s, pos) {
            if let Some(ch) = sym_children(s) {
                lemma_children_decrease(s);
                assert(decreases_to!(syms => s));
                lemma_find_from(ch, pos, 0);
            }
        } else {
            lemma_find_from(syms, pos, i + 1);
            if exists|j: int|
                i <= j < syms.len() && (jget(#[trigger] syms[j], "range"@) matches Some(rg) && spec_in_range(pos, rg)) {
                let j = choose|j: int|
                    i <= j < syms.len() && (jget(#[trigger] syms[j], "range"@) matches Some(rg) && spec_in_range(pos, rg));
                assert(j != i);
            }
        }
    }
}

/// The search for the symbol at a position finds one exactly when some top-level
/// symbol's `range` contains the position, and what it finds has a `range` that
/// contains the position.
pub proof fn law_find_symbol_at(syms: Seq<JsonV>, pos: JsonV)
    ensures
        spec_find_symbol_at(syms, pos) matches Some(x) ==> (jget(x, "range"@) matches Some(rg) && spec_in_range(
            pos,
            rg,
        )),
        spec_find_symbol_at(syms, pos) is Some <==> exists|j: int|
            0 <= j < syms.len() && (jget(#[trigger] syms[j], "range"@) matches Some(rg) && spec_in_range(pos, rg)),
{
    lemma_find_from(syms, pos, 0);
}

/// `textDocument/prepareCallHierarchy` answers with one item exactly when some
/// top-level symbol of the file contains the position; that item is in the file
/// asked about and its `range` contains the position.  Otherwise, or without an
/// array of symbols, the answer is empty.
pub proof fn law_prepare_finds_symbol(uri: Seq<char>, pos: JsonV, result: Option<JsonV>)
    ensures
        ({
            let ans = spec_prepare_result(uri, pos, result);
            let hit = result matches Some(r) && jarray(r) matches Some(syms) && exists|j: int|
                0 <= j < syms.len() && (jget(#[trigger] syms[j], "range"@) matches Some(rg) && spec_in_range(pos, rg));
            &&& hit ==> (jarray(ans) matches Some(items) && items.len() == 1 && jindex(items[0], "uri"@)
                == JsonV::Str(uri) && spec_in_range(pos, jindex(items[0], "range"@)))
            &&& !hit ==> ans == JsonV::Array(Seq::empty())
        }),
{
    if let Some(r) = result {
        if let Some(syms) = jarray(r) {
            law_find_symbol_at(syms, pos);
            if let Some(sym) = spec_find_symbol_at(syms, pos) {
                reveal_strlit("name");
                reveal_strlit("kind");
                reveal_strlit("uri");
                reveal_strlit("range");
                let g = call_item(sym, uri)->Object_0;
                let keys = seq!["name"@, "kind"@, "uri"@, "range"@, "selectionRange"@];
                assert(forall|a: int| 0 <= a < 4 ==> g[a].0 == keys[a]);
                assert(keys[0].len() == 4 && keys[1].len() == 4 && keys[2].len() == 3 && keys[3].len() == 5);
                assert(keys[0][0] != keys[1][0]);
                assert(field_index_from(g, "uri"@, 2) == Some(2int));
                assert(field_index_from(g, "uri"@, 1) == Some(2int));
                assert(field_index_from(g, "uri"@, 0) == Some(2int));
                assert(field_index_from(g, "range"@, 3) == Some(3int));
                assert(field_index_from(g, "range"@, 2) == Some(3int));
                assert(field_index_from(g, "range"@, 1) == Some(3int));
                assert(field_index_from(g, "range"@, 0) == Some(3int));
                assert(jindex(sym, "range"@) == jget(sym, "range"@)->Some_0);
            }
        }
    }
}

/// The flattened symbol `sym` starts inside `range`: the start of its location range
/// lies in `range`.
pub open spec fn location_starts_in(sym: JsonV, range: JsonV) -> bool {
    jget(sym, "location"@) matches Some(l) && jget(l, "range"@) matches Some(rg) && jget(rg, "start"@) matches Some(
        st,
    ) && spec_in_range(st, range)
}

/// `calls` holds one outgoing call per symbol of `flat` that starts inside `range`,
/// in the order of `flat`: call `k` is made from symbol `f[k]`, goes to `uri` and
/// has that symbol's location range.
pub open spec fn outgoing_matches(calls: Seq<JsonV>, flat: Seq<JsonV>, range: JsonV, uri: Seq<char>, f: Seq<int>) -> bool {
    &&& f.len() == calls.len()
    &&& forall|k: int, l: int| 0 <= k < l < f.len() ==> f[k] < f[l]
    &&& forall|k: int|
        0 <= k < f.len() ==> {
            let to = jindex(calls[k], "to"@);
            &&& 0 <= #[trigger] f[k] < flat.len()
            &&& jindex(to, "range"@) == jindex(jindex(flat[f[k]], "location"@), "range"@)
            &&& jindex(to, "uri"@) == JsonV::Str(uri)
        }
    &&& forall|j: int|
        0 <= j < flat.len() ==> (location_starts_in(#[trigger] flat[j], range) <==> exists|k: int|
            0 <= k < f.len() && f[k] == j)
}

/// The `to` member of an outgoing call: its `uri` and `range`.
proof fn lemma_outgoing_call_fields(sym: JsonV, uri: Seq<char>)
    ensures
        jindex(jindex(outgoing_call(sym, uri), "to"@), "uri"@) == JsonV::Str(uri),
        jindex(jindex(outgoing_call(sym, uri), "to"@), "range"@) == jindex(jindex(sym, "location"@), "range"@),
{
    reveal_strlit("to");
    reveal_strlit("name");
    reveal_strlit("kind");
    reveal_strlit("uri");
    reveal_strlit("range");
    let f = outgoing_call(sym, uri)->Object_0;
    assert(field_index_from(f, "to"@, 0) == Some(0int));
    let g = f[0].1->Object_0;
    let keys = seq!["name"@, "kind"@, "uri"@, "range"@];
    assert(forall|a: int| 0 <= a < 4 ==> g[a].0 == keys[a]);
    assert(keys[0].len() == 4 && keys[1].len() == 4 && keys[2].len() == 3 && keys[3].len() == 5);
    assert(keys[0][0] != keys[1][0]);
    assert(field_index_from(g, "uri"@, 2) == Some(2int));
    assert(field_index_from(g, "uri"@, 1) == Some(2int));
    assert(field_index_from(g, "uri"@, 0) == Some(2int));
    assert(field_index_from(g, "range"@, 3) == Some(3int));
    assert(field_index_from(g, "range"@, 2) == Some(3int));
    assert(field_index_from(g, "range"@, 1) == Some(3int));
    assert(field_index_from(g, "range"@, 0) == Some(3int));
}

/// The outgoing calls among `flat` are those of the symbols that start inside
/// `range`, one each, in order; `f` gives the symbol of each call.
proof fn lemma_outgoing_from(flat: Seq<JsonV>, range: JsonV, uri: Seq<char>) -> (f: Seq<int>)
    ensures
        outgoing_matches(outgoing_from(flat, range, uri), flat, range, uri, f),
    decreases flat.len(),
{
    if flat.len() == 0 {
        Seq::empty()
    } else {
        let n = flat.len() - 1;
        let fl = flat.drop_last();
        let g = lemma_outgoing_from(fl, range, uri);
        let rest = outgoing_from(fl, range, uri);
        assert(starts_inside(flat.last(), range) == location_starts_in(flat.last(), range));
        if starts_inside(flat.last(), range) {
            let calls = rest.push(outgoing_call(flat.last(), uri));
            let f = g.push(n);
            lemma_outgoing_call_fields(flat.last(), uri);
            assert forall|k: int| 0 <= k < f.len() implies {
                let to = jindex(calls[k], "to"@);
                &&& 0 <= #[trigger] f[k] < flat.len()
                &&& jindex(to, "range"@) == jindex(jindex(flat[f[k]], "location"@), "range"@)
                &&& jindex(to, "uri"@) == JsonV::Str(uri)
            } by {
                if k < g.len() {
                    assert(f[k] == g[k] && calls[k] == rest[k] && flat[g[k]] == fl[g[k]]);
                }
            }
            assert forall|k: int, l: int| 0 <= k < l < f.len() implies f[k] < f[l] by {
                if l < g.len() {
                    assert(f[k] == g[k] && f[l] == g[l]);
                } else {
                    assert(f[k] == g[k]);
                }
            }
            assert forall|j: int| 0 <= j < flat.len() implies (location_starts_in(#[trigger] flat[j], range) <==> exists|k: int|
                0 <= k < f.len() && f[k] == j) by {
                if j < n {
                    assert(flat[j] == fl[j]);
                    if exists|k: int| 0 <= k < g.len() && g[k] == j {
                        let k = choose|k: int| 0 <= k < g.len() && g[k] == j;
                        assert(f[k] == j);
                    }
                    if exists|k: int| 0 <= k < f.len() && f[k] == j {
                        let k = choose|k: int| 0 <= k < f.len() && f[k] == j;
                        assert(k < g.len());
                        assert(g[k] == j);
                    }
                } else {
                    assert(f[g.len() as int] == j);
                }
            }
            f
        } else {
            assert forall|k: int| 0 <= k < g.len() implies {
                let to = jindex(rest[k], "to"@);
                &&& 0 <= #[trigger] g[k] < flat.len()
                &&& jindex(to, "range"@) == jindex(jindex(flat[g[k]], "location"@), "range"@)
                &&& jindex(to, "uri"@) == JsonV::Str(uri)
            } by {
                assert(flat[g[k]] == fl[g[k]]);
            }
            assert forall|j: int| 0 <= j < flat.len() implies (location_starts_in(#[trigger] flat[j], range) <==> exists|k: int|
                0 <= k < g.len() && g[k] == j) by {
                if j < n {
                    assert(flat[j] == fl[j]);
                } else {
                    if exists|k: int| 0 <= k < g.len() && g[k] == j {
                        let k = choose|k: int| 0 <= k < g.len() && g[k] == j;
                        assert(g[k] < fl.len());
                    }
                }
            }
            g
        }
    }
}

/// The `callHierarchy/outgoingCalls` answer for `item` holds one call per symbol of
/// the item's file `uri_of(item)` (flattened) whose location starts inside the item's `range`, in
/// file order, each to the item's file with that symbol's range.  Without an array
/// of symbols the answer is empty.
pub proof fn law_outgoing_calls(item: JsonV, result: Option<JsonV>)
    ensures
        (result matches Some(r) && jarray(r) is Some) ==> jarray(spec_outgoing_result(item, result)) is Some,
        (result matches Some(r) && jarray(r) is Some) ==> exists|f: Seq<int>|
            outgoing_matches(
                jarray(spec_outgoing_result(item, result))->Some_0,
                spec_flatten(jarray(result->Some_0)->Some_0, uri_of(item), None),
                jindex(item, "range"@),
                uri_of(item),
                f,
            ),
        !(result matches Some(r) && jarray(r) is Some) ==> spec_outgoing_result(item, result) == JsonV::Array(
            Seq::empty(),
        ),
{
    if let Some(r) = result {
        if let Some(syms) = jarray(r) {
            let uri = uri_of(item);
            let flat = spec_flatten(syms, uri, None);
            let f = lemma_outgoing_from(flat, item_range(item), uri);
            let calls = jarray(spec_outgoing_result(item, result))->Some_0;
            assert(calls == outgoing_from(flat, item_range(item), uri));
            assert(outgoing_matches(calls, flat, jindex(item, "range"@), uri, f));
        }
    }
}

/// The text of a symbol's `name`, or `""`.
pub open spec fn name_text(x: JsonV) -> Seq<char> {
    match jstr(jindex(x, "name"@)) {
        Some(s) => s,
        None => ""@,
    }
}

/// The flattened symbols of one `documentSymbol` response `(uri, result)`; none when
/// the result is missing or not an array.
pub open spec fn response_flat(resp: (Seq<char>, Option<JsonV>)) -> Seq<JsonV> {
    match resp.1 {
        Some(r) => match jarray(r) {
            Some(syms) => spec_flatten(syms, resp.0, None),
            None => Seq::empty(),
        },
        None => Seq::empty(),
    }
}

/// The symbols kept from `flat` for the lower-cased query `q` are those of `flat`
/// whose lower-cased name contains `q` (all of them when `q` is empty).
proof fn lemma_matching(flat: Seq<JsonV>, q: Seq<char>, x: JsonV)
    ensures
        matching_symbols(flat, q).contains(x) <==> flat.contains(x) && (q.len() == 0 || contains_seq(
            ascii_lower(name_text(x)),
            q,
        )),
    decreases flat.len(),
{
    if flat.len() > 0 {
        let fl = flat.drop_last();
        lemma_matching(fl, q, x);
        let rest = matching_symbols(fl, q);
        if flat.contains(x) {
            let j = choose|j: int| 0 <= j < flat.len() && flat[j] == x;
            if j < fl.len() {
                assert(fl[j] == x);
            }
        }
        if fl.contains(x) {
            let j = choose|j: int| 0 <= j < fl.len() && fl[j] == x;
            assert(flat[j] == x);
        }
        if query_matches(flat.last(), q) {
            let m = rest.push(flat.last());
            if rest.contains(x) {
                let j = choose|j: int| 0 <= j < rest.len() && rest[j] == x;
                assert(m[j] == x);
            }
            if m.contains(x) {
                let j = choose|j: int| 0 <= j < m.len() && m[j] == x;
                if j < rest.len() {
                    assert(rest[j] == x);
                }
            }
            assert(m[rest.len() as int] == flat.last());
        }
    }
}

/// A sequence contains `x` in `a + b` exactly when `a` or `b` does.
proof fn lemma_concat_contains(a: Seq<JsonV>, b: Seq<JsonV>, x: JsonV)
    ensures
        (a + b).contains(x) <==> a.contains(x) || b.contains(x),
{
    if a.contains(x) {
        let j = choose|j: int| 0 <= j < a.len() && a[j] == x;
        assert((a + b)[j] == x);
    }
    if b.contains(x) {
        let j = choose|j: int| 0 <= j < b.len() && b[j] == x;
        assert((a + b)[a.len() + j] == x);
    }
    if (a + b).contains(x) {
        let j = choose|j: int| 0 <= j < (a + b).len() && (a + b)[j] == x;
        if j < a.len() {
            assert(a[j] == x);
        } else {
            assert(b[j - a.len()] == x);
        }
    }
}

/// `workspace/symbol` answers with exactly the flattened symbols of the open files'
/// `documentSymbol` results whose names contain the query, ignoring ASCII case
/// (every symbol when the query is empty).
pub proof fn law_workspace_symbols(query: Seq<char>, responses: Seq<(Seq<char>, Option<JsonV>)>, x: JsonV)
    ensures
        spec_workspace_symbols(query, responses).contains(x) <==> (exists|i: int|
            0 <= i < responses.len() && #[trigger] response_flat(responses[i]).contains(x)) && (query.len() == 0
            || contains_seq(ascii_lower(name_text(x)), ascii_lower(query))),
    decreases responses.len(),
{
    let q = ascii_lower(query);
    assert(q.len() == query.len());
    if responses.len() > 0 {
        let rs = responses.drop_last();
        law_workspace_symbols(query, rs, x);
        let last = responses.last();
        let here = response_symbols(last.0, last.1, q);
        lemma_concat_contains(spec_workspace_symbols(query, rs), here, x);
        lemma_matching(response_flat(last), q, x);
        assert(here == matching_symbols(response_flat(last), q) || (here == Seq::<JsonV>::empty()
            && response_flat(last) == Seq::<JsonV>::empty()));
        if exists|i: int| 0 <= i < responses.len() && #[trigger] response_flat(responses[i]).contains(x) {
            let i = choose|i: int| 0 <= i < responses.len() && #[trigger] response_flat(responses[i]).contains(x);
            if i < rs.len() {
                assert(rs[i] == responses[i]);
                assert(response_flat(rs[i]).contains(x));
            }
        }
        if exists|i: int| 0 <= i < rs.len() && #[trigger] response_flat(rs[i]).contains(x) {
            let i = choose|i: int| 0 <= i < rs.len() && #[trigger] response_flat(rs[i]).contains(x);
            assert(rs[i] == responses[i]);
            assert(response_flat(responses[i]).contains(x));
        }
        if response_flat(last).contains(x) {
            assert(response_flat(responses[responses.len() - 1]).contains(x));
        }
    }
}

/// Each top-level symbol's `SymbolInformation` is among the flattened symbols.
proof fn lemma_flatten_has_top(syms: Seq<JsonV>, uri: Seq<char>, container: Option<Seq<char>>, k: int)
    requires
        0 <= k < syms.len(),
    ensures
        spec_flatten(syms, uri, container).contains(symbol_info(syms[k], uri, container)),
    decreases syms.len(),
{
    let n = syms.len() - 1;
    let last = syms.last();
    let kids = match sym_children(last) {
        Some(ch) => spec_flatten(ch, uri, Some(sym_name(last))),
        None => Seq::empty(),
    };
    let head = spec_flatten(syms.drop_last(), uri, container);
    let info = symbol_info(syms[k], uri, container);
    assert(spec_flatten(syms, uri, container) == head + seq![symbol_info(last, uri, container)] + kids);
    if k < n {
        lemma_flatten_has_top(syms.drop_last(), uri, container, k);
        assert(syms.drop_last()[k] == syms[k]);
        lemma_concat_contains(head, seq![symbol_info(last, uri, container)], info);
        lemma_concat_contains(head + seq![symbol_info(last, uri, container)], kids, info);
    } else {
        assert(seq![symbol_info(last, uri, container)][0] == info);
        lemma_concat_contains(head, seq![symbol_info(last, uri, container)], info);
        lemma_concat_contains(head + seq![symbol_info(last, uri, container)], kids, info);
    }
}

/// A text contains itself.
proof fn lemma_contains_self(s: Seq<char>)
    ensures
        contains_seq(s, s),
{
    assert(s.skip(0).take(s.len() as int) =~= s);
}

/// A top-level symbol of an open file whose (string) name is the query, in whatever
/// ASCII case, is in the `workspace/symbol` answer, under its own name and that
/// file's URI.
pub proof fn law_workspace_symbols_name_equal(
    query: Seq<char>,
    responses: Seq<(Seq<char>, Option<JsonV>)>,
    i: int,
    k: int,
)
    requires
        0 <= i < responses.len(),
        responses[i].1 matches Some(r) && jarray(r) matches Some(syms) && 0 <= k < syms.len() && jstr(
            jindex(syms[k], "name"@),
        ) is Some && ascii_lower(name_text(syms[k])) == ascii_lower(query),
    ensures
        exists|x: JsonV|
            #[trigger] spec_workspace_symbols(query, responses).contains(x) && jindex(x, "name"@) == JsonV::Str(
                name_text(jarray(responses[i].1->Some_0)->Some_0[k]),
            ) && jindex(jindex(x, "location"@), "uri"@) == JsonV::Str(responses[i].0),
{
    let syms = jarray(responses[i].1->Some_0)->Some_0;
    let sym = syms[k];
    let uri = responses[i].0;
    let x = symbol_info(sym, uri, None);
    lemma_flatten_has_top(syms, uri, None, k);
    assert(response_flat(responses[i]).contains(x));
    reveal_strlit("name");
    reveal_strlit("kind");
    reveal_strlit("location");
    reveal_strlit("uri");
    let f = x->Object_0;
    assert(f[0].0 == "name"@ && f[1].0 == "kind"@ && f[2].0 == "location"@);
    assert("name"@[0] != "location"@[0] && "kind"@[0] != "location"@[0]);
    assert(field_index_from(f, "name"@, 0) == Some(0int));
    assert(field_index_from(f, "location"@, 2) == Some(2int));
    assert(field_index_from(f, "location"@, 1) == Some(2int));
    assert(field_index_from(f, "location"@, 0) == Some(2int));
    let l = f[2].1->Object_0;
    assert(field_index_from(l, "uri"@, 0) == Some(0int));
    assert(name_text(sym) == sym_name(sym));
    assert(jstr(jindex(x, "name"@)) == Some(sym_name(sym)));
    assert(name_text(x) == sym_name(sym));
    lemma_contains_self(ascii_lower(query));
    law_workspace_symbols(query, responses, x);
}

} // verus!
