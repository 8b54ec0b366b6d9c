//! Routing decisions of the bidirectional TCP/stdio bridge.
//!
//! Before a client message is forwarded to Godot, the bridge inspects it and either
//! passes it through unchanged or intercepts it to synthesise a response
//! ([`handle_client_message`]).  `textDocument/didOpen` and `textDocument/didClose`
//! also update the set of open files.  Messages from Godot are either responses to
//! synthesis sub-requests, handed back with the sender of the waiting synthesis, or forwarded to the
//! client ([`route_godot_message`]).  The I/O itself is the caller's.

use vstd::prelude::*;
use crate::json::{jget, jindex, jstr, Json, JsonV};
use crate::lsp::index_or_null;
use crate::synthesizer::{close_post, complete_post, open_post, sender_of, Synthesizer};
use tokio::sync::oneshot::Sender;
use crate::text::{chars_of, has_prefix, matches_at};

verus! {

/// Outcome of a single bridge session.
#[derive(Debug, Clone, Copy, PartialEq, Eq, Structural)]
pub enum RunOutcome {
    /// stdin reached EOF — the host editor has exited.  Do not reconnect.
    StdinClosed,
    /// The TCP connection to Godot's LSP dropped.  Reconnecting is appropriate.
    TcpClosed,
}

/// What to do with a message from the client.
#[derive(Debug)]
pub enum ClientRoute {
    /// Forward the message to Godot unchanged.
    Forward,
    /// An intercepted request without an `id`: neither forwarded nor answered.
    Drop,
    /// Synthesise `workspace/symbol` for `query`.
    WorkspaceSymbol { id: Json, query: String },
    /// Synthesise `textDocument/prepareCallHierarchy`.
    PrepareCallHierarchy { id: Json, text_document: Json, position: Json },
    /// Synthesise `callHierarchy/incomingCalls` for `item`.
    IncomingCalls { id: Json, item: Json },
    /// Synthesise `callHierarchy/outgoingCalls` for `item`.
    OutgoingCalls { id: Json, item: Json },
}

/// The view of a [`ClientRoute`].
pub enum ClientRouteV {
    Forward,
    Drop,
    WorkspaceSymbol { id: JsonV, query: Seq<char> },
    PrepareCallHierarchy { id: JsonV, text_document: JsonV, position: JsonV },
    IncomingCalls { id: JsonV, item: JsonV },
    OutgoingCalls { id: JsonV, item: JsonV },
}

impl ClientRoute {
    /// The mathematical value of this route.
    pub open spec fn rv(self) -> ClientRouteV {
        match self {
            ClientRoute::Forward => ClientRouteV::Forward,
            ClientRoute::Drop => ClientRouteV::Drop,
            ClientRoute::WorkspaceSymbol { id, query } => ClientRouteV::WorkspaceSymbol {
                id: id.jv(),
                query: query@,
            },
            ClientRoute::PrepareCallHierarchy { id, text_document, position } =>
                ClientRouteV::PrepareCallHierarchy {
                id: id.jv(),
                text_document: text_document.jv(),
                position: position.jv(),
            },
            ClientRoute::IncomingCalls { id, item } => ClientRouteV::IncomingCalls {
                id: id.jv(),
                item: item.jv(),
            },
            ClientRoute::OutgoingCalls { id, item } => ClientRouteV::OutgoingCalls {
                id: id.jv(),
                item: item.jv(),
            },
        }
    }
}

/// The `method` of a message, when it is a string.
pub open spec fn method_of(m: JsonV) -> Option<Seq<char>> {
    match jget(m, "method"@) {
        Some(x) => jstr(x),
        None => None,
    }
}

/// `params.textDocument.uri`, when it is a string.
pub open spec fn doc_uri(params: JsonV) -> Option<Seq<char>> {
    match jget(params, "textDocument"@) {
        Some(td) => match jget(td, "uri"@) {
            Some(u) => jstr(u),
            None => None,
        },
        None => None,
    }
}

/// `params.query` when it is a string, else `""`.
pub open spec fn query_of(params: JsonV) -> Seq<char> {
    match jget(params, "query"@) {
        Some(q) => match jstr(q) {
            Some(s) => s,
            None => ""@,
        },
        None => ""@,
    }
}

/// The route of a client message (`None` when it is not valid JSON).
pub open spec fn spec_route(msg: Option<JsonV>) -> ClientRouteV {
    match msg {
        None => ClientRouteV::Forward,
        Some(m) => {
            let params = jindex(m, "params"@);
            let id = jget(m, "id"@);
            match method_of(m) {
                Some(meth) => if meth == "workspace/symbol"@ {
                    match id {
                        Some(i) => ClientRouteV::WorkspaceSymbol { id: i, query: query_of(params) },
                        None => ClientRouteV::Drop,
                    }
                } else if meth == "textDocument/prepareCallHierarchy"@ {
                    match id {
                        Some(i) => ClientRouteV::PrepareCallHierarchy {
                            id: i,
                            text_document: jindex(params, "textDocument"@),
                            position: jindex(params, "position"@),
                        },
                        None => ClientRouteV::Drop,
                    }
                } else if meth == "callHierarchy/incomingCalls"@ {
                    match id {
                        Some(i) => ClientRouteV::IncomingCalls { id: i, item: jindex(params, "item"@) },
                        None => ClientRouteV::Drop,
                    }
                } else if meth == "callHierarchy/outgoingCalls"@ {
                    match id {
                        Some(i) => ClientRouteV::OutgoingCalls { id: i, item: jindex(params, "item"@) },
                        None => ClientRouteV::Drop,
                    }
                } else {
                    ClientRouteV::Forward
                },
                None => ClientRouteV::Forward,
            }
        },
    }
}

/// The open files after a client message: `didOpen` adds its document, `didClose`
/// removes it, and every other message leaves them unchanged.
pub open spec fn open_files_after(before: Seq<Seq<char>>, after: Seq<Seq<char>>, msg: Option<JsonV>) -> bool {
    match msg {
        Some(m) => {
            let uri = doc_uri(jindex(m, "params"@));
            if method_of(m) == Some("textDocument/didOpen"@) && uri is Some {
                after == open_post(before, uri.unwrap())
            } else if method_of(m) == Some("textDocument/didClose"@) && uri is Some {
                close_post(before, after, uri.unwrap())
            } else {
                after == before
            }
        },
        None => after == before,
    }
}

/// Whether `s` is the text `lit`.
fn is_text(s: &str, lit: &str) -> (r: bool)
    ensures
        r == (s@ == lit@),
{
    let a = chars_of(s);
    let b = chars_of(lit);
    if a.len() != b.len() {
        return false;
    }
    let r = matches_at(&a, 0, &b);
    assert(a@.skip(0) =~= a@);
    assert(r ==> a@.take(b@.len() as int) =~= a@);
    r
}

/// `params.textDocument.uri`, when it is a string.
fn doc_uri_exec(params: &Json) -> (r: Option<String>)
    ensures
        match r {
            Some(u) => doc_uri(params.jv()) == Some(u@),
            None => doc_uri(params.jv()) is None,
        },
{
    match params.get("textDocument") {
        Some(td) => match td.get("uri") {
            Some(u) => match u.as_str() {
                Some(s) => Some(s.to_owned()),
                None => None,
            },
            None => None,
        },
        None => None,
    }
}

/// Inspects one client message (`None` when it is not valid JSON): updates the open
/// files for `didOpen` / `didClose` and decides whether to forward the message or
/// to synthesise a response.
pub fn handle_client_message(synth: &mut Synthesizer, msg: Option<&Json>) -> (r: ClientRoute)
    requires
        old(synth).wf(),
    ensures
        final(synth).wf(),
        r.rv() == spec_route(match msg {
            Some(m) => Some(m.jv()),
            None => None,
        }),
        open_files_after(old(synth).open_seq(), final(synth).open_seq(), match msg {
            Some(m) => Some(m.jv()),
            None => None,
        }),
        final(synth).pending_seq() == old(synth).pending_seq(),
        final(synth).pending_senders() == old(synth).pending_senders(),
        final(synth).next_sub() == old(synth).next_sub(),
{
    let m = match msg {
        Some(m) => m,
        None => {
            return ClientRoute::Forward;
        },
    };
    let method = match m.get("method") {
        Some(x) => x.as_str(),
        None => None,
    };
    let params = index_or_null(m, "params");
    let meth = match method {
        Some(s) => s,
        None => {
            return ClientRoute::Forward;
        },
    };
    proof {
        reveal_strlit("textDocument/didOpen");
        reveal_strlit("textDocument/didClose");
        reveal_strlit("workspace/symbol");
        reveal_strlit("textDocument/prepareCallHierarchy");
        reveal_strlit("callHierarchy/incomingCalls");
        reveal_strlit("callHierarchy/outgoingCalls");
        let names = seq![
            "workspace/symbol"@,
            "textDocument/prepareCallHierarchy"@,
            "callHierarchy/incomingCalls"@,
            "callHierarchy/outgoingCalls"@,
        ];
        assert(forall|i: int| 0 <= i < 4 ==> names[i] != "textDocument/didOpen"@ && names[i]
            != "textDocument/didClose"@) by {
            assert("textDocument/didOpen"@.len() == 20);
            assert("textDocument/didClose"@.len() == 21);
            assert("workspace/symbol"@.len() == 16);
            assert("textDocument/prepareCallHierarchy"@.len() == 33);
            assert("callHierarchy/incomingCalls"@.len() == 27);
            assert("callHierarchy/outgoingCalls"@.len() == 27);
            assert("textDocument/didOpen"@ != "workspace/symbol"@);
            assert("textDocument/didOpen"@ != "textDocument/prepareCallHierarchy"@);
            assert("textDocument/didOpen"@ != "callHierarchy/incomingCalls"@);
            assert("textDocument/didOpen"@ != "callHierarchy/outgoingCalls"@);
            assert("textDocument/didClose"@ != "workspace/symbol"@);
            assert("textDocument/didClose"@ != "textDocument/prepareCallHierarchy"@);
            assert("textDocument/didClose"@ != "callHierarchy/incomingCalls"@);
            assert("textDocument/didClose"@ != "callHierarchy/outgoingCalls"@);
        }
        assert(names[0] == "workspace/symbol"@);
        assert(names[1] == "textDocument/prepareCallHierarchy"@);
        assert(names[2] == "callHierarchy/incomingCalls"@);
        assert(names[3] == "callHierarchy/outgoingCalls"@);
    }
    if is_text(meth, "textDocument/didOpen") {
        match doc_uri_exec(&params) {
            Some(uri) => synth.on_did_open(uri),
            None => {},
        }
        return ClientRoute::Forward;
    }
    if is_text(meth, "textDocument/didClose") {
        match doc_uri_exec(&params) {
            Some(uri) => synth.on_did_close(uri.as_str()),
            None => {},
        }
        return ClientRoute::Forward;
    }
    let id = match m.get("id") {
        Some(i) => Some(i.deep_clone()),
        None => None,
    };
    if is_text(meth, "workspace/symbol") {
        return match id {
            Some(id) => {
                let query = match params.get("query") {
                    Some(q) => match q.as_str() {
                        Some(s) => s.to_owned(),
                        None => "".to_owned(),
                    },
                    None => "".to_owned(),
                };
                ClientRoute::WorkspaceSymbol { id, query }
            },
            None => ClientRoute::Drop,
        };
    }
    if is_text(meth, "textDocument/prepareCallHierarchy") {
        return match id {
            Some(id) => ClientRoute::PrepareCallHierarchy {
                id,
                text_document: index_or_null(&params, "textDocument"),
                position: index_or_null(&params, "position"),
            },
            None => ClientRoute::Drop,
        };
    }
    if is_text(meth, "callHierarchy/incomingCalls") {
        return match id {
            Some(id) => ClientRoute::IncomingCalls { id, item: index_or_null(&params, "item") },
            None => ClientRoute::Drop,
        };
    }
    if is_text(meth, "callHierarchy/outgoingCalls") {
        return match id {
            Some(id) => ClientRoute::OutgoingCalls { id, item: index_or_null(&params, "item") },
            None => ClientRoute::Drop,
        };
    }
    ClientRoute::Forward
}

/// The sub-request response a Godot message may carry: its string `id` when that
/// starts with `__synth_`, with its `result` (or else its `error`, or else `null`).
pub open spec fn sub_response(msg: Option<JsonV>) -> Option<(Seq<char>, JsonV)> {
    match msg {
        Some(m) => match jget(m, "id"@) {
            Some(i) => match jstr(i) {
                Some(id) => if has_prefix(id, "__synth_"@) {
                    Some(
                        (
                            id,
                            match jget(m, "result"@) {
                                Some(r) => r,
                                None => jindex(m, "error"@),
                            },
                        ),
                    )
                } else {
                    None
                },
                None => None,
            },
            None => None,
        },
        None => None,
    }
}

/// Routes one Godot message (`None` when it is not valid JSON): a response to an
/// awaited synthesis sub-request is consumed, and the result is `Some` of the sender
/// the waiting synthesis listens on, with the value to send it (the response's
/// `result`, else its `error`, else `null`); anything else (`None`) goes to the
/// client.
pub fn route_godot_message(synth: &mut Synthesizer, msg: Option<&Json>) -> (r: Option<(Sender<Json>, Json)>)
    requires
        old(synth).wf(),
    ensures
        final(synth).wf(),
        match sub_response(match msg {
            Some(m) => Some(m.jv()),
            None => None,
        }) {
            None => r is None && *final(synth) == *old(synth),
            Some((id, res)) => complete_post(*old(synth), *final(synth), id, r is Some) && (r matches Some(
                (tx, v),
            ) ==> v.jv() == res && sender_of(*old(synth), id, tx)),
        },
{
    let m = match msg {
        Some(m) => m,
        None => {
            return None;
        },
    };
    let id = match m.get("id") {
        Some(i) => match i.as_str() {
            Some(s) => s,
            None => {
                return None;
            },
        },
        None => {
            return None;
        },
    };
    let c = chars_of(id);
    let pre = chars_of("__synth_");
    assert(c@.skip(0) =~= c@);
    if pre.len() > c.len() || !matches_at(&c, 0, &pre) {
        return None;
    }
    let result = match m.get("result") {
        Some(r) => r.deep_clone(),
        None => index_or_null(m, "error"),
    };
    synth.try_complete(id, result)
}

/// How the synthesised requests are routed: a `workspace/symbol` request with an
/// `id` is answered for `params.query` (else `""`), a
/// `textDocument/prepareCallHierarchy` request for `params.textDocument` at
/// `params.position`, and the `callHierarchy/*Calls` requests for `params.item`;
/// without an `id` none of them is answered or forwarded.
pub proof fn law_route_reads_params(m: JsonV)
    ensures
        ({
            let params = jindex(m, "params"@);
            let meth = jstr(jindex(m, "method"@));
            &&& meth == Some("workspace/symbol"@) ==> match jget(m, "id"@) {
                Some(id) => spec_route(Some(m)) == (ClientRouteV::WorkspaceSymbol {
                    id,
                    query: match jstr(jindex(params, "query"@)) {
                        Some(q) => q,
                        None => ""@,
                    },
                }),
                None => spec_route(Some(m)) is Drop,
            }
            &&& meth == Some("textDocument/prepareCallHierarchy"@) ==> match jget(m, "id"@) {
                Some(id) => spec_route(Some(m)) == (ClientRouteV::PrepareCallHierarchy {
                    id,
                    text_document: jindex(params, "textDocument"@),
                    position: jindex(params, "position"@),
                }),
                None => spec_route(Some(m)) is Drop,
            }
            &&& meth == Some("callHierarchy/incomingCalls"@) ==> match jget(m, "id"@) {
                Some(id) => spec_route(Some(m)) == (ClientRouteV::IncomingCalls {
                    id,
                    item: jindex(params, "item"@),
                }),
                None => spec_route(Some(m)) is Drop,
            }
            &&& meth == Some("callHierarchy/outgoingCalls"@) ==> match jget(m, "id"@) {
                Some(id) => spec_route(Some(m)) == (ClientRouteV::OutgoingCalls {
                    id,
                    item: jindex(params, "item"@),
                }),
                None => spec_route(Some(m)) is Drop,
            }
        }),
{
    reveal_strlit("workspace/symbol");
    reveal_strlit("textDocument/prepareCallHierarchy");
    reveal_strlit("callHierarchy/incomingCalls");
    reveal_strlit("callHierarchy/outgoingCalls");
    assert("workspace/symbol"@.len() == 16);
    assert("textDocument/prepareCallHierarchy"@.len() == 33);
    assert("callHierarchy/incomingCalls"@.len() == 27);
    assert("callHierarchy/outgoingCalls"@.len() == 27);
    assert("callHierarchy/incomingCalls"@[14] != "callHierarchy/outgoingCalls"@[14]);
    let meth = jstr(jindex(m, "method"@));
    assert(meth == method_of(m));
}

} // verus!
