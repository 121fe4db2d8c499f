//! JSON-RPC envelope types: requests, responses, identifiers and errors.
//!
//! An identifier is a tagged variant — absent, text, or number — and is
//! echoed back in exactly the representation it arrived in, so numeric
//! identifiers are never quoted in output.  A response carries exactly one
//! of `result` / `error`; see [`resp_wf`].

use vstd::prelude::*;

use crate::json::{
    bytes_eq, clone_bytes, clone_json, deep_membs, esc, escape, lemma_deep_membs, lit, sb, ser,
    to_bytes, Json, JsonV,
};

verus! {

/// A request identifier: a JSON string or a JSON integer.
///
/// A request without one (or with a literal `null` there, which is
/// normalized to the absent form) is a notification and gets no reply.
#[derive(Debug)]
pub enum Id {
    Num(i64),
    Str(Vec<u8>),
}

/// The model of an identifier.
pub enum IdV {
    Num(int),
    Str(Seq<u8>),
}

impl Id {
    pub open spec fn deep(self) -> IdV {
        match self {
            Id::Num(n) => IdV::Num(n as int),
            Id::Str(t) => IdV::Str(t@),
        }
    }
}

pub open spec fn opt_id_deep(o: Option<Id>) -> Option<IdV> {
    match o {
        Option::Some(id) => Option::Some(id.deep()),
        Option::None => Option::None,
    }
}

/// A fresh copy of an identifier.
pub fn clone_id(id: &Id) -> (r: Id)
    ensures
        r.deep() == id.deep(),
{
    match id {
        Id::Num(n) => Id::Num(*n),
        Id::Str(t) => Id::Str(clone_bytes(t)),
    }
}

/// A fresh copy of an optional identifier.
pub fn clone_opt_id(id: &Option<Id>) -> (r: Option<Id>)
    ensures
        opt_id_deep(r) == opt_id_deep(*id),
{
    match id {
        Option::Some(i) => Option::Some(clone_id(i)),
        Option::None => Option::None,
    }
}

/// A JSON-RPC request.
#[derive(Debug)]
pub struct MCPRequest {
    /// The protocol version string, as sent (its value is not validated).
    pub jsonrpc: Vec<u8>,
    /// The request identifier; absent for notifications.
    pub id: Option<Id>,
    /// The method name.
    pub method: Vec<u8>,
    /// The method parameters; an empty object when the field was absent.
    pub params: Json,
}

/// The model of a request.
pub struct ReqV {
    pub jsonrpc: Seq<u8>,
    pub id: Option<IdV>,
    pub method: Seq<u8>,
    pub params: JsonV,
}

impl MCPRequest {
    pub open spec fn deep(self) -> ReqV {
        ReqV {
            jsonrpc: self.jsonrpc@,
            id: opt_id_deep(self.id),
            method: self.method@,
            params: self.params.deep(),
        }
    }
}

/// A JSON-RPC error object.
#[derive(Debug)]
pub struct MCPError {
    /// The error code.
    pub code: i32,
    /// The human-readable message.
    pub message: Vec<u8>,
    /// Additional data; serialized as `null` when absent.
    pub data: Option<Json>,
}

/// The model of an error object.
pub struct ErrV {
    pub code: int,
    pub message: Seq<u8>,
    pub data: Option<JsonV>,
}

impl MCPError {
    pub open spec fn deep(self) -> ErrV {
        ErrV {
            code: self.code as int,
            message: self.message@,
            data: match self.data {
                Option::Some(d) => Option::Some(d.deep()),
                Option::None => Option::None,
            },
        }
    }
}

/// A JSON-RPC response.
#[derive(Debug)]
pub struct MCPResponse {
    /// The protocol version string, always `2.0`.
    pub jsonrpc: Vec<u8>,
    /// The echoed request identifier; absent where the request had none.
    pub id: Option<Id>,
    /// The result, on success.
    pub result: Option<Json>,
    /// The error, on failure.
    pub error: Option<MCPError>,
}

/// The model of a response.
pub struct RespV {
    pub jsonrpc: Seq<u8>,
    pub id: Option<IdV>,
    pub result: Option<JsonV>,
    pub error: Option<ErrV>,
}

impl MCPResponse {
    pub open spec fn deep(self) -> RespV {
        RespV {
            jsonrpc: self.jsonrpc@,
            id: opt_id_deep(self.id),
            result: match self.result {
                Option::Some(v) => Option::Some(v.deep()),
                Option::None => Option::None,
            },
            error: match self.error {
                Option::Some(e) => Option::Some(e.deep()),
                Option::None => Option::None,
            },
        }
    }
}

/// The envelope discipline: every response settles on exactly one of
/// `result` and `error` — never both, never neither.
pub open spec fn resp_wf(r: RespV) -> bool {
    r.result is Some <==> r.error is None
}

// ---------------------------------------------------------------------------
// Object member lookup
// ---------------------------------------------------------------------------

/// The value of the last member named `k`, as a decoder that lets later
/// duplicates override earlier ones sees it.
pub open spec fn lookup(ms: Seq<(Seq<u8>, JsonV)>, k: Seq<u8>) -> Option<JsonV>
    decreases ms.len(),
{
    if ms.len() == 0 {
        Option::None
    } else if ms.last().0 == k {
        Option::Some(ms.last().1)
    } else {
        lookup(ms.drop_last(), k)
    }
}

/// Finds the last member named `key` in an object's member list.
pub fn obj_get<'a>(ms: &'a Vec<(Vec<u8>, Json)>, key: &str) -> (r: Option<&'a Json>)
    ensures
        match lookup(deep_membs(ms@), sb(key)) {
            Option::Some(v) => r is Some && r->0.deep() == v,
            Option::None => r is None,
        },
{
    proof {
        lemma_deep_membs(ms@);
    }
    let ghost dv = deep_membs(ms@);
    let ghost k = sb(key);
    let mut i: usize = ms.len();
    proof {
        assert(dv.subrange(0, dv.len() as int) =~= dv);
    }
    while i > 0
        invariant
            i <= ms@.len(),
            dv == deep_membs(ms@),
            k == sb(key),
            dv.len() == ms@.len(),
            forall|j: int| 0 <= j < dv.len() ==> #[trigger] dv[j] == (ms@[j].0@, ms@[j].1.deep()),
            lookup(dv, k) == lookup(dv.subrange(0, i as int), k),
        decreases i,
    {
        i = i - 1;
        proof {
            let s1 = dv.subrange(0, i + 1);
            assert(s1.last() == dv[i as int]);
            assert(s1.drop_last() =~= dv.subrange(0, i as int));
        }
        if bytes_eq(ms[i].0.as_slice(), key.as_bytes()) {
            proof {
                assert(dv[i as int].0 == k);
                assert(lookup(dv.subrange(0, i + 1), k) == Option::Some(dv[i as int].1));
            }
            return Some(&ms[i].1);
        }
        proof {
            assert(dv[i as int].0 != k);
        }
    }
    proof {
        assert(dv.subrange(0, 0) =~= Seq::<(Seq<u8>, JsonV)>::empty());
    }
    None
}

// ---------------------------------------------------------------------------
// Request decoding
// ---------------------------------------------------------------------------

/// How an `id` member decodes: outer `None` means the member is malformed,
/// inner `None` that the request is a notification.
pub open spec fn id_of_json(o: Option<JsonV>) -> Option<Option<IdV>> {
    match o {
        Option::None => Option::Some(Option::None),
        Option::Some(JsonV::Null) => Option::Some(Option::None),
        Option::Some(JsonV::Int(n)) => Option::Some(Option::Some(IdV::Num(n))),
        Option::Some(JsonV::Str(t)) => Option::Some(Option::Some(IdV::Str(t))),
        Option::Some(_) => Option::None,
    }
}

/// The request denoted by a JSON document, if it is well-formed: an object
/// with string `jsonrpc` and `method` members, an identifier that is a
/// string, a canonical integer, `null`, or absent, and any `params` (an
/// empty object when absent).  Unknown members are ignored.
pub open spec fn req_of_json(v: JsonV) -> Option<ReqV> {
    match v {
        JsonV::Obj(ms) => {
            match (lookup(ms, sb("jsonrpc")), lookup(ms, sb("method"))) {
                (Option::Some(JsonV::Str(jr)), Option::Some(JsonV::Str(me))) => {
                    match id_of_json(lookup(ms, sb("id"))) {
                        Option::Some(id) => Option::Some(
                            ReqV {
                                jsonrpc: jr,
                                id: id,
                                method: me,
                                params: match lookup(ms, sb("params")) {
                                    Option::Some(p) => p,
                                    Option::None => JsonV::Obj(Seq::empty()),
                                },
                            },
                        ),
                        Option::None => Option::None,
                    }
                },
                _ => Option::None,
            }
        },
        _ => Option::None,
    }
}

/// Decodes a JSON document into a request, exactly as [`req_of_json`]
/// reads it.
pub fn decode_request(v: &Json) -> (r: Option<MCPRequest>)
    ensures
        match req_of_json(v.deep()) {
            Option::Some(q) => r is Some && r->0.deep() == q,
            Option::None => r is None,
        },
{
    let ms = match v {
        Json::Obj(ms) => ms,
        _ => {
            return None;
        },
    };
    let jsonrpc: Vec<u8> = match obj_get(ms, "jsonrpc") {
        Some(Json::Str(t)) => clone_bytes(t),
        _ => {
            return None;
        },
    };
    let method: Vec<u8> = match obj_get(ms, "method") {
        Some(Json::Str(t)) => clone_bytes(t),
        _ => {
            return None;
        },
    };
    let id: Option<Id> = match obj_get(ms, "id") {
        None => None,
        Some(Json::Null) => None,
        Some(Json::Int(n)) => Some(Id::Num(*n)),
        Some(Json::Str(t)) => Some(Id::Str(clone_bytes(t))),
        Some(_) => {
            return None;
        },
    };
    let params: Json = match obj_get(ms, "params") {
        Some(p) => clone_json(p),
        None => Json::Obj(Vec::new()),
    };
    Some(MCPRequest { jsonrpc, id, method, params })
}

// ---------------------------------------------------------------------------
// Response encoding
// ---------------------------------------------------------------------------

pub open spec fn id_json(id: IdV) -> JsonV {
    match id {
        IdV::Num(n) => JsonV::Int(n),
        IdV::Str(t) => JsonV::Str(t),
    }
}

pub open spec fn err_json(e: ErrV) -> JsonV {
    JsonV::Obj(
        seq![
            (sb("code"), JsonV::Int(e.code)),
            (sb("message"), JsonV::Str(esc(e.message))),
            (
                sb("data"),
                match e.data {
                    Option::Some(d) => d,
                    Option::None => JsonV::Null,
                },
            ),
        ],
    )
}

/// The JSON document of a response: `jsonrpc` always, then whichever of
/// `id`, `result` and `error` are present, in that order.
pub open spec fn resp_json(r: RespV) -> JsonV {
    JsonV::Obj(
        seq![(sb("jsonrpc"), JsonV::Str(r.jsonrpc))] + (match r.id {
            Option::Some(id) => seq![(sb("id"), id_json(id))],
            Option::None => Seq::empty(),
        }) + (match r.result {
            Option::Some(v) => seq![(sb("result"), v)],
            Option::None => Seq::empty(),
        }) + (match r.error {
            Option::Some(e) => seq![(sb("error"), err_json(e))],
            Option::None => Seq::empty(),
        }),
    )
}

/// The identifier as a JSON value.
pub fn id_to_json(id: &Id) -> (j: Json)
    ensures
        j.deep() == id_json(id.deep()),
{
    match id {
        Id::Num(n) => Json::Int(*n),
        Id::Str(t) => Json::Str(clone_bytes(t)),
    }
}

/// Builds the JSON document of a response.
pub fn encode_response(r: &MCPResponse) -> (j: Json)
    ensures
        j.deep() == resp_json(r.deep()),
{
    let mut ms: Vec<(Vec<u8>, Json)> = Vec::new();
    ms.push((lit("jsonrpc"), Json::Str(clone_bytes(&r.jsonrpc))));
    match &r.id {
        Some(id) => {
            ms.push((lit("id"), id_to_json(id)));
        },
        None => {},
    }
    match &r.result {
        Some(v) => {
            ms.push((lit("result"), clone_json(v)));
        },
        None => {},
    }
    match &r.error {
        Some(e) => {
            let mut em: Vec<(Vec<u8>, Json)> = Vec::new();
            em.push((lit("code"), Json::Int(e.code as i64)));
            em.push((lit("message"), Json::Str(escape(e.message.as_slice()))));
            em.push(
                (
                    lit("data"),
                    match &e.data {
                        Some(d) => clone_json(d),
                        None => Json::Null,
                    },
                ),
            );
            let ej = Json::Obj(em);
            proof {
                lemma_deep_membs(em@);
                assert(deep_membs(em@) =~= (match err_json(e.deep()) {
                    JsonV::Obj(s) => s,
                    _ => Seq::empty(),
                }));
            }
            ms.push((lit("error"), ej));
        },
        None => {},
    }
    let j = Json::Obj(ms);
    proof {
        lemma_deep_membs(ms@);
        assert(deep_membs(ms@) =~= (match resp_json(r.deep()) {
            JsonV::Obj(s) => s,
            _ => Seq::empty(),
        }));
    }
    j
}

/// The wire bytes of a response: its JSON document in compact form.
pub fn response_to_bytes(r: &MCPResponse) -> (out: Vec<u8>)
    ensures
        out@ == ser(resp_json(r.deep())),
{
    let j = encode_response(r);
    to_bytes(&j)
}


/// At the document level a well-formed response carries exactly one of
/// the `result` and `error` members.
pub proof fn lemma_envelope_members(r: RespV)
    requires
        resp_wf(r),
    ensures
        ({
            let ms = match resp_json(r) {
                JsonV::Obj(ms) => ms,
                _ => Seq::<(Seq<u8>, JsonV)>::empty(),
            };
            &&& (lookup(ms, sb("result")) is Some <==> r.result is Some)
            &&& (lookup(ms, sb("error")) is Some <==> r.error is Some)
            &&& !(lookup(ms, sb("result")) is Some && lookup(ms, sb("error")) is Some)
        }),
{
    broadcast use vstd::string::is_ascii_spec_bytes;

    reveal_strlit("jsonrpc");
    reveal_strlit("id");
    reveal_strlit("result");
    reveal_strlit("error");
    assert(vstd::string::is_ascii("jsonrpc"));
    assert(vstd::string::is_ascii("id"));
    assert(vstd::string::is_ascii("result"));
    assert(vstd::string::is_ascii("error"));
    assert(sb("jsonrpc").len() == 7);
    assert(sb("id").len() == 2);
    assert(sb("result").len() == 6);
    assert(sb("error").len() == 5);
    let ms = match resp_json(r) {
        JsonV::Obj(ms) => ms,
        _ => Seq::<(Seq<u8>, JsonV)>::empty(),
    };
    let head = seq![(sb("jsonrpc"), JsonV::Str(r.jsonrpc))];
    let idp: Seq<(Seq<u8>, JsonV)> = match r.id {
        Option::Some(id) => seq![(sb("id"), id_json(id))],
        Option::None => Seq::empty(),
    };
    let rp: Seq<(Seq<u8>, JsonV)> = match r.result {
        Option::Some(v) => seq![(sb("result"), v)],
        Option::None => Seq::empty(),
    };
    let ep: Seq<(Seq<u8>, JsonV)> = match r.error {
        Option::Some(e) => seq![(sb("error"), err_json(e))],
        Option::None => Seq::empty(),
    };
    assert(ms == head + idp + rp + ep);
    lemma_lookup_concat(head + idp + rp, ep, sb("result"));
    lemma_lookup_concat(head + idp, rp, sb("result"));
    lemma_lookup_concat(head, idp, sb("result"));
    lemma_lookup_concat(head + idp + rp, ep, sb("error"));
    lemma_lookup_concat(head + idp, rp, sb("error"));
    lemma_lookup_concat(head, idp, sb("error"));
    lemma_lookup_single(sb("jsonrpc"), JsonV::Str(r.jsonrpc), sb("result"));
    lemma_lookup_single(sb("jsonrpc"), JsonV::Str(r.jsonrpc), sb("error"));
    if r.id is Some {
        lemma_lookup_single(sb("id"), id_json(r.id->0), sb("result"));
        lemma_lookup_single(sb("id"), id_json(r.id->0), sb("error"));
    }
    if r.result is Some {
        lemma_lookup_single(sb("result"), r.result->0, sb("result"));
        lemma_lookup_single(sb("result"), r.result->0, sb("error"));
        assert(lookup(rp, sb("result")) is Some);
    }
    if r.error is Some {
        lemma_lookup_single(sb("error"), err_json(r.error->0), sb("result"));
        lemma_lookup_single(sb("error"), err_json(r.error->0), sb("error"));
    }
    if r.error is Some {
        assert(lookup(ep, sb("error")) is Some);
    }
    assert(lookup(head, sb("result")) is None);
    assert(lookup(head, sb("error")) is None);
    assert(lookup(idp, sb("result")) is None);
    assert(lookup(idp, sb("error")) is None);
    assert(lookup(ep, sb("result")) is None);
    assert(lookup(rp, sb("error")) is None);
}

/// Looking a key up among one member finds it exactly on a name match.
pub proof fn lemma_lookup_single(k0: Seq<u8>, v0: JsonV, k: Seq<u8>)
    ensures
        lookup(seq![(k0, v0)], k) == (if k0 == k {
            Option::Some(v0)
        } else {
            Option::<JsonV>::None
        }),
{
    let s = seq![(k0, v0)];
    assert(s.last() == (k0, v0));
    assert(s.drop_last() =~= Seq::<(Seq<u8>, JsonV)>::empty());
    assert(lookup(Seq::<(Seq<u8>, JsonV)>::empty(), k) is None);
}

/// Looking a key up in a concatenation reads the right part first (last
/// members win), then the left.
pub proof fn lemma_lookup_concat(a: Seq<(Seq<u8>, JsonV)>, b: Seq<(Seq<u8>, JsonV)>, k: Seq<u8>)
    ensures
        lookup(a + b, k) == (match lookup(b, k) {
            Option::Some(v) => Option::Some(v),
            Option::None => lookup(a, k),
        }),
    decreases b.len(),
{
    if b.len() == 0 {
        assert(a + b =~= a);
    } else {
        assert((a + b).last() == b.last());
        if b.last().0 == k {
        } else {
            assert((a + b).drop_last() =~= a + b.drop_last());
            lemma_lookup_concat(a, b.drop_last(), k);
        }
    }
}

} // verus!
