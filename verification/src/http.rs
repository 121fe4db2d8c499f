//! The HTTP transport's decisions: what body a raw-protocol reply
//! carries, and which status a sugar endpoint answers.
//!
//! The adapter around these (routing table, socket handling, the
//! heartbeat stream) is plain I/O and stands outside the core.

use vstd::prelude::*;

use crate::jparse::req_of_bytes;
use crate::json::ser;
use crate::protocol::{resp_json, response_to_bytes, MCPRequest, MCPResponse, ReqV, RespV};
use crate::server::{complete_spec, route_spec, MCPServer, MonitorReply, Pending, RoutedV};

verus! {

/// The body of a raw-protocol (`POST /`) reply: none at all for a
/// notification, the response document otherwise.
pub open spec fn http_reply(q: ReqV, r: RespV) -> Option<Seq<u8>> {
    if q.id is None {
        Option::None
    } else {
        Option::Some(ser(resp_json(r)))
    }
}

/// The reply body for one raw-protocol request, with notification
/// suppression: a notification gets no bytes.
pub fn http_reply_bytes(req: &MCPRequest, resp: &MCPResponse) -> (out: Option<Vec<u8>>)
    ensures
        match http_reply(req.deep(), resp.deep()) {
            Option::Some(b) => out matches Option::Some(v) && v@ == b,
            Option::None => out is None,
        },
        req.deep().id is None ==> out is None,
{
    match &req.id {
        None => None,
        Some(_) => Some(response_to_bytes(resp)),
    }
}

/// The status a sugar endpoint answers for a routed response: 200 on
/// success; on failure 404 for the by-PID lookup, 500 otherwise.
pub open spec fn sugar_status(r: RespV, by_pid: bool) -> int {
    if r.result is Some {
        200
    } else if by_pid {
        404
    } else {
        500
    }
}

/// The status code for a sugar endpoint's response.
pub fn sugar_status_code(resp: &MCPResponse, by_pid: bool) -> (code: u16)
    ensures
        code as int == sugar_status(resp.deep(), by_pid),
{
    match &resp.result {
        Some(_) => 200,
        None => if by_pid {
            404
        } else {
            500
        },
    }
}


/// What one raw-protocol request comes to.
#[derive(Debug)]
pub enum HttpPost {
    /// The body is not a request document: the adapter reports the parse
    /// failure at the HTTP level.
    BadJson,
    /// A finished exchange: the response body, or nothing for a
    /// notification.
    Reply(Option<Vec<u8>>),
    /// A monitor operation still to be performed.
    Call(Pending),
}

/// Handles one raw-protocol body end to end where no collector is
/// needed.
pub fn http_post_step(server: &mut MCPServer, body: &[u8], now: i64) -> (r: HttpPost)
    ensures
        match req_of_bytes(body@) {
            Option::None => {
                &&& r is BadJson
                &&& *final(server) == *old(server)
            },
            Option::Some(q) => match route_spec(q) {
                RoutedV::Reply(resp) => {
                    &&& r matches HttpPost::Reply(out) && (match http_reply(q, resp) {
                        Option::Some(b) => out matches Option::Some(v) && v@ == b,
                        Option::None => out is None,
                    })
                    &&& *final(server) == *old(server)
                },
                RoutedV::Call(p) => {
                    if p.call is StartMonitoring || p.call is StopMonitoring {
                        &&& r matches HttpPost::Reply(out) && (match http_reply(
                            q,
                            complete_spec(
                                p,
                                MonitorReply::Toggled(
                                    Result::Ok(
                                        if p.call is StartMonitoring {
                                            !old(server).monitor.active()
                                        } else {
                                            old(server).monitor.active()
                                        },
                                    ),
                                ),
                            ),
                        ) {
                            Option::Some(b) => out matches Option::Some(v) && v@ == b,
                            Option::None => out is None,
                        })
                        &&& final(server).monitor.active() == (p.call is StartMonitoring)
                        &&& final(server).monitor.updated_at() == now as int
                    } else {
                        &&& r matches HttpPost::Call(got) && got.deep() == p
                        &&& *final(server) == *old(server)
                    }
                },
            },
        },
{
    match crate::jparse::parse_request(body) {
        None => HttpPost::BadJson,
        Some(req) => match server.try_handle(&req, now) {
            Ok(resp) => HttpPost::Reply(http_reply_bytes(&req, &resp)),
            Err(p) => HttpPost::Call(p),
        },
    }
}

/// The response body owed for a completed monitor operation, or nothing
/// where the originating request was a notification.
pub fn http_finish(server: &MCPServer, p: Pending, reply: MonitorReply) -> (out: Option<Vec<u8>>)
    ensures
        match out {
            Option::Some(v) => p.deep().id is Some && v@ == ser(
                resp_json(complete_spec(p.deep(), reply)),
            ),
            Option::None => p.deep().id is None,
        },
{
    let suppress = p.id.is_none();
    let resp = server.complete(p, reply);
    if suppress {
        None
    } else {
        Some(response_to_bytes(&resp))
    }
}


/// Notifications are silent on every transport: a request without an
/// identifier has no bytes written for it, neither framed on stdio nor
/// as an HTTP reply body.
pub proof fn lemma_notifications_silent(q: ReqV, r: RespV)
    requires
        q.id is None,
    ensures
        crate::stdio::stdio_reply(q, r).len() == 0,
        http_reply(q, r) is None,
{
}

} // verus!
