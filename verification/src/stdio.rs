//! `Content-Length` framing for the stdio transport.
//!
//! Each message is a block of header lines ending `\r\n`, at least one of
//! them `Content-Length: <n>`, then a blank line, then exactly `n` bytes
//! of body.  [`scan_frame`] reads one message out of a buffer of input
//! seen so far; its behaviour is deterministic and fully defined: a
//! header block without a complete line, or a header that promises more
//! body bytes than the buffer holds, answers `NeedMore` — the adapter
//! waits for further input (it does not fail the frame), and end of input
//! while waiting ends the session.  A header block without a usable
//! `Content-Length` is discarded (`Restart`), so stray input does not
//! wedge the stream.
//!
//! Replies go out through [`reply_bytes`]: a response to a notification
//! is suppressed entirely — no bytes are written for it.

use vstd::prelude::*;

use crate::helpers::{all_digits, is_ws, parse_uint, parse_usize_text, trim, trim_back, trim_front};
use crate::json::{
    bytes_eq, dec_u, deep_membs, fmt_u64, lemma_deep_membs, lit, sb, ser, to_bytes,
    write_bytes, Json, JsonV,
};
use crate::jparse::req_of_bytes;
use crate::protocol::{resp_json, response_to_bytes, MCPRequest, MCPResponse, ReqV, RespV};
use crate::server::{complete_spec, route_spec, MCPServer, MonitorReply, Pending, RoutedV};

verus! {

/// What scanning a buffer for one frame finds.
#[derive(Debug)]
pub enum FrameStep {
    /// The buffer does not yet hold a complete frame: await more input.
    NeedMore,
    /// A header block carried no usable `Content-Length`: discard it.
    Restart { consumed: usize },
    /// A complete frame: the body is `buf[start .. start + len]`, and the
    /// first `consumed` bytes of the buffer are spent.
    Frame { start: usize, len: usize, consumed: usize },
}

/// The model of a scan outcome.
pub enum FrameStepV {
    NeedMore,
    Restart { consumed: int },
    Frame { start: int, len: int, consumed: int },
}

impl FrameStep {
    pub open spec fn deep(self) -> FrameStepV {
        match self {
            FrameStep::NeedMore => FrameStepV::NeedMore,
            FrameStep::Restart { consumed } => FrameStepV::Restart {
                consumed: consumed as int,
            },
            FrameStep::Frame { start, len, consumed } => FrameStepV::Frame {
                start: start as int,
                len: len as int,
                consumed: consumed as int,
            },
        }
    }
}

/// First index at or after `i` holding a newline, or the buffer's end.
pub open spec fn find_nl(s: Seq<u8>, i: int) -> int
    recommends
        0 <= i <= s.len(),
    decreases s.len() - i,
    when 0 <= i <= s.len()
{
    if i < s.len() && s[i] != 10 {
        find_nl(s, i + 1)
    } else {
        i
    }
}

/// A header line that ends the block.
pub open spec fn is_blank_line(line: Seq<u8>) -> bool {
    line == seq![10u8] || line == seq![13u8, 10u8]
}

/// The length a header line announces, where it is a `Content-Length`
/// line with a value a `usize` can hold.
pub open spec fn line_length(line: Seq<u8>) -> Option<int> {
    let p = sb("Content-Length:");
    if line.len() >= p.len() && line.subrange(0, p.len() as int) == p {
        match parse_uint(trim(line.subrange(p.len() as int, line.len() as int))) {
            Option::Some(v) => if v <= usize::MAX {
                Option::Some(v)
            } else {
                Option::None
            },
            Option::None => Option::None,
        }
    } else {
        Option::None
    }
}

/// Scans header lines from `i`, carrying the last announced length, and
/// decides the step once the blank line is reached.
pub open spec fn scan_from(s: Seq<u8>, i: int, cl: Option<int>) -> FrameStepV
    recommends
        0 <= i <= s.len(),
    decreases s.len() - i,
    when 0 <= i <= s.len()
    via scan_from_decreases
{
    let nl = find_nl(s, i);
    if nl >= s.len() {
        FrameStepV::NeedMore
    } else {
        let line = s.subrange(i, nl + 1);
        if is_blank_line(line) {
            match cl {
                Option::None => FrameStepV::Restart { consumed: nl + 1 },
                Option::Some(n) => if s.len() - (nl + 1) < n {
                    FrameStepV::NeedMore
                } else {
                    FrameStepV::Frame { start: nl + 1, len: n, consumed: nl + 1 + n }
                },
            }
        } else {
            let cl2 = match line_length(line) {
                Option::Some(v) => Option::Some(v),
                Option::None => cl,
            };
            scan_from(s, nl + 1, cl2)
        }
    }
}

#[via_fn]
proof fn scan_from_decreases(s: Seq<u8>, i: int, cl: Option<int>) {
    lemma_find_nl(s, i);
}

/// The scan of a whole buffer.
pub open spec fn scan_frame_spec(s: Seq<u8>) -> FrameStepV {
    scan_from(s, 0, Option::None)
}

/// Where `find_nl` stops there is a newline (unless the buffer ended),
/// and none stands before it.
pub proof fn lemma_find_nl(s: Seq<u8>, i: int)
    requires
        0 <= i <= s.len(),
    ensures
        i <= find_nl(s, i) <= s.len(),
        find_nl(s, i) < s.len() ==> s[find_nl(s, i)] == 10,
        forall|k: int| i <= k < find_nl(s, i) ==> s[k] != 10,
    decreases s.len() - i,
{
    if i < s.len() && s[i] != 10 {
        lemma_find_nl(s, i + 1);
    }
}

fn find_nl_exec(buf: &[u8], i: usize) -> (r: usize)
    requires
        i <= buf@.len(),
    ensures
        r == find_nl(buf@, i as int),
        i <= r <= buf@.len(),
{
    let n: usize = buf.len();
    let mut j: usize = i;
    while j < n && buf[j] != 10
        invariant
            i <= j <= n,
            n == buf@.len(),
            find_nl(buf@, i as int) == find_nl(buf@, j as int),
        decreases n - j,
    {
        j = j + 1;
    }
    j
}

/// Scans the input seen so far for one frame.
pub fn scan_frame(buf: &[u8]) -> (r: FrameStep)
    ensures
        r.deep() == scan_frame_spec(buf@),
{
    let n: usize = buf.len();
    let mut i: usize = 0;
    let mut cl: Option<usize> = None;
    let ghost mut clv: Option<int> = Option::None;
    loop
        invariant
            0 <= i <= n,
            n == buf@.len(),
            clv == match cl {
                Option::Some(v) => Option::<int>::Some(v as int),
                Option::None => Option::<int>::None,
            },
            scan_frame_spec(buf@) == scan_from(buf@, i as int, clv),
        decreases n - i,
    {
        let ghost old_i = i as int;
        let ghost old_clv = clv;
        let nl = find_nl_exec(buf, i);
        proof {
            lemma_find_nl(buf@, i as int);
        }
        if nl >= n {
            return FrameStep::NeedMore;
        }
        let ghost line = buf@.subrange(i as int, nl + 1 as int);
        let blank: bool = if nl == i {
            true
        } else if nl == i + 1 && buf[i] == 13 {
            true
        } else {
            false
        };
        proof {
            assert(line.len() == nl + 1 - i);
            assert(line[0] == buf@[i as int]);
            assert(line.last() == buf@[nl as int] == 10u8);
            assert(blank == is_blank_line(line)) by {
                if nl == i {
                    assert(line =~= seq![10u8]);
                } else if nl == i + 1 && buf@[i as int] == 13 {
                    assert(line =~= seq![13u8, 10u8]);
                } else {
                    if line.len() == 1 {
                        assert(nl == i);
                    }
                    if line == seq![13u8, 10u8] {
                        assert(line.len() == 2 && line[0] == 13u8);
                        assert(nl == i + 1 && buf@[i as int] == 13);
                    }
                    if line == seq![10u8] {
                        assert(line.len() == 1);
                    }
                }
            }
        }
        if blank {
            match cl {
                None => {
                    return FrameStep::Restart { consumed: nl + 1 };
                },
                Some(len) => {
                    if n - (nl + 1) < len {
                        return FrameStep::NeedMore;
                    }
                    return FrameStep::Frame { start: nl + 1, len: len, consumed: nl + 1 + len };
                },
            }
        }
        let pfx = "Content-Length:".as_bytes();
        let new_cl: Option<usize> = if nl + 1 - i >= pfx.len() {
            let head = vstd::slice::slice_subrange(buf, i, i + pfx.len());
            if bytes_eq(head, pfx) {
                let rest = vstd::slice::slice_subrange(buf, i + pfx.len(), nl + 1);
                proof {
                    assert(line.subrange(0, pfx@.len() as int) =~= buf@.subrange(
                        i as int,
                        i + pfx@.len(),
                    ));
                    assert(line.subrange(pfx@.len() as int, line.len() as int) =~= buf@.subrange(
                        i + pfx@.len(),
                        nl + 1 as int,
                    ));
                }
                match parse_usize_text(rest) {
                    Some(v) => Some(v),
                    None => cl,
                }
            } else {
                proof {
                    assert(line.subrange(0, pfx@.len() as int) =~= buf@.subrange(
                        i as int,
                        i + pfx@.len(),
                    ));
                }
                cl
            }
        } else {
            cl
        };
        proof {
            if line.len() < sb("Content-Length:").len() {
                assert(line_length(line) is None);
            }
        }
        cl = new_cl;
        proof {
            clv = match cl {
                Option::Some(v) => Option::<int>::Some(v as int),
                Option::None => Option::<int>::None,
            };
            let p = sb("Content-Length:");
            if line.len() >= p.len() && line.subrange(0, p.len() as int) == p {
                crate::helpers::lemma_parse_uint_nonneg(
                    trim(line.subrange(p.len() as int, line.len() as int)),
                );
            }
            assert(scan_from(buf@, old_i, old_clv) == scan_from(buf@, nl + 1, clv));
        }
        i = nl + 1;
    }
}

// ---------------------------------------------------------------------------
// Frame encoding and reply suppression
// ---------------------------------------------------------------------------

/// The wire form of one framed message.
pub open spec fn frame(body: Seq<u8>) -> Seq<u8> {
    sb("Content-Length: ") + dec_u(body.len()) + seq![13u8, 10u8, 13u8, 10u8] + body
}

/// Frames a message body.
pub fn encode_frame(body: &[u8]) -> (out: Vec<u8>)
    ensures
        out@ == frame(body@),
{
    let mut out = lit("Content-Length: ");
    fmt_u64(body.len() as u64, &mut out);
    out.push(13u8);
    out.push(10u8);
    out.push(13u8);
    out.push(10u8);
    write_bytes(body, &mut out);
    assert(out@ =~= frame(body@));
    out
}

/// What the adapter writes for one decoded request: nothing at all for a
/// notification, the framed response otherwise.
pub open spec fn stdio_reply(q: ReqV, r: RespV) -> Seq<u8> {
    if q.id is None {
        Seq::empty()
    } else {
        frame(ser(resp_json(r)))
    }
}

/// The reply bytes for one request, with notification suppression.
pub fn reply_bytes(req: &MCPRequest, resp: &MCPResponse) -> (out: Vec<u8>)
    ensures
        out@ == stdio_reply(req.deep(), resp.deep()),
        req.deep().id is None ==> out@.len() == 0,
{
    match &req.id {
        None => Vec::new(),
        Some(_) => {
            let body = response_to_bytes(resp);
            encode_frame(body.as_slice())
        },
    }
}

/// The fixed document written for a body that does not parse: a
/// parse-error report with no identifier and no data.
pub open spec fn parse_error_doc() -> JsonV {
    JsonV::Obj(
        seq![
            (sb("jsonrpc"), JsonV::Str(sb("2.0"))),
            (
                sb("error"),
                JsonV::Obj(
                    seq![
                        (sb("code"), JsonV::Int(-32700)),
                        (sb("message"), JsonV::Str(sb("Parse error"))),
                    ],
                ),
            ),
        ],
    )
}

/// The framed parse-error reply.
pub fn parse_error_frame() -> (out: Vec<u8>)
    ensures
        out@ == frame(ser(parse_error_doc())),
{
    let mut em: Vec<(Vec<u8>, Json)> = Vec::new();
    em.push((lit("code"), Json::Int(-32700)));
    em.push((lit("message"), Json::Str(lit("Parse error"))));
    let mut ms: Vec<(Vec<u8>, Json)> = Vec::new();
    ms.push((lit("jsonrpc"), Json::Str(lit("2.0"))));
    ms.push((lit("error"), Json::Obj(em)));
    let j = Json::Obj(ms);
    proof {
        lemma_deep_membs(em@);
        lemma_deep_membs(ms@);
        assert(deep_membs(em@) =~= seq![
            (sb("code"), JsonV::Int(-32700)),
            (sb("message"), JsonV::Str(sb("Parse error"))),
        ]);
        assert(deep_membs(ms@) =~= (match parse_error_doc() {
            JsonV::Obj(s) => s,
            _ => Seq::empty(),
        }));
    }
    let body = to_bytes(&j);
    encode_frame(body.as_slice())
}


// ---------------------------------------------------------------------------
// One stdio exchange
// ---------------------------------------------------------------------------

/// Handles one frame body end to end where no collector is needed: the
/// bytes to write (a framed parse error for a body that does not parse, a
/// framed response, or nothing for a notification), or the pending
/// monitor operation for the caller to perform.
pub fn stdio_step(server: &mut MCPServer, body: &[u8], now: i64) -> (r: Result<Vec<u8>, Pending>)
    ensures
        match req_of_bytes(body@) {
            Option::None => {
                &&& r matches Result::Ok(out) && out@ == frame(ser(parse_error_doc()))
                &&& *final(server) == *old(server)
            },
            Option::Some(q) => match route_spec(q) {
                RoutedV::Reply(resp) => {
                    &&& r matches Result::Ok(out) && out@ == stdio_reply(q, resp)
                    &&& *final(server) == *old(server)
                },
                RoutedV::Call(p) => {
                    if p.call is StartMonitoring || p.call is StopMonitoring {
                        &&& r matches Result::Ok(out) && out@ == stdio_reply(
                            q,
                            complete_spec(
                                p,
                                MonitorReply::Toggled(
                                    Result::Ok(
                                        if p.call is StartMonitoring {
                                            !old(server).monitor.active()
                                        } else {
                                            old(server).monitor.active()
                                        },
                                    ),
                                ),
                            ),
                        )
                        &&& final(server).monitor.active() == (p.call is StartMonitoring)
                        &&& final(server).monitor.updated_at() == now as int
                    } else {
                        &&& r matches Result::Err(got) && got.deep() == p
                        &&& *final(server) == *old(server)
                    }
                },
            },
        },
{
    match crate::jparse::parse_request(body) {
        None => Ok(parse_error_frame()),
        Some(req) => match server.try_handle(&req, now) {
            Ok(resp) => Ok(reply_bytes(&req, &resp)),
            Err(p) => Err(p),
        },
    }
}

/// Frames the response owed for a completed monitor operation, or
/// nothing where the originating request was a notification.
pub fn stdio_finish(server: &MCPServer, p: Pending, reply: MonitorReply) -> (out: Vec<u8>)
    ensures
        out@ == (if p.deep().id is None {
            Seq::<u8>::empty()
        } else {
            frame(ser(resp_json(complete_spec(p.deep(), reply))))
        }),
{
    let suppress = p.id.is_none();
    let resp = server.complete(p, reply);
    if suppress {
        Vec::new()
    } else {
        let body = response_to_bytes(&resp);
        encode_frame(body.as_slice())
    }
}


/// What the frame encoder writes, the scanner reads back as exactly one
/// frame: the body where it was put, nothing skipped, nothing left of
/// the message unconsumed.
pub proof fn lemma_frame_scan(body: Seq<u8>, rest: Seq<u8>)
    requires
        body.len() <= usize::MAX,
    ensures
        ({
            let h = frame(body).len() - body.len();
            scan_frame_spec(frame(body) + rest) == FrameStepV::Frame {
                start: h,
                len: body.len() as int,
                consumed: frame(body).len() as int,
            }
        }),
{
    broadcast use vstd::string::is_ascii_spec_bytes;

    reveal_strlit("Content-Length: ");
    reveal_strlit("Content-Length:");
    assert(vstd::string::is_ascii("Content-Length: "));
    assert(vstd::string::is_ascii("Content-Length:"));
    let p = sb("Content-Length: ");
    let d = dec_u(body.len() as nat);
    crate::jparse::lemma_dec_u_shape(body.len() as nat);
    crate::jparse::lemma_val_dec_u(body.len() as nat);
    let pn = p.len() as int;
    let dn = d.len() as int;
    let s = frame(body) + rest;
    let pos = pn + dn + 1;
    assert(p.len() == 16);
    assert(forall|k: int| 0 <= k < pn ==> #[trigger] s[k] == p[k]);
    assert(forall|k: int| 0 <= k < dn ==> #[trigger] s[pn + k] == d[k]);
    assert(s[pn + dn] == 13 && s[pn + dn + 1] == 10 && s[pn + dn + 2] == 13 && s[pn + dn + 3]
        == 10);
    assert(forall|k: int| 0 <= k < pn ==> #[trigger] p[k] != 10);
    assert(forall|k: int| 0 <= k < dn ==> crate::json::is_digit(#[trigger] d[k]));
    // The first newline ends the length header.
    lemma_find_nl(s, 0);
    assert(find_nl(s, 0) == pos) by {
        assert(s[pos] == 10);
        assert(forall|k: int| 0 <= k < pos ==> #[trigger] s[k] != 10);
    }
    let line = s.subrange(0, pos + 1);
    assert(forall|k: int| 0 <= k < line.len() ==> #[trigger] line[k] == s[k]);
    assert(!is_blank_line(line)) by {
        assert(line.len() > 2);
    }
    // The header announces the body length.
    assert(line_length(line) == Option::Some(body.len() as int)) by {
        let q = sb("Content-Length:");
        assert(q.len() == 15);
        assert(line.subrange(0, 15) =~= q);
        let v = line.subrange(15, line.len() as int);
        assert(forall|k: int| 0 <= k < v.len() ==> #[trigger] v[k] == s[15 + k]);
        assert(v[0] == 32);
        assert(forall|k: int| 0 <= k < dn ==> #[trigger] v[1 + k] == d[k]);
        assert(v[1 + dn] == 13 && v[2 + dn] == 10);
        // Trimming strips the leading space and the line ending.
        let v1 = v.drop_first();
        assert(trim_front(v) == trim_front(v1));
        assert(v1[0] == d[0] && crate::json::is_digit(d[0]));
        assert(!is_ws(v1[0]));
        assert(trim_front(v1) == v1);
        let v2 = v1.drop_last();
        assert(v1.last() == 10 && is_ws(10u8));
        assert(trim_back(v1) == trim_back(v2));
        let v3 = v2.drop_last();
        assert(v2.last() == 13);
        assert(trim_back(v2) == trim_back(v3));
        assert(v3 =~= d);
        assert(d.len() > 0 && !is_ws(d.last()));
        assert(trim_back(d) == d);
        assert(trim(v) == d);
        assert(d[0] != 43);
        assert(all_digits(d));
        assert(parse_uint(d) == Option::Some(body.len() as int));
    }
    assert(scan_from(s, 0, Option::None) == scan_from(s, pos + 1, Option::Some(
        body.len() as int,
    )));
    // The blank line ends the header block.
    lemma_find_nl(s, pos + 1);
    assert(find_nl(s, pos + 1) == pos + 2) by {
        assert(s[pos + 2] == 10);
        assert(s[pos + 1] != 10);
    }
    let line2 = s.subrange(pos + 1, pos + 3);
    assert(line2 =~= seq![13u8, 10u8]);
    assert(s.len() - (pos + 3) >= body.len());
}
} // verus!
