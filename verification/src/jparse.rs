//! The JSON parser.
//!
//! [`parse_json`] reads one document out of a byte buffer, exactly as the
//! recursive-descent specification [`sp_value`] describes: optional
//! whitespace around tokens and punctuation, string and number tokens
//! kept verbatim (a number token in canonical signed-decimal form becomes
//! an `Int`, so it re-serializes to the same bytes), and nothing but
//! whitespace after the document.  String contents are taken as raw
//! bytes; encoding validity is not this layer's concern.

use vstd::prelude::*;

use crate::json::{
    dec_i, dec_u, lemma_strtok_shift, deep_elems, deep_membs, digits_from, exp_end, fmt_i64, frac_end, int_end,
    is_digit, ser, ser_elems, ser_membs, wf,
    is_esc_char, is_hex, lemma_deep_elems, lemma_deep_membs, num_end, num_end_exec, numtok_ok,
    strtok_ok, strtok_ok_from, bytes_eq, Json, JsonV,
};
use crate::helpers::{all_digits, val_of, Digits};
use crate::protocol::{req_of_json, MCPRequest, ReqV};

verus! {

/// JSON insignificant whitespace.
pub open spec fn is_json_ws(b: u8) -> bool {
    b == 32 || b == 9 || b == 10 || b == 13
}

/// First index at or after `i` that is not JSON whitespace.
pub open spec fn ws_end(s: Seq<u8>, i: int) -> int
    recommends
        0 <= i <= s.len(),
    decreases s.len() - i,
    when 0 <= i <= s.len()
{
    if i < s.len() && is_json_ws(s[i]) {
        ws_end(s, i + 1)
    } else {
        i
    }
}

pub proof fn lemma_ws_end(s: Seq<u8>, i: int)
    requires
        0 <= i <= s.len(),
    ensures
        i <= ws_end(s, i) <= s.len(),
    decreases s.len() - i,
{
    if i < s.len() && is_json_ws(s[i]) {
        lemma_ws_end(s, i + 1);
    }
}

/// The index just past the closing quote of a string whose content
/// starts at `i` (the opening quote already consumed), or nothing where
/// the content is malformed or unterminated.
pub open spec fn str_end(s: Seq<u8>, i: int) -> Option<int>
    recommends
        0 <= i <= s.len(),
    decreases s.len() - i,
    when 0 <= i <= s.len()
{
    if i >= s.len() {
        Option::None
    } else if s[i] == 34 {
        Option::Some(i + 1)
    } else if s[i] == 92 {
        if i + 1 < s.len() && is_esc_char(s[i + 1]) {
            str_end(s, i + 2)
        } else if i + 5 < s.len() && s[i + 1] == 117 && is_hex(s[i + 2]) && is_hex(s[i + 3])
            && is_hex(s[i + 4]) && is_hex(s[i + 5]) {
            str_end(s, i + 6)
        } else {
            Option::None
        }
    } else if s[i] < 32 {
        Option::None
    } else {
        str_end(s, i + 1)
    }
}

pub proof fn lemma_str_end(s: Seq<u8>, i: int)
    requires
        0 <= i <= s.len(),
    ensures
        str_end(s, i) matches Option::Some(e) ==> i < e <= s.len(),
    decreases s.len() - i,
{
    if i < s.len() && s[i] != 34 {
        if s[i] == 92 {
            if i + 1 < s.len() && is_esc_char(s[i + 1]) {
                lemma_str_end(s, i + 2);
            } else if i + 5 < s.len() && s[i + 1] == 117 && is_hex(s[i + 2]) && is_hex(s[i + 3])
                && is_hex(s[i + 4]) && is_hex(s[i + 5]) {
                lemma_str_end(s, i + 6);
            }
        } else if s[i] >= 32 {
            lemma_str_end(s, i + 1);
        }
    }
}

/// The value a number token denotes: an `Int` where the token is the
/// canonical decimal of an `i64` (so it re-serializes verbatim), the raw
/// token otherwise.
pub open spec fn num_val(tok: Seq<u8>) -> JsonV {
    let neg = tok.len() > 0 && tok[0] == 45;
    let head = if neg {
        tok.drop_first()
    } else {
        tok
    };
    if head.len() > 0 && all_digits(head) {
        let v = if neg {
            -val_of(head)
        } else {
            val_of(head)
        };
        if i64::MIN <= v <= i64::MAX && dec_i(v) == tok {
            JsonV::Int(v)
        } else {
            JsonV::Num(tok)
        }
    } else {
        JsonV::Num(tok)
    }
}

/// One JSON value starting at `i` (after optional whitespace): the value
/// and the index just past it.
pub open spec fn sp_value(s: Seq<u8>, i: int) -> Option<(JsonV, int)>
    recommends
        0 <= i <= s.len(),
    decreases s.len() - i, 2int,
    when 0 <= i <= s.len()
    via sp_value_decreases
{
    let j = ws_end(s, i);
    if j >= s.len() {
        Option::None
    } else {
        let b = s[j];
        if b == 110 {
            if j + 4 <= s.len() && s[j + 1] == 117 && s[j + 2] == 108 && s[j + 3] == 108 {
                Option::Some((JsonV::Null, j + 4))
            } else {
                Option::None
            }
        } else if b == 116 {
            if j + 4 <= s.len() && s[j + 1] == 114 && s[j + 2] == 117 && s[j + 3] == 101 {
                Option::Some((JsonV::Bool(true), j + 4))
            } else {
                Option::None
            }
        } else if b == 102 {
            if j + 5 <= s.len() && s[j + 1] == 97 && s[j + 2] == 108 && s[j + 3] == 115 && s[j
                + 4] == 101 {
                Option::Some((JsonV::Bool(false), j + 5))
            } else {
                Option::None
            }
        } else if b == 34 {
            match str_end(s, j + 1) {
                Option::Some(e) => Option::Some((JsonV::Str(s.subrange(j + 1, e - 1)), e)),
                Option::None => Option::None,
            }
        } else if b == 45 || is_digit(b) {
            match num_end(s, j) {
                Option::Some(e) => Option::Some((num_val(s.subrange(j, e)), e)),
                Option::None => Option::None,
            }
        } else if b == 91 {
            let k = ws_end(s, j + 1);
            if k < s.len() && s[k] == 93 {
                Option::Some((JsonV::Arr(Seq::empty()), k + 1))
            } else {
                match sp_elems(s, j + 1) {
                    Option::Some((es, e)) => Option::Some((JsonV::Arr(es), e)),
                    Option::None => Option::None,
                }
            }
        } else if b == 123 {
            let k = ws_end(s, j + 1);
            if k < s.len() && s[k] == 125 {
                Option::Some((JsonV::Obj(Seq::empty()), k + 1))
            } else {
                match sp_membs(s, j + 1) {
                    Option::Some((ms, e)) => Option::Some((JsonV::Obj(ms), e)),
                    Option::None => Option::None,
                }
            }
        } else {
            Option::None
        }
    }
}

/// The elements of a non-empty array, starting at `i` (just past `[` or a
/// comma), up to and past the closing bracket.
pub open spec fn sp_elems(s: Seq<u8>, i: int) -> Option<(Seq<JsonV>, int)>
    recommends
        0 <= i <= s.len(),
    decreases s.len() - i, 3int,
    when 0 <= i <= s.len()
    via sp_elems_decreases
{
    match sp_value(s, i) {
        Option::None => Option::None,
        Option::Some((v, e)) => if e <= i || e > s.len() {
            Option::None
        } else {
            let k = ws_end(s, e);
            if k < s.len() && s[k] == 44 {
                match sp_elems(s, k + 1) {
                    Option::Some((es, e2)) => Option::Some((seq![v] + es, e2)),
                    Option::None => Option::None,
                }
            } else if k < s.len() && s[k] == 93 {
                Option::Some((seq![v], k + 1))
            } else {
                Option::None
            }
        },
    }
}

/// The members of a non-empty object, starting at `i` (just past `{` or
/// a comma), up to and past the closing brace.
pub open spec fn sp_membs(s: Seq<u8>, i: int) -> Option<(Seq<(Seq<u8>, JsonV)>, int)>
    recommends
        0 <= i <= s.len(),
    decreases s.len() - i, 3int,
    when 0 <= i <= s.len()
    via sp_membs_decreases
{
    let k = ws_end(s, i);
    if k < s.len() && s[k] == 34 {
        match str_end(s, k + 1) {
            Option::Some(ke) => {
                let key = s.subrange(k + 1, ke - 1);
                let c = ws_end(s, ke);
                if c < s.len() && s[c] == 58 {
                    match sp_value(s, c + 1) {
                        Option::Some((v, e)) => if e <= c + 1 || e > s.len() {
                            Option::None
                        } else {
                            let k2 = ws_end(s, e);
                            if k2 < s.len() && s[k2] == 44 {
                                match sp_membs(s, k2 + 1) {
                                    Option::Some((ms, e2)) => Option::Some(
                                        (seq![(key, v)] + ms, e2),
                                    ),
                                    Option::None => Option::None,
                                }
                            } else if k2 < s.len() && s[k2] == 125 {
                                Option::Some((seq![(key, v)], k2 + 1))
                            } else {
                                Option::None
                            }
                        },
                        Option::None => Option::None,
                    }
                } else {
                    Option::None
                }
            },
            Option::None => Option::None,
        }
    } else {
        Option::None
    }
}

proof fn scanner_bounds(s: Seq<u8>)
    ensures
        forall|x: int| 0 <= x <= s.len() ==> x <= #[trigger] ws_end(s, x) <= s.len(),
        forall|x: int| 0 <= x <= s.len() ==> ((#[trigger] str_end(s, x)) matches Option::Some(e)
            ==> x < e <= s.len()),
        forall|x: int| 0 <= x <= s.len() ==> ((#[trigger] num_end(s, x)) matches Option::Some(e)
            ==> x < e <= s.len()),
{
    assert forall|x: int| 0 <= x <= s.len() implies x <= #[trigger] ws_end(s, x) <= s.len() by {
        lemma_ws_end(s, x);
    }
    assert forall|x: int| 0 <= x <= s.len() implies ((#[trigger] str_end(s, x))
        matches Option::Some(e) ==> x < e <= s.len()) by {
        lemma_str_end(s, x);
    }
    assert forall|x: int| 0 <= x <= s.len() implies ((#[trigger] num_end(s, x))
        matches Option::Some(e) ==> x < e <= s.len()) by {
        crate::json::lemma_num_end(s, x);
    }
}

#[via_fn]
proof fn sp_value_decreases(s: Seq<u8>, i: int) {
    scanner_bounds(s);
}

#[via_fn]
proof fn sp_elems_decreases(s: Seq<u8>, i: int) {
    scanner_bounds(s);
}

#[via_fn]
proof fn sp_membs_decreases(s: Seq<u8>, i: int) {
    scanner_bounds(s);
}

/// Every parse consumes at least one byte and stays inside the buffer.
pub proof fn lemma_sp_progress(s: Seq<u8>, i: int, rank: int)
    requires
        0 <= i <= s.len(),
        0 <= rank <= 1,
    ensures
        rank == 0 ==> (sp_value(s, i) matches Option::Some(p) ==> i < p.1 <= s.len()),
        rank == 1 ==> (sp_elems(s, i) matches Option::Some(p) ==> i < p.1 <= s.len())
            && (sp_membs(s, i) matches Option::Some(p) ==> i < p.1 <= s.len()),
    decreases s.len() - i, rank + 2,
{
    lemma_ws_end(s, i);
    let j = ws_end(s, i);
    if rank == 0 {
        if j < s.len() {
            let b = s[j];
            if b == 34 {
                lemma_str_end(s, j + 1);
            } else if b == 45 || is_digit(b) {
                crate::json::lemma_num_end(s, j);
            } else if b == 91 || b == 123 {
                lemma_ws_end(s, j + 1);
                if j + 1 <= s.len() {
                    lemma_sp_progress(s, j + 1, 1);
                }
            }
        }
    } else {
        // elements
        if let Option::Some((v, e)) = sp_value(s, i) {
            lemma_sp_progress(s, i, 0);
            if i < e <= s.len() {
                lemma_ws_end(s, e);
                let k = ws_end(s, e);
                if k < s.len() && s[k] == 44 {
                    lemma_sp_progress(s, k + 1, 1);
                }
            }
        }
        // members
        if j < s.len() && s[j] == 34 {
            lemma_str_end(s, j + 1);
            if let Option::Some(ke) = str_end(s, j + 1) {
                lemma_ws_end(s, ke);
                let c = ws_end(s, ke);
                if c < s.len() && s[c] == 58 {
                    lemma_sp_progress(s, c + 1, 0);
                    if let Option::Some((v, e)) = sp_value(s, c + 1) {
                        if c + 1 < e <= s.len() {
                            lemma_ws_end(s, e);
                            let k2 = ws_end(s, e);
                            if k2 < s.len() && s[k2] == 44 {
                                lemma_sp_progress(s, k2 + 1, 1);
                            }
                        }
                    }
                }
            }
        }
    }
}

/// A whole document: one value with nothing but whitespace after it.
pub open spec fn parse_doc(s: Seq<u8>) -> Option<JsonV> {
    match sp_value(s, 0) {
        Option::Some((v, e)) => if 0 <= e <= s.len() && ws_end(s, e) == s.len() {
            Option::Some(v)
        } else {
            Option::None
        },
        Option::None => Option::None,
    }
}


// ---------------------------------------------------------------------------
// Executable parser
// ---------------------------------------------------------------------------

fn ws_end_exec(s: &[u8], i: usize) -> (r: usize)
    requires
        i <= s@.len(),
    ensures
        r == ws_end(s@, i as int),
        i <= r <= s@.len(),
{
    let n: usize = s.len();
    let mut j: usize = i;
    while j < n && (s[j] == 32 || s[j] == 9 || s[j] == 10 || s[j] == 13)
        invariant
            i <= j <= n,
            n == s@.len(),
            ws_end(s@, i as int) == ws_end(s@, j as int),
        decreases n - j,
    {
        j = j + 1;
    }
    j
}

fn str_end_exec(s: &[u8], i: usize) -> (r: Option<usize>)
    requires
        i <= s@.len(),
    ensures
        match str_end(s@, i as int) {
            Option::Some(e) => r matches Option::Some(u) && u as int == e && i < u <= s@.len(),
            Option::None => r is None,
        },
{
    let n: usize = s.len();
    let mut j: usize = i;
    loop
        invariant
            i <= j <= n,
            n == s@.len(),
            str_end(s@, i as int) == str_end(s@, j as int),
        decreases n - j,
    {
        if j >= n {
            return None;
        }
        let b: u8 = s[j];
        if b == 34 {
            proof {
                lemma_str_end(s@, i as int);
            }
            return Some(j + 1);
        }
        if b == 92 {
            if n - j > 1 && (s[j + 1] == 34 || s[j + 1] == 92 || s[j + 1] == 47 || s[j + 1]
                == 98 || s[j + 1] == 102 || s[j + 1] == 110 || s[j + 1] == 114 || s[j + 1]
                == 116) {
                j = j + 2;
            } else if n - j > 5 && s[j + 1] == 117 && hex_exec(s[j + 2]) && hex_exec(s[j + 3])
                && hex_exec(s[j + 4]) && hex_exec(s[j + 5]) {
                j = j + 6;
            } else {
                return None;
            }
        } else if b < 32 {
            return None;
        } else {
            j = j + 1;
        }
    }
}

fn hex_exec(b: u8) -> (r: bool)
    ensures
        r == is_hex(b),
{
    (48 <= b && b <= 57) || (65 <= b && b <= 70) || (97 <= b && b <= 102)
}

/// The JSON value of a scanned number token `s[j..e]`.
fn num_token_value(s: &[u8], j: usize, e: usize) -> (r: Json)
    requires
        j < e <= s@.len(),
    ensures
        r.deep() == num_val(s@.subrange(j as int, e as int)),
{
    let ghost tok = s@.subrange(j as int, e as int);
    let neg: bool = s[j] == 45;
    let hstart: usize = if neg {
        j + 1
    } else {
        j
    };
    let ghost head = if neg {
        tok.drop_first()
    } else {
        tok
    };
    proof {
        assert(head =~= s@.subrange(hstart as int, e as int));
    }
    let bound: u64 = if neg {
        0x8000_0000_0000_0000
    } else {
        0x7fff_ffff_ffff_ffff
    };
    match crate::helpers::read_digits(s, hstart, e, bound) {
        Digits::Val(u) => {
            let v: i64 = if neg {
                if u == 0x8000_0000_0000_0000 {
                    i64::MIN
                } else {
                    -(u as i64)
                }
            } else {
                u as i64
            };
            let mut buf: Vec<u8> = Vec::new();
            fmt_i64(v, &mut buf);
            let toks = vstd::slice::slice_subrange(s, j, e);
            if bytes_eq(buf.as_slice(), toks) {
                Json::Int(v)
            } else {
                Json::Num(vstd::slice::slice_to_vec(toks))
            }
        },
        Digits::Over => {
            let toks = vstd::slice::slice_subrange(s, j, e);
            Json::Num(vstd::slice::slice_to_vec(toks))
        },
        Digits::Bad => {
            let toks = vstd::slice::slice_subrange(s, j, e);
            Json::Num(vstd::slice::slice_to_vec(toks))
        },
    }
}

/// Reads one value beginning at `i`, as [`sp_value`] describes.
pub fn parse_value(s: &[u8], i: usize) -> (r: Option<(Json, usize)>)
    requires
        i <= s@.len(),
    ensures
        match sp_value(s@, i as int) {
            Option::Some(p) => r matches Option::Some(q) && q.0.deep() == p.0 && q.1 as int
                == p.1 && i < q.1 <= s@.len(),
            Option::None => r is None,
        },
    decreases s@.len() - i, 2int,
{
    proof {
        lemma_sp_progress(s@, i as int, 0);
    }
    let n: usize = s.len();
    let j = ws_end_exec(s, i);
    if j >= n {
        return None;
    }
    let b: u8 = s[j];
    if b == 110 {
        if n - j >= 4 && s[j + 1] == 117 && s[j + 2] == 108 && s[j + 3] == 108 {
            Some((Json::Null, j + 4))
        } else {
            None
        }
    } else if b == 116 {
        if n - j >= 4 && s[j + 1] == 114 && s[j + 2] == 117 && s[j + 3] == 101 {
            Some((Json::Bool(true), j + 4))
        } else {
            None
        }
    } else if b == 102 {
        if n - j >= 5 && s[j + 1] == 97 && s[j + 2] == 108 && s[j + 3] == 115 && s[j + 4] == 101 {
            Some((Json::Bool(false), j + 5))
        } else {
            None
        }
    } else if b == 34 {
        match str_end_exec(s, j + 1) {
            Some(e) => {
                let content = vstd::slice::slice_subrange(s, j + 1, e - 1);
                Some((Json::Str(vstd::slice::slice_to_vec(content)), e))
            },
            None => None,
        }
    } else if b == 45 || (48 <= b && b <= 57) {
        match num_end_exec(s, j) {
            Some(e) => {
                proof {
                    crate::json::lemma_num_end(s@, j as int);
                }
                Some((num_token_value(s, j, e), e))
            },
            None => None,
        }
    } else if b == 91 {
        let k = ws_end_exec(s, j + 1);
        if k < n && s[k] == 93 {
            let empty: Vec<Json> = Vec::new();
            let out = Json::Arr(empty);
            proof {
                assert(out.deep() == JsonV::Arr(Seq::<JsonV>::empty()));
            }
            Some((out, k + 1))
        } else {
            match parse_elems(s, j + 1) {
                Some((es, e)) => Some((Json::Arr(es), e)),
                None => None,
            }
        }
    } else if b == 123 {
        let k = ws_end_exec(s, j + 1);
        if k < n && s[k] == 125 {
            let empty: Vec<(Vec<u8>, Json)> = Vec::new();
            let out = Json::Obj(empty);
            proof {
                assert(out.deep() == JsonV::Obj(Seq::<(Seq<u8>, JsonV)>::empty()));
            }
            Some((out, k + 1))
        } else {
            match parse_membs(s, j + 1) {
                Some((ms, e)) => Some((Json::Obj(ms), e)),
                None => None,
            }
        }
    } else {
        None
    }
}

fn parse_elems(s: &[u8], i: usize) -> (r: Option<(Vec<Json>, usize)>)
    requires
        i <= s@.len(),
    ensures
        match sp_elems(s@, i as int) {
            Option::Some(p) => r matches Option::Some(q) && deep_elems(q.0@) == p.0 && q.1 as int
                == p.1 && i < q.1 <= s@.len(),
            Option::None => r is None,
        },
    decreases s@.len() - i, 3int,
{
    proof {
        lemma_sp_progress(s@, i as int, 1);
    }
    let n: usize = s.len();
    let first = parse_value(s, i);
    let (v, e) = match first {
        Some(p) => p,
        None => {
            return None;
        },
    };
    let k = ws_end_exec(s, e);
    if k < n && s[k] == 44 {
        match parse_elems(s, k + 1) {
            Some((mut rest, e2)) => {
                let ghost vd = v.deep();
                let ghost restd = rest@;
                let mut out: Vec<Json> = Vec::new();
                out.push(v);
                out.append(&mut rest);
                proof {
                    lemma_deep_elems(out@);
                    lemma_deep_elems(restd);
                    assert(out@ =~= seq![out@[0]] + restd);
                    assert(deep_elems(out@) =~= seq![vd] + deep_elems(restd));
                }
                Some((out, e2))
            },
            None => None,
        }
    } else if k < n && s[k] == 93 {
        let ghost vd = v.deep();
        let mut out: Vec<Json> = Vec::new();
        out.push(v);
        proof {
            lemma_deep_elems(out@);
            assert(deep_elems(out@) =~= seq![vd]);
        }
        Some((out, k + 1))
    } else {
        None
    }
}

fn parse_membs(s: &[u8], i: usize) -> (r: Option<(Vec<(Vec<u8>, Json)>, usize)>)
    requires
        i <= s@.len(),
    ensures
        match sp_membs(s@, i as int) {
            Option::Some(p) => r matches Option::Some(q) && deep_membs(q.0@) == p.0 && q.1 as int
                == p.1 && i < q.1 <= s@.len(),
            Option::None => r is None,
        },
    decreases s@.len() - i, 3int,
{
    proof {
        lemma_sp_progress(s@, i as int, 1);
    }
    let n: usize = s.len();
    let k = ws_end_exec(s, i);
    if !(k < n && s[k] == 34) {
        return None;
    }
    let ke = match str_end_exec(s, k + 1) {
        Some(e) => e,
        None => {
            return None;
        },
    };
    let key = vstd::slice::slice_to_vec(vstd::slice::slice_subrange(s, k + 1, ke - 1));
    let c = ws_end_exec(s, ke);
    if !(c < n && s[c] == 58) {
        return None;
    }
    let (v, e) = match parse_value(s, c + 1) {
        Some(p) => p,
        None => {
            return None;
        },
    };
    let k2 = ws_end_exec(s, e);
    if k2 < n && s[k2] == 44 {
        match parse_membs(s, k2 + 1) {
            Some((mut rest, e2)) => {
                let ghost kd = key@;
                let ghost vd = v.deep();
                let ghost restd = rest@;
                let mut out: Vec<(Vec<u8>, Json)> = Vec::new();
                out.push((key, v));
                out.append(&mut rest);
                proof {
                    lemma_deep_membs(out@);
                    lemma_deep_membs(restd);
                    assert(out@ =~= seq![out@[0]] + restd);
                    assert(deep_membs(out@) =~= seq![(kd, vd)] + deep_membs(restd));
                }
                Some((out, e2))
            },
            None => None,
        }
    } else if k2 < n && s[k2] == 125 {
        let ghost kd = key@;
        let ghost vd = v.deep();
        let mut out: Vec<(Vec<u8>, Json)> = Vec::new();
        out.push((key, v));
        proof {
            lemma_deep_membs(out@);
            assert(deep_membs(out@) =~= seq![(kd, vd)]);
        }
        Some((out, k2 + 1))
    } else {
        None
    }
}

/// Parses one complete document, as [`parse_doc`] describes.
pub fn parse_json(s: &[u8]) -> (r: Option<Json>)
    ensures
        match parse_doc(s@) {
            Option::Some(v) => r matches Option::Some(j) && j.deep() == v,
            Option::None => r is None,
        },
{
    match parse_value(s, 0) {
        Some((v, e)) => {
            let k = ws_end_exec(s, e);
            if k == s.len() {
                Some(v)
            } else {
                None
            }
        },
        None => None,
    }
}


/// The request denoted by a byte buffer: a well-formed document that
/// decodes as a request.
pub open spec fn req_of_bytes(s: Seq<u8>) -> Option<ReqV> {
    match parse_doc(s) {
        Option::Some(v) => req_of_json(v),
        Option::None => Option::None,
    }
}

/// Parses and decodes one request out of a byte buffer.
pub fn parse_request(s: &[u8]) -> (r: Option<MCPRequest>)
    ensures
        match req_of_bytes(s@) {
            Option::Some(q) => r matches Option::Some(req) && req.deep() == q,
            Option::None => r is None,
        },
{
    match parse_json(s) {
        Some(v) => crate::protocol::decode_request(&v),
        None => None,
    }
}


// ---------------------------------------------------------------------------
// Token lemmas
// ---------------------------------------------------------------------------

/// What the string scanner accepts is a valid string-token content.
proof fn lemma_str_end_valid(s: Seq<u8>, i: int)
    requires
        0 <= i <= s.len(),
    ensures
        str_end(s, i) matches Option::Some(e) ==> {
            &&& i < e <= s.len()
            &&& strtok_ok(s.subrange(i, e - 1))
        },
    decreases s.len() - i,
{
    lemma_str_end(s, i);
    if let Option::Some(e) = str_end(s, i) {
        let t = s.subrange(i, e - 1);
        assert(forall|x: int| 0 <= x < t.len() ==> #[trigger] t[x] == s[i + x]);
        if s[i] == 34 {
            assert(t =~= Seq::<u8>::empty());
        } else if s[i] == 92 {
            if i + 1 < s.len() && is_esc_char(s[i + 1]) {
                lemma_str_end_valid(s, i + 2);
                assert(s.subrange(i + 2, e - 1) =~= t.subrange(2, t.len() as int));
                lemma_strtok_shift(t, 2);
            } else {
                lemma_str_end_valid(s, i + 6);
                assert(s.subrange(i + 6, e - 1) =~= t.subrange(6, t.len() as int));
                lemma_strtok_shift(t, 6);
            }
        } else {
            lemma_str_end_valid(s, i + 1);
            assert(s.subrange(i + 1, e - 1) =~= t.subrange(1, t.len() as int));
            lemma_strtok_shift(t, 1);
        }
    }
}

/// Scanning a buffer that holds a valid content and its closing quote
/// finds exactly that closing quote.
proof fn lemma_str_scan(s: Seq<u8>, i: int, t: Seq<u8>, k: int)
    requires
        0 <= k <= t.len(),
        0 <= i,
        i + (t.len() - k) + 1 <= s.len(),
        s.subrange(i, i + (t.len() - k)) == t.subrange(k, t.len() as int),
        s[i + (t.len() - k)] == 34,
        strtok_ok_from(t, k),
    ensures
        str_end(s, i) == Option::Some(i + (t.len() - k) + 1),
    decreases t.len() - k,
{
    let reg = s.subrange(i, i + (t.len() - k));
    if k == t.len() {
        assert(s[i] == 34);
    } else {
        assert(reg[0] == s[i] && reg[0] == t[k]);
        let c: int = if t[k] == 92 {
            assert(reg[1] == s[i + 1] && reg[1] == t[k + 1]);
            if is_esc_char(t[k + 1]) {
                2
            } else {
                assert(reg[2] == s[i + 2] && reg[2] == t[k + 2]);
                assert(reg[3] == s[i + 3] && reg[3] == t[k + 3]);
                assert(reg[4] == s[i + 4] && reg[4] == t[k + 4]);
                assert(reg[5] == s[i + 5] && reg[5] == t[k + 5]);
                6
            }
        } else {
            1
        };
        assert(s.subrange(i + c, i + (t.len() - k)) =~= reg.subrange(c, reg.len() as int));
        assert(t.subrange(k + c, t.len() as int) =~= reg.subrange(c, reg.len() as int));
        lemma_str_scan(s, i + c, t, k + c);
    }
}

/// A byte that could lengthen a number token standing before it.
pub open spec fn num_extend(b: u8) -> bool {
    is_digit(b) || b == 46 || b == 101 || b == 69
}

/// A digit run inside an embedded token scans to the same place as in
/// the token alone, provided no digit follows the token.
proof fn lemma_digits_embed(s: Seq<u8>, j: int, tok: Seq<u8>, a: int)
    requires
        0 <= j,
        j + tok.len() <= s.len(),
        s.subrange(j, j + tok.len()) == tok,
        0 <= a <= tok.len(),
        j + tok.len() == s.len() || !is_digit(s[j + tok.len()]),
    ensures
        digits_from(s, j + a) == j + digits_from(tok, a),
    decreases tok.len() - a,
{
    let reg = s.subrange(j, j + tok.len());
    assert(forall|x: int| 0 <= x < reg.len() ==> #[trigger] reg[x] == s[j + x]);
    if a < tok.len() {
        assert(s[j + a] == tok[a]);
        if is_digit(tok[a]) {
            lemma_digits_embed(s, j, tok, a + 1);
        }
    }
}

/// A digit run that stops inside (or at the end of) a region scans to
/// the same place in the region taken alone.
proof fn lemma_digits_extract(s: Seq<u8>, j: int, e: int, a: int)
    requires
        0 <= j <= j + a,
        j + a <= e <= s.len(),
        digits_from(s, j + a) <= e,
    ensures
        digits_from(s.subrange(j, e), a) == digits_from(s, j + a) - j,
    decreases e - (j + a),
{
    crate::json::lemma_digits_from(s, j + a);
    let tok = s.subrange(j, e);
    assert(forall|x: int| 0 <= x < tok.len() ==> #[trigger] tok[x] == s[j + x]);
    if j + a < e {
        if is_digit(s[j + a]) {
            lemma_digits_extract(s, j, e, a + 1);
        }
    }
}

/// A complete number token embedded in a buffer, with nothing
/// token-lengthening after it, scans to exactly its own end.
proof fn lemma_num_embed(s: Seq<u8>, j: int, tok: Seq<u8>)
    requires
        0 <= j,
        j + tok.len() <= s.len(),
        s.subrange(j, j + tok.len()) == tok,
        numtok_ok(tok),
        j + tok.len() == s.len() || !num_extend(s[j + tok.len()]),
    ensures
        num_end(s, j) == Option::Some(j + tok.len()),
{
    let reg = s.subrange(j, j + tok.len());
    assert(forall|x: int| 0 <= x < tok.len() ==> #[trigger] s[j + x] == reg[x]);
    let n = tok.len() as int;
    // The sign.
    let s0: int = if tok[0] == 45 {
        1
    } else {
        0
    };
    assert(s[j] == tok[0]);
    // The integer part.
    let a = match int_end(tok, s0) {
        Option::Some(a) => a,
        Option::None => {
            assert(false);
            0
        },
    };
    crate::json::lemma_num_end(tok, 0);
    assert(s0 < n);
    assert(s[j + s0] == tok[s0]);
    if tok[s0] == 48 {
        assert(int_end(s, j + s0) == Option::Some(j + s0 + 1));
        assert(a == s0 + 1);
    } else {
        lemma_digits_embed(s, j, tok, s0 + 1);
        assert(int_end(s, j + s0) == Option::Some(j + a));
    }
    crate::json::lemma_digits_from(tok, if tok[s0] == 48 {
        s0
    } else {
        s0 + 1
    });
    assert(s0 < a <= n) by {
        if tok[s0] != 48 {
            crate::json::lemma_digits_from(tok, s0 + 1);
        }
    }
    // The fraction part.
    let b = match frac_end(tok, a) {
        Option::Some(b) => b,
        Option::None => {
            assert(false);
            0
        },
    };
    if a < n && tok[a] == 46 {
        assert(s[j + a] == tok[a]);
        lemma_digits_embed(s, j, tok, a + 1);
        assert(frac_end(s, j + a) == Option::Some(j + b));
        crate::json::lemma_digits_from(tok, a + 1);
    } else {
        assert(b == a);
        if a < n {
            assert(s[j + a] == tok[a]);
            assert(frac_end(s, j + a) == Option::Some(j + a));
        } else {
            assert(frac_end(s, j + a) == Option::Some(j + a));
        }
    }
    assert(a <= b <= n);
    // The exponent part.
    assert(exp_end(tok, b) == Option::Some(n));
    if b < n && (tok[b] == 101 || tok[b] == 69) {
        assert(s[j + b] == tok[b]);
        let k: int = if b + 1 < n && (tok[b + 1] == 43 || tok[b + 1] == 45) {
            b + 2
        } else {
            b + 1
        };
        if b + 1 < n {
            assert(s[j + b + 1] == tok[b + 1]);
        } else {
            // The token would end in the exponent marker, which the
            // grammar refuses.
            crate::json::lemma_digits_from(tok, b + 1);
            assert(false);
        }
        lemma_digits_embed(s, j, tok, k);
        crate::json::lemma_digits_from(tok, k);
        assert(exp_end(s, j + b) == Option::Some(j + n));
    } else {
        assert(b == n);
        if j + b < s.len() {
            assert(exp_end(s, j + b) == Option::Some(j + b));
        } else {
            assert(exp_end(s, j + b) == Option::Some(j + b));
        }
    }
}

/// What the number scanner accepts, taken alone, is a complete number
/// token.
proof fn lemma_num_extract(s: Seq<u8>, j: int)
    requires
        0 <= j <= s.len(),
    ensures
        num_end(s, j) matches Option::Some(e) ==> {
            &&& j < e <= s.len()
            &&& numtok_ok(s.subrange(j, e))
        },
{
    crate::json::lemma_num_end(s, j);
    if let Option::Some(e) = num_end(s, j) {
        let tok = s.subrange(j, e);
        assert(forall|x: int| 0 <= x < tok.len() ==> #[trigger] tok[x] == s[j + x]);
        let n = e - j;
        let s0: int = if s[j] == 45 {
            1
        } else {
            0
        };
        assert(tok[0] == s[j]);
        let a = match int_end(s, j + s0) {
            Option::Some(a) => a,
            Option::None => {
                assert(false);
                0
            },
        };
        assert(j + s0 < s.len());
        // The whole chain stays inside [j, e].
        let b = match frac_end(s, a) {
            Option::Some(b) => b,
            Option::None => {
                assert(false);
                0
            },
        };
        assert(exp_end(s, b) == Option::Some(e));
        assert(j + s0 < a <= s.len()) by {
            if s[j + s0] != 48 {
                crate::json::lemma_digits_from(s, j + s0 + 1);
            }
        }
        assert(a <= b <= s.len()) by {
            if a < s.len() && s[a] == 46 {
                crate::json::lemma_digits_from(s, a + 1);
            }
        }
        assert(b <= e) by {
            if b < s.len() && (s[b] == 101 || s[b] == 69) {
                if b + 1 < s.len() && (s[b + 1] == 43 || s[b + 1] == 45) {
                    crate::json::lemma_digits_from(s, b + 2);
                } else {
                    crate::json::lemma_digits_from(s, b + 1);
                }
            }
        }
        // The integer part in the token alone.
        assert(tok[s0] == s[j + s0]);
        if s[j + s0] == 48 {
            assert(int_end(tok, s0) == Option::Some(s0 + 1));
            assert(a == j + s0 + 1);
        } else {
            lemma_digits_extract(s, j, e, s0 + 1);
            assert(int_end(tok, s0) == Option::Some(a - j));
        }
        // The fraction part in the token alone.
        if a < s.len() && s[a] == 46 && a < e {
            assert(tok[a - j] == s[a]);
            lemma_digits_extract(s, j, e, a - j + 1);
            assert(frac_end(tok, a - j) == Option::Some(b - j));
            crate::json::lemma_digits_from(s, a + 1);
        } else {
            assert(b == a);
            if a - j < n {
                assert(tok[a - j] == s[a]);
            }
            assert(frac_end(tok, a - j) == Option::Some(a - j));
        }
        // The exponent part in the token alone.
        if b < s.len() && (s[b] == 101 || s[b] == 69) && b < e {
            assert(tok[b - j] == s[b]);
            let k: int = if b + 1 < s.len() && (s[b + 1] == 43 || s[b + 1] == 45) {
                b + 2
            } else {
                b + 1
            };
            crate::json::lemma_digits_from(s, k);
            assert(k <= e);
            if b - j + 1 < n {
                assert(tok[b - j + 1] == s[b + 1]);
            }
            lemma_digits_extract(s, j, e, k - j);
            assert(exp_end(tok, b - j) == Option::Some(n));
        } else {
            assert(b == e);
            if b - j < n {
                assert(tok[b - j] == s[b]);
            }
            assert(exp_end(tok, b - j) == Option::Some(b - j));
        }
        assert(num_end(tok, 0) == Option::Some(n));
    }
}

/// Everything the parser builds is well-formed, at every rank of the
/// grammar.
proof fn lemma_parse_wf_at(s: Seq<u8>, i: int, rank: int)
    requires
        0 <= i <= s.len(),
        0 <= rank <= 1,
    ensures
        rank == 0 ==> (sp_value(s, i) matches Option::Some(p) ==> wf(p.0)),
        rank == 1 ==> (sp_elems(s, i) matches Option::Some(p) ==> forall|x: int|
            0 <= x < p.0.len() ==> wf(#[trigger] p.0[x])),
        rank == 1 ==> (sp_membs(s, i) matches Option::Some(p) ==> forall|x: int|
            0 <= x < p.0.len() ==> strtok_ok((#[trigger] p.0[x]).0) && wf(p.0[x].1)),
    decreases s.len() - i, rank + 2,
{
    lemma_ws_end(s, i);
    let j = ws_end(s, i);
    if rank == 0 {
        if j < s.len() {
            let b = s[j];
            if b == 34 {
                lemma_str_end_valid(s, j + 1);
            } else if b == 45 || is_digit(b) {
                lemma_num_extract(s, j);
            } else if b == 91 || b == 123 {
                lemma_ws_end(s, j + 1);
                lemma_parse_wf_at(s, j + 1, 1);
            }
        }
    } else {
        // elements
        if let Option::Some((v, e)) = sp_value(s, i) {
            lemma_parse_wf_at(s, i, 0);
            lemma_sp_progress(s, i, 0);
            lemma_ws_end(s, e);
            let k = ws_end(s, e);
            if k < s.len() && s[k] == 44 {
                lemma_parse_wf_at(s, k + 1, 1);
            }
        }
        // members
        if j < s.len() && s[j] == 34 {
            lemma_str_end_valid(s, j + 1);
            if let Option::Some(ke) = str_end(s, j + 1) {
                lemma_ws_end(s, ke);
                let c = ws_end(s, ke);
                if c < s.len() && s[c] == 58 {
                    lemma_parse_wf_at(s, c + 1, 0);
                    lemma_sp_progress(s, c + 1, 0);
                    if let Option::Some((v, e)) = sp_value(s, c + 1) {
                        lemma_ws_end(s, e);
                        let k2 = ws_end(s, e);
                        if k2 < s.len() && s[k2] == 44 {
                            lemma_parse_wf_at(s, k2 + 1, 1);
                        }
                    }
                }
            }
        }
    }
}

/// Whatever the parser reads out of a buffer is a well-formed value:
/// every string leaf and object key a valid string-token content, every
/// number leaf a complete number token, every integer in range.
pub proof fn lemma_parse_doc_wf(s: Seq<u8>)
    ensures
        parse_doc(s) matches Option::Some(v) ==> wf(v),
{
    lemma_parse_wf_at(s, 0, 0);
}

// ---------------------------------------------------------------------------
// Round trip: parsing what the serializer wrote
// ---------------------------------------------------------------------------

/// Parser-normal values: every raw number leaf is one the parser itself
/// would leave raw (its token is not a canonical integer), so nothing is
/// re-read differently.
pub open spec fn norm(v: JsonV) -> bool
    decreases v,
{
    match v {
        JsonV::Num(t) => num_val(t) == JsonV::Num(t),
        JsonV::Arr(es) => forall|i: int| 0 <= i < es.len() ==> norm(#[trigger] es[i]),
        JsonV::Obj(ms) => forall|i: int| 0 <= i < ms.len() ==> norm((#[trigger] ms[i]).1),
        _ => true,
    }
}

/// The decimal digits of a natural number: nonempty, all digits, no
/// leading zero unless the number is zero.
pub proof fn lemma_dec_u_shape(n: nat)
    ensures
        all_digits(dec_u(n)),
        dec_u(n).len() >= 1,
        n > 0 ==> dec_u(n)[0] != 48,
        n == 0 ==> dec_u(n) == seq![48u8],
    decreases n,
{
    if n >= 10 {
        lemma_dec_u_shape(n / 10);
    }
}

/// Decimal notation reads back to the number it was written from.
pub proof fn lemma_val_dec_u(n: nat)
    ensures
        val_of(dec_u(n)) == n,
    decreases n,
{
    if n < 10 {
        assert(dec_u(n) == seq![(48 + n) as u8]);
        assert(dec_u(n).last() == (48 + n) as u8);
        assert(dec_u(n).drop_last() =~= Seq::<u8>::empty());
        assert(val_of(dec_u(n)) == val_of(Seq::<u8>::empty()) * 10 + ((48 + n) as u8 - 48));
    } else {
        lemma_val_dec_u(n / 10);
        assert(dec_u(n).last() == (48 + n % 10) as u8);
        assert(dec_u(n).drop_last() =~= dec_u(n / 10));
        assert(val_of(dec_u(n)) == val_of(dec_u(n / 10)) * 10 + ((48 + n % 10) as u8 - 48));
    }
}

/// A canonical signed decimal is a complete number token.
proof fn lemma_numtok_dec_i(v: int)
    ensures
        numtok_ok(dec_i(v)),
{
    let tok = dec_i(v);
    if v < 0 {
        lemma_dec_u_shape((-v) as nat);
        assert(forall|x: int| 0 <= x < dec_u((-v) as nat).len()
            ==> #[trigger] tok[1 + x] == dec_u((-v) as nat)[x]);
        assert(tok[0] == 45);
        assert(tok[1] == dec_u((-v) as nat)[0]);
        assert(is_digit(tok[1]) && tok[1] != 48);
        assert(forall|x: int| 1 <= x < tok.len() ==> is_digit(#[trigger] tok[x]));
        lemma_digits_all_from(tok, 2);
        assert(int_end(tok, 1) == Option::Some(tok.len() as int));
        assert(frac_end(tok, tok.len() as int) == Option::Some(tok.len() as int));
        assert(exp_end(tok, tok.len() as int) == Option::Some(tok.len() as int));
    } else {
        lemma_dec_u_shape(v as nat);
        assert(tok == dec_u(v as nat));
        if v == 0 {
            assert(tok[0] == 48);
            assert(int_end(tok, 0) == Option::Some(1int));
            assert(frac_end(tok, 1) == Option::Some(1int));
            assert(exp_end(tok, 1) == Option::Some(1int));
        } else {
            assert(is_digit(tok[0]) && tok[0] != 48);
            lemma_digits_all_from(tok, 1);
            assert(int_end(tok, 0) == Option::Some(tok.len() as int));
            assert(frac_end(tok, tok.len() as int) == Option::Some(tok.len() as int));
            assert(exp_end(tok, tok.len() as int) == Option::Some(tok.len() as int));
        }
    }
}

/// A suffix of digits scans to the end.
proof fn lemma_digits_all_from(t: Seq<u8>, i: int)
    requires
        0 <= i <= t.len(),
        forall|x: int| i <= x < t.len() ==> is_digit(#[trigger] t[x]),
    ensures
        digits_from(t, i) == t.len(),
    decreases t.len() - i,
{
    if i < t.len() {
        lemma_digits_all_from(t, i + 1);
    }
}

/// A canonical signed decimal reads back as the integer it denotes.
proof fn lemma_num_val_dec_i(v: int)
    requires
        i64::MIN <= v <= i64::MAX,
    ensures
        num_val(dec_i(v)) == JsonV::Int(v),
{
    let tok = dec_i(v);
    if v < 0 {
        lemma_dec_u_shape((-v) as nat);
        lemma_val_dec_u((-v) as nat);
        assert(tok[0] == 45);
        assert(tok.drop_first() =~= dec_u((-v) as nat));
    } else {
        lemma_dec_u_shape(v as nat);
        lemma_val_dec_u(v as nat);
        assert(tok == dec_u(v as nat));
        assert(tok[0] != 45);
    }
}

/// The first byte a serialized value puts down: never whitespace, never
/// a closing delimiter, never a separator.
proof fn lemma_first_byte(v: JsonV)
    requires
        wf(v),
    ensures
        ser(v).len() > 0,
        !is_json_ws(ser(v)[0]),
        ser(v)[0] != 93 && ser(v)[0] != 125 && ser(v)[0] != 44 && ser(v)[0] != 58,
{
    match v {
        JsonV::Int(n) => {
            lemma_numtok_dec_i(n);
            lemma_numtok_first(ser(v));
        },
        JsonV::Num(t) => {
            lemma_numtok_first(t);
        },
        _ => {},
    }
}

/// A number token opens with a sign or a digit.
proof fn lemma_numtok_first(t: Seq<u8>)
    requires
        numtok_ok(t),
    ensures
        t.len() > 0,
        t[0] == 45 || is_digit(t[0]),
{
    if t[0] != 45 {
        assert(int_end(t, 0) is Some);
    }
}

/// A serialized value embedded in a buffer, followed by a separator or
/// closing delimiter (or the buffer's end), parses back to itself.
#[verifier::rlimit(100)]
#[verifier::spinoff_prover]
proof fn lemma_rt_value(v: JsonV, s: Seq<u8>, i: int)
    requires
        wf(v),
        norm(v),
        0 <= i,
        i + ser(v).len() <= s.len(),
        s.subrange(i, i + ser(v).len() as int) == ser(v),
        i + ser(v).len() == s.len() || s[i + ser(v).len()] == 44 || s[i + ser(v).len()] == 93
            || s[i + ser(v).len()] == 125,
    ensures
        sp_value(s, i) == Option::Some((v, i + ser(v).len() as int)),
    decreases v,
{
    let w = ser(v);
    let ln = w.len() as int;
    let reg = s.subrange(i, i + ln);
    lemma_first_byte(v);
    assert(reg[0] == s[i] && reg[0] == w[0]);
    assert(ws_end(s, i) == i);
    match v {
        JsonV::Null => {
            assert(reg[1] == s[i + 1] && reg[1] == w[1]);
            assert(reg[2] == s[i + 2] && reg[2] == w[2]);
            assert(reg[3] == s[i + 3] && reg[3] == w[3]);
        },
        JsonV::Bool(b) => {
            assert(reg[1] == s[i + 1] && reg[1] == w[1]);
            assert(reg[2] == s[i + 2] && reg[2] == w[2]);
            assert(reg[3] == s[i + 3] && reg[3] == w[3]);
            if !b {
                assert(reg[4] == s[i + 4] && reg[4] == w[4]);
            }
        },
        JsonV::Int(n) => {
            lemma_numtok_dec_i(n);
            lemma_num_val_dec_i(n);
            lemma_numtok_first(w);
            lemma_num_embed(s, i, w);
        },
        JsonV::Num(t) => {
            lemma_numtok_first(t);
            lemma_num_embed(s, i, t);
        },
        JsonV::Str(t) => {
            assert(forall|x: int| 0 <= x < t.len() ==> #[trigger] w[1 + x] == t[x]);
            assert(s.subrange(i + 1, i + 1 + t.len()) =~= reg.subrange(1, 1 + t.len() as int));
            assert(t.subrange(0, t.len() as int) =~= reg.subrange(1, 1 + t.len() as int));
            assert(t.subrange(0, t.len() as int) =~= t);
            assert(reg[1 + t.len() as int] == s[i + 1 + t.len()] && reg[1 + t.len() as int] == w[1 + t.len() as int]);
            assert(s[i + 1 + t.len()] == 34);
            lemma_str_scan(s, i + 1, t, 0);
            assert(s.subrange(i + 1, i + ln - 1) =~= t);
        },
        JsonV::Arr(es) => {
            if es.len() == 0 {
                assert(reg[1] == s[i + 1] && reg[1] == w[1]);
                assert(ws_end(s, i + 1) == i + 1);
                assert(es =~= Seq::<JsonV>::empty());
            } else {
                let inner = ser_elems(es);
                let en = inner.len() as int;
                assert(forall|x: int| 0 <= x < en ==> #[trigger] w[1 + x] == inner[x]);
                assert(s.subrange(i + 1, i + 1 + en) =~= reg.subrange(1, 1 + en));
                assert(inner.subrange(0, en) =~= reg.subrange(1, 1 + en));
                assert(inner.subrange(0, en) =~= inner);
                assert(reg[1 + en] == s[i + 1 + en] && reg[1 + en] == w[1 + en]);
                assert(s[i + 1 + en] == 93);
                lemma_first_byte(es[0]);
                assert(inner[0] == ser(es[0])[0]);
                assert(s[i + 1] == inner[0]);
                assert(ws_end(s, i + 1) == i + 1);
                lemma_rt_elems(es, s, i + 1);
            }
        },
        JsonV::Obj(ms) => {
            if ms.len() == 0 {
                assert(reg[1] == s[i + 1] && reg[1] == w[1]);
                assert(ws_end(s, i + 1) == i + 1);
                assert(ms =~= Seq::<(Seq<u8>, JsonV)>::empty());
            } else {
                let inner = ser_membs(ms);
                let en = inner.len() as int;
                assert(forall|x: int| 0 <= x < en ==> #[trigger] w[1 + x] == inner[x]);
                assert(s.subrange(i + 1, i + 1 + en) =~= reg.subrange(1, 1 + en));
                assert(inner.subrange(0, en) =~= reg.subrange(1, 1 + en));
                assert(inner.subrange(0, en) =~= inner);
                assert(reg[1 + en] == s[i + 1 + en] && reg[1 + en] == w[1 + en]);
                assert(s[i + 1 + en] == 125);
                assert(inner[0] == 34);
                assert(s[i + 1] == inner[0]);
                assert(ws_end(s, i + 1) == i + 1);
                lemma_rt_membs(ms, s, i + 1);
            }
        },
    }
}

/// Serialized elements followed by their closing bracket parse back to
/// the element list.
#[verifier::rlimit(100)]
#[verifier::spinoff_prover]
proof fn lemma_rt_elems(es: Seq<JsonV>, s: Seq<u8>, i: int)
    requires
        es.len() > 0,
        forall|x: int| 0 <= x < es.len() ==> wf(#[trigger] es[x]),
        forall|x: int| 0 <= x < es.len() ==> norm(#[trigger] es[x]),
        0 <= i,
        i + ser_elems(es).len() + 1 <= s.len(),
        s.subrange(i, i + ser_elems(es).len() as int) == ser_elems(es),
        s[i + ser_elems(es).len()] == 93,
    ensures
        sp_elems(s, i) == Option::Some((es, i + ser_elems(es).len() + 1)),
    decreases es,
{
    let en = ser_elems(es).len() as int;
    let reg = s.subrange(i, i + en);
    let w0 = ser(es[0]);
    let l0 = w0.len() as int;
    lemma_first_byte(es[0]);
    if es.len() == 1 {
        assert(ser_elems(es) == w0);
        lemma_rt_value(es[0], s, i);
        assert(ws_end(s, i + l0) == i + l0);
        assert(seq![es[0]] =~= es);
    } else {
        let rest = es.subrange(1, es.len() as int);
        assert(ser_elems(es) == w0 + seq![44u8] + ser_elems(rest));
        assert(forall|x: int| 0 <= x < l0 ==> #[trigger] reg[x] == w0[x]);
        assert(s.subrange(i, i + l0) =~= reg.subrange(0, l0));
        assert(w0.subrange(0, l0) =~= reg.subrange(0, l0));
        assert(w0.subrange(0, l0) =~= w0);
        assert(reg[l0] == s[i + l0] && reg[l0] == 44);
        lemma_rt_value(es[0], s, i);
        assert(ws_end(s, i + l0) == i + l0);
        let rn = ser_elems(rest).len() as int;
        assert(en == l0 + 1 + rn);
        assert(forall|x: int| 0 <= x < rn ==> #[trigger] reg[l0 + 1 + x] == ser_elems(rest)[x]);
        assert(s.subrange(i + l0 + 1, i + en) =~= reg.subrange(l0 + 1, en));
        assert(ser_elems(rest).subrange(0, rn) =~= reg.subrange(l0 + 1, en));
        assert(ser_elems(rest).subrange(0, rn) =~= ser_elems(rest));
        assert(s[i + en] == 93);
        lemma_rt_elems(rest, s, i + l0 + 1);
        assert(seq![es[0]] + rest =~= es);
    }
}

/// Serialized members followed by their closing brace parse back to the
/// member list.
#[verifier::rlimit(100)]
#[verifier::spinoff_prover]
proof fn lemma_rt_membs(ms: Seq<(Seq<u8>, JsonV)>, s: Seq<u8>, i: int)
    requires
        ms.len() > 0,
        forall|x: int| 0 <= x < ms.len() ==> strtok_ok((#[trigger] ms[x]).0),
        forall|x: int| 0 <= x < ms.len() ==> wf((#[trigger] ms[x]).1),
        forall|x: int| 0 <= x < ms.len() ==> norm((#[trigger] ms[x]).1),
        0 <= i,
        i + ser_membs(ms).len() + 1 <= s.len(),
        s.subrange(i, i + ser_membs(ms).len() as int) == ser_membs(ms),
        s[i + ser_membs(ms).len()] == 125,
    ensures
        sp_membs(s, i) == Option::Some((ms, i + ser_membs(ms).len() + 1)),
    decreases ms,
{
    let en = ser_membs(ms).len() as int;
    let reg = s.subrange(i, i + en);
    let k0 = ms[0].0;
    let v0 = ms[0].1;
    let kn = k0.len() as int;
    let w0 = ser(v0);
    let l0 = w0.len() as int;
    let m0 = seq![34u8] + k0 + seq![34u8, 58u8] + w0;
    let mn = kn + 3 + l0;
    assert(m0.len() == mn);
    if ms.len() == 1 {
        assert(ser_membs(ms) == m0);
    } else {
        let rest = ms.subrange(1, ms.len() as int);
        assert(ser_membs(ms) == m0 + seq![44u8] + ser_membs(rest));
    }
    assert(forall|x: int| 0 <= x < mn ==> #[trigger] reg[x] == m0[x]);
    // The key string.
    assert(reg[0] == s[i] && reg[0] == 34);
    assert(ws_end(s, i) == i);
    assert(forall|x: int| 0 <= x < kn ==> #[trigger] m0[1 + x] == k0[x]);
    assert(s.subrange(i + 1, i + 1 + kn) =~= reg.subrange(1, 1 + kn));
    assert(k0.subrange(0, kn) =~= reg.subrange(1, 1 + kn));
    assert(k0.subrange(0, kn) =~= k0);
    assert(reg[1 + kn] == s[i + 1 + kn] && reg[1 + kn] == 34);
    lemma_str_scan(s, i + 1, k0, 0);
    let ke = i + kn + 2;
    assert(str_end(s, i + 1) == Option::Some(ke));
    assert(s.subrange(i + 1, ke - 1) =~= k0);
    // The colon.
    assert(reg[kn + 2] == s[ke] && reg[kn + 2] == 58);
    assert(ws_end(s, ke) == ke);
    // The value.
    assert(forall|x: int| 0 <= x < l0 ==> #[trigger] m0[kn + 3 + x] == w0[x]);
    assert(s.subrange(ke + 1, ke + 1 + l0) =~= reg.subrange(kn + 3, mn));
    assert(w0.subrange(0, l0) =~= reg.subrange(kn + 3, mn));
    assert(w0.subrange(0, l0) =~= w0);
    lemma_first_byte(v0);
    if ms.len() == 1 {
        assert(s[ke + 1 + l0] == 125);
        lemma_rt_value(v0, s, ke + 1);
        assert(ws_end(s, ke + 1 + l0) == ke + 1 + l0);
        assert(seq![(k0, v0)] =~= ms);
    } else {
        let rest = ms.subrange(1, ms.len() as int);
        assert(reg[mn] == s[i + mn] && reg[mn] == 44);
        lemma_rt_value(v0, s, ke + 1);
        assert(ws_end(s, ke + 1 + l0) == ke + 1 + l0);
        let rn = ser_membs(rest).len() as int;
        assert(en == mn + 1 + rn);
        assert(forall|x: int| 0 <= x < rn ==> #[trigger] reg[mn + 1 + x] == ser_membs(rest)[x]);
        assert(s.subrange(i + mn + 1, i + en) =~= reg.subrange(mn + 1, en));
        assert(ser_membs(rest).subrange(0, rn) =~= reg.subrange(mn + 1, en));
        assert(ser_membs(rest).subrange(0, rn) =~= ser_membs(rest));
        assert(s[i + en] == 125);
        lemma_rt_membs(rest, s, i + mn + 1);
        assert(seq![(k0, v0)] + rest =~= ms);
    }
}

/// The round trip: what the serializer writes for a well-formed,
/// parser-normal value, the parser reads back as exactly that value.
pub proof fn lemma_parse_ser_roundtrip(v: JsonV)
    requires
        wf(v),
        norm(v),
    ensures
        parse_doc(ser(v)) == Option::Some(v),
{
    let s = ser(v);
    assert(s.subrange(0, s.len() as int) =~= s);
    lemma_rt_value(v, s, 0);
    assert(ws_end(s, s.len() as int) == s.len());
}
} // verus!
