//! JSON document model and serializer.
//!
//! A document is modelled by [`Json`], whose mathematical counterpart is
//! [`JsonV`] (reached through [`Json::deep`]).  String and number leaves
//! hold their token bytes exactly as they stand between the delimiters on
//! the wire, so serialization is verbatim and parse/serialize round trips
//! are exact.  [`ser`] gives the compact wire form, [`serp`] the
//! two-space indented form used for human-readable payloads.

use vstd::prelude::*;
use vstd::string::StrSliceExecFns;
use vstd::string::StringSliceAdditionalSpecFns;

verus! {

/// A JSON value as held by executable code.
///
/// `Str` and `Num` carry raw token bytes: for `Str`, the bytes between the
/// quotes (escape sequences kept as written); for `Num`, the complete
/// number token.  Integer tokens in canonical decimal form are held as
/// `Int` instead, so a numeric identifier re-serializes to the very bytes
/// it arrived in.
#[derive(Debug)]
pub enum Json {
    Null,
    Bool(bool),
    Int(i64),
    Num(Vec<u8>),
    Str(Vec<u8>),
    Arr(Vec<Json>),
    Obj(Vec<(Vec<u8>, Json)>),
}

/// The mathematical model of a JSON value.
pub enum JsonV {
    Null,
    Bool(bool),
    Int(int),
    Num(Seq<u8>),
    Str(Seq<u8>),
    Arr(Seq<JsonV>),
    Obj(Seq<(Seq<u8>, JsonV)>),
}

impl Json {
    /// The model of this value: every `Vec` replaced by its sequence.
    pub open spec fn deep(self) -> JsonV
        decreases self,
    {
        match self {
            Json::Null => JsonV::Null,
            Json::Bool(b) => JsonV::Bool(b),
            Json::Int(n) => JsonV::Int(n as int),
            Json::Num(t) => JsonV::Num(t@),
            Json::Str(t) => JsonV::Str(t@),
            Json::Arr(es) => JsonV::Arr(deep_elems(es@)),
            Json::Obj(ms) => JsonV::Obj(deep_membs(ms@)),
        }
    }
}

pub open spec fn deep_elems(es: Seq<Json>) -> Seq<JsonV>
    decreases es,
{
    if es.len() == 0 {
        Seq::empty()
    } else {
        seq![es[0].deep()] + deep_elems(es.subrange(1, es.len() as int))
    }
}

pub open spec fn deep_membs(ms: Seq<(Vec<u8>, Json)>) -> Seq<(Seq<u8>, JsonV)>
    decreases ms,
{
    if ms.len() == 0 {
        Seq::empty()
    } else {
        seq![(ms[0].0@, ms[0].1.deep())] + deep_membs(ms.subrange(1, ms.len() as int))
    }
}

/// `deep_elems` is the element-wise model of the vector.
pub proof fn lemma_deep_elems(es: Seq<Json>)
    ensures
        deep_elems(es).len() == es.len(),
        forall|i: int| 0 <= i < es.len() ==> deep_elems(es)[i] == es[i].deep(),
    decreases es.len(),
{
    if es.len() > 0 {
        lemma_deep_elems(es.subrange(1, es.len() as int));
    }
}

/// `deep_membs` is the member-wise model of the vector.
pub proof fn lemma_deep_membs(ms: Seq<(Vec<u8>, Json)>)
    ensures
        deep_membs(ms).len() == ms.len(),
        forall|i: int| 0 <= i < ms.len()
            ==> deep_membs(ms)[i] == (ms[i].0@, ms[i].1.deep()),
    decreases ms.len(),
{
    if ms.len() > 0 {
        lemma_deep_membs(ms.subrange(1, ms.len() as int));
    }
}

// ---------------------------------------------------------------------------
// Decimal notation for integers
// ---------------------------------------------------------------------------

/// The decimal digits of `n`, most significant first.
pub open spec fn dec_u(n: nat) -> Seq<u8>
    decreases n,
{
    if n < 10 {
        seq![(48 + n) as u8]
    } else {
        dec_u(n / 10).push((48 + n % 10) as u8)
    }
}

/// The canonical decimal token of an integer, with `-` for negatives.
pub open spec fn dec_i(n: int) -> Seq<u8> {
    if n < 0 {
        seq![45u8] + dec_u((-n) as nat)
    } else {
        dec_u(n as nat)
    }
}

// ---------------------------------------------------------------------------
// Token grammar
// ---------------------------------------------------------------------------

pub open spec fn is_digit(b: u8) -> bool {
    48 <= b <= 57
}

pub open spec fn is_hex(b: u8) -> bool {
    is_digit(b) || (65 <= b <= 70) || (97 <= b <= 102)
}

/// The characters that may follow a backslash as a one-letter escape.
pub open spec fn is_esc_char(b: u8) -> bool {
    b == 34 || b == 92 || b == 47 || b == 98 || b == 102 || b == 110 || b == 114 || b == 116
}

/// First index at or after `i` that does not hold a decimal digit.
pub open spec fn digits_from(t: Seq<u8>, i: int) -> int
    recommends
        0 <= i <= t.len(),
    decreases t.len() - i,
    when 0 <= i <= t.len()
{
    if i < t.len() && is_digit(t[i]) {
        digits_from(t, i + 1)
    } else {
        i
    }
}

/// The raw bytes `t` are a well-formed string-token content: what may stand
/// between the quotes of a JSON string.
pub open spec fn strtok_ok_from(t: Seq<u8>, i: int) -> bool
    recommends
        0 <= i <= t.len(),
    decreases t.len() - i,
    when 0 <= i <= t.len()
{
    if i >= t.len() {
        true
    } else if t[i] == 92 {
        if i + 1 < t.len() && is_esc_char(t[i + 1]) {
            strtok_ok_from(t, i + 2)
        } else if i + 5 < t.len() && t[i + 1] == 117 && is_hex(t[i + 2]) && is_hex(t[i + 3])
            && is_hex(t[i + 4]) && is_hex(t[i + 5]) {
            strtok_ok_from(t, i + 6)
        } else {
            false
        }
    } else if t[i] == 34 || t[i] < 32 {
        false
    } else {
        strtok_ok_from(t, i + 1)
    }
}

pub open spec fn strtok_ok(t: Seq<u8>) -> bool {
    strtok_ok_from(t, 0)
}

/// End of the integer part of a number token starting at `i`.
pub open spec fn int_end(t: Seq<u8>, i: int) -> Option<int>
    recommends
        0 <= i <= t.len(),
{
    if i < t.len() && t[i] == 48 {
        Some(i + 1)
    } else if i < t.len() && 49 <= t[i] <= 57 {
        Some(digits_from(t, i + 1))
    } else {
        None
    }
}

/// End of the optional fraction part starting at `i`.
pub open spec fn frac_end(t: Seq<u8>, i: int) -> Option<int>
    recommends
        0 <= i <= t.len(),
{
    if i < t.len() && t[i] == 46 {
        let j = digits_from(t, i + 1);
        if j > i + 1 {
            Some(j)
        } else {
            None
        }
    } else {
        Some(i)
    }
}

/// End of the optional exponent part starting at `i`.
pub open spec fn exp_end(t: Seq<u8>, i: int) -> Option<int>
    recommends
        0 <= i <= t.len(),
{
    if i < t.len() && (t[i] == 101 || t[i] == 69) {
        let k = if i + 1 < t.len() && (t[i + 1] == 43 || t[i + 1] == 45) {
            i + 2
        } else {
            i + 1
        };
        let j = digits_from(t, k);
        if j > k {
            Some(j)
        } else {
            None
        }
    } else {
        Some(i)
    }
}

/// End of a complete number token starting at `i`, if one starts there.
pub open spec fn num_end(t: Seq<u8>, i: int) -> Option<int>
    recommends
        0 <= i <= t.len(),
{
    let s = if i < t.len() && t[i] == 45 {
        i + 1
    } else {
        i
    };
    match int_end(t, s) {
        Option::None => Option::None,
        Option::Some(a) => match frac_end(t, a) {
            Option::None => Option::None,
            Option::Some(b) => exp_end(t, b),
        },
    }
}

/// A number token, where one starts, consumes at least one byte and
/// stays inside the buffer.
pub proof fn lemma_num_end(t: Seq<u8>, i: int)
    requires
        0 <= i <= t.len(),
    ensures
        num_end(t, i) matches Option::Some(e) ==> i < e <= t.len(),
{
    let s = if i < t.len() && t[i] == 45 {
        i + 1
    } else {
        i
    };
    if s < t.len() && t[s] == 48 {
    } else if s < t.len() && 49 <= t[s] <= 57 {
        lemma_digits_from(t, s + 1);
    }
    if let Option::Some(a) = int_end(t, s) {
        if i < a <= t.len() {
            if a < t.len() && t[a] == 46 {
                lemma_digits_from(t, a + 1);
            }
            if let Option::Some(b) = frac_end(t, a) {
                if i < b <= t.len() {
                    if b < t.len() && (t[b] == 101 || t[b] == 69) {
                        if b + 1 < t.len() && (t[b + 1] == 43 || t[b + 1] == 45) {
                            lemma_digits_from(t, b + 2);
                        } else {
                            lemma_digits_from(t, b + 1);
                        }
                    }
                }
            }
        }
    }
}

/// `digits_from` moves only forward and stays inside the buffer.
pub proof fn lemma_digits_from(t: Seq<u8>, i: int)
    requires
        0 <= i <= t.len(),
    ensures
        i <= digits_from(t, i) <= t.len(),
    decreases t.len() - i,
{
    if i < t.len() && is_digit(t[i]) {
        lemma_digits_from(t, i + 1);
    }
}

/// The bytes `t` are exactly one well-formed JSON number token.
pub open spec fn numtok_ok(t: Seq<u8>) -> bool {
    t.len() > 0 && num_end(t, 0) == Option::Some(t.len() as int)
}

/// Well-formedness of a model value: every string leaf and object key is a
/// valid string-token content, and every `Num` leaf a valid number token.
pub open spec fn wf(v: JsonV) -> bool
    decreases v,
{
    match v {
        JsonV::Int(n) => i64::MIN <= n <= i64::MAX,
        JsonV::Num(t) => numtok_ok(t),
        JsonV::Str(t) => strtok_ok(t),
        JsonV::Arr(es) => forall|i: int| 0 <= i < es.len() ==> wf(#[trigger] es[i]),
        JsonV::Obj(ms) => forall|i: int|
            0 <= i < ms.len() ==> strtok_ok((#[trigger] ms[i]).0) && wf(ms[i].1),
        _ => true,
    }
}

// ---------------------------------------------------------------------------
// Compact serialization
// ---------------------------------------------------------------------------

/// The compact wire form of a value: no whitespace, tokens verbatim.
pub open spec fn ser(v: JsonV) -> Seq<u8>
    decreases v,
{
    match v {
        JsonV::Null => seq![110u8, 117u8, 108u8, 108u8],
        JsonV::Bool(b) => if b {
            seq![116u8, 114u8, 117u8, 101u8]
        } else {
            seq![102u8, 97u8, 108u8, 115u8, 101u8]
        },
        JsonV::Int(n) => dec_i(n),
        JsonV::Num(t) => t,
        JsonV::Str(t) => seq![34u8] + t + seq![34u8],
        JsonV::Arr(es) => seq![91u8] + ser_elems(es) + seq![93u8],
        JsonV::Obj(ms) => seq![123u8] + ser_membs(ms) + seq![125u8],
    }
}

pub open spec fn ser_elems(es: Seq<JsonV>) -> Seq<u8>
    decreases es,
{
    if es.len() == 0 {
        Seq::empty()
    } else if es.len() == 1 {
        ser(es[0])
    } else {
        ser(es[0]) + seq![44u8] + ser_elems(es.subrange(1, es.len() as int))
    }
}

pub open spec fn ser_membs(ms: Seq<(Seq<u8>, JsonV)>) -> Seq<u8>
    decreases ms,
{
    if ms.len() == 0 {
        Seq::empty()
    } else {
        let m = seq![34u8] + ms[0].0 + seq![34u8, 58u8] + ser(ms[0].1);
        if ms.len() == 1 {
            m
        } else {
            m + seq![44u8] + ser_membs(ms.subrange(1, ms.len() as int))
        }
    }
}

// ---------------------------------------------------------------------------
// Pretty serialization (two-space indents, as used for text payloads)
// ---------------------------------------------------------------------------

/// `d` levels of two-space indentation.
pub open spec fn ind(d: nat) -> Seq<u8>
    decreases d,
{
    if d == 0 {
        Seq::empty()
    } else {
        ind((d - 1) as nat) + seq![32u8, 32u8]
    }
}

/// The indented form of a value standing at depth `d`.
pub open spec fn serp(v: JsonV, d: nat) -> Seq<u8>
    decreases v,
{
    match v {
        JsonV::Arr(es) => if es.len() == 0 {
            seq![91u8, 93u8]
        } else {
            seq![91u8, 10u8] + serp_elems(es, d + 1) + seq![10u8] + ind(d) + seq![93u8]
        },
        JsonV::Obj(ms) => if ms.len() == 0 {
            seq![123u8, 125u8]
        } else {
            seq![123u8, 10u8] + serp_membs(ms, d + 1) + seq![10u8] + ind(d) + seq![125u8]
        },
        _ => ser(v),
    }
}

pub open spec fn serp_elems(es: Seq<JsonV>, d: nat) -> Seq<u8>
    decreases es,
{
    if es.len() == 0 {
        Seq::empty()
    } else {
        let m = ind(d) + serp(es[0], d);
        if es.len() == 1 {
            m
        } else {
            m + seq![44u8, 10u8] + serp_elems(es.subrange(1, es.len() as int), d)
        }
    }
}

pub open spec fn serp_membs(ms: Seq<(Seq<u8>, JsonV)>, d: nat) -> Seq<u8>
    decreases ms,
{
    if ms.len() == 0 {
        Seq::empty()
    } else {
        let m = ind(d) + seq![34u8] + ms[0].0 + seq![34u8, 58u8, 32u8] + serp(ms[0].1, d);
        if ms.len() == 1 {
            m
        } else {
            m + seq![44u8, 10u8] + serp_membs(ms.subrange(1, ms.len() as int), d)
        }
    }
}


// ---------------------------------------------------------------------------
// Executable helpers
// ---------------------------------------------------------------------------

/// Byte-for-byte comparison of two slices.
pub fn bytes_eq(a: &[u8], b: &[u8]) -> (r: bool)
    ensures
        r == (a@ == b@),
{
    if a.len() != b.len() {
        assert(a@ != b@) by {
            assert(a@.len() != b@.len());
        }
        return false;
    }
    let n: usize = a.len();
    let mut i: usize = 0;
    while i < n
        invariant
            0 <= i <= n,
            n == a@.len() == b@.len(),
            forall|k: int| 0 <= k < i ==> a@[k] == b@[k],
        decreases n - i,
    {
        if a[i] != b[i] {
            return false;
        }
        i = i + 1;
    }
    assert(a@ =~= b@);
    true
}

/// Appends all of `src` to `out`.
pub fn write_bytes(src: &[u8], out: &mut Vec<u8>)
    ensures
        final(out)@ == old(out)@ + src@,
{
    let n: usize = src.len();
    let mut i: usize = 0;
    while i < n
        invariant
            0 <= i <= n,
            n == src@.len(),
            out@ == old(out)@ + src@.subrange(0, i as int),
        decreases n - i,
    {
        out.push(src[i]);
        assert(src@.subrange(0, i + 1 as int) =~= src@.subrange(0, i as int).push(src@[i as int]));
        i = i + 1;
    }
    assert(src@.subrange(0, n as int) =~= src@);
}

/// Appends the decimal digits of `n` to `out`.
pub fn fmt_u64(n: u64, out: &mut Vec<u8>)
    ensures
        final(out)@ == old(out)@ + dec_u(n as nat),
    decreases n,
{
    if n < 10 {
        out.push((48 + n) as u8);
    } else {
        fmt_u64(n / 10, out);
        out.push((48 + n % 10) as u8);
    }
}

/// Appends the canonical decimal token of `n` to `out`.
pub fn fmt_i64(n: i64, out: &mut Vec<u8>)
    ensures
        final(out)@ == old(out)@ + dec_i(n as int),
{
    if n >= 0 {
        fmt_u64(n as u64, out);
    } else {
        out.push(45u8);
        let m: u64 = ((-(n + 1)) as u64) + 1;
        assert(m as nat == (-(n as int)) as nat);
        fmt_u64(m, out);
    }
}

// ---------------------------------------------------------------------------
// String escaping
// ---------------------------------------------------------------------------

pub open spec fn hex_digit(n: u8) -> u8
    recommends
        n < 16,
{
    if n < 10 {
        (48 + n) as u8
    } else {
        (87 + n) as u8
    }
}

/// The escape of one plain byte, as the encoder writes it.
pub open spec fn esc_byte(b: u8) -> Seq<u8> {
    if b == 34 {
        seq![92u8, 34u8]
    } else if b == 92 {
        seq![92u8, 92u8]
    } else if b == 10 {
        seq![92u8, 110u8]
    } else if b == 13 {
        seq![92u8, 114u8]
    } else if b == 9 {
        seq![92u8, 116u8]
    } else if b == 8 {
        seq![92u8, 98u8]
    } else if b == 12 {
        seq![92u8, 102u8]
    } else if b < 32 {
        seq![92u8, 117u8, 48u8, 48u8, hex_digit(b / 16), hex_digit(b % 16)]
    } else {
        seq![b]
    }
}

/// The escaped form of arbitrary bytes: a valid string-token content.
pub open spec fn esc(t: Seq<u8>) -> Seq<u8>
    decreases t.len(),
{
    if t.len() == 0 {
        Seq::empty()
    } else {
        esc_byte(t[0]) + esc(t.subrange(1, t.len() as int))
    }
}

fn escape_from(t: &[u8], i: usize, out: &mut Vec<u8>)
    requires
        i <= t@.len(),
    ensures
        final(out)@ == old(out)@ + esc(t@.subrange(i as int, t@.len() as int)),
    decreases t@.len() - i,
{
    if i == t.len() {
        assert(esc(t@.subrange(i as int, t@.len() as int)) =~= Seq::<u8>::empty());
        return;
    }
    let b: u8 = t[i];
    if b == 34 {
        out.push(92u8);
        out.push(34u8);
    } else if b == 92 {
        out.push(92u8);
        out.push(92u8);
    } else if b == 10 {
        out.push(92u8);
        out.push(110u8);
    } else if b == 13 {
        out.push(92u8);
        out.push(114u8);
    } else if b == 9 {
        out.push(92u8);
        out.push(116u8);
    } else if b == 8 {
        out.push(92u8);
        out.push(98u8);
    } else if b == 12 {
        out.push(92u8);
        out.push(102u8);
    } else if b < 32 {
        out.push(92u8);
        out.push(117u8);
        out.push(48u8);
        out.push(48u8);
        if b / 16 < 10 {
            out.push(48 + b / 16);
        } else {
            out.push(87 + b / 16);
        }
        if b % 16 < 10 {
            out.push(48 + b % 16);
        } else {
            out.push(87 + b % 16);
        }
    } else {
        out.push(b);
    }
    let ghost whole = t@.subrange(i as int, t@.len() as int);
    assert(out@ == old(out)@ + esc_byte(t@[i as int]));
    escape_from(t, i + 1, out);
    proof {
        assert(whole[0] == t@[i as int]);
        assert(whole.subrange(1, whole.len() as int)
            =~= t@.subrange(i + 1 as int, t@.len() as int));
        assert(esc(whole) == esc_byte(t@[i as int]) + esc(t@.subrange(
            i + 1 as int,
            t@.len() as int,
        )));
    }
}

/// Escapes arbitrary bytes into a string-token content.
pub fn escape(t: &[u8]) -> (r: Vec<u8>)
    ensures
        r@ == esc(t@),
{
    let mut out: Vec<u8> = Vec::new();
    escape_from(t, 0, &mut out);
    assert(t@.subrange(0, t@.len() as int) =~= t@);
    out
}


// ---------------------------------------------------------------------------
// Compact writer
// ---------------------------------------------------------------------------

/// Appends the compact wire form of `v` to `out`.
pub fn write_json(v: &Json, out: &mut Vec<u8>)
    ensures
        final(out)@ == old(out)@ + ser(v.deep()),
    decreases v,
{
    match v {
        Json::Null => {
            out.push(110u8);
            out.push(117u8);
            out.push(108u8);
            out.push(108u8);
            assert(out@ =~= old(out)@ + seq![110u8, 117u8, 108u8, 108u8]);
        },
        Json::Bool(b) => {
            if *b {
                out.push(116u8);
                out.push(114u8);
                out.push(117u8);
                out.push(101u8);
                assert(out@ =~= old(out)@ + seq![116u8, 114u8, 117u8, 101u8]);
            } else {
                out.push(102u8);
                out.push(97u8);
                out.push(108u8);
                out.push(115u8);
                out.push(101u8);
                assert(out@ =~= old(out)@ + seq![102u8, 97u8, 108u8, 115u8, 101u8]);
            }
        },
        Json::Int(n) => {
            fmt_i64(*n, out);
        },
        Json::Num(t) => {
            write_bytes(t.as_slice(), out);
        },
        Json::Str(t) => {
            out.push(34u8);
            write_bytes(t.as_slice(), out);
            out.push(34u8);
            assert(out@ =~= old(out)@ + seq![34u8] + t@ + seq![34u8]);
        },
        Json::Arr(es) => {
            out.push(91u8);
            write_elems(es, 0, out);
            out.push(93u8);
            proof {
                lemma_deep_elems(es@);
                assert(deep_elems(es@).subrange(0, es@.len() as int) =~= deep_elems(es@));
                assert(out@ =~= old(out)@ + seq![91u8] + ser_elems(deep_elems(es@))
                    + seq![93u8]);
            }
        },
        Json::Obj(ms) => {
            out.push(123u8);
            write_membs(ms, 0, out);
            out.push(125u8);
            proof {
                lemma_deep_membs(ms@);
                assert(deep_membs(ms@).subrange(0, ms@.len() as int) =~= deep_membs(ms@));
                assert(out@ =~= old(out)@ + seq![123u8] + ser_membs(deep_membs(ms@))
                    + seq![125u8]);
            }
        },
    }
}

fn write_elems(es: &Vec<Json>, i: usize, out: &mut Vec<u8>)
    requires
        i <= es@.len(),
    ensures
        final(out)@ == old(out)@ + ser_elems(
            deep_elems(es@).subrange(i as int, es@.len() as int),
        ),
    decreases es, es@.len() - i,
{
    proof {
        lemma_deep_elems(es@);
    }
    let ghost dv = deep_elems(es@);
    let ghost sub = dv.subrange(i as int, es@.len() as int);
    if i == es.len() {
        assert(sub =~= Seq::<JsonV>::empty());
        return;
    }
    write_json(&es[i], out);
    assert(sub[0] == es@[i as int].deep());
    if i + 1 < es.len() {
        out.push(44u8);
        write_elems(es, i + 1, out);
        proof {
            assert(sub.subrange(1, sub.len() as int) =~= dv.subrange(
                i + 1 as int,
                es@.len() as int,
            ));
            assert(out@ =~= old(out)@ + ser(sub[0]) + seq![44u8] + ser_elems(
                sub.subrange(1, sub.len() as int),
            ));
        }
    } else {
        assert(sub.len() == 1);
    }
}

fn write_membs(ms: &Vec<(Vec<u8>, Json)>, i: usize, out: &mut Vec<u8>)
    requires
        i <= ms@.len(),
    ensures
        final(out)@ == old(out)@ + ser_membs(
            deep_membs(ms@).subrange(i as int, ms@.len() as int),
        ),
    decreases ms, ms@.len() - i,
{
    proof {
        lemma_deep_membs(ms@);
    }
    let ghost dv = deep_membs(ms@);
    let ghost sub = dv.subrange(i as int, ms@.len() as int);
    if i == ms.len() {
        assert(sub =~= Seq::<(Seq<u8>, JsonV)>::empty());
        return;
    }
    out.push(34u8);
    write_bytes(ms[i].0.as_slice(), out);
    out.push(34u8);
    out.push(58u8);
    write_json(&ms[i].1, out);
    assert(sub[0] == (ms@[i as int].0@, ms@[i as int].1.deep()));
    let ghost m0 = seq![34u8] + sub[0].0 + seq![34u8, 58u8] + ser(sub[0].1);
    assert(out@ =~= old(out)@ + m0);
    if i + 1 < ms.len() {
        out.push(44u8);
        write_membs(ms, i + 1, out);
        proof {
            assert(sub.subrange(1, sub.len() as int) =~= dv.subrange(
                i + 1 as int,
                ms@.len() as int,
            ));
            assert(out@ =~= old(out)@ + m0 + seq![44u8] + ser_membs(
                sub.subrange(1, sub.len() as int),
            ));
        }
    } else {
        assert(sub.len() == 1);
    }
}

/// The compact wire form of `v` as a fresh byte vector.
pub fn to_bytes(v: &Json) -> (r: Vec<u8>)
    ensures
        r@ == ser(v.deep()),
{
    let mut out: Vec<u8> = Vec::new();
    write_json(v, &mut out);
    out
}


// ---------------------------------------------------------------------------
// Pretty writer
// ---------------------------------------------------------------------------

pub open spec fn all_spaces(s: Seq<u8>) -> bool {
    forall|i: int| 0 <= i < s.len() ==> s[i] == 32u8
}

/// A buffer of spaces of even length is exactly an indentation block.
proof fn lemma_spaces_ind(s: Seq<u8>)
    requires
        all_spaces(s),
        s.len() % 2 == 0,
    ensures
        s == ind((s.len() / 2) as nat),
    decreases s.len(),
{
    if s.len() > 0 {
        let m = s.subrange(0, s.len() - 2);
        lemma_spaces_ind(m);
        assert(s =~= m + seq![32u8, 32u8]);
        assert(ind((s.len() / 2) as nat) == ind((m.len() / 2) as nat) + seq![32u8, 32u8]);
    }
}

/// Appends the indented form of `v`, standing at the depth recorded by the
/// all-space buffer `pad`, to `out`.
pub fn write_jsonp(v: &Json, pad: &mut Vec<u8>, out: &mut Vec<u8>)
    requires
        all_spaces(old(pad)@),
        old(pad)@.len() % 2 == 0,
    ensures
        final(pad)@ == old(pad)@,
        final(out)@ == old(out)@ + serp(v.deep(), (old(pad)@.len() / 2) as nat),
    decreases v,
{
    let ghost d = (old(pad)@.len() / 2) as nat;
    match v {
        Json::Arr(es) => {
            if es.len() == 0 {
                out.push(91u8);
                out.push(93u8);
                proof {
                    lemma_deep_elems(es@);
                    assert(out@ =~= old(out)@ + seq![91u8, 93u8]);
                }
            } else {
                out.push(91u8);
                out.push(10u8);
                pad.push(32u8);
                pad.push(32u8);
                write_elemsp(es, 0, pad, out);
                pad.pop();
                pad.pop();
                proof {
                    assert(pad@ =~= old(pad)@);
                }
                out.push(10u8);
                write_bytes(pad.as_slice(), out);
                out.push(93u8);
                proof {
                    lemma_deep_elems(es@);
                    lemma_spaces_ind(old(pad)@);
                    assert(deep_elems(es@).subrange(0, es@.len() as int)
                        =~= deep_elems(es@));
                    assert((old(pad)@ + seq![32u8, 32u8]).len() / 2 == d + 1);
                    assert(out@ =~= old(out)@ + seq![91u8, 10u8] + serp_elems(
                        deep_elems(es@),
                        d + 1,
                    ) + seq![10u8] + ind(d) + seq![93u8]);
                }
            }
        },
        Json::Obj(ms) => {
            if ms.len() == 0 {
                out.push(123u8);
                out.push(125u8);
                proof {
                    lemma_deep_membs(ms@);
                    assert(out@ =~= old(out)@ + seq![123u8, 125u8]);
                }
            } else {
                out.push(123u8);
                out.push(10u8);
                pad.push(32u8);
                pad.push(32u8);
                write_membsp(ms, 0, pad, out);
                pad.pop();
                pad.pop();
                proof {
                    assert(pad@ =~= old(pad)@);
                }
                out.push(10u8);
                write_bytes(pad.as_slice(), out);
                out.push(125u8);
                proof {
                    lemma_deep_membs(ms@);
                    lemma_spaces_ind(old(pad)@);
                    assert(deep_membs(ms@).subrange(0, ms@.len() as int)
                        =~= deep_membs(ms@));
                    assert((old(pad)@ + seq![32u8, 32u8]).len() / 2 == d + 1);
                    assert(out@ =~= old(out)@ + seq![123u8, 10u8] + serp_membs(
                        deep_membs(ms@),
                        d + 1,
                    ) + seq![10u8] + ind(d) + seq![125u8]);
                }
            }
        },
        _ => {
            write_json(v, out);
        },
    }
}

fn write_elemsp(es: &Vec<Json>, i: usize, pad: &mut Vec<u8>, out: &mut Vec<u8>)
    requires
        i <= es@.len(),
        all_spaces(old(pad)@),
        old(pad)@.len() % 2 == 0,
    ensures
        final(pad)@ == old(pad)@,
        final(out)@ == old(out)@ + serp_elems(
            deep_elems(es@).subrange(i as int, es@.len() as int),
            (old(pad)@.len() / 2) as nat,
        ),
    decreases es, es@.len() - i,
{
    proof {
        lemma_deep_elems(es@);
    }
    let ghost d = (old(pad)@.len() / 2) as nat;
    let ghost dv = deep_elems(es@);
    let ghost sub = dv.subrange(i as int, es@.len() as int);
    if i == es.len() {
        assert(sub =~= Seq::<JsonV>::empty());
        return;
    }
    write_bytes(pad.as_slice(), out);
    proof {
        lemma_spaces_ind(pad@);
    }
    write_jsonp(&es[i], pad, out);
    assert(sub[0] == es@[i as int].deep());
    let ghost m0 = ind(d) + serp(sub[0], d);
    assert(out@ =~= old(out)@ + m0);
    if i + 1 < es.len() {
        out.push(44u8);
        out.push(10u8);
        write_elemsp(es, i + 1, pad, out);
        proof {
            assert(sub.subrange(1, sub.len() as int) =~= dv.subrange(
                i + 1 as int,
                es@.len() as int,
            ));
            assert(out@ =~= old(out)@ + m0 + seq![44u8, 10u8] + serp_elems(
                sub.subrange(1, sub.len() as int),
                d,
            ));
        }
    } else {
        assert(sub.len() == 1);
    }
}

fn write_membsp(ms: &Vec<(Vec<u8>, Json)>, i: usize, pad: &mut Vec<u8>, out: &mut Vec<u8>)
    requires
        i <= ms@.len(),
        all_spaces(old(pad)@),
        old(pad)@.len() % 2 == 0,
    ensures
        final(pad)@ == old(pad)@,
        final(out)@ == old(out)@ + serp_membs(
            deep_membs(ms@).subrange(i as int, ms@.len() as int),
            (old(pad)@.len() / 2) as nat,
        ),
    decreases ms, ms@.len() - i,
{
    proof {
        lemma_deep_membs(ms@);
    }
    let ghost d = (old(pad)@.len() / 2) as nat;
    let ghost dv = deep_membs(ms@);
    let ghost sub = dv.subrange(i as int, ms@.len() as int);
    if i == ms.len() {
        assert(sub =~= Seq::<(Seq<u8>, JsonV)>::empty());
        return;
    }
    write_bytes(pad.as_slice(), out);
    proof {
        lemma_spaces_ind(pad@);
    }
    out.push(34u8);
    write_bytes(ms[i].0.as_slice(), out);
    out.push(34u8);
    out.push(58u8);
    out.push(32u8);
    write_jsonp(&ms[i].1, pad, out);
    assert(sub[0] == (ms@[i as int].0@, ms@[i as int].1.deep()));
    let ghost m0 = ind(d) + seq![34u8] + sub[0].0 + seq![34u8, 58u8, 32u8] + serp(sub[0].1, d);
    assert(out@ =~= old(out)@ + m0);
    if i + 1 < ms.len() {
        out.push(44u8);
        out.push(10u8);
        write_membsp(ms, i + 1, pad, out);
        proof {
            assert(sub.subrange(1, sub.len() as int) =~= dv.subrange(
                i + 1 as int,
                ms@.len() as int,
            ));
            assert(out@ =~= old(out)@ + m0 + seq![44u8, 10u8] + serp_membs(
                sub.subrange(1, sub.len() as int),
                d,
            ));
        }
    } else {
        assert(sub.len() == 1);
    }
}

/// The two-space indented form of `v` as a fresh byte vector.
pub fn to_pretty_bytes(v: &Json) -> (r: Vec<u8>)
    ensures
        r@ == serp(v.deep(), 0),
{
    let mut out: Vec<u8> = Vec::new();
    let mut pad: Vec<u8> = Vec::new();
    write_jsonp(v, &mut pad, &mut out);
    out
}


// ---------------------------------------------------------------------------
// Literal and cloning helpers
// ---------------------------------------------------------------------------

/// The UTF-8 bytes of a string slice.
pub open spec fn sb(s: &str) -> Seq<u8> {
    s.spec_bytes()
}

/// The bytes of a literal as a fresh vector.
pub fn lit(s: &str) -> (r: Vec<u8>)
    ensures
        r@ == sb(s),
{
    s.as_bytes_vec()
}

/// Does the byte vector hold exactly the bytes of `s`?
pub fn eq_lit(m: &Vec<u8>, s: &str) -> (r: bool)
    ensures
        r == (m@ == sb(s)),
{
    bytes_eq(m.as_slice(), s.as_bytes())
}

/// A fresh copy of a byte vector.
pub fn clone_bytes(v: &Vec<u8>) -> (r: Vec<u8>)
    ensures
        r@ == v@,
{
    vstd::slice::slice_to_vec(v.as_slice())
}

/// A fresh copy of a JSON value, equal at the model level.
pub fn clone_json(v: &Json) -> (r: Json)
    ensures
        r.deep() == v.deep(),
    decreases v,
{
    match v {
        Json::Null => Json::Null,
        Json::Bool(b) => Json::Bool(*b),
        Json::Int(n) => Json::Int(*n),
        Json::Num(t) => Json::Num(clone_bytes(t)),
        Json::Str(t) => Json::Str(clone_bytes(t)),
        Json::Arr(es) => {
            let mut out: Vec<Json> = Vec::new();
            clone_elems(es, 0, &mut out);
            proof {
                lemma_deep_elems(es@);
                lemma_deep_elems(out@);
                assert(deep_elems(out@) =~= deep_elems(es@));
            }
            Json::Arr(out)
        },
        Json::Obj(ms) => {
            let mut out: Vec<(Vec<u8>, Json)> = Vec::new();
            clone_membs(ms, 0, &mut out);
            proof {
                lemma_deep_membs(ms@);
                lemma_deep_membs(out@);
                assert(deep_membs(out@) =~= deep_membs(ms@));
            }
            Json::Obj(out)
        },
    }
}

fn clone_elems(es: &Vec<Json>, i: usize, out: &mut Vec<Json>)
    requires
        i <= es@.len(),
    ensures
        final(out)@.len() == old(out)@.len() + es@.len() - i,
        forall|k: int| 0 <= k < old(out)@.len() ==> final(out)@[k] == old(out)@[k],
        forall|k: int| old(out)@.len() <= k < final(out)@.len()
            ==> (#[trigger] final(out)@[k]).deep() == es@[i + k - old(out)@.len()].deep(),
    decreases es, es@.len() - i,
{
    if i < es.len() {
        let c = clone_json(&es[i]);
        let ghost cd = c.deep();
        let ghost base = out@.len() as int;
        out.push(c);
        clone_elems(es, i + 1, out);
        proof {
            assert forall|k: int| base <= k < out@.len() implies (#[trigger] out@[k]).deep()
                == es@[i + k - base].deep() by {
                if k == base {
                    assert(out@[base].deep() == cd);
                } else {
                    assert(out@[k].deep() == es@[(i + 1) + k - (base + 1)].deep());
                }
            }
        }
    }
}

fn clone_membs(ms: &Vec<(Vec<u8>, Json)>, i: usize, out: &mut Vec<(Vec<u8>, Json)>)
    requires
        i <= ms@.len(),
    ensures
        final(out)@.len() == old(out)@.len() + ms@.len() - i,
        forall|k: int| 0 <= k < old(out)@.len() ==> final(out)@[k] == old(out)@[k],
        forall|k: int| old(out)@.len() <= k < final(out)@.len()
            ==> (#[trigger] final(out)@[k]).0@ == ms@[i + k - old(out)@.len()].0@
                && final(out)@[k].1.deep() == ms@[i + k - old(out)@.len()].1.deep(),
    decreases ms, ms@.len() - i,
{
    if i < ms.len() {
        let ck = clone_bytes(&ms[i].0);
        let cv = clone_json(&ms[i].1);
        let ghost ckv = ck@;
        let ghost cvd = cv.deep();
        let ghost base = out@.len() as int;
        out.push((ck, cv));
        clone_membs(ms, i + 1, out);
        proof {
            assert forall|k: int| base <= k < out@.len() implies (#[trigger] out@[k]).0@
                == ms@[i + k - base].0@ && out@[k].1.deep() == ms@[i + k - base].1.deep() by {
                if k == base {
                    assert(out@[base].0@ == ckv && out@[base].1.deep() == cvd);
                } else {
                    assert(out@[k].0@ == ms@[(i + 1) + k - (base + 1)].0@);
                    assert(out@[k].1.deep() == ms@[(i + 1) + k - (base + 1)].1.deep());
                }
            }
        }
    }
}


// ---------------------------------------------------------------------------
// Number-token scanning
// ---------------------------------------------------------------------------

fn digits_from_exec(t: &[u8], i: usize) -> (r: usize)
    requires
        i <= t@.len(),
    ensures
        r == digits_from(t@, i as int),
        i <= r <= t@.len(),
{
    let n: usize = t.len();
    let mut j: usize = i;
    while j < n && 48 <= t[j] && t[j] <= 57
        invariant
            i <= j <= n,
            n == t@.len(),
            digits_from(t@, i as int) == digits_from(t@, j as int),
        decreases n - j,
    {
        j = j + 1;
    }
    j
}

/// Scans one number token starting at `i`, returning its end.
pub fn num_end_exec(t: &[u8], i: usize) -> (r: Option<usize>)
    requires
        i <= t@.len(),
    ensures
        match r {
            Option::Some(e) => num_end(t@, i as int) == Option::Some(e as int)
                && i <= e <= t@.len(),
            Option::None => num_end(t@, i as int) is None,
        },
{
    let n: usize = t.len();
    let s: usize = if i < n && t[i] == 45 {
        i + 1
    } else {
        i
    };
    let a: usize = if s < n && t[s] == 48 {
        s + 1
    } else if s < n && 49 <= t[s] && t[s] <= 57 {
        digits_from_exec(t, s + 1)
    } else {
        return None;
    };
    let b: usize = if a < n && t[a] == 46 {
        let j = digits_from_exec(t, a + 1);
        if j > a + 1 {
            j
        } else {
            return None;
        }
    } else {
        a
    };
    if b < n && (t[b] == 101 || t[b] == 69) {
        let k: usize = if b + 1 < n && (t[b + 1] == 43 || t[b + 1] == 45) {
            b + 2
        } else {
            b + 1
        };
        let j = digits_from_exec(t, k);
        if j > k {
            Some(j)
        } else {
            None
        }
    } else {
        Some(b)
    }
}

/// Do the bytes form exactly one well-formed number token?
pub fn is_numtok(t: &[u8]) -> (r: bool)
    ensures
        r == numtok_ok(t@),
{
    if t.len() == 0 {
        return false;
    }
    match num_end_exec(t, 0) {
        Some(e) => e == t.len(),
        None => false,
    }
}



/// String-content validity from a position is exactly validity of the
/// suffix taken alone.
pub proof fn lemma_strtok_shift(t: Seq<u8>, k: int)
    requires
        0 <= k <= t.len(),
    ensures
        strtok_ok_from(t, k) == strtok_ok(t.subrange(k, t.len() as int)),
    decreases t.len() - k,
{
    let sub = t.subrange(k, t.len() as int);
    assert(forall|x: int| 0 <= x < sub.len() ==> #[trigger] sub[x] == t[k + x]);
    if k < t.len() {
        if t[k] == 92 {
            if k + 1 < t.len() && is_esc_char(t[k + 1]) {
                lemma_strtok_shift(t, k + 2);
                assert(t.subrange(k + 2, t.len() as int) =~= sub.subrange(2, sub.len() as int));
                lemma_strtok_shift(sub, 2);
            } else if k + 5 < t.len() && t[k + 1] == 117 && is_hex(t[k + 2]) && is_hex(t[k + 3])
                && is_hex(t[k + 4]) && is_hex(t[k + 5]) {
                lemma_strtok_shift(t, k + 6);
                assert(t.subrange(k + 6, t.len() as int) =~= sub.subrange(6, sub.len() as int));
                lemma_strtok_shift(sub, 6);
            }
        } else if t[k] != 34 && t[k] >= 32 {
            lemma_strtok_shift(t, k + 1);
            assert(t.subrange(k + 1, t.len() as int) =~= sub.subrange(1, sub.len() as int));
            lemma_strtok_shift(sub, 1);
        }
    }
}

/// Escaping yields a valid string-token content, whatever the input
/// bytes: what the writers quote can always stand between quotes.
pub proof fn lemma_esc_valid(t: Seq<u8>)
    ensures
        strtok_ok(esc(t)),
    decreases t.len(),
{
    if t.len() > 0 {
        let b = t[0];
        let head = esc_byte(b);
        let tail = esc(t.subrange(1, t.len() as int));
        let whole = head + tail;
        let c = head.len() as int;
        lemma_esc_valid(t.subrange(1, t.len() as int));
        assert(esc(t) == whole);
        assert(forall|x: int| 0 <= x < c ==> #[trigger] whole[x] == head[x]);
        assert(whole.subrange(c, whole.len() as int) =~= tail);
        lemma_strtok_shift(whole, c);
        if b == 34 || b == 92 || b == 10 || b == 13 || b == 9 || b == 8 || b == 12 {
            assert(whole[0] == 92 && is_esc_char(whole[1]));
        } else if b < 32 {
            assert(whole[0] == 92 && whole[1] == 117);
            assert(whole[2] == 48 && whole[3] == 48);
            assert(is_hex(whole[4]) && is_hex(whole[5]));
            assert(!is_esc_char(117));
        } else {
            assert(whole[0] == b && b >= 32 && b != 34 && b != 92);
        }
    }
}

} // verus!
