//! Parsing helpers for numeric text: trimmed decimal integers as the
//! collectors and the framing layer read them, and size strings with
//! binary unit suffixes.

use vstd::prelude::*;

use crate::json::{is_digit, lit, sb, write_bytes};

verus! {

/// ASCII whitespace, as trimming removes it.
pub open spec fn is_ws(b: u8) -> bool {
    b == 32 || (9 <= b <= 13)
}

pub open spec fn trim_front(s: Seq<u8>) -> Seq<u8>
    decreases s.len(),
{
    if s.len() > 0 && is_ws(s[0]) {
        trim_front(s.drop_first())
    } else {
        s
    }
}

pub open spec fn trim_back(s: Seq<u8>) -> Seq<u8>
    decreases s.len(),
{
    if s.len() > 0 && is_ws(s.last()) {
        trim_back(s.drop_last())
    } else {
        s
    }
}

/// `s` without leading and trailing ASCII whitespace.
pub open spec fn trim(s: Seq<u8>) -> Seq<u8> {
    trim_back(trim_front(s))
}

pub open spec fn all_digits(s: Seq<u8>) -> bool {
    forall|i: int| 0 <= i < s.len() ==> is_digit(#[trigger] s[i])
}

/// The value of a digit string, most significant first.
pub open spec fn val_of(s: Seq<u8>) -> int
    decreases s.len(),
{
    if s.len() == 0 {
        0
    } else {
        val_of(s.drop_last()) * 10 + (s.last() - 48)
    }
}

/// An unsigned decimal integer with an optional leading `+`, as
/// `str::parse` reads one into an unsigned type (unbounded here; the
/// executable readers reject what their type cannot hold).
pub open spec fn parse_uint(s: Seq<u8>) -> Option<int> {
    let t = if s.len() > 0 && s[0] == 43 {
        s.drop_first()
    } else {
        s
    };
    if t.len() > 0 && all_digits(t) {
        Option::Some(val_of(t))
    } else {
        Option::None
    }
}

/// A signed decimal integer with an optional sign.
pub open spec fn parse_int(s: Seq<u8>) -> Option<int> {
    if s.len() > 0 && s[0] == 45 {
        let t = s.drop_first();
        if t.len() > 0 && all_digits(t) {
            Option::Some(-val_of(t))
        } else {
            Option::None
        }
    } else {
        parse_uint(s)
    }
}

/// An unsigned read never sees a negative value.
pub proof fn lemma_parse_uint_nonneg(s: Seq<u8>)
    ensures
        parse_uint(s) matches Option::Some(v) ==> 0 <= v,
{
    let t = if s.len() > 0 && s[0] == 43 {
        s.drop_first()
    } else {
        s
    };
    if t.len() > 0 && all_digits(t) {
        lemma_val_prefix(t, t.len() as int);
        assert(t.subrange(0, t.len() as int) =~= t);
    }
}

/// A digit string's value is nonnegative and grows with every digit
/// appended, so any prefix bounds the whole from below.
pub proof fn lemma_val_prefix(s: Seq<u8>, i: int)
    requires
        all_digits(s),
        0 <= i <= s.len(),
    ensures
        0 <= val_of(s.subrange(0, i)) <= val_of(s),
    decreases s.len(),
{
    if s.len() == 0 {
        assert(s.subrange(0, i) =~= s);
    } else if i == s.len() {
        assert(s.subrange(0, i) =~= s);
        lemma_val_prefix(s.drop_last(), s.len() - 1);
        assert(s.drop_last() =~= s.subrange(0, s.len() - 1));
        assert(s.drop_last().subrange(0, s.len() - 1) =~= s.drop_last());
    } else {
        lemma_val_prefix(s.drop_last(), i);
        assert(s.drop_last().subrange(0, i) =~= s.subrange(0, i));
    }
}

/// What a bounded read of a digit string can find.
#[derive(Debug)]
pub enum Digits {
    /// Empty, or some byte is not a digit.
    Bad,
    /// All digits, but the value exceeds the given bound.
    Over,
    /// All digits, value within bound.
    Val(u64),
}

/// Reads the digit string `t[from..to]` against an upper bound.
pub fn read_digits(t: &[u8], from: usize, to: usize, bound: u64) -> (r: Digits)
    requires
        from <= to <= t@.len(),
    ensures
        ({
            let d = t@.subrange(from as int, to as int);
            match r {
                Digits::Bad => !(d.len() > 0 && all_digits(d)),
                Digits::Over => d.len() > 0 && all_digits(d) && val_of(d) > bound,
                Digits::Val(v) => d.len() > 0 && all_digits(d) && val_of(d) == v && v <= bound,
            }
        }),
{
    let ghost d = t@.subrange(from as int, to as int);
    if from == to {
        return Digits::Bad;
    }
    let mut i: usize = from;
    let mut acc: u64 = 0;
    while i < to
        invariant
            from <= i <= to <= t@.len(),
            d == t@.subrange(from as int, to as int),
            all_digits(t@.subrange(from as int, i as int)),
            acc == val_of(t@.subrange(from as int, i as int)),
            acc <= bound,
            to > from,
        decreases to - i,
    {
        let b: u8 = t[i];
        if !(48 <= b && b <= 57) {
            assert(!all_digits(d)) by {
                assert(d[i - from] == t@[i as int]);
            }
            return Digits::Bad;
        }
        let dv: u64 = (b - 48) as u64;
        let ghost pre = t@.subrange(from as int, i as int);
        let ghost cur = t@.subrange(from as int, i + 1 as int);
        proof {
            assert(cur.drop_last() =~= pre);
            assert(cur.last() == t@[i as int]);
        }
        let over: bool = if acc > bound / 10 {
            true
        } else {
            proof {
                assert(10 * acc <= bound) by (nonlinear_arith)
                    requires acc <= bound / 10;
            }
            let next: u64 = 10 * acc;
            dv > bound - next
        };
        if over {
            // The value read so far already exceeds the bound, and more
            // digits can only grow it.
            proof {
                assert(10 * acc + dv > bound) by {
                    if acc > bound / 10 {
                        assert(10 * (bound / 10) >= bound - 9) by (nonlinear_arith);
                        assert(10 * acc >= 10 * (bound / 10) + 10) by (nonlinear_arith)
                            requires acc > bound / 10;
                    }
                }
                assert(val_of(cur) > bound);
            }
            if all_digits_from(t, i, to) {
                proof {
                    let ghost j = i + 1;
                    assert forall|k: int| 0 <= k < d.len() implies is_digit(d[k]) by {
                        assert(d[k] == t@[from + k]);
                        if k < i - from {
                            assert(pre[k] == t@[from + k]);
                        }
                    }
                    lemma_val_prefix(d, i + 1 - from);
                    assert(d.subrange(0, i + 1 - from) =~= cur);
                }
                return Digits::Over;
            } else {
                proof {
                    let ghost w = choose|k: int| i <= k < to && !is_digit(t@[k]);
                    assert(!all_digits(d)) by {
                        assert(d[w - from] == t@[w]);
                    }
                }
                return Digits::Bad;
            }
        }
        acc = 10 * acc + dv;
        i = i + 1;
    }
    assert(d =~= t@.subrange(from as int, to as int));
    Digits::Val(acc)
}

/// Are `t[from..to]` all decimal digits?
fn all_digits_from(t: &[u8], from: usize, to: usize) -> (r: bool)
    requires
        from <= to <= t@.len(),
    ensures
        r == forall|k: int| from <= k < to ==> is_digit(#[trigger] t@[k]),
{
    let mut i: usize = from;
    while i < to
        invariant
            from <= i <= to <= t@.len(),
            forall|k: int| from <= k < i ==> is_digit(#[trigger] t@[k]),
        decreases to - i,
    {
        let b: u8 = t[i];
        if !(48 <= b && b <= 57) {
            return false;
        }
        i = i + 1;
    }
    true
}

/// The bounds of `t` with ASCII whitespace trimmed from both ends.
pub fn trim_bounds(t: &[u8]) -> (r: (usize, usize))
    ensures
        r.0 <= r.1 <= t@.len(),
        t@.subrange(r.0 as int, r.1 as int) == trim(t@),
{
    let n: usize = t.len();
    proof {
        assert(t@.subrange(0, n as int) =~= t@);
    }
    let mut lo: usize = 0;
    while lo < n && (t[lo] == 32 || (9 <= t[lo] && t[lo] <= 13))
        invariant
            0 <= lo <= n,
            n == t@.len(),
            trim_front(t@) == trim_front(t@.subrange(lo as int, n as int)),
        decreases n - lo,
    {
        proof {
            let cur = t@.subrange(lo as int, n as int);
            assert(cur[0] == t@[lo as int]);
            assert(cur.drop_first() =~= t@.subrange(lo + 1 as int, n as int));
        }
        lo = lo + 1;
    }
    proof {
        let cur = t@.subrange(lo as int, n as int);
        if cur.len() > 0 {
            assert(cur[0] == t@[lo as int]);
        }
        assert(trim_front(t@) == cur);
    }
    let mut hi: usize = n;
    while hi > lo && (t[hi - 1] == 32 || (9 <= t[hi - 1] && t[hi - 1] <= 13))
        invariant
            lo <= hi <= n,
            n == t@.len(),
            trim_front(t@) == t@.subrange(lo as int, n as int),
            trim_back(t@.subrange(lo as int, n as int)) == trim_back(
                t@.subrange(lo as int, hi as int),
            ),
        decreases hi,
    {
        proof {
            let cur = t@.subrange(lo as int, hi as int);
            assert(cur.last() == t@[hi - 1]);
            assert(cur.drop_last() =~= t@.subrange(lo as int, hi - 1));
        }
        hi = hi - 1;
    }
    proof {
        let cur = t@.subrange(lo as int, hi as int);
        if cur.len() > 0 {
            assert(cur.last() == t@[hi - 1]);
        }
        assert(trim_back(t@.subrange(lo as int, n as int)) == cur);
    }
    (lo, hi)
}

/// The unsigned value that `str::parse` would read from trimmed text into
/// a `u64`-sized type, or nothing where the text is not such a number.
pub fn parse_u64_text(t: &[u8]) -> (r: Option<u64>)
    ensures
        match parse_uint(trim(t@)) {
            Option::Some(v) => if v <= u64::MAX {
                r == Option::Some(v as u64)
            } else {
                r is None
            },
            Option::None => r is None,
        },
{
    let (lo, hi) = trim_bounds(t);
    let ghost tr = trim(t@);
    let start: usize = if lo < hi && t[lo] == 43 {
        lo + 1
    } else {
        lo
    };
    proof {
        if tr.len() > 0 && tr[0] == 43 {
            assert(tr.drop_first() =~= t@.subrange(start as int, hi as int));
        } else {
            assert(tr =~= t@.subrange(start as int, hi as int));
        }
    }
    match read_digits(t, start, hi, u64::MAX) {
        Digits::Val(v) => Some(v),
        Digits::Over => None,
        Digits::Bad => None,
    }
}

/// The unsigned value that `str::parse` would read from trimmed text
/// into a `usize`, or nothing where the text is not such a number.
pub fn parse_usize_text(t: &[u8]) -> (r: Option<usize>)
    ensures
        match parse_uint(trim(t@)) {
            Option::Some(v) => if v <= usize::MAX {
                r == Option::Some(v as usize)
            } else {
                r is None
            },
            Option::None => r is None,
        },
{
    let (lo, hi) = trim_bounds(t);
    let ghost tr = trim(t@);
    let start: usize = if lo < hi && t[lo] == 43 {
        lo + 1
    } else {
        lo
    };
    proof {
        if tr.len() > 0 && tr[0] == 43 {
            assert(tr.drop_first() =~= t@.subrange(start as int, hi as int));
        } else {
            assert(tr =~= t@.subrange(start as int, hi as int));
        }
    }
    match read_digits(t, start, hi, usize::MAX as u64) {
        Digits::Val(v) => Some(v as usize),
        Digits::Over => None,
        Digits::Bad => None,
    }
}

/// Parses trimmed text to `u32`, returning 0 if parsing fails.
pub fn safe_parse_u32(s: &str) -> (r: u32)
    ensures
        r as int == match parse_uint(trim(crate::json::sb(s))) {
            Option::Some(v) => if v <= u32::MAX {
                v
            } else {
                0
            },
            Option::None => 0,
        },
{
    let t = s.as_bytes();
    let (lo, hi) = trim_bounds(t);
    let ghost tr = trim(t@);
    let start: usize = if lo < hi && t[lo] == 43 {
        lo + 1
    } else {
        lo
    };
    proof {
        if tr.len() > 0 && tr[0] == 43 {
            assert(tr.drop_first() =~= t@.subrange(start as int, hi as int));
        } else {
            assert(tr =~= t@.subrange(start as int, hi as int));
        }
    }
    match read_digits(t, start, hi, 0xffff_ffff) {
        Digits::Val(v) => v as u32,
        Digits::Over => 0,
        Digits::Bad => 0,
    }
}

/// Parses trimmed text to `u64`, returning 0 if parsing fails.
pub fn safe_parse_u64(s: &str) -> (r: u64)
    ensures
        r as int == match parse_uint(trim(crate::json::sb(s))) {
            Option::Some(v) => if v <= u64::MAX {
                v
            } else {
                0
            },
            Option::None => 0,
        },
{
    let t = s.as_bytes();
    proof {
        lemma_parse_uint_nonneg(trim(t@));
    }
    match parse_u64_text(t) {
        Some(v) => v,
        None => 0,
    }
}

/// Parses trimmed text to `i32`, returning 0 if parsing fails.
pub fn safe_parse_i32(s: &str) -> (r: i32)
    ensures
        r as int == match parse_int(trim(crate::json::sb(s))) {
            Option::Some(v) => if i32::MIN <= v <= i32::MAX {
                v
            } else {
                0
            },
            Option::None => 0,
        },
{
    let t = s.as_bytes();
    let (lo, hi) = trim_bounds(t);
    let ghost tr = trim(t@);
    if lo < hi && t[lo] == 45 {
        proof {
            assert(tr.drop_first() =~= t@.subrange(lo + 1 as int, hi as int));
        }
        match read_digits(t, lo + 1, hi, 0x8000_0000) {
            Digits::Val(v) => if v == 0x8000_0000 {
                -0x8000_0000i32
            } else {
                -(v as i32)
            },
            Digits::Over => 0,
            Digits::Bad => 0,
        }
    } else {
        let start: usize = if lo < hi && t[lo] == 43 {
            lo + 1
        } else {
            lo
        };
        proof {
            if tr.len() > 0 && tr[0] == 43 {
                assert(tr.drop_first() =~= t@.subrange(start as int, hi as int));
            } else {
                assert(tr =~= t@.subrange(start as int, hi as int));
            }
        }
        match read_digits(t, start, hi, 0x7fff_ffff) {
            Digits::Val(v) => v as i32,
            Digits::Over => 0,
            Digits::Bad => 0,
        }
    }
}


// ---------------------------------------------------------------------------
// Size strings
// ---------------------------------------------------------------------------

/// First index at or after `i` holding `b`, or the end.
pub open spec fn find_byte(s: Seq<u8>, b: u8, i: int) -> int
    recommends
        0 <= i <= s.len(),
    decreases s.len() - i,
    when 0 <= i <= s.len()
{
    if i < s.len() && s[i] != b {
        find_byte(s, b, i + 1)
    } else {
        i
    }
}

pub proof fn lemma_find_byte(s: Seq<u8>, b: u8, i: int)
    requires
        0 <= i <= s.len(),
    ensures
        i <= find_byte(s, b, i) <= s.len(),
        find_byte(s, b, i) < s.len() ==> s[find_byte(s, b, i)] == b,
        forall|k: int| i <= k < find_byte(s, b, i) ==> s[k] != b,
    decreases s.len() - i,
{
    if i < s.len() && s[i] != b {
        lemma_find_byte(s, b, i + 1);
    }
}

/// Commas read as decimal points, as localized tool output writes them.
pub open spec fn commas_to_dots(s: Seq<u8>) -> Seq<u8> {
    s.map_values(|b: u8| if b == 44 { 46u8 } else { b })
}

pub open spec fn pow10(k: nat) -> int
    decreases k,
{
    if k == 0 {
        1
    } else {
        10 * pow10((k - 1) as nat)
    }
}

/// A digit string's value stays under one followed by as many zeros.
pub proof fn lemma_val_upper(s: Seq<u8>)
    requires
        all_digits(s),
    ensures
        0 <= val_of(s) < pow10(s.len()),
    decreases s.len(),
{
    if s.len() > 0 {
        lemma_val_upper(s.drop_last());
    }
}

/// A decimal mantissa: an optional sign, then digits with at most one
/// point and at least one digit overall.
pub open spec fn parse_dec(s: Seq<u8>) -> Option<(bool, Seq<u8>, Seq<u8>)> {
    let neg = s.len() > 0 && s[0] == 45;
    let t = if s.len() > 0 && (s[0] == 45 || s[0] == 43) {
        s.drop_first()
    } else {
        s
    };
    let d = find_byte(t, 46, 0);
    if d >= t.len() {
        if t.len() > 0 && all_digits(t) {
            Option::Some((neg, t, Seq::empty()))
        } else {
            Option::None
        }
    } else {
        let ip = t.subrange(0, d);
        let fp = t.subrange(d + 1, t.len() as int);
        if ip.len() + fp.len() > 0 && all_digits(ip) && all_digits(fp) {
            Option::Some((neg, ip, fp))
        } else {
            Option::None
        }
    }
}

/// The byte multiplier of a one-letter binary unit.
pub open spec fn unit_mult(u: u8) -> Option<int> {
    if u == 75 || u == 107 {
        Option::Some(1024)
    } else if u == 77 || u == 109 {
        Option::Some(1048576)
    } else if u == 71 || u == 103 {
        Option::Some(1073741824)
    } else if u == 84 || u == 116 {
        Option::Some(1099511627776)
    } else {
        Option::None
    }
}

/// The size a suffixed mantissa denotes.  The fraction beyond nineteen
/// digits is ignored (it can no longer move the floor by a whole byte at
/// these multipliers); a negative mantissa clamps to zero and an
/// overlarge one to the largest `u64`.
pub open spec fn suffixed_size(t: Seq<u8>) -> Result<int, Seq<u8>> {
    if t.len() < 2 {
        Result::Err(sb("Invalid number in size string: ") + t)
    } else {
        let num = t.drop_last();
        let unit = t.last();
        match parse_dec(num) {
            Option::None => Result::Err(sb("Invalid number in size string: ") + t),
            Option::Some((neg, ip, fp)) => match unit_mult(unit) {
                Option::None => Result::Err(sb("Unknown size unit: ") + seq![unit]),
                Option::Some(m) => {
                    let fp19 = if fp.len() > 19 {
                        fp.subrange(0, 19)
                    } else {
                        fp
                    };
                    let val = val_of(ip) * m + (val_of(fp19) * m) / pow10(fp19.len());
                    if neg {
                        Result::Ok(0)
                    } else if val > u64::MAX {
                        Result::Ok(u64::MAX as int)
                    } else {
                        Result::Ok(val)
                    }
                },
            },
        }
    }
}

/// What a size string denotes: empty text is zero; a plain unsigned
/// decimal is taken verbatim; otherwise the last byte is a binary unit
/// suffix scaling the decimal before it.
pub open spec fn parse_size_spec(s: Seq<u8>) -> Result<int, Seq<u8>> {
    let t0 = trim(s);
    if t0.len() == 0 {
        Result::Ok(0)
    } else {
        let t = commas_to_dots(t0);
        match parse_uint(t) {
            Option::Some(v) => if v <= u64::MAX {
                Result::Ok(v)
            } else {
                suffixed_size(t)
            },
            Option::None => suffixed_size(t),
        }
    }
}

fn pow10_u64(k: usize) -> (r: u64)
    requires
        k <= 19,
    ensures
        r as int == pow10(k as nat),
{
    proof {
        reveal_with_fuel(pow10, 21);
    }
    let mut r: u64 = 1;
    let mut i: usize = 0;
    while i < k
        invariant
            0 <= i <= k <= 19,
            r as int == pow10(i as nat),
        decreases k - i,
    {
        proof {
            reveal_with_fuel(pow10, 21);
            lemma_pow10_mono((i + 1) as nat, 19);
            assert(pow10(19) == 10000000000000000000);
            assert(pow10((i + 1) as nat) == 10 * pow10(i as nat));
        }
        r = r * 10;
        i = i + 1;
    }
    r
}

proof fn lemma_pow10_mono(a: nat, b: nat)
    requires
        a <= b,
    ensures
        0 < pow10(a) <= pow10(b),
    decreases b,
{
    if a < b {
        lemma_pow10_mono(a, (b - 1) as nat);
        assert(pow10(b) == 10 * pow10((b - 1) as nat));
    } else if a == b && b > 0 {
        lemma_pow10_mono(0, (b - 1) as nat);
    }
}

fn find_byte_exec(t: &[u8], b: u8, i: usize) -> (r: usize)
    requires
        i <= t@.len(),
    ensures
        r == find_byte(t@, b, i as int),
        i <= r <= t@.len(),
{
    let n: usize = t.len();
    let mut j: usize = i;
    while j < n && t[j] != b
        invariant
            i <= j <= n,
            n == t@.len(),
            find_byte(t@, b, i as int) == find_byte(t@, b, j as int),
        decreases n - j,
    {
        j = j + 1;
    }
    j
}

/// Parses a size string such as `4.6G` into bytes, as
/// [`parse_size_spec`] lays it down.
pub fn parse_size(s: &str) -> (r: Result<u64, Vec<u8>>)
    ensures
        match parse_size_spec(sb(s)) {
            Result::Ok(v) => r matches Result::Ok(got) && got as int == v,
            Result::Err(m) => r matches Result::Err(got) && got@ == m,
        },
{
    let raw = s.as_bytes();
    let (lo, hi) = trim_bounds(raw);
    if lo == hi {
        return Ok(0);
    }
    // The comma-replaced, trimmed text.
    let mut t: Vec<u8> = Vec::new();
    let mut i: usize = lo;
    while i < hi
        invariant
            lo <= i <= hi <= raw@.len(),
            t@ == commas_to_dots(raw@.subrange(lo as int, i as int)),
        decreases hi - i,
    {
        let b: u8 = raw[i];
        t.push(if b == 44 {
            46u8
        } else {
            b
        });
        proof {
            assert(raw@.subrange(lo as int, i + 1 as int) =~= raw@.subrange(
                lo as int,
                i as int,
            ).push(raw@[i as int]));
            assert(commas_to_dots(raw@.subrange(lo as int, i + 1 as int)) =~= commas_to_dots(
                raw@.subrange(lo as int, i as int),
            ).push(
                if raw@[i as int] == 44 {
                    46u8
                } else {
                    raw@[i as int]
                },
            ));
        }
        i = i + 1;
    }
    proof {
        assert(raw@.subrange(lo as int, hi as int) == trim(raw@));
    }
    let ghost tv = t@;
    // A plain unsigned decimal is taken as it stands.
    let start: usize = if t[0] == 43 {
        1
    } else {
        0
    };
    proof {
        if tv[0] == 43 {
            assert(tv.drop_first() =~= tv.subrange(1, tv.len() as int));
        } else {
            assert(tv =~= tv.subrange(0, tv.len() as int));
        }
    }
    match read_digits(t.as_slice(), start, t.len(), u64::MAX) {
        Digits::Val(v) => {
            return Ok(v);
        },
        _ => {},
    }
    // Suffixed form.
    parse_size_suffixed(&t)
}

/// The suffixed-size reading of comma-replaced trimmed text, as
/// [`suffixed_size`] lays it down.
#[verifier::rlimit(100)]
#[verifier::spinoff_prover]
fn parse_size_suffixed(t: &Vec<u8>) -> (r: Result<u64, Vec<u8>>)
    ensures
        match suffixed_size(t@) {
            Result::Ok(v) => r matches Result::Ok(got) && got as int == v,
            Result::Err(m) => r matches Result::Err(got) && got@ == m,
        },
{
    let ghost tv = t@;
    if t.len() < 2 {
        let mut m = lit("Invalid number in size string: ");
        write_bytes(t.as_slice(), &mut m);
        return Err(m);
    }
    let unit: u8 = t[t.len() - 1];
    let numlen: usize = t.len() - 1;
    let ghost num = tv.drop_last();
    proof {
        assert(num =~= tv.subrange(0, numlen as int));
    }
    let neg: bool = t[0] == 45;
    let dstart: usize = if t[0] == 45 || t[0] == 43 {
        1
    } else {
        0
    };
    let ghost mant = tv.subrange(dstart as int, numlen as int);
    proof {
        if tv[0] == 45 || tv[0] == 43 {
            assert(num.drop_first() =~= mant);
        } else {
            assert(num =~= mant);
        }
    }
    if dstart >= numlen {
        // A sign alone (or nothing) before the unit: no digits.
        proof {
            assert(mant.len() == 0);
        }
        let mut m = lit("Invalid number in size string: ");
        write_bytes(t.as_slice(), &mut m);
        return Err(m);
    }
    let d = find_byte_exec(t.as_slice(), 46, dstart);
    let dot: usize = if d > numlen {
        numlen
    } else {
        d
    };
    proof {
        lemma_find_byte(tv, 46, dstart as int);
        lemma_find_byte_shift(tv, 46, dstart as int, numlen as int);
    }
    let ghost ip = mant.subrange(0, dot - dstart);
    let have_dot: bool = dot < numlen;
    let fstart: usize = if have_dot {
        dot + 1
    } else {
        numlen
    };
    let ghost fp = if have_dot {
        mant.subrange(dot + 1 - dstart, mant.len() as int)
    } else {
        Seq::<u8>::empty()
    };
    proof {
        assert(ip =~= tv.subrange(dstart as int, dot as int));
        assert(fp =~= tv.subrange(fstart as int, numlen as int));
        assert(forall|k: int| 0 <= k < ip.len() ==> #[trigger] ip[k] == tv[dstart + k]);
        assert(forall|k: int| 0 <= k < fp.len() ==> #[trigger] fp[k] == tv[fstart + k]);
    }
    let ip_ok = all_digits_from(t.as_slice(), dstart, dot);
    let fp_ok = all_digits_from(t.as_slice(), fstart, numlen);
    proof {
        assert(ip_ok == all_digits(ip)) by {
            if ip_ok {
                assert(forall|k: int| 0 <= k < ip.len() ==> is_digit(#[trigger] ip[k]));
            } else {
                let w = choose|k: int| dstart <= k < dot && !is_digit(tv[k]);
                assert(ip[w - dstart] == tv[w]);
            }
        }
        assert(fp_ok == all_digits(fp)) by {
            if fp_ok {
                assert(forall|k: int| 0 <= k < fp.len() ==> is_digit(#[trigger] fp[k]));
            } else {
                let w = choose|k: int| fstart <= k < numlen && !is_digit(tv[k]);
                assert(fp[w - fstart] == tv[w]);
            }
        }
    }
    if !(ip_ok && fp_ok) || (have_dot && dstart == dot && fstart == numlen) {
        let mut m = lit("Invalid number in size string: ");
        write_bytes(t.as_slice(), &mut m);
        return Err(m);
    }
    // The unit multiplier.
    let m64: u64 = if unit == 75 || unit == 107 {
        1024
    } else if unit == 77 || unit == 109 {
        1048576
    } else if unit == 71 || unit == 103 {
        1073741824
    } else if unit == 84 || unit == 116 {
        1099511627776
    } else {
        let mut m = lit("Unknown size unit: ");
        m.push(unit);
        proof {
            assert(m@ =~= sb("Unknown size unit: ") + seq![unit]);
        }
        return Err(m);
    };
    Ok(scaled_size(t, dstart, dot, fstart, numlen, neg, m64))
}

/// The scaled value of a validated mantissa: integer part, the first
/// nineteen fraction digits, and the unit multiplier, floored to whole
/// bytes and saturating at the `u64` range.
#[verifier::rlimit(100)]
#[verifier::spinoff_prover]
fn scaled_size(
    t: &Vec<u8>,
    dstart: usize,
    dot: usize,
    fstart: usize,
    numlen: usize,
    neg: bool,
    m64: u64,
) -> (r: u64)
    requires
        dstart <= dot <= numlen < t@.len(),
        fstart as int == (if dot < numlen {
            dot + 1
        } else {
            numlen as int
        }),
        fstart <= numlen,
        1 <= m64 <= 1099511627776,
        all_digits(t@.subrange(dstart as int, dot as int)),
        all_digits(t@.subrange(fstart as int, numlen as int)),
    ensures
        ({
            let ip = t@.subrange(dstart as int, dot as int);
            let fp = t@.subrange(fstart as int, numlen as int);
            let fp19 = if fp.len() > 19 {
                fp.subrange(0, 19)
            } else {
                fp
            };
            let val = val_of(ip) * (m64 as int) + (val_of(fp19) * (m64 as int)) / pow10(
                fp19.len(),
            );
            r as int == (if neg {
                0
            } else if val > u64::MAX {
                u64::MAX as int
            } else {
                val
            })
        }),
{
    let ghost tv = t@;
    let ghost ip = tv.subrange(dstart as int, dot as int);
    let ghost fp = tv.subrange(fstart as int, numlen as int);
    let ghost fp19 = if fp.len() > 19 {
        fp.subrange(0, 19)
    } else {
        fp
    };
    proof {
        assert(all_digits(fp19)) by {
            assert(forall|k: int| 0 <= k < fp19.len() ==> #[trigger] fp19[k] == fp[k]);
        }
    }
    // The integer part's value, saturating at the largest u64.
    let ip_val: u64 = if dstart == dot {
        0
    } else {
        match read_digits(t.as_slice(), dstart, dot, u64::MAX) {
            Digits::Val(v) => v,
            Digits::Over => {
                // Already past the largest u64 before scaling.
                proof {
                    lemma_val_nonneg(fp19);
                    lemma_pow10_mono(0, fp19.len());
                    assert(val_of(ip) * (m64 as int) >= val_of(ip) * 1) by (nonlinear_arith)
                        requires val_of(ip) >= 0, m64 >= 1;
                    assert((val_of(fp19) * (m64 as int)) / pow10(fp19.len()) >= 0) by (
                    nonlinear_arith)
                        requires val_of(fp19) >= 0, m64 as int >= 1, pow10(fp19.len()) >= 1;
                }
                return if neg {
                    0
                } else {
                    u64::MAX
                };
            },
            Digits::Bad => {
                proof {
                    assert(false);
                }
                0
            },
        }
    };
    // The first nineteen fraction digits.
    let fcount: usize = if numlen - fstart > 19 {
        19
    } else {
        numlen - fstart
    };
    proof {
        assert(fp19.len() == fcount);
        assert(fp19 =~= tv.subrange(fstart as int, fstart + fcount));
    }
    let fp_val: u64 = if fcount == 0 {
        0
    } else {
        proof {
            lemma_val_upper(fp19);
            lemma_pow10_mono(fcount as nat, 19);
            reveal_with_fuel(pow10, 21);
            assert(pow10(19) == 10000000000000000000);
        }
        match read_digits(t.as_slice(), fstart, fstart + fcount, u64::MAX) {
            Digits::Val(v) => v,
            _ => {
                proof {
                    assert(false);
                }
                0
            },
        }
    };
    let p10: u64 = pow10_u64(fcount);
    proof {
        lemma_pow10_mono(0, fcount as nat);
        assert((ip_val as u128) * (m64 as u128) <= 0xffff_ffff_ffff_ffffu128
            * 0x100_0000_0000u128) by (nonlinear_arith)
            requires ip_val as u128 <= 0xffff_ffff_ffff_ffffu128, m64 as u128
                <= 0x100_0000_0000u128;
        assert((fp_val as u128) * (m64 as u128) <= 0xffff_ffff_ffff_ffffu128
            * 0x100_0000_0000u128) by (nonlinear_arith)
            requires fp_val as u128 <= 0xffff_ffff_ffff_ffffu128, m64 as u128
                <= 0x100_0000_0000u128;
    }
    let prod: u128 = (ip_val as u128) * (m64 as u128);
    let frac: u128 = ((fp_val as u128) * (m64 as u128)) / (p10 as u128);
    let total: u128 = prod + frac;
    proof {
        lemma_val_nonneg(ip);
        lemma_val_nonneg(fp19);
        lemma_pow10_mono(0, fp19.len());
    }
    if neg {
        0
    } else if total > 0xffff_ffff_ffff_ffffu128 {
        u64::MAX
    } else {
        total as u64
    }
}

proof fn lemma_val_nonneg(s: Seq<u8>)
    requires
        all_digits(s),
    ensures
        val_of(s) >= 0,
{
    lemma_val_upper(s);
}

/// Searching within a prefix of a longer buffer finds the same byte.
proof fn lemma_find_byte_shift(s: Seq<u8>, b: u8, from: int, to: int)
    requires
        0 <= from <= to <= s.len(),
    ensures
        find_byte(s.subrange(from, to), b, 0) == (if find_byte(s, b, from) > to {
            to - from
        } else {
            find_byte(s, b, from) - from
        }),
{
    lemma_find_byte(s, b, from);
    let sub = s.subrange(from, to);
    let f = find_byte(s, b, from);
    lemma_find_byte(sub, b, 0);
    let g = find_byte(sub, b, 0);
    if f > to {
        if g < sub.len() {
            assert(sub[g] == s[from + g]);
            assert(false);
        }
    } else {
        if f - from < sub.len() {
            assert(sub[f - from] == s[f]);
        }
        if g < f - from {
            assert(sub[g] == s[from + g]);
            assert(false);
        }
        if g > f - from && f < to {
            assert(false);
        }
    }
}

// ---------------------------------------------------------------------------
// Elapsed-time strings
// ---------------------------------------------------------------------------

/// The pieces of `s` between occurrences of `sep`.
pub open spec fn split_by(s: Seq<u8>, sep: u8) -> Seq<Seq<u8>>
    decreases s.len(),
    via split_by_decreases
{
    let i = find_byte(s, sep, 0);
    if i >= s.len() {
        seq![s]
    } else {
        seq![s.subrange(0, i)] + split_by(s.subrange(i + 1, s.len() as int), sep)
    }
}

#[via_fn]
proof fn split_by_decreases(s: Seq<u8>, sep: u8) {
    if s.len() > 0 {
        lemma_find_byte(s, sep, 0);
    }
}

/// A signed decimal in 64-bit range, as `str::parse` reads an `i64`.
pub open spec fn pi64(s: Seq<u8>) -> Option<int> {
    match parse_int(s) {
        Option::Some(v) => if i64::MIN <= v <= i64::MAX {
            Option::Some(v)
        } else {
            Option::None
        },
        Option::None => Option::None,
    }
}

/// A total within signed 64-bit range, or the whole-string format error.
pub open spec fn etime_total(v: int, s: Seq<u8>) -> Result<int, Seq<u8>> {
    if i64::MIN <= v <= i64::MAX {
        Result::Ok(v)
    } else {
        Result::Err(sb("Invalid elapsed time format: ") + s)
    }
}

/// The minutes-and-seconds tail of a three-field time.
pub open spec fn etime_tail(base: int, p1: Seq<u8>, p2: Seq<u8>, s: Seq<u8>) -> Result<
    int,
    Seq<u8>,
> {
    match pi64(p1) {
        Option::None => Result::Err(sb("Invalid minutes in elapsed time: ") + s),
        Option::Some(m) => match pi64(p2) {
            Option::None => Result::Err(sb("Invalid seconds in elapsed time: ") + s),
            Option::Some(sec) => etime_total(base + m * 60 + sec, s),
        },
    }
}

/// The seconds an elapsed-time string of a process listing denotes:
/// `MM:SS`, `HH:MM:SS` or `D-HH:MM:SS`; a dash alone or empty text is
/// zero.  A total outside the signed 64-bit range is rejected as a
/// format error.
pub open spec fn parse_etime_spec(s: Seq<u8>) -> Result<int, Seq<u8>> {
    if s == seq![45u8] || s.len() == 0 {
        Result::Ok(0)
    } else {
        let parts = split_by(s, 58);
        if parts.len() == 2 {
            etime_tail(0, parts[0], parts[1], s)
        } else if parts.len() == 3 {
            let dparts = split_by(parts[0], 45);
            if dparts.len() == 2 {
                match pi64(dparts[0]) {
                    Option::None => Result::Err(sb("Invalid days in elapsed time: ") + s),
                    Option::Some(d) => match pi64(dparts[1]) {
                        Option::None => Result::Err(
                            sb("Invalid hours in elapsed time: ") + s,
                        ),
                        Option::Some(h) => etime_tail(
                            d * 86400 + h * 3600,
                            parts[1],
                            parts[2],
                            s,
                        ),
                    },
                }
            } else if dparts.len() == 1 {
                match pi64(parts[0]) {
                    Option::None => Result::Err(sb("Invalid hours in elapsed time: ") + s),
                    Option::Some(h) => etime_tail(h * 3600, parts[1], parts[2], s),
                }
            } else {
                Result::Err(sb("Invalid elapsed time format: ") + s)
            }
        } else {
            Result::Err(sb("Invalid elapsed time format: ") + s)
        }
    }
}

/// Reads `t[from..to]` as a signed 64-bit decimal.
fn read_i64(t: &[u8], from: usize, to: usize) -> (r: Option<i64>)
    requires
        from <= to <= t@.len(),
    ensures
        match pi64(t@.subrange(from as int, to as int)) {
            Option::Some(v) => r matches Option::Some(got) && got as int == v,
            Option::None => r is None,
        },
{
    let ghost d = t@.subrange(from as int, to as int);
    if from >= to {
        return None;
    }
    if t[from] == 45 {
        proof {
            assert(d.drop_first() =~= t@.subrange(from + 1 as int, to as int));
            lemma_parse_uint_nonneg(d);
        }
        match read_digits(t, from + 1, to, 0x8000_0000_0000_0000) {
            Digits::Val(v) => Some(
                if v == 0x8000_0000_0000_0000 {
                    i64::MIN
                } else {
                    -(v as i64)
                },
            ),
            Digits::Over => None,
            Digits::Bad => None,
        }
    } else {
        let start: usize = if t[from] == 43 {
            from + 1
        } else {
            from
        };
        proof {
            if d[0] == 43 {
                assert(d.drop_first() =~= t@.subrange(start as int, to as int));
            } else {
                assert(d =~= t@.subrange(start as int, to as int));
            }
        }
        match read_digits(t, start, to, 0x7fff_ffff_ffff_ffff) {
            Digits::Val(v) => Some(v as i64),
            Digits::Over => None,
            Digits::Bad => None,
        }
    }
}

/// A split at one separator occurrence, where there is exactly one in
/// `s[from..to]`.
proof fn lemma_split_once(s: Seq<u8>, sep: u8, c: int)
    requires
        0 <= c < s.len(),
        s[c] == sep,
        forall|k: int| 0 <= k < c ==> s[k] != sep,
        forall|k: int| c < k < s.len() ==> s[k] != sep,
    ensures
        split_by(s, sep) == seq![s.subrange(0, c)] + seq![
            s.subrange(c + 1, s.len() as int),
        ],
{
    lemma_find_byte(s, sep, 0);
    assert(find_byte(s, sep, 0) == c) by {
        if find_byte(s, sep, 0) < c {
        } else if find_byte(s, sep, 0) > c {
        }
    }
    let rest = s.subrange(c + 1, s.len() as int);
    lemma_find_byte(rest, sep, 0);
    assert(find_byte(rest, sep, 0) == rest.len()) by {
        if find_byte(rest, sep, 0) < rest.len() {
            assert(s[c + 1 + find_byte(rest, sep, 0)] == sep);
        }
    }
    assert(split_by(rest, sep) == seq![rest]);
}

/// A split with no separator occurrence keeps the text whole.
proof fn lemma_split_none(s: Seq<u8>, sep: u8)
    requires
        forall|k: int| 0 <= k < s.len() ==> s[k] != sep,
    ensures
        split_by(s, sep) == seq![s],
{
    lemma_find_byte(s, sep, 0);
    assert(find_byte(s, sep, 0) == s.len()) by {
        if find_byte(s, sep, 0) < s.len() {
        }
    }
}

/// A split at two separator occurrences.
proof fn lemma_split_twice(s: Seq<u8>, sep: u8, c1: int, c2: int)
    requires
        0 <= c1 < c2 < s.len(),
        s[c1] == sep,
        s[c2] == sep,
        forall|k: int| 0 <= k < c1 ==> s[k] != sep,
        forall|k: int| c1 < k < c2 ==> s[k] != sep,
        forall|k: int| c2 < k < s.len() ==> s[k] != sep,
    ensures
        split_by(s, sep) == seq![s.subrange(0, c1)] + seq![s.subrange(c1 + 1, c2)] + seq![
            s.subrange(c2 + 1, s.len() as int),
        ],
{
    lemma_find_byte(s, sep, 0);
    assert(find_byte(s, sep, 0) == c1) by {
        if find_byte(s, sep, 0) < c1 {
        } else if find_byte(s, sep, 0) > c1 {
        }
    }
    let rest = s.subrange(c1 + 1, s.len() as int);
    assert(forall|k: int| 0 <= k < rest.len() ==> #[trigger] rest[k] == s[c1 + 1 + k]);
    lemma_split_once(rest, sep, c2 - c1 - 1);
    assert(rest.subrange(0, c2 - c1 - 1) =~= s.subrange(c1 + 1, c2));
    assert(rest.subrange(c2 - c1, rest.len() as int) =~= s.subrange(c2 + 1, s.len() as int));
    assert(split_by(s, sep) =~= seq![s.subrange(0, c1)] + seq![s.subrange(c1 + 1, c2)] + seq![
        s.subrange(c2 + 1, s.len() as int),
    ]);
}

/// Parses a `ps` elapsed-time string into seconds, as
/// [`parse_etime_spec`] lays it down.
#[verifier::rlimit(100)]
#[verifier::spinoff_prover]
pub fn parse_etime(s: &str) -> (r: Result<i64, Vec<u8>>)
    ensures
        match parse_etime_spec(sb(s)) {
            Result::Ok(v) => r matches Result::Ok(got) && got as int == v,
            Result::Err(m) => r matches Result::Err(got) && got@ == m,
        },
{
    let t = s.as_bytes();
    let ghost tv = t@;
    let n: usize = t.len();
    if n == 0 || (n == 1 && t[0] == 45) {
        proof {
            if n == 1 && tv[0] == 45 {
                assert(tv =~= seq![45u8]);
            }
        }
        return Ok(0);
    }
    proof {
        if tv == seq![45u8] {
            assert(tv.len() == 1 && tv[0] == 45);
        }
    }
    let c1 = find_byte_exec(t, 58, 0);
    proof {
        lemma_find_byte(tv, 58, 0);
    }
    if c1 == n {
        proof {
            lemma_split_none(tv, 58);
        }
        let mut m = lit("Invalid elapsed time format: ");
        write_bytes(t, &mut m);
        return Err(m);
    }
    let c2 = find_byte_exec(t, 58, c1 + 1);
    proof {
        lemma_find_byte(tv, 58, c1 + 1 as int);
    }
    if c2 == n {
        // Two fields: minutes and seconds.
        proof {
            lemma_split_once(tv, 58, c1 as int);
        }
        let minutes = match read_i64(t, 0, c1) {
            Some(v) => v,
            None => {
                let mut m = lit("Invalid minutes in elapsed time: ");
                write_bytes(t, &mut m);
                return Err(m);
            },
        };
        let seconds = match read_i64(t, c1 + 1, n) {
            Some(v) => v,
            None => {
                let mut m = lit("Invalid seconds in elapsed time: ");
                write_bytes(t, &mut m);
                return Err(m);
            },
        };
        let total: i128 = (minutes as i128) * 60 + (seconds as i128);
        if total < -0x8000_0000_0000_0000i128 || total > 0x7fff_ffff_ffff_ffffi128 {
            let mut m = lit("Invalid elapsed time format: ");
            write_bytes(t, &mut m);
            return Err(m);
        }
        return Ok(total as i64);
    }
    let c3 = find_byte_exec(t, 58, c2 + 1);
    proof {
        lemma_find_byte(tv, 58, c2 + 1 as int);
    }
    if c3 < n {
        let mut m = lit("Invalid elapsed time format: ");
        write_bytes(t, &mut m);
        proof {
            lemma_split_c3(tv, c1 as int, c2 as int, c3 as int);
        }
        return Err(m);
    }
    // Three fields; the first may carry a day count before a dash.
    proof {
        lemma_split_twice(tv, 58, c1 as int, c2 as int);
    }
    let ghost p0 = tv.subrange(0, c1 as int);
    let d1 = find_byte_exec(t, 45, 0);
    proof {
        lemma_find_byte(tv, 45, 0);
        assert(forall|k: int| 0 <= k < p0.len() ==> #[trigger] p0[k] == tv[k]);
    }
    let base: i128 = if d1 < c1 {
        let d2 = find_byte_exec(t, 45, d1 + 1);
        proof {
            lemma_find_byte(tv, 45, d1 + 1 as int);
        }
        if d2 < c1 {
            // More than one dash: not a day-hour split.
            proof {
                lemma_split_dashes_many(p0, tv, d1 as int, d2 as int);
            }
            let mut m = lit("Invalid elapsed time format: ");
            write_bytes(t, &mut m);
            return Err(m);
        }
        proof {
            lemma_split_once(p0, 45, d1 as int);
            assert(p0.subrange(0, d1 as int) =~= tv.subrange(0, d1 as int));
            assert(p0.subrange(d1 + 1, p0.len() as int) =~= tv.subrange(
                d1 + 1 as int,
                c1 as int,
            ));
        }
        let days = match read_i64(t, 0, d1) {
            Some(v) => v,
            None => {
                let mut m = lit("Invalid days in elapsed time: ");
                write_bytes(t, &mut m);
                return Err(m);
            },
        };
        let hours = match read_i64(t, d1 + 1, c1) {
            Some(v) => v,
            None => {
                let mut m = lit("Invalid hours in elapsed time: ");
                write_bytes(t, &mut m);
                return Err(m);
            },
        };
        (days as i128) * 86400 + (hours as i128) * 3600
    } else {
        proof {
            lemma_split_none_sub(p0, tv, c1 as int);
        }
        let hours = match read_i64(t, 0, c1) {
            Some(v) => v,
            None => {
                let mut m = lit("Invalid hours in elapsed time: ");
                write_bytes(t, &mut m);
                return Err(m);
            },
        };
        (hours as i128) * 3600
    };
    let minutes = match read_i64(t, c1 + 1, c2) {
        Some(v) => v,
        None => {
            let mut m = lit("Invalid minutes in elapsed time: ");
            write_bytes(t, &mut m);
            return Err(m);
        },
    };
    let seconds = match read_i64(t, c2 + 1, n) {
        Some(v) => v,
        None => {
            let mut m = lit("Invalid seconds in elapsed time: ");
            write_bytes(t, &mut m);
            return Err(m);
        },
    };
    let total: i128 = base + (minutes as i128) * 60 + (seconds as i128);
    if total < -0x8000_0000_0000_0000i128 || total > 0x7fff_ffff_ffff_ffffi128 {
        let mut m = lit("Invalid elapsed time format: ");
        write_bytes(t, &mut m);
        return Err(m);
    }
    Ok(total as i64)
}

/// With a third separator the split has more than three parts.
proof fn lemma_split_c3(s: Seq<u8>, c1: int, c2: int, c3: int)
    requires
        0 <= c1 < c2 < c3 < s.len(),
        s[c1] == 58,
        s[c2] == 58,
        s[c3] == 58,
        forall|k: int| 0 <= k < c1 ==> s[k] != 58,
        forall|k: int| c1 < k < c2 ==> s[k] != 58,
        forall|k: int| c2 < k < c3 ==> s[k] != 58,
    ensures
        split_by(s, 58).len() >= 4,
{
    lemma_find_byte(s, 58, 0);
    assert(find_byte(s, 58, 0) == c1) by {
        if find_byte(s, 58, 0) < c1 {
        } else if find_byte(s, 58, 0) > c1 {
        }
    }
    let r1 = s.subrange(c1 + 1, s.len() as int);
    assert(forall|k: int| 0 <= k < r1.len() ==> #[trigger] r1[k] == s[c1 + 1 + k]);
    lemma_find_byte(r1, 58, 0);
    assert(find_byte(r1, 58, 0) == c2 - c1 - 1) by {
        if find_byte(r1, 58, 0) < c2 - c1 - 1 {
        } else if find_byte(r1, 58, 0) > c2 - c1 - 1 {
            assert(r1[c2 - c1 - 1] == 58);
        }
    }
    let r2 = r1.subrange(c2 - c1, r1.len() as int);
    assert(forall|k: int| 0 <= k < r2.len() ==> #[trigger] r2[k] == s[c2 + 1 + k]);
    lemma_find_byte(r2, 58, 0);
    assert(find_byte(r2, 58, 0) == c3 - c2 - 1) by {
        if find_byte(r2, 58, 0) < c3 - c2 - 1 {
        } else if find_byte(r2, 58, 0) > c3 - c2 - 1 {
            assert(r2[c3 - c2 - 1] == 58);
        }
    }
    assert(split_by(r2, 58).len() >= 2) by {
        let r3 = r2.subrange(c3 - c2, r2.len() as int);
        assert(split_by(r2, 58) == seq![r2.subrange(0, c3 - c2 - 1)] + split_by(r3, 58));
        assert(split_by(r3, 58).len() >= 1) by {
            lemma_split_len(r3, 58);
        }
    }
    assert(split_by(s, 58) == seq![s.subrange(0, c1)] + split_by(r1, 58));
    assert(split_by(r1, 58) == seq![r1.subrange(0, c2 - c1 - 1)] + split_by(r2, 58));
}

/// A split always has at least one part.
proof fn lemma_split_len(s: Seq<u8>, sep: u8)
    ensures
        split_by(s, sep).len() >= 1,
    decreases s.len(),
{
    lemma_find_byte(s, sep, 0);
    let i = find_byte(s, sep, 0);
    if i < s.len() {
        lemma_split_len(s.subrange(i + 1, s.len() as int), sep);
    }
}

/// A prefix with no dash splits whole.
proof fn lemma_split_none_sub(p0: Seq<u8>, s: Seq<u8>, c1: int)
    requires
        0 <= c1 <= s.len(),
        p0 == s.subrange(0, c1),
        forall|k: int| 0 <= k < s.len() ==> (s[k] == 45 ==> k >= c1),
    ensures
        split_by(p0, 45) == seq![p0],
{
    assert(forall|k: int| 0 <= k < p0.len() ==> #[trigger] p0[k] == s[k]);
    lemma_split_none(p0, 45);
}

/// A prefix with two dashes splits into at least three parts.
proof fn lemma_split_dashes_many(p0: Seq<u8>, s: Seq<u8>, d1: int, d2: int)
    requires
        p0.len() <= s.len(),
        p0 == s.subrange(0, p0.len() as int),
        0 <= d1 < d2 < p0.len(),
        s[d1] == 45,
        s[d2] == 45,
        forall|k: int| 0 <= k < d1 ==> s[k] != 45,
        forall|k: int| d1 < k < d2 ==> s[k] != 45,
    ensures
        split_by(p0, 45).len() >= 3,
{
    assert(forall|k: int| 0 <= k < p0.len() ==> #[trigger] p0[k] == s[k]);
    lemma_find_byte(p0, 45, 0);
    assert(find_byte(p0, 45, 0) == d1) by {
        if find_byte(p0, 45, 0) < d1 {
        } else if find_byte(p0, 45, 0) > d1 {
            assert(p0[d1] == 45);
        }
    }
    let r1 = p0.subrange(d1 + 1, p0.len() as int);
    assert(forall|k: int| 0 <= k < r1.len() ==> #[trigger] r1[k] == p0[d1 + 1 + k]);
    lemma_find_byte(r1, 45, 0);
    assert(find_byte(r1, 45, 0) == d2 - d1 - 1) by {
        if find_byte(r1, 45, 0) < d2 - d1 - 1 {
        } else if find_byte(r1, 45, 0) > d2 - d1 - 1 {
            assert(r1[d2 - d1 - 1] == 45);
        }
    }
    let r2 = r1.subrange(d2 - d1, r1.len() as int);
    assert(split_by(r1, 45) == seq![r1.subrange(0, d2 - d1 - 1)] + split_by(r2, 45));
    lemma_split_len(r2, 45);
    assert(split_by(p0, 45) == seq![p0.subrange(0, d1)] + split_by(r1, 45));
}

} // verus!
