//! Byte-level building blocks of the line grammars: literal text, runs of
//! decimal digits, an optional minus sign and white space.
use vstd::prelude::*;

verus! {

pub open spec fn is_digit(b: u8) -> bool {
    48 <= b <= 57
}

/// The length of the UTF-8 encoding of the Unicode `White_Space` character
/// that starts at byte `q` of `t`, or zero where none does. The characters are
/// U+0009 to U+000D, U+0020, U+0085, U+00A0, U+1680, U+2000 to U+200A, U+2028,
/// U+2029, U+202F, U+205F and U+3000.
pub open spec fn white_space_len(t: Seq<u8>, q: int) -> int {
    if !(0 <= q < t.len()) {
        0
    } else if t[q] == 0x20 || (0x09 <= t[q] <= 0x0D) {
        1
    } else if q + 1 < t.len() && t[q] == 0xC2 && (t[q + 1] == 0x85 || t[q + 1] == 0xA0) {
        2
    } else if q + 2 < t.len() && t[q] == 0xE1 && t[q + 1] == 0x9A && t[q + 2] == 0x80 {
        3
    } else if q + 2 < t.len() && t[q] == 0xE2 && t[q + 1] == 0x80 && ((0x80 <= t[q + 2] <= 0x8A)
        || t[q + 2] == 0xA8 || t[q + 2] == 0xA9 || t[q + 2] == 0xAF) {
        3
    } else if q + 2 < t.len() && t[q] == 0xE2 && t[q + 1] == 0x81 && t[q + 2] == 0x9F {
        3
    } else if q + 2 < t.len() && t[q] == 0xE3 && t[q + 1] == 0x80 && t[q + 2] == 0x80 {
        3
    } else {
        0
    }
}

/// The number of digits that follow position `q`.
pub open spec fn digit_run(t: Seq<u8>, q: int) -> nat
    decreases t.len() - q,
{
    if 0 <= q < t.len() && is_digit(t[q]) {
        1 + digit_run(t, q + 1)
    } else {
        0
    }
}

/// The number of bytes of white space that follow position `q`.
pub open spec fn white_space_run(t: Seq<u8>, q: int) -> nat
    decreases t.len() - q,
{
    if 0 <= q < t.len() && white_space_len(t, q) > 0 {
        (white_space_len(t, q) + white_space_run(t, q + white_space_len(t, q))) as nat
    } else {
        0
    }
}

/// The decimal number written by the digits in `t[from..to]`.
pub open spec fn decimal(t: Seq<u8>, from: int, to: int) -> int
    decreases to - from,
{
    if to <= from {
        0
    } else {
        decimal(t, from, to - 1) * 10 + (t[to - 1] - 48)
    }
}

/// `lit` stands in `t` at position `p`.
pub open spec fn lit_at(t: Seq<u8>, p: int, lit: Seq<u8>) -> bool {
    0 <= p && p + lit.len() <= t.len() && t.subrange(p, p + lit.len()) == lit
}

/// One when a minus sign stands at `q`, else zero.
pub open spec fn sign_len(t: Seq<u8>, q: int) -> int {
    if 0 <= q < t.len() && t[q] == 45 {
        1
    } else {
        0
    }
}

/// Where the unsigned number that starts at `q` ends.
pub open spec fn uint_end(t: Seq<u8>, q: int) -> int {
    q + digit_run(t, q)
}

/// Where the number with an optional minus sign that starts at `q` ends.
pub open spec fn int_end(t: Seq<u8>, q: int) -> int {
    uint_end(t, q + sign_len(t, q))
}

/// An unsigned number starts at `q`.
pub open spec fn has_uint(t: Seq<u8>, q: int) -> bool {
    digit_run(t, q) > 0
}

/// A number with an optional minus sign starts at `q`.
pub open spec fn has_int(t: Seq<u8>, q: int) -> bool {
    has_uint(t, q + sign_len(t, q))
}

/// The value of the number with an optional minus sign in `t[q..end]`.
pub open spec fn signed_value(t: Seq<u8>, q: int, end: int) -> int {
    if sign_len(t, q) == 1 {
        -decimal(t, q + 1, end)
    } else {
        decimal(t, q, end)
    }
}

pub proof fn lemma_digit_run_bound(t: Seq<u8>, q: int)
    requires
        0 <= q <= t.len(),
    ensures
        q + digit_run(t, q) <= t.len(),
        forall|i: int| q <= i < q + digit_run(t, q) ==> is_digit(#[trigger] t[i]),
    decreases t.len() - q,
{
    if q < t.len() && is_digit(t[q]) {
        lemma_digit_run_bound(t, q + 1);
    }
}

pub proof fn lemma_decimal_nonneg(t: Seq<u8>, from: int, to: int)
    requires
        0 <= from,
        to <= t.len(),
        forall|i: int| from <= i < to ==> is_digit(#[trigger] t[i]),
    ensures
        0 <= decimal(t, from, to),
    decreases to - from,
{
    if from < to {
        lemma_decimal_nonneg(t, from, to - 1);
    }
}

pub proof fn lemma_decimal_grows(t: Seq<u8>, from: int, mid: int, to: int)
    requires
        from <= mid <= to,
        0 <= from,
        to <= t.len(),
        forall|i: int| from <= i < to ==> is_digit(#[trigger] t[i]),
    ensures
        0 <= decimal(t, from, mid) <= decimal(t, from, to),
    decreases to - mid,
{
    lemma_decimal_nonneg(t, from, mid);
    if mid < to {
        lemma_decimal_grows(t, from, mid, to - 1);
        lemma_decimal_nonneg(t, from, to - 1);
    }
}

/// The end of the run of digits that starts at `q`.
pub fn digits_end(t: &[u8], q: usize) -> (r: usize)
    requires
        q <= t@.len(),
    ensures
        r == uint_end(t@, q as int),
        r <= t@.len(),
{
    let mut j: usize = q;
    while j < t.len() && 48 <= t[j] && t[j] <= 57
        invariant
            q <= j <= t@.len(),
            digit_run(t@, q as int) == (j - q) + digit_run(t@, j as int),
        decreases t@.len() - j,
    {
        j = j + 1;
    }
    j
}

/// The length of the white-space character that starts at `q`, if any.
fn white_space_at(t: &[u8], q: usize) -> (r: usize)
    requires
        q <= t@.len(),
    ensures
        r as int == white_space_len(t@, q as int),
        q + r <= t@.len(),
{
    let n: usize = t.len();
    if q >= n {
        return 0;
    }
    let b = t[q];
    if b == 0x20 || (0x09 <= b && b <= 0x0D) {
        1
    } else if n - q > 1 && b == 0xC2 && (t[q + 1] == 0x85 || t[q + 1] == 0xA0) {
        2
    } else if n - q > 2 && b == 0xE1 && t[q + 1] == 0x9A && t[q + 2] == 0x80 {
        3
    } else if n - q > 2 && b == 0xE2 && t[q + 1] == 0x80 && ((0x80 <= t[q + 2] && t[q + 2]
        <= 0x8A) || t[q + 2] == 0xA8 || t[q + 2] == 0xA9 || t[q + 2] == 0xAF) {
        3
    } else if n - q > 2 && b == 0xE2 && t[q + 1] == 0x81 && t[q + 2] == 0x9F {
        3
    } else if n - q > 2 && b == 0xE3 && t[q + 1] == 0x80 && t[q + 2] == 0x80 {
        3
    } else {
        0
    }
}

/// The end of the run of white space that starts at `q`.
pub fn white_space_end(t: &[u8], q: usize) -> (r: usize)
    requires
        q <= t@.len(),
    ensures
        r == q + white_space_run(t@, q as int),
        r <= t@.len(),
{
    let n: usize = t.len();
    let mut j: usize = q;
    loop
        invariant
            n == t@.len(),
            q <= j <= t@.len(),
            white_space_run(t@, q as int) == (j - q) + white_space_run(t@, j as int),
        decreases t@.len() - j,
    {
        let w = white_space_at(t, j);
        if w == 0 {
            return j;
        }
        j = j + w;
    }
}

/// Whether `lit` stands in `t` at position `p`.
pub fn has_lit(t: &[u8], p: usize, lit: &[u8]) -> (r: bool)
    requires
        p <= t@.len(),
    ensures
        r == lit_at(t@, p as int, lit@),
        r ==> p + lit@.len() <= usize::MAX,
{
    let n: usize = lit.len();
    let m: usize = t.len();
    if n > m - p {
        return false;
    }
    let mut i: usize = 0;
    while i < n
        invariant
            p <= t@.len(),
            p + lit@.len() <= t@.len(),
            n == lit@.len(),
            m == t@.len(),
            i <= n,
            forall|k: int| 0 <= k < i ==> t@[p + k] == lit@[k],
        decreases lit@.len() - i,
    {
        if t[p + i] != lit[i] {
            assert(t@.subrange(p as int, p + lit@.len())[i as int] != lit@[i as int]);
            return false;
        }
        i = i + 1;
    }
    assert(t@.subrange(p as int, p + lit@.len()) =~= lit@);
    true
}

/// The value of the digits in `t[from..to]`, or `None` where it exceeds
/// `limit`.
pub fn read_decimal(t: &[u8], from: usize, to: usize, limit: usize) -> (r: Option<usize>)
    requires
        from <= to <= t@.len(),
        forall|i: int| from <= i < to ==> is_digit(#[trigger] t@[i]),
    ensures
        match r {
            Some(v) => v as int == decimal(t@, from as int, to as int) && v <= limit,
            None => decimal(t@, from as int, to as int) > limit,
        },
{
    let mut acc: usize = 0;
    let mut j: usize = from;
    while j < to
        invariant
            from <= j <= to <= t@.len(),
            forall|i: int| from <= i < to ==> is_digit(#[trigger] t@[i]),
            acc as int == decimal(t@, from as int, j as int),
            acc <= limit,
        decreases to - j,
    {
        assert(is_digit(t@[j as int]));
        let d: usize = (t[j] - 48) as usize;
        if d > limit || acc > (limit - d) / 10 {
            proof {
                if d <= limit {
                    assert(acc * 10 + d > limit) by (nonlinear_arith)
                        requires
                            acc > (limit - d) / 10,
                            d <= limit,
                    ;
                }
                lemma_decimal_nonneg(t@, from as int, j as int);
                lemma_decimal_grows(t@, from as int, j + 1, to as int);
            }
            return None;
        }
        proof {
            assert(acc * 10 + d <= limit) by (nonlinear_arith)
                requires
                    acc <= (limit - d) / 10,
                    d <= limit,
            ;
        }
        acc = acc * 10 + d;
        j = j + 1;
    }
    Some(acc)
}

} // verus!
