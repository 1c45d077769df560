//! The text of a well-formed metric line, and the proof that parsing it gives
//! back exactly the numbers it was written from.
use vstd::prelude::*;
use vstd::string::is_ascii_spec_bytes;
use crate::line::{
    line_fits, explored_tag, final_at, final_explored_tag, final_tag, form_at, fringe_tag, lb_tag, leftmost,
    ongoing_at, parse_line, ub_tag, Form,
};
use crate::record::Metric;
use crate::scan::{decimal, digit_run, has_int, has_uint, int_end, is_digit, lit_at, sign_len, signed_value, uint_end};

verus! {

/// The decimal digits of `n`, without leading zeros.
pub open spec fn render_uint(n: nat) -> Seq<u8>
    decreases n,
{
    if n < 10 {
        seq![(48 + n) as u8]
    } else {
        render_uint(n / 10).push((48 + n % 10) as u8)
    }
}

/// The decimal digits of `v`, after a minus sign where `v` is negative.
pub open spec fn render_int(v: int) -> Seq<u8> {
    if v < 0 {
        seq![45u8] + render_uint((-v) as nat)
    } else {
        render_uint(v as nat)
    }
}

/// `Explored <explored>, LB <lb>, UB <ub>, Fringe sz <fringe>`.
pub open spec fn ongoing_line(explored: nat, lb: int, ub: int, fringe: nat) -> Seq<u8> {
    explored_tag() + render_uint(explored) + lb_tag() + render_int(lb) + ub_tag() + render_int(ub)
        + fringe_tag() + render_uint(fringe)
}

/// `Final <opt>, Explored <explored>`.
pub open spec fn final_line(opt: int, explored: nat) -> Seq<u8> {
    final_tag() + render_int(opt) + final_explored_tag() + render_uint(explored)
}

proof fn lemma_tag_bytes()
    ensures
        explored_tag() == seq![69u8, 120, 112, 108, 111, 114, 101, 100, 32],
        lb_tag() == seq![44u8, 32, 76, 66, 32],
        ub_tag() == seq![44u8, 32, 85, 66, 32],
        fringe_tag() == seq![44u8, 32, 70, 114, 105, 110, 103, 101, 32, 115, 122, 32],
        final_tag() == seq![70u8, 105, 110, 97, 108, 32],
        final_explored_tag() == seq![44u8, 32, 69, 120, 112, 108, 111, 114, 101, 100, 32],
{
    reveal_strlit("Explored ");
    is_ascii_spec_bytes("Explored ");
    assert(explored_tag() =~= seq![69u8, 120, 112, 108, 111, 114, 101, 100, 32]);
    reveal_strlit(", LB ");
    is_ascii_spec_bytes(", LB ");
    assert(lb_tag() =~= seq![44u8, 32, 76, 66, 32]);
    reveal_strlit(", UB ");
    is_ascii_spec_bytes(", UB ");
    assert(ub_tag() =~= seq![44u8, 32, 85, 66, 32]);
    reveal_strlit(", Fringe sz ");
    is_ascii_spec_bytes(", Fringe sz ");
    assert(fringe_tag() =~= seq![44u8, 32, 70, 114, 105, 110, 103, 101, 32, 115, 122, 32]);
    reveal_strlit("Final ");
    is_ascii_spec_bytes("Final ");
    assert(final_tag() =~= seq![70u8, 105, 110, 97, 108, 32]);
    reveal_strlit(", Explored ");
    is_ascii_spec_bytes(", Explored ");
    assert(final_explored_tag() =~= seq![44u8, 32, 69, 120, 112, 108, 111, 114, 101, 100, 32]);
}

proof fn lemma_render_digits(n: nat)
    ensures
        render_uint(n).len() >= 1,
        forall|i: int| 0 <= i < render_uint(n).len() ==> is_digit(#[trigger] render_uint(n)[i]),
    decreases n,
{
    if n >= 10 {
        lemma_render_digits(n / 10);
        let r = render_uint(n / 10);
        assert forall|i: int| 0 <= i < render_uint(n).len() implies is_digit(
            #[trigger] render_uint(n)[i],
        ) by {
            if i < r.len() {
                assert(render_uint(n)[i] == r[i]);
            }
        }
    }
}

proof fn lemma_decimal_of_render(t: Seq<u8>, q: int, n: nat)
    requires
        0 <= q,
        q + render_uint(n).len() <= t.len(),
        t.subrange(q, q + render_uint(n).len()) == render_uint(n),
    ensures
        decimal(t, q, q + render_uint(n).len()) == n,
    decreases n,
{
    let r = render_uint(n);
    let end = q + r.len();
    assert(t[end - 1] == t.subrange(q, end)[r.len() - 1]);
    if n >= 10 {
        let h = render_uint(n / 10);
        assert(t.subrange(q, q + h.len()) =~= t.subrange(q, end).subrange(0, h.len() as int));
        assert(r.subrange(0, h.len() as int) =~= h);
        lemma_decimal_of_render(t, q, n / 10);
        assert(r[r.len() - 1] == (48 + n % 10) as u8);
        assert(t[end - 1] - 48 == n % 10);
        assert(decimal(t, q, end) == decimal(t, q, end - 1) * 10 + (t[end - 1] - 48));
        assert((n / 10) * 10 + n % 10 == n);
    } else {
        assert(t[end - 1] - 48 == n);
        assert(decimal(t, q, end) == decimal(t, q, end - 1) * 10 + (t[end - 1] - 48));
    }
}

proof fn lemma_digit_run_exact(t: Seq<u8>, q: int, k: int)
    requires
        0 <= q,
        0 <= k,
        q + k <= t.len(),
        forall|i: int| q <= i < q + k ==> is_digit(#[trigger] t[i]),
        q + k == t.len() || !is_digit(t[q + k]),
    ensures
        digit_run(t, q) == k,
    decreases k,
{
    if k > 0 {
        lemma_digit_run_exact(t, q + 1, k - 1);
    }
}

/// The digits of `n` stand at `q`, followed by no other digit.
proof fn lemma_uint_field(t: Seq<u8>, q: int, n: nat)
    requires
        0 <= q,
        q + render_uint(n).len() <= t.len(),
        t.subrange(q, q + render_uint(n).len()) == render_uint(n),
        q + render_uint(n).len() == t.len() || !is_digit(t[q + render_uint(n).len()]),
    ensures
        has_uint(t, q),
        uint_end(t, q) == q + render_uint(n).len(),
        decimal(t, q, q + render_uint(n).len()) == n,
{
    let r = render_uint(n);
    lemma_render_digits(n);
    assert forall|i: int| q <= i < q + r.len() implies is_digit(#[trigger] t[i]) by {
        assert(t[i] == t.subrange(q, q + r.len())[i - q]);
    }
    lemma_digit_run_exact(t, q, r.len() as int);
    lemma_decimal_of_render(t, q, n);
}

/// The text of `v` stands at `q`, followed by no digit.
proof fn lemma_int_field(t: Seq<u8>, q: int, v: int)
    requires
        0 <= q,
        q + render_int(v).len() <= t.len(),
        t.subrange(q, q + render_int(v).len()) == render_int(v),
        q + render_int(v).len() == t.len() || !is_digit(t[q + render_int(v).len()]),
    ensures
        has_int(t, q),
        int_end(t, q) == q + render_int(v).len(),
        signed_value(t, q, q + render_int(v).len()) == v,
{
    let r = render_int(v);
    lemma_render_digits((if v < 0 { -v } else { v }) as nat);
    assert(t[q] == t.subrange(q, q + r.len())[0]);
    if v < 0 {
        let u = render_uint((-v) as nat);
        assert(sign_len(t, q) == 1);
        assert(t.subrange(q + 1, q + 1 + u.len()) =~= t.subrange(q, q + r.len()).subrange(
            1,
            r.len() as int,
        ));
        assert(r.subrange(1, r.len() as int) =~= u);
        lemma_uint_field(t, q + 1, (-v) as nat);
    } else {
        assert(sign_len(t, q) == 0);
        lemma_uint_field(t, q, v as nat);
    }
}

/// A well-formed progress line reads back as the four numbers it was
/// written from, negative bounds included.
pub proof fn lemma_ongoing_line_parses(explored: nat, lb: int, ub: int, fringe: nat)
    ensures
        parse_line(ongoing_line(explored, lb, ub, fringe)) == Some(
            Metric::Ongoing { explored: explored as int, lb, ub, fringe: fringe as int },
        ),
        line_fits(ongoing_line(explored, lb, ub, fringe)) == (explored <= usize::MAX && i32::MIN
            <= lb <= i32::MAX && i32::MIN <= ub <= i32::MAX && fringe <= usize::MAX),
{
    lemma_tag_bytes();
    let t = ongoing_line(explored, lb, ub, fringe);
    let e = explored_tag();
    let u1 = render_uint(explored);
    let l = lb_tag();
    let i2 = render_int(lb);
    let b = ub_tag();
    let i3 = render_int(ub);
    let f = fringe_tag();
    let u4 = render_uint(fringe);
    let p1 = e.len() as int;
    let p2 = p1 + u1.len();
    let p3 = p2 + l.len();
    let p4 = p3 + i2.len();
    let p5 = p4 + b.len();
    let p6 = p5 + i3.len();
    let p7 = p6 + f.len();
    let p8 = p7 + u4.len();
    assert(t.len() == p8);
    assert(t.subrange(0, p1) =~= e);
    assert(t.subrange(p1, p2) =~= u1);
    assert(t.subrange(p2, p3) =~= l);
    assert(t.subrange(p3, p4) =~= i2);
    assert(t.subrange(p4, p5) =~= b);
    assert(t.subrange(p5, p6) =~= i3);
    assert(t.subrange(p6, p7) =~= f);
    assert(t.subrange(p7, p8) =~= u4);
    assert(t[p2] == l[0]);
    assert(t[p4] == b[0]);
    assert(t[p6] == f[0]);
    lemma_uint_field(t, p1, explored);
    lemma_int_field(t, p3, lb);
    lemma_int_field(t, p5, ub);
    lemma_uint_field(t, p7, fringe);
    assert(ongoing_at(t, 0) == Some(
        Metric::Ongoing { explored: explored as int, lb, ub, fringe: fringe as int },
    ));
}

proof fn lemma_render_int_bytes(v: int)
    ensures
        forall|i: int|
            0 <= i < render_int(v).len() ==> #[trigger] render_int(v)[i] == 45 || is_digit(
                render_int(v)[i],
            ),
{
    if v < 0 {
        let u = render_uint((-v) as nat);
        lemma_render_digits((-v) as nat);
        assert forall|i: int| 0 <= i < render_int(v).len() implies #[trigger] render_int(v)[i]
            == 45 || is_digit(render_int(v)[i]) by {
            if i > 0 {
                assert(render_int(v)[i] == u[i - 1]);
            }
        }
    } else {
        lemma_render_digits(v as nat);
    }
}

proof fn lemma_leftmost_none(t: Seq<u8>, p: int, form: Form)
    requires
        forall|q: int| p <= q < t.len() ==> #[trigger] form_at(t, q, form) is None,
    ensures
        leftmost(t, p, form) is None,
    decreases t.len() - p,
{
    if p < t.len() {
        assert(form_at(t, p, form) is None);
        lemma_leftmost_none(t, p + 1, form);
    }
}

/// No progress line starts anywhere in a final line.
proof fn lemma_final_line_no_ongoing_at(opt: int, explored: nat, q: int)
    requires
        0 <= q < final_line(opt, explored).len(),
    ensures
        ongoing_at(final_line(opt, explored), q) is None,
{
    lemma_tag_bytes();
    let t = final_line(opt, explored);
    let ft = final_tag();
    let i1 = render_int(opt);
    let fe = final_explored_tag();
    let u2 = render_uint(explored);
    let p1 = ft.len() as int;
    let p2 = p1 + i1.len();
    let p3 = p2 + fe.len();
    let p4 = p3 + u2.len();
    assert(t.len() == p4);
    lemma_render_int_bytes(opt);
    lemma_render_digits(explored);
    if lit_at(t, q, explored_tag()) {
        assert(t[q] == t.subrange(q, q + 9)[0]);
        assert(t[q] == 69);
        if q < p1 {
            assert(t[q] == ft[q]);
        } else if q < p2 {
            assert(t[q] == i1[q - p1]);
        } else if q < p3 {
            assert(t[q] == fe[q - p2]);
            if q != p2 + 2 {
                assert(fe[q - p2] != 69);
            }
            assert(t.subrange(p3, p4) =~= u2);
            lemma_uint_field(t, p3, explored);
            assert(uint_end(t, q + 9) == p4);
        } else {
            assert(t[q] == u2[q - p3]);
        }
    }
}

/// A well-formed final line reads back as its optimal value and explored
/// count: both bounds are the optimal value, and the frontier reads as empty.
pub proof fn lemma_final_line_parses(opt: int, explored: nat)
    ensures
        parse_line(final_line(opt, explored)) == Some(
            Metric::Final { explored: explored as int, opt },
        ),
        parse_line(final_line(opt, explored))->0.lb() == opt,
        parse_line(final_line(opt, explored))->0.ub() == opt,
        parse_line(final_line(opt, explored))->0.fringe() == 0,
        parse_line(final_line(opt, explored))->0.explored() == explored,
        line_fits(final_line(opt, explored)) == (explored <= usize::MAX && i32::MIN <= opt
            <= i32::MAX),
{
    lemma_tag_bytes();
    let t = final_line(opt, explored);
    let ft = final_tag();
    let i1 = render_int(opt);
    let fe = final_explored_tag();
    let u2 = render_uint(explored);
    let p1 = ft.len() as int;
    let p2 = p1 + i1.len();
    let p3 = p2 + fe.len();
    let p4 = p3 + u2.len();
    assert(t.len() == p4);
    assert(t.subrange(0, p1) =~= ft);
    assert(t.subrange(p1, p2) =~= i1);
    assert(t.subrange(p2, p3) =~= fe);
    assert(t.subrange(p3, p4) =~= u2);
    assert(t[p2] == fe[0]);
    lemma_int_field(t, p1, opt);
    lemma_uint_field(t, p3, explored);
    assert(final_at(t, 0) == Some(Metric::Final { explored: explored as int, opt }));
    assert forall|q: int| 0 <= q < t.len() implies #[trigger] form_at(t, q, Form::Ongoing)
        is None by {
        lemma_final_line_no_ongoing_at(opt, explored, q);
    }
    lemma_leftmost_none(t, 0, Form::Ongoing);
}

} // verus!
