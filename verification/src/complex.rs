//! Exact complex numbers with rational components.
//!
//! A value is `(re + im*j) / den` over integers, with a single positive
//! denominator shared by the real and imaginary parts.  Arithmetic is
//! exact: each operation computes the numerators and denominator of the
//! textbook formula with checked 128-bit intermediates, divides the
//! result by the greatest common divisor of its three components, and
//! fails (returns `None`) only when an intermediate leaves the
//! representable range, or on division by zero.

use vstd::prelude::*;

use vstd::arithmetic::div_mod::{
    lemma_fundamental_div_mod, lemma_mod_multiples_basic, lemma_mod_self_0, lemma_small_mod,
};

verus! {

/// Mathematical model of a complex value with rational components:
/// the number `(re + im*j) / den` over unbounded integers.
pub ghost struct CplxV {
    pub re: int,
    pub im: int,
    pub den: int,
}

/// Sum of `a` and `b` over a common denominator.
pub open spec fn add_v(a: CplxV, b: CplxV) -> CplxV {
    CplxV {
        re: a.re * b.den + b.re * a.den,
        im: a.im * b.den + b.im * a.den,
        den: a.den * b.den,
    }
}

/// Product of `a` and `b`: `(ac - bd) + (ad + bc)j` over the product
/// of the denominators.
pub open spec fn mul_v(a: CplxV, b: CplxV) -> CplxV {
    CplxV {
        re: a.re * b.re - a.im * b.im,
        im: a.re * b.im + a.im * b.re,
        den: a.den * b.den,
    }
}

/// Quotient `a / b`, by multiplying with the conjugate of `b`:
/// `(x+yj)/e / ((c+dj)/f) = f*((xc+yd) + (yc-xd)j) / (e*(c^2+d^2))`.
pub open spec fn div_v(a: CplxV, b: CplxV) -> CplxV {
    CplxV {
        re: b.den * (a.re * b.re + a.im * b.im),
        im: b.den * (a.im * b.re - a.re * b.im),
        den: a.den * (b.re * b.re + b.im * b.im),
    }
}

/// The two values denote the same complex number: cross-multiplied
/// components agree (meaningful whenever both denominators are nonzero).
pub open spec fn eqv(a: CplxV, b: CplxV) -> bool {
    a.re * b.den == b.re * a.den && a.im * b.den == b.im * a.den
}

/// `x` is representable in a 128-bit component.
pub open spec fn in_rng(x: int) -> bool {
    i128::MIN as int <= x <= i128::MAX as int
}

/// `x` is representable and can also be negated (excludes `i128::MIN`).
pub open spec fn in_sym(x: int) -> bool {
    -(i128::MAX as int) <= x <= i128::MAX as int
}

/// Magnitude of `x`.
pub open spec fn abs_v(x: int) -> int {
    if x < 0 {
        -x
    } else {
        x
    }
}

/// Greatest common divisor of two nonnegative values, by Euclid.
pub open spec fn gcd_v(a: int, b: int) -> int
    decreases b,
{
    if b <= 0 {
        a
    } else {
        gcd_v(b, a % b)
    }
}

/// The common divisor that normalization removes from `v`.
pub open spec fn norm_gcd(v: CplxV) -> int {
    gcd_v(gcd_v(abs_v(v.re), abs_v(v.im)), abs_v(v.den))
}

/// `v` with all three components divided by their greatest common
/// divisor; the value denoted is unchanged.
pub open spec fn norm_v(v: CplxV) -> CplxV {
    let g = norm_gcd(v);
    if g <= 0 {
        v
    } else {
        CplxV {
            re: if v.re < 0 {
                -(abs_v(v.re) / g)
            } else {
                abs_v(v.re) / g
            },
            im: if v.im < 0 {
                -(abs_v(v.im) / g)
            } else {
                abs_v(v.im) / g
            },
            den: if v.den < 0 {
                -(abs_v(v.den) / g)
            } else {
                abs_v(v.den) / g
            },
        }
    }
}

/// The conjugate stage of division: `a / b` scaled by `b.den / a.den`.
pub open spec fn conj_quot_v(a: CplxV, b: CplxV) -> CplxV {
    CplxV {
        re: a.re * b.re + a.im * b.im,
        im: a.im * b.re - a.re * b.im,
        den: b.re * b.re + b.im * b.im,
    }
}

/// What division computes: the conjugate stage, normalized, rescaled by
/// the two outer denominators, and normalized again.
pub open spec fn div_steps_v(a: CplxV, b: CplxV) -> CplxV {
    let s = norm_v(conj_quot_v(a, b));
    norm_v(CplxV { re: b.den * s.re, im: b.den * s.im, den: a.den * s.den })
}

/// Every intermediate of the sum is representable.
pub open spec fn add_ok(a: CplxV, b: CplxV) -> bool {
    &&& in_rng(a.re * b.den)
    &&& in_rng(b.re * a.den)
    &&& in_sym(a.re * b.den + b.re * a.den)
    &&& in_rng(a.im * b.den)
    &&& in_rng(b.im * a.den)
    &&& in_sym(a.im * b.den + b.im * a.den)
    &&& in_rng(a.den * b.den)
}

/// Every intermediate of the product is representable.
pub open spec fn mul_ok(a: CplxV, b: CplxV) -> bool {
    &&& in_rng(a.re * b.re)
    &&& in_rng(a.im * b.im)
    &&& in_sym(a.re * b.re - a.im * b.im)
    &&& in_rng(a.re * b.im)
    &&& in_rng(a.im * b.re)
    &&& in_sym(a.re * b.im + a.im * b.re)
    &&& in_rng(a.den * b.den)
}

/// The divisor is not the complex zero and every intermediate of both
/// division stages is representable.
pub open spec fn div_ok(a: CplxV, b: CplxV) -> bool {
    &&& !(b.re == 0 && b.im == 0)
    &&& in_rng(a.re * b.re)
    &&& in_rng(a.im * b.im)
    &&& in_sym(a.re * b.re + a.im * b.im)
    &&& in_rng(a.im * b.re)
    &&& in_rng(a.re * b.im)
    &&& in_sym(a.im * b.re - a.re * b.im)
    &&& in_rng(b.re * b.re)
    &&& in_rng(b.im * b.im)
    &&& in_rng(b.re * b.re + b.im * b.im)
    &&& in_sym(b.den * norm_v(conj_quot_v(a, b)).re)
    &&& in_sym(b.den * norm_v(conj_quot_v(a, b)).im)
    &&& in_rng(a.den * norm_v(conj_quot_v(a, b)).den)
}

/// The value `(re + im*j) / den` with the denominator made positive.
pub open spec fn make_v(re: int, im: int, den: int) -> CplxV {
    if den < 0 {
        CplxV { re: -re, im: -im, den: -den }
    } else {
        CplxV { re, im, den }
    }
}

/// An exact complex impedance: `(re + im*j) / den`.
#[derive(Clone, Copy, Debug)]
pub struct Cplx {
    re: i128,
    im: i128,
    den: i128,
}

impl Cplx {
    #[verifier::type_invariant]
    spec fn inv(self) -> bool {
        i128::MIN < self.re && i128::MIN < self.im && 0 < self.den
    }
}

impl View for Cplx {
    type V = CplxV;

    closed spec fn view(&self) -> CplxV {
        CplxV { re: self.re as int, im: self.im as int, den: self.den as int }
    }
}

proof fn lemma_mul_pos(x: int, y: int)
    by (nonlinear_arith)
    requires
        1 <= x,
        1 <= y,
    ensures
        1 <= x * y,
{
}

proof fn lemma_norm_pos(c: int, d: int)
    by (nonlinear_arith)
    requires
        !(c == 0 && d == 0),
    ensures
        1 <= c * c + d * d,
{
}

proof fn lemma_gcd_properties(a: int, b: int)
    requires
        0 <= a,
        0 <= b,
        !(a == 0 && b == 0),
    ensures
        1 <= gcd_v(a, b),
        a % gcd_v(a, b) == 0,
        b % gcd_v(a, b) == 0,
    decreases b,
{
    if b == 0 {
        lemma_mod_self_0(a);
        lemma_small_mod(0, a as nat);
    } else {
        let r = a % b;
        lemma_gcd_properties(b, r);
        let g = gcd_v(b, r);
        let q = a / b;
        let b1 = b / g;
        let r1 = r / g;
        lemma_fundamental_div_mod(a, b);
        lemma_fundamental_div_mod(b, g);
        lemma_fundamental_div_mod(r, g);
        assert(a == (b1 * q + r1) * g) by (nonlinear_arith)
            requires
                a == b * q + r,
                b == g * b1,
                r == g * r1,
        ;
        lemma_mod_multiples_basic(b1 * q + r1, g);
    }
}

proof fn lemma_divides_trans(x: int, h: int, g: int)
    requires
        0 <= x,
        1 <= h,
        1 <= g,
        x % h == 0,
        h % g == 0,
    ensures
        x % g == 0,
{
    lemma_fundamental_div_mod(x, h);
    lemma_fundamental_div_mod(h, g);
    let x1 = x / h;
    let h1 = h / g;
    assert(x == (h1 * x1) * g) by (nonlinear_arith)
        requires
            x == h * x1,
            h == g * h1,
    ;
    lemma_mod_multiples_basic(h1 * x1, g);
}

proof fn lemma_div_exact(x: int, g: int)
    requires
        0 <= x,
        1 <= g,
        x % g == 0,
    ensures
        x == g * (x / g),
        0 <= x / g <= x,
        1 <= x ==> 1 <= x / g,
        x / g == 0 <==> x == 0,
{
    lemma_fundamental_div_mod(x, g);
    assert(0 <= x / g <= x && (1 <= x ==> 1 <= x / g) && (x / g == 0 <==> x == 0))
        by (nonlinear_arith)
        requires
            x == g * (x / g),
            1 <= g,
            0 <= x,
    ;
}

/// Normalization keeps the denoted value: `norm_v(v)` and `v` agree
/// under cross-multiplication, the denominator stays positive and does
/// not grow, magnitudes do not grow, and zero components stay zero.
pub proof fn lemma_norm_props(v: CplxV)
    requires
        1 <= v.den,
    ensures
        eqv(norm_v(v), v),
        1 <= norm_v(v).den <= v.den,
        abs_v(norm_v(v).re) <= abs_v(v.re),
        abs_v(norm_v(v).im) <= abs_v(v.im),
        norm_v(v).re == 0 <==> v.re == 0,
        norm_v(v).im == 0 <==> v.im == 0,
{
    let h = gcd_v(abs_v(v.re), abs_v(v.im));
    let g = norm_gcd(v);
    if abs_v(v.re) == 0 && abs_v(v.im) == 0 {
        lemma_gcd_properties(h, v.den);
        lemma_small_mod(0, g as nat);
    } else {
        lemma_gcd_properties(abs_v(v.re), abs_v(v.im));
        lemma_gcd_properties(h, v.den);
        lemma_divides_trans(abs_v(v.re), h, g);
        lemma_divides_trans(abs_v(v.im), h, g);
    }
    let qr = abs_v(v.re) / g;
    let qi = abs_v(v.im) / g;
    let qd = v.den / g;
    lemma_div_exact(abs_v(v.re), g);
    lemma_div_exact(abs_v(v.im), g);
    lemma_div_exact(v.den, g);
    if v.re < 0 {
        assert((-qr) * v.den == v.re * qd) by (nonlinear_arith)
            requires
                -v.re == g * qr,
                v.den == g * qd,
        ;
    } else {
        assert(qr * v.den == v.re * qd) by (nonlinear_arith)
            requires
                v.re == g * qr,
                v.den == g * qd,
        ;
    }
    if v.im < 0 {
        assert((-qi) * v.den == v.im * qd) by (nonlinear_arith)
            requires
                -v.im == g * qi,
                v.den == g * qd,
        ;
    } else {
        assert(qi * v.den == v.im * qd) by (nonlinear_arith)
            requires
                v.im == g * qi,
                v.den == g * qd,
        ;
    }
}

/// Denoting the same number is transitive across a value with a
/// nonzero denominator.
pub proof fn lemma_eqv_trans(a: CplxV, b: CplxV, c: CplxV)
    requires
        eqv(a, b),
        eqv(b, c),
        b.den != 0,
    ensures
        eqv(a, c),
{
    assert(a.re * c.den == c.re * a.den && a.im * c.den == c.im * a.den) by (nonlinear_arith)
        requires
            a.re * b.den == b.re * a.den,
            b.re * c.den == c.re * b.den,
            a.im * b.den == b.im * a.den,
            b.im * c.den == c.im * b.den,
            b.den != 0,
    ;
}

/// The two-stage, normalizing division denotes the same number as the
/// textbook quotient formula.
pub proof fn lemma_div_steps_eqv(a: CplxV, b: CplxV)
    requires
        1 <= a.den,
        1 <= b.den,
        !(b.re == 0 && b.im == 0),
    ensures
        eqv(div_steps_v(a, b), div_v(a, b)),
        1 <= div_steps_v(a, b).den,
{
    let q0 = conj_quot_v(a, b);
    lemma_norm_pos(b.re, b.im);
    lemma_norm_props(q0);
    let s = norm_v(q0);
    let scaled = CplxV { re: b.den * s.re, im: b.den * s.im, den: a.den * s.den };
    lemma_mul_pos(a.den, s.den);
    lemma_norm_props(scaled);
    assert((b.den * s.re) * (a.den * q0.den) == (b.den * q0.re) * (a.den * s.den))
        by (nonlinear_arith)
        requires
            s.re * q0.den == q0.re * s.den,
    ;
    assert((b.den * s.im) * (a.den * q0.den) == (b.den * q0.im) * (a.den * s.den))
        by (nonlinear_arith)
        requires
            s.im * q0.den == q0.im * s.den,
    ;
    lemma_eqv_trans(norm_v(scaled), scaled, div_v(a, b));
}

proof fn lemma_scale_cross(p: int, pp: int, xd: int, xxd: int, yd: int, n: int)
    by (nonlinear_arith)
    requires
        p * xxd == pp * xd,
    ensures
        (yd * p) * (xxd * n) == (yd * pp) * (xd * n),
{
}

/// The textbook quotient respects value equality of the dividend.
pub proof fn lemma_div_eqv_first(x: CplxV, xx: CplxV, y: CplxV)
    requires
        eqv(x, xx),
    ensures
        eqv(div_v(x, y), div_v(xx, y)),
{
    let p = x.re * y.re + x.im * y.im;
    let pp = xx.re * y.re + xx.im * y.im;
    let q = x.im * y.re - x.re * y.im;
    let qq = xx.im * y.re - xx.re * y.im;
    let n = y.re * y.re + y.im * y.im;
    assert((x.re * y.re + x.im * y.im) * xx.den == (x.re * xx.den) * y.re + (x.im * xx.den)
        * y.im) by (nonlinear_arith);
    assert((xx.re * y.re + xx.im * y.im) * x.den == (xx.re * x.den) * y.re + (xx.im * x.den)
        * y.im) by (nonlinear_arith);
    assert((x.im * y.re - x.re * y.im) * xx.den == (x.im * xx.den) * y.re - (x.re * xx.den)
        * y.im) by (nonlinear_arith);
    assert((xx.im * y.re - xx.re * y.im) * x.den == (xx.im * x.den) * y.re - (xx.re * x.den)
        * y.im) by (nonlinear_arith);
    assert(p * xx.den == pp * x.den);
    assert(q * xx.den == qq * x.den);
    lemma_scale_cross(p, pp, x.den, xx.den, y.den, n);
    lemma_scale_cross(q, qq, x.den, xx.den, y.den, n);
}

proof fn lemma_cross_cancel(p: int, py: int, n: int, nn: int, yd: int, yyd: int)
    requires
        p * yyd == py * yd,
        n * (yyd * yyd) == nn * (yd * yd),
        yd != 0,
        yyd != 0,
    ensures
        (yd * p) * nn == (yyd * py) * n,
{
    assert(((yd * p) * nn) * (yd * yyd) == (p * yyd) * (nn * (yd * yd))) by (nonlinear_arith);
    assert((p * yyd) * (nn * (yd * yd)) == (py * yd) * (n * (yyd * yyd)));
    assert((py * yd) * (n * (yyd * yyd)) == ((yyd * py) * n) * (yd * yyd)) by (nonlinear_arith);
    assert(yd * yyd != 0) by (nonlinear_arith)
        requires
            yd != 0,
            yyd != 0,
    ;
    assert((yd * p) * nn == (yyd * py) * n) by (nonlinear_arith)
        requires
            ((yd * p) * nn) * (yd * yyd) == ((yyd * py) * n) * (yd * yyd),
            yd * yyd != 0,
    ;
}

/// The textbook quotient respects value equality of the divisor.
pub proof fn lemma_div_eqv_second(x: CplxV, y: CplxV, yy: CplxV)
    requires
        eqv(y, yy),
        y.den != 0,
        yy.den != 0,
    ensures
        eqv(div_v(x, y), div_v(x, yy)),
{
    let p = x.re * y.re + x.im * y.im;
    let py = x.re * yy.re + x.im * yy.im;
    let q = x.im * y.re - x.re * y.im;
    let qy = x.im * yy.re - x.re * yy.im;
    let n = y.re * y.re + y.im * y.im;
    let nn = yy.re * yy.re + yy.im * yy.im;
    assert((x.re * y.re + x.im * y.im) * yy.den == x.re * (y.re * yy.den) + x.im * (y.im
        * yy.den)) by (nonlinear_arith);
    assert((x.re * yy.re + x.im * yy.im) * y.den == x.re * (yy.re * y.den) + x.im * (yy.im
        * y.den)) by (nonlinear_arith);
    assert((x.im * y.re - x.re * y.im) * yy.den == x.im * (y.re * yy.den) - x.re * (y.im
        * yy.den)) by (nonlinear_arith);
    assert((x.im * yy.re - x.re * yy.im) * y.den == x.im * (yy.re * y.den) - x.re * (yy.im
        * y.den)) by (nonlinear_arith);
    assert(p * yy.den == py * y.den);
    assert(q * yy.den == qy * y.den);
    assert((y.re * yy.den) * (y.re * yy.den) == (yy.re * y.den) * (yy.re * y.den));
    assert((y.im * yy.den) * (y.im * yy.den) == (yy.im * y.den) * (yy.im * y.den));
    assert(n * (yy.den * yy.den) == (y.re * yy.den) * (y.re * yy.den) + (y.im * yy.den) * (y.im
        * yy.den)) by (nonlinear_arith)
        requires
            n == y.re * y.re + y.im * y.im,
    ;
    assert(nn * (y.den * y.den) == (yy.re * y.den) * (yy.re * y.den) + (yy.im * y.den) * (yy.im
        * y.den)) by (nonlinear_arith)
        requires
            nn == yy.re * yy.re + yy.im * yy.im,
    ;
    assert(n * (yy.den * yy.den) == nn * (y.den * y.den));
    lemma_cross_cancel(p, py, n, nn, y.den, yy.den);
    lemma_cross_cancel(q, qy, n, nn, y.den, yy.den);
    assert((y.den * p) * (x.den * nn) == ((y.den * p) * nn) * x.den) by (nonlinear_arith);
    assert(((yy.den * py) * n) * x.den == (yy.den * py) * (x.den * n)) by (nonlinear_arith);
    assert((y.den * q) * (x.den * nn) == ((y.den * q) * nn) * x.den) by (nonlinear_arith);
    assert(((yy.den * qy) * n) * x.den == (yy.den * qy) * (x.den * n)) by (nonlinear_arith);
}

/// The textbook quotient respects value equality of both operands.
pub proof fn lemma_div_eqv_args(x: CplxV, xx: CplxV, y: CplxV, yy: CplxV)
    requires
        eqv(x, xx),
        eqv(y, yy),
        x.den != 0,
        xx.den != 0,
        y.den != 0,
        yy.den != 0,
        !(y.re == 0 && y.im == 0),
    ensures
        eqv(div_v(x, y), div_v(xx, yy)),
{
    lemma_div_eqv_first(x, xx, y);
    lemma_div_eqv_second(xx, y, yy);
    lemma_norm_pos(y.re, y.im);
    assert(div_v(xx, y).den != 0) by (nonlinear_arith)
        requires
            div_v(xx, y).den == xx.den * (y.re * y.re + y.im * y.im),
            xx.den != 0,
            1 <= y.re * y.re + y.im * y.im,
    ;
    lemma_eqv_trans(div_v(x, y), div_v(xx, y), div_v(xx, yy));
}

fn gcd(a: i128, b: i128) -> (r: i128)
    requires
        0 <= a,
        0 <= b,
    ensures
        r == gcd_v(a as int, b as int),
    decreases b,
{
    if b == 0 {
        a
    } else {
        gcd(b, a % b)
    }
}

/// The normalized value of the raw triple `(rr + ii*j) / dd`.
fn normalize(rr: i128, ii: i128, dd: i128) -> (r: Cplx)
    requires
        1 <= dd,
        -i128::MAX <= rr,
        -i128::MAX <= ii,
    ensures
        r@ == norm_v(CplxV { re: rr as int, im: ii as int, den: dd as int }),
        1 <= r@.den,
{
    let ghost v = CplxV { re: rr as int, im: ii as int, den: dd as int };
    let mr: i128 = if rr < 0 {
        -rr
    } else {
        rr
    };
    let mi: i128 = if ii < 0 {
        -ii
    } else {
        ii
    };
    let h: i128 = gcd(mr, mi);
    proof {
        if !(mr == 0 && mi == 0) {
            lemma_gcd_properties(mr as int, mi as int);
        }
    }
    let g: i128 = gcd(h, dd);
    proof {
        lemma_gcd_properties(h as int, dd as int);
        if mr == 0 && mi == 0 {
            lemma_small_mod(0, g as nat);
        } else {
            lemma_divides_trans(mr as int, h as int, g as int);
            lemma_divides_trans(mi as int, h as int, g as int);
        }
        lemma_div_exact(mr as int, g as int);
        lemma_div_exact(mi as int, g as int);
        lemma_div_exact(dd as int, g as int);
    }
    let qr: i128 = mr / g;
    let qi: i128 = mi / g;
    let qd: i128 = dd / g;
    let rn: i128 = if rr < 0 {
        -qr
    } else {
        qr
    };
    let in_: i128 = if ii < 0 {
        -qi
    } else {
        qi
    };
    Cplx { re: rn, im: in_, den: qd }
}

impl Cplx {
    /// The value `(re + im*j) / den`; `None` exactly when `den` is zero
    /// or a component cannot be safely negated (`i128::MIN`).
    pub fn new(re: i128, im: i128, den: i128) -> (r: Option<Cplx>)
        ensures
            r is Some <==> (den != 0 && re != i128::MIN && im != i128::MIN && den != i128::MIN),
            r matches Some(c) ==> c@ == make_v(re as int, im as int, den as int),
    {
        if den == 0 || re == i128::MIN || im == i128::MIN || den == i128::MIN {
            None
        } else if den < 0 {
            Some(Cplx { re: -re, im: -im, den: -den })
        } else {
            Some(Cplx { re, im, den })
        }
    }

    /// Real numerator; never `i128::MIN`.
    pub fn re_num(&self) -> (r: i128)
        ensures
            r as int == self@.re,
            i128::MIN < r,
    {
        proof {
            use_type_invariant(*self);
        }
        self.re
    }

    /// Imaginary numerator; never `i128::MIN`.
    pub fn im_num(&self) -> (r: i128)
        ensures
            r as int == self@.im,
            i128::MIN < r,
    {
        proof {
            use_type_invariant(*self);
        }
        self.im
    }

    /// Shared denominator; always positive.
    pub fn den(&self) -> (r: i128)
        ensures
            r as int == self@.den,
            1 <= r,
    {
        proof {
            use_type_invariant(*self);
        }
        self.den
    }

    /// The impedance as a plain numerator/denominator triple
    /// `(re, im, den)`, for callers outside the library.
    pub fn parts(&self) -> (r: (i128, i128, i128))
        ensures
            r.0 as int == self@.re,
            r.1 as int == self@.im,
            r.2 as int == self@.den,
    {
        (self.re, self.im, self.den)
    }

    /// Exact, normalized sum; `None` exactly when an intermediate of
    /// the sum is not representable.
    pub fn checked_add(self, other: Cplx) -> (r: Option<Cplx>)
        ensures
            r is Some <==> add_ok(self@, other@),
            r matches Some(c) ==> c@ == norm_v(add_v(self@, other@)) && eqv(
                c@,
                add_v(self@, other@),
            ) && 1 <= c@.den,
    {
        proof {
            use_type_invariant(self);
            use_type_invariant(other);
        }
        let t1: i128 = match self.re.checked_mul(other.den) {
            Some(v) => v,
            None => {
                return None;
            },
        };
        let t2: i128 = match other.re.checked_mul(self.den) {
            Some(v) => v,
            None => {
                return None;
            },
        };
        let rr: i128 = match t1.checked_add(t2) {
            Some(v) => v,
            None => {
                return None;
            },
        };
        if rr == i128::MIN {
            return None;
        }
        let t3: i128 = match self.im.checked_mul(other.den) {
            Some(v) => v,
            None => {
                return None;
            },
        };
        let t4: i128 = match other.im.checked_mul(self.den) {
            Some(v) => v,
            None => {
                return None;
            },
        };
        let ii: i128 = match t3.checked_add(t4) {
            Some(v) => v,
            None => {
                return None;
            },
        };
        if ii == i128::MIN {
            return None;
        }
        let dd: i128 = match self.den.checked_mul(other.den) {
            Some(v) => v,
            None => {
                return None;
            },
        };
        proof {
            lemma_mul_pos(self.den as int, other.den as int);
            lemma_norm_props(add_v(self@, other@));
        }
        Some(normalize(rr, ii, dd))
    }

    /// Exact, normalized product; `None` exactly when an intermediate
    /// of the product is not representable.
    pub fn checked_mul(self, other: Cplx) -> (r: Option<Cplx>)
        ensures
            r is Some <==> mul_ok(self@, other@),
            r matches Some(c) ==> c@ == norm_v(mul_v(self@, other@)) && eqv(
                c@,
                mul_v(self@, other@),
            ) && 1 <= c@.den,
    {
        proof {
            use_type_invariant(self);
            use_type_invariant(other);
        }
        let t1: i128 = match self.re.checked_mul(other.re) {
            Some(v) => v,
            None => {
                return None;
            },
        };
        let t2: i128 = match self.im.checked_mul(other.im) {
            Some(v) => v,
            None => {
                return None;
            },
        };
        let rr: i128 = match t1.checked_sub(t2) {
            Some(v) => v,
            None => {
                return None;
            },
        };
        if rr == i128::MIN {
            return None;
        }
        let t3: i128 = match self.re.checked_mul(other.im) {
            Some(v) => v,
            None => {
                return None;
            },
        };
        let t4: i128 = match self.im.checked_mul(other.re) {
            Some(v) => v,
            None => {
                return None;
            },
        };
        let ii: i128 = match t3.checked_add(t4) {
            Some(v) => v,
            None => {
                return None;
            },
        };
        if ii == i128::MIN {
            return None;
        }
        let dd: i128 = match self.den.checked_mul(other.den) {
            Some(v) => v,
            None => {
                return None;
            },
        };
        proof {
            lemma_mul_pos(self.den as int, other.den as int);
            lemma_norm_props(mul_v(self@, other@));
        }
        Some(normalize(rr, ii, dd))
    }

    /// Exact, normalized quotient; `None` exactly when the divisor is
    /// the complex zero or an intermediate of either division stage is
    /// not representable.
    pub fn checked_div(self, other: Cplx) -> (r: Option<Cplx>)
        ensures
            r is Some <==> div_ok(self@, other@),
            r matches Some(c) ==> c@ == div_steps_v(self@, other@) && eqv(
                c@,
                div_v(self@, other@),
            ) && 1 <= c@.den,
    {
        proof {
            use_type_invariant(self);
            use_type_invariant(other);
        }
        if other.re == 0 && other.im == 0 {
            return None;
        }
        let p1: i128 = match self.re.checked_mul(other.re) {
            Some(v) => v,
            None => {
                return None;
            },
        };
        let p2: i128 = match self.im.checked_mul(other.im) {
            Some(v) => v,
            None => {
                return None;
            },
        };
        let tre: i128 = match p1.checked_add(p2) {
            Some(v) => v,
            None => {
                return None;
            },
        };
        if tre == i128::MIN {
            return None;
        }
        let p3: i128 = match self.im.checked_mul(other.re) {
            Some(v) => v,
            None => {
                return None;
            },
        };
        let p4: i128 = match self.re.checked_mul(other.im) {
            Some(v) => v,
            None => {
                return None;
            },
        };
        let tim: i128 = match p3.checked_sub(p4) {
            Some(v) => v,
            None => {
                return None;
            },
        };
        if tim == i128::MIN {
            return None;
        }
        let q1: i128 = match other.re.checked_mul(other.re) {
            Some(v) => v,
            None => {
                return None;
            },
        };
        let q2: i128 = match other.im.checked_mul(other.im) {
            Some(v) => v,
            None => {
                return None;
            },
        };
        let nrm: i128 = match q1.checked_add(q2) {
            Some(v) => v,
            None => {
                return None;
            },
        };
        proof {
            lemma_norm_pos(other.re as int, other.im as int);
        }
        let s: Cplx = normalize(tre, tim, nrm);
        proof {
            use_type_invariant(s);
        }
        let rr: i128 = match other.den.checked_mul(s.re) {
            Some(v) => v,
            None => {
                return None;
            },
        };
        if rr == i128::MIN {
            return None;
        }
        let ii: i128 = match other.den.checked_mul(s.im) {
            Some(v) => v,
            None => {
                return None;
            },
        };
        if ii == i128::MIN {
            return None;
        }
        let dd: i128 = match self.den.checked_mul(s.den) {
            Some(v) => v,
            None => {
                return None;
            },
        };
        proof {
            lemma_mul_pos(self.den as int, s.den as int);
            lemma_div_steps_eqv(self@, other@);
        }
        Some(normalize(rr, ii, dd))
    }

    /// The two impedances denote the same complex number.
    pub fn equiv(&self, other: &Cplx) -> (r: bool)
        requires
            in_rng(self@.re * other@.den),
            in_rng(other@.re * self@.den),
            in_rng(self@.im * other@.den),
            in_rng(other@.im * self@.den),
        ensures
            r == eqv(self@, other@),
    {
        self.re * other.den == other.re * self.den && self.im * other.den == other.im * self.den
    }
}

proof fn lemma_conj_after_mul_re(a: int, b: int, c: int, d: int, e: int)
    by (nonlinear_arith)
    ensures
        e * ((a * c - b * d) * c + (a * d + b * c) * d) == e * (a * (c * c + d * d)),
{
}

proof fn lemma_conj_after_mul_im(a: int, b: int, c: int, d: int, e: int)
    by (nonlinear_arith)
    ensures
        e * ((a * d + b * c) * c - (a * c - b * d) * d) == e * (b * (c * c + d * d)),
{
}

proof fn lemma_mul_after_conj_re(a: int, b: int, c: int, d: int, e: int)
    ensures
        (e * (a * c + b * d)) * c - (e * (b * c - a * d)) * d == e * (a * (c * c + d * d)),
{
    let p = a * c + b * d;
    let m = b * c - a * d;
    assert((e * p) * c - (e * m) * d == e * (p * c - m * d)) by (nonlinear_arith);
    assert(p * c - m * d == a * (c * c + d * d)) by (nonlinear_arith)
        requires
            p == a * c + b * d,
            m == b * c - a * d,
    ;
}

proof fn lemma_mul_after_conj_im(a: int, b: int, c: int, d: int, e: int)
    ensures
        (e * (a * c + b * d)) * d + (e * (b * c - a * d)) * c == e * (b * (c * c + d * d)),
{
    let p = a * c + b * d;
    let m = b * c - a * d;
    assert((e * p) * d + (e * m) * c == e * (p * d + m * c)) by (nonlinear_arith);
    assert(p * d + m * c == b * (c * c + d * d)) by (nonlinear_arith)
        requires
            p == a * c + b * d,
            m == b * c - a * d,
    ;
}

proof fn lemma_cross_scaled(x: int, k: int, e: int, n2: int)
    by (nonlinear_arith)
    ensures
        (e * (x * n2)) * k == x * ((k * e) * n2),
        (e * (x * n2)) * k == x * ((k * n2) * e),
{
}

/// Ohm's law round trip, current first: for any impedance `z` that is
/// not the complex zero and any current `i`, dividing the voltage
/// `i * z` by `z` again denotes the current `i`.
pub proof fn lemma_ohm_round_trip(i: CplxV, z: CplxV)
    requires
        i.den != 0,
        z.den != 0,
        !(z.re == 0 && z.im == 0),
    ensures
        eqv(div_v(mul_v(i, z), z), i),
{
    let n2 = z.re * z.re + z.im * z.im;
    let q = div_v(mul_v(i, z), z);
    lemma_conj_after_mul_re(i.re, i.im, z.re, z.im, z.den);
    lemma_conj_after_mul_im(i.re, i.im, z.re, z.im, z.den);
    assert(q.re == z.den * (i.re * n2));
    assert(q.im == z.den * (i.im * n2));
    assert(q.den == (i.den * z.den) * n2);
    lemma_cross_scaled(i.re, i.den, z.den, n2);
    lemma_cross_scaled(i.im, i.den, z.den, n2);
}

/// Ohm's law round trip, voltage first: for any impedance `z` that is
/// not the complex zero and any voltage `v`, multiplying the current
/// `v / z` by `z` again denotes the voltage `v`.
pub proof fn lemma_ohm_round_trip_voltage(v: CplxV, z: CplxV)
    requires
        v.den != 0,
        z.den != 0,
        !(z.re == 0 && z.im == 0),
    ensures
        eqv(mul_v(div_v(v, z), z), v),
{
    let n2 = z.re * z.re + z.im * z.im;
    let q = mul_v(div_v(v, z), z);
    lemma_mul_after_conj_re(v.re, v.im, z.re, z.im, z.den);
    lemma_mul_after_conj_im(v.re, v.im, z.re, z.im, z.den);
    assert(q.re == z.den * (v.re * n2));
    assert(q.im == z.den * (v.im * n2));
    assert(q.den == (v.den * n2) * z.den);
    lemma_cross_scaled(v.re, v.den, z.den, n2);
    lemma_cross_scaled(v.im, v.den, z.den, n2);
}

/// Ohm's law round trip over returned values: if `v` denotes `i * z`
/// and `i2` denotes `v / z`, then `i2` denotes the original current `i`.
pub proof fn lemma_ohm_round_trip_results(i: CplxV, z: CplxV, v: CplxV, i2: CplxV)
    requires
        eqv(v, mul_v(i, z)),
        eqv(i2, div_v(v, z)),
        1 <= i.den,
        1 <= z.den,
        1 <= v.den,
        !(z.re == 0 && z.im == 0),
    ensures
        eqv(i2, i),
{
    lemma_div_eqv_first(v, mul_v(i, z), z);
    lemma_ohm_round_trip(i, z);
    lemma_norm_pos(z.re, z.im);
    assert(div_v(v, z).den != 0) by (nonlinear_arith)
        requires
            div_v(v, z).den == v.den * (z.re * z.re + z.im * z.im),
            1 <= v.den,
            1 <= z.re * z.re + z.im * z.im,
    ;
    assert(div_v(mul_v(i, z), z).den != 0) by (nonlinear_arith)
        requires
            div_v(mul_v(i, z), z).den == (i.den * z.den) * (z.re * z.re + z.im * z.im),
            1 <= i.den,
            1 <= z.den,
            1 <= z.re * z.re + z.im * z.im,
    ;
    lemma_eqv_trans(i2, div_v(v, z), div_v(mul_v(i, z), z));
    lemma_eqv_trans(i2, div_v(mul_v(i, z), z), i);
}

} // verus!
