//! Exact complex amplitudes.
//!
//! Every amplitude that the engines produce lies in the ring of integer
//! combinations of the eighth roots of unity: a value `a + b*w + c*w^2 + d*w^3`
//! with `w = e^{i*pi/4}`, so `w^2 = i` and `w^4 = -1`.  Powers of `1/sqrt(2)`
//! are tracked separately by the engines as a global exponent, so a single
//! `Amplitude` is just the four integer coefficients.  All operations are
//! exact; an operation whose result would leave the `i64` coefficient range
//! reports that by returning `None` instead of wrapping or panicking.
//!
//! The squared magnitude of an amplitude is `z * conj(z) = p + q*sqrt(2)`
//! with integer `p` and `q`; the engines build their probability reports
//! from those two integers.

use vstd::prelude::*;

verus! {

/// Coefficient bound under which products and squared magnitudes are
/// computed without intermediate overflow: 2^62.
pub const COEF_LIMIT: i64 = 0x4000_0000_0000_0000;

/// An exact amplitude `a + b*w + c*w^2 + d*w^3`, `w = e^{i*pi/4}`.
#[derive(Clone, Copy, Debug, PartialEq, Eq, Structural)]
pub struct Amplitude {
    pub a: i64,
    pub b: i64,
    pub c: i64,
    pub d: i64,
}

/// A value `w1 + w2*sqrt(2)`; squared magnitudes take this form.
#[derive(Clone, Copy, Debug, PartialEq, Eq, Structural)]
pub struct Weight {
    pub w1: i128,
    pub w2: i128,
}

/// `v` fits the `i64` range.
pub open spec fn in64(v: int) -> bool {
    i64::MIN <= v <= i64::MAX
}

/// All four coefficients are at most `COEF_LIMIT` in magnitude.
pub open spec fn small(z: Amplitude) -> bool {
    &&& -COEF_LIMIT <= z.a <= COEF_LIMIT
    &&& -COEF_LIMIT <= z.b <= COEF_LIMIT
    &&& -COEF_LIMIT <= z.c <= COEF_LIMIT
    &&& -COEF_LIMIT <= z.d <= COEF_LIMIT
}

/// Coefficient of `1` in `x * y`, as an unbounded integer.
pub open spec fn mul_a(x: Amplitude, y: Amplitude) -> int {
    x.a * y.a - x.b * y.d - x.c * y.c - x.d * y.b
}

/// Coefficient of `w` in `x * y`.
pub open spec fn mul_b(x: Amplitude, y: Amplitude) -> int {
    x.a * y.b + x.b * y.a - x.c * y.d - x.d * y.c
}

/// Coefficient of `w^2` in `x * y`.
pub open spec fn mul_c(x: Amplitude, y: Amplitude) -> int {
    x.a * y.c + x.b * y.b + x.c * y.a - x.d * y.d
}

/// Coefficient of `w^3` in `x * y`.
pub open spec fn mul_d(x: Amplitude, y: Amplitude) -> int {
    x.a * y.d + x.b * y.c + x.c * y.b + x.d * y.a
}

/// The exact product of `x` and `y` stays representable: both factors
/// are `small` and all four product coefficients fit `i64`.
pub open spec fn mul_ok(x: Amplitude, y: Amplitude) -> bool {
    &&& small(x) && small(y)
    &&& in64(mul_a(x, y)) && in64(mul_b(x, y)) && in64(mul_c(x, y)) && in64(mul_d(x, y))
}

/// Integer part of the squared magnitude `z * conj(z)`.
pub open spec fn mag2_p(z: Amplitude) -> int {
    z.a * z.a + z.b * z.b + z.c * z.c + z.d * z.d
}

/// `sqrt(2)` part of the squared magnitude `z * conj(z)`.
pub open spec fn mag2_q(z: Amplitude) -> int {
    z.a * z.b + z.b * z.c + z.c * z.d - z.d * z.a
}

impl Amplitude {
    /// The amplitude with the given root-of-unity coefficients.
    pub fn new(a: i64, b: i64, c: i64, d: i64) -> (r: Amplitude)
        ensures
            r == (Amplitude { a, b, c, d }),
    {
        Amplitude { a, b, c, d }
    }

    /// The amplitude with integer real part `re` and imaginary part `im`.
    pub fn from_re_im(re: i64, im: i64) -> (r: Amplitude)
        ensures
            r == (Amplitude { a: re, b: 0i64, c: im, d: 0i64 }),
    {
        Amplitude { a: re, b: 0, c: im, d: 0 }
    }

    /// The zero amplitude.
    pub fn zero() -> (r: Amplitude)
        ensures
            r == (Amplitude { a: 0i64, b: 0i64, c: 0i64, d: 0i64 }),
    {
        Amplitude { a: 0, b: 0, c: 0, d: 0 }
    }

    /// The unit amplitude `1`.
    pub fn one() -> (r: Amplitude)
        ensures
            r == (Amplitude { a: 1i64, b: 0i64, c: 0i64, d: 0i64 }),
    {
        Amplitude { a: 1, b: 0, c: 0, d: 0 }
    }

    /// Exact sum; `None` exactly when a coefficient of the sum leaves `i64`.
    pub fn add(&self, other: &Amplitude) -> (r: Option<Amplitude>)
        ensures
            r is Some <==> in64(self.a + other.a) && in64(self.b + other.b) && in64(
                self.c + other.c,
            ) && in64(self.d + other.d),
            r is Some ==> r->0 == (Amplitude {
                a: (self.a + other.a) as i64,
                b: (self.b + other.b) as i64,
                c: (self.c + other.c) as i64,
                d: (self.d + other.d) as i64,
            }),
    {
        match (
            self.a.checked_add(other.a),
            self.b.checked_add(other.b),
            self.c.checked_add(other.c),
            self.d.checked_add(other.d),
        ) {
            (Some(a), Some(b), Some(c), Some(d)) => Some(Amplitude { a, b, c, d }),
            _ => None,
        }
    }

    /// Exact difference; `None` exactly when a coefficient leaves `i64`.
    pub fn sub(&self, other: &Amplitude) -> (r: Option<Amplitude>)
        ensures
            r is Some <==> in64(self.a - other.a) && in64(self.b - other.b) && in64(
                self.c - other.c,
            ) && in64(self.d - other.d),
            r is Some ==> r->0 == (Amplitude {
                a: (self.a - other.a) as i64,
                b: (self.b - other.b) as i64,
                c: (self.c - other.c) as i64,
                d: (self.d - other.d) as i64,
            }),
    {
        match (
            self.a.checked_sub(other.a),
            self.b.checked_sub(other.b),
            self.c.checked_sub(other.c),
            self.d.checked_sub(other.d),
        ) {
            (Some(a), Some(b), Some(c), Some(d)) => Some(Amplitude { a, b, c, d }),
            _ => None,
        }
    }

    /// Exact negation; `None` exactly when a coefficient is `i64::MIN`.
    pub fn neg(&self) -> (r: Option<Amplitude>)
        ensures
            r is Some <==> in64(-self.a) && in64(-self.b) && in64(-self.c) && in64(-self.d),
            r is Some ==> r->0 == (Amplitude {
                a: (-self.a) as i64,
                b: (-self.b) as i64,
                c: (-self.c) as i64,
                d: (-self.d) as i64,
            }),
    {
        match (
            (0i64).checked_sub(self.a),
            (0i64).checked_sub(self.b),
            (0i64).checked_sub(self.c),
            (0i64).checked_sub(self.d),
        ) {
            (Some(a), Some(b), Some(c), Some(d)) => Some(Amplitude { a, b, c, d }),
            _ => None,
        }
    }

    /// Exact complex conjugate `a - d*w - c*w^2 - b*w^3`.
    pub fn conj(&self) -> (r: Option<Amplitude>)
        ensures
            r is Some <==> in64(-self.d) && in64(-self.c) && in64(-self.b),
            r is Some ==> r->0 == (Amplitude {
                a: self.a,
                b: (-self.d) as i64,
                c: (-self.c) as i64,
                d: (-self.b) as i64,
            }),
    {
        match ((0i64).checked_sub(self.d), (0i64).checked_sub(self.c), (0i64).checked_sub(self.b)) {
            (Some(b), Some(c), Some(d)) => Some(Amplitude { a: self.a, b, c, d }),
            _ => None,
        }
    }

    /// Exact product of `self` by `sqrt(2) = w - w^3`.
    pub fn times_sqrt2(&self) -> (r: Option<Amplitude>)
        ensures
            r is Some <==> in64(self.b - self.d) && in64(self.a + self.c) && in64(
                self.b + self.d,
            ) && in64(self.c - self.a),
            r is Some ==> r->0 == (Amplitude {
                a: (self.b - self.d) as i64,
                b: (self.a + self.c) as i64,
                c: (self.b + self.d) as i64,
                d: (self.c - self.a) as i64,
            }),
    {
        match (
            self.b.checked_sub(self.d),
            self.a.checked_add(self.c),
            self.b.checked_add(self.d),
            self.c.checked_sub(self.a),
        ) {
            (Some(a), Some(b), Some(c), Some(d)) => Some(Amplitude { a, b, c, d }),
            _ => None,
        }
    }

    /// Exact product.  Succeeds exactly when both factors are `small` and
    /// all four product coefficients fit `i64`.
    pub fn mul(&self, other: &Amplitude) -> (r: Option<Amplitude>)
        ensures
            r is Some <==> small(*self) && small(*other) && in64(mul_a(*self, *other)) && in64(
                mul_b(*self, *other),
            ) && in64(mul_c(*self, *other)) && in64(mul_d(*self, *other)),
            r is Some ==> r->0 == (Amplitude {
                a: mul_a(*self, *other) as i64,
                b: mul_b(*self, *other) as i64,
                c: mul_c(*self, *other) as i64,
                d: mul_d(*self, *other) as i64,
            }),
    {
        if !(-COEF_LIMIT <= self.a && self.a <= COEF_LIMIT && -COEF_LIMIT <= self.b && self.b
            <= COEF_LIMIT && -COEF_LIMIT <= self.c && self.c <= COEF_LIMIT && -COEF_LIMIT <= self.d
            && self.d <= COEF_LIMIT) {
            return None;
        }
        if !(-COEF_LIMIT <= other.a && other.a <= COEF_LIMIT && -COEF_LIMIT <= other.b && other.b
            <= COEF_LIMIT && -COEF_LIMIT <= other.c && other.c <= COEF_LIMIT && -COEF_LIMIT
            <= other.d && other.d <= COEF_LIMIT) {
            return None;
        }
        let x1 = self.a as i128;
        let x2 = self.b as i128;
        let x3 = self.c as i128;
        let x4 = self.d as i128;
        let y1 = other.a as i128;
        let y2 = other.b as i128;
        let y3 = other.c as i128;
        let y4 = other.d as i128;
        proof {
            lemma_bounded_products(x1, x2, x3, x4, y1, y2, y3, y4);
        }
        let ra = x1 * y1 - x2 * y4 - x3 * y3 - x4 * y2;
        let rb = x1 * y2 + x2 * y1 - x3 * y4 - x4 * y3;
        let rc = x1 * y3 + x2 * y2 + x3 * y1 - x4 * y4;
        let rd = x1 * y4 + x2 * y3 + x3 * y2 + x4 * y1;
        let lo = i64::MIN as i128;
        let hi = i64::MAX as i128;
        if lo <= ra && ra <= hi && lo <= rb && rb <= hi && lo <= rc && rc <= hi && lo <= rd && rd
            <= hi {
            Some(Amplitude { a: ra as i64, b: rb as i64, c: rc as i64, d: rd as i64 })
        } else {
            None
        }
    }

    /// Exact squared magnitude `self * conj(self) = w1 + w2*sqrt(2)`.
    /// Succeeds exactly when `self` is `small`.
    pub fn magnitude2(&self) -> (r: Option<Weight>)
        ensures
            r is Some <==> small(*self),
            r is Some ==> r->0 == (Weight {
                w1: mag2_p(*self) as i128,
                w2: mag2_q(*self) as i128,
            }),
    {
        if !(-COEF_LIMIT <= self.a && self.a <= COEF_LIMIT && -COEF_LIMIT <= self.b && self.b
            <= COEF_LIMIT && -COEF_LIMIT <= self.c && self.c <= COEF_LIMIT && -COEF_LIMIT <= self.d
            && self.d <= COEF_LIMIT) {
            return None;
        }
        let x1 = self.a as i128;
        let x2 = self.b as i128;
        let x3 = self.c as i128;
        let x4 = self.d as i128;
        proof {
            lemma_bounded_products(x1, x2, x3, x4, x1, x2, x3, x4);
        }
        let p = x1 * x1 + x2 * x2 + x3 * x3 + x4 * x4;
        let q = x1 * x2 + x2 * x3 + x3 * x4 - x4 * x1;
        Some(Weight { w1: p, w2: q })
    }
}

/// The exact real number `dp + dq*sqrt(2)` is nonnegative, written
/// without irrationals: both parts nonnegative, or the one negative
/// part dominated in square by the other.
pub open spec fn sqrt2_nonneg(dp: int, dq: int) -> bool {
    if dp >= 0 && dq >= 0 {
        true
    } else if dp < 0 && dq < 0 {
        false
    } else if dp < 0 {
        2 * dq * dq >= dp * dp
    } else {
        dp * dp >= 2 * dq * dq
    }
}

/// A squared magnitude is a nonnegative real: its integer part is a sum
/// of squares, and `p*p - 2*q*q` is itself a sum of squares
/// (`p - q*sqrt(2)` is the squared magnitude of the conjugate embedding
/// `w -> w^3`), so `p + q*sqrt(2) >= 0` holds exactly.
pub proof fn lemma_mag2_nonneg(z: Amplitude)
    ensures
        mag2_p(z) >= 0,
        sqrt2_nonneg(mag2_p(z), mag2_q(z)),
{
    let a = z.a as int;
    let b = z.b as int;
    let c = z.c as int;
    let d = z.d as int;
    let p = mag2_p(z);
    let q = mag2_q(z);
    let aa = a * a;
    let bb = b * b;
    let cc = c * c;
    let dd = d * d;
    let ab = a * b;
    let ad = a * d;
    let bc = b * c;
    let cd = c * d;
    assert(p == a * a + b * b + c * c + d * d);
    assert(q == a * b + b * c + c * d - d * a);
    assert(p == aa + bb + cc + dd);
    assert(q == ab + bc + cd - ad) by (nonlinear_arith)
        requires
            q == a * b + b * c + c * d - d * a,
            ab == a * b,
            bc == b * c,
            cd == c * d,
            ad == a * d,
    ;
    assert(aa >= 0 && bb >= 0 && cc >= 0 && dd >= 0) by (nonlinear_arith)
        requires
            aa == a * a,
            bb == b * b,
            cc == c * c,
            dd == d * d,
    ;
    assert(p >= 0);
    if q < 0 {
        let t1 = aa - bb + cc - dd;
        let t2 = ab + ad - bc + cd;
        assert(p * p == aa * aa + bb * bb + cc * cc + dd * dd + 2 * (aa * bb) + 2 * (aa * cc) + 2
            * (aa * dd) + 2 * (bb * cc) + 2 * (bb * dd) + 2 * (cc * dd)) by (nonlinear_arith)
            requires
                p == aa + bb + cc + dd,
        ;
        assert(q * q == ab * ab + bc * bc + cd * cd + ad * ad + 2 * (ab * bc) + 2 * (ab * cd) - 2
            * (ab * ad) + 2 * (bc * cd) - 2 * (bc * ad) - 2 * (cd * ad)) by (nonlinear_arith)
            requires
                q == ab + bc + cd - ad,
        ;
        assert(t1 * t1 == aa * aa + bb * bb + cc * cc + dd * dd - 2 * (aa * bb) + 2 * (aa * cc) - 2
            * (aa * dd) - 2 * (bb * cc) + 2 * (bb * dd) - 2 * (cc * dd)) by (nonlinear_arith)
            requires
                t1 == aa - bb + cc - dd,
        ;
        assert(t2 * t2 == ab * ab + ad * ad + bc * bc + cd * cd + 2 * (ab * ad) - 2 * (ab * bc) + 2
            * (ab * cd) - 2 * (ad * bc) + 2 * (ad * cd) - 2 * (bc * cd)) by (nonlinear_arith)
            requires
                t2 == ab + ad - bc + cd,
        ;
        assert(aa * bb == ab * ab) by (nonlinear_arith)
            requires
                aa == a * a,
                bb == b * b,
                ab == a * b,
        ;
        assert(aa * dd == ad * ad) by (nonlinear_arith)
            requires
                aa == a * a,
                dd == d * d,
                ad == a * d,
        ;
        assert(bb * cc == bc * bc) by (nonlinear_arith)
            requires
                bb == b * b,
                cc == c * c,
                bc == b * c,
        ;
        assert(cc * dd == cd * cd) by (nonlinear_arith)
            requires
                cc == c * c,
                dd == d * d,
                cd == c * d,
        ;
        assert(ab * cd == ad * bc) by (nonlinear_arith)
            requires
                ab == a * b,
                cd == c * d,
                ad == a * d,
                bc == b * c,
        ;
        assert(bc * ad == ad * bc && cd * ad == ad * cd);
        assert(p * p - 2 * (q * q) == t1 * t1 + 2 * (t2 * t2));
        assert(t1 * t1 >= 0) by (nonlinear_arith);
        assert(t2 * t2 >= 0) by (nonlinear_arith);
        assert(p * p >= 2 * (q * q));
        assert(2 * q * q == 2 * (q * q)) by (nonlinear_arith);
        assert(sqrt2_nonneg(p, q));
    }
}

/// Products of coefficients bounded by `COEF_LIMIT` stay far inside `i128`.
pub proof fn lemma_bounded_products(
    x1: i128,
    x2: i128,
    x3: i128,
    x4: i128,
    y1: i128,
    y2: i128,
    y3: i128,
    y4: i128,
)
    requires
        -COEF_LIMIT <= x1 <= COEF_LIMIT,
        -COEF_LIMIT <= x2 <= COEF_LIMIT,
        -COEF_LIMIT <= x3 <= COEF_LIMIT,
        -COEF_LIMIT <= x4 <= COEF_LIMIT,
        -COEF_LIMIT <= y1 <= COEF_LIMIT,
        -COEF_LIMIT <= y2 <= COEF_LIMIT,
        -COEF_LIMIT <= y3 <= COEF_LIMIT,
        -COEF_LIMIT <= y4 <= COEF_LIMIT,
    ensures
        -(0x1000_0000_0000_0000_0000_0000_0000_0000int) <= x1 * y1
            <= 0x1000_0000_0000_0000_0000_0000_0000_0000int,
        -(0x1000_0000_0000_0000_0000_0000_0000_0000int) <= x1 * y2
            <= 0x1000_0000_0000_0000_0000_0000_0000_0000int,
        -(0x1000_0000_0000_0000_0000_0000_0000_0000int) <= x1 * y3
            <= 0x1000_0000_0000_0000_0000_0000_0000_0000int,
        -(0x1000_0000_0000_0000_0000_0000_0000_0000int) <= x1 * y4
            <= 0x1000_0000_0000_0000_0000_0000_0000_0000int,
        -(0x1000_0000_0000_0000_0000_0000_0000_0000int) <= x2 * y1
            <= 0x1000_0000_0000_0000_0000_0000_0000_0000int,
        -(0x1000_0000_0000_0000_0000_0000_0000_0000int) <= x2 * y2
            <= 0x1000_0000_0000_0000_0000_0000_0000_0000int,
        -(0x1000_0000_0000_0000_0000_0000_0000_0000int) <= x2 * y3
            <= 0x1000_0000_0000_0000_0000_0000_0000_0000int,
        -(0x1000_0000_0000_0000_0000_0000_0000_0000int) <= x2 * y4
            <= 0x1000_0000_0000_0000_0000_0000_0000_0000int,
        -(0x1000_0000_0000_0000_0000_0000_0000_0000int) <= x3 * y1
            <= 0x1000_0000_0000_0000_0000_0000_0000_0000int,
        -(0x1000_0000_0000_0000_0000_0000_0000_0000int) <= x3 * y2
            <= 0x1000_0000_0000_0000_0000_0000_0000_0000int,
        -(0x1000_0000_0000_0000_0000_0000_0000_0000int) <= x3 * y3
            <= 0x1000_0000_0000_0000_0000_0000_0000_0000int,
        -(0x1000_0000_0000_0000_0000_0000_0000_0000int) <= x3 * y4
            <= 0x1000_0000_0000_0000_0000_0000_0000_0000int,
        -(0x1000_0000_0000_0000_0000_0000_0000_0000int) <= x4 * y1
            <= 0x1000_0000_0000_0000_0000_0000_0000_0000int,
        -(0x1000_0000_0000_0000_0000_0000_0000_0000int) <= x4 * y2
            <= 0x1000_0000_0000_0000_0000_0000_0000_0000int,
        -(0x1000_0000_0000_0000_0000_0000_0000_0000int) <= x4 * y3
            <= 0x1000_0000_0000_0000_0000_0000_0000_0000int,
        -(0x1000_0000_0000_0000_0000_0000_0000_0000int) <= x4 * y4
            <= 0x1000_0000_0000_0000_0000_0000_0000_0000int,
{
    lemma_one_product(x1, y1);
    lemma_one_product(x1, y2);
    lemma_one_product(x1, y3);
    lemma_one_product(x1, y4);
    lemma_one_product(x2, y1);
    lemma_one_product(x2, y2);
    lemma_one_product(x2, y3);
    lemma_one_product(x2, y4);
    lemma_one_product(x3, y1);
    lemma_one_product(x3, y2);
    lemma_one_product(x3, y3);
    lemma_one_product(x3, y4);
    lemma_one_product(x4, y1);
    lemma_one_product(x4, y2);
    lemma_one_product(x4, y3);
    lemma_one_product(x4, y4);
}

proof fn lemma_one_product(x: i128, y: i128)
    requires
        -COEF_LIMIT <= x <= COEF_LIMIT,
        -COEF_LIMIT <= y <= COEF_LIMIT,
    ensures
        -(0x1000_0000_0000_0000_0000_0000_0000_0000int) <= x * y
            <= 0x1000_0000_0000_0000_0000_0000_0000_0000int,
{
    assert(-COEF_LIMIT <= x <= COEF_LIMIT && -COEF_LIMIT <= y <= COEF_LIMIT ==> -(
    0x1000_0000_0000_0000_0000_0000_0000_0000int) <= x * y
        <= 0x1000_0000_0000_0000_0000_0000_0000_0000int) by (nonlinear_arith);
}

} // verus!
