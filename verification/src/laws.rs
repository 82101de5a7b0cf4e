//! The library's global guarantees, stated and proved over the spec
//! views that the engines' contracts use.
//!
//! The denominator convention makes norm preservation exact: a gate
//! that raises the global exponent by `k` scales the integer norm by
//! `2^k`, so the represented total probability is unchanged, with no
//! tolerance needed.

use vstd::prelude::*;

use crate::amplitude::Amplitude;
use crate::amplitude::mag2_p;
use crate::amplitude::mag2_q;
use crate::amplitude::mul_a;
use crate::amplitude::mul_b;
use crate::amplitude::mul_c;
use crate::amplitude::mul_d;
use crate::bits::spec_bit;
use crate::gates::omega_pow_spec;
use crate::grover::pow2_int;
use crate::grover::sum_a;
use crate::grover::sum_b;
use crate::grover::sum_c;
use crate::grover::sum_d;
use crate::statevector::StatevectorSimulator;
use crate::statevector::is_combo;
use crate::tableau::Tableau;
use crate::tableau::has_x_row;
use crate::tableau::is_first_stab_z_row;
use crate::tableau::is_first_x_row;
use crate::tableau::measure_post;
use crate::tableau::row_x;
use crate::tableau::row_z;

verus! {

/// Integer part of the summed squared magnitudes over `[a, b)`.
pub open spec fn nrm_p(s: Seq<Amplitude>, a: int, b: int) -> int
    decreases b - a,
{
    if a >= b {
        0
    } else {
        mag2_p(s[a]) + nrm_p(s, a + 1, b)
    }
}

/// `sqrt(2)` part of the summed squared magnitudes over `[a, b)`.
pub open spec fn nrm_q(s: Seq<Amplitude>, a: int, b: int) -> int
    decreases b - a,
{
    if a >= b {
        0
    } else {
        mag2_q(s[a]) + nrm_q(s, a + 1, b)
    }
}

/// Multiplication distributes over a sum of opaque terms.
proof fn lemma_mul_add(c: int, x: int, y: int)
    ensures
        c * (x + y) == c * x + c * y,
{
    assert(c * (x + y) == c * x + c * y) by (nonlinear_arith);
}

/// Splitting a summation range at any midpoint.
proof fn lemma_nrm_add(s: Seq<Amplitude>, a: int, b: int, c: int)
    requires
        a <= b <= c,
    ensures
        nrm_p(s, a, c) == nrm_p(s, a, b) + nrm_p(s, b, c),
        nrm_q(s, a, c) == nrm_q(s, a, b) + nrm_q(s, b, c),
    decreases b - a,
{
    if a < b {
        lemma_nrm_add(s, a + 1, b, c);
    }
}

/// The pointwise pair hypothesis of a gate on qubit `q`: the squared
/// magnitudes of each amplitude pair scale by `cp`.
pub open spec fn pairwise_scaled(s: Seq<Amplitude>, s2: Seq<Amplitude>, q: usize, cp: int) -> bool {
    forall|i: usize|
        #![trigger spec_bit(i, q)]
        i < s.len() && !spec_bit(i, q) ==> mag2_p(s2[i as int]) + mag2_p(s2[i + (1usize << q)])
            == cp * (mag2_p(s[i as int]) + mag2_p(s[i + (1usize << q)])) && mag2_q(s2[i as int])
            + mag2_q(s2[i + (1usize << q)]) == cp * (mag2_q(s[i as int]) + mag2_q(
            s[i + (1usize << q)],
        ))
}

/// Parallel summation over one aligned block: the tail ranges
/// `[b0+j, b0+st)` and `[b0+st+j, b0+2*st)` sum to `cp` times the old
/// sums, by induction on `j` upward.
#[verifier::rlimit(100)]
proof fn lemma_parallel(
    s: Seq<Amplitude>,
    s2: Seq<Amplitude>,
    q: usize,
    n: usize,
    cp: int,
    b0: int,
    j: int,
)
    requires
        n <= 30,
        q < n,
        s.len() == (1usize << n),
        s2.len() == s.len(),
        pairwise_scaled(s, s2, q, cp),
        0 <= b0,
        (b0 as usize) == b0,
        (b0 as usize) % ((1usize << q) << 1usize) == 0,
        b0 + 2 * ((1usize << q) as int) <= s.len(),
        0 <= j <= (1usize << q) as int,
    ensures
        ({
            let st = (1usize << q) as int;
            nrm_p(s2, b0 + j, b0 + st) + nrm_p(s2, b0 + st + j, b0 + 2 * st) == cp * (nrm_p(
                s,
                b0 + j,
                b0 + st,
            ) + nrm_p(s, b0 + st + j, b0 + 2 * st)) && nrm_q(s2, b0 + j, b0 + st) + nrm_q(
                s2,
                b0 + st + j,
                b0 + 2 * st,
            ) == cp * (nrm_q(s, b0 + j, b0 + st) + nrm_q(s, b0 + st + j, b0 + 2 * st))
        }),
    decreases (1usize << q) as int - j,
{
    let st = (1usize << q) as int;
    if j < st {
        let iu = (b0 + j) as usize;
        let b0u = b0 as usize;
        assert(iu == b0 + j && iu < s.len());
        assert(q < 30usize && b0u % ((1usize << q) << 1usize) == 0 && iu >= b0u && iu - b0u < (
        1usize << q) ==> !(((iu >> q) & 1) == 1)) by (bit_vector);
        assert(!spec_bit(iu, q));
        assert(mag2_p(s2[iu as int]) + mag2_p(s2[iu + (1usize << q)]) == cp * (mag2_p(s[iu as int])
            + mag2_p(s[iu + (1usize << q)])) && mag2_q(s2[iu as int]) + mag2_q(
            s2[iu + (1usize << q)],
        ) == cp * (mag2_q(s[iu as int]) + mag2_q(s[iu + (1usize << q)])));
        assert(iu + (1usize << q) == b0 + st + j);
        lemma_parallel(s, s2, q, n, cp, b0, j + 1);
        assert(nrm_p(s2, b0 + j, b0 + st) == mag2_p(s2[b0 + j]) + nrm_p(s2, b0 + j + 1, b0 + st));
        assert(nrm_p(s2, b0 + st + j, b0 + 2 * st) == mag2_p(s2[b0 + st + j]) + nrm_p(
            s2,
            b0 + st + j + 1,
            b0 + 2 * st,
        ));
        assert(nrm_p(s, b0 + j, b0 + st) == mag2_p(s[b0 + j]) + nrm_p(s, b0 + j + 1, b0 + st));
        assert(nrm_p(s, b0 + st + j, b0 + 2 * st) == mag2_p(s[b0 + st + j]) + nrm_p(
            s,
            b0 + st + j + 1,
            b0 + 2 * st,
        ));
        assert(nrm_q(s2, b0 + j, b0 + st) == mag2_q(s2[b0 + j]) + nrm_q(s2, b0 + j + 1, b0 + st));
        assert(nrm_q(s2, b0 + st + j, b0 + 2 * st) == mag2_q(s2[b0 + st + j]) + nrm_q(
            s2,
            b0 + st + j + 1,
            b0 + 2 * st,
        ));
        assert(nrm_q(s, b0 + j, b0 + st) == mag2_q(s[b0 + j]) + nrm_q(s, b0 + j + 1, b0 + st));
        assert(nrm_q(s, b0 + st + j, b0 + 2 * st) == mag2_q(s[b0 + st + j]) + nrm_q(
            s,
            b0 + st + j + 1,
            b0 + 2 * st,
        ));
        lemma_mul_add(
            cp,
            mag2_p(s[b0 + j]) + mag2_p(s[b0 + st + j]),
            nrm_p(s, b0 + j + 1, b0 + st) + nrm_p(s, b0 + st + j + 1, b0 + 2 * st),
        );
        lemma_mul_add(
            cp,
            mag2_q(s[b0 + j]) + mag2_q(s[b0 + st + j]),
            nrm_q(s, b0 + j + 1, b0 + st) + nrm_q(s, b0 + st + j + 1, b0 + 2 * st),
        );
        assert(nrm_p(s2, b0 + j, b0 + st) + nrm_p(s2, b0 + st + j, b0 + 2 * st) == cp * (nrm_p(
            s,
            b0 + j,
            b0 + st,
        ) + nrm_p(s, b0 + st + j, b0 + 2 * st)));
        assert(nrm_q(s2, b0 + j, b0 + st) + nrm_q(s2, b0 + st + j, b0 + 2 * st) == cp * (nrm_q(
            s,
            b0 + j,
            b0 + st,
        ) + nrm_q(s, b0 + st + j, b0 + 2 * st)));
    } else {
        assert(j == st);
        assert(nrm_p(s2, b0 + j, b0 + st) == 0);
        assert(nrm_p(s2, b0 + st + j, b0 + 2 * st) == 0);
        assert(nrm_p(s, b0 + j, b0 + st) == 0);
        assert(nrm_p(s, b0 + st + j, b0 + 2 * st) == 0);
        assert(nrm_q(s2, b0 + j, b0 + st) == 0);
        assert(nrm_q(s2, b0 + st + j, b0 + 2 * st) == 0);
        assert(nrm_q(s, b0 + j, b0 + st) == 0);
        assert(nrm_q(s, b0 + st + j, b0 + 2 * st) == 0);
        assert(cp * ((0int) + (0int)) == 0) by (nonlinear_arith);
    }
}

/// Induction over the aligned blocks of size `2^(q+1)`.
#[verifier::rlimit(60)]
proof fn lemma_blocks(s: Seq<Amplitude>, s2: Seq<Amplitude>, q: usize, n: usize, cp: int, bb: int)
    requires
        n <= 30,
        q < n,
        s.len() == (1usize << n),
        s2.len() == s.len(),
        pairwise_scaled(s, s2, q, cp),
        0 <= bb <= s.len(),
        bb % (2usize * (1usize << q)) == 0,
    ensures
        nrm_p(s2, 0, bb) == cp * nrm_p(s, 0, bb),
        nrm_q(s2, 0, bb) == cp * nrm_q(s, 0, bb),
    decreases bb,
{
    let stu = 1usize << q;
    assert(q < 30usize ==> 1usize <= (1usize << q) && (1usize << q) <= 0x4000_0000usize)
        by (bit_vector);
    assert(n <= 30usize ==> (1usize << n) <= 0x4000_0000usize) by (bit_vector);
    let st = stu as int;
    if bb > 0 {
        let bu = bb as usize;
        assert(bu == bb);
        assert(q < 30usize ==> ((1usize << q) << 1usize) == 2 * (1usize << q)) by (bit_vector);
        assert(bu % ((1usize << q) << 1usize) == 0);
        assert(bb % (2 * st) == 0);
        assert(bb >= 2 * st) by {
            if bb < 2 * st {
                vstd::arithmetic::div_mod::lemma_small_mod(bb as nat, (2 * st) as nat);
            }
        }
        let b0 = bb - 2 * st;
        let b0u = b0 as usize;
        assert(b0u == b0);
        assert(b0 % (2 * st) == 0) by {
            vstd::arithmetic::div_mod::lemma_mod_multiples_vanish(-1, bb, 2 * st);
            assert(2 * st * -1 + bb == b0);
        }
        assert(b0u % ((1usize << q) << 1usize) == 0);
        lemma_blocks(s, s2, q, n, cp, b0);
        lemma_parallel(s, s2, q, n, cp, b0, 0);
        lemma_nrm_add(s, b0, b0 + st, bb);
        lemma_nrm_add(s2, b0, b0 + st, bb);
        lemma_nrm_add(s, 0, b0, bb);
        lemma_nrm_add(s2, 0, b0, bb);
        lemma_mul_add(cp, nrm_p(s, b0, b0 + st), nrm_p(s, b0 + st, bb));
        lemma_mul_add(cp, nrm_q(s, b0, b0 + st), nrm_q(s, b0 + st, bb));
        lemma_mul_add(cp, nrm_p(s, 0, b0), nrm_p(s, b0, bb));
        lemma_mul_add(cp, nrm_q(s, 0, b0), nrm_q(s, b0, bb));
    }
}

/// Any gate whose amplitude pairs scale their squared magnitudes by
/// `cp` scales the whole state's summed squared magnitudes by `cp`.
pub proof fn lemma_norm_pairwise_scale(
    s: Seq<Amplitude>,
    s2: Seq<Amplitude>,
    q: usize,
    n: usize,
    cp: int,
)
    requires
        n <= 30,
        q < n,
        s.len() == (1usize << n),
        s2.len() == s.len(),
        pairwise_scaled(s, s2, q, cp),
    ensures
        nrm_p(s2, 0, s2.len() as int) == cp * nrm_p(s, 0, s.len() as int),
        nrm_q(s2, 0, s2.len() as int) == cp * nrm_q(s, 0, s.len() as int),
{
    let len = s.len() as int;
    assert(q < n && n <= 30usize ==> (1usize << n) % ((1usize << q) << 1usize) == 0 && ((1usize
        << q) << 1usize) == 2 * (1usize << q)) by (bit_vector);
    lemma_blocks(s, s2, q, n, cp, len);
}

/// Parallelogram law in the ring: the Hadamard pair update
/// `(z0, z1) -> (z0 + z1, z0 - z1)` doubles each pair's squared weight.
proof fn lemma_pair_h(z0: Amplitude, z1: Amplitude, w0: Amplitude, w1: Amplitude)
    requires
        w0.a == z0.a + z1.a && w0.b == z0.b + z1.b && w0.c == z0.c + z1.c && w0.d == z0.d + z1.d,
        w1.a == z0.a - z1.a && w1.b == z0.b - z1.b && w1.c == z0.c - z1.c && w1.d == z0.d - z1.d,
    ensures
        mag2_p(w0) + mag2_p(w1) == 2 * (mag2_p(z0) + mag2_p(z1)),
        mag2_q(w0) + mag2_q(w1) == 2 * (mag2_q(z0) + mag2_q(z1)),
{
    assert((z0.a + z1.a) * (z0.a + z1.a) + (z0.a - z1.a) * (z0.a - z1.a) == 2 * (z0.a * z0.a + z1.a
        * z1.a)) by (nonlinear_arith);
    assert((z0.b + z1.b) * (z0.b + z1.b) + (z0.b - z1.b) * (z0.b - z1.b) == 2 * (z0.b * z0.b + z1.b
        * z1.b)) by (nonlinear_arith);
    assert((z0.c + z1.c) * (z0.c + z1.c) + (z0.c - z1.c) * (z0.c - z1.c) == 2 * (z0.c * z0.c + z1.c
        * z1.c)) by (nonlinear_arith);
    assert((z0.d + z1.d) * (z0.d + z1.d) + (z0.d - z1.d) * (z0.d - z1.d) == 2 * (z0.d * z0.d + z1.d
        * z1.d)) by (nonlinear_arith);
    assert((z0.a + z1.a) * (z0.b + z1.b) + (z0.a - z1.a) * (z0.b - z1.b) == 2 * (z0.a * z0.b + z1.a
        * z1.b)) by (nonlinear_arith);
    assert((z0.b + z1.b) * (z0.c + z1.c) + (z0.b - z1.b) * (z0.c - z1.c) == 2 * (z0.b * z0.c + z1.b
        * z1.c)) by (nonlinear_arith);
    assert((z0.c + z1.c) * (z0.d + z1.d) + (z0.c - z1.c) * (z0.d - z1.d) == 2 * (z0.c * z0.d + z1.c
        * z1.d)) by (nonlinear_arith);
    assert((z0.d + z1.d) * (z0.a + z1.a) + (z0.d - z1.d) * (z0.a - z1.a) == 2 * (z0.d * z0.a + z1.d
        * z1.a)) by (nonlinear_arith);
}

/// Norm preservation under the Hadamard gate: the pointwise relation
/// that `apply_single_qubit_gate` with the Hadamard matrix establishes
/// doubles the integer norm, and the denominator exponent grows by one
/// at the same time (a factor 2 in squared magnitude), so the
/// represented total probability is exactly unchanged.
pub proof fn lemma_h_preserves_norm(s: Seq<Amplitude>, s2: Seq<Amplitude>, q: usize, n: usize)
    requires
        n <= 30,
        q < n,
        s.len() == (1usize << n),
        s2.len() == s.len(),
        forall|i: usize|
            i < s.len() && !spec_bit(i, q) ==> is_combo(
                #[trigger] s2[i as int],
                Amplitude { a: 1i64, b: 0i64, c: 0i64, d: 0i64 },
                s[i as int],
                Amplitude { a: 1i64, b: 0i64, c: 0i64, d: 0i64 },
                s[i + (1usize << q)],
            ) && is_combo(
                s2[i + (1usize << q)],
                Amplitude { a: 1i64, b: 0i64, c: 0i64, d: 0i64 },
                s[i as int],
                Amplitude { a: -1i64, b: 0i64, c: 0i64, d: 0i64 },
                s[i + (1usize << q)],
            ),
    ensures
        nrm_p(s2, 0, s2.len() as int) == 2 * nrm_p(s, 0, s.len() as int),
        nrm_q(s2, 0, s2.len() as int) == 2 * nrm_q(s, 0, s.len() as int),
{
    assert forall|i: usize|
        #![trigger spec_bit(i, q)]
        i < s.len() && !spec_bit(i, q) implies mag2_p(s2[i as int]) + mag2_p(s2[i + (1usize << q)])
        == 2 * (mag2_p(s[i as int]) + mag2_p(s[i + (1usize << q)])) && mag2_q(s2[i as int])
        + mag2_q(s2[i + (1usize << q)]) == 2 * (mag2_q(s[i as int]) + mag2_q(
        s[i + (1usize << q)],
    )) by {
        let z0 = s[i as int];
        let z1 = s[i + (1usize << q)];
        let w0 = s2[i as int];
        let w1 = s2[i + (1usize << q)];
        assert(w0.a == z0.a + z1.a && w0.b == z0.b + z1.b && w0.c == z0.c + z1.c && w0.d == z0.d
            + z1.d);
        assert(w1.a == z0.a - z1.a && w1.b == z0.b - z1.b && w1.c == z0.c - z1.c && w1.d == z0.d
            - z1.d);
        lemma_pair_h(z0, z1, w0, w1);
    }
    lemma_norm_pairwise_scale(s, s2, q, n, 2);
}

/// Norm preservation under a conditional pair swap (CNOT, Toffoli, X):
/// every pair is either swapped or untouched, so each pair's squared
/// weight, and hence the whole norm, is exactly unchanged.
pub proof fn lemma_swap_preserves_norm(s: Seq<Amplitude>, s2: Seq<Amplitude>, q: usize, n: usize)
    requires
        n <= 30,
        q < n,
        s.len() == (1usize << n),
        s2.len() == s.len(),
        forall|i: usize|
            #![trigger spec_bit(i, q)]
            i < s.len() && !spec_bit(i, q) ==> (s2[i as int] == s[i as int] && s2[i + (1usize << q)]
                == s[i + (1usize << q)]) || (s2[i as int] == s[i + (1usize << q)] && s2[i + (1usize
                << q)] == s[i as int]),
    ensures
        nrm_p(s2, 0, s2.len() as int) == nrm_p(s, 0, s.len() as int),
        nrm_q(s2, 0, s2.len() as int) == nrm_q(s, 0, s.len() as int),
{
    assert forall|i: usize|
        #![trigger spec_bit(i, q)]
        i < s.len() && !spec_bit(i, q) implies mag2_p(s2[i as int]) + mag2_p(s2[i + (1usize << q)])
        == 1 * (mag2_p(s[i as int]) + mag2_p(s[i + (1usize << q)])) && mag2_q(s2[i as int])
        + mag2_q(s2[i + (1usize << q)]) == 1 * (mag2_q(s[i as int]) + mag2_q(
        s[i + (1usize << q)],
    )) by {}
    lemma_norm_pairwise_scale(s, s2, q, n, 1);
}

/// Distributing a common factor over a product.
proof fn lemma_kk(k: int, x: int, y: int)
    ensures
        (k * x) * (k * y) == k * k * (x * y),
{
    assert((k * x) * (k * y) == k * k * (x * y)) by (nonlinear_arith);
}

/// Multiplying an amplitude by an eighth root of unity permutes and
/// negates its coefficients, which leaves both parts of the squared
/// magnitude untouched.
proof fn lemma_omega_mul_preserves_mag2(z: Amplitude, w: Amplitude, j: u8)
    requires
        w.a == mul_a(omega_pow_spec(j), z),
        w.b == mul_b(omega_pow_spec(j), z),
        w.c == mul_c(omega_pow_spec(j), z),
        w.d == mul_d(omega_pow_spec(j), z),
    ensures
        mag2_p(w) == mag2_p(z),
        mag2_q(w) == mag2_q(z),
{
    let a = z.a as int;
    let b = z.b as int;
    let c = z.c as int;
    let d = z.d as int;
    assert((-a) * (-a) == a * a && (-b) * (-b) == b * b && (-c) * (-c) == c * c && (-d) * (-d) == d
        * d) by (nonlinear_arith);
    assert((-a) * (-b) == a * b && (-b) * (-c) == b * c && (-c) * (-d) == c * d && (-d) * (-a) == d
        * a) by (nonlinear_arith);
    assert((-d) * a == -(d * a) && (-a) * b == -(a * b) && (-b) * c == -(b * c) && (-c) * d == -(c
        * d)) by (nonlinear_arith);
    assert(d * (-a) == -(d * a) && a * (-b) == -(a * b) && b * (-c) == -(b * c) && c * (-d) == -(c
        * d)) by (nonlinear_arith);
}

/// Norm preservation under a diagonal phase gate (S, T, Z, any Z-axis
/// rotation by eighths of a turn): each pair keeps its lower amplitude
/// and turns the upper one by a root of unity, so every squared
/// magnitude, and with it the norm, is exactly unchanged.
pub proof fn lemma_phase_preserves_norm(
    s: Seq<Amplitude>,
    s2: Seq<Amplitude>,
    q: usize,
    n: usize,
    j: u8,
)
    requires
        n <= 30,
        q < n,
        s.len() == (1usize << n),
        s2.len() == s.len(),
        forall|i: usize|
            i < s.len() && !spec_bit(i, q) ==> is_combo(
                #[trigger] s2[i as int],
                Amplitude { a: 1i64, b: 0i64, c: 0i64, d: 0i64 },
                s[i as int],
                Amplitude { a: 0i64, b: 0i64, c: 0i64, d: 0i64 },
                s[i + (1usize << q)],
            ) && is_combo(
                s2[i + (1usize << q)],
                Amplitude { a: 0i64, b: 0i64, c: 0i64, d: 0i64 },
                s[i as int],
                omega_pow_spec(j),
                s[i + (1usize << q)],
            ),
    ensures
        nrm_p(s2, 0, s2.len() as int) == nrm_p(s, 0, s.len() as int),
        nrm_q(s2, 0, s2.len() as int) == nrm_q(s, 0, s.len() as int),
{
    assert forall|i: usize|
        #![trigger spec_bit(i, q)]
        i < s.len() && !spec_bit(i, q) implies mag2_p(s2[i as int]) + mag2_p(s2[i + (1usize << q)])
        == 1 * (mag2_p(s[i as int]) + mag2_p(s[i + (1usize << q)])) && mag2_q(s2[i as int])
        + mag2_q(s2[i + (1usize << q)]) == 1 * (mag2_q(s[i as int]) + mag2_q(
        s[i + (1usize << q)],
    )) by {
        let z0 = s[i as int];
        let z1 = s[i + (1usize << q)];
        let w0 = s2[i as int];
        let w1 = s2[i + (1usize << q)];
        assert(w0 == z0);
        assert(w1.a == mul_a(omega_pow_spec(j), z1) && w1.b == mul_b(omega_pow_spec(j), z1) && w1.c
            == mul_c(omega_pow_spec(j), z1) && w1.d == mul_d(omega_pow_spec(j), z1));
        lemma_omega_mul_preserves_mag2(z1, w1, j);
    }
    lemma_norm_pairwise_scale(s, s2, q, n, 1);
}

/// Scaling every coefficient by `k` multiplies both parts of the
/// squared magnitude by `k * k`.
proof fn lemma_mag2_scale(z: Amplitude, w: Amplitude, k: int)
    requires
        w.a == k * z.a && w.b == k * z.b && w.c == k * z.c && w.d == k * z.d,
    ensures
        mag2_p(w) == k * k * mag2_p(z),
        mag2_q(w) == k * k * mag2_q(z),
{
    lemma_kk(k, z.a as int, z.a as int);
    lemma_kk(k, z.b as int, z.b as int);
    lemma_kk(k, z.c as int, z.c as int);
    lemma_kk(k, z.d as int, z.d as int);
    lemma_kk(k, z.a as int, z.b as int);
    lemma_kk(k, z.b as int, z.c as int);
    lemma_kk(k, z.c as int, z.d as int);
    lemma_kk(k, z.d as int, z.a as int);
    assert(mag2_p(w) == (k * z.a) * (k * z.a) + (k * z.b) * (k * z.b) + (k * z.c) * (k * z.c) + (k
        * z.d) * (k * z.d));
    assert(mag2_q(w) == (k * z.a) * (k * z.b) + (k * z.b) * (k * z.c) + (k * z.c) * (k * z.d) - (k
        * z.d) * (k * z.a));
    assert(k * k * (z.a * z.a) + k * k * (z.b * z.b) + k * k * (z.c * z.c) + k * k * (z.d * z.d)
        == k * k * (z.a * z.a + z.b * z.b + z.c * z.c + z.d * z.d)) by (nonlinear_arith);
    assert(k * k * (z.a * z.b) + k * k * (z.b * z.c) + k * k * (z.c * z.d) - k * k * (z.d * z.a)
        == k * k * (z.a * z.b + z.b * z.c + z.c * z.d - z.d * z.a)) by (nonlinear_arith);
}

/// Sum of the coefficients of a constant sequence.
proof fn lemma_sum_const(s: Seq<Amplitude>, z: Amplitude)
    requires
        forall|i: int| 0 <= i < s.len() ==> s[i] == z,
    ensures
        sum_a(s) == s.len() * z.a,
        sum_b(s) == s.len() * z.b,
        sum_c(s) == s.len() * z.c,
        sum_d(s) == s.len() * z.d,
    decreases s.len(),
{
    if s.len() > 0 {
        lemma_sum_const(s.drop_last(), z);
        let m = s.len() as int;
        assert(s.last() == z);
        assert((m - 1) * z.a + z.a == m * z.a) by (nonlinear_arith);
        assert((m - 1) * z.b + z.b == m * z.b) by (nonlinear_arith);
        assert((m - 1) * z.c + z.c == m * z.c) by (nonlinear_arith);
        assert((m - 1) * z.d + z.d == m * z.d) by (nonlinear_arith);
    }
}

/// Inversion about the average over an equal superposition: when all
/// amplitudes are equal, the diffusion relation that `apply_diffusion`
/// establishes rescales every amplitude by exactly `2^n` while the
/// denominator exponent grows by `2n`, so the probability of every
/// basis index, and with it the total, is exactly preserved.
pub proof fn lemma_diffusion_on_equal_superposition(
    pre: StatevectorSimulator,
    post: StatevectorSimulator,
    z: Amplitude,
)
    requires
        pre.wf(),
        forall|i: int| 0 <= i < pre.state@.len() ==> pre.state@[i] == z,
        post.num_qubits == pre.num_qubits,
        post.state@.len() == pre.state@.len(),
        post.shift == pre.shift + 2 * pre.num_qubits,
        forall|i: int|
            0 <= i < pre.state@.len() ==> (#[trigger] post.state@[i]).a == 2 * sum_a(pre.state@)
                - pow2_int(pre.num_qubits) * pre.state@[i].a && post.state@[i].b == 2 * sum_b(
                pre.state@,
            ) - pow2_int(pre.num_qubits) * pre.state@[i].b && post.state@[i].c == 2 * sum_c(
                pre.state@,
            ) - pow2_int(pre.num_qubits) * pre.state@[i].c && post.state@[i].d == 2 * sum_d(
                pre.state@,
            ) - pow2_int(pre.num_qubits) * pre.state@[i].d,
    ensures
        forall|i: int|
            0 <= i < post.state@.len() ==> mag2_p(#[trigger] post.state@[i]) == pow2_int(
                pre.num_qubits,
            ) * pow2_int(pre.num_qubits) * mag2_p(pre.state@[i]) && mag2_q(post.state@[i])
                == pow2_int(pre.num_qubits) * pow2_int(pre.num_qubits) * mag2_q(pre.state@[i]),
{
    let n = pre.num_qubits;
    let len = pre.state@.len() as int;
    let k = pow2_int(n);
    lemma_sum_const(pre.state@, z);
    assert(len == k) by {
        assert(n <= 30usize ==> (1usize << n) == (1i64 << n)) by (bit_vector);
    }
    assert forall|i: int| 0 <= i < post.state@.len() implies mag2_p(#[trigger] post.state@[i]) == k
        * k * mag2_p(pre.state@[i]) && mag2_q(post.state@[i]) == k * k * mag2_q(
        pre.state@[i],
    ) by {
        let w = post.state@[i];
        assert(pre.state@[i] == z);
        assert(w.a == 2 * (len * z.a) - k * z.a == k * z.a);
        assert(w.b == k * z.b && w.c == k * z.c && w.d == k * z.d);
        lemma_mag2_scale(z, w, k);
    }
}

/// A random measurement collapses the state, and measuring the same
/// qubit again, with any coin, then returns the committed outcome:
/// multiplying the collapsed row into every other anticommuting row
/// clears their X bits on the measured qubit, so the repeat is
/// determined.  Stated where the collapsed row lies in the stabilizer
/// half and no stabilizer row before it carries `Z` on the measured
/// qubit, so that the determined branch reads that row's sign.
pub proof fn lemma_random_measure_idempotent(
    pre: Tableau,
    mid: Tableau,
    post: Tableau,
    q: usize,
    p: int,
    coin1: bool,
    coin2: bool,
    o1: bool,
    o2: bool,
)
    requires
        q < pre.num_qubits,
        is_first_x_row(pre, q, p),
        p < pre.num_qubits,
        forall|r: int| 0 <= r < p ==> !row_z(#[trigger] pre.data@[r], q),
        measure_post(pre, mid, q, coin1, o1),
        measure_post(mid, post, q, coin2, o2),
    ensures
        o1 == coin1,
        o2 == o1,
{
    assert(has_x_row(pre, q));
    let pw = choose|pw: int| #[trigger] is_first_x_row(pre, q, pw) && crate::tableau::collapse_rows(
        pre,
        mid,
        q,
        coin1,
        pw,
    );
    assert(pw == p) by {
        if pw < p {
            assert(!row_x(pre.data@[pw], q));
        } else if p < pw {
            assert(!row_x(pre.data@[p], q));
        }
    }
    assert(mid.num_qubits == pre.num_qubits);
    assert(!has_x_row(mid, q)) by {
        assert forall|r: int| 0 <= r < mid.data@.len() implies !row_x(
            #[trigger] mid.data@[r],
            q,
        ) by {
            if r == p {
                assert(row_x(mid.data@[p], q) == false);
            } else if row_x(pre.data@[r], q) {
                assert(crate::tableau::row_mult(pre.data@[r], mid.data@[r], pre.data@[p], pre.num_qubits));
                assert(row_x(mid.data@[r], q) == (row_x(pre.data@[r], q) != row_x(
                    pre.data@[p],
                    q,
                )));
            } else {
                assert(mid.data@[r] == pre.data@[r]);
            }
        }
    }
    assert(is_first_stab_z_row(mid, q, p)) by {
        assert(row_z(mid.data@[p], q) == (q == q));
        assert forall|r: int| 0 <= r < p implies !row_z(#[trigger] mid.data@[r], q) by {
            assert(!row_x(pre.data@[r], q));
            assert(mid.data@[r] == pre.data@[r]);
        }
    }
    assert(mid.data@[p].phase == coin1);
    assert(o2 == mid.data@[p].phase) by {
        let pb = choose|pz: int| #[trigger] is_first_stab_z_row(mid, q, pz) && o2
            == mid.data@[pz].phase;
        assert(is_first_stab_z_row(mid, q, pb));
        if pb < p {
            assert(!row_z(mid.data@[pb], q));
        } else if p < pb {
            assert(!row_z(mid.data@[p], q));
        }
    }
}

/// A measurement whose outcome was already determined leaves the
/// tableau untouched, so measuring the same qubit again, with any coin,
/// returns the same outcome: idempotence after collapse for the
/// determined case.
pub proof fn lemma_deterministic_measure_idempotent(
    pre: Tableau,
    mid: Tableau,
    post: Tableau,
    q: usize,
    coin1: bool,
    coin2: bool,
    o1: bool,
    o2: bool,
)
    requires
        !has_x_row(pre, q),
        measure_post(pre, mid, q, coin1, o1),
        measure_post(mid, post, q, coin2, o2),
    ensures
        post.data@ == mid.data@,
        o2 == o1,
{
    assert(mid.data@ == pre.data@);
    assert(!has_x_row(mid, q));
    if exists|p: int| is_first_stab_z_row(pre, q, p) {
        let p1 = choose|p: int| is_first_stab_z_row(pre, q, p);
        assert(is_first_stab_z_row(mid, q, p1));
        assert(o1 == pre.data@[p1].phase) by {
            let pa = choose|p: int| #[trigger] is_first_stab_z_row(pre, q, p) && o1
                == pre.data@[p].phase;
            assert(is_first_stab_z_row(pre, q, pa));
            if pa < p1 {
                assert(!row_z(pre.data@[pa], q));
            } else if p1 < pa {
                assert(!row_z(pre.data@[p1], q));
            }
        }
        assert(o2 == mid.data@[p1].phase) by {
            let pb = choose|p: int| #[trigger] is_first_stab_z_row(mid, q, p) && o2
                == mid.data@[p].phase;
            assert(is_first_stab_z_row(mid, q, pb));
            if pb < p1 {
                assert(!row_z(mid.data@[pb], q));
            } else if p1 < pb {
                assert(!row_z(mid.data@[p1], q));
            }
        }
    } else {
        assert(forall|r: int| 0 <= r < pre.num_qubits ==> !row_z(#[trigger] pre.data@[r], q));
        assert(o1 == false) by {
            if exists|p: int| #[trigger] is_first_stab_z_row(pre, q, p) && o1
                == pre.data@[p].phase {
                let pa = choose|p: int| #[trigger] is_first_stab_z_row(pre, q, p) && o1
                    == pre.data@[p].phase;
                assert(!row_z(pre.data@[pa], q));
            }
        }
        assert(o2 == false) by {
            if exists|p: int| #[trigger] is_first_stab_z_row(mid, q, p) && o2
                == mid.data@[p].phase {
                let pb = choose|p: int| #[trigger] is_first_stab_z_row(mid, q, p) && o2
                    == mid.data@[p].phase;
                assert(!row_z(mid.data@[pb], q));
            }
        }
    }
}

} // verus!
