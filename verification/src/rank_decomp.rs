//! Stabilizer-rank decomposition engine.
//!
//! A state that is not a single stabilizer state is held as a weighted
//! sum of stabilizer terms: each term is a Clifford gate sequence (to be
//! applied to `|0...0>`) with an exact coefficient, and the whole
//! collection shares one denominator exponent `shift` as the dense
//! engine does.  Non-Clifford gates are expanded into a fixed small set
//! of Clifford terms; composition multiplies term counts, so pruning
//! with an explicit error budget keeps the count bounded.

use vstd::prelude::*;

use crate::amplitude::Amplitude;
use crate::amplitude::Weight;
use crate::amplitude::mag2_p;
use crate::amplitude::small;
use crate::amplitude::sqrt2_nonneg;
use crate::amplitude::mag2_q;
use crate::amplitude::mul_a;
use crate::amplitude::mul_b;
use crate::amplitude::mul_c;
use crate::amplitude::mul_d;
use crate::amplitude::mul_ok;
use crate::errors::SimError;

verus! {

/// A Clifford gate in a term's gate sequence.
#[derive(Clone, Copy, Debug, PartialEq, Eq, Structural)]
pub enum Gate {
    H(usize),
    S(usize),
    CNOT(usize, usize),
    CZ(usize, usize),
}

/// A non-Clifford gate with a known fixed stabilizer-rank expansion.
#[derive(Clone, Copy, Debug, PartialEq, Eq, Structural)]
pub enum NonCliffordGate {
    T(usize),
}

/// One stabilizer term: a coefficient and a Clifford gate sequence.
#[derive(Debug)]
pub struct CliffordTerm {
    pub coeff: Amplitude,
    pub gates: Vec<Gate>,
}

/// Weighted sum of stabilizer terms over the denominator
/// `sqrt(2)^shift`, with a hard ceiling on the term count.
pub struct RankDecompositionSimulator {
    pub num_qubits: usize,
    pub terms: Vec<CliffordTerm>,
    pub shift: u32,
    pub term_budget: usize,
}

/// `v` fits the `i128` range the pruning arithmetic works in.
pub open spec fn in128(v: int) -> bool {
    i128::MIN <= v <= i128::MAX
}

/// The greedy in-order pruning decision: with total dropped weight
/// `accp + accq*sqrt(2)` so far and `wp + wq*sqrt(2)` the candidate
/// term's squared weight, the integer certificate `upper <= lower`
/// (which forces the exact budget bound) is computable in `i128` and
/// holds, so the candidate is dropped.
pub open spec fn greedy_drop(accp: int, accq: int, wp: int, wq: int, lower: int) -> bool {
    &&& in128(accp + wp)
    &&& in128(accq + wq)
    &&& (if accq + wq >= 0 {
        in128(2 * (accq + wq)) && in128(accp + wp + 2 * (accq + wq)) && accp + wp + 2 * (accq + wq)
            <= lower
    } else {
        in128(accp + wp + (accq + wq)) && accp + wp + (accq + wq) <= lower
    })
}

/// The terms of `s` selected by the mask `keep`, in their old order.
pub open spec fn masked(s: Seq<CliffordTerm>, keep: Seq<bool>) -> Seq<CliffordTerm>
    decreases s.len(),
{
    if s.len() == 0 {
        Seq::empty()
    } else if keep.len() == s.len() && keep.last() {
        masked(s.drop_last(), keep.drop_last()).push(s.last())
    } else {
        masked(s.drop_last(), keep.drop_last())
    }
}

/// Integer part of the total squared magnitude of the dropped terms.
pub open spec fn dropped_p(s: Seq<CliffordTerm>, keep: Seq<bool>) -> int
    decreases s.len(),
{
    if s.len() == 0 {
        0
    } else if keep.len() == s.len() && keep.last() {
        dropped_p(s.drop_last(), keep.drop_last())
    } else {
        dropped_p(s.drop_last(), keep.drop_last()) + mag2_p(s.last().coeff)
    }
}

/// `sqrt(2)` part of the total squared magnitude of the dropped terms.
pub open spec fn dropped_q(s: Seq<CliffordTerm>, keep: Seq<bool>) -> int
    decreases s.len(),
{
    if s.len() == 0 {
        0
    } else if keep.len() == s.len() && keep.last() {
        dropped_q(s.drop_last(), keep.drop_last())
    } else {
        dropped_q(s.drop_last(), keep.drop_last()) + mag2_q(s.last().coeff)
    }
}

/// An integer certificate `upper(acc) <= lower(delta)` forces the exact
/// inequality `acc <= delta` in the reals, since `q <= q*sqrt(2) <= 2q`
/// for nonnegative `q` and the reverse for negative `q`.
proof fn lemma_upper_lower(p: int, q: int, a: int, b: int)
    requires
        (if q >= 0 {
            p + 2 * q
        } else {
            p + q
        }) <= (if b >= 0 {
            a + b
        } else {
            a + 2 * b
        }),
    ensures
        sqrt2_nonneg(a - p, b - q),
{
    let dp = a - p;
    let dq = b - q;
    assert(dp + dq >= 0);
    if dq >= 0 {
        if dp < 0 {
            assert(0 <= -dp <= dq);
            assert(0 <= -dp <= dq ==> dp * dp <= dq * dq) by (nonlinear_arith);
            assert(dq * dq <= 2 * dq * dq) by (nonlinear_arith);
        }
    } else {
        assert(dp + 2 * dq >= 0);
        assert(dp >= 2 * (-dq));
        assert(dq < 0 && dp >= 2 * (-dq) ==> dp * dp >= 4 * dq * dq) by (nonlinear_arith);
        assert(4 * dq * dq >= 2 * dq * dq) by (nonlinear_arith);
    }
}

/// Outer product of two term collections: every term of `a` paired with
/// every term of `b`, gate sequences concatenated (`a`'s applied first),
/// coefficients multiplied exactly.  Fails, returning nothing, exactly
/// when some coefficient product leaves the exact range.
pub fn compose_terms(a: &Vec<CliffordTerm>, b: &Vec<CliffordTerm>) -> (r: Result<
    Vec<CliffordTerm>,
    SimError,
>)
    requires
        a@.len() * b@.len() <= usize::MAX,
    ensures
        r is Ok <==> (forall|i: int, j: int|
            0 <= i < a@.len() && 0 <= j < b@.len() ==> mul_ok(
                (#[trigger] a@[i]).coeff,
                (#[trigger] b@[j]).coeff,
            )),
        r is Ok ==> {
            &&& r->Ok_0@.len() == a@.len() * b@.len()
            &&& forall|k: int|
                0 <= k < a@.len() * b@.len() ==> {
                    let ta = a@[k / b@.len() as int];
                    let tb = b@[k % b@.len() as int];
                    &&& (#[trigger] r->Ok_0@[k]).gates@ == ta.gates@ + tb.gates@
                    &&& r->Ok_0@[k].coeff.a == mul_a(ta.coeff, tb.coeff)
                    &&& r->Ok_0@[k].coeff.b == mul_b(ta.coeff, tb.coeff)
                    &&& r->Ok_0@[k].coeff.c == mul_c(ta.coeff, tb.coeff)
                    &&& r->Ok_0@[k].coeff.d == mul_d(ta.coeff, tb.coeff)
                }
        },
        r is Err ==> r == Err::<Vec<CliffordTerm>, SimError>(SimError::CoefficientOverflow),
{
    let alen = a.len();
    let blen = b.len();
    let mut out: Vec<CliffordTerm> = Vec::new();
    let mut i: usize = 0;
    while i < alen
        invariant
            i <= alen,
            alen == a@.len(),
            blen == b@.len(),
            alen * blen <= usize::MAX,
            out@.len() == i * blen,
            forall|i2: int, j2: int|
                0 <= i2 < i && 0 <= j2 < blen ==> mul_ok(
                    (#[trigger] a@[i2]).coeff,
                    (#[trigger] b@[j2]).coeff,
                ),
            forall|k: int|
                0 <= k < i * blen ==> {
                    let ta = a@[k / blen as int];
                    let tb = b@[k % blen as int];
                    &&& (#[trigger] out@[k]).gates@ == ta.gates@ + tb.gates@
                    &&& out@[k].coeff.a == mul_a(ta.coeff, tb.coeff)
                    &&& out@[k].coeff.b == mul_b(ta.coeff, tb.coeff)
                    &&& out@[k].coeff.c == mul_c(ta.coeff, tb.coeff)
                    &&& out@[k].coeff.d == mul_d(ta.coeff, tb.coeff)
                },
        decreases alen - i,
    {
        proof {
            assert((i + 1) * blen == i * blen + blen) by (nonlinear_arith);
            assert(i * blen + blen <= alen * blen) by (nonlinear_arith)
                requires
                    i < alen,
                    0 <= blen,
            ;
        }
        let mut j: usize = 0;
        while j < blen
            invariant
                j <= blen,
                i < alen,
                alen == a@.len(),
                blen == b@.len(),
                alen * blen <= usize::MAX,
                i * blen + blen <= alen * blen,
                out@.len() == i * blen + j,
                forall|i2: int, j2: int|
                    0 <= i2 < i && 0 <= j2 < blen ==> mul_ok(
                        (#[trigger] a@[i2]).coeff,
                        (#[trigger] b@[j2]).coeff,
                    ),
                forall|j2: int|
                    0 <= j2 < j ==> mul_ok(a@[i as int].coeff, (#[trigger] b@[j2]).coeff),
                forall|k: int|
                    0 <= k < i * blen + j ==> {
                        let ta = a@[k / blen as int];
                        let tb = b@[k % blen as int];
                        &&& (#[trigger] out@[k]).gates@ == ta.gates@ + tb.gates@
                        &&& out@[k].coeff.a == mul_a(ta.coeff, tb.coeff)
                        &&& out@[k].coeff.b == mul_b(ta.coeff, tb.coeff)
                        &&& out@[k].coeff.c == mul_c(ta.coeff, tb.coeff)
                        &&& out@[k].coeff.d == mul_d(ta.coeff, tb.coeff)
                    },
            decreases blen - j,
        {
            let ta = &a[i];
            let tb = &b[j];
            let coeff = match ta.coeff.mul(&tb.coeff) {
                Some(v) => v,
                None => {
                    return Err(SimError::CoefficientOverflow);
                },
            };
            let mut gates: Vec<Gate> = Vec::new();
            let mut t: usize = 0;
            let ga = ta.gates.len();
            while t < ga
                invariant
                    t <= ga,
                    ga == ta.gates@.len(),
                    gates@ == ta.gates@.take(t as int),
                decreases ga - t,
            {
                gates.push(ta.gates[t]);
                proof {
                    assert(gates@ =~= ta.gates@.take(t + 1));
                }
                t = t + 1;
            }
            let gb = tb.gates.len();
            let mut t2: usize = 0;
            while t2 < gb
                invariant
                    t2 <= gb,
                    gb == tb.gates@.len(),
                    gates@ == ta.gates@ + tb.gates@.take(t2 as int),
                decreases gb - t2,
            {
                gates.push(tb.gates[t2]);
                proof {
                    assert(gates@ =~= ta.gates@ + tb.gates@.take(t2 + 1));
                }
                t2 = t2 + 1;
            }
            proof {
                assert(ta.gates@.take(ga as int) =~= ta.gates@);
                assert(tb.gates@.take(gb as int) =~= tb.gates@);
            }
            out.push(CliffordTerm { coeff, gates });
            proof {
                let k = i * blen + j;
                assert(0 <= j < blen);
                vstd::arithmetic::div_mod::lemma_fundamental_div_mod_converse(
                    k as int,
                    blen as int,
                    i as int,
                    j as int,
                );
                assert(k / blen as int == i && k % blen as int == j);
            }
            j = j + 1;
        }
        i = i + 1;
    }
    proof {
        assert(i == alen && out@.len() == alen * blen);
    }
    Ok(out)
}

impl RankDecompositionSimulator {
    /// Fresh decomposition holding the single identity term: coefficient
    /// one, empty gate sequence, denominator one.
    pub fn new(num_qubits: usize, term_budget: usize) -> (r: RankDecompositionSimulator)
        ensures
            r.num_qubits == num_qubits,
            r.term_budget == term_budget,
            r.shift == 0,
            r.terms@.len() == 1,
            r.terms@[0].coeff == (Amplitude { a: 1i64, b: 0i64, c: 0i64, d: 0i64 }),
            r.terms@[0].gates@.len() == 0,
    {
        let mut terms: Vec<CliffordTerm> = Vec::new();
        terms.push(CliffordTerm { coeff: Amplitude::one(), gates: Vec::new() });
        RankDecompositionSimulator { num_qubits, terms, shift: 0, term_budget }
    }

    /// Expand a non-Clifford gate into the decomposition.  The T gate
    /// has the exact rank-2 expansion `T = ((1+w)/2) I + ((1-w)/2) Z`
    /// with `w = e^{i*pi/4}` and `Z = S*S`: every term splits into an
    /// identity copy weighted by `1+w` and a `Z`-appended copy weighted
    /// by `1-w`, while the shared exponent grows by 2 (the denominator
    /// 2).  Exceeding the term budget or the exact range is reported
    /// with the decomposition untouched.
    pub fn approximate_nonclifford(&mut self, gate: NonCliffordGate) -> (r: Result<(), SimError>)
        requires
            nc_qubit(gate) < old(self).num_qubits,
        ensures
            final(self).num_qubits == old(self).num_qubits,
            final(self).term_budget == old(self).term_budget,
            r == Err::<(), SimError>(SimError::TermBudgetExceeded) <==> 2 * old(self).terms@.len()
                > old(self).term_budget,
            r is Ok <==> 2 * old(self).terms@.len() <= old(self).term_budget && old(self).shift + 2
                <= u32::MAX && (forall|i: int|
                0 <= i < old(self).terms@.len() ==> mul_ok(
                    (#[trigger] old(self).terms@[i]).coeff,
                    Amplitude { a: 1i64, b: 1i64, c: 0i64, d: 0i64 },
                ) && mul_ok(
                    old(self).terms@[i].coeff,
                    Amplitude { a: 1i64, b: -1i64, c: 0i64, d: 0i64 },
                )),
            r is Ok ==> {
                &&& final(self).shift == old(self).shift + 2
                &&& final(self).terms@.len() == 2 * old(self).terms@.len()
                &&& forall|k: int|
                    0 <= k < 2 * old(self).terms@.len() ==> {
                        let ti = old(self).terms@[k / 2];
                        let e = if k % 2 == 0 {
                            Amplitude { a: 1i64, b: 1i64, c: 0i64, d: 0i64 }
                        } else {
                            Amplitude { a: 1i64, b: -1i64, c: 0i64, d: 0i64 }
                        };
                        &&& (#[trigger] final(self).terms@[k]).gates@ == if k % 2 == 0 {
                            ti.gates@
                        } else {
                            ti.gates@ + seq![Gate::S(nc_qubit(gate)), Gate::S(nc_qubit(gate))]
                        }
                        &&& final(self).terms@[k].coeff.a == mul_a(ti.coeff, e)
                        &&& final(self).terms@[k].coeff.b == mul_b(ti.coeff, e)
                        &&& final(self).terms@[k].coeff.c == mul_c(ti.coeff, e)
                        &&& final(self).terms@[k].coeff.d == mul_d(ti.coeff, e)
                    }
            },
            r is Err ==> *final(self) == *old(self),
    {
        let q = match gate {
            NonCliffordGate::T(q) => q,
        };
        let len = self.terms.len();
        if len > self.term_budget / 2 {
            proof {
                assert(2 * (self.term_budget / 2) + self.term_budget % 2 == self.term_budget);
            }
            return Err(SimError::TermBudgetExceeded);
        }
        proof {
            assert(2 * len <= self.term_budget);
        }
        let new_shift = match self.shift.checked_add(2) {
            Some(v) => v,
            None => {
                return Err(SimError::CoefficientOverflow);
            },
        };
        let mut expansion: Vec<CliffordTerm> = Vec::new();
        expansion.push(CliffordTerm { coeff: Amplitude { a: 1, b: 1, c: 0, d: 0 }, gates: Vec::new() });
        let mut zgates: Vec<Gate> = Vec::new();
        zgates.push(Gate::S(q));
        zgates.push(Gate::S(q));
        proof {
            assert(zgates@ =~= seq![Gate::S(q), Gate::S(q)]);
        }
        expansion.push(CliffordTerm { coeff: Amplitude { a: 1, b: -1, c: 0, d: 0 }, gates: zgates });
        proof {
            assert(len * 2 <= usize::MAX);
        }
        let out = match compose_terms(&self.terms, &expansion) {
            Ok(v) => v,
            Err(e) => {
                proof {
                    assert(expansion@[0].coeff == (Amplitude { a: 1i64, b: 1i64, c: 0i64, d: 0i64 })
                        && expansion@[1].coeff == (Amplitude {
                        a: 1i64,
                        b: -1i64,
                        c: 0i64,
                        d: 0i64,
                    }));
                    assert(!(forall|i2: int, j2: int|
                        0 <= i2 < self.terms@.len() && 0 <= j2 < 2 ==> mul_ok(
                            (#[trigger] self.terms@[i2]).coeff,
                            (#[trigger] expansion@[j2]).coeff,
                        )));
                    assert(!(forall|i2: int|
                        0 <= i2 < self.terms@.len() ==> mul_ok(
                            (#[trigger] self.terms@[i2]).coeff,
                            Amplitude { a: 1i64, b: 1i64, c: 0i64, d: 0i64 },
                        ) && mul_ok(
                            self.terms@[i2].coeff,
                            Amplitude { a: 1i64, b: -1i64, c: 0i64, d: 0i64 },
                        )));
                }
                return Err(e);
            },
        };
        proof {
            assert(expansion@[0].coeff == (Amplitude { a: 1i64, b: 1i64, c: 0i64, d: 0i64 })
                && expansion@[1].coeff == (Amplitude { a: 1i64, b: -1i64, c: 0i64, d: 0i64 }));
            assert forall|i2: int| 0 <= i2 < len implies mul_ok(
                (#[trigger] self.terms@[i2]).coeff,
                Amplitude { a: 1i64, b: 1i64, c: 0i64, d: 0i64 },
            ) && mul_ok(
                self.terms@[i2].coeff,
                Amplitude { a: 1i64, b: -1i64, c: 0i64, d: 0i64 },
            ) by {
                assert(mul_ok(self.terms@[i2].coeff, expansion@[0].coeff));
                assert(mul_ok(self.terms@[i2].coeff, expansion@[1].coeff));
            }
        }
        proof {
            assert forall|k: int| 0 <= k < 2 * len implies {
                let ti = self.terms@[k / 2];
                let e = if k % 2 == 0 {
                    Amplitude { a: 1i64, b: 1i64, c: 0i64, d: 0i64 }
                } else {
                    Amplitude { a: 1i64, b: -1i64, c: 0i64, d: 0i64 }
                };
                &&& (#[trigger] out@[k]).gates@ == if k % 2 == 0 {
                    self.terms@[k / 2].gates@
                } else {
                    self.terms@[k / 2].gates@ + seq![Gate::S(q), Gate::S(q)]
                }
                &&& out@[k].coeff.a == mul_a(ti.coeff, e)
                &&& out@[k].coeff.b == mul_b(ti.coeff, e)
                &&& out@[k].coeff.c == mul_c(ti.coeff, e)
                &&& out@[k].coeff.d == mul_d(ti.coeff, e)
            } by {
                assert(k < len * 2) by (nonlinear_arith)
                    requires
                        k < 2 * len,
                ;
                if k % 2 == 0 {
                    assert(self.terms@[k / 2].gates@ + expansion@[0].gates@ =~= self.terms@[k
                        / 2].gates@);
                } else {
                    assert(expansion@[1].gates@ =~= seq![Gate::S(q), Gate::S(q)]);
                }
            }
            assert(out@.len() == 2 * len) by (nonlinear_arith)
                requires
                    out@.len() == len * 2,
            ;
        }
        self.terms = out;
        self.shift = new_shift;
        Ok(())
    }

    /// Prune: drop terms while the accumulated dropped squared weight
    /// provably stays within the budget `delta` (read as
    /// `(delta.w1 + delta.w2*sqrt(2)) / 2^shift`).  The surviving terms
    /// keep their order; the exact bound on what was dropped is part of
    /// the contract.  A term whose weight cannot be certified within the
    /// remaining budget is kept, so pruning never fails.
    pub fn prune(&mut self, delta: Weight)
        requires
            0 <= delta.w1 <= 0x4000_0000_0000_0000i128,
            0 <= delta.w2 <= 0x4000_0000_0000_0000i128,
        ensures
            final(self).num_qubits == old(self).num_qubits,
            final(self).shift == old(self).shift,
            final(self).term_budget == old(self).term_budget,
            exists|keep: Seq<bool>|
                #![auto]
                keep.len() == old(self).terms@.len() && final(self).terms@ == masked(
                    old(self).terms@,
                    keep,
                ) && sqrt2_nonneg(
                    delta.w1 - dropped_p(old(self).terms@, keep),
                    delta.w2 - dropped_q(old(self).terms@, keep),
                ) && (forall|t: int|
                    #![trigger keep[t]]
                    0 <= t < keep.len() ==> ((keep[t] == false) <==> small(
                        old(self).terms@[t].coeff,
                    ) && greedy_drop(
                        dropped_p(old(self).terms@.take(t), keep.take(t)),
                        dropped_q(old(self).terms@.take(t), keep.take(t)),
                        mag2_p(old(self).terms@[t].coeff),
                        mag2_q(old(self).terms@[t].coeff),
                        delta.w1 + delta.w2,
                    ))),
    {
        let ghost orig = self.terms@;
        let len = self.terms.len();
        let lower: i128 = delta.w1 + delta.w2;
        let mut kept: Vec<CliffordTerm> = Vec::new();
        let ghost mut keep = Seq::<bool>::empty();
        let mut accp: i128 = 0;
        let mut accq: i128 = 0;
        let mut i: usize = 0;
        proof {
            assert(orig.take(0) =~= Seq::<CliffordTerm>::empty());
        }
        while i < len
            invariant
                i <= len,
                len == orig.len(),
                self.num_qubits == old(self).num_qubits,
                self.shift == old(self).shift,
                self.term_budget == old(self).term_budget,
                self.terms@.len() == orig.len(),
                forall|t: int| i <= t < len ==> self.terms@[t] == orig[t],
                keep.len() == i,
                kept@ == masked(orig.take(i as int), keep),
                accp == dropped_p(orig.take(i as int), keep),
                accq == dropped_q(orig.take(i as int), keep),
                accp + (if accq >= 0 {
                    2 * accq
                } else {
                    accq as int
                }) <= lower,
                lower == delta.w1 + delta.w2,
                forall|t: int|
                    #![trigger keep[t]]
                    0 <= t < i ==> ((keep[t] == false) <==> small(orig[t].coeff) && greedy_drop(
                        dropped_p(orig.take(t), keep.take(t)),
                        dropped_q(orig.take(t), keep.take(t)),
                        mag2_p(orig[t].coeff),
                        mag2_q(orig[t].coeff),
                        lower as int,
                    )),
            decreases len - i,
        {
            let cf = self.terms[i].coeff;
            let ghost gp = accp as int;
            let ghost gq = accq as int;
            proof {
                assert(orig.take(i + 1).drop_last() =~= orig.take(i as int));
                assert(orig.take(i + 1).last() == orig[i as int]);
            }
            let mut dropped = false;
            match cf.magnitude2() {
                Some(w) => {
                    proof {
                        assert(0 <= mag2_p(cf) <= 0x4000_0000_0000_0000_0000_0000_0000_0000int
                            && -0x4000_0000_0000_0000_0000_0000_0000_0000int <= mag2_q(cf)
                            <= 0x4000_0000_0000_0000_0000_0000_0000_0000int) by (nonlinear_arith)
                            requires
                                -0x4000_0000_0000_0000i64 <= cf.a <= 0x4000_0000_0000_0000i64,
                                -0x4000_0000_0000_0000i64 <= cf.b <= 0x4000_0000_0000_0000i64,
                                -0x4000_0000_0000_0000i64 <= cf.c <= 0x4000_0000_0000_0000i64,
                                -0x4000_0000_0000_0000i64 <= cf.d <= 0x4000_0000_0000_0000i64,
                        ;
                        assert(mag2_p(cf) as i128 == mag2_p(cf) && mag2_q(cf) as i128 == mag2_q(
                            cf,
                        ));
                    }
                    match (accp.checked_add(w.w1), accq.checked_add(w.w2)) {
                        (Some(ap), Some(aq)) => {
                            let up: Option<i128> = if aq >= 0 {
                                match aq.checked_mul(2) {
                                    Some(dq) => ap.checked_add(dq),
                                    None => None,
                                }
                            } else {
                                ap.checked_add(aq)
                            };
                            match up {
                                Some(u) => {
                                    if u <= lower {
                                        accp = ap;
                                        accq = aq;
                                        dropped = true;
                                        proof {
                                            assert(greedy_drop(
                                                gp,
                                                gq,
                                                mag2_p(cf),
                                                mag2_q(cf),
                                                lower as int,
                                            ));
                                        }
                                    } else {
                                        proof {
                                            assert(!greedy_drop(
                                                gp,
                                                gq,
                                                mag2_p(cf),
                                                mag2_q(cf),
                                                lower as int,
                                            ));
                                        }
                                    }
                                },
                                None => {
                                    proof {
                                        assert(!greedy_drop(
                                            gp,
                                            gq,
                                            mag2_p(cf),
                                            mag2_q(cf),
                                            lower as int,
                                        ));
                                    }
                                },
                            }
                        },
                        _ => {
                            proof {
                                assert(!greedy_drop(gp, gq, mag2_p(cf), mag2_q(cf), lower as int));
                            }
                        },
                    }
                },
                None => {
                    proof {
                        assert(!small(cf));
                    }
                },
            }
            if dropped {
                proof {
                    let keep0 = keep;
                    keep = keep.push(false);
                    assert(keep.drop_last() =~= keep0);
                    assert(masked(orig.take(i + 1), keep) == kept@);
                    assert(accp == dropped_p(orig.take(i + 1), keep));
                    assert(accq == dropped_q(orig.take(i + 1), keep));
                    assert forall|t: int| 0 <= t <= i implies keep.take(t) == keep0.take(t) by {
                        assert(keep.take(t) =~= keep0.take(t));
                    }
                    assert(keep.take(i as int) =~= keep0);
                }
            } else {
                let mut dummy = CliffordTerm { coeff: Amplitude::zero(), gates: Vec::new() };
                self.terms.set_and_swap(i, &mut dummy);
                kept.push(dummy);
                proof {
                    let keep0 = keep;
                    keep = keep.push(true);
                    assert(keep.drop_last() =~= keep0);
                    assert(masked(orig.take(i + 1), keep) == kept@);
                    assert(accp == dropped_p(orig.take(i + 1), keep));
                    assert(accq == dropped_q(orig.take(i + 1), keep));
                    assert forall|t: int| 0 <= t <= i implies keep.take(t) == keep0.take(t) by {
                        assert(keep.take(t) =~= keep0.take(t));
                    }
                    assert(keep.take(i as int) =~= keep0);
                }
            }
            proof {
                assert(keep[i as int] == !dropped);
                assert(dropped_p(orig.take(i as int), keep.take(i as int)) == gp);
                assert(dropped_q(orig.take(i as int), keep.take(i as int)) == gq);
                assert((keep[i as int] == false) <==> small(orig[i as int].coeff) && greedy_drop(
                    dropped_p(orig.take(i as int), keep.take(i as int)),
                    dropped_q(orig.take(i as int), keep.take(i as int)),
                    mag2_p(orig[i as int].coeff),
                    mag2_q(orig[i as int].coeff),
                    lower as int,
                ));
            }
            i = i + 1;
        }
        proof {
            assert(orig.take(len as int) =~= orig);
            lemma_upper_lower(accp as int, accq as int, delta.w1 as int, delta.w2 as int);
        }
        self.terms = kept;
        proof {
            assert(keep.len() == orig.len() && self.terms@ == masked(orig, keep) && sqrt2_nonneg(
                delta.w1 - dropped_p(orig, keep),
                delta.w2 - dropped_q(orig, keep),
            ));
        }
    }

    /// Merge step used after composition: drop exactly the terms that
    /// carry no weight at all (a zero error budget), leaving the
    /// represented state untouched.
    pub fn combine_terms(&mut self)
        ensures
            final(self).num_qubits == old(self).num_qubits,
            final(self).shift == old(self).shift,
            final(self).term_budget == old(self).term_budget,
            exists|keep: Seq<bool>|
                #![auto]
                keep.len() == old(self).terms@.len() && final(self).terms@ == masked(
                    old(self).terms@,
                    keep,
                ) && sqrt2_nonneg(
                    -dropped_p(old(self).terms@, keep),
                    -dropped_q(old(self).terms@, keep),
                ) && (forall|t: int|
                    #![trigger keep[t]]
                    0 <= t < keep.len() ==> ((keep[t] == false) <==> small(
                        old(self).terms@[t].coeff,
                    ) && greedy_drop(
                        dropped_p(old(self).terms@.take(t), keep.take(t)),
                        dropped_q(old(self).terms@.take(t), keep.take(t)),
                        mag2_p(old(self).terms@[t].coeff),
                        mag2_q(old(self).terms@[t].coeff),
                        0,
                    ))),
    {
        self.prune(Weight { w1: 0, w2: 0 });
    }
}

/// The qubit a non-Clifford gate acts on.
pub open spec fn nc_qubit(gate: NonCliffordGate) -> usize {
    match gate {
        NonCliffordGate::T(q) => q,
    }
}

} // verus!
