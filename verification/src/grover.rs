//! Amplitude-amplification demo: an oracle phase flip followed by the
//! inversion-about-average (diffusion) transform, all in exact
//! arithmetic.
//!
//! Diffusion replaces every amplitude `z` by `2*avg - z` where `avg` is
//! the mean amplitude.  With the mean written over the common
//! denominator, the update becomes `2*sum - 2^n * z` with the global
//! exponent raised by `2n`, which keeps every coefficient an integer.

use vstd::prelude::*;
use vstd::pervasive::VecAdditionalExecFns;

use crate::amplitude::Amplitude;
use crate::amplitude::in64;
use crate::errors::SimError;
use crate::gates::Gates;
use crate::gates::h_spec;
use crate::statevector::StatevectorSimulator;
use crate::statevector::sv_gate;
use crate::statevector::sv_init;

verus! {

/// Sum of the `a` coefficients of a sequence of amplitudes.
pub open spec fn sum_a(s: Seq<Amplitude>) -> int
    decreases s.len(),
{
    if s.len() == 0 {
        0
    } else {
        sum_a(s.drop_last()) + s.last().a
    }
}

/// Sum of the `b` coefficients.
pub open spec fn sum_b(s: Seq<Amplitude>) -> int
    decreases s.len(),
{
    if s.len() == 0 {
        0
    } else {
        sum_b(s.drop_last()) + s.last().b
    }
}

/// Sum of the `c` coefficients.
pub open spec fn sum_c(s: Seq<Amplitude>) -> int
    decreases s.len(),
{
    if s.len() == 0 {
        0
    } else {
        sum_c(s.drop_last()) + s.last().c
    }
}

/// Sum of the `d` coefficients.
pub open spec fn sum_d(s: Seq<Amplitude>) -> int
    decreases s.len(),
{
    if s.len() == 0 {
        0
    } else {
        sum_d(s.drop_last()) + s.last().d
    }
}

/// `2^n` as an integer, for the diffusion scaling.
pub open spec fn pow2_int(n: usize) -> int {
    (1i64 << n) as int
}

/// Every prefix sum of the amplitude coefficients stays in `i64`.
pub open spec fn prefix_sums_ok(s: Seq<Amplitude>) -> bool {
    forall|j: int|
        0 <= j <= s.len() ==> in64(sum_a(#[trigger] s.take(j))) && in64(sum_b(s.take(j))) && in64(
            sum_c(s.take(j)),
        ) && in64(sum_d(s.take(j)))
}

/// The whole diffusion pass stays in the exact range for this state.
pub open spec fn diffusion_ok(sim: StatevectorSimulator) -> bool {
    &&& prefix_sums_ok(sim.state@)
    &&& in64(2 * sum_a(sim.state@)) && in64(2 * sum_b(sim.state@)) && in64(2 * sum_c(sim.state@))
        && in64(2 * sum_d(sim.state@))
    &&& forall|i: int|
        0 <= i < sim.state@.len() ==> in64(pow2_int(sim.num_qubits) * (#[trigger] sim.state@[i]).a)
            && in64(pow2_int(sim.num_qubits) * sim.state@[i].b) && in64(
            pow2_int(sim.num_qubits) * sim.state@[i].c,
        ) && in64(pow2_int(sim.num_qubits) * sim.state@[i].d)
    &&& forall|i: int|
        0 <= i < sim.state@.len() ==> in64(
            2 * sum_a(sim.state@) - pow2_int(sim.num_qubits) * (#[trigger] sim.state@[i]).a,
        ) && in64(2 * sum_b(sim.state@) - pow2_int(sim.num_qubits) * sim.state@[i].b) && in64(
            2 * sum_c(sim.state@) - pow2_int(sim.num_qubits) * sim.state@[i].c,
        ) && in64(2 * sum_d(sim.state@) - pow2_int(sim.num_qubits) * sim.state@[i].d)
    &&& sim.shift + 2 * sim.num_qubits <= u32::MAX
}

/// How the oracle relates the old dense state to the new one: the
/// marked amplitude negated, everything else untouched.
pub open spec fn oracle_rel(
    pre: StatevectorSimulator,
    post: StatevectorSimulator,
    marked: usize,
) -> bool {
    &&& post.wf()
    &&& post.num_qubits == pre.num_qubits
    &&& post.shift == pre.shift
    &&& post.state@.len() == pre.state@.len()
    &&& post.state@[marked as int] == (Amplitude {
        a: (-pre.state@[marked as int].a) as i64,
        b: (-pre.state@[marked as int].b) as i64,
        c: (-pre.state@[marked as int].c) as i64,
        d: (-pre.state@[marked as int].d) as i64,
    })
    &&& forall|i: int|
        0 <= i < pre.state@.len() && i != marked ==> post.state@[i] == pre.state@[i]
}

/// How the diffusion pass relates the old dense state to the new one:
/// every amplitude becomes `2*sum - 2^n * z` over the exponent grown by
/// `2n`, which is `2*avg - z` over the common denominator.
pub open spec fn diffusion_rel(pre: StatevectorSimulator, post: StatevectorSimulator) -> bool {
    &&& post.wf()
    &&& post.num_qubits == pre.num_qubits
    &&& post.shift == pre.shift + 2 * pre.num_qubits
    &&& post.state@.len() == pre.state@.len()
    &&& forall|i: int|
        0 <= i < pre.state@.len() ==> (#[trigger] post.state@[i]).a == 2 * sum_a(pre.state@)
            - pow2_int(pre.num_qubits) * pre.state@[i].a && post.state@[i].b == 2 * sum_b(
            pre.state@,
        ) - pow2_int(pre.num_qubits) * pre.state@[i].b && post.state@[i].c == 2 * sum_c(pre.state@)
            - pow2_int(pre.num_qubits) * pre.state@[i].c && post.state@[i].d == 2 * sum_d(
            pre.state@,
        ) - pow2_int(pre.num_qubits) * pre.state@[i].d
}

/// Oracle phase flip: negate the amplitude of the marked basis index.
/// Fails (state untouched) only if a negated coefficient cannot be
/// represented, which needs a coefficient of `i64::MIN`.
pub fn apply_oracle(sim: &mut StatevectorSimulator, marked: usize) -> (r: Result<(), SimError>)
    requires
        old(sim).wf(),
        marked < old(sim).state@.len(),
    ensures
        final(sim).wf(),
        final(sim).num_qubits == old(sim).num_qubits,
        r is Ok <==> in64(-old(sim).state@[marked as int].a) && in64(
            -old(sim).state@[marked as int].b,
        ) && in64(-old(sim).state@[marked as int].c) && in64(-old(sim).state@[marked as int].d),
        r is Ok ==> {
            &&& final(sim).shift == old(sim).shift
            &&& final(sim).state@.len() == old(sim).state@.len()
            &&& final(sim).state@[marked as int] == (Amplitude {
                a: (-old(sim).state@[marked as int].a) as i64,
                b: (-old(sim).state@[marked as int].b) as i64,
                c: (-old(sim).state@[marked as int].c) as i64,
                d: (-old(sim).state@[marked as int].d) as i64,
            })
            &&& forall|i: int|
                0 <= i < old(sim).state@.len() && i != marked ==> final(sim).state@[i] == old(
                    sim,
                ).state@[i]
        },
        r is Ok ==> oracle_rel(*old(sim), *final(sim), marked),
        r is Err ==> *final(sim) == *old(sim) && r == Err::<(), SimError>(
            SimError::CoefficientOverflow,
        ),
{
    let z = sim.state[marked];
    match z.neg() {
        Some(v) => {
            sim.state.set(marked, v);
            Ok(())
        },
        None => Err(SimError::CoefficientOverflow),
    }
}

/// Inversion about the average: every amplitude `z` becomes
/// `2*sum - 2^n * z` while the global exponent grows by `2n`, which is
/// exactly `2*avg - z` over the common denominator.  Fails (state
/// untouched) exactly when some intermediate value leaves the range.
pub fn apply_diffusion(sim: &mut StatevectorSimulator) -> (r: Result<(), SimError>)
    requires
        old(sim).wf(),
    ensures
        final(sim).wf(),
        final(sim).num_qubits == old(sim).num_qubits,
        r is Ok <==> diffusion_ok(*old(sim)),
        r is Ok ==> {
            &&& final(sim).shift == old(sim).shift + 2 * old(sim).num_qubits
            &&& final(sim).state@.len() == old(sim).state@.len()
            &&& forall|i: int|
                0 <= i < old(sim).state@.len() ==> (#[trigger] final(sim).state@[i]).a == 2 * sum_a(
                    old(sim).state@,
                ) - pow2_int(old(sim).num_qubits) * old(sim).state@[i].a && final(sim).state@[i].b
                    == 2 * sum_b(old(sim).state@) - pow2_int(old(sim).num_qubits) * old(
                    sim,
                ).state@[i].b && final(sim).state@[i].c == 2 * sum_c(old(sim).state@) - pow2_int(
                    old(sim).num_qubits,
                ) * old(sim).state@[i].c && final(sim).state@[i].d == 2 * sum_d(old(sim).state@)
                    - pow2_int(old(sim).num_qubits) * old(sim).state@[i].d
        },
        r is Ok ==> diffusion_rel(*old(sim), *final(sim)),
        r is Err ==> *final(sim) == *old(sim) && r == Err::<(), SimError>(
            SimError::CoefficientOverflow,
        ),
{
    let ghost s = sim.state@;
    let n = sim.num_qubits;
    let len = sim.state.len();
    let new_shift = match sim.shift.checked_add(2 * (n as u32)) {
        Some(v) => v,
        None => {
            proof {
                assert(!diffusion_ok(*old(sim)));
            }
            return Err(SimError::CoefficientOverflow);
        },
    };
    let mut acc = Amplitude::zero();
    let mut i: usize = 0;
    proof {
        assert(s.take(0) =~= Seq::<Amplitude>::empty());
    }
    while i < len
        invariant
            i <= len,
            sim.wf(),
            sim.state@ == s,
            len == s.len(),
            acc.a == sum_a(s.take(i as int)),
            acc.b == sum_b(s.take(i as int)),
            acc.c == sum_c(s.take(i as int)),
            acc.d == sum_d(s.take(i as int)),
            forall|j: int|
                0 <= j <= i ==> in64(sum_a(#[trigger] s.take(j))) && in64(sum_b(s.take(j)))
                    && in64(sum_c(s.take(j))) && in64(sum_d(s.take(j))),
        decreases len - i,
    {
        let z = sim.state[i];
        proof {
            assert(s.take(i + 1).drop_last() =~= s.take(i as int));
            assert(s.take(i + 1).last() == s[i as int]);
        }
        acc = match acc.add(&z) {
            Some(v) => v,
            None => {
                proof {
                    assert(!(in64(sum_a(s.take(i + 1))) && in64(sum_b(s.take(i + 1))) && in64(
                        sum_c(s.take(i + 1)),
                    ) && in64(sum_d(s.take(i + 1)))));
                    assert(!prefix_sums_ok(s));
                }
                return Err(SimError::CoefficientOverflow);
            },
        };
        i = i + 1;
    }
    proof {
        assert(s.take(len as int) =~= s);
    }
    let two_sum = match acc.add(&acc) {
        Some(v) => v,
        None => {
            proof {
                assert(!(in64(2 * sum_a(s)) && in64(2 * sum_b(s)) && in64(2 * sum_c(s)) && in64(
                    2 * sum_d(s),
                )));
                assert(!diffusion_ok(*old(sim)));
            }
            return Err(SimError::CoefficientOverflow);
        },
    };
    let scale: i64 = 1i64 << n;
    let mut out: Vec<Amplitude> = Vec::new();
    let mut j: usize = 0;
    while j < len
        invariant
            j <= len,
            sim.wf(),
            sim.state@ == s,
            len == s.len(),
            sim.num_qubits == n,
            scale == (1i64 << n),
            two_sum.a == 2 * sum_a(s) && two_sum.b == 2 * sum_b(s) && two_sum.c == 2 * sum_c(s)
                && two_sum.d == 2 * sum_d(s),
            out@.len() == j,
            forall|t: int|
                0 <= t < j ==> in64(pow2_int(n) * (#[trigger] s[t]).a) && in64(pow2_int(n) * s[t].b)
                    && in64(pow2_int(n) * s[t].c) && in64(pow2_int(n) * s[t].d),
            forall|t: int|
                0 <= t < j ==> (#[trigger] out@[t]).a == 2 * sum_a(s) - pow2_int(n) * s[t].a
                    && out@[t].b == 2 * sum_b(s) - pow2_int(n) * s[t].b && out@[t].c == 2 * sum_c(s)
                    - pow2_int(n) * s[t].c && out@[t].d == 2 * sum_d(s) - pow2_int(n) * s[t].d,
            forall|t: int|
                0 <= t < j ==> in64(2 * sum_a(s) - pow2_int(n) * (#[trigger] s[t]).a) && in64(
                    2 * sum_b(s) - pow2_int(n) * s[t].b,
                ) && in64(2 * sum_c(s) - pow2_int(n) * s[t].c) && in64(
                    2 * sum_d(s) - pow2_int(n) * s[t].d,
                ),
        decreases len - j,
    {
        let z = sim.state[j];
        proof {
            assert(z == s[j as int]);
            assert(scale as int == pow2_int(n));
        }
        let sa = match z.a.checked_mul(scale) {
            Some(v) => v,
            None => {
                proof {
                    assert(!in64(pow2_int(n) * s[j as int].a));
                    assert(!diffusion_ok(*old(sim)));
                }
                return Err(SimError::CoefficientOverflow);
            },
        };
        let sb = match z.b.checked_mul(scale) {
            Some(v) => v,
            None => {
                proof {
                    assert(!in64(pow2_int(n) * s[j as int].b));
                    assert(!diffusion_ok(*old(sim)));
                }
                return Err(SimError::CoefficientOverflow);
            },
        };
        let sc = match z.c.checked_mul(scale) {
            Some(v) => v,
            None => {
                proof {
                    assert(!in64(pow2_int(n) * s[j as int].c));
                    assert(!diffusion_ok(*old(sim)));
                }
                return Err(SimError::CoefficientOverflow);
            },
        };
        let sd = match z.d.checked_mul(scale) {
            Some(v) => v,
            None => {
                proof {
                    assert(!in64(pow2_int(n) * s[j as int].d));
                    assert(!diffusion_ok(*old(sim)));
                }
                return Err(SimError::CoefficientOverflow);
            },
        };
        let scaled = Amplitude { a: sa, b: sb, c: sc, d: sd };
        let v = match two_sum.sub(&scaled) {
            Some(v) => v,
            None => {
                proof {
                    assert(!(in64(2 * sum_a(s) - pow2_int(n) * s[j as int].a) && in64(
                        2 * sum_b(s) - pow2_int(n) * s[j as int].b,
                    ) && in64(2 * sum_c(s) - pow2_int(n) * s[j as int].c) && in64(
                        2 * sum_d(s) - pow2_int(n) * s[j as int].d,
                    )));
                    assert(!diffusion_ok(*old(sim)));
                }
                return Err(SimError::CoefficientOverflow);
            },
        };
        out.push(v);
        j = j + 1;
    }
    proof {
        assert(diffusion_ok(*old(sim)));
    }
    sim.state = out;
    sim.shift = new_shift;
    Ok(())
}

/// Three-qubit amplitude-amplification demo: equal superposition by
/// Hadamards, a phase flip on basis index 5, then one diffusion pass.
/// On success the result is pinned as the chain of the Hadamard, oracle
/// and diffusion relations from the fresh register.
pub fn run_demo() -> (r: Result<StatevectorSimulator, SimError>)
    ensures
        r is Ok ==> r->Ok_0.wf() && r->Ok_0.num_qubits == 3 && r->Ok_0.state@.len() == 8,
        r is Ok ==> exists|s0: StatevectorSimulator, s1: StatevectorSimulator, s2: StatevectorSimulator, s3: StatevectorSimulator, s4: StatevectorSimulator|
            #![trigger sv_init(s0, 3), sv_gate(s0, s1, 0, h_spec()), sv_gate(s1, s2, 1, h_spec()), sv_gate(s2, s3, 2, h_spec()), oracle_rel(s3, s4, 5)]
            sv_init(s0, 3) && sv_gate(s0, s1, 0, h_spec()) && sv_gate(s1, s2, 1, h_spec())
                && sv_gate(s2, s3, 2, h_spec()) && oracle_rel(s3, s4, 5) && diffusion_rel(
                s4,
                r->Ok_0,
            ),
{
    let marked: usize = 5;
    let mut sim = StatevectorSimulator::new(3);
    let ghost g0 = sim;
    match sim.apply_single_qubit_gate(0, Gates::h()) {
        Ok(()) => (),
        Err(e) => {
            return Err(e);
        },
    }
    let ghost g1 = sim;
    match sim.apply_single_qubit_gate(1, Gates::h()) {
        Ok(()) => (),
        Err(e) => {
            return Err(e);
        },
    }
    let ghost g2 = sim;
    match sim.apply_single_qubit_gate(2, Gates::h()) {
        Ok(()) => (),
        Err(e) => {
            return Err(e);
        },
    }
    let ghost g3 = sim;
    proof {
        assert((1usize << 3usize) == 8usize) by (bit_vector);
    }
    match apply_oracle(&mut sim, marked) {
        Ok(()) => (),
        Err(e) => {
            return Err(e);
        },
    }
    let ghost g4 = sim;
    match apply_diffusion(&mut sim) {
        Ok(()) => (),
        Err(e) => {
            return Err(e);
        },
    }
    proof {
        assert(sv_init(g0, 3));
        assert(sv_gate(g0, g1, 0, h_spec()));
        assert(sv_gate(g1, g2, 1, h_spec()));
        assert(sv_gate(g2, g3, 2, h_spec()));
        assert(oracle_rel(g3, g4, 5));
        assert(diffusion_rel(g4, sim));
    }
    Ok(sim)
}

} // verus!
