//! Dense statevector engine.
//!
//! A state over `n` qubits is `2^n` exact amplitudes together with one
//! global denominator exponent `shift`: the physical amplitude of basis
//! index `i` is `state[i] / sqrt(2)^shift`.  Basis index `i` denotes the
//! computational-basis state whose qubit `q` carries bit `(i >> q) & 1`.
//!
//! A gate reads both members of each amplitude pair before writing
//! either; a pair consists of two indices that differ exactly in the
//! target qubit's bit.  An operation that would push a coefficient out
//! of the exact range reports `CoefficientOverflow` and leaves the state
//! untouched.

use vstd::prelude::*;
use vstd::pervasive::VecAdditionalExecFns;

use crate::amplitude::Amplitude;
use crate::amplitude::Weight;
use crate::amplitude::small;
use crate::amplitude::in64;
use crate::amplitude::mul_a;
use crate::amplitude::mul_b;
use crate::amplitude::mul_c;
use crate::amplitude::mul_d;
use crate::amplitude::mag2_p;
use crate::amplitude::mag2_q;
use crate::amplitude::sqrt2_nonneg;
use crate::amplitude::lemma_mag2_nonneg;
use crate::bits::get_bit;
use crate::bits::spec_bit;
use crate::errors::SimError;
use crate::gates::GateMatrix;

verus! {

/// Largest supported qubit count: keeps `2^n` within `usize` on every
/// platform and bounds the dense representation's memory.
pub const MAX_QUBITS: usize = 30;

/// Number of basis states of an `n`-qubit register.
pub open spec fn dim(n: usize) -> int {
    (1usize << n) as int
}

/// `z` is the linear combination `m0*z0 + m1*z1`, coefficient by
/// coefficient, over unbounded integers.
pub open spec fn is_combo(
    z: Amplitude,
    m0: Amplitude,
    z0: Amplitude,
    m1: Amplitude,
    z1: Amplitude,
) -> bool {
    &&& z.a == mul_a(m0, z0) + mul_a(m1, z1)
    &&& z.b == mul_b(m0, z0) + mul_b(m1, z1)
    &&& z.c == mul_c(m0, z0) + mul_c(m1, z1)
    &&& z.d == mul_d(m0, z0) + mul_d(m1, z1)
}

/// The combination `m0*z0 + m1*z1` stays within the exact range.
pub open spec fn combo_ok(m0: Amplitude, z0: Amplitude, m1: Amplitude, z1: Amplitude) -> bool {
    &&& small(m0) && small(z0) && small(m1) && small(z1)
    &&& in64(mul_a(m0, z0)) && in64(mul_b(m0, z0)) && in64(mul_c(m0, z0)) && in64(mul_d(m0, z0))
    &&& in64(mul_a(m1, z1)) && in64(mul_b(m1, z1)) && in64(mul_c(m1, z1)) && in64(mul_d(m1, z1))
    &&& in64(mul_a(m0, z0) + mul_a(m1, z1))
    &&& in64(mul_b(m0, z0) + mul_b(m1, z1))
    &&& in64(mul_c(m0, z0) + mul_c(m1, z1))
    &&& in64(mul_d(m0, z0) + mul_d(m1, z1))
}

/// Exact `m0*z0 + m1*z1`; `None` exactly when `combo_ok` fails.
fn combo(m0: &Amplitude, z0: &Amplitude, m1: &Amplitude, z1: &Amplitude) -> (r: Option<Amplitude>)
    ensures
        r is Some <==> combo_ok(*m0, *z0, *m1, *z1),
        r is Some ==> is_combo(r->0, *m0, *z0, *m1, *z1),
{
    match (m0.mul(z0), m1.mul(z1)) {
        (Some(u), Some(v)) => u.add(&v),
        _ => None,
    }
}

/// An index with qubit `q` clear and its partner with `q` set sit
/// `2^q` apart, inside the register, and agree on every other bit.
pub proof fn lemma_pair(i: usize, q: usize, n: usize)
    requires
        n <= MAX_QUBITS,
        q < n,
        i < (1usize << n),
        !spec_bit(i, q),
    ensures
        i + (1usize << q) < (1usize << n),
        spec_bit((i + (1usize << q)) as usize, q),
        forall|b: usize|
            b < usize::BITS && b != q ==> spec_bit((i + (1usize << q)) as usize, b) == spec_bit(
                i,
                b,
            ),
{
    assert(i + (1usize << q) < (1usize << n) && (i + (1usize << q)) as usize == i + (1usize << q))
        by (bit_vector)
        requires
            n <= 30usize,
            q < n,
            i < (1usize << n),
            !((i >> q) & 1 == 1),
    ;
    assert((((i + (1usize << q)) as usize) >> q) & 1 == 1) by (bit_vector)
        requires
            n <= 30usize,
            q < n,
            i < (1usize << n),
            !((i >> q) & 1 == 1),
    ;
    assert forall|b: usize| b < usize::BITS && b != q implies spec_bit(
        (i + (1usize << q)) as usize,
        b,
    ) == spec_bit(i, b) by {
        assert(((((i + (1usize << q)) as usize) >> b) & 1) == ((i >> b) & 1)) by (bit_vector)
            requires
                n <= 30usize,
                q < n,
                b < usize::BITS,
                b != q,
                i < (1usize << n),
                !((i >> q) & 1 == 1),
        ;
    }
}

/// A fresh dense register over `n` qubits: the unit vector at basis
/// index 0 with denominator one.
pub open spec fn sv_init(sv: StatevectorSimulator, n: usize) -> bool {
    &&& sv.wf()
    &&& sv.num_qubits == n
    &&& sv.shift == 0
    &&& sv.state@[0] == (Amplitude { a: 1i64, b: 0i64, c: 0i64, d: 0i64 })
    &&& forall|i: int|
        1 <= i < dim(n) ==> sv.state@[i] == (Amplitude { a: 0i64, b: 0i64, c: 0i64, d: 0i64 })
}

/// How one 2x2 gate on `qubit` relates the old dense state to the new
/// one: the pointwise pair combination of `apply_single_qubit_gate`.
pub open spec fn sv_gate(
    pre: StatevectorSimulator,
    post: StatevectorSimulator,
    qubit: usize,
    m: GateMatrix,
) -> bool {
    &&& post.wf()
    &&& post.num_qubits == pre.num_qubits
    &&& post.shift == pre.shift + m.k
    &&& post.state@.len() == pre.state@.len()
    &&& forall|i: usize|
        i < pre.state@.len() && !spec_bit(i, qubit) ==> is_combo(
            #[trigger] post.state@[i as int],
            m.e00,
            pre.state@[i as int],
            m.e01,
            pre.state@[i + (1usize << qubit)],
        ) && is_combo(
            post.state@[i + (1usize << qubit)],
            m.e10,
            pre.state@[i as int],
            m.e11,
            pre.state@[i + (1usize << qubit)],
        )
}

/// How one CNOT relates the old dense state to the new one: the
/// conditional pair swap of `apply_cnot`.
pub open spec fn sv_cnot(
    pre: StatevectorSimulator,
    post: StatevectorSimulator,
    control: usize,
    target: usize,
) -> bool {
    &&& post.wf()
    &&& post.num_qubits == pre.num_qubits
    &&& post.shift == pre.shift
    &&& post.state@.len() == pre.state@.len()
    &&& forall|i: usize|
        #![trigger spec_bit(i, target)]
        i < pre.state@.len() && !spec_bit(i, target) && spec_bit(i, control) ==> post.state@[
            i as int
        ] == pre.state@[i + (1usize << target)] && post.state@[i + (1usize << target)]
            == pre.state@[i as int]
    &&& forall|i: usize|
        #![trigger spec_bit(i, target)]
        i < pre.state@.len() && !spec_bit(i, target) && !spec_bit(i, control) ==> post.state@[
            i as int
        ] == pre.state@[i as int] && post.state@[i + (1usize << target)] == pre.state@[i + (1usize
            << target)]
}

/// How one Toffoli relates the old dense state to the new one: the
/// doubly-conditional pair swap of `apply_toffoli`.
pub open spec fn sv_toffoli(
    pre: StatevectorSimulator,
    post: StatevectorSimulator,
    control1: usize,
    control2: usize,
    target: usize,
) -> bool {
    &&& post.wf()
    &&& post.num_qubits == pre.num_qubits
    &&& post.shift == pre.shift
    &&& post.state@.len() == pre.state@.len()
    &&& forall|i: usize|
        #![trigger spec_bit(i, target)]
        i < pre.state@.len() && !spec_bit(i, target) && spec_bit(i, control1) && spec_bit(
            i,
            control2,
        ) ==> post.state@[i as int] == pre.state@[i + (1usize << target)] && post.state@[i + (1usize
            << target)] == pre.state@[i as int]
    &&& forall|i: usize|
        #![trigger spec_bit(i, target)]
        i < pre.state@.len() && !spec_bit(i, target) && !(spec_bit(i, control1) && spec_bit(
            i,
            control2,
        )) ==> post.state@[i as int] == pre.state@[i as int] && post.state@[i + (1usize << target)]
            == pre.state@[i + (1usize << target)]
}

/// How a half-probability collapse relates the old dense state to the
/// new one: the projection-and-rescale of `collapse_z`.
pub open spec fn sv_collapse(
    pre: StatevectorSimulator,
    post: StatevectorSimulator,
    qubit: usize,
    outcome: bool,
) -> bool {
    &&& post.wf()
    &&& post.num_qubits == pre.num_qubits
    &&& post.shift == pre.shift
    &&& post.state@.len() == pre.state@.len()
    &&& forall|i: usize|
        #![trigger spec_bit(i, qubit)]
        i < pre.state@.len() ==> post.state@[i as int] == (if spec_bit(i, qubit) == outcome {
            Amplitude {
                a: (pre.state@[i as int].b - pre.state@[i as int].d) as i64,
                b: (pre.state@[i as int].a + pre.state@[i as int].c) as i64,
                c: (pre.state@[i as int].b + pre.state@[i as int].d) as i64,
                d: (pre.state@[i as int].c - pre.state@[i as int].a) as i64,
            }
        } else {
            Amplitude { a: 0i64, b: 0i64, c: 0i64, d: 0i64 }
        })
}

/// Dense statevector of `2^num_qubits` exact amplitudes scaled by
/// `1 / sqrt(2)^shift`.
pub struct StatevectorSimulator {
    pub num_qubits: usize,
    pub state: Vec<Amplitude>,
    pub shift: u32,
}

impl StatevectorSimulator {
    /// Shape invariant: the amplitude vector covers every basis index.
    pub open spec fn wf(self) -> bool {
        &&& self.num_qubits <= MAX_QUBITS
        &&& self.state@.len() == dim(self.num_qubits)
    }

    /// Fresh register in the all-zeros basis state `|0...0>`.
    pub fn new(num_qubits: usize) -> (r: StatevectorSimulator)
        requires
            num_qubits <= MAX_QUBITS,
        ensures
            r.wf(),
            r.num_qubits == num_qubits,
            r.shift == 0,
            r.state@[0] == (Amplitude { a: 1i64, b: 0i64, c: 0i64, d: 0i64 }),
            forall|i: int|
                1 <= i < dim(num_qubits) ==> r.state@[i] == (Amplitude {
                    a: 0i64,
                    b: 0i64,
                    c: 0i64,
                    d: 0i64,
                }),
            sv_init(r, num_qubits),
    {
        proof {
            assert(num_qubits <= 30usize ==> 1usize <= (1usize << num_qubits)) by (bit_vector);
        }
        let len = 1usize << num_qubits;
        let mut state: Vec<Amplitude> = Vec::new();
        state.push(Amplitude::one());
        let mut i: usize = 1;
        while i < len
            invariant
                1 <= i <= len,
                state@.len() == i,
                state@[0] == (Amplitude { a: 1i64, b: 0i64, c: 0i64, d: 0i64 }),
                forall|j: int|
                    1 <= j < i ==> state@[j] == (Amplitude { a: 0i64, b: 0i64, c: 0i64, d: 0i64 }),
            decreases len - i,
        {
            state.push(Amplitude::zero());
            i = i + 1;
        }
        StatevectorSimulator { num_qubits, state, shift: 0 }
    }

    /// Apply the 2x2 gate `matrix` to qubit `qubit`: every amplitude
    /// pair `(z0, z1)` at indices differing in that qubit's bit becomes
    /// `(m00*z0 + m01*z1, m10*z0 + m11*z1)`, and the global exponent
    /// grows by the matrix's own `k`.  On overflow nothing changes.
    pub fn apply_single_qubit_gate(&mut self, qubit: usize, matrix: GateMatrix) -> (r: Result<
        (),
        SimError,
    >)
        requires
            old(self).wf(),
            qubit < old(self).num_qubits,
        ensures
            final(self).wf(),
            final(self).num_qubits == old(self).num_qubits,
            r is Ok <==> old(self).shift + matrix.k <= u32::MAX && (forall|i: usize|
                i < old(self).state@.len() && !spec_bit(i, qubit) ==> combo_ok(
                    matrix.e00,
                    #[trigger] old(self).state@[i as int],
                    matrix.e01,
                    old(self).state@[i + (1usize << qubit)],
                ) && combo_ok(
                    matrix.e10,
                    old(self).state@[i as int],
                    matrix.e11,
                    old(self).state@[i + (1usize << qubit)],
                )),
            r is Ok ==> {
                &&& final(self).shift == old(self).shift + matrix.k
                &&& final(self).state@.len() == old(self).state@.len()
                &&& forall|i: usize|
                    i < old(self).state@.len() && !spec_bit(i, qubit) ==> is_combo(
                        #[trigger] final(self).state@[i as int],
                        matrix.e00,
                        old(self).state@[i as int],
                        matrix.e01,
                        old(self).state@[i + (1usize << qubit)],
                    ) && is_combo(
                        final(self).state@[i + (1usize << qubit)],
                        matrix.e10,
                        old(self).state@[i as int],
                        matrix.e11,
                        old(self).state@[i + (1usize << qubit)],
                    )
            },
            r is Ok ==> sv_gate(*old(self), *final(self), qubit, matrix),
            r is Err ==> *final(self) == *old(self) && r == Err::<(), SimError>(
                SimError::CoefficientOverflow,
            ),
    {
        let ghost n = self.num_qubits;
        let len = self.state.len();
        let stride = 1usize << qubit;
        let new_shift = match self.shift.checked_add(matrix.k) {
            Some(v) => v,
            None => {
                return Err(SimError::CoefficientOverflow);
            },
        };
        let mut out: Vec<Amplitude> = Vec::new();
        let mut j: usize = 0;
        while j < len
            invariant
                out@.len() == j,
                j <= len,
                len == self.state@.len(),
                forall|t: int| 0 <= t < j ==> out@[t] == self.state@[t],
            decreases len - j,
        {
            out.push(self.state[j]);
            j = j + 1;
        }
        proof {
            assert forall|i: usize| i < len && !spec_bit(i, qubit) implies i + stride < len by {
                lemma_pair(i, qubit, n);
            }
        }
        let mut idx: usize = 0;
        while idx < len
            invariant
                idx <= len,
                self.num_qubits == n,
                self.wf(),
                qubit < n,
                len == self.state@.len(),
                stride == 1usize << qubit,
                out@.len() == len,
                forall|i: usize|
                    #![trigger spec_bit(i, qubit)]
                    i < len && !spec_bit(i, qubit) && i < idx ==> combo_ok(
                        matrix.e00,
                        self.state@[i as int],
                        matrix.e01,
                        self.state@[i + stride],
                    ) && combo_ok(
                        matrix.e10,
                        self.state@[i as int],
                        matrix.e11,
                        self.state@[i + stride],
                    ),
                forall|i: usize|
                    #![trigger spec_bit(i, qubit)]
                    i < len && !spec_bit(i, qubit) && i < idx ==> is_combo(
                        out@[i as int],
                        matrix.e00,
                        self.state@[i as int],
                        matrix.e01,
                        self.state@[i + stride],
                    ) && is_combo(
                        out@[i + stride],
                        matrix.e10,
                        self.state@[i as int],
                        matrix.e11,
                        self.state@[i + stride],
                    ),
                forall|i: usize|
                    #![trigger spec_bit(i, qubit)]
                    i < len && !spec_bit(i, qubit) && i >= idx ==> out@[i as int] == self.state@[
                        i as int
                    ] && out@[i + stride] == self.state@[i + stride],
            decreases len - idx,
        {
            if !get_bit(idx, qubit) {
                proof {
                    lemma_pair(idx, qubit, n);
                }
                let partner = idx + stride;
                let z0 = self.state[idx];
                let z1 = self.state[partner];
                let v0 = match combo(&matrix.e00, &z0, &matrix.e01, &z1) {
                    Some(v) => v,
                    None => {
                        return Err(SimError::CoefficientOverflow);
                    },
                };
                let v1 = match combo(&matrix.e10, &z0, &matrix.e11, &z1) {
                    Some(v) => v,
                    None => {
                        return Err(SimError::CoefficientOverflow);
                    },
                };
                let ghost mid = out@;
                out.set(idx, v0);
                out.set(partner, v1);
                proof {
                    assert(out@ == mid.update(idx as int, v0).update(partner as int, v1));
                    assert forall|i: usize|
                        #![trigger spec_bit(i, qubit)]
                        i < len && !spec_bit(i, qubit) && i >= idx + 1 implies out@[i as int]
                        == self.state@[i as int] && out@[i + stride] == self.state@[i + stride] by {
                        lemma_pair(i, qubit, n);
                        assert(spec_bit((i + stride) as usize, qubit));
                        assert(i != idx && i + stride != idx as int && i != partner && i + stride
                            != partner as int);
                    }
                    assert forall|i: usize|
                        #![trigger spec_bit(i, qubit)]
                        i < len && !spec_bit(i, qubit) && i < idx + 1 implies is_combo(
                        out@[i as int],
                        matrix.e00,
                        self.state@[i as int],
                        matrix.e01,
                        self.state@[i + stride],
                    ) && is_combo(
                        out@[i + stride],
                        matrix.e10,
                        self.state@[i as int],
                        matrix.e11,
                        self.state@[i + stride],
                    ) by {
                        lemma_pair(i, qubit, n);
                        assert(spec_bit((i + stride) as usize, qubit));
                        if i == idx {
                            assert(out@[i as int] == v0 && out@[i + stride] == v1);
                        } else {
                            let pi = (i + stride) as usize;
                            assert(pi == i + stride);
                            assert(spec_bit(pi, qubit) && !spec_bit(i, qubit) && !spec_bit(
                                idx,
                                qubit,
                            ) && spec_bit(partner, qubit));
                            assert(i != idx && pi != idx && i != partner && pi != partner);
                            assert(out@[i as int] == mid[i as int] && out@[pi as int] == mid[
                                pi as int]);
                        }
                    }
                }
            }
            idx = idx + 1;
        }
        self.state = out;
        self.shift = new_shift;
        Ok(())
    }

    /// Apply `matrix` to qubit `target`, but only on the amplitude pairs
    /// whose basis index carries a 1 in qubit `control`; the control test
    /// reads the absolute basis index, never a loop counter.  The matrix
    /// must carry no denominator (`k = 0`): control-clear pairs are not
    /// rescaled, so the global exponent stays put.  On overflow nothing
    /// changes.
    pub fn apply_controlled_gate(&mut self, control: usize, target: usize, matrix: GateMatrix) -> (
    r: Result<(), SimError>)
        requires
            old(self).wf(),
            control < old(self).num_qubits,
            target < old(self).num_qubits,
            control != target,
            matrix.k == 0,
        ensures
            final(self).wf(),
            final(self).num_qubits == old(self).num_qubits,
            r is Ok <==> (forall|i: usize|
                #![trigger spec_bit(i, target)]
                i < old(self).state@.len() && !spec_bit(i, target) && spec_bit(i, control)
                    ==> combo_ok(
                    matrix.e00,
                    old(self).state@[i as int],
                    matrix.e01,
                    old(self).state@[i + (1usize << target)],
                ) && combo_ok(
                    matrix.e10,
                    old(self).state@[i as int],
                    matrix.e11,
                    old(self).state@[i + (1usize << target)],
                )),
            r is Ok ==> {
                &&& final(self).shift == old(self).shift
                &&& final(self).state@.len() == old(self).state@.len()
                &&& forall|i: usize|
                    #![trigger spec_bit(i, target)]
                    i < old(self).state@.len() && !spec_bit(i, target) && spec_bit(i, control)
                        ==> is_combo(
                        final(self).state@[i as int],
                        matrix.e00,
                        old(self).state@[i as int],
                        matrix.e01,
                        old(self).state@[i + (1usize << target)],
                    ) && is_combo(
                        final(self).state@[i + (1usize << target)],
                        matrix.e10,
                        old(self).state@[i as int],
                        matrix.e11,
                        old(self).state@[i + (1usize << target)],
                    )
                &&& forall|i: usize|
                    #![trigger spec_bit(i, target)]
                    i < old(self).state@.len() && !spec_bit(i, target) && !spec_bit(i, control)
                        ==> final(self).state@[i as int] == old(self).state@[i as int] && final(self).state@[i + (1usize << target)] == old(self).state@[i + (1usize << target)]
            },
            r is Err ==> *final(self) == *old(self) && r == Err::<(), SimError>(
                SimError::CoefficientOverflow,
            ),
    {
        let ghost n = self.num_qubits;
        let len = self.state.len();
        let stride = 1usize << target;
        let mut out: Vec<Amplitude> = Vec::new();
        let mut j: usize = 0;
        while j < len
            invariant
                out@.len() == j,
                j <= len,
                len == self.state@.len(),
                forall|t: int| 0 <= t < j ==> out@[t] == self.state@[t],
            decreases len - j,
        {
            out.push(self.state[j]);
            j = j + 1;
        }
        proof {
            assert forall|i: usize| i < len && !spec_bit(i, target) implies i + stride < len by {
                lemma_pair(i, target, n);
            }
        }
        let mut idx: usize = 0;
        while idx < len
            invariant
                idx <= len,
                self.num_qubits == n,
                self.wf(),
                control < n,
                target < n,
                control != target,
                len == self.state@.len(),
                stride == 1usize << target,
                out@.len() == len,
                forall|i: usize|
                    #![trigger spec_bit(i, target)]
                    i < len && !spec_bit(i, target) && spec_bit(i, control) && i < idx
                        ==> combo_ok(
                        matrix.e00,
                        self.state@[i as int],
                        matrix.e01,
                        self.state@[i + stride],
                    ) && combo_ok(
                        matrix.e10,
                        self.state@[i as int],
                        matrix.e11,
                        self.state@[i + stride],
                    ),
                forall|i: usize|
                    #![trigger spec_bit(i, target)]
                    i < len && !spec_bit(i, target) && spec_bit(i, control) && i < idx
                        ==> is_combo(
                        out@[i as int],
                        matrix.e00,
                        self.state@[i as int],
                        matrix.e01,
                        self.state@[i + stride],
                    ) && is_combo(
                        out@[i + stride],
                        matrix.e10,
                        self.state@[i as int],
                        matrix.e11,
                        self.state@[i + stride],
                    ),
                forall|i: usize|
                    #![trigger spec_bit(i, target)]
                    i < len && !spec_bit(i, target) && (!spec_bit(i, control) || i >= idx)
                        ==> out@[i as int] == self.state@[i as int] && out@[i + stride]
                        == self.state@[i + stride],
            decreases len - idx,
        {
            if !get_bit(idx, target) && get_bit(idx, control) {
                proof {
                    lemma_pair(idx, target, n);
                }
                let partner = idx + stride;
                let z0 = self.state[idx];
                let z1 = self.state[partner];
                let v0 = match combo(&matrix.e00, &z0, &matrix.e01, &z1) {
                    Some(v) => v,
                    None => {
                        return Err(SimError::CoefficientOverflow);
                    },
                };
                let v1 = match combo(&matrix.e10, &z0, &matrix.e11, &z1) {
                    Some(v) => v,
                    None => {
                        return Err(SimError::CoefficientOverflow);
                    },
                };
                let ghost mid = out@;
                out.set(idx, v0);
                out.set(partner, v1);
                proof {
                    assert(out@ == mid.update(idx as int, v0).update(partner as int, v1));
                    assert forall|i: usize|
                        #![trigger spec_bit(i, target)]
                        i < len && !spec_bit(i, target) && (!spec_bit(i, control) || i >= idx + 1)
                        implies out@[i as int] == self.state@[i as int] && out@[i + stride]
                        == self.state@[i + stride] by {
                        lemma_pair(i, target, n);
                        let pi = (i + stride) as usize;
                        assert(pi == i + stride);
                        assert(spec_bit(pi, target) && !spec_bit(i, target) && !spec_bit(
                            idx,
                            target,
                        ) && spec_bit(partner, target));
                        assert(spec_bit(pi, control) == spec_bit(i, control));
                        if i != idx {
                            assert(pi != idx && i != partner && pi != partner);
                            assert(out@[i as int] == mid[i as int] && out@[pi as int] == mid[
                                pi as int]);
                        }
                    }
                    assert forall|i: usize|
                        #![trigger spec_bit(i, target)]
                        i < len && !spec_bit(i, target) && spec_bit(i, control) && i < idx + 1
                        implies is_combo(
                        out@[i as int],
                        matrix.e00,
                        self.state@[i as int],
                        matrix.e01,
                        self.state@[i + stride],
                    ) && is_combo(
                        out@[i + stride],
                        matrix.e10,
                        self.state@[i as int],
                        matrix.e11,
                        self.state@[i + stride],
                    ) by {
                        lemma_pair(i, target, n);
                        assert(spec_bit((i + stride) as usize, target));
                        if i == idx {
                            assert(out@[i as int] == v0 && out@[i + stride] == v1);
                        } else {
                            let pi = (i + stride) as usize;
                            assert(pi == i + stride);
                            assert(spec_bit(pi, target) && !spec_bit(i, target) && !spec_bit(
                                idx,
                                target,
                            ) && spec_bit(partner, target));
                            assert(i != idx && pi != idx && i != partner && pi != partner);
                            assert(out@[i as int] == mid[i as int] && out@[pi as int] == mid[
                                pi as int]);
                        }
                    }
                }
            }
            idx = idx + 1;
        }
        self.state = out;
        Ok(())
    }

    /// Controlled-NOT: for every basis index with a 1 at `control`, the
    /// amplitudes of the two indices differing in `target` are swapped.
    /// A pure permutation: never fails, and the exponent is untouched.
    pub fn apply_cnot(&mut self, control: usize, target: usize)
        requires
            old(self).wf(),
            control < old(self).num_qubits,
            target < old(self).num_qubits,
            control != target,
        ensures
            final(self).wf(),
            final(self).num_qubits == old(self).num_qubits,
            final(self).shift == old(self).shift,
            final(self).state@.len() == old(self).state@.len(),
            forall|i: usize|
                #![trigger spec_bit(i, target)]
                i < old(self).state@.len() && !spec_bit(i, target) && spec_bit(i, control)
                    ==> final(self).state@[i as int] == old(self).state@[i + (1usize << target)]
                    && final(self).state@[i + (1usize << target)] == old(self).state@[i as int],
            forall|i: usize|
                #![trigger spec_bit(i, target)]
                i < old(self).state@.len() && !spec_bit(i, target) && !spec_bit(i, control)
                    ==> final(self).state@[i as int] == old(self).state@[i as int] && final(self).state@[i + (1usize << target)] == old(self).state@[i + (1usize << target)],
    {
        let ghost n = self.num_qubits;
        let len = self.state.len();
        let stride = 1usize << target;
        let mut out: Vec<Amplitude> = Vec::new();
        let mut j: usize = 0;
        while j < len
            invariant
                out@.len() == j,
                j <= len,
                len == self.state@.len(),
                forall|t: int| 0 <= t < j ==> out@[t] == self.state@[t],
            decreases len - j,
        {
            out.push(self.state[j]);
            j = j + 1;
        }
        proof {
            assert forall|i: usize| i < len && !spec_bit(i, target) implies i + stride < len by {
                lemma_pair(i, target, n);
            }
        }
        let mut idx: usize = 0;
        while idx < len
            invariant
                idx <= len,
                self.num_qubits == n,
                self.wf(),
                control < n,
                target < n,
                control != target,
                len == self.state@.len(),
                stride == 1usize << target,
                out@.len() == len,
                forall|i: usize|
                    #![trigger spec_bit(i, target)]
                    i < len && !spec_bit(i, target) && spec_bit(i, control) && i < idx ==> out@[
                        i as int
                    ] == self.state@[i + stride] && out@[i + stride] == self.state@[i as int],
                forall|i: usize|
                    #![trigger spec_bit(i, target)]
                    i < len && !spec_bit(i, target) && (!spec_bit(i, control) || i >= idx)
                        ==> out@[i as int] == self.state@[i as int] && out@[i + stride]
                        == self.state@[i + stride],
            decreases len - idx,
        {
            if !get_bit(idx, target) && get_bit(idx, control) {
                proof {
                    lemma_pair(idx, target, n);
                }
                let partner = idx + stride;
                let z0 = self.state[idx];
                let z1 = self.state[partner];
                let ghost mid = out@;
                out.set(idx, z1);
                out.set(partner, z0);
                proof {
                    assert(out@ == mid.update(idx as int, z1).update(partner as int, z0));
                    assert forall|i: usize|
                        #![trigger spec_bit(i, target)]
                        i < len && !spec_bit(i, target) && (!spec_bit(i, control) || i >= idx + 1)
                        implies out@[i as int] == self.state@[i as int] && out@[i + stride]
                        == self.state@[i + stride] by {
                        lemma_pair(i, target, n);
                        let pi = (i + stride) as usize;
                        assert(pi == i + stride);
                        assert(spec_bit(pi, target) && !spec_bit(i, target) && !spec_bit(
                            idx,
                            target,
                        ) && spec_bit(partner, target));
                        assert(spec_bit(pi, control) == spec_bit(i, control));
                        if i != idx {
                            assert(pi != idx && i != partner && pi != partner);
                            assert(out@[i as int] == mid[i as int] && out@[pi as int] == mid[
                                pi as int]);
                        }
                    }
                    assert forall|i: usize|
                        #![trigger spec_bit(i, target)]
                        i < len && !spec_bit(i, target) && spec_bit(i, control) && i < idx + 1
                        implies out@[i as int] == self.state@[i + stride] && out@[i + stride]
                        == self.state@[i as int] by {
                        lemma_pair(i, target, n);
                        assert(spec_bit((i + stride) as usize, target));
                        if i == idx {
                            assert(out@[i as int] == z1 && out@[i + stride] == z0);
                        } else {
                            let pi = (i + stride) as usize;
                            assert(pi == i + stride);
                            assert(spec_bit(pi, target) && !spec_bit(i, target) && !spec_bit(
                                idx,
                                target,
                            ) && spec_bit(partner, target));
                            assert(i != idx && pi != idx && i != partner && pi != partner);
                            assert(out@[i as int] == mid[i as int] && out@[pi as int] == mid[
                                pi as int]);
                        }
                    }
                }
            }
            idx = idx + 1;
        }
        self.state = out;
    }

    /// Toffoli: for every basis index with a 1 at both `control1` and
    /// `control2`, the amplitudes of the two indices differing in
    /// `target` are swapped.  A pure permutation: never fails.
    pub fn apply_toffoli(&mut self, control1: usize, control2: usize, target: usize)
        requires
            old(self).wf(),
            control1 < old(self).num_qubits,
            control2 < old(self).num_qubits,
            target < old(self).num_qubits,
            control1 != target,
            control2 != target,
        ensures
            final(self).wf(),
            final(self).num_qubits == old(self).num_qubits,
            final(self).shift == old(self).shift,
            final(self).state@.len() == old(self).state@.len(),
            forall|i: usize|
                #![trigger spec_bit(i, target)]
                i < old(self).state@.len() && !spec_bit(i, target) && spec_bit(i, control1)
                    && spec_bit(i, control2) ==> final(self).state@[i as int] == old(self).state@[i
                    + (1usize << target)] && final(self).state@[i + (1usize << target)] == old(self).state@[i as int],
            forall|i: usize|
                #![trigger spec_bit(i, target)]
                i < old(self).state@.len() && !spec_bit(i, target) && !(spec_bit(i, control1)
                    && spec_bit(i, control2)) ==> final(self).state@[i as int] == old(self).state@[i as int] && final(self).state@[i + (1usize << target)] == old(self).state@[i + (1usize << target)],
            sv_toffoli(*old(self), *final(self), control1, control2, target),
    {
        let ghost n = self.num_qubits;
        let len = self.state.len();
        let stride = 1usize << target;
        let mut out: Vec<Amplitude> = Vec::new();
        let mut j: usize = 0;
        while j < len
            invariant
                out@.len() == j,
                j <= len,
                len == self.state@.len(),
                forall|t: int| 0 <= t < j ==> out@[t] == self.state@[t],
            decreases len - j,
        {
            out.push(self.state[j]);
            j = j + 1;
        }
        proof {
            assert forall|i: usize| i < len && !spec_bit(i, target) implies i + stride < len by {
                lemma_pair(i, target, n);
            }
        }
        let mut idx: usize = 0;
        while idx < len
            invariant
                idx <= len,
                self.num_qubits == n,
                self.wf(),
                control1 < n,
                control2 < n,
                target < n,
                control1 != target,
                control2 != target,
                len == self.state@.len(),
                stride == 1usize << target,
                out@.len() == len,
                forall|i: usize|
                    #![trigger spec_bit(i, target)]
                    i < len && !spec_bit(i, target) && spec_bit(i, control1) && spec_bit(
                        i,
                        control2,
                    ) && i < idx ==> out@[i as int] == self.state@[i + stride] && out@[i + stride]
                        == self.state@[i as int],
                forall|i: usize|
                    #![trigger spec_bit(i, target)]
                    i < len && !spec_bit(i, target) && (!(spec_bit(i, control1) && spec_bit(
                        i,
                        control2,
                    )) || i >= idx) ==> out@[i as int] == self.state@[i as int] && out@[i + stride]
                        == self.state@[i + stride],
            decreases len - idx,
        {
            if !get_bit(idx, target) && get_bit(idx, control1) && get_bit(idx, control2) {
                proof {
                    lemma_pair(idx, target, n);
                }
                let partner = idx + stride;
                let z0 = self.state[idx];
                let z1 = self.state[partner];
                let ghost mid = out@;
                out.set(idx, z1);
                out.set(partner, z0);
                proof {
                    assert(out@ == mid.update(idx as int, z1).update(partner as int, z0));
                    assert forall|i: usize|
                        #![trigger spec_bit(i, target)]
                        i < len && !spec_bit(i, target) && (!(spec_bit(i, control1) && spec_bit(
                            i,
                            control2,
                        )) || i >= idx + 1) implies out@[i as int] == self.state@[i as int] && out@[
                        i + stride] == self.state@[i + stride] by {
                        lemma_pair(i, target, n);
                        let pi = (i + stride) as usize;
                        assert(pi == i + stride);
                        assert(spec_bit(pi, target) && !spec_bit(i, target) && !spec_bit(
                            idx,
                            target,
                        ) && spec_bit(partner, target));
                        assert(spec_bit(pi, control1) == spec_bit(i, control1));
                        assert(spec_bit(pi, control2) == spec_bit(i, control2));
                        if i != idx {
                            assert(pi != idx && i != partner && pi != partner);
                            assert(out@[i as int] == mid[i as int] && out@[pi as int] == mid[
                                pi as int]);
                        }
                    }
                    assert forall|i: usize|
                        #![trigger spec_bit(i, target)]
                        i < len && !spec_bit(i, target) && spec_bit(i, control1) && spec_bit(
                            i,
                            control2,
                        ) && i < idx + 1 implies out@[i as int] == self.state@[i + stride] && out@[
                        i + stride] == self.state@[i as int] by {
                        lemma_pair(i, target, n);
                        assert(spec_bit((i + stride) as usize, target));
                        if i == idx {
                            assert(out@[i as int] == z1 && out@[i + stride] == z0);
                        } else {
                            let pi = (i + stride) as usize;
                            assert(pi == i + stride);
                            assert(spec_bit(pi, target) && !spec_bit(i, target) && !spec_bit(
                                idx,
                                target,
                            ) && spec_bit(partner, target));
                            assert(i != idx && pi != idx && i != partner && pi != partner);
                            assert(out@[i as int] == mid[i as int] && out@[pi as int] == mid[
                                pi as int]);
                        }
                    }
                }
            }
            idx = idx + 1;
        }
        self.state = out;
    }

    /// Project onto the branch where qubit `qubit` reads `outcome` after
    /// a measurement whose undetermined outcome had probability one
    /// half: amplitudes of the other branch become zero and the
    /// surviving ones are multiplied by `sqrt(2)`, which restores the
    /// norm over the unchanged denominator.  On overflow nothing
    /// changes.
    pub fn collapse_z(&mut self, qubit: usize, outcome: bool) -> (r: Result<(), SimError>)
        requires
            old(self).wf(),
            qubit < old(self).num_qubits,
        ensures
            final(self).wf(),
            final(self).num_qubits == old(self).num_qubits,
            r is Ok <==> (forall|i: usize|
                #![trigger spec_bit(i, qubit)]
                i < old(self).state@.len() && spec_bit(i, qubit) == outcome ==> in64(
                    old(self).state@[i as int].b - old(self).state@[i as int].d,
                ) && in64(old(self).state@[i as int].a + old(self).state@[i as int].c) && in64(
                    old(self).state@[i as int].b + old(self).state@[i as int].d,
                ) && in64(old(self).state@[i as int].c - old(self).state@[i as int].a)),
            r is Ok ==> {
                &&& final(self).shift == old(self).shift
                &&& final(self).state@.len() == old(self).state@.len()
                &&& forall|i: usize|
                    #![trigger spec_bit(i, qubit)]
                    i < old(self).state@.len() ==> final(self).state@[i as int] == (if spec_bit(
                        i,
                        qubit,
                    ) == outcome {
                        Amplitude {
                            a: (old(self).state@[i as int].b - old(self).state@[i as int].d) as i64,
                            b: (old(self).state@[i as int].a + old(self).state@[i as int].c) as i64,
                            c: (old(self).state@[i as int].b + old(self).state@[i as int].d) as i64,
                            d: (old(self).state@[i as int].c - old(self).state@[i as int].a) as i64,
                        }
                    } else {
                        Amplitude { a: 0i64, b: 0i64, c: 0i64, d: 0i64 }
                    })
            },
            r is Ok ==> sv_collapse(*old(self), *final(self), qubit, outcome),
            r is Err ==> *final(self) == *old(self) && r == Err::<(), SimError>(
                SimError::CoefficientOverflow,
            ),
    {
        let len = self.state.len();
        let mut out: Vec<Amplitude> = Vec::new();
        let mut j: usize = 0;
        while j < len
            invariant
                j <= len,
                self.wf(),
                qubit < self.num_qubits,
                len == self.state@.len(),
                out@.len() == j,
                forall|i: usize|
                    #![trigger spec_bit(i, qubit)]
                    i < j ==> spec_bit(i, qubit) == outcome ==> in64(
                        self.state@[i as int].b - self.state@[i as int].d,
                    ) && in64(self.state@[i as int].a + self.state@[i as int].c) && in64(
                        self.state@[i as int].b + self.state@[i as int].d,
                    ) && in64(self.state@[i as int].c - self.state@[i as int].a),
                forall|i: usize|
                    #![trigger spec_bit(i, qubit)]
                    i < j ==> out@[i as int] == (if spec_bit(i, qubit) == outcome {
                        Amplitude {
                            a: (self.state@[i as int].b - self.state@[i as int].d) as i64,
                            b: (self.state@[i as int].a + self.state@[i as int].c) as i64,
                            c: (self.state@[i as int].b + self.state@[i as int].d) as i64,
                            d: (self.state@[i as int].c - self.state@[i as int].a) as i64,
                        }
                    } else {
                        Amplitude { a: 0i64, b: 0i64, c: 0i64, d: 0i64 }
                    }),
            decreases len - j,
        {
            let z = self.state[j];
            if get_bit(j, qubit) == outcome {
                match z.times_sqrt2() {
                    Some(v) => {
                        out.push(v);
                    },
                    None => {
                        return Err(SimError::CoefficientOverflow);
                    },
                }
            } else {
                out.push(Amplitude::zero());
            }
            j = j + 1;
        }
        self.state = out;
        Ok(())
    }

    /// The squared magnitude of every amplitude, in reading order; the
    /// probability of basis index `i` is `r[i] / 2^shift`.  Pure: the
    /// state is not touched.  Fails only if a coefficient has left the
    /// `small` range in which squared magnitudes are computed exactly.
    pub fn measure_all(&self) -> (r: Result<Vec<Weight>, SimError>)
        ensures
            r is Ok <==> (forall|i: int| 0 <= i < self.state@.len() ==> small(
                #[trigger] self.state@[i],
            )),
            r is Ok ==> {
                &&& r->Ok_0@.len() == self.state@.len()
                &&& forall|i: int|
                    0 <= i < self.state@.len() ==> r->Ok_0@[i] == (Weight {
                        w1: mag2_p(#[trigger] self.state@[i]) as i128,
                        w2: mag2_q(self.state@[i]) as i128,
                    })
                &&& forall|i: int|
                    0 <= i < self.state@.len() ==> (#[trigger] r->Ok_0@[i]).w1 >= 0
                        && sqrt2_nonneg(r->Ok_0@[i].w1 as int, r->Ok_0@[i].w2 as int)
            },
            r is Err ==> r == Err::<Vec<Weight>, SimError>(SimError::CoefficientOverflow),
    {
        let len = self.state.len();
        let mut probs: Vec<Weight> = Vec::new();
        let mut i: usize = 0;
        while i < len
            invariant
                i <= len,
                len == self.state@.len(),
                probs@.len() == i,
                forall|t: int| 0 <= t < i ==> small(#[trigger] self.state@[t]),
                forall|t: int|
                    0 <= t < i ==> probs@[t] == (Weight {
                        w1: mag2_p(#[trigger] self.state@[t]) as i128,
                        w2: mag2_q(self.state@[t]) as i128,
                    }),
                forall|t: int|
                    0 <= t < i ==> (#[trigger] probs@[t]).w1 >= 0 && sqrt2_nonneg(
                        probs@[t].w1 as int,
                        probs@[t].w2 as int,
                    ),
            decreases len - i,
        {
            let z = self.state[i];
            match z.magnitude2() {
                Some(w) => {
                    proof {
                        assert(0 <= mag2_p(z) <= 0x4000_0000_0000_0000_0000_0000_0000_0000int
                            && -0x4000_0000_0000_0000_0000_0000_0000_0000int <= mag2_q(z)
                            <= 0x4000_0000_0000_0000_0000_0000_0000_0000int) by (nonlinear_arith)
                            requires
                                -0x4000_0000_0000_0000i64 <= z.a <= 0x4000_0000_0000_0000i64,
                                -0x4000_0000_0000_0000i64 <= z.b <= 0x4000_0000_0000_0000i64,
                                -0x4000_0000_0000_0000i64 <= z.c <= 0x4000_0000_0000_0000i64,
                                -0x4000_0000_0000_0000i64 <= z.d <= 0x4000_0000_0000_0000i64,
                        ;
                        assert(mag2_p(z) as i128 == mag2_p(z) && mag2_q(z) as i128 == mag2_q(z));
                        lemma_mag2_nonneg(z);
                    }
                    probs.push(w);
                },
                None => {
                    return Err(SimError::CoefficientOverflow);
                },
            }
            i = i + 1;
        }
        Ok(probs)
    }
}

} // verus!
