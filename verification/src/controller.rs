//! Runtime controller: representation management under promotion.
//!
//! The controller owns exactly one live backend at a time.  It starts
//! in tableau mode and forwards Clifford gates there, recording them;
//! the first non-Clifford gate triggers promotion: an equivalent dense
//! statevector is materialized by replaying the recorded history onto a
//! fresh register, the tableau is destroyed, and the non-Clifford gate
//! is applied to the new backend.  Promotion changes the representation
//! of the state, never its meaning: `execute`'s contract ties the final
//! backend to the fold of the per-operation semantics (`execs`), built
//! from the same per-gate relations the engines are proved against.

use vstd::prelude::*;

use crate::errors::SimError;
use crate::gates::Gates;
use crate::gates::h_spec;
use crate::gates::rz_spec;
use crate::gates::s_spec;
use crate::ir::IROp;
use crate::ir::count_measures;
use crate::ir::is_measure;
use crate::ir::is_nonclifford;
use crate::ir::op_wf;
use crate::statevector::MAX_QUBITS;
use crate::statevector::StatevectorSimulator;
use crate::statevector::sv_cnot;
use crate::statevector::sv_collapse;
use crate::statevector::sv_gate;
use crate::statevector::sv_init;
use crate::statevector::sv_toffoli;
use crate::tableau::Tableau;

verus! {

/// Which representation is live.  The tag always matches the live
/// engine; the rank-decomposition route is the configured-policy
/// alternative for bounded-error simulation, and the minimal promotion
/// policy here materializes the exact dense state instead, so no
/// well-formed controller carries that tag.
#[derive(Clone, Copy, Debug, PartialEq, Eq, Structural)]
pub enum BackendType {
    Tableau,
    Statevector,
    RankDecomposition,
}

/// A Clifford gate as recorded for replay at promotion time.
#[derive(Clone, Copy, Debug, PartialEq, Eq, Structural)]
pub enum CliffordOp {
    H(usize),
    S(usize),
    CNOT(usize, usize),
}

/// One recorded event of the tableau phase: a forwarded Clifford gate,
/// or a measurement collapse with its committed outcome and whether the
/// outcome was drawn at random (probability one half) rather than
/// already determined.
#[derive(Clone, Copy, Debug, PartialEq, Eq, Structural)]
pub enum LogEntry {
    Gate(CliffordOp),
    Collapse(usize, bool, bool),
}

/// The live backend: a sum type, so exactly one instance exists.
pub enum Backend {
    Tab(Tableau),
    Sv(StatevectorSimulator),
}

/// The recorded entry stays inside the register and never aliases a
/// control with its target.
pub open spec fn entry_wf(e: LogEntry, n: usize) -> bool {
    match e {
        LogEntry::Gate(CliffordOp::H(q)) => q < n,
        LogEntry::Gate(CliffordOp::S(q)) => q < n,
        LogEntry::Gate(CliffordOp::CNOT(c, t)) => c < n && t < n && c != t,
        LogEntry::Collapse(q, _, _) => q < n,
    }
}

/// How one recorded entry relates a dense state to its successor when
/// the history is replayed: the engines' own per-gate relations, with a
/// determined collapse replaying as the identity.
pub open spec fn replay_entry(
    pre: StatevectorSimulator,
    post: StatevectorSimulator,
    e: LogEntry,
) -> bool {
    match e {
        LogEntry::Gate(CliffordOp::H(q)) => sv_gate(pre, post, q, h_spec()),
        LogEntry::Gate(CliffordOp::S(q)) => sv_gate(pre, post, q, s_spec()),
        LogEntry::Gate(CliffordOp::CNOT(c, t)) => sv_cnot(pre, post, c, t),
        LogEntry::Collapse(q, outcome, was_random) => if was_random {
            sv_collapse(pre, post, q, outcome)
        } else {
            post == pre
        },
    }
}

/// `sv` is reachable from `sv0` by replaying `entries` in order.
pub open spec fn replays(
    sv0: StatevectorSimulator,
    sv: StatevectorSimulator,
    entries: Seq<LogEntry>,
) -> bool
    decreases entries.len(),
{
    if entries.len() == 0 {
        sv == sv0
    } else {
        exists|mid: StatevectorSimulator|
            #![trigger replay_entry(mid, sv, entries.last())]
            replays(sv0, mid, entries.drop_last()) && replay_entry(mid, sv, entries.last())
    }
}

/// Holds the one live backend and routes operations to it.
pub struct RuntimeController {
    pub backend_type: BackendType,
    pub backend: Backend,
    pub num_qubits: usize,
    pub history: Vec<LogEntry>,
}

/// What promotion means: the tableau phase ends, and the new dense
/// backend is exactly a replay of the recorded history onto the fresh
/// `|0...0>` register — spec 4.2's conversion contract in this design.
pub open spec fn promoted_from(pre: RuntimeController, post: RuntimeController) -> bool {
    &&& pre.backend_type == BackendType::Tableau
    &&& post.backend_type == BackendType::Statevector
    &&& post.backend is Sv
    &&& post.num_qubits == pre.num_qubits
    &&& post.history@ == pre.history@
    &&& exists|sv0: StatevectorSimulator|
        #![trigger sv_init(sv0, pre.num_qubits)]
        sv_init(sv0, pre.num_qubits) && replays(sv0, post.backend->Sv_0, pre.history@)
}

/// Common frame of a tableau-mode step: both sides in tableau mode over
/// the same register size.
pub open spec fn tab_shell(pre: RuntimeController, post: RuntimeController) -> bool {
    &&& pre.backend_type == BackendType::Tableau
    &&& post.backend_type == BackendType::Tableau
    &&& pre.backend is Tab
    &&& post.backend is Tab
    &&& post.num_qubits == pre.num_qubits
}

/// Common frame of a dense-mode step: mode and history untouched.
pub open spec fn sv_shell(pre: RuntimeController, post: RuntimeController) -> bool {
    &&& pre.backend_type != BackendType::Tableau
    &&& post.backend_type == pre.backend_type
    &&& pre.backend is Sv
    &&& post.backend is Sv
    &&& post.num_qubits == pre.num_qubits
    &&& post.history@ == pre.history@
}

/// One Clifford gate forwarded to the live backend: in tableau mode
/// the tableau absorbs it and the history records it; in a dense mode
/// the statevector absorbs it and the history stands still.
pub open spec fn clifford_step(pre: RuntimeController, post: RuntimeController, op: IROp) -> bool {
    match op {
        IROp::H(q) => if pre.backend_type == BackendType::Tableau {
            &&& tab_shell(pre, post)
            &&& crate::tableau::tab_h(pre.backend->Tab_0, post.backend->Tab_0, q)
            &&& post.history@ == pre.history@.push(LogEntry::Gate(CliffordOp::H(q)))
        } else {
            &&& sv_shell(pre, post)
            &&& sv_gate(pre.backend->Sv_0, post.backend->Sv_0, q, h_spec())
        },
        IROp::S(q) => if pre.backend_type == BackendType::Tableau {
            &&& tab_shell(pre, post)
            &&& crate::tableau::tab_s(pre.backend->Tab_0, post.backend->Tab_0, q)
            &&& post.history@ == pre.history@.push(LogEntry::Gate(CliffordOp::S(q)))
        } else {
            &&& sv_shell(pre, post)
            &&& sv_gate(pre.backend->Sv_0, post.backend->Sv_0, q, s_spec())
        },
        IROp::CNOT(c, t) => if pre.backend_type == BackendType::Tableau {
            &&& tab_shell(pre, post)
            &&& crate::tableau::tab_cnot(pre.backend->Tab_0, post.backend->Tab_0, c, t)
            &&& post.history@ == pre.history@.push(LogEntry::Gate(CliffordOp::CNOT(c, t)))
        } else {
            &&& sv_shell(pre, post)
            &&& sv_cnot(pre.backend->Sv_0, post.backend->Sv_0, c, t)
        },
        _ => false,
    }
}

/// One non-Clifford Z-axis rotation: promotion happens first, exactly
/// once, when the tableau is still live; then the dense backend takes
/// the rotation.
pub open spec fn nonclifford_step(
    pre: RuntimeController,
    post: RuntimeController,
    q: usize,
    j: u8,
) -> bool {
    exists|mid: RuntimeController|
        #![trigger sv_shell(mid, post)]
        (if pre.backend_type == BackendType::Tableau {
            promoted_from(pre, mid)
        } else {
            mid == pre
        }) && sv_shell(mid, post) && sv_gate(mid.backend->Sv_0, post.backend->Sv_0, q, rz_spec(j))
}

/// One Toffoli (non-Clifford): promotion first if needed, then the
/// doubly-controlled pair swap on the dense backend.
pub open spec fn toffoli_step(
    pre: RuntimeController,
    post: RuntimeController,
    c1: usize,
    c2: usize,
    t: usize,
) -> bool {
    exists|mid: RuntimeController|
        #![trigger sv_shell(mid, post)]
        (if pre.backend_type == BackendType::Tableau {
            promoted_from(pre, mid)
        } else {
            mid == pre
        }) && sv_shell(mid, post) && sv_toffoli(mid.backend->Sv_0, post.backend->Sv_0, c1, c2, t)
}

/// One committed measurement: only the tableau serves it; the collapse
/// is `measure_post` for some coin, and the history records the qubit,
/// the outcome, and whether the outcome was undetermined.
pub open spec fn measure_step(
    pre: RuntimeController,
    post: RuntimeController,
    q: usize,
    outcome: bool,
) -> bool {
    &&& tab_shell(pre, post)
    &&& exists|coin: bool|
        #![trigger crate::tableau::measure_post(pre.backend->Tab_0, post.backend->Tab_0, q, coin, outcome)]
        crate::tableau::measure_post(pre.backend->Tab_0, post.backend->Tab_0, q, coin, outcome)
    &&& post.history@ == pre.history@.push(
        LogEntry::Collapse(q, outcome, crate::tableau::has_x_row(pre.backend->Tab_0, q)),
    )
}

/// How many committed outcomes one operation produces.
pub open spec fn measure_count(op: IROp) -> int {
    if is_measure(op) {
        1int
    } else {
        0int
    }
}

/// The semantics of one operation: which relation ties the controller
/// before it to the controller after it, and the outcomes it commits.
pub open spec fn op_step(
    pre: RuntimeController,
    post: RuntimeController,
    op: IROp,
    outs: Seq<bool>,
) -> bool {
    match op {
        IROp::H(_) => outs.len() == 0 && clifford_step(pre, post, op),
        IROp::S(_) => outs.len() == 0 && clifford_step(pre, post, op),
        IROp::CNOT(_, _) => outs.len() == 0 && clifford_step(pre, post, op),
        IROp::T(q) => outs.len() == 0 && nonclifford_step(pre, post, q, 1),
        IROp::RZ(q, j) => outs.len() == 0 && nonclifford_step(pre, post, q, j),
        IROp::Toffoli(c1, c2, t) => outs.len() == 0 && toffoli_step(pre, post, c1, c2, t),
        IROp::Measure(q) => outs.len() == 1 && measure_step(pre, post, q, outs[0]),
    }
}

/// Reachable by the fold, possibly followed by one promotion: the state
/// after a non-Clifford operation that promoted the tableau and then
/// failed on the exact range, leaving the promotion committed but the
/// gate unapplied.
pub open spec fn execs_then_maybe_promote(
    pre: RuntimeController,
    post: RuntimeController,
    ops: Seq<IROp>,
    outs: Seq<bool>,
) -> bool {
    ||| execs(pre, post, ops, outs)
    ||| exists|mid: RuntimeController|
        #![trigger promoted_from(mid, post)]
        execs(pre, mid, ops, outs) && promoted_from(mid, post)
}

/// The fold of the per-operation semantics over a sequence: `post` is
/// reachable from `pre` by executing `ops` in order, committing exactly
/// the outcomes `outs`, in order.
pub open spec fn execs(
    pre: RuntimeController,
    post: RuntimeController,
    ops: Seq<IROp>,
    outs: Seq<bool>,
) -> bool
    decreases ops.len(),
{
    if ops.len() == 0 {
        post == pre && outs.len() == 0
    } else {
        outs.len() >= measure_count(ops.last()) && exists|mid: RuntimeController|
            #![trigger op_step(mid, post, ops.last(), outs.skip(outs.len() - measure_count(ops.last())))]
            execs(pre, mid, ops.drop_last(), outs.take(outs.len() - measure_count(ops.last())))
                && op_step(mid, post, ops.last(), outs.skip(outs.len() - measure_count(ops.last())))
    }
}

impl RuntimeController {
    /// The tag matches the live backend, the backend matches the
    /// register size, and the recorded history is replayable.
    pub open spec fn wf(self) -> bool {
        &&& self.num_qubits <= MAX_QUBITS
        &&& match self.backend {
            Backend::Tab(t) => self.backend_type == BackendType::Tableau && t.wf()
                && t.num_qubits == self.num_qubits,
            Backend::Sv(sv) => self.backend_type == BackendType::Statevector && sv.wf()
                && sv.num_qubits == self.num_qubits,
        }
        &&& forall|i: int|
            0 <= i < self.history@.len() ==> entry_wf(
                #[trigger] self.history@[i],
                self.num_qubits,
            )
    }

    /// Fresh controller in tableau mode: the live backend is the
    /// `|0...0>` tableau of `Tableau::new`, the history is empty.
    pub fn new(num_qubits: usize) -> (r: RuntimeController)
        requires
            num_qubits <= MAX_QUBITS,
        ensures
            r.wf(),
            r.num_qubits == num_qubits,
            r.backend_type == BackendType::Tableau,
            r.backend is Tab,
            crate::tableau::tab_init(r.backend->Tab_0, num_qubits),
            r.history@.len() == 0,
    {
        RuntimeController {
            backend_type: BackendType::Tableau,
            backend: Backend::Tab(Tableau::new(num_qubits)),
            num_qubits,
            history: Vec::new(),
        }
    }

    /// The demotion extension point: a cost function consulted after
    /// each operation.  No demotion trigger is defined, so it always
    /// answers no.
    pub fn should_demote(&self) -> (r: bool)
        ensures
            r == false,
    {
        false
    }

    /// Materialize the dense statevector equivalent to the recorded
    /// tableau history by replaying it onto a fresh register, destroy
    /// the tableau, and switch to statevector mode.  A recorded random
    /// collapse is replayed as an exact projection of its
    /// half-probability branch; a determined one leaves the dense state
    /// as it stands.  On overflow the controller is untouched.
    fn promote_to_statevector(&mut self) -> (r: Result<(), SimError>)
        requires
            old(self).wf(),
            old(self).backend_type == BackendType::Tableau,
        ensures
            final(self).wf(),
            final(self).num_qubits == old(self).num_qubits,
            r is Ok ==> promoted_from(*old(self), *final(self)),
            r is Err ==> *final(self) == *old(self) && r == Err::<(), SimError>(
                SimError::CoefficientOverflow,
            ),
    {
        let n = self.num_qubits;
        let mut sv = StatevectorSimulator::new(n);
        let ghost sv0 = sv;
        let len = self.history.len();
        let mut i: usize = 0;
        proof {
            assert(self.history@.take(0) =~= Seq::<LogEntry>::empty());
        }
        while i < len
            invariant
                i <= len,
                len == self.history@.len(),
                self.wf(),
                self.backend_type == BackendType::Tableau,
                sv.wf(),
                sv.num_qubits == self.num_qubits,
                n == self.num_qubits,
                sv_init(sv0, n),
                replays(sv0, sv, self.history@.take(i as int)),
            decreases len - i,
        {
            let ghost svpre = sv;
            let entry = self.history[i];
            match entry {
                LogEntry::Gate(CliffordOp::H(q)) => {
                    match sv.apply_single_qubit_gate(q, Gates::h()) {
                        Ok(()) => (),
                        Err(e) => {
                            return Err(e);
                        },
                    }
                },
                LogEntry::Gate(CliffordOp::S(q)) => {
                    match sv.apply_single_qubit_gate(q, Gates::s()) {
                        Ok(()) => (),
                        Err(e) => {
                            return Err(e);
                        },
                    }
                },
                LogEntry::Gate(CliffordOp::CNOT(c, t)) => {
                    sv.apply_cnot(c, t);
                },
                LogEntry::Collapse(q, outcome, was_random) => {
                    if was_random {
                        match sv.collapse_z(q, outcome) {
                            Ok(()) => (),
                            Err(e) => {
                                return Err(e);
                            },
                        }
                    }
                },
            }
            proof {
                assert(self.history@.take(i + 1).drop_last() =~= self.history@.take(i as int));
                assert(self.history@.take(i + 1).last() == self.history@[i as int]);
                assert(replay_entry(svpre, sv, self.history@.take(i + 1).last()));
                assert(replays(sv0, svpre, self.history@.take(i + 1).drop_last()));
                assert(replays(sv0, sv, self.history@.take(i + 1)));
            }
            i = i + 1;
        }
        proof {
            assert(self.history@.take(len as int) =~= self.history@);
        }
        self.backend = Backend::Sv(sv);
        self.backend_type = BackendType::Statevector;
        proof {
            assert(promoted_from(*old(self), *self));
        }
        Ok(())
    }

    /// Process the operation sequence strictly in order: Clifford gates
    /// go to the live backend, the first non-Clifford gate promotes the
    /// tableau exactly once before that gate is applied, and each
    /// measurement commits one boolean outcome, in order, into the
    /// returned vector.  On success the final backend is reachable from
    /// the initial one by the fold of the per-operation semantics
    /// (`execs`); on an error a prefix of the operations has been
    /// applied per those semantics and the failing one has not.
    /// Measurement is served by the tableau; once promoted, a
    /// measurement request is refused, since collapsing a dense state of
    /// arbitrary outcome probability has no exact renormalization in
    /// this ring.
    pub fn execute(&mut self, ops: &Vec<IROp>) -> (r: Result<Vec<bool>, SimError>)
        requires
            old(self).wf(),
            forall|i: int| 0 <= i < ops@.len() ==> op_wf(#[trigger] ops@[i], old(self).num_qubits),
        ensures
            final(self).wf(),
            final(self).num_qubits == old(self).num_qubits,
            r is Ok ==> execs(*old(self), *final(self), ops@, r->Ok_0@),
            r is Ok ==> r->Ok_0@.len() == count_measures(ops@),
            r is Ok ==> (final(self).backend_type == BackendType::Tableau <==> old(self).backend_type == BackendType::Tableau && (forall|i: int|
                0 <= i < ops@.len() ==> !is_nonclifford(#[trigger] ops@[i]))),
            old(self).backend_type != BackendType::Tableau ==> final(self).backend_type == old(self).backend_type,
            old(self).backend_type == BackendType::Tableau && (forall|i: int|
                0 <= i < ops@.len() ==> !is_nonclifford(#[trigger] ops@[i])) ==> r is Ok,
            r is Err ==> exists|k: int, outs: Seq<bool>|
                #![auto]
                0 <= k < ops@.len() && execs_then_maybe_promote(
                    *old(self),
                    *final(self),
                    ops@.take(k),
                    outs,
                ) && (r->Err_0 == SimError::MeasurementUnsupported ==> is_measure(ops@[k]) && final(self).backend is Sv),
    {
        let len = ops.len();
        let mut results: Vec<bool> = Vec::new();
        let mut i: usize = 0;
        proof {
            assert(ops@.take(0) =~= Seq::<IROp>::empty());
        }
        while i < len
            invariant
                i <= len,
                len == ops@.len(),
                self.wf(),
                self.num_qubits == old(self).num_qubits,
                forall|t: int| 0 <= t < ops@.len() ==> op_wf(#[trigger] ops@[t], self.num_qubits),
                results@.len() == count_measures(ops@.take(i as int)),
                execs(*old(self), *self, ops@.take(i as int), results@),
                self.backend_type == BackendType::Tableau <==> old(self).backend_type
                    == BackendType::Tableau && (forall|t: int|
                    0 <= t < i ==> !is_nonclifford(#[trigger] ops@[t])),
                old(self).backend_type != BackendType::Tableau ==> self.backend_type == old(self).backend_type,
            decreases len - i,
        {
            proof {
                assert(ops@.take(i + 1).drop_last() =~= ops@.take(i as int));
                assert(ops@.take(i + 1).last() == ops@[i as int]);
            }
            let ghost prev = *self;
            let ghost pre_res = results@;
            let op = ops[i];
            let step_result: Result<(), SimError> = match op {
                IROp::H(q) => self.apply_clifford_h(q),
                IROp::S(q) => self.apply_clifford_s(q),
                IROp::CNOT(c, t) => self.apply_clifford_cnot(c, t),
                IROp::T(q) => self.apply_nonclifford_single(q, 1),
                IROp::RZ(q, j) => self.apply_nonclifford_single(q, j),
                IROp::Toffoli(c1, c2, t) => self.apply_toffoli(c1, c2, t),
                IROp::Measure(q) => {
                    match self.measure(q) {
                        Ok(outcome) => {
                            results.push(outcome);
                            Ok(())
                        },
                        Err(e) => Err(e),
                    }
                },
            };
            match step_result {
                Ok(()) => (),
                Err(e) => {
                    proof {
                        if old(self).backend_type == BackendType::Tableau && (forall|t2: int|
                            0 <= t2 < ops@.len() ==> !is_nonclifford(#[trigger] ops@[t2])) {
                            assert(!is_nonclifford(ops@[i as int]));
                            assert(prev.backend_type == BackendType::Tableau);
                            assert(false);
                        }
                        assert(results@ == pre_res);
                        assert(execs(*old(self), prev, ops@.take(i as int), pre_res));
                        if *self == prev {
                            assert(execs(*old(self), *self, ops@.take(i as int), pre_res));
                        } else {
                            assert(promoted_from(prev, *self));
                        }
                        assert(execs_then_maybe_promote(
                            *old(self),
                            *self,
                            ops@.take(i as int),
                            pre_res,
                        ));
                    }
                    return Err(e);
                },
            }
            proof {
                if is_measure(ops@[i as int]) {
                    assert(results@ == pre_res.push(results@.last()));
                    assert(results@.take(results@.len() - 1) =~= pre_res);
                    assert(results@.skip(results@.len() - 1) =~= seq![results@.last()]);
                    assert(op_step(
                        prev,
                        *self,
                        ops@.take(i + 1).last(),
                        results@.skip(results@.len() - measure_count(ops@.take(i + 1).last())),
                    ));
                } else {
                    assert(results@ == pre_res);
                    assert(results@.take(results@.len() as int) =~= results@);
                    assert(results@.skip(results@.len() as int) =~= Seq::<bool>::empty());
                    assert(op_step(
                        prev,
                        *self,
                        ops@.take(i + 1).last(),
                        results@.skip(results@.len() - measure_count(ops@.take(i + 1).last())),
                    ));
                }
                assert(execs(
                    *old(self),
                    prev,
                    ops@.take(i + 1).drop_last(),
                    results@.take(results@.len() - measure_count(ops@.take(i + 1).last())),
                ));
                assert(execs(*old(self), *self, ops@.take(i + 1), results@));
            }
            i = i + 1;
        }
        proof {
            assert(ops@.take(len as int) =~= ops@);
        }
        Ok(results)
    }

    /// Forward a Hadamard to the live backend, recording it while the
    /// tableau phase lasts.
    fn apply_clifford_h(&mut self, q: usize) -> (r: Result<(), SimError>)
        requires
            old(self).wf(),
            q < old(self).num_qubits,
        ensures
            final(self).wf(),
            final(self).num_qubits == old(self).num_qubits,
            final(self).backend_type == old(self).backend_type,
            old(self).backend_type == BackendType::Tableau ==> r is Ok,
            r is Ok ==> op_step(*old(self), *final(self), IROp::H(q), Seq::<bool>::empty()),
            r is Err ==> *final(self) == *old(self),
            r is Err ==> r == Err::<(), SimError>(SimError::CoefficientOverflow),
    {
        match &mut self.backend {
            Backend::Tab(t) => {
                t.apply_h(q);
                self.history.push(LogEntry::Gate(CliffordOp::H(q)));
                proof {
                    assert(op_step(*old(self), *self, IROp::H(q), Seq::<bool>::empty()));
                }
                Ok(())
            },
            Backend::Sv(sv) => {
                let r = sv.apply_single_qubit_gate(q, Gates::h());
                proof {
                    if r is Ok {
                        assert(op_step(*old(self), *self, IROp::H(q), Seq::<bool>::empty()));
                    }
                }
                r
            },
        }
    }

    /// Forward an S gate to the live backend, recording it while the
    /// tableau phase lasts.
    fn apply_clifford_s(&mut self, q: usize) -> (r: Result<(), SimError>)
        requires
            old(self).wf(),
            q < old(self).num_qubits,
        ensures
            final(self).wf(),
            final(self).num_qubits == old(self).num_qubits,
            final(self).backend_type == old(self).backend_type,
            old(self).backend_type == BackendType::Tableau ==> r is Ok,
            r is Ok ==> op_step(*old(self), *final(self), IROp::S(q), Seq::<bool>::empty()),
            r is Err ==> *final(self) == *old(self),
            r is Err ==> r == Err::<(), SimError>(SimError::CoefficientOverflow),
    {
        match &mut self.backend {
            Backend::Tab(t) => {
                t.apply_s(q);
                self.history.push(LogEntry::Gate(CliffordOp::S(q)));
                proof {
                    assert(op_step(*old(self), *self, IROp::S(q), Seq::<bool>::empty()));
                }
                Ok(())
            },
            Backend::Sv(sv) => {
                let r = sv.apply_single_qubit_gate(q, Gates::s());
                proof {
                    if r is Ok {
                        assert(op_step(*old(self), *self, IROp::S(q), Seq::<bool>::empty()));
                    }
                }
                r
            },
        }
    }

    /// Forward a CNOT to the live backend, recording it while the
    /// tableau phase lasts.
    fn apply_clifford_cnot(&mut self, c: usize, t: usize) -> (r: Result<(), SimError>)
        requires
            old(self).wf(),
            c < old(self).num_qubits,
            t < old(self).num_qubits,
            c != t,
        ensures
            final(self).wf(),
            final(self).num_qubits == old(self).num_qubits,
            final(self).backend_type == old(self).backend_type,
            old(self).backend_type == BackendType::Tableau ==> r is Ok,
            r is Ok ==> op_step(*old(self), *final(self), IROp::CNOT(c, t), Seq::<bool>::empty()),
            r is Err ==> *final(self) == *old(self),
            r is Err ==> r == Err::<(), SimError>(SimError::CoefficientOverflow),
    {
        match &mut self.backend {
            Backend::Tab(tab) => {
                tab.apply_cnot(c, t);
                self.history.push(LogEntry::Gate(CliffordOp::CNOT(c, t)));
                proof {
                    assert(op_step(*old(self), *self, IROp::CNOT(c, t), Seq::<bool>::empty()));
                }
                Ok(())
            },
            Backend::Sv(sv) => {
                sv.apply_cnot(c, t);
                proof {
                    assert(op_step(*old(self), *self, IROp::CNOT(c, t), Seq::<bool>::empty()));
                }
                Ok(())
            },
        }
    }

    /// A non-Clifford Z-axis rotation by `j` eighths of a turn (T is
    /// `j = 1`): promotes out of the tableau first if needed.
    fn apply_nonclifford_single(&mut self, q: usize, j: u8) -> (r: Result<(), SimError>)
        requires
            old(self).wf(),
            q < old(self).num_qubits,
        ensures
            final(self).wf(),
            final(self).num_qubits == old(self).num_qubits,
            old(self).backend_type != BackendType::Tableau ==> final(self).backend_type == old(self).backend_type,
            r is Ok ==> final(self).backend_type != BackendType::Tableau,
            r is Ok ==> op_step(*old(self), *final(self), IROp::RZ(q, j), Seq::<bool>::empty()),
            r is Err ==> *final(self) == *old(self) || promoted_from(*old(self), *final(self)),
            r is Ok && j == 1 ==> op_step(
                *old(self),
                *final(self),
                IROp::T(q),
                Seq::<bool>::empty(),
            ),
            r is Err ==> r == Err::<(), SimError>(SimError::CoefficientOverflow),
    {
        match self.backend_type {
            BackendType::Tableau => {
                match self.promote_to_statevector() {
                    Ok(()) => (),
                    Err(e) => {
                        return Err(e);
                    },
                }
            },
            _ => (),
        }
        let ghost mid = *self;
        match &mut self.backend {
            Backend::Sv(sv) => {
                let r = sv.apply_single_qubit_gate(q, Gates::rz(j));
                proof {
                    if r is Ok {
                        assert(sv_shell(mid, *self));
                        assert(sv_gate(mid.backend->Sv_0, self.backend->Sv_0, q, rz_spec(j)));
                        assert(nonclifford_step(*old(self), *self, q, j));
                    }
                }
                r
            },
            Backend::Tab(_) => Err(SimError::CoefficientOverflow),
        }
    }

    /// A Toffoli gate (non-Clifford): promotes out of the tableau
    /// first if needed, then swaps the doubly-controlled pairs.
    fn apply_toffoli(&mut self, c1: usize, c2: usize, t: usize) -> (r: Result<(), SimError>)
        requires
            old(self).wf(),
            c1 < old(self).num_qubits,
            c2 < old(self).num_qubits,
            t < old(self).num_qubits,
            c1 != t,
            c2 != t,
        ensures
            final(self).wf(),
            final(self).num_qubits == old(self).num_qubits,
            old(self).backend_type != BackendType::Tableau ==> final(self).backend_type == old(self).backend_type,
            r is Ok ==> final(self).backend_type != BackendType::Tableau,
            r is Ok ==> op_step(
                *old(self),
                *final(self),
                IROp::Toffoli(c1, c2, t),
                Seq::<bool>::empty(),
            ),
            r is Err ==> *final(self) == *old(self) || promoted_from(*old(self), *final(self)),
            r is Err ==> r == Err::<(), SimError>(SimError::CoefficientOverflow),
    {
        match self.backend_type {
            BackendType::Tableau => {
                match self.promote_to_statevector() {
                    Ok(()) => (),
                    Err(e) => {
                        return Err(e);
                    },
                }
            },
            _ => (),
        }
        let ghost mid = *self;
        match &mut self.backend {
            Backend::Sv(sv) => {
                sv.apply_toffoli(c1, c2, t);
                proof {
                    assert(sv_shell(mid, *self));
                    assert(sv_toffoli(mid.backend->Sv_0, self.backend->Sv_0, c1, c2, t));
                    assert(toffoli_step(*old(self), *self, c1, c2, t));
                }
                Ok(())
            },
            Backend::Tab(_) => Err(SimError::CoefficientOverflow),
        }
    }

    /// Commit one Z measurement.  In tableau mode the outcome (and
    /// whether it was undetermined) is recorded for exact replay at
    /// promotion; in a dense mode the request is refused.
    fn measure(&mut self, q: usize) -> (r: Result<bool, SimError>)
        requires
            old(self).wf(),
            q < old(self).num_qubits,
        ensures
            final(self).wf(),
            final(self).num_qubits == old(self).num_qubits,
            final(self).backend_type == old(self).backend_type,
            r is Err <==> old(self).backend is Sv,
            r is Err ==> *final(self) == *old(self) && r == Err::<bool, SimError>(
                SimError::MeasurementUnsupported,
            ),
            r is Ok ==> op_step(*old(self), *final(self), IROp::Measure(q), seq![r->Ok_0]),
    {
        let ghost n = self.num_qubits;
        match &mut self.backend {
            Backend::Tab(t) => {
                let rows = 2 * t.num_qubits;
                let mut was_random = false;
                let mut r2: usize = 0;
                while r2 < rows
                    invariant
                        r2 <= rows,
                        t.wf(),
                        t.num_qubits == n,
                        q < n,
                        rows == 2 * n,
                        was_random <==> exists|r3: int|
                            0 <= r3 < r2 && crate::tableau::row_x(#[trigger] t.data@[r3], q),
                    decreases rows - r2,
                {
                    if t.x_bit(r2, q) {
                        was_random = true;
                    }
                    r2 = r2 + 1;
                }
                proof {
                    assert(was_random == crate::tableau::has_x_row(*t, q));
                }
                let outcome = t.measure_z(q);
                self.history.push(LogEntry::Collapse(q, outcome, was_random));
                proof {
                    assert((seq![outcome]).len() == 1 && (seq![outcome])[0] == outcome);
                }
                Ok(outcome)
            },
            Backend::Sv(_) => Err(SimError::MeasurementUnsupported),
        }
    }
}

} // verus!
