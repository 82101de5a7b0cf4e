//! The operation set that the controller executes.
//!
//! An external compiler hands the controller an ordered sequence of
//! these, and the controller executes them opaquely.  A Z rotation is
//! given in eighths of a full turn (multiples of `pi/4`), the largest
//! angle family with an exact amplitude in this ring: 2 is the S gate,
//! 4 is Z, 1 is T.

use vstd::prelude::*;

verus! {

/// One gate operation.
#[derive(Clone, Copy, Debug, PartialEq, Eq, Structural)]
pub enum IROp {
    H(usize),
    S(usize),
    CNOT(usize, usize),
    T(usize),
    RZ(usize, u8),
    Toffoli(usize, usize, usize),
    Measure(usize),
}

/// The operation is a non-Clifford gate (forces promotion).
pub open spec fn is_nonclifford(op: IROp) -> bool {
    match op {
        IROp::T(_) => true,
        IROp::RZ(_, _) => true,
        IROp::Toffoli(_, _, _) => true,
        _ => false,
    }
}

/// The operation is a committed measurement.
pub open spec fn is_measure(op: IROp) -> bool {
    match op {
        IROp::Measure(_) => true,
        _ => false,
    }
}

/// Every qubit index in `op` is in range, and no gate aliases its
/// control with its target.
pub open spec fn op_wf(op: IROp, n: usize) -> bool {
    match op {
        IROp::H(q) => q < n,
        IROp::S(q) => q < n,
        IROp::CNOT(c, t) => c < n && t < n && c != t,
        IROp::T(q) => q < n,
        IROp::RZ(q, _) => q < n,
        IROp::Toffoli(c1, c2, t) => c1 < n && c2 < n && t < n && c1 != t && c2 != t,
        IROp::Measure(q) => q < n,
    }
}

/// Number of measurement operations in a sequence.
pub open spec fn count_measures(s: Seq<IROp>) -> int
    decreases s.len(),
{
    if s.len() == 0 {
        0
    } else {
        count_measures(s.drop_last()) + if is_measure(s.last()) {
            1int
        } else {
            0int
        }
    }
}

/// Number of non-Clifford gates in a sequence, T and Z rotations as the
/// scheduling heuristic counts them.
pub open spec fn count_nc(s: Seq<IROp>) -> int
    decreases s.len(),
{
    if s.len() == 0 {
        0
    } else {
        count_nc(s.drop_last()) + (match s.last() {
            IROp::T(_) => 1int,
            IROp::RZ(_, _) => 1int,
            _ => 0int,
        })
    }
}

/// Count the T and Z-rotation operations of a program: the advisory
/// promotion-scheduling statistic.  Absence of the hint never changes
/// what the controller computes, only possibly its cost.
pub fn count_nonclifford(ops: &Vec<IROp>) -> (r: usize)
    ensures
        r == count_nc(ops@),
{
    let len = ops.len();
    let mut count: usize = 0;
    let mut i: usize = 0;
    proof {
        assert(ops@.take(0) =~= Seq::<IROp>::empty());
    }
    while i < len
        invariant
            i <= len,
            len == ops@.len(),
            count == count_nc(ops@.take(i as int)),
            count <= i,
        decreases len - i,
    {
        proof {
            assert(ops@.take(i + 1).drop_last() =~= ops@.take(i as int));
            assert(ops@.take(i + 1).last() == ops@[i as int]);
        }
        match ops[i] {
            IROp::T(_) => {
                count = count + 1;
            },
            IROp::RZ(_, _) => {
                count = count + 1;
            },
            _ => (),
        }
        i = i + 1;
    }
    proof {
        assert(ops@.take(len as int) =~= ops@);
    }
    count
}

} // verus!
