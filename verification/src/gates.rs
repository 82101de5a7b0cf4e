//! The fixed single-qubit gate matrices.
//!
//! A 2x2 gate is held as four exact amplitudes together with a
//! denominator exponent `k`: to read the true matrix, divide each
//! entry by `sqrt(2)^k`.  Every gate this module offers is exact in
//! that form; the Hadamard gate carries `k = 1`, all others `k = 0`.

use vstd::prelude::*;

use crate::amplitude::Amplitude;

verus! {

/// A 2x2 matrix of exact amplitudes, to be read as `entries / sqrt(2)^k`.
#[derive(Clone, Copy, Debug, PartialEq, Eq, Structural)]
pub struct GateMatrix {
    pub e00: Amplitude,
    pub e01: Amplitude,
    pub e10: Amplitude,
    pub e11: Amplitude,
    pub k: u32,
}

/// The coefficient quadruple of `w^j` for `j` in `0..8`,
/// `w = e^{i*pi/4}`; entry order is `(a, b, c, d)`.
pub open spec fn omega_pow_spec(j: u8) -> Amplitude {
    if j % 8 == 0 {
        Amplitude { a: 1i64, b: 0i64, c: 0i64, d: 0i64 }
    } else if j % 8 == 1 {
        Amplitude { a: 0i64, b: 1i64, c: 0i64, d: 0i64 }
    } else if j % 8 == 2 {
        Amplitude { a: 0i64, b: 0i64, c: 1i64, d: 0i64 }
    } else if j % 8 == 3 {
        Amplitude { a: 0i64, b: 0i64, c: 0i64, d: 1i64 }
    } else if j % 8 == 4 {
        Amplitude { a: -1i64, b: 0i64, c: 0i64, d: 0i64 }
    } else if j % 8 == 5 {
        Amplitude { a: 0i64, b: -1i64, c: 0i64, d: 0i64 }
    } else if j % 8 == 6 {
        Amplitude { a: 0i64, b: 0i64, c: -1i64, d: 0i64 }
    } else {
        Amplitude { a: 0i64, b: 0i64, c: 0i64, d: -1i64 }
    }
}

/// The eighth root of unity `w^j`.
pub fn omega_pow(j: u8) -> (r: Amplitude)
    ensures
        r == omega_pow_spec(j),
{
    let m = j % 8;
    if m == 0 {
        Amplitude { a: 1, b: 0, c: 0, d: 0 }
    } else if m == 1 {
        Amplitude { a: 0, b: 1, c: 0, d: 0 }
    } else if m == 2 {
        Amplitude { a: 0, b: 0, c: 1, d: 0 }
    } else if m == 3 {
        Amplitude { a: 0, b: 0, c: 0, d: 1 }
    } else if m == 4 {
        Amplitude { a: -1, b: 0, c: 0, d: 0 }
    } else if m == 5 {
        Amplitude { a: 0, b: -1, c: 0, d: 0 }
    } else if m == 6 {
        Amplitude { a: 0, b: 0, c: -1, d: 0 }
    } else {
        Amplitude { a: 0, b: 0, c: 0, d: -1 }
    }
}

/// The Hadamard matrix as a spec value: `[[1, 1], [1, -1]] / sqrt(2)`.
pub open spec fn h_spec() -> GateMatrix {
    GateMatrix {
        e00: Amplitude { a: 1i64, b: 0i64, c: 0i64, d: 0i64 },
        e01: Amplitude { a: 1i64, b: 0i64, c: 0i64, d: 0i64 },
        e10: Amplitude { a: 1i64, b: 0i64, c: 0i64, d: 0i64 },
        e11: Amplitude { a: -1i64, b: 0i64, c: 0i64, d: 0i64 },
        k: 1u32,
    }
}

/// The S matrix as a spec value: `[[1, 0], [0, i]]`.
pub open spec fn s_spec() -> GateMatrix {
    GateMatrix {
        e00: Amplitude { a: 1i64, b: 0i64, c: 0i64, d: 0i64 },
        e01: Amplitude { a: 0i64, b: 0i64, c: 0i64, d: 0i64 },
        e10: Amplitude { a: 0i64, b: 0i64, c: 0i64, d: 0i64 },
        e11: Amplitude { a: 0i64, b: 0i64, c: 1i64, d: 0i64 },
        k: 0u32,
    }
}

/// The Z-axis rotation by `j` eighths of a turn as a spec value:
/// `[[1, 0], [0, w^j]]`; `j = 1` is the T gate.
pub open spec fn rz_spec(j: u8) -> GateMatrix {
    GateMatrix {
        e00: Amplitude { a: 1i64, b: 0i64, c: 0i64, d: 0i64 },
        e01: Amplitude { a: 0i64, b: 0i64, c: 0i64, d: 0i64 },
        e10: Amplitude { a: 0i64, b: 0i64, c: 0i64, d: 0i64 },
        e11: omega_pow_spec(j),
        k: 0u32,
    }
}

/// The standard gate matrices.
pub struct Gates;

impl Gates {
    /// Pauli X: `[[0, 1], [1, 0]]`.
    pub fn x() -> (r: GateMatrix)
        ensures
            r == (GateMatrix {
                e00: Amplitude { a: 0i64, b: 0i64, c: 0i64, d: 0i64 },
                e01: Amplitude { a: 1i64, b: 0i64, c: 0i64, d: 0i64 },
                e10: Amplitude { a: 1i64, b: 0i64, c: 0i64, d: 0i64 },
                e11: Amplitude { a: 0i64, b: 0i64, c: 0i64, d: 0i64 },
                k: 0u32,
            }),
    {
        GateMatrix {
            e00: Amplitude::zero(),
            e01: Amplitude::one(),
            e10: Amplitude::one(),
            e11: Amplitude::zero(),
            k: 0,
        }
    }

    /// Hadamard: `[[1, 1], [1, -1]] / sqrt(2)`.
    pub fn h() -> (r: GateMatrix)
        ensures
            r == (GateMatrix {
                e00: Amplitude { a: 1i64, b: 0i64, c: 0i64, d: 0i64 },
                e01: Amplitude { a: 1i64, b: 0i64, c: 0i64, d: 0i64 },
                e10: Amplitude { a: 1i64, b: 0i64, c: 0i64, d: 0i64 },
                e11: Amplitude { a: -1i64, b: 0i64, c: 0i64, d: 0i64 },
                k: 1u32,
            }),
            r == h_spec(),
    {
        GateMatrix {
            e00: Amplitude::one(),
            e01: Amplitude::one(),
            e10: Amplitude::one(),
            e11: Amplitude { a: -1, b: 0, c: 0, d: 0 },
            k: 1,
        }
    }

    /// Pauli Z: `[[1, 0], [0, -1]]`.
    pub fn z() -> (r: GateMatrix)
        ensures
            r == (GateMatrix {
                e00: Amplitude { a: 1i64, b: 0i64, c: 0i64, d: 0i64 },
                e01: Amplitude { a: 0i64, b: 0i64, c: 0i64, d: 0i64 },
                e10: Amplitude { a: 0i64, b: 0i64, c: 0i64, d: 0i64 },
                e11: Amplitude { a: -1i64, b: 0i64, c: 0i64, d: 0i64 },
                k: 0u32,
            }),
    {
        GateMatrix {
            e00: Amplitude::one(),
            e01: Amplitude::zero(),
            e10: Amplitude::zero(),
            e11: Amplitude { a: -1, b: 0, c: 0, d: 0 },
            k: 0,
        }
    }

    /// Pauli Y: `[[0, -i], [i, 0]]`.
    pub fn y() -> (r: GateMatrix)
        ensures
            r == (GateMatrix {
                e00: Amplitude { a: 0i64, b: 0i64, c: 0i64, d: 0i64 },
                e01: Amplitude { a: 0i64, b: 0i64, c: -1i64, d: 0i64 },
                e10: Amplitude { a: 0i64, b: 0i64, c: 1i64, d: 0i64 },
                e11: Amplitude { a: 0i64, b: 0i64, c: 0i64, d: 0i64 },
                k: 0u32,
            }),
    {
        GateMatrix {
            e00: Amplitude::zero(),
            e01: Amplitude { a: 0, b: 0, c: -1, d: 0 },
            e10: Amplitude { a: 0, b: 0, c: 1, d: 0 },
            e11: Amplitude::zero(),
            k: 0,
        }
    }

    /// Phase gate S: `[[1, 0], [0, i]]`.
    pub fn s() -> (r: GateMatrix)
        ensures
            r == (GateMatrix {
                e00: Amplitude { a: 1i64, b: 0i64, c: 0i64, d: 0i64 },
                e01: Amplitude { a: 0i64, b: 0i64, c: 0i64, d: 0i64 },
                e10: Amplitude { a: 0i64, b: 0i64, c: 0i64, d: 0i64 },
                e11: Amplitude { a: 0i64, b: 0i64, c: 1i64, d: 0i64 },
                k: 0u32,
            }),
            r == s_spec(),
    {
        GateMatrix {
            e00: Amplitude::one(),
            e01: Amplitude::zero(),
            e10: Amplitude::zero(),
            e11: Amplitude { a: 0, b: 0, c: 1, d: 0 },
            k: 0,
        }
    }

    /// T gate: `[[1, 0], [0, w]]`, `w = e^{i*pi/4}`.
    pub fn t() -> (r: GateMatrix)
        ensures
            r == (GateMatrix {
                e00: Amplitude { a: 1i64, b: 0i64, c: 0i64, d: 0i64 },
                e01: Amplitude { a: 0i64, b: 0i64, c: 0i64, d: 0i64 },
                e10: Amplitude { a: 0i64, b: 0i64, c: 0i64, d: 0i64 },
                e11: Amplitude { a: 0i64, b: 1i64, c: 0i64, d: 0i64 },
                k: 0u32,
            }),
            r == rz_spec(1),
    {
        GateMatrix {
            e00: Amplitude::one(),
            e01: Amplitude::zero(),
            e10: Amplitude::zero(),
            e11: Amplitude { a: 0, b: 1, c: 0, d: 0 },
            k: 0,
        }
    }

    /// Z-axis rotation by `j` eighths of a full turn: `[[1, 0], [0, w^j]]`.
    /// Angles that are not a multiple of `pi/4` have no exact amplitude
    /// in this ring and are outside this gate set.
    pub fn rz(j: u8) -> (r: GateMatrix)
        ensures
            r == (GateMatrix {
                e00: Amplitude { a: 1i64, b: 0i64, c: 0i64, d: 0i64 },
                e01: Amplitude { a: 0i64, b: 0i64, c: 0i64, d: 0i64 },
                e10: Amplitude { a: 0i64, b: 0i64, c: 0i64, d: 0i64 },
                e11: omega_pow_spec(j),
                k: 0u32,
            }),
            r == rz_spec(j),
    {
        GateMatrix {
            e00: Amplitude::one(),
            e01: Amplitude::zero(),
            e10: Amplitude::zero(),
            e11: omega_pow(j),
            k: 0,
        }
    }
}

} // verus!
