//! Error reporting shared by the engines and the runtime controller.

use vstd::prelude::*;

verus! {

/// Why an engine refused an operation.  No engine mutates its state when
/// it reports an error.
#[derive(Clone, Copy, Debug, PartialEq, Eq, Structural)]
pub enum SimError {
    /// An exact amplitude coefficient would leave the representable range.
    CoefficientOverflow,
    /// The stabilizer-rank term count would exceed the configured budget.
    TermBudgetExceeded,
    /// A committed measurement was requested from a backend that only
    /// reports probabilities.
    MeasurementUnsupported,
}

} // verus!
