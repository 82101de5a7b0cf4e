use quantum_sim::amplitude::{Amplitude, Weight};
use quantum_sim::controller::{Backend, BackendType, RuntimeController};
use quantum_sim::errors::SimError;
use quantum_sim::gates::Gates;
use quantum_sim::ir::{count_nonclifford, IROp};
use quantum_sim::rank_decomp::{compose_terms, CliffordTerm, Gate, NonCliffordGate,
    RankDecompositionSimulator};
use quantum_sim::statevector::StatevectorSimulator;
use quantum_sim::tableau::{xor_row, Tableau};

fn weight_to_f64(w: &Weight, shift: u32) -> f64 {
    (w.w1 as f64 + w.w2 as f64 * 2f64.sqrt()) / 2f64.powi(shift as i32)
}

#[test]
fn tableau_initializes_to_zero_state() {
    let t = Tableau::new(2);
    // Verify first n rows are Z stabilizers
    for row in 0..4 {
        for q in 0..2 {
            assert!(!t.x_bit(row, q));
            assert_eq!(t.z_bit(row, q), row == q);
        }
        assert!(!t.phase_bit(row));
    }
}

#[test]
fn apply_h_swaps_x_and_z() {
    let mut t = Tableau::new(1);
    t.apply_h(0);
    // After H, Z stabilizer becomes X stabilizer
    assert!(t.x_bit(0, 0));
    assert!(!t.z_bit(0, 0));
    assert!(!t.phase_bit(0));
}

#[test]
fn apply_cnot_preserves_stabilizer_relations() {
    let mut t = Tableau::new(2);
    t.apply_h(0);
    t.apply_cnot(0, 1);
    // The X stabilizer on the control spreads onto the target.
    assert!(t.x_bit(0, 0));
    assert!(t.x_bit(0, 1));
    assert!(!t.z_bit(0, 0));
    assert!(!t.z_bit(0, 1));
}

#[test]
fn measurement_returns_valid_bit() {
    let mut t = Tableau::new(1);
    let outcome = t.measure_z(0);
    assert!(outcome == false || outcome == true);
}

#[test]
fn fresh_state_measures_deterministically_zero() {
    let mut t = Tableau::new(1);
    // No row anticommutes with Z, whatever the coin says.
    assert_eq!(t.measure_z_with(0, true), false);
    assert_eq!(t.measure_z_with(0, false), false);
}

#[test]
fn repeated_measurement_returns_same_outcome() {
    let mut t = Tableau::new(1);
    t.apply_h(0);
    // The superposed qubit measures randomly (here: the injected coin),
    // then collapses; the second measurement is determined.
    let o1 = t.measure_z_with(0, true);
    assert_eq!(o1, true);
    let o2 = t.measure_z_with(0, false);
    assert_eq!(o2, o1);
    let o3 = t.measure_z_with(0, true);
    assert_eq!(o3, o1);
}

#[test]
fn repeat_measurement_with_two_anticommuting_rows() {
    let mut t = Tableau::new(2);
    t.apply_h(0);
    t.apply_h(1);
    t.apply_cnot(1, 0);
    // Both stabilizer rows now anticommute with a Z measurement of
    // qubit 0; collapsing must clear the second row's X bit too.
    assert!(t.x_bit(0, 0));
    assert!(t.x_bit(1, 0));
    let o1 = t.measure_z_with(0, true);
    assert_eq!(o1, true);
    assert_eq!(t.measure_z_with(0, false), o1);
    assert_eq!(t.measure_z_with(0, true), o1);
}

#[test]
fn s_gate_turns_x_into_y() {
    let mut t = Tableau::new(1);
    t.apply_h(0);
    t.apply_s(0);
    // X -> Y: both X and Z set on the stabilizer row.
    assert!(t.x_bit(0, 0));
    assert!(t.z_bit(0, 0));
}

#[test]
fn xor_row_combines_and_keeps_tail() {
    let mut dst = vec![true, false, true, false];
    let src = vec![true, true];
    xor_row(&mut dst, &src);
    assert_eq!(dst, vec![false, true, true, false]);
}

#[test]
fn count_nonclifford_counts_t_and_rz() {
    let ops = vec![
        IROp::H(0),
        IROp::T(1),
        IROp::CNOT(0, 1),
        IROp::RZ(0, 3),
        IROp::Toffoli(0, 1, 2),
        IROp::Measure(0),
        IROp::T(0),
    ];
    assert_eq!(count_nonclifford(&ops), 3);
}

#[test]
fn hybrid_execution_switches_modes() {
    let mut c = RuntimeController::new(2);
    assert_eq!(c.backend_type, BackendType::Tableau);
    let ops = vec![
        IROp::H(0),
        IROp::CNOT(0, 1),
        IROp::Measure(0),
        IROp::Measure(1),
        IROp::T(0),
        IROp::S(1),
    ];
    let result = c.execute(&ops).unwrap();
    assert_eq!(result.len(), 2);
    // The promoted dense backend is live, and the tag matches it.
    assert_eq!(c.backend_type, BackendType::Statevector);
}

#[test]
fn measurement_after_promotion_is_refused() {
    let mut c = RuntimeController::new(1);
    let ops = vec![IROp::T(0), IROp::Measure(0)];
    assert_eq!(c.execute(&ops), Err(SimError::MeasurementUnsupported));
}

#[test]
fn promotion_matches_direct_statevector_run() {
    // Clifford circuit through the tableau, promoted by a trailing
    // identity-angle rotation, against the same circuit run densely.
    let mut c = RuntimeController::new(2);
    let ops = vec![IROp::H(0), IROp::S(0), IROp::CNOT(0, 1), IROp::RZ(0, 0)];
    c.execute(&ops).unwrap();
    let promoted = match &c.backend {
        Backend::Sv(sv) => sv,
        Backend::Tab(_) => panic!("promotion did not happen"),
    };

    let mut direct = StatevectorSimulator::new(2);
    direct.apply_single_qubit_gate(0, Gates::h()).unwrap();
    direct.apply_single_qubit_gate(0, Gates::s()).unwrap();
    direct.apply_cnot(0, 1);
    direct.apply_single_qubit_gate(0, Gates::rz(0)).unwrap();

    let pp = promoted.measure_all().unwrap();
    let dp = direct.measure_all().unwrap();
    assert_eq!(pp.len(), dp.len());
    for i in 0..pp.len() {
        let a = weight_to_f64(&pp[i], promoted.shift);
        let b = weight_to_f64(&dp[i], direct.shift);
        assert!((a - b).abs() < 1e-10);
    }
}

#[test]
fn t_gate_expands_to_two_terms() {
    let mut rd = RankDecompositionSimulator::new(1, 16);
    rd.approximate_nonclifford(NonCliffordGate::T(0)).unwrap();
    assert_eq!(rd.terms.len(), 2);
    assert_eq!(rd.shift, 2);
    assert_eq!(rd.terms[0].coeff, Amplitude::new(1, 1, 0, 0));
    assert!(rd.terms[0].gates.is_empty());
    assert_eq!(rd.terms[1].coeff, Amplitude::new(1, -1, 0, 0));
    assert_eq!(rd.terms[1].gates, vec![Gate::S(0), Gate::S(0)]);
}

#[test]
fn term_budget_is_enforced() {
    let mut rd = RankDecompositionSimulator::new(1, 3);
    rd.approximate_nonclifford(NonCliffordGate::T(0)).unwrap();
    assert_eq!(rd.terms.len(), 2);
    let r = rd.approximate_nonclifford(NonCliffordGate::T(0));
    assert_eq!(r, Err(SimError::TermBudgetExceeded));
    assert_eq!(rd.terms.len(), 2);
}

#[test]
fn compose_terms_takes_outer_product() {
    let a = vec![
        CliffordTerm { coeff: Amplitude::one(), gates: vec![Gate::H(0)] },
        CliffordTerm { coeff: Amplitude::new(0, 1, 0, 0), gates: vec![Gate::S(0)] },
    ];
    let b = vec![
        CliffordTerm { coeff: Amplitude::new(2, 0, 0, 0), gates: vec![Gate::CNOT(0, 1)] },
        CliffordTerm { coeff: Amplitude::new(0, 0, 1, 0), gates: vec![Gate::CZ(0, 1)] },
    ];
    let out = compose_terms(&a, &b).unwrap();
    assert_eq!(out.len(), 4);
    assert_eq!(out[0].gates, vec![Gate::H(0), Gate::CNOT(0, 1)]);
    assert_eq!(out[0].coeff, Amplitude::new(2, 0, 0, 0));
    assert_eq!(out[3].gates, vec![Gate::S(0), Gate::CZ(0, 1)]);
    // w * i = w^3
    assert_eq!(out[3].coeff, Amplitude::new(0, 0, 0, 1));
}

#[test]
fn prune_respects_error_budget() {
    let mut rd = RankDecompositionSimulator::new(1, 16);
    rd.approximate_nonclifford(NonCliffordGate::T(0)).unwrap();
    // Each term has squared weight 2 +- sqrt(2); a zero budget keeps
    // everything.
    rd.prune(Weight { w1: 0, w2: 0 });
    assert_eq!(rd.terms.len(), 2);
    // A budget of 4 covers both terms (total 4 + 0*sqrt(2)).
    rd.prune(Weight { w1: 4, w2: 0 });
    assert_eq!(rd.terms.len(), 0);
}

#[test]
fn combine_terms_drops_nothing_with_weight() {
    let mut rd = RankDecompositionSimulator::new(1, 16);
    rd.approximate_nonclifford(NonCliffordGate::T(0)).unwrap();
    rd.combine_terms();
    assert_eq!(rd.terms.len(), 2);
}
