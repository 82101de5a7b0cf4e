use quantum_sim::amplitude::{Amplitude, Weight};
use quantum_sim::bits::{flip_bit, get_bit};
use quantum_sim::errors::SimError;
use quantum_sim::gates::Gates;
use quantum_sim::grover::{apply_diffusion, apply_oracle, run_demo};
use quantum_sim::statevector::StatevectorSimulator;

fn weight_to_f64(w: &Weight, shift: u32) -> f64 {
    (w.w1 as f64 + w.w2 as f64 * 2f64.sqrt()) / 2f64.powi(shift as i32)
}

fn total_probability(sim: &StatevectorSimulator) -> f64 {
    let probs = sim.measure_all().unwrap();
    probs.iter().map(|w| weight_to_f64(w, sim.shift)).sum()
}

#[test]
fn complex_add_and_mul() {
    let a = Amplitude::from_re_im(1, 2);
    let b = Amplitude::from_re_im(3, -1);

    let sum = a.add(&b).unwrap();
    assert_eq!(sum, Amplitude::from_re_im(4, 1));

    let prod = a.mul(&b).unwrap();
    assert_eq!(prod, Amplitude::from_re_im(5, 5));
}

#[test]
fn utils_bit_helpers() {
    assert_eq!(get_bit(0b101, 0), true); // least significant bit
    assert_eq!(get_bit(0b101, 1), false);
    assert_eq!(get_bit(0b101, 2), true);

    assert_eq!(flip_bit(0b101, 0), 0b100);
    assert_eq!(flip_bit(0b101, 2), 0b001);
}

#[test]
fn simulator_initial_state_is_all_zero() {
    let sim = StatevectorSimulator::new(3);
    assert_eq!(sim.state.len(), 8);
    for (i, amp) in sim.state.iter().enumerate() {
        if i == 0 {
            assert_eq!(*amp, Amplitude::one());
        } else {
            assert_eq!(*amp, Amplitude::zero());
        }
    }
}

#[test]
fn apply_x_gate_flips_state() {
    let mut sim = StatevectorSimulator::new(1);
    sim.apply_single_qubit_gate(0, Gates::x()).unwrap();
    // Should now be in |1>
    assert_eq!(sim.state[0], Amplitude::zero());
    assert_eq!(sim.state[1], Amplitude::one());
}

#[test]
fn apply_z_gate_applies_phase() {
    let mut sim = StatevectorSimulator::new(1);
    // Start in |0>, apply H to go to (|0>+|1>)/sqrt(2)
    sim.apply_single_qubit_gate(0, Gates::h()).unwrap();
    let before = sim.state.clone();

    // Apply Z -> should flip sign on |1> component
    sim.apply_single_qubit_gate(0, Gates::z()).unwrap();
    assert_eq!(sim.state[0], before[0]);
    assert_eq!(sim.state[1], before[1].neg().unwrap());
}

#[test]
fn apply_h_gate_creates_superposition() {
    let mut sim = StatevectorSimulator::new(1);
    sim.apply_single_qubit_gate(0, Gates::h()).unwrap();
    let probs = sim.measure_all().unwrap();
    let prob_0 = weight_to_f64(&probs[0], sim.shift);
    let prob_1 = weight_to_f64(&probs[1], sim.shift);
    assert!((prob_0 - 0.5).abs() < 1e-12);
    assert!((prob_1 - 0.5).abs() < 1e-12);
}

#[test]
fn bell_state_creation() {
    // Test H + controlled-X produces (|00> + |11>)/sqrt(2)
    let mut sim = StatevectorSimulator::new(2);
    sim.apply_single_qubit_gate(0, Gates::h()).unwrap();
    sim.apply_controlled_gate(0, 1, Gates::x()).unwrap();

    let probs = sim.measure_all().unwrap();
    let p00 = weight_to_f64(&probs[0], sim.shift);
    let p11 = weight_to_f64(&probs[3], sim.shift);
    assert!((p00 - 0.5).abs() < 1e-12);
    assert!((p11 - 0.5).abs() < 1e-12);

    // |01> and |10> should have prob ~ 0
    assert!(weight_to_f64(&probs[1], sim.shift) < 1e-12);
    assert!(weight_to_f64(&probs[2], sim.shift) < 1e-12);
}

#[test]
fn oracle_phase_flip_marks_state() {
    let n = 3;
    let marked = 5;
    let mut sim = StatevectorSimulator::new(n);
    // Put into equal superposition
    for q in 0..n {
        sim.apply_single_qubit_gate(q, Gates::h()).unwrap();
    }
    let before = sim.state[marked];
    apply_oracle(&mut sim, marked).unwrap();
    assert_eq!(sim.state[marked], before.neg().unwrap());
}

#[test]
fn diffusion_operator_preserves_norm() {
    let n = 2;
    let mut sim = StatevectorSimulator::new(n);
    for q in 0..n {
        sim.apply_single_qubit_gate(q, Gates::h()).unwrap();
    }
    let norm_before = total_probability(&sim);

    apply_diffusion(&mut sim).unwrap();

    let norm_after = total_probability(&sim);
    assert!((norm_before - norm_after).abs() < 1e-10);
}

#[test]
fn cnot_creates_entanglement() {
    let mut sim = StatevectorSimulator::new(2);
    sim.apply_single_qubit_gate(0, Gates::h()).unwrap();
    sim.apply_cnot(0, 1);
    let probs = sim.measure_all().unwrap();
    // Should be |00> + |11> superposition
    assert!((weight_to_f64(&probs[0], sim.shift) - 0.5).abs() < 1e-12);
    assert!((weight_to_f64(&probs[3], sim.shift) - 0.5).abs() < 1e-12);
    assert!(weight_to_f64(&probs[1], sim.shift) < 1e-12);
    assert!(weight_to_f64(&probs[2], sim.shift) < 1e-12);
}

#[test]
fn toffoli_works_as_expected() {
    let mut sim = StatevectorSimulator::new(3);
    // Prepare |011> (controls = 1, target = 0)
    sim.state[0] = Amplitude::zero();
    sim.state[3] = Amplitude::one();
    sim.apply_toffoli(0, 1, 2);
    // Expect |111>
    assert_eq!(sim.state[7], Amplitude::one());
    assert_eq!(sim.state[3], Amplitude::zero());
}

#[test]
fn unitary_sequence_preserves_total_probability() {
    // A mixed Clifford and non-Clifford circuit keeps the norm at
    // exactly one; the f64 view of the exact result shows it.
    let mut sim = StatevectorSimulator::new(3);
    sim.apply_single_qubit_gate(0, Gates::h()).unwrap();
    sim.apply_single_qubit_gate(0, Gates::t()).unwrap();
    sim.apply_single_qubit_gate(1, Gates::h()).unwrap();
    sim.apply_single_qubit_gate(1, Gates::s()).unwrap();
    sim.apply_cnot(0, 2);
    sim.apply_single_qubit_gate(2, Gates::y()).unwrap();
    sim.apply_toffoli(0, 1, 2);
    sim.apply_single_qubit_gate(2, Gates::rz(3)).unwrap();
    assert!((total_probability(&sim) - 1.0).abs() < 1e-10);
}

#[test]
fn grover_demo_amplifies_marked_state() {
    let sim = run_demo().unwrap();
    // Exact amplitudes: the marked index carries 20, all others 4,
    // over sqrt(2)^9.
    assert_eq!(sim.shift, 9);
    for (i, amp) in sim.state.iter().enumerate() {
        if i == 5 {
            assert_eq!(*amp, Amplitude::new(20, 0, 0, 0));
        } else {
            assert_eq!(*amp, Amplitude::new(4, 0, 0, 0));
        }
    }
    // 400/512 for the marked state, and a total of exactly one.
    let probs = sim.measure_all().unwrap();
    assert!((weight_to_f64(&probs[5], sim.shift) - 0.78125).abs() < 1e-12);
    assert!((total_probability(&sim) - 1.0).abs() < 1e-10);
}

#[test]
fn gate_overflow_is_reported_and_state_kept() {
    let mut sim = StatevectorSimulator::new(1);
    sim.state[0] = Amplitude::new(i64::MAX, 0, 0, 0);
    let r = sim.apply_single_qubit_gate(0, Gates::h());
    assert_eq!(r, Err(SimError::CoefficientOverflow));
    // the state was not touched
    assert_eq!(sim.state[0], Amplitude::new(i64::MAX, 0, 0, 0));
    assert_eq!(sim.shift, 0);
    assert_eq!(sim.measure_all(), Err(SimError::CoefficientOverflow));
}

#[test]
fn collapse_projects_and_rescales() {
    let mut sim = StatevectorSimulator::new(2);
    sim.apply_single_qubit_gate(0, Gates::h()).unwrap();
    sim.apply_cnot(0, 1);
    // Collapse qubit 0 to 1: only |11> survives, rescaled by sqrt(2).
    sim.collapse_z(0, true).unwrap();
    let probs = sim.measure_all().unwrap();
    assert!(weight_to_f64(&probs[0], sim.shift) < 1e-12);
    assert!((weight_to_f64(&probs[3], sim.shift) - 1.0).abs() < 1e-12);
}

#[test]
fn rz_matches_phase_gates() {
    assert_eq!(Gates::rz(2), Gates::s());
    assert_eq!(Gates::rz(4), Gates::z());
    assert_eq!(Gates::rz(1), Gates::t());
}
