use isq_runtime::amp::{AMP_ONE, AMP_ZERO, ONE_BITS, ZERO_BITS};
use isq_runtime::checked::CheckedDevice;
use isq_runtime::naive::NaiveSimulator;
use isq_runtime::qdevice::{QDevice, QuantumOp, SimError};
use isq_runtime::qdevice::QuantumOp::{CNOT, CZ, Swap, Reset, H, X, Y, Z, S, T, SInv, TInv, X2P, X2M, Y2P, Y2M, CCNOT, GPhase, EPR, U3, AnySQ, Rz, QcisFinalize};
use isq_runtime::sq2u3::{decompose_single_qubit, SQ2U3Device};

fn norm_of(amps: &[(u64, u64)]) -> f64 {
    amps.iter()
        .map(|&(re, im)| {
            let r = f64::from_bits(re);
            let i = f64::from_bits(im);
            r * r + i * i
        })
        .sum()
}

#[test]
pub fn naive_bell() {
    let mut device = CheckedDevice::new(SQ2U3Device::new(NaiveSimulator::new(22)));

    let (mut r_00, mut r_01, mut r_10, mut r_11) = (0, 0, 0, 0);
    for _i in 0..1000 {
        let a = device.alloc_qubit();
        let b = device.alloc_qubit();
        device.qop(H, &[a], &[]).unwrap();
        device.qop(CNOT, &[a, b], &[]).unwrap();
        let ra = device.measure(a);
        let rb = device.measure(b);
        if ra && rb {
            r_11 += 1;
        } else if ra && !rb {
            r_10 += 1;
        } else if !ra && rb {
            r_01 += 1;
        } else {
            r_00 += 1;
        }
        device.free_qubit(a).unwrap();
        device.free_qubit(b).unwrap();
    }
    println!("Result: {}, {}, {}, {}", r_00, r_01, r_10, r_11);
}

#[test]
fn bell_pair_statistics() {
    let mut device = CheckedDevice::new(SQ2U3Device::new(NaiveSimulator::new(4)));
    let (mut r_same, mut r_diff, mut r_zero) = (0, 0, 0);
    for _ in 0..1000 {
        let a = device.alloc_qubit();
        let b = device.alloc_qubit();
        device.qop(H, &[a], &[]).unwrap();
        device.qop(CNOT, &[a, b], &[]).unwrap();
        let ra = device.measure(a);
        let rb = device.measure(b);
        if ra == rb {
            r_same += 1;
            if !ra {
                r_zero += 1;
            }
        } else {
            r_diff += 1;
        }
        device.free_qubit(a).unwrap();
        device.free_qubit(b).unwrap();
    }
    assert_eq!(r_diff, 0);
    assert!(r_zero > 400 && r_zero < 600, "00 frequency off: {}", r_zero);
    assert_eq!(r_same, 1000);
}

#[test]
fn fresh_qubit_measures_zero() {
    for _ in 0..100 {
        let mut sim = NaiveSimulator::new(4);
        let q = sim.alloc_qubit();
        assert_eq!(sim.measure(q), false);
        assert_eq!(sim.dump_amplitudes(), vec![AMP_ONE, AMP_ZERO]);
    }
}

#[test]
fn measure_twice_same_result() {
    let mut device = SQ2U3Device::new(NaiveSimulator::new(4));
    for _ in 0..200 {
        let q = device.alloc_qubit();
        device.qop(H, &[q], &[]).unwrap();
        let first = device.measure(q);
        let second = device.measure(q);
        assert_eq!(first, second);
        device.free_qubit(q).unwrap();
    }
}

#[test]
fn alloc_free_round_trip() {
    let mut sim = NaiveSimulator::new(8);
    let qs: Vec<usize> = (0..4).map(|_| sim.alloc_qubit()).collect();
    assert_eq!(sim.dump_amplitudes().len(), 16);
    for &k in &[2usize, 0, 3, 1] {
        sim.free_qubit(qs[k]).unwrap();
    }
    let amps = sim.dump_amplitudes();
    assert_eq!(amps.len(), 1);
    assert!(sim.dump_slots().is_empty());
    assert!((norm_of(&amps) - 1.0).abs() < 1e-3);
}

#[test]
fn norm_invariant_under_gates() {
    let mut device = SQ2U3Device::new(NaiveSimulator::new(4));
    let a = device.alloc_qubit();
    let b = device.alloc_qubit();
    let c = device.alloc_qubit();
    let ops_single: Vec<QuantumOp> = vec![H, X, Y, Z, S, T, SInv, TInv, X2P, X2M, Y2P, Y2M];
    for (i, &op) in ops_single.iter().enumerate() {
        let target = [a, b, c][i % 3];
        device.qop(op, &[target], &[]).unwrap();
        let amps = device.inner_ref().dump_amplitudes();
        assert!(
            (norm_of(&amps) - 1.0).abs() < 1e-3,
            "norm broken after {:?}",
            op
        );
    }
    device.qop(CNOT, &[a, b], &[]).unwrap();
    device.qop(CZ, &[b, c], &[]).unwrap();
    device.qop(Swap, &[a, c], &[]).unwrap();
    let amps = device.inner_ref().dump_amplitudes();
    assert!((norm_of(&amps) - 1.0).abs() < 1e-3);
}

#[test]
fn pauli_x_flips_basis_state() {
    let mut device = SQ2U3Device::new(NaiveSimulator::new(2));
    let q = device.alloc_qubit();
    device.qop(X, &[q], &[]).unwrap();
    let amps = device.inner_ref().dump_amplitudes();
    assert_eq!(f64::from_bits(amps[0].0), 0.0);
    assert_eq!(f64::from_bits(amps[0].1), 0.0);
    assert_eq!(f64::from_bits(amps[1].0), 1.0);
    assert_eq!(f64::from_bits(amps[1].1), 0.0);
    assert_eq!(device.measure(q), true);
}

#[test]
fn reset_restores_zero_and_keeps_record() {
    let mut device = SQ2U3Device::new(NaiveSimulator::new(2));
    let q = device.alloc_qubit();
    device.qop(X, &[q], &[]).unwrap();
    device.qop(Reset, &[q], &[]).unwrap();
    assert_eq!(device.get_measure_res(), "");
    assert_eq!(device.measure(q), false);
    assert_eq!(device.get_measure_res(), "0");
}

#[test]
fn measurement_record_accumulates() {
    let mut device = SQ2U3Device::new(NaiveSimulator::new(4));
    let a = device.alloc_qubit();
    let b = device.alloc_qubit();
    device.qop(X, &[b], &[]).unwrap();
    let ra = device.measure(a);
    let rb = device.measure(b);
    assert_eq!(ra, false);
    assert_eq!(rb, true);
    assert_eq!(device.get_measure_res(), "01");
}

#[test]
fn unsupported_operation_is_refused() {
    let mut device = CheckedDevice::new(NaiveSimulator::new(2));
    let a = device.alloc_qubit();
    let b = device.alloc_qubit();
    let c = device.alloc_qubit();
    let r = device.qop(CCNOT, &[a, b, c], &[]);
    assert_eq!(r, Err(SimError::UnsupportedOp));
}

#[test]
fn quantum_op_arities() {
    assert_eq!(Reset.get_qubit_count(), 1);
    assert_eq!(CNOT.get_qubit_count(), 2);
    assert_eq!(CCNOT.get_qubit_count(), 3);
    assert_eq!(GPhase.get_qubit_count(), 0);
    assert_eq!(EPR.get_qubit_count(), 2);
    assert_eq!(U3.get_parameter_count(), 3);
    assert_eq!(AnySQ.get_parameter_count(), 8);
    assert_eq!(Rz.get_parameter_count(), 1);
    assert_eq!(H.get_parameter_count(), 0);
    assert_eq!(QcisFinalize.get_qubit_count(), 0);
}

#[test]
fn hadamard_decomposition_is_exact() {
    let sqrt_half = (0.5f64).sqrt();
    let p = decompose_single_qubit(H, &[]);
    assert_eq!(p.len(), 8);
    assert_eq!(f64::from_bits(p[0]), sqrt_half);
    assert_eq!(f64::from_bits(p[2]), sqrt_half);
    assert_eq!(f64::from_bits(p[4]), sqrt_half);
    assert_eq!(f64::from_bits(p[6]), -sqrt_half);
    for &k in &[1usize, 3, 5, 7] {
        assert_eq!(p[k], ZERO_BITS);
    }
}

#[test]
fn rotation_decomposition_uses_half_angle() {
    let theta = 0.77f64;
    let p = decompose_single_qubit(isq_runtime::qdevice::QuantumOp::Rx, &[theta.to_bits()]);
    let c = (theta / 2.0).cos();
    let s = (theta / 2.0).sin();
    assert_eq!(f64::from_bits(p[0]), c);
    assert_eq!(f64::from_bits(p[3]), -s);
    assert_eq!(f64::from_bits(p[5]), -s);
    assert_eq!(f64::from_bits(p[6]), c);
}

#[test]
fn subspace_assertion_zero_state() {
    let one = 1.0f64.to_bits();
    let mut sim = NaiveSimulator::new(2);
    let q = sim.alloc_qubit();
    let zero_projector: Vec<u64> = vec![one, ZERO_BITS, ZERO_BITS, ZERO_BITS, ZERO_BITS,
        ZERO_BITS, ZERO_BITS, ZERO_BITS];
    let one_projector: Vec<u64> = vec![ZERO_BITS, ZERO_BITS, ZERO_BITS, ZERO_BITS, ZERO_BITS,
        ZERO_BITS, one, ZERO_BITS];
    assert_eq!(sim.assert_subspace(&[q], &zero_projector), Ok(true));
    assert_eq!(sim.assert_subspace(&[q], &one_projector), Ok(false));
}

#[test]
fn reset_all_restores_origin() {
    let mut device = SQ2U3Device::new(NaiveSimulator::new(4));
    let a = device.alloc_qubit();
    let _b = device.alloc_qubit();
    device.qop(H, &[a], &[]).unwrap();
    device.inner_mut().reset_all();
    let amps = device.inner_ref().dump_amplitudes();
    assert_eq!(amps[0], (ONE_BITS, ZERO_BITS));
    for k in 1..amps.len() {
        assert_eq!(amps[k], AMP_ZERO);
    }
}

#[test]
fn conjugation_shows_in_subspace_check() {
    let one = 1.0f64.to_bits();
    let mut device = SQ2U3Device::new(NaiveSimulator::new(2));
    let q = device.alloc_qubit();
    device.qop(X, &[q], &[]).unwrap();
    device.qop(S, &[q], &[]).unwrap();
    // The state is i|1>; the density matrix needs the conjugate to give
    // probability one on the |1><1| projector.
    let one_projector: Vec<u64> = vec![ZERO_BITS, ZERO_BITS, ZERO_BITS, ZERO_BITS, ZERO_BITS,
        ZERO_BITS, one, ZERO_BITS];
    assert_eq!(device.inner_ref().assert_subspace(&[q], &one_projector), Ok(true));
}

#[test]
fn collapse_renormalizes_the_survivor() {
    for _ in 0..50 {
        let mut device = SQ2U3Device::new(NaiveSimulator::new(2));
        let q = device.alloc_qubit();
        device.qop(H, &[q], &[]).unwrap();
        let _ = device.measure(q);
        let amps = device.inner_ref().dump_amplitudes();
        assert!((norm_of(&amps) - 1.0).abs() < 1e-3);
    }
}

#[test]
fn contract_witnesses_run() {
    isq_runtime::laws::witness_subspace_verdicts_on_zero_state();
}
