use isq_runtime::context::ExecutionContext;
use isq_runtime::naive::NaiveSimulator;
use isq_runtime::noop::NoopDevice;
use isq_runtime::qdevice::{QDevice, QuantumOp, SimError};
use isq_runtime::sq2u3::SQ2U3Device;
use isq_runtime::shim_isq::{
    isq_qir_shim_qis_cnot, isq_qir_shim_qis_measure, isq_qir_shim_qis_reset,
    isq_qir_shim_qis_x2p, isq_qir_shim_qmpi_comm_rank, isq_qir_shim_qmpi_comm_size,
    isq_qir_shim_qmpi_create_epr_accept, isq_qir_shim_qmpi_csend, isq_qir_shim_qmpi_crecv_poll,
};
use isq_runtime::shim_qsharp::{
    isq_qir_shim_qis_assertmeasurementprobability_ctl, isq_qir_shim_qis_drawrandomint_body,
};

#[test]
fn mailbox_at_most_one_pending() {
    let mut ctx = ExecutionContext::new(NoopDevice::new(), 0, 2);
    assert_eq!(ctx.csend(0, 1, 7, true), Ok(()));
    assert_eq!(ctx.csend(0, 1, 7, false), Err(SimError::ProtocolViolation));
    assert_eq!(ctx.crecv_poll(0, 1, 7), Some(true));
    assert_eq!(ctx.crecv_poll(0, 1, 7), None);
    assert_eq!(ctx.csend(0, 1, 7, false), Ok(()));
    assert_eq!(ctx.crecv_poll(0, 1, 7), Some(false));
}

#[test]
fn mailbox_keys_are_independent() {
    let mut ctx = ExecutionContext::new(NoopDevice::new(), 0, 4);
    assert_eq!(ctx.csend(0, 1, 7, true), Ok(()));
    assert_eq!(ctx.csend(0, 2, 7, false), Ok(()));
    assert_eq!(ctx.csend(0, 1, 8, false), Ok(()));
    assert_eq!(ctx.crecv_poll(0, 2, 7), Some(false));
    assert_eq!(ctx.crecv_poll(0, 1, 7), Some(true));
    assert_eq!(ctx.crecv_poll(0, 1, 8), Some(false));
}

#[test]
fn csend_shim_uses_context_rank() {
    let mut ctx = ExecutionContext::new(NoopDevice::new(), 1, 2);
    assert_eq!(isq_qir_shim_qmpi_csend(&mut ctx, 0, 3, true), Ok(()));
    // The shim deposited under sender rank 1; rank 0 receives it.
    assert_eq!(ctx.crecv_poll(1, 0, 3), Some(true));
    assert_eq!(isq_qir_shim_qmpi_crecv_poll(&mut ctx, 0, 3), None);
}

#[test]
fn comm_rank_and_size() {
    let ctx = ExecutionContext::new(NoopDevice::new(), 3, 8);
    assert_eq!(isq_qir_shim_qmpi_comm_rank(&ctx), 3);
    assert_eq!(isq_qir_shim_qmpi_comm_size(&ctx), 8);
}

#[test]
fn breakpoint_registry() {
    let mut ctx = ExecutionContext::new(NoopDevice::new(), 0, 1);
    assert!(!ctx.contains_bp(5));
    ctx.disable_bp_index(5);
    assert!(ctx.contains_bp(5));
    assert!(!ctx.contains_bp(6));
}

#[test]
fn epr_rendezvous_entangles_two_qubits() {
    // One shared context; rank 0 proposes, rank 1 accepts.
    let mut ctx = ExecutionContext::new(NaiveSimulator::new(4), 1, 2);
    let qa = ctx.device_mut().alloc_qubit();
    let qb = ctx.device_mut().alloc_qubit();
    // No proposal yet: the accept side finds nothing and would retry.
    assert_eq!(isq_qir_shim_qmpi_create_epr_accept(&mut ctx, 0, 5, qb), Ok(false));
    ctx.epr_propose(0, 1, 5, qa);
    assert!(ctx.epr_proposal_pending(0, 1, 5));
    assert_eq!(isq_qir_shim_qmpi_create_epr_accept(&mut ctx, 0, 5, qb), Ok(true));
    assert!(!ctx.epr_proposal_pending(0, 1, 5));
    // The pair is maximally correlated: both halves agree when measured.
    let ra = ctx.device_mut().measure(qa);
    let rb = ctx.device_mut().measure(qb);
    assert_eq!(ra, rb);
}

#[test]
fn gate_shims_drive_the_device() {
    let mut ctx = ExecutionContext::new(NaiveSimulator::new(4), 0, 1);
    let a = ctx.device_mut().alloc_qubit();
    let b = ctx.device_mut().alloc_qubit();
    // The bare engine does not execute X2P directly; the decomposing
    // decorator would rewrite it. Drive CNOT instead.
    let r = isq_qir_shim_qis_x2p(&mut ctx, a);
    assert_eq!(r, Err(SimError::UnsupportedOp));
    assert_eq!(isq_qir_shim_qis_cnot(&mut ctx, a, b), Ok(()));
    assert_eq!(isq_qir_shim_qis_measure(&mut ctx, a), false);
    assert_eq!(isq_qir_shim_qis_reset(&mut ctx, b), Ok(()));
}

#[test]
fn x2p_shim_through_decomposer() {
    let mut ctx = ExecutionContext::new(SQ2U3Device::new(NaiveSimulator::new(4)), 0, 1);
    let a = ctx.device_mut().alloc_qubit();
    assert_eq!(isq_qir_shim_qis_x2p(&mut ctx, a), Ok(()));
    assert_eq!(isq_qir_shim_qis_x2p(&mut ctx, a), Ok(()));
    // Two quarter-turns about x take |0> to a state that always measures 1.
    assert_eq!(isq_qir_shim_qis_measure(&mut ctx, a), true);
}

#[test]
fn draw_random_int_stays_in_range() {
    for _ in 0..200 {
        let r = isq_qir_shim_qis_drawrandomint_body(-3, 9);
        assert!(-3 <= r && r <= 9);
    }
    assert_eq!(isq_qir_shim_qis_drawrandomint_body(4, 4), 4);
}

#[test]
fn assert_measurement_probability_is_not_implemented() {
    assert_eq!(
        isq_qir_shim_qis_assertmeasurementprobability_ctl(),
        Err(SimError::NotImplemented)
    );
}

#[test]
fn noop_device_behaviour() {
    let mut dev = NoopDevice::new();
    let a = dev.alloc_qubit();
    let b = dev.alloc_qubit();
    assert_eq!(a, 0);
    assert_eq!(b, 1);
    assert_eq!(dev.measure(a), false);
    assert_eq!(dev.qop(QuantumOp::H, &[a], &[]), Ok(()));
    assert_eq!(dev.free_qubit(a), Ok(()));
    assert_eq!(dev.get_measure_res(), "");
    let ops = dev.supported_quantum_ops();
    assert!(ops.contains(&QuantumOp::QcisFinalize));
    assert!(!ops.contains(&QuantumOp::CNOT));
}

#[test]
fn epr_combination_preserves_the_norm() {
    let mut ctx = ExecutionContext::new(NaiveSimulator::new(4), 1, 2);
    let qa = ctx.device_mut().alloc_qubit();
    let qb = ctx.device_mut().alloc_qubit();
    ctx.epr_propose(0, 1, 9, qa);
    assert_eq!(isq_qir_shim_qmpi_create_epr_accept(&mut ctx, 0, 9, qb), Ok(true));
    let amps = ctx.device_ref().dump_amplitudes();
    let norm: f64 = amps
        .iter()
        .map(|&(re, im)| {
            let r = f64::from_bits(re);
            let i = f64::from_bits(im);
            r * r + i * i
        })
        .sum();
    assert!((norm - 1.0).abs() < 1e-3);
}
