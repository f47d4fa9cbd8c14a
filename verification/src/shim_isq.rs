//! The dispatch boundary: typed entry points for the instruction stream
//! a compiled program emits. Each acquires the context (the caller holds
//! its lock), mutates device or mailbox state, and returns; the blocking
//! rendezvous loops are assembled outside from the non-blocking steps
//! here.

use vstd::prelude::*;
use std::io::Write;
use crate::qdevice::{QuantumOp, SimError, QDevice};
use crate::context::{ExecutionContext, MsgKey, assoc_lookup};

verus! {

/// Apply a general single-qubit unitary from its three angles.
pub fn isq_qir_shim_qis_u3<D: QDevice>(
    ctx: &mut ExecutionContext<D>,
    theta: u64,
    phi: u64,
    lam: u64,
    x0: usize,
) -> (r: Result<(), SimError>)
    requires
        old(ctx).dev().dev_inv(),
        old(ctx).dev().op_args_ok(
            QuantumOp::U3,
            Seq::empty(),
            seq![x0],
            seq![theta, phi, lam],
        ),
    ensures
        final(ctx).dev().dev_inv(),
        final(ctx).mailbox_entries() == old(ctx).mailbox_entries(),
        final(ctx).epr_entries() == old(ctx).epr_entries(),
        final(ctx).disabled() == old(ctx).disabled(),
        D::qop_effect(
            &old(ctx).dev(),
            &final(ctx).dev(),
            QuantumOp::U3,
            Seq::empty(),
            seq![x0],
            seq![theta, phi, lam],
            r,
        ),
{
    let qs: [usize; 1] = [x0];
    let ps: [u64; 3] = [theta, phi, lam];
    proof {
        assert(qs@ =~= seq![x0]);
        assert(ps@ =~= seq![theta, phi, lam]);
    }
    let device = ctx.device_mut();
    device.qop(QuantumOp::U3, &qs, &ps)
}

/// Apply a rotation about the z axis.
pub fn isq_qir_shim_qis_rz_body<D: QDevice>(
    ctx: &mut ExecutionContext<D>,
    x0: u64,
    x1: usize,
) -> (r: Result<(), SimError>)
    requires
        old(ctx).dev().dev_inv(),
        old(ctx).dev().op_args_ok(QuantumOp::Rz, Seq::empty(), seq![x1], seq![x0]),
    ensures
        final(ctx).dev().dev_inv(),
        final(ctx).mailbox_entries() == old(ctx).mailbox_entries(),
        final(ctx).epr_entries() == old(ctx).epr_entries(),
        final(ctx).disabled() == old(ctx).disabled(),
        D::qop_effect(
            &old(ctx).dev(),
            &final(ctx).dev(),
            QuantumOp::Rz,
            Seq::empty(),
            seq![x1],
            seq![x0],
            r,
        ),
{
    let qs: [usize; 1] = [x1];
    let ps: [u64; 1] = [x0];
    proof {
        assert(qs@ =~= seq![x1]);
        assert(ps@ =~= seq![x0]);
    }
    let device = ctx.device_mut();
    device.qop(QuantumOp::Rz, &qs, &ps)
}

/// Apply a parameterless single-qubit operation.
fn apply_sq_op<D: QDevice>(ctx: &mut ExecutionContext<D>, op: QuantumOp, x0: usize) -> (r: Result<
    (),
    SimError,
>)
    requires
        old(ctx).dev().dev_inv(),
        old(ctx).dev().op_args_ok(op, Seq::empty(), seq![x0], Seq::empty()),
    ensures
        final(ctx).dev().dev_inv(),
        final(ctx).mailbox_entries() == old(ctx).mailbox_entries(),
        final(ctx).epr_entries() == old(ctx).epr_entries(),
        final(ctx).disabled() == old(ctx).disabled(),
        D::qop_effect(
            &old(ctx).dev(),
            &final(ctx).dev(),
            op,
            Seq::empty(),
            seq![x0],
            Seq::empty(),
            r,
        ),
{
    let qs: [usize; 1] = [x0];
    let ps: [u64; 0] = [];
    proof {
        assert(qs@ =~= seq![x0]);
        assert(ps@ =~= Seq::<u64>::empty());
    }
    let device = ctx.device_mut();
    device.qop(op, &qs, &ps)
}

/// Apply a parameterless two-qubit operation.
fn apply_tq_op<D: QDevice>(
    ctx: &mut ExecutionContext<D>,
    op: QuantumOp,
    x0: usize,
    x1: usize,
) -> (r: Result<(), SimError>)
    requires
        old(ctx).dev().dev_inv(),
        old(ctx).dev().op_args_ok(op, Seq::empty(), seq![x0, x1], Seq::empty()),
    ensures
        final(ctx).dev().dev_inv(),
        final(ctx).mailbox_entries() == old(ctx).mailbox_entries(),
        final(ctx).epr_entries() == old(ctx).epr_entries(),
        final(ctx).disabled() == old(ctx).disabled(),
        D::qop_effect(
            &old(ctx).dev(),
            &final(ctx).dev(),
            op,
            Seq::empty(),
            seq![x0, x1],
            Seq::empty(),
            r,
        ),
{
    let qs: [usize; 2] = [x0, x1];
    let ps: [u64; 0] = [];
    proof {
        assert(qs@ =~= seq![x0, x1]);
        assert(ps@ =~= Seq::<u64>::empty());
    }
    let device = ctx.device_mut();
    device.qop(op, &qs, &ps)
}

/// Apply a positive quarter-turn about the x axis.
pub fn isq_qir_shim_qis_x2p<D: QDevice>(ctx: &mut ExecutionContext<D>, x0: usize) -> (r: Result<
    (),
    SimError,
>)
    requires
        old(ctx).dev().dev_inv(),
        old(ctx).dev().op_args_ok(QuantumOp::X2P, Seq::empty(), seq![x0], Seq::empty()),
    ensures
        final(ctx).dev().dev_inv(),
        final(ctx).mailbox_entries() == old(ctx).mailbox_entries(),
        final(ctx).epr_entries() == old(ctx).epr_entries(),
        final(ctx).disabled() == old(ctx).disabled(),
        D::qop_effect(
            &old(ctx).dev(),
            &final(ctx).dev(),
            QuantumOp::X2P,
            Seq::empty(),
            seq![x0],
            Seq::empty(),
            r,
        ),
{
    apply_sq_op(ctx, QuantumOp::X2P, x0)
}

/// Apply a negative quarter-turn about the x axis.
pub fn isq_qir_shim_qis_x2m<D: QDevice>(ctx: &mut ExecutionContext<D>, x0: usize) -> (r: Result<
    (),
    SimError,
>)
    requires
        old(ctx).dev().dev_inv(),
        old(ctx).dev().op_args_ok(QuantumOp::X2M, Seq::empty(), seq![x0], Seq::empty()),
    ensures
        final(ctx).dev().dev_inv(),
        final(ctx).mailbox_entries() == old(ctx).mailbox_entries(),
        final(ctx).epr_entries() == old(ctx).epr_entries(),
        final(ctx).disabled() == old(ctx).disabled(),
        D::qop_effect(
            &old(ctx).dev(),
            &final(ctx).dev(),
            QuantumOp::X2M,
            Seq::empty(),
            seq![x0],
            Seq::empty(),
            r,
        ),
{
    apply_sq_op(ctx, QuantumOp::X2M, x0)
}

/// Apply a positive quarter-turn about the y axis.
pub fn isq_qir_shim_qis_y2p<D: QDevice>(ctx: &mut ExecutionContext<D>, x0: usize) -> (r: Result<
    (),
    SimError,
>)
    requires
        old(ctx).dev().dev_inv(),
        old(ctx).dev().op_args_ok(QuantumOp::Y2P, Seq::empty(), seq![x0], Seq::empty()),
    ensures
        final(ctx).dev().dev_inv(),
        final(ctx).mailbox_entries() == old(ctx).mailbox_entries(),
        final(ctx).epr_entries() == old(ctx).epr_entries(),
        final(ctx).disabled() == old(ctx).disabled(),
        D::qop_effect(
            &old(ctx).dev(),
            &final(ctx).dev(),
            QuantumOp::Y2P,
            Seq::empty(),
            seq![x0],
            Seq::empty(),
            r,
        ),
{
    apply_sq_op(ctx, QuantumOp::Y2P, x0)
}

/// Apply a negative quarter-turn about the y axis.
pub fn isq_qir_shim_qis_y2m<D: QDevice>(ctx: &mut ExecutionContext<D>, x0: usize) -> (r: Result<
    (),
    SimError,
>)
    requires
        old(ctx).dev().dev_inv(),
        old(ctx).dev().op_args_ok(QuantumOp::Y2M, Seq::empty(), seq![x0], Seq::empty()),
    ensures
        final(ctx).dev().dev_inv(),
        final(ctx).mailbox_entries() == old(ctx).mailbox_entries(),
        final(ctx).epr_entries() == old(ctx).epr_entries(),
        final(ctx).disabled() == old(ctx).disabled(),
        D::qop_effect(
            &old(ctx).dev(),
            &final(ctx).dev(),
            QuantumOp::Y2M,
            Seq::empty(),
            seq![x0],
            Seq::empty(),
            r,
        ),
{
    apply_sq_op(ctx, QuantumOp::Y2M, x0)
}

/// Apply a global phase request.
pub fn isq_qir_shim_qis_gphase<D: QDevice>(ctx: &mut ExecutionContext<D>, x0: u64) -> (r: Result<
    (),
    SimError,
>)
    requires
        old(ctx).dev().dev_inv(),
        old(ctx).dev().op_args_ok(QuantumOp::GPhase, Seq::empty(), Seq::empty(), seq![x0]),
    ensures
        final(ctx).dev().dev_inv(),
        final(ctx).mailbox_entries() == old(ctx).mailbox_entries(),
        final(ctx).epr_entries() == old(ctx).epr_entries(),
        final(ctx).disabled() == old(ctx).disabled(),
        D::qop_effect(
            &old(ctx).dev(),
            &final(ctx).dev(),
            QuantumOp::GPhase,
            Seq::empty(),
            Seq::empty(),
            seq![x0],
            r,
        ),
{
    let qs: [usize; 0] = [];
    let ps: [u64; 1] = [x0];
    proof {
        assert(qs@ =~= Seq::<usize>::empty());
        assert(ps@ =~= seq![x0]);
    }
    let device = ctx.device_mut();
    device.qop(QuantumOp::GPhase, &qs, &ps)
}

/// Apply a controlled-NOT between two qubits.
pub fn isq_qir_shim_qis_cnot<D: QDevice>(
    ctx: &mut ExecutionContext<D>,
    x0: usize,
    x1: usize,
) -> (r: Result<(), SimError>)
    requires
        old(ctx).dev().dev_inv(),
        old(ctx).dev().op_args_ok(QuantumOp::CNOT, Seq::empty(), seq![x0, x1], Seq::empty()),
    ensures
        final(ctx).dev().dev_inv(),
        final(ctx).mailbox_entries() == old(ctx).mailbox_entries(),
        final(ctx).epr_entries() == old(ctx).epr_entries(),
        final(ctx).disabled() == old(ctx).disabled(),
        D::qop_effect(
            &old(ctx).dev(),
            &final(ctx).dev(),
            QuantumOp::CNOT,
            Seq::empty(),
            seq![x0, x1],
            Seq::empty(),
            r,
        ),
{
    apply_tq_op(ctx, QuantumOp::CNOT, x0, x1)
}

/// Apply a controlled-Z between two qubits.
pub fn isq_qir_shim_qis_cz<D: QDevice>(
    ctx: &mut ExecutionContext<D>,
    x0: usize,
    x1: usize,
) -> (r: Result<(), SimError>)
    requires
        old(ctx).dev().dev_inv(),
        old(ctx).dev().op_args_ok(QuantumOp::CZ, Seq::empty(), seq![x0, x1], Seq::empty()),
    ensures
        final(ctx).dev().dev_inv(),
        final(ctx).mailbox_entries() == old(ctx).mailbox_entries(),
        final(ctx).epr_entries() == old(ctx).epr_entries(),
        final(ctx).disabled() == old(ctx).disabled(),
        D::qop_effect(
            &old(ctx).dev(),
            &final(ctx).dev(),
            QuantumOp::CZ,
            Seq::empty(),
            seq![x0, x1],
            Seq::empty(),
            r,
        ),
{
    apply_tq_op(ctx, QuantumOp::CZ, x0, x1)
}

/// Measure a qubit and return the observed bit.
pub fn isq_qir_shim_qis_measure<D: QDevice>(ctx: &mut ExecutionContext<D>, x0: usize) -> (r: bool)
    requires
        old(ctx).dev().dev_inv(),
        old(ctx).dev().has_qubit(x0),
    ensures
        final(ctx).dev().dev_inv(),
        final(ctx).mailbox_entries() == old(ctx).mailbox_entries(),
        final(ctx).epr_entries() == old(ctx).epr_entries(),
        final(ctx).disabled() == old(ctx).disabled(),
        D::measure_effect(&old(ctx).dev(), &final(ctx).dev(), x0, r),
{
    let device = ctx.device_mut();
    device.measure(x0)
}

/// Reset a qubit to the zero state.
pub fn isq_qir_shim_qis_reset<D: QDevice>(ctx: &mut ExecutionContext<D>, x0: usize) -> (r: Result<
    (),
    SimError,
>)
    requires
        old(ctx).dev().dev_inv(),
        old(ctx).dev().op_args_ok(QuantumOp::Reset, Seq::empty(), seq![x0], Seq::empty()),
    ensures
        final(ctx).dev().dev_inv(),
        final(ctx).mailbox_entries() == old(ctx).mailbox_entries(),
        final(ctx).epr_entries() == old(ctx).epr_entries(),
        final(ctx).disabled() == old(ctx).disabled(),
        D::qop_effect(
            &old(ctx).dev(),
            &final(ctx).dev(),
            QuantumOp::Reset,
            Seq::empty(),
            seq![x0],
            Seq::empty(),
            r,
        ),
{
    apply_sq_op(ctx, QuantumOp::Reset, x0)
}

/// Relies on `writeln!` to standard error, the diagnostic channel, to
/// surface a printed integer.
#[verifier::external_body]
fn emit_i64_line(x: i64) {
    let err = std::io::stderr();
    let _ = writeln!(&mut err.lock(), "{}", x);
}

/// Print an integer from the simulated program.
pub fn isq_qir_shim_qis_isq_print_i64(x0: i64) {
    emit_i64_line(x0);
}

/// Dispatch the finalize request of the measurement-submission target.
pub fn isq_qir_shim_qis_qcis_finalize<D: QDevice>(ctx: &mut ExecutionContext<D>) -> (r: Result<
    (),
    SimError,
>)
    requires
        old(ctx).dev().dev_inv(),
        old(ctx).dev().op_args_ok(
            QuantumOp::QcisFinalize,
            Seq::empty(),
            Seq::empty(),
            Seq::empty(),
        ),
    ensures
        final(ctx).dev().dev_inv(),
        final(ctx).mailbox_entries() == old(ctx).mailbox_entries(),
        final(ctx).epr_entries() == old(ctx).epr_entries(),
        final(ctx).disabled() == old(ctx).disabled(),
        D::qop_effect(
            &old(ctx).dev(),
            &final(ctx).dev(),
            QuantumOp::QcisFinalize,
            Seq::empty(),
            Seq::empty(),
            Seq::empty(),
            r,
        ),
{
    let qs: [usize; 0] = [];
    let ps: [u64; 0] = [];
    proof {
        assert(qs@ =~= Seq::<usize>::empty());
        assert(ps@ =~= Seq::<u64>::empty());
    }
    let device = ctx.device_mut();
    device.qop(QuantumOp::QcisFinalize, &qs, &ps)
}

/// This process's rank.
pub fn isq_qir_shim_qmpi_comm_rank<D: QDevice>(ctx: &ExecutionContext<D>) -> (r: i64)
    ensures
        r == ctx.spec_rank(),
{
    ctx.get_rank()
}

/// The total peer count.
pub fn isq_qir_shim_qmpi_comm_size<D: QDevice>(ctx: &ExecutionContext<D>) -> (r: i64)
    ensures
        r == ctx.spec_np(),
{
    ctx.get_np()
}

/// Deposit a classical bit for a peer rank; a still-undrained key is a
/// protocol violation.
pub fn isq_qir_shim_qmpi_csend<D: QDevice>(
    ctx: &mut ExecutionContext<D>,
    receiver: i64,
    tag: i64,
    val: bool,
) -> (r: Result<(), SimError>)
    requires
        old(ctx).wf(),
    ensures
        final(ctx).wf(),
        ({
            let key = MsgKey { sender: old(ctx).spec_rank(), receiver, tag };
            &&& (assoc_lookup(old(ctx).mailbox_entries(), key) is None <==> r is Ok)
            &&& (r is Ok ==> assoc_lookup(final(ctx).mailbox_entries(), key) == Some(val))
            &&& (forall|k2: MsgKey|
                k2 != key ==> #[trigger] assoc_lookup(final(ctx).mailbox_entries(), k2)
                    == assoc_lookup(old(ctx).mailbox_entries(), k2))
        }),
        final(ctx).dev() == old(ctx).dev(),
        final(ctx).epr_entries() == old(ctx).epr_entries(),
        final(ctx).disabled() == old(ctx).disabled(),
{
    let sender = ctx.get_rank();
    ctx.csend(sender, receiver, tag, val)
}

/// Take the classical bit a peer deposited for this rank, if one is
/// there; the caller sleeps and retries otherwise.
pub fn isq_qir_shim_qmpi_crecv_poll<D: QDevice>(
    ctx: &mut ExecutionContext<D>,
    sender: i64,
    tag: i64,
) -> (r: Option<bool>)
    requires
        old(ctx).wf(),
    ensures
        final(ctx).wf(),
        ({
            let key = MsgKey { sender, receiver: old(ctx).spec_rank(), tag };
            match r {
                Some(v) => assoc_lookup(old(ctx).mailbox_entries(), key) == Some(v)
                    && assoc_lookup(final(ctx).mailbox_entries(), key) is None,
                None => assoc_lookup(old(ctx).mailbox_entries(), key) is None
                    && final(ctx).mailbox_entries() == old(ctx).mailbox_entries(),
            }
        }),
        ({
            let key = MsgKey { sender, receiver: old(ctx).spec_rank(), tag };
            forall|k2: MsgKey|
                k2 != key ==> #[trigger] assoc_lookup(final(ctx).mailbox_entries(), k2)
                    == assoc_lookup(old(ctx).mailbox_entries(), k2)
        }),
        final(ctx).dev() == old(ctx).dev(),
        final(ctx).epr_entries() == old(ctx).epr_entries(),
        final(ctx).disabled() == old(ctx).disabled(),
{
    let receiver = ctx.get_rank();
    ctx.crecv_poll(sender, receiver, tag)
}

/// The proposer's half of the entanglement rendezvous: record the local
/// handle under the shared key; the caller then polls
/// `epr_proposal_pending` until the peer has taken it.
pub fn isq_qir_shim_qmpi_create_epr_propose<D: QDevice>(
    ctx: &mut ExecutionContext<D>,
    peer: i64,
    tag: i64,
    x0: usize,
)
    requires
        old(ctx).wf(),
        old(ctx).spec_rank() < peer,
    ensures
        final(ctx).wf(),
        assoc_lookup(
            final(ctx).epr_entries(),
            MsgKey { sender: old(ctx).spec_rank(), receiver: peer, tag },
        ) == Some(x0),
        ({
            let key = MsgKey { sender: old(ctx).spec_rank(), receiver: peer, tag };
            forall|k2: MsgKey|
                k2 != key ==> #[trigger] assoc_lookup(final(ctx).epr_entries(), k2)
                    == assoc_lookup(old(ctx).epr_entries(), k2)
        }),
        final(ctx).dev() == old(ctx).dev(),
        final(ctx).mailbox_entries() == old(ctx).mailbox_entries(),
        final(ctx).disabled() == old(ctx).disabled(),
{
    let rank = ctx.get_rank();
    ctx.epr_propose(rank, peer, tag, x0)
}

/// The higher-ranked side of the entanglement rendezvous: take the
/// proposer's recorded handle if one is there, remove the proposal, and
/// entangle the recorded qubit with the local one. Returns whether a
/// proposal was found; the caller sleeps and retries while none is.
pub fn isq_qir_shim_qmpi_create_epr_accept<D: QDevice>(
    ctx: &mut ExecutionContext<D>,
    peer: i64,
    tag: i64,
    x0: usize,
) -> (r: Result<bool, SimError>)
    requires
        old(ctx).wf(),
        old(ctx).dev().dev_inv(),
        peer < old(ctx).spec_rank(),
        ({
            let key = MsgKey { sender: peer, receiver: old(ctx).spec_rank(), tag };
            match assoc_lookup(old(ctx).epr_entries(), key) {
                Some(k1) => old(ctx).dev().op_args_ok(
                    QuantumOp::EPR,
                    Seq::empty(),
                    seq![x0, k1],
                    Seq::empty(),
                ),
                None => true,
            }
        }),
    ensures
        final(ctx).wf(),
        final(ctx).dev().dev_inv(),
        ({
            let key = MsgKey { sender: peer, receiver: old(ctx).spec_rank(), tag };
            match assoc_lookup(old(ctx).epr_entries(), key) {
                Some(k1) => {
                    &&& assoc_lookup(final(ctx).epr_entries(), key) is None
                    &&& (forall|k2: MsgKey|
                        k2 != key ==> #[trigger] assoc_lookup(final(ctx).epr_entries(), k2)
                            == assoc_lookup(old(ctx).epr_entries(), k2))
                    &&& match r {
                        Ok(b) => b == true && D::qop_effect(
                            &old(ctx).dev(),
                            &final(ctx).dev(),
                            QuantumOp::EPR,
                            Seq::empty(),
                            seq![x0, k1],
                            Seq::empty(),
                            Ok(()),
                        ),
                        Err(e) => D::qop_effect(
                            &old(ctx).dev(),
                            &final(ctx).dev(),
                            QuantumOp::EPR,
                            Seq::empty(),
                            seq![x0, k1],
                            Seq::empty(),
                            Err(e),
                        ),
                    }
                },
                None => r == Ok::<bool, SimError>(false) && final(ctx).epr_entries() == old(
                    ctx,
                ).epr_entries() && final(ctx).dev() == old(ctx).dev(),
            }
        }),
        final(ctx).mailbox_entries() == old(ctx).mailbox_entries(),
        final(ctx).disabled() == old(ctx).disabled(),
{
    let rank = ctx.get_rank();
    match ctx.epr_take(peer, rank, tag) {
        Some(k1) => {
            let qs: [usize; 2] = [x0, k1];
            let ps: [u64; 0] = [];
            proof {
                assert(qs@ =~= seq![x0, k1]);
                assert(ps@ =~= Seq::<u64>::empty());
            }
            let device = ctx.device_mut();
            let applied = device.qop(QuantumOp::EPR, &qs, &ps);
            match applied {
                Ok(u) => {
                    proof {
                        assert(applied == Ok::<(), SimError>(()));
                    }
                    Ok(true)
                },
                Err(e) => Err(e),
            }
        },
        None => Ok(false),
    }
}

} // verus!

