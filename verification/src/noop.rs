//! A backend that does nothing: it hands out fresh handles, accepts
//! every operation silently, and measures everything as `0`.

use vstd::prelude::*;
use crate::qdevice::{QuantumOp, SimError, QDevice};

verus! {

pub struct NoopDevice {
    qubit_counter: usize,
}

impl NoopDevice {
    /// The next handle to hand out.
    pub closed spec fn counter(&self) -> usize {
        self.qubit_counter
    }

    pub fn new() -> (r: NoopDevice)
        ensures
            r.counter() == 0,
    {
        NoopDevice { qubit_counter: 0 }
    }
}

/// The operations the no-op backend reports, in the order it reports
/// them.
pub open spec fn noop_supported_seq() -> Seq<QuantumOp> {
    seq![
        QuantumOp::X,
        QuantumOp::Y,
        QuantumOp::Z,
        QuantumOp::H,
        QuantumOp::S,
        QuantumOp::T,
        QuantumOp::SInv,
        QuantumOp::TInv,
        QuantumOp::CZ,
        QuantumOp::X2M,
        QuantumOp::X2P,
        QuantumOp::Y2M,
        QuantumOp::Y2P,
        QuantumOp::QcisFinalize,
        QuantumOp::U3,
        QuantumOp::AnySQ,
        QuantumOp::Reset,
    ]
}

impl QDevice for NoopDevice {
    open spec fn dev_inv(&self) -> bool {
        true
    }

    open spec fn supported(&self) -> Set<QuantumOp> {
        noop_supported_seq().to_set()
    }

    open spec fn has_qubit(&self, q: usize) -> bool {
        true
    }

    open spec fn can_alloc(&self) -> bool {
        self.counter() < usize::MAX
    }

    open spec fn op_args_ok(
        &self,
        op: QuantumOp,
        controllers: Seq<usize>,
        qubits: Seq<usize>,
        parameters: Seq<u64>,
    ) -> bool {
        controllers.len() == 0
    }

    open spec fn assert_args_ok(&self, qubits: Seq<usize>, space: Seq<u64>) -> bool {
        true
    }

    open spec fn qop_effect(
        pre: &Self,
        post: &Self,
        op: QuantumOp,
        controllers: Seq<usize>,
        qubits: Seq<usize>,
        parameters: Seq<u64>,
        r: Result<(), SimError>,
    ) -> bool {
        r is Ok && *post == *pre
    }

    open spec fn measure_effect(pre: &Self, post: &Self, qubit: usize, r: bool) -> bool {
        r == false && *post == *pre
    }

    open spec fn free_effect(pre: &Self, post: &Self, qubit: usize, r: Result<
        (),
        SimError,
    >) -> bool {
        r is Ok && *post == *pre
    }

    open spec fn assert_effect(&self, qubits: Seq<usize>, space: Seq<u64>, r: Result<
        bool,
        SimError,
    >) -> bool {
        r == Ok::<bool, SimError>(true)
    }

    open spec fn record(&self) -> Seq<char> {
        Seq::empty()
    }

    fn alloc_qubit(&mut self) -> (q: usize)
        ensures
            q == old(self).counter(),
            final(self).counter() == old(self).counter() + 1,
    {
        let qubit = self.qubit_counter;
        self.qubit_counter = self.qubit_counter + 1;
        qubit
    }

    fn free_qubit(&mut self, qubit: usize) -> (r: Result<(), SimError>)
        ensures
            r is Ok,
            *final(self) == *old(self),
    {
        Ok(())
    }

    fn supported_quantum_ops(&self) -> (r: Vec<QuantumOp>)
        ensures
            r@ == noop_supported_seq(),
    {
        let mut v: Vec<QuantumOp> = Vec::new();
        v.push(QuantumOp::X);
        v.push(QuantumOp::Y);
        v.push(QuantumOp::Z);
        v.push(QuantumOp::H);
        v.push(QuantumOp::S);
        v.push(QuantumOp::T);
        v.push(QuantumOp::SInv);
        v.push(QuantumOp::TInv);
        v.push(QuantumOp::CZ);
        v.push(QuantumOp::X2M);
        v.push(QuantumOp::X2P);
        v.push(QuantumOp::Y2M);
        v.push(QuantumOp::Y2P);
        v.push(QuantumOp::QcisFinalize);
        v.push(QuantumOp::U3);
        v.push(QuantumOp::AnySQ);
        v.push(QuantumOp::Reset);
        proof {
            assert(v@ =~= noop_supported_seq());
        }
        v
    }

    fn qop(&mut self, op_type: QuantumOp, qubits: &[usize], parameters: &[u64]) -> (r: Result<
        (),
        SimError,
    >)
        ensures
            r is Ok,
            *final(self) == *old(self),
    {
        Ok(())
    }

    fn controlled_qop(
        &mut self,
        op_type: QuantumOp,
        controllers: &[usize],
        qubits: &[usize],
        parameters: &[u64],
    ) -> (r: Result<(), SimError>)
        ensures
            r is Ok,
            *final(self) == *old(self),
    {
        Ok(())
    }

    fn measure(&mut self, qubit: usize) -> (r: bool)
        ensures
            r == false,
            *final(self) == *old(self),
    {
        false
    }

    fn get_measure_res(&mut self) -> (r: String) {
        String::new()
    }

    fn print_state(&mut self) {
    }

    fn assert_subspace(&self, qubits: &[usize], space: &[u64]) -> (r: Result<bool, SimError>)
        ensures
            r == Ok::<bool, SimError>(true),
    {
        Ok(true)
    }

    fn param_qop(&mut self, op_type: QuantumOp, qubits: &[usize], parameters: String) {
    }
}

} // verus!
