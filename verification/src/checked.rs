//! The validating decorator: before forwarding an operation it checks
//! the wrapped device's declared supported-operation set and refuses an
//! operation the backend does not execute, so a backend/operation
//! mismatch is caught before it can corrupt state.

use vstd::prelude::*;
use crate::qdevice::{QuantumOp, SimError, QDevice};

verus! {

pub struct CheckedDevice<D: QDevice> {
    inner: D,
}

impl<D: QDevice> CheckedDevice<D> {
    /// The wrapped backend.
    pub closed spec fn device(&self) -> &D {
        &self.inner
    }

    pub fn new(inner: D) -> (r: CheckedDevice<D>)
        ensures
            r.device() == inner,
    {
        CheckedDevice { inner }
    }

    /// Shared access to the wrapped backend.
    pub fn inner_ref(&self) -> (r: &D)
        ensures
            *r == *self.device(),
    {
        &self.inner
    }

    /// Exclusive access to the wrapped backend.
    pub fn inner_mut(&mut self) -> (r: &mut D)
        ensures
            *r == *old(self).device(),
            *final(self).device() == *final(r),
    {
        &mut self.inner
    }

    /// Whether the wrapped backend declares the operation.
    fn is_supported(&self, op: QuantumOp) -> (r: bool)
        requires
            self.dev_inv(),
        ensures
            r == self.supported().contains(op),
    {
        let ops = self.inner.supported_quantum_ops();
        let mut k: usize = 0;
        let mut found = false;
        while k < ops.len()
            invariant
                k <= ops@.len(),
                found == exists|t: int| 0 <= t < k && ops@[t] == op,
            decreases ops@.len() - k,
        {
            if ops[k] == op {
                found = true;
            }
            k = k + 1;
        }
        proof {
            if found {
                assert(ops@.contains(op));
            } else if ops@.contains(op) {
                let t = choose|t: int| 0 <= t < ops@.len() && ops@[t] == op;
                assert(false);
            }
        }
        found
    }
}

impl<D: QDevice> QDevice for CheckedDevice<D> {
    open spec fn dev_inv(&self) -> bool {
        self.device().dev_inv()
    }

    open spec fn supported(&self) -> Set<QuantumOp> {
        self.device().supported()
    }

    open spec fn has_qubit(&self, q: usize) -> bool {
        self.device().has_qubit(q)
    }

    open spec fn can_alloc(&self) -> bool {
        self.device().can_alloc()
    }

    open spec fn op_args_ok(
        &self,
        op: QuantumOp,
        controllers: Seq<usize>,
        qubits: Seq<usize>,
        parameters: Seq<u64>,
    ) -> bool {
        self.device().op_args_ok(op, controllers, qubits, parameters)
    }

    open spec fn assert_args_ok(&self, qubits: Seq<usize>, space: Seq<u64>) -> bool {
        self.device().assert_args_ok(qubits, space)
    }

    open spec fn qop_effect(
        pre: &Self,
        post: &Self,
        op: QuantumOp,
        controllers: Seq<usize>,
        qubits: Seq<usize>,
        parameters: Seq<u64>,
        r: Result<(), SimError>,
    ) -> bool {
        if pre.supported().contains(op) {
            D::qop_effect(pre.device(), post.device(), op, controllers, qubits, parameters, r)
        } else {
            r == Err::<(), SimError>(SimError::UnsupportedOp) && *post == *pre
        }
    }

    open spec fn measure_effect(pre: &Self, post: &Self, qubit: usize, r: bool) -> bool {
        D::measure_effect(pre.device(), post.device(), qubit, r)
    }

    open spec fn free_effect(pre: &Self, post: &Self, qubit: usize, r: Result<
        (),
        SimError,
    >) -> bool {
        D::free_effect(pre.device(), post.device(), qubit, r)
    }

    open spec fn assert_effect(&self, qubits: Seq<usize>, space: Seq<u64>, r: Result<
        bool,
        SimError,
    >) -> bool {
        self.device().assert_effect(qubits, space, r)
    }

    open spec fn record(&self) -> Seq<char> {
        self.device().record()
    }

    fn alloc_qubit(&mut self) -> (q: usize) {
        self.inner.alloc_qubit()
    }

    fn free_qubit(&mut self, qubit: usize) -> (r: Result<(), SimError>) {
        self.inner.free_qubit(qubit)
    }

    fn supported_quantum_ops(&self) -> (r: Vec<QuantumOp>) {
        self.inner.supported_quantum_ops()
    }

    fn qop(&mut self, op_type: QuantumOp, qubits: &[usize], parameters: &[u64]) -> (r: Result<
        (),
        SimError,
    >)
        ensures
            !old(self).supported().contains(op_type) ==> r == Err::<(), SimError>(
                SimError::UnsupportedOp,
            ) && *final(self) == *old(self),
    {
        let empty: [usize; 0] = [];
        proof {
            assert(empty@ =~= Seq::<usize>::empty());
        }
        self.controlled_qop(op_type, &empty, qubits, parameters)
    }

    fn controlled_qop(
        &mut self,
        op_type: QuantumOp,
        controllers: &[usize],
        qubits: &[usize],
        parameters: &[u64],
    ) -> (r: Result<(), SimError>)
        ensures
            !old(self).supported().contains(op_type) ==> r == Err::<(), SimError>(
                SimError::UnsupportedOp,
            ) && *final(self) == *old(self),
    {
        if !self.is_supported(op_type) {
            return Err(SimError::UnsupportedOp);
        }
        self.inner.controlled_qop(op_type, controllers, qubits, parameters)
    }

    fn measure(&mut self, qubit: usize) -> (r: bool) {
        self.inner.measure(qubit)
    }

    fn get_measure_res(&mut self) -> (r: String) {
        self.inner.get_measure_res()
    }

    fn print_state(&mut self) {
        self.inner.print_state()
    }

    fn assert_subspace(&self, qubits: &[usize], space: &[u64]) -> (r: Result<bool, SimError>) {
        self.inner.assert_subspace(qubits, space)
    }

    fn param_qop(&mut self, op_type: QuantumOp, qubits: &[usize], parameters: String) {
        self.inner.param_qop(op_type, qubits, parameters)
    }
}

} // verus!
