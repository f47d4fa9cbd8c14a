//! The quantum operation catalog and the device capability interface.
//!
//! `QuantumOp` is the closed set of primitive operations a backend may
//! support, each with a fixed qubit arity and parameter arity. `QDevice`
//! is the contract every simulation backend implements; decorator
//! backends wrap an inner device and forward through the same interface.
//! Gate parameters cross this interface as IEEE-754 bit patterns of the
//! doubles the caller supplies (see `amp`).

use vstd::prelude::*;

verus! {

#[derive(Copy, Clone, Eq, PartialEq, Structural, Debug, PartialOrd, Ord)]
pub enum QuantumOp {
    Reset,
    X,
    Y,
    Z,
    H,
    S,
    SInv,
    T,
    TInv,
    CNOT,
    CZ,
    Swap,
    CCNOT,
    Rx,
    Ry,
    Rz,
    U3,
    GPhase,
    AnySQ,
    X2P,
    X2M,
    Y2P,
    Y2M,
    QcisFinalize,
    EPR,
}

/// How many target qubits an operation takes.
pub open spec fn spec_qubit_count(op: QuantumOp) -> usize {
    match op {
        QuantumOp::Reset => 1,
        QuantumOp::X => 1,
        QuantumOp::Y => 1,
        QuantumOp::Z => 1,
        QuantumOp::H => 1,
        QuantumOp::S => 1,
        QuantumOp::SInv => 1,
        QuantumOp::T => 1,
        QuantumOp::TInv => 1,
        QuantumOp::CNOT => 2,
        QuantumOp::CZ => 2,
        QuantumOp::Swap => 2,
        QuantumOp::CCNOT => 3,
        QuantumOp::Rx => 1,
        QuantumOp::Ry => 1,
        QuantumOp::Rz => 1,
        QuantumOp::U3 => 1,
        QuantumOp::GPhase => 0,
        QuantumOp::AnySQ => 1,
        QuantumOp::X2P => 1,
        QuantumOp::X2M => 1,
        QuantumOp::Y2P => 1,
        QuantumOp::Y2M => 1,
        QuantumOp::QcisFinalize => 0,
        QuantumOp::EPR => 2,
    }
}

/// How many real parameters an operation takes.
pub open spec fn spec_parameter_count(op: QuantumOp) -> usize {
    match op {
        QuantumOp::Rx => 1,
        QuantumOp::Ry => 1,
        QuantumOp::Rz => 1,
        QuantumOp::U3 => 3,
        QuantumOp::GPhase => 1,
        QuantumOp::AnySQ => 8,
        _ => 0,
    }
}

impl QuantumOp {
    pub fn get_qubit_count(&self) -> (r: usize)
        ensures
            r == spec_qubit_count(*self),
    {
        match self {
            QuantumOp::Reset => 1,
            QuantumOp::X => 1,
            QuantumOp::Y => 1,
            QuantumOp::Z => 1,
            QuantumOp::H => 1,
            QuantumOp::S => 1,
            QuantumOp::SInv => 1,
            QuantumOp::T => 1,
            QuantumOp::TInv => 1,
            QuantumOp::CNOT => 2,
            QuantumOp::CZ => 2,
            QuantumOp::Swap => 2,
            QuantumOp::CCNOT => 3,
            QuantumOp::Rx => 1,
            QuantumOp::Ry => 1,
            QuantumOp::Rz => 1,
            QuantumOp::U3 => 1,
            QuantumOp::GPhase => 0,
            QuantumOp::AnySQ => 1,
            QuantumOp::X2P => 1,
            QuantumOp::X2M => 1,
            QuantumOp::Y2P => 1,
            QuantumOp::Y2M => 1,
            QuantumOp::QcisFinalize => 0,
            QuantumOp::EPR => 2,
        }
    }

    pub fn get_parameter_count(&self) -> (r: usize)
        ensures
            r == spec_parameter_count(*self),
    {
        match self {
            QuantumOp::Reset => 0,
            QuantumOp::X => 0,
            QuantumOp::Y => 0,
            QuantumOp::Z => 0,
            QuantumOp::H => 0,
            QuantumOp::S => 0,
            QuantumOp::SInv => 0,
            QuantumOp::T => 0,
            QuantumOp::TInv => 0,
            QuantumOp::CNOT => 0,
            QuantumOp::CZ => 0,
            QuantumOp::Swap => 0,
            QuantumOp::CCNOT => 0,
            QuantumOp::Rx => 1,
            QuantumOp::Ry => 1,
            QuantumOp::Rz => 1,
            QuantumOp::U3 => 3,
            QuantumOp::GPhase => 1,
            QuantumOp::AnySQ => 8,
            QuantumOp::X2P => 0,
            QuantumOp::X2M => 0,
            QuantumOp::Y2P => 0,
            QuantumOp::Y2M => 0,
            QuantumOp::QcisFinalize => 0,
            QuantumOp::EPR => 0,
        }
    }
}

/// The runtime's failure taxonomy for conditions a caller cannot rule out
/// in advance. Conditions a caller can check (a stale handle, a capacity
/// overrun, a wrong arity) are excluded by preconditions instead.
#[derive(Copy, Clone, Eq, PartialEq, Structural, Debug)]
pub enum SimError {
    /// The operation is not in the device's supported set.
    UnsupportedOp,
    /// The amplitude vector's squared-magnitude sum left `1 ± 1e-3`.
    NormBroken,
    /// A subspace assertion's trace had a non-negligible imaginary part.
    ProjectorNotHermitian,
    /// An empty random range was requested.
    BadRandomRange,
    /// A classical message key already holds an unconsumed value.
    ProtocolViolation,
    /// The entry point is not implemented by this runtime.
    NotImplemented,
}

/// The capability contract every simulation backend implements.
///
/// Decorators wrap an inner device and forward through this same trait,
/// so backends stack freely. The spec members let each backend say which
/// calls it admits; the trait-level contracts hold of every backend, and
/// concrete backends strengthen them on their own impls.
pub trait QDevice: Sized {
    /// Well-formedness of the backend's state.
    spec fn dev_inv(&self) -> bool;

    /// The operations this backend executes directly.
    spec fn supported(&self) -> Set<QuantumOp>;

    /// Whether a handle is currently usable with this backend.
    spec fn has_qubit(&self, q: usize) -> bool;

    /// Whether another allocation is admissible.
    spec fn can_alloc(&self) -> bool;

    /// Whether an operation call's shape is admissible: arities, handle
    /// validity, controller constraints.
    spec fn op_args_ok(
        &self,
        op: QuantumOp,
        controllers: Seq<usize>,
        qubits: Seq<usize>,
        parameters: Seq<u64>,
    ) -> bool;

    /// Whether a subspace-assertion call's shape is admissible.
    spec fn assert_args_ok(&self, qubits: Seq<usize>, space: Seq<u64>) -> bool;

    /// How a dispatched operation relates the backend's final state and
    /// result to its initial state. Each backend pins this to its own
    /// semantics and decorators define it by delegation, so the whole
    /// effect of a forwarded call stays visible through the trait.
    spec fn qop_effect(
        pre: &Self,
        post: &Self,
        op: QuantumOp,
        controllers: Seq<usize>,
        qubits: Seq<usize>,
        parameters: Seq<u64>,
        r: Result<(), SimError>,
    ) -> bool;

    /// How a measurement relates the backend's final state and outcome
    /// to its initial state.
    spec fn measure_effect(pre: &Self, post: &Self, qubit: usize, r: bool) -> bool;

    /// How a deallocation relates the backend's final state and result
    /// to its initial state.
    spec fn free_effect(pre: &Self, post: &Self, qubit: usize, r: Result<(), SimError>) -> bool;

    /// What a subspace assertion's verdict says of the backend's state.
    spec fn assert_effect(&self, qubits: Seq<usize>, space: Seq<u64>, r: Result<
        bool,
        SimError,
    >) -> bool;

    /// The measurement record so far, one `'0'`/`'1'` per committed
    /// measurement.
    spec fn record(&self) -> Seq<char>;

    fn alloc_qubit(&mut self) -> (q: usize)
        requires
            old(self).dev_inv(),
            old(self).can_alloc(),
        ensures
            final(self).dev_inv(),
            final(self).has_qubit(q),
            forall|q2: usize| old(self).has_qubit(q2) ==> final(self).has_qubit(q2),
            final(self).record() == old(self).record(),
    ;

    fn free_qubit(&mut self, qubit: usize) -> (r: Result<(), SimError>)
        requires
            old(self).dev_inv(),
            old(self).has_qubit(qubit),
        ensures
            r is Ok ==> final(self).dev_inv(),
            final(self).record() == old(self).record(),
            Self::free_effect(old(self), final(self), qubit, r),
    ;

    fn supported_quantum_ops(&self) -> (r: Vec<QuantumOp>)
        requires
            self.dev_inv(),
        ensures
            r@.to_set() == self.supported(),
    ;

    fn qop(&mut self, op_type: QuantumOp, qubits: &[usize], parameters: &[u64]) -> (r: Result<
        (),
        SimError,
    >)
        requires
            old(self).dev_inv(),
            old(self).op_args_ok(op_type, Seq::empty(), qubits@, parameters@),
        ensures
            final(self).dev_inv(),
            forall|q2: usize| old(self).has_qubit(q2) ==> final(self).has_qubit(q2),
            Self::qop_effect(old(self), final(self), op_type, Seq::empty(), qubits@, parameters@, r),
    ;

    fn controlled_qop(
        &mut self,
        op_type: QuantumOp,
        controllers: &[usize],
        qubits: &[usize],
        parameters: &[u64],
    ) -> (r: Result<(), SimError>)
        requires
            old(self).dev_inv(),
            old(self).op_args_ok(op_type, controllers@, qubits@, parameters@),
        ensures
            final(self).dev_inv(),
            forall|q2: usize| old(self).has_qubit(q2) ==> final(self).has_qubit(q2),
            Self::qop_effect(
                old(self),
                final(self),
                op_type,
                controllers@,
                qubits@,
                parameters@,
                r,
            ),
    ;

    fn measure(&mut self, qubit: usize) -> (r: bool)
        requires
            old(self).dev_inv(),
            old(self).has_qubit(qubit),
        ensures
            final(self).dev_inv(),
            forall|q2: usize| old(self).has_qubit(q2) ==> final(self).has_qubit(q2),
            Self::measure_effect(old(self), final(self), qubit, r),
    ;

    fn get_measure_res(&mut self) -> (r: String)
        requires
            old(self).dev_inv(),
        ensures
            *final(self) == *old(self),
            r@ == old(self).record(),
    ;

    fn print_state(&mut self)
        requires
            old(self).dev_inv(),
        ensures
            *final(self) == *old(self),
    ;

    fn assert_subspace(&self, qubits: &[usize], space: &[u64]) -> (r: Result<bool, SimError>)
        requires
            self.dev_inv(),
            self.assert_args_ok(qubits@, space@),
        ensures
            self.assert_effect(qubits@, space@, r),
    ;

    fn param_qop(&mut self, op_type: QuantumOp, qubits: &[usize], parameters: String)
        requires
            old(self).dev_inv(),
        ensures
            *final(self) == *old(self),
    ;
}

} // verus!
