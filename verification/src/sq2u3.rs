//! The decomposing decorator: it rewrites the named single-qubit gate
//! family (Pauli, Hadamard, phase, rotation and general-unitary
//! requests) into the eight-parameter general single-qubit form the
//! wrapped backend executes directly, and forwards everything else
//! unchanged.

use vstd::prelude::*;
use crate::amp::{ZERO_BITS, ONE_BITS, NEG_ONE_BITS, HALF_BITS, SQRT_HALF_BITS, NEG_SQRT_HALF_BITS,
    float_mul, float_add, float_sin, float_cos, float_neg};
use crate::qdevice::{QuantumOp, SimError, QDevice, spec_qubit_count, spec_parameter_count};

verus! {

/// Flipping a sign bit twice is the identity.
proof fn lemma_double_flip(x: u64)
    ensures
        (x ^ 0x8000_0000_0000_0000u64) ^ 0x8000_0000_0000_0000u64 == x,
{
    assert((x ^ 0x8000_0000_0000_0000u64) ^ 0x8000_0000_0000_0000u64 == x) by (bit_vector);
}

/// The fixed-matrix family the decorator rewrites to an exact
/// parameter vector.
pub open spec fn fixed_family(op: QuantumOp) -> bool {
    match op {
        QuantumOp::X => true,
        QuantumOp::Y => true,
        QuantumOp::Z => true,
        QuantumOp::H => true,
        QuantumOp::S => true,
        QuantumOp::SInv => true,
        QuantumOp::T => true,
        QuantumOp::TInv => true,
        QuantumOp::X2P => true,
        QuantumOp::X2M => true,
        QuantumOp::Y2P => true,
        QuantumOp::Y2M => true,
        _ => false,
    }
}

/// The rotation family: its matrices are built from platform-drawn
/// sines and cosines, so only their arrangement can be pinned.
pub open spec fn rotation_family(op: QuantumOp) -> bool {
    match op {
        QuantumOp::Rx => true,
        QuantumOp::Ry => true,
        QuantumOp::Rz => true,
        QuantumOp::U3 => true,
        _ => false,
    }
}

/// The family of rewritten operations.
pub open spec fn decomposable(op: QuantumOp) -> bool {
    fixed_family(op) || rotation_family(op)
}

/// The eight general-single-qubit parameters a fixed-matrix request
/// becomes: the 2x2 matrix row-major, each entry's real and imaginary
/// bit patterns.
pub open spec fn fixed_sq_params(op: QuantumOp) -> Seq<u64> {
    match op {
        QuantumOp::X => seq![
            ZERO_BITS, ZERO_BITS, ONE_BITS, ZERO_BITS, ONE_BITS, ZERO_BITS, ZERO_BITS, ZERO_BITS,
        ],
        QuantumOp::Y => seq![
            ZERO_BITS, ZERO_BITS, ZERO_BITS, NEG_ONE_BITS, ZERO_BITS, ONE_BITS, ZERO_BITS,
            ZERO_BITS,
        ],
        QuantumOp::Z => seq![
            ONE_BITS, ZERO_BITS, ZERO_BITS, ZERO_BITS, ZERO_BITS, ZERO_BITS, NEG_ONE_BITS,
            ZERO_BITS,
        ],
        QuantumOp::H => seq![
            SQRT_HALF_BITS, ZERO_BITS, SQRT_HALF_BITS, ZERO_BITS, SQRT_HALF_BITS, ZERO_BITS,
            NEG_SQRT_HALF_BITS, ZERO_BITS,
        ],
        QuantumOp::S => seq![
            ONE_BITS, ZERO_BITS, ZERO_BITS, ZERO_BITS, ZERO_BITS, ZERO_BITS, ZERO_BITS, ONE_BITS,
        ],
        QuantumOp::SInv => seq![
            ONE_BITS, ZERO_BITS, ZERO_BITS, ZERO_BITS, ZERO_BITS, ZERO_BITS, ZERO_BITS,
            NEG_ONE_BITS,
        ],
        QuantumOp::T => seq![
            ONE_BITS, ZERO_BITS, ZERO_BITS, ZERO_BITS, ZERO_BITS, ZERO_BITS, SQRT_HALF_BITS,
            SQRT_HALF_BITS,
        ],
        QuantumOp::TInv => seq![
            ONE_BITS, ZERO_BITS, ZERO_BITS, ZERO_BITS, ZERO_BITS, ZERO_BITS, SQRT_HALF_BITS,
            NEG_SQRT_HALF_BITS,
        ],
        QuantumOp::X2P => seq![
            SQRT_HALF_BITS, ZERO_BITS, ZERO_BITS, NEG_SQRT_HALF_BITS, ZERO_BITS,
            NEG_SQRT_HALF_BITS, SQRT_HALF_BITS, ZERO_BITS,
        ],
        QuantumOp::X2M => seq![
            SQRT_HALF_BITS, ZERO_BITS, ZERO_BITS, SQRT_HALF_BITS, ZERO_BITS, SQRT_HALF_BITS,
            SQRT_HALF_BITS, ZERO_BITS,
        ],
        QuantumOp::Y2P => seq![
            SQRT_HALF_BITS, ZERO_BITS, NEG_SQRT_HALF_BITS, ZERO_BITS, SQRT_HALF_BITS, ZERO_BITS,
            SQRT_HALF_BITS, ZERO_BITS,
        ],
        QuantumOp::Y2M => seq![
            SQRT_HALF_BITS, ZERO_BITS, SQRT_HALF_BITS, ZERO_BITS, NEG_SQRT_HALF_BITS, ZERO_BITS,
            SQRT_HALF_BITS, ZERO_BITS,
        ],
        _ => Seq::empty(),
    }
}

/// The arrangement a rotation request's parameter vector takes around
/// the drawn cosine and sine of its half-angle. `f64::sin` and
/// `f64::cos` are documented as platform dependent and possibly varying
/// between invocations, so the trig values themselves are carried as
/// whatever the draw returned; only their placement (with negation as
/// an exact sign-bit flip) is pinned. For the general unitary the six
/// drawn trig values meet under further products, so only the shape of
/// its vector is stated.
pub open spec fn rotation_form(op: QuantumOp, ps: Seq<u64>) -> bool {
    &&& ps.len() == 8
    &&& match op {
        QuantumOp::Rx => ps =~= seq![
            ps[0], ZERO_BITS, ZERO_BITS, ps[3], ZERO_BITS, ps[3], ps[0], ZERO_BITS,
        ],
        QuantumOp::Ry => ps =~= seq![
            ps[0], ZERO_BITS, ps[2], ZERO_BITS, (ps[2] ^ 0x8000_0000_0000_0000u64), ZERO_BITS,
            ps[0], ZERO_BITS,
        ],
        QuantumOp::Rz => ps =~= seq![
            ps[0], (ps[7] ^ 0x8000_0000_0000_0000u64), ZERO_BITS, ZERO_BITS, ZERO_BITS, ZERO_BITS,
            ps[0], ps[7],
        ],
        QuantumOp::U3 => ps[1] == ZERO_BITS,
        _ => false,
    }
}

/// What the decomposer hands the wrapped backend for a rewritten
/// request: the exact vector for the fixed family, the pinned
/// arrangement for rotations.
pub open spec fn decomposed_form(op: QuantumOp, ps: Seq<u64>) -> bool {
    if fixed_family(op) {
        ps == fixed_sq_params(op)
    } else {
        rotation_form(op, ps)
    }
}

/// Compute the eight general-single-qubit parameters of a decomposable
/// request.
pub fn decompose_single_qubit(op: QuantumOp, p: &[u64]) -> (r: Vec<u64>)
    requires
        decomposable(op),
        p@.len() == spec_parameter_count(op),
    ensures
        r@.len() == 8,
        decomposed_form(op, r@),
{
    let mut v: Vec<u64> = Vec::new();
    match op {
        QuantumOp::X => {
            v.push(ZERO_BITS);
            v.push(ZERO_BITS);
            v.push(ONE_BITS);
            v.push(ZERO_BITS);
            v.push(ONE_BITS);
            v.push(ZERO_BITS);
            v.push(ZERO_BITS);
            v.push(ZERO_BITS);
        },
        QuantumOp::Y => {
            v.push(ZERO_BITS);
            v.push(ZERO_BITS);
            v.push(ZERO_BITS);
            v.push(NEG_ONE_BITS);
            v.push(ZERO_BITS);
            v.push(ONE_BITS);
            v.push(ZERO_BITS);
            v.push(ZERO_BITS);
        },
        QuantumOp::Z => {
            v.push(ONE_BITS);
            v.push(ZERO_BITS);
            v.push(ZERO_BITS);
            v.push(ZERO_BITS);
            v.push(ZERO_BITS);
            v.push(ZERO_BITS);
            v.push(NEG_ONE_BITS);
            v.push(ZERO_BITS);
        },
        QuantumOp::H => {
            v.push(SQRT_HALF_BITS);
            v.push(ZERO_BITS);
            v.push(SQRT_HALF_BITS);
            v.push(ZERO_BITS);
            v.push(SQRT_HALF_BITS);
            v.push(ZERO_BITS);
            v.push(NEG_SQRT_HALF_BITS);
            v.push(ZERO_BITS);
        },
        QuantumOp::S => {
            v.push(ONE_BITS);
            v.push(ZERO_BITS);
            v.push(ZERO_BITS);
            v.push(ZERO_BITS);
            v.push(ZERO_BITS);
            v.push(ZERO_BITS);
            v.push(ZERO_BITS);
            v.push(ONE_BITS);
        },
        QuantumOp::SInv => {
            v.push(ONE_BITS);
            v.push(ZERO_BITS);
            v.push(ZERO_BITS);
            v.push(ZERO_BITS);
            v.push(ZERO_BITS);
            v.push(ZERO_BITS);
            v.push(ZERO_BITS);
            v.push(NEG_ONE_BITS);
        },
        QuantumOp::T => {
            v.push(ONE_BITS);
            v.push(ZERO_BITS);
            v.push(ZERO_BITS);
            v.push(ZERO_BITS);
            v.push(ZERO_BITS);
            v.push(ZERO_BITS);
            v.push(SQRT_HALF_BITS);
            v.push(SQRT_HALF_BITS);
        },
        QuantumOp::TInv => {
            v.push(ONE_BITS);
            v.push(ZERO_BITS);
            v.push(ZERO_BITS);
            v.push(ZERO_BITS);
            v.push(ZERO_BITS);
            v.push(ZERO_BITS);
            v.push(SQRT_HALF_BITS);
            v.push(NEG_SQRT_HALF_BITS);
        },
        QuantumOp::X2P => {
            v.push(SQRT_HALF_BITS);
            v.push(ZERO_BITS);
            v.push(ZERO_BITS);
            v.push(NEG_SQRT_HALF_BITS);
            v.push(ZERO_BITS);
            v.push(NEG_SQRT_HALF_BITS);
            v.push(SQRT_HALF_BITS);
            v.push(ZERO_BITS);
        },
        QuantumOp::X2M => {
            v.push(SQRT_HALF_BITS);
            v.push(ZERO_BITS);
            v.push(ZERO_BITS);
            v.push(SQRT_HALF_BITS);
            v.push(ZERO_BITS);
            v.push(SQRT_HALF_BITS);
            v.push(SQRT_HALF_BITS);
            v.push(ZERO_BITS);
        },
        QuantumOp::Y2P => {
            v.push(SQRT_HALF_BITS);
            v.push(ZERO_BITS);
            v.push(NEG_SQRT_HALF_BITS);
            v.push(ZERO_BITS);
            v.push(SQRT_HALF_BITS);
            v.push(ZERO_BITS);
            v.push(SQRT_HALF_BITS);
            v.push(ZERO_BITS);
        },
        QuantumOp::Y2M => {
            v.push(SQRT_HALF_BITS);
            v.push(ZERO_BITS);
            v.push(SQRT_HALF_BITS);
            v.push(ZERO_BITS);
            v.push(NEG_SQRT_HALF_BITS);
            v.push(ZERO_BITS);
            v.push(SQRT_HALF_BITS);
            v.push(ZERO_BITS);
        },
        QuantumOp::Rx => {
            let c = float_cos(float_mul(p[0], HALF_BITS));
            let s = float_sin(float_mul(p[0], HALF_BITS));
            let ns = float_neg(s);
            v.push(c);
            v.push(ZERO_BITS);
            v.push(ZERO_BITS);
            v.push(ns);
            v.push(ZERO_BITS);
            v.push(ns);
            v.push(c);
            v.push(ZERO_BITS);
        },
        QuantumOp::Ry => {
            let c = float_cos(float_mul(p[0], HALF_BITS));
            let s = float_sin(float_mul(p[0], HALF_BITS));
            let ns = float_neg(s);
            v.push(c);
            v.push(ZERO_BITS);
            v.push(ns);
            v.push(ZERO_BITS);
            v.push(s);
            v.push(ZERO_BITS);
            v.push(c);
            v.push(ZERO_BITS);
        },
        QuantumOp::Rz => {
            let c = float_cos(float_mul(p[0], HALF_BITS));
            let s = float_sin(float_mul(p[0], HALF_BITS));
            let ns = float_neg(s);
            v.push(c);
            v.push(ns);
            v.push(ZERO_BITS);
            v.push(ZERO_BITS);
            v.push(ZERO_BITS);
            v.push(ZERO_BITS);
            v.push(c);
            v.push(s);
        },
        QuantumOp::U3 => {
            let c = float_cos(float_mul(p[0], HALF_BITS));
            let s = float_sin(float_mul(p[0], HALF_BITS));
            let phi = p[1];
            let lam = p[2];
            let sum = float_add(phi, lam);
            v.push(c);
            v.push(ZERO_BITS);
            v.push(float_neg(float_mul(float_cos(lam), s)));
            v.push(float_neg(float_mul(float_sin(lam), s)));
            v.push(float_mul(float_cos(phi), s));
            v.push(float_mul(float_sin(phi), s));
            v.push(float_mul(float_cos(sum), c));
            v.push(float_mul(float_sin(sum), c));
        },
        _ => {
        },
    }
    proof {
        if fixed_family(op) {
            assert(v@ =~= fixed_sq_params(op));
        } else {
            match op {
                QuantumOp::Rx => {
                    assert(v@ =~= seq![
                        v@[0], ZERO_BITS, ZERO_BITS, v@[3], ZERO_BITS, v@[3], v@[0], ZERO_BITS,
                    ]);
                },
                QuantumOp::Ry => {
                    lemma_double_flip(v@[4]);
                    assert(v@ =~= seq![
                        v@[0], ZERO_BITS, v@[2], ZERO_BITS, (v@[2] ^ 0x8000_0000_0000_0000u64),
                        ZERO_BITS, v@[0], ZERO_BITS,
                    ]);
                },
                QuantumOp::Rz => {
                    assert(v@ =~= seq![
                        v@[0], (v@[7] ^ 0x8000_0000_0000_0000u64), ZERO_BITS, ZERO_BITS, ZERO_BITS,
                        ZERO_BITS, v@[0], v@[7],
                    ]);
                },
                _ => {
                },
            }
        }
    }
    v
}

/// Whether the decorator rewrites the operation.
fn is_decomposable(op: QuantumOp) -> (r: bool)
    ensures
        r == decomposable(op),
{
    match op {
        QuantumOp::X => true,
        QuantumOp::Y => true,
        QuantumOp::Z => true,
        QuantumOp::H => true,
        QuantumOp::S => true,
        QuantumOp::SInv => true,
        QuantumOp::T => true,
        QuantumOp::TInv => true,
        QuantumOp::X2P => true,
        QuantumOp::X2M => true,
        QuantumOp::Y2P => true,
        QuantumOp::Y2M => true,
        QuantumOp::Rx => true,
        QuantumOp::Ry => true,
        QuantumOp::Rz => true,
        QuantumOp::U3 => true,
        _ => false,
    }
}

/// The family of operations added to the wrapped backend's supported set.
pub open spec fn sq_family_seq() -> Seq<QuantumOp> {
    seq![
        QuantumOp::X,
        QuantumOp::Y,
        QuantumOp::Z,
        QuantumOp::H,
        QuantumOp::S,
        QuantumOp::SInv,
        QuantumOp::T,
        QuantumOp::TInv,
        QuantumOp::X2P,
        QuantumOp::X2M,
        QuantumOp::Y2P,
        QuantumOp::Y2M,
        QuantumOp::Rx,
        QuantumOp::Ry,
        QuantumOp::Rz,
        QuantumOp::U3,
    ]
}

pub struct SQ2U3Device<D: QDevice> {
    inner: D,
}

impl<D: QDevice> SQ2U3Device<D> {
    /// The wrapped backend.
    pub closed spec fn device(&self) -> &D {
        &self.inner
    }

    pub fn new(inner: D) -> (r: SQ2U3Device<D>)
        ensures
            r.device() == inner,
    {
        SQ2U3Device { inner }
    }

    /// Shared access to the wrapped backend.
    pub fn inner_ref(&self) -> (r: &D)
        ensures
            *r == *self.device(),
    {
        &self.inner
    }

    /// Exclusive access to the wrapped backend.
    pub fn inner_mut(&mut self) -> (r: &mut D)
        ensures
            *r == *old(self).device(),
            *final(self).device() == *final(r),
    {
        &mut self.inner
    }
}

impl<D: QDevice> QDevice for SQ2U3Device<D> {
    open spec fn dev_inv(&self) -> bool {
        self.device().dev_inv()
    }

    open spec fn supported(&self) -> Set<QuantumOp> {
        self.device().supported().union(sq_family_seq().to_set())
    }

    open spec fn has_qubit(&self, q: usize) -> bool {
        self.device().has_qubit(q)
    }

    open spec fn can_alloc(&self) -> bool {
        self.device().can_alloc()
    }

    open spec fn op_args_ok(
        &self,
        op: QuantumOp,
        controllers: Seq<usize>,
        qubits: Seq<usize>,
        parameters: Seq<u64>,
    ) -> bool {
        if decomposable(op) {
            &&& qubits.len() == spec_qubit_count(op)
            &&& parameters.len() == spec_parameter_count(op)
            &&& forall|ps: Seq<u64>|
                ps.len() == 8 ==> self.device().op_args_ok(
                    QuantumOp::AnySQ,
                    controllers,
                    qubits,
                    ps,
                )
        } else {
            self.device().op_args_ok(op, controllers, qubits, parameters)
        }
    }

    open spec fn assert_args_ok(&self, qubits: Seq<usize>, space: Seq<u64>) -> bool {
        self.device().assert_args_ok(qubits, space)
    }

    open spec fn qop_effect(
        pre: &Self,
        post: &Self,
        op: QuantumOp,
        controllers: Seq<usize>,
        qubits: Seq<usize>,
        parameters: Seq<u64>,
        r: Result<(), SimError>,
    ) -> bool {
        if decomposable(op) {
            exists|ps: Seq<u64>|
                #![trigger decomposed_form(op, ps)]
                decomposed_form(op, ps) && D::qop_effect(
                    pre.device(),
                    post.device(),
                    QuantumOp::AnySQ,
                    controllers,
                    qubits,
                    ps,
                    r,
                )
        } else {
            D::qop_effect(pre.device(), post.device(), op, controllers, qubits, parameters, r)
        }
    }

    open spec fn measure_effect(pre: &Self, post: &Self, qubit: usize, r: bool) -> bool {
        D::measure_effect(pre.device(), post.device(), qubit, r)
    }

    open spec fn free_effect(pre: &Self, post: &Self, qubit: usize, r: Result<
        (),
        SimError,
    >) -> bool {
        D::free_effect(pre.device(), post.device(), qubit, r)
    }

    open spec fn assert_effect(&self, qubits: Seq<usize>, space: Seq<u64>, r: Result<
        bool,
        SimError,
    >) -> bool {
        self.device().assert_effect(qubits, space, r)
    }

    open spec fn record(&self) -> Seq<char> {
        self.device().record()
    }

    fn alloc_qubit(&mut self) -> (q: usize) {
        self.inner.alloc_qubit()
    }

    fn free_qubit(&mut self, qubit: usize) -> (r: Result<(), SimError>) {
        self.inner.free_qubit(qubit)
    }

    fn supported_quantum_ops(&self) -> (r: Vec<QuantumOp>) {
        let mut v = self.inner.supported_quantum_ops();
        let ghost base = v@;
        v.push(QuantumOp::X);
        v.push(QuantumOp::Y);
        v.push(QuantumOp::Z);
        v.push(QuantumOp::H);
        v.push(QuantumOp::S);
        v.push(QuantumOp::SInv);
        v.push(QuantumOp::T);
        v.push(QuantumOp::TInv);
        v.push(QuantumOp::X2P);
        v.push(QuantumOp::X2M);
        v.push(QuantumOp::Y2P);
        v.push(QuantumOp::Y2M);
        v.push(QuantumOp::Rx);
        v.push(QuantumOp::Ry);
        v.push(QuantumOp::Rz);
        v.push(QuantumOp::U3);
        proof {
            assert(v@ =~= base + sq_family_seq());
            assert forall|x: QuantumOp| v@.to_set().contains(x) <==> self.supported().contains(
                x,
            ) by {
                if v@.contains(x) {
                    let t = choose|t: int| 0 <= t < v@.len() && v@[t] == x;
                    if t < base.len() {
                        assert(base[t] == x);
                    } else {
                        assert(sq_family_seq()[t - base.len()] == x);
                    }
                }
                if base.contains(x) {
                    let t = choose|t: int| 0 <= t < base.len() && base[t] == x;
                    assert(v@[t] == x);
                }
                if sq_family_seq().contains(x) {
                    let t = choose|t: int| 0 <= t < sq_family_seq().len() && sq_family_seq()[t]
                        == x;
                    assert(v@[base.len() + t] == x);
                }
            }
            assert(v@.to_set() =~= self.supported());
        }
        v
    }

    fn qop(&mut self, op_type: QuantumOp, qubits: &[usize], parameters: &[u64]) -> (r: Result<
        (),
        SimError,
    >) {
        let empty: [usize; 0] = [];
        proof {
            assert(empty@ =~= Seq::<usize>::empty());
        }
        self.controlled_qop(op_type, &empty, qubits, parameters)
    }

    fn controlled_qop(
        &mut self,
        op_type: QuantumOp,
        controllers: &[usize],
        qubits: &[usize],
        parameters: &[u64],
    ) -> (r: Result<(), SimError>) {
        if is_decomposable(op_type) {
            let p8 = decompose_single_qubit(op_type, parameters);
            self.inner.controlled_qop(QuantumOp::AnySQ, controllers, qubits, p8.as_slice())
        } else {
            self.inner.controlled_qop(op_type, controllers, qubits, parameters)
        }
    }

    fn measure(&mut self, qubit: usize) -> (r: bool) {
        self.inner.measure(qubit)
    }

    fn get_measure_res(&mut self) -> (r: String) {
        self.inner.get_measure_res()
    }

    fn print_state(&mut self) {
        self.inner.print_state()
    }

    fn assert_subspace(&self, qubits: &[usize], space: &[u64]) -> (r: Result<bool, SimError>) {
        self.inner.assert_subspace(qubits, space)
    }

    fn param_qop(&mut self, op_type: QuantumOp, qubits: &[usize], parameters: String) {
        self.inner.param_qop(op_type, qubits, parameters)
    }
}

} // verus!
