//! The reference full state-vector backend.
//!
//! The amplitude vector is indexed by physical slots; a logical handle is
//! a monotonically increasing integer tied to a slot through the
//! `mapping`/`slots` bijection. Renumbering lets deallocation and
//! trace-out always work on the most significant slot. Every structural
//! effect (which cell moves where, how the bijection evolves) is stated
//! exactly; the arithmetic each cell undergoes is pinned through the
//! named operations of `amp`.

use vstd::prelude::*;
use std::collections::BTreeMap;
use std::io::Write;
use core::primitive::f64 as Double;
use vstd::string::StringExecFns;
use vstd::arithmetic::power2::{pow2, lemma_pow2_pos, lemma_pow2_adds, lemma_pow2_strictly_increases,
    lemma2_to64};
use vstd::layout::unsigned_int_max_values;
use vstd::bits::lemma_usize_shl_is_mul;
use crate::amp::{Amp, AMP_ZERO, AMP_ONE, AMP_NEG_ONE, ZERO_BITS, ONE_BITS, MAG_MASK, INF_BITS,
    finite_bits, c_add, c_mul, c_conj, c_norm_sqr,
    c_scale, c_unscale, f_add, f_sub, f_lt, f_le, f_sqrt, spec_clamp01, clamp01, amp_add, amp_mul,
    amp_conj, amp_norm_sqr, amp_scale, amp_unscale, amp_finite, float_add, float_sub, float_lt,
    float_le, float_sqrt, float_sin, float_cos, random_unit, SQRT_HALF_BITS};
use crate::qdevice::{QuantumOp, SimError, QDevice, spec_qubit_count, spec_parameter_count};

verus! {

broadcast use {vstd::std_specs::btree::group_btree_axioms, vstd::laws_cmp::group_laws_cmp};

/// Bits of `1e-4`, the default tolerance under which a freed qubit's
/// outcome probabilities count as computational.
pub const COMP_TOLERANCE_BITS: u64 = 0x3F1A_36E2_EB1C_432D;

/// Bits of `1.001`, the upper bound of the norm tolerance band.
pub const NORM_HI_BITS: u64 = 0x3FF0_0418_9374_BC6A;

/// Bits of `0.999`, the lower bound of the norm tolerance band.
pub const NORM_LO_BITS: u64 = 0x3FEF_F7CE_D916_872B;

/// Whether index `j` belongs to a pair exchanged by a two-mask swap:
/// exactly one of the two mask bits is set in `j`.
pub open spec fn swap_eligible(j: usize, m1: usize, m2: usize) -> bool {
    (j & m1 == 0 && j & m2 != 0) || (j & m1 != 0 && j & m2 == 0)
}

/// The cell `j` holds after exchanging the amplitudes of every index pair
/// that differs in exactly the two mask bits: a pure structural
/// permutation of the sequence.
pub open spec fn swap_cell(s: Seq<Amp>, j: usize, m1: usize, m2: usize) -> Amp {
    if swap_eligible(j, m1, m2) {
        s[(j ^ m1 ^ m2) as int]
    } else {
        s[j as int]
    }
}

/// The representative of `j`'s exchange pair: the member with the first
/// mask bit clear.
spec fn swap_rep(j: usize, m1: usize, m2: usize) -> usize {
    if j & m1 == 0 {
        j
    } else {
        j ^ m1 ^ m2
    }
}

/// The cell `j` holds while the exchange loop has processed indices below
/// `upto`.
spec fn swap_partial(s: Seq<Amp>, j: usize, upto: usize, m1: usize, m2: usize) -> Amp {
    if swap_eligible(j, m1, m2) && swap_rep(j, m1, m2) < upto {
        swap_cell(s, j, m1, m2)
    } else {
        s[j as int]
    }
}

/// Left fold of the squared magnitudes of the first `k` cells, in the
/// order the engine accumulates them.
pub open spec fn prob_sum(s: Seq<Amp>, k: int) -> u64
    decreases k,
{
    if k <= 0 {
        ZERO_BITS
    } else {
        f_add(prob_sum(s, k - 1), c_norm_sqr(s[k - 1]))
    }
}

/// Whether a sequence's squared-magnitude sum lies in the norm tolerance
/// band `[0.999, 1.001]`; a sum that compares with neither bound (a NaN)
/// is outside the band.
pub open spec fn norm_in_band(s: Seq<Amp>) -> bool {
    f_le(NORM_LO_BITS, prob_sum(s, s.len() as int)) && f_le(prob_sum(s, s.len() as int),
        NORM_HI_BITS)
}

/// The amplitude sequence after exchanging the slots behind the two
/// masks.
pub open spec fn swapped_seq(s: Seq<Amp>, m1: usize, m2: usize) -> Seq<Amp> {
    Seq::new(s.len(), |j: int| swap_cell(s, j as usize, m1, m2))
}

/// The probability bits of observing `0` at the most significant slot:
/// the clamped squared-magnitude sum of the lower half.
pub open spec fn msb_prob_zero(s: Seq<Amp>) -> u64 {
    spec_clamp01(prob_sum(s, s.len() as int / 2))
}

/// A 2x2 complex matrix in row-major order.
#[derive(Clone, Copy)]
pub struct SqMat {
    pub m00: Amp,
    pub m01: Amp,
    pub m10: Amp,
    pub m11: Amp,
}

/// A 4x4 complex matrix in row-major order.
#[derive(Clone, Copy)]
pub struct TqMat {
    pub m: [[Amp; 4]; 4],
}

/// The physical slots behind a sequence of controller handles.
pub open spec fn ctrl_slots(m: Map<usize, usize>, c: Seq<usize>) -> Seq<usize> {
    Seq::new(c.len(), |k: int| m[c[k]])
}

/// The controller mask: the union of the slot bits every controller must
/// have set for a gate to act on an index.
pub open spec fn ctrl_mask(c: Seq<usize>) -> usize
    decreases c.len(),
{
    if c.len() == 0 {
        0
    } else {
        ctrl_mask(c.drop_last()) | (1usize << c.last())
    }
}

/// Row 0 of a 2x2 matrix applied to an amplitude pair.
pub open spec fn sq_row0(m: SqMat, a: Amp, b: Amp) -> Amp {
    c_add(c_mul(m.m00, a), c_mul(m.m01, b))
}

/// Row 1 of a 2x2 matrix applied to an amplitude pair.
pub open spec fn sq_row1(m: SqMat, a: Amp, b: Amp) -> Amp {
    c_add(c_mul(m.m10, a), c_mul(m.m11, b))
}

/// The value cell `j` holds after a controlled single-qubit gate on the
/// slot behind `mask`: the pair spanning `j` is transformed by the matrix
/// when every controller bit is set in the pair's lower member.
pub open spec fn sq_gate_cell(s: Seq<Amp>, j: usize, mask: usize, cmask: usize, m: SqMat) -> Amp {
    if j & mask == 0 {
        if j & cmask == cmask {
            sq_row0(m, s[j as int], s[(j ^ mask) as int])
        } else {
            s[j as int]
        }
    } else {
        if (j ^ mask) & cmask == cmask {
            sq_row1(m, s[(j ^ mask) as int], s[j as int])
        } else {
            s[j as int]
        }
    }
}

/// One row of a 4x4 matrix applied to an amplitude quadruple, summed in
/// the engine's left-to-right order.
pub open spec fn tq_row(m: TqMat, row: int, a: Amp, b: Amp, c: Amp, d: Amp) -> Amp {
    c_add(c_add(c_add(c_mul(m.m[row][0], a), c_mul(m.m[row][1], b)), c_mul(m.m[row][2], c)), c_mul(
        m.m[row][3], d))
}

/// The value cell `j` holds after a controlled two-qubit gate on the
/// slots behind `m1` and `m2`: the quadruple spanning `j` is transformed
/// by the matrix when every controller bit is set in the quadruple's base
/// member. Rows and columns are ordered with the `m1` bit as the more
/// significant.
pub open spec fn tq_gate_cell(s: Seq<Amp>, j: usize, m1: usize, m2: usize, cmask: usize, m: TqMat)
    -> Amp {
    let base = j & !m1 & !m2;
    if base & cmask == cmask {
        let row = (if j & m1 != 0 { 2int } else { 0int }) + (if j & m2 != 0 { 1int } else { 0int });
        tq_row(m, row, s[base as int], s[(base ^ m2) as int], s[(base ^ m1) as int], s[(base ^ m1
            ^ m2) as int])
    } else {
        s[j as int]
    }
}

/// Bit-level facts about the amplitude pair spanning an index under one
/// mask bit: the pair's lower member, its range, and how the two members
/// relate.
proof fn lemma_gate_bits(j: usize, n: usize, p: usize)
    requires
        n < usize::BITS,
        p < n,
        j < (1usize << n),
    ensures
        ((j & !(1usize << p)) & (1usize << p)) == 0,
        (j & !(1usize << p)) <= j,
        (j & !(1usize << p)) < (1usize << n),
        j & (1usize << p) == 0 ==> (j & !(1usize << p)) == j,
        j & (1usize << p) == 0 ==> (j ^ (1usize << p)) == j + (1usize << p),
        j & (1usize << p) == 0 ==> (j ^ (1usize << p)) < (1usize << n),
        j & (1usize << p) == 0 ==> ((j ^ (1usize << p)) & !(1usize << p)) == j && ((j ^ (1usize
            << p)) & (1usize << p)) != 0 && ((j ^ (1usize << p)) ^ (1usize << p)) == j,
        j & (1usize << p) != 0 ==> (j & !(1usize << p)) == (j ^ (1usize << p)) && (j ^ (1usize
            << p)) < j && ((j ^ (1usize << p)) & (1usize << p)) == 0 && (j ^ (1usize << p)) + (
        1usize << p) == j,
{
    let m = 1usize << p;
    assert(n < usize::BITS && p < n && j < (1usize << n) && m == (1usize << p) ==> {
        &&& ((j & !m) & m) == 0
        &&& (j & !m) <= j
        &&& (j & !m) < (1usize << n)
        &&& (j & m == 0 ==> ((j & !m) == j && (j ^ m) == j + m && (j ^ m) < (1usize << n) && ((j
            ^ m) & !m) == j && ((j ^ m) & m) != 0 && ((j ^ m) ^ m) == j))
        &&& (j & m != 0 ==> ((j & !m) == (j ^ m) && (j ^ m) < j && ((j ^ m) & m) == 0 && (j ^ m)
            + m == j))
    }) by (bit_vector);
}

/// Bit-level facts about the amplitude quadruple spanning an index under
/// two distinct mask bits: the quadruple's base member, its range, and
/// the four members' relations.
proof fn lemma_tq_bits(j: usize, n: usize, p1: usize, p2: usize)
    requires
        n < usize::BITS,
        p1 < n,
        p2 < n,
        p1 != p2,
        j < (1usize << n),
    ensures
        ({
            let m1 = 1usize << p1;
            let m2 = 1usize << p2;
            let base = j & !m1 & !m2;
            &&& (base & m1) == 0 && (base & m2) == 0
            &&& base <= j && base < (1usize << n)
            &&& (base ^ m1) == base + m1 && (base ^ m2) == base + m2
            &&& (base ^ m1 ^ m2) == base + m1 + m2
            &&& (base ^ m1 ^ m2) < (1usize << n)
            &&& ((base ^ m1) & !m1 & !m2) == base && ((base ^ m2) & !m1 & !m2) == base && ((base
                ^ m1 ^ m2) & !m1 & !m2) == base
            &&& ((base ^ m1) & m1) != 0 && ((base ^ m1) & m2) == 0
            &&& ((base ^ m2) & m2) != 0 && ((base ^ m2) & m1) == 0
            &&& ((base ^ m1 ^ m2) & m1) != 0 && ((base ^ m1 ^ m2) & m2) != 0
            &&& (j == base || j == (base ^ m1) || j == (base ^ m2) || j == (base ^ m1 ^ m2))
            &&& base != (base ^ m1) && base != (base ^ m2) && base != (base ^ m1 ^ m2)
            &&& (base ^ m1) != (base ^ m2) && (base ^ m1) != (base ^ m1 ^ m2) && (base ^ m2) != (
            base ^ m1 ^ m2)
            &&& (j & m1 == 0 && j & m2 == 0 ==> base == j)
        }),
{
    let m1 = 1usize << p1;
    let m2 = 1usize << p2;
    assert(n < usize::BITS && p1 < n && p2 < n && p1 != p2 && j < (1usize << n) && m1 == (1usize
        << p1) && m2 == (1usize << p2) ==> {
        let base = j & !m1 & !m2;
        &&& (base & m1) == 0 && (base & m2) == 0
        &&& base <= j && base < (1usize << n)
        &&& (base ^ m1) == base + m1 && (base ^ m2) == base + m2
        &&& (base ^ m1 ^ m2) == base + m1 + m2
        &&& (base ^ m1 ^ m2) < (1usize << n)
        &&& ((base ^ m1) & !m1 & !m2) == base && ((base ^ m2) & !m1 & !m2) == base && ((base ^ m1
            ^ m2) & !m1 & !m2) == base
        &&& ((base ^ m1) & m1) != 0 && ((base ^ m1) & m2) == 0
        &&& ((base ^ m2) & m2) != 0 && ((base ^ m2) & m1) == 0
        &&& ((base ^ m1 ^ m2) & m1) != 0 && ((base ^ m1 ^ m2) & m2) != 0
        &&& (j == base || j == (base ^ m1) || j == (base ^ m2) || j == (base ^ m1 ^ m2))
        &&& base != (base ^ m1) && base != (base ^ m2) && base != (base ^ m1 ^ m2)
        &&& (base ^ m1) != (base ^ m2) && (base ^ m1) != (base ^ m1 ^ m2) && (base ^ m2) != (base
            ^ m1 ^ m2)
        &&& (j & m1 == 0 && j & m2 == 0 ==> base == j)
    }) by (bit_vector);
}

/// A bit pattern at or below the infinity pattern is non-NaN.
proof fn lemma_bounded_finite(x: u64)
    requires
        x <= INF_BITS,
    ensures
        finite_bits(x),
{
    assert(x <= 0x7FF0_0000_0000_0000u64 ==> (x & 0x7FFF_FFFF_FFFF_FFFFu64)
        <= 0x7FF0_0000_0000_0000u64) by (bit_vector);
}

/// The exact constant amplitudes have non-NaN components.
proof fn lemma_const_amps_finite()
    ensures
        crate::amp::amp_finite(AMP_ONE),
        crate::amp::amp_finite(AMP_ZERO),
{
    assert((ONE_BITS & MAG_MASK) == ONE_BITS && (ZERO_BITS & MAG_MASK) == ZERO_BITS)
        by (bit_vector);
}

/// Bit-level facts about an exchange pair: the partner index stays in
/// range, the exchange is an involution, and the two members disagree on
/// both mask bits.
proof fn lemma_swap_bits_facts(j: usize, n: usize, p1: usize, p2: usize)
    requires
        n < usize::BITS,
        p1 < n,
        p2 < n,
        p1 != p2,
        j < (1usize << n),
    ensures
        (j ^ (1usize << p1) ^ (1usize << p2)) < (1usize << n),
        ((j ^ (1usize << p1) ^ (1usize << p2)) ^ (1usize << p1) ^ (1usize << p2)) == j,
        (j & (1usize << p1) == 0) != ((j ^ (1usize << p1) ^ (1usize << p2)) & (1usize << p1) == 0),
        (j & (1usize << p2) == 0) != ((j ^ (1usize << p1) ^ (1usize << p2)) & (1usize << p2) == 0),
        (j ^ (1usize << p1) ^ (1usize << p2)) != j,
{
    assert(n < usize::BITS && p1 < n && p2 < n && p1 != p2 && j < (1usize << n) ==> {
        let other = j ^ (1usize << p1) ^ (1usize << p2);
        &&& other < (1usize << n)
        &&& (other ^ (1usize << p1) ^ (1usize << p2)) == j
        &&& ((j & (1usize << p1) == 0) != (other & (1usize << p1) == 0))
        &&& ((j & (1usize << p2) == 0) != (other & (1usize << p2) == 0))
        &&& other != j
    }) by (bit_vector);
}

#[derive(Clone)]
pub struct NaiveSimulator {
    state: Vec<Amp>,
    qubit_map: BTreeMap<usize, usize>,
    qubit_map_inv: Vec<usize>,
    allocated_qubit_counter: usize,
    measure_res: String,
    reset_flag: bool,
    capacity: usize,
    comp_tolerance: u64,
}

impl NaiveSimulator {
    /// The amplitude vector over physical basis states.
    pub closed spec fn amps(&self) -> Seq<Amp> {
        self.state@
    }

    /// Physical slot to logical handle.
    pub closed spec fn slots(&self) -> Seq<usize> {
        self.qubit_map_inv@
    }

    /// Logical handle to physical slot.
    pub closed spec fn mapping(&self) -> Map<usize, usize> {
        self.qubit_map@
    }

    /// The next logical handle to hand out; never reused.
    pub closed spec fn counter(&self) -> usize {
        self.allocated_qubit_counter
    }

    /// The committed measurement outcomes, in order.
    pub closed spec fn measured(&self) -> Seq<char> {
        self.measure_res@
    }

    /// Whether a measurement in progress belongs to a reset (and so must
    /// not be recorded).
    pub closed spec fn resetting(&self) -> bool {
        self.reset_flag
    }

    /// The fixed bound on simultaneously allocated qubits.
    pub closed spec fn cap(&self) -> usize {
        self.capacity
    }

    /// Bits of the probability tolerance for the computational-state
    /// check at deallocation.
    pub closed spec fn tolerance(&self) -> u64 {
        self.comp_tolerance
    }

    /// Everything but the amplitudes and the bijection is unchanged.
    pub open spec fn same_admin(&self, other: &NaiveSimulator) -> bool {
        &&& self.counter() == other.counter()
        &&& self.measured() == other.measured()
        &&& self.resetting() == other.resetting()
        &&& self.cap() == other.cap()
        &&& self.tolerance() == other.tolerance()
    }

    /// Well-formedness: the amplitude vector's length is two to the
    /// number of live slots, and `mapping`/`slots` form a bijection
    /// between live handles and the slot range, with every live handle
    /// below the allocation counter.
    pub open spec fn wf(&self) -> bool {
        &&& self.slots().len() <= self.cap()
        &&& self.amps().len() == pow2(self.slots().len() as nat)
        &&& forall|i: int|
            0 <= i < self.slots().len() ==> #[trigger] self.mapping().contains_key(self.slots()[i])
                && self.mapping()[self.slots()[i]] == i
        &&& forall|q: usize|
            self.mapping().contains_key(q) ==> #[trigger] self.mapping()[q] < self.slots().len()
                && self.slots()[self.mapping()[q] as int] == q && q < self.counter()
    }

    /// Well-formedness carries over to a simulator with the same
    /// bijection and amplitude count.
    proof fn lemma_wf_transfer(a: &NaiveSimulator, b: &NaiveSimulator)
        requires
            a.wf(),
            b.slots() == a.slots(),
            b.mapping() == a.mapping(),
            b.amps().len() == a.amps().len(),
            b.cap() == a.cap(),
            b.counter() >= a.counter(),
        ensures
            b.wf(),
    {
        assert forall|i: int| 0 <= i < b.slots().len() implies #[trigger] b.mapping().contains_key(
            b.slots()[i],
        ) && b.mapping()[b.slots()[i]] == i by {
            assert(a.mapping().contains_key(a.slots()[i]));
        }
        assert forall|q: usize| b.mapping().contains_key(q) implies #[trigger] b.mapping()[q]
            < b.slots().len() && b.slots()[b.mapping()[q] as int] == q && q < b.counter() by {
            assert(a.mapping().contains_key(q));
            assert(a.mapping()[q] < a.slots().len());
        }
    }

    /// The number of live qubits never exceeds the word size, and the
    /// amplitude count is the corresponding power of two as a shift.
    proof fn lemma_wf_bits(&self)
        requires
            self.wf(),
        ensures
            self.amps().len() <= usize::MAX,
            self.slots().len() < usize::BITS,
            self.amps().len() == (1usize << (self.slots().len() as usize)),
    {
        let n = self.slots().len() as nat;
        assert(self.state.len() == self.state@.len());
        unsigned_int_max_values();
        if n >= usize::BITS {
            if n > usize::BITS {
                lemma_pow2_strictly_increases(usize::BITS as nat, n);
            }
            assert(pow2(n) >= pow2(usize::BITS as nat));
            assert(false);
        }
        lemma_pow2_pos(n);
        lemma_usize_shl_is_mul(1usize, self.slots().len() as usize);
    }

    /// A fresh simulator holding the single amplitude `1 + 0i`: the
    /// zero-qubit state with total probability one.
    pub fn new(capacity: usize) -> (r: NaiveSimulator)
        ensures
            r.wf(),
            r.amps() == seq![AMP_ONE],
            r.slots() == Seq::<usize>::empty(),
            r.mapping() == Map::<usize, usize>::empty(),
            r.counter() == 0,
            r.measured() == Seq::<char>::empty(),
            r.resetting() == false,
            r.cap() == capacity,
            r.tolerance() == COMP_TOLERANCE_BITS,
    {
        let mut zero_state: Vec<Amp> = Vec::new();
        zero_state.push(AMP_ONE);
        let r = NaiveSimulator {
            state: zero_state,
            qubit_map: BTreeMap::new(),
            qubit_map_inv: Vec::new(),
            allocated_qubit_counter: 0,
            measure_res: String::new(),
            reset_flag: false,
            capacity,
            comp_tolerance: COMP_TOLERANCE_BITS,
        };
        proof {
            assert(r.amps() =~= seq![AMP_ONE]);
            assert(pow2(0) == 1) by {
                lemma2_to64();
            }
        }
        r
    }

    /// Adjust the probability tolerance for the computational-state check
    /// at deallocation (a policy constant, not a physical law).
    pub fn set_computational_tolerance(&mut self, bits: u64)
        ensures
            final(self).tolerance() == bits,
            final(self).amps() == old(self).amps(),
            final(self).slots() == old(self).slots(),
            final(self).mapping() == old(self).mapping(),
            final(self).counter() == old(self).counter(),
            final(self).measured() == old(self).measured(),
            final(self).resetting() == old(self).resetting(),
            final(self).cap() == old(self).cap(),
            old(self).wf() ==> final(self).wf(),
    {
        self.comp_tolerance = bits;
        proof {
            if old(self).wf() {
                Self::lemma_wf_transfer(old(self), self);
            }
        }
    }

    /// The physical slot of a live handle.
    fn qubit_to_state_id(&self, q: usize) -> (r: usize)
        requires
            self.wf(),
            self.mapping().contains_key(q),
        ensures
            r == self.mapping()[q],
            r < self.slots().len(),
    {
        *self.qubit_map.get(&q).unwrap()
    }

    /// Reset all qubits to the all-zero state: every amplitude cleared,
    /// then the origin cell set to `1 + 0i`.
    pub fn reset_all(&mut self)
        requires
            old(self).wf(),
        ensures
            final(self).wf(),
            final(self).amps().len() == old(self).amps().len(),
            final(self).amps()[0] == AMP_ONE,
            forall|j: int| 1 <= j < final(self).amps().len() ==> final(self).amps()[j] == AMP_ZERO,
            final(self).slots() == old(self).slots(),
            final(self).mapping() == old(self).mapping(),
            final(self).same_admin(old(self)),
    {
        proof {
            lemma_pow2_pos(self.qubit_map_inv@.len() as nat);
        }
        let n = self.state.len();
        let mut i: usize = 0;
        while i < n
            invariant
                n == self.state.len(),
                i <= n,
                forall|j: int| 0 <= j < i ==> self.state@[j] == AMP_ZERO,
                self.qubit_map == old(self).qubit_map,
                self.qubit_map_inv == old(self).qubit_map_inv,
                self.allocated_qubit_counter == old(self).allocated_qubit_counter,
                self.measure_res == old(self).measure_res,
                self.reset_flag == old(self).reset_flag,
                self.capacity == old(self).capacity,
                self.comp_tolerance == old(self).comp_tolerance,
            decreases n - i,
        {
            self.state[i] = AMP_ZERO;
            i = i + 1;
        }
        self.state[0] = AMP_ONE;
        proof {
            Self::lemma_wf_transfer(old(self), self);
        }
    }

    /// Double the amplitude vector (new cells zero) and assign the new
    /// most significant slot to a fresh handle.
    fn allocate_qubit_at_msb(&mut self) -> (r: usize)
        requires
            old(self).wf(),
            old(self).slots().len() < old(self).cap(),
            old(self).counter() < usize::MAX,
            2 * old(self).amps().len() <= usize::MAX,
        ensures
            final(self).wf(),
            r == old(self).counter(),
            !old(self).mapping().contains_key(r),
            final(self).counter() == old(self).counter() + 1,
            final(self).slots() == old(self).slots().push(r),
            final(self).mapping() == old(self).mapping().insert(
                r,
                old(self).slots().len() as usize,
            ),
            final(self).amps().len() == 2 * old(self).amps().len(),
            forall|j: int|
                0 <= j < old(self).amps().len() ==> final(self).amps()[j] == old(self).amps()[j],
            forall|j: int|
                old(self).amps().len() <= j < final(self).amps().len() ==> final(self).amps()[j]
                    == AMP_ZERO,
            final(self).measured() == old(self).measured(),
            final(self).resetting() == old(self).resetting(),
            final(self).cap() == old(self).cap(),
            final(self).tolerance() == old(self).tolerance(),
    {
        proof {
            let n0 = self.qubit_map_inv@.len() as nat;
            lemma_pow2_adds(n0, 1);
            lemma2_to64();
        }
        let old_len = self.state.len();
        let target = old_len * 2;
        while self.state.len() < target
            invariant
                old_len <= self.state.len() <= target,
                forall|j: int| 0 <= j < old_len ==> self.state@[j] == old(self).amps()[j],
                forall|j: int| old_len <= j < self.state@.len() ==> self.state@[j] == AMP_ZERO,
                self.qubit_map == old(self).qubit_map,
                self.qubit_map_inv == old(self).qubit_map_inv,
                self.allocated_qubit_counter == old(self).allocated_qubit_counter,
                self.measure_res == old(self).measure_res,
                self.reset_flag == old(self).reset_flag,
                self.capacity == old(self).capacity,
                self.comp_tolerance == old(self).comp_tolerance,
            decreases target - self.state.len(),
        {
            self.state.push(AMP_ZERO);
        }
        let next_id = self.allocated_qubit_counter;
        self.allocated_qubit_counter = self.allocated_qubit_counter + 1;
        self.qubit_map.insert(next_id, self.qubit_map_inv.len());
        self.qubit_map_inv.push(next_id);
        proof {
            assert(self.qubit_map_inv@ =~= old(self).slots().push(next_id));
            assert forall|q: usize| self.qubit_map@.contains_key(q) implies #[trigger] self.qubit_map@[q]
                < self.qubit_map_inv@.len() && self.qubit_map_inv@[self.qubit_map@[q] as int] == q
                && q < self.allocated_qubit_counter by {
                if q != next_id {
                    assert(old(self).mapping().contains_key(q));
                }
            }
            assert forall|i: int| 0 <= i < self.qubit_map_inv@.len() implies #[trigger] self.qubit_map@.contains_key(
                self.qubit_map_inv@[i],
            ) && self.qubit_map@[self.qubit_map_inv@[i]] == i by {
                if i < old(self).slots().len() {
                    assert(old(self).mapping().contains_key(old(self).slots()[i]));
                }
            }
        }
        next_id
    }

    /// Exchange the physical slots of two live handles by pairwise
    /// exchange of amplitudes whose indices differ in exactly the two
    /// slot bits: a structural permutation preserving all amplitudes.
    fn swap_bits(&mut self, q1: usize, q2: usize)
        requires
            old(self).wf(),
            old(self).mapping().contains_key(q1),
            old(self).mapping().contains_key(q2),
        ensures
            final(self).wf(),
            final(self).amps().len() == old(self).amps().len(),
            forall|j: usize|
                j < old(self).amps().len() ==> final(self).amps()[j as int] == swap_cell(
                    old(self).amps(),
                    j,
                    1usize << old(self).mapping()[q1],
                    1usize << old(self).mapping()[q2],
                ),
            final(self).slots() == old(self).slots().update(
                old(self).mapping()[q2] as int,
                q1,
            ).update(old(self).mapping()[q1] as int, q2),
            final(self).mapping() == old(self).mapping().insert(
                q1,
                old(self).mapping()[q2],
            ).insert(q2, old(self).mapping()[q1]),
            final(self).same_admin(old(self)),
    {
        let ghost gn = old(self).slots().len() as usize;
        proof {
            old(self).lemma_wf_bits();
        }
        if q1 == q2 {
            proof {
                assert(final(self).slots() =~= old(self).slots().update(
                    old(self).mapping()[q2] as int,
                    q1,
                ).update(old(self).mapping()[q1] as int, q2));
                assert(final(self).mapping() =~= old(self).mapping().insert(
                    q1,
                    old(self).mapping()[q2],
                ).insert(q2, old(self).mapping()[q1]));
            }
            return ;
        }
        let i1 = self.qubit_to_state_id(q1);
        let i2 = self.qubit_to_state_id(q2);
        proof {
            if i1 == i2 {
                assert(old(self).slots()[i1 as int] == q1);
                assert(old(self).slots()[i2 as int] == q2);
            }
        }
        let mask1: usize = 1 << i1;
        let mask2: usize = 1 << i2;
        let len = self.state.len();
        let mut i: usize = 0;
        while i < len
            invariant
                old(self).wf(),
                old(self).mapping().contains_key(q1),
                old(self).mapping().contains_key(q2),
                i1 == old(self).mapping()[q1],
                i2 == old(self).mapping()[q2],
                i1 != i2,
                (i1 as int) < gn,
                (i2 as int) < gn,
                gn < usize::BITS,
                mask1 == (1usize << i1),
                mask2 == (1usize << i2),
                len == old(self).amps().len(),
                len == (1usize << gn),
                self.state@.len() == len,
                i <= len,
                forall|j: usize|
                    j < len ==> self.state@[j as int] == swap_partial(
                        old(self).amps(),
                        j,
                        i,
                        mask1,
                        mask2,
                    ),
                self.qubit_map == old(self).qubit_map,
                self.qubit_map_inv == old(self).qubit_map_inv,
                self.allocated_qubit_counter == old(self).allocated_qubit_counter,
                self.measure_res == old(self).measure_res,
                self.reset_flag == old(self).reset_flag,
                self.capacity == old(self).capacity,
                self.comp_tolerance == old(self).comp_tolerance,
            decreases len - i,
        {
            let ghost pre = self.state@;
            if i & mask1 == 0 && i & mask2 != 0 {
                proof {
                    lemma_swap_bits_facts(i, gn, i1, i2);
                }
                let i_other = i ^ mask1 ^ mask2;
                let x_other = self.state[i_other];
                let x_this = self.state[i];
                self.state[i] = x_other;
                self.state[i_other] = x_this;
                proof {
                    assert forall|j: usize| j < len implies self.state@[j as int] == swap_partial(
                        old(self).amps(),
                        j,
                        (i + 1) as usize,
                        mask1,
                        mask2,
                    ) by {
                        lemma_swap_bits_facts(j, gn, i1, i2);
                        if j == i || j == i_other {
                        } else {
                            assert(self.state@[j as int] == pre[j as int]);
                        }
                    }
                }
            } else {
                proof {
                    assert forall|j: usize| j < len implies self.state@[j as int] == swap_partial(
                        old(self).amps(),
                        j,
                        (i + 1) as usize,
                        mask1,
                        mask2,
                    ) by {
                        lemma_swap_bits_facts(j, gn, i1, i2);
                    }
                }
            }
            i = i + 1;
        }
        self.qubit_map_inv[i2] = q1;
        self.qubit_map_inv[i1] = q2;
        self.qubit_map.insert(q1, i2);
        self.qubit_map.insert(q2, i1);
        proof {
            assert forall|j: usize| j < old(self).amps().len() implies self.state@[j as int]
                == swap_cell(old(self).amps(), j, mask1, mask2) by {
                lemma_swap_bits_facts(j, gn, i1, i2);
            }
            let ns = self;
            assert forall|k: int| 0 <= k < ns.slots().len() implies #[trigger] ns.mapping().contains_key(
                ns.slots()[k],
            ) && ns.mapping()[ns.slots()[k]] == k by {
                assert(old(self).mapping().contains_key(old(self).slots()[k]));
                if k == i1 as int {
                } else if k == i2 as int {
                } else {
                    assert(old(self).slots()[k] != q1 && old(self).slots()[k] != q2);
                }
            }
            assert forall|q: usize| ns.mapping().contains_key(q) implies #[trigger] ns.mapping()[q]
                < ns.slots().len() && ns.slots()[ns.mapping()[q] as int] == q && q < ns.counter() by {
                if q != q1 && q != q2 {
                    assert(old(self).mapping().contains_key(q));
                    assert(old(self).mapping()[q] != i1 && old(self).mapping()[q] != i2);
                }
            }
        }
    }

    /// Move a live handle to the most significant physical slot.
    fn swap_qubit_to_msb(&mut self, q1: usize)
        requires
            old(self).wf(),
            old(self).mapping().contains_key(q1),
        ensures
            final(self).wf(),
            final(self).amps().len() == old(self).amps().len(),
            forall|j: usize|
                j < old(self).amps().len() ==> final(self).amps()[j as int] == swap_cell(
                    old(self).amps(),
                    j,
                    1usize << old(self).mapping()[q1],
                    1usize << (old(self).slots().len() - 1) as usize,
                ),
            final(self).slots() == old(self).slots().update(
                old(self).slots().len() - 1,
                q1,
            ).update(
                old(self).mapping()[q1] as int,
                old(self).slots()[old(self).slots().len() - 1],
            ),
            final(self).mapping() == old(self).mapping().insert(
                q1,
                (old(self).slots().len() - 1) as usize,
            ).insert(old(self).slots()[old(self).slots().len() - 1], old(self).mapping()[q1]),
            final(self).mapping()[q1] == old(self).slots().len() - 1,
            final(self).slots()[old(self).slots().len() - 1] == q1,
            final(self).slots().len() == old(self).slots().len(),
            final(self).same_admin(old(self)),
    {
        proof {
            assert(old(self).mapping()[q1] < old(self).slots().len());
        }
        let n = self.qubit_map_inv.len();
        proof {
            assert(n == old(self).slots().len());
            assert(n >= 1);
            let i0: int = n - 1;
            assert(0 <= i0 < old(self).slots().len());
            assert(old(self).mapping().contains_key(old(self).slots()[i0]));
            assert(old(self).mapping()[old(self).slots()[i0]] == i0);
        }
        let msb = self.qubit_map_inv[n - 1];
        self.swap_bits(q1, msb);
        proof {
            if q1 == msb {
                assert(final(self).slots()[old(self).slots().len() - 1] == q1);
            }
        }
    }

    /// Probabilities of measuring the most significant slot as `0` and as
    /// `1`: the clamped squared-magnitude sum of the lower half, and its
    /// complement.
    fn try_remove_msb_qubit(&self) -> (r: (u64, u64))
        requires
            self.wf(),
            self.slots().len() >= 1,
        ensures
            finite_bits(r.0) ==> r.0 == msb_prob_zero(self.amps()),
            finite_bits(r.1) ==> r.1 == f_sub(ONE_BITS, r.0) && finite_bits(r.0),
            (forall|j: int|
                0 <= j < self.amps().len() as int / 2 ==> amp_finite(#[trigger] self.amps()[j]))
                ==> r.0 <= ONE_BITS && finite_bits(r.0),
            (forall|j: int|
                0 <= j < self.amps().len() as int / 2 ==> self.amps()[j] == AMP_ZERO) ==> r.0
                == ZERO_BITS,
            (self.amps().len() as int / 2 >= 1 && self.amps()[0] == AMP_ONE && (forall|j: int|
                1 <= j < self.amps().len() as int / 2 ==> self.amps()[j] == AMP_ZERO)) ==> r.0
                == ONE_BITS,
            r.0 == ZERO_BITS ==> r.1 == ONE_BITS,
            r.0 == ONE_BITS ==> r.1 == ZERO_BITS,
    {
        proof {
            self.lemma_wf_bits();
            let nn = self.slots().len() as usize;
            assert(1 <= nn < usize::BITS ==> (1usize << nn) >= 2) by (bit_vector);
        }
        let half = self.state.len() / 2;
        let mut prob_zero: u64 = ZERO_BITS;
        let mut i: usize = 0;
        while i < half
            invariant
                self.wf(),
                half == self.amps().len() as int / 2,
                half <= self.amps().len(),
                i <= half,
                finite_bits(prob_zero) ==> prob_zero == prob_sum(self.amps(), i as int),
                (forall|j: int| 0 <= j < i ==> amp_finite(#[trigger] self.amps()[j]))
                    ==> prob_zero <= INF_BITS,
                (forall|j: int| 0 <= j < i ==> self.amps()[j] == AMP_ZERO) ==> prob_zero
                    == ZERO_BITS,
                (i >= 1 && self.amps()[0] == AMP_ONE && (forall|j: int|
                    1 <= j < i ==> self.amps()[j] == AMP_ZERO)) ==> prob_zero == ONE_BITS,
            decreases half - i,
        {
            prob_zero = float_add(prob_zero, amp_norm_sqr(self.state[i]));
            i = i + 1;
        }
        proof {
            if forall|j: int|
                0 <= j < self.amps().len() as int / 2 ==> amp_finite(#[trigger] self.amps()[j]) {
                lemma_bounded_finite(prob_zero);
            }
        }
        let clamped = clamp01(prob_zero);
        let prob_one = float_sub(ONE_BITS, clamped);
        proof {
            if forall|j: int|
                0 <= j < self.amps().len() as int / 2 ==> amp_finite(#[trigger] self.amps()[j]) {
                lemma_bounded_finite(clamped);
            }
        }
        (clamped, prob_one)
    }

    /// Zero the half of the vector inconsistent with the outcome and
    /// renormalize the surviving half by the square root of its
    /// probability.
    fn collapse_msb_qubit_into(&mut self, value: bool, prob: u64)
        requires
            old(self).wf(),
            old(self).slots().len() >= 1,
        ensures
            final(self).wf(),
            final(self).amps().len() == old(self).amps().len(),
            ({
                let mid = old(self).amps().len() as int / 2;
                let root = f_sqrt(prob);
                if value {
                    (forall|j: int| 0 <= j < mid ==> final(self).amps()[j] == AMP_ZERO) && (forall|
                        j: int,
                    |
                        mid <= j < old(self).amps().len() ==> amp_finite(
                            #[trigger] final(self).amps()[j],
                        ) ==> final(self).amps()[j] == c_unscale(old(self).amps()[j], root)
                            && finite_bits(prob))
                } else {
                    (forall|j: int|
                        mid <= j < old(self).amps().len() ==> final(self).amps()[j] == AMP_ZERO) && (
                    forall|j: int|
                        0 <= j < mid ==> amp_finite(#[trigger] final(self).amps()[j])
                            ==> final(self).amps()[j] == c_unscale(old(self).amps()[j], root)
                            && finite_bits(prob))
                }
            }),
            prob == ONE_BITS && !value ==> (forall|j: int|
                0 <= j < old(self).amps().len() as int / 2 ==> amp_finite(old(self).amps()[j])
                    ==> final(self).amps()[j] == old(self).amps()[j]),
            prob == ONE_BITS && value ==> (forall|j: int|
                old(self).amps().len() as int / 2 <= j < old(self).amps().len() ==> amp_finite(
                    old(self).amps()[j],
                ) ==> final(self).amps()[j] == old(self).amps()[j]),
            final(self).slots() == old(self).slots(),
            final(self).mapping() == old(self).mapping(),
            final(self).same_admin(old(self)),
    {
        let prob_sqrt = float_sqrt(prob);
        let mid = self.state.len() / 2;
        let len = self.state.len();
        if value {
            let mut i: usize = 0;
            while i < mid
                invariant
                    len == self.state@.len(),
                    mid == len as int / 2,
                    mid <= len,
                    i <= mid,
                    forall|j: int| 0 <= j < i ==> self.state@[j] == AMP_ZERO,
                    forall|j: int| i <= j < len ==> self.state@[j] == old(self).amps()[j],
                    self.qubit_map == old(self).qubit_map,
                    self.qubit_map_inv == old(self).qubit_map_inv,
                    self.allocated_qubit_counter == old(self).allocated_qubit_counter,
                    self.measure_res == old(self).measure_res,
                    self.reset_flag == old(self).reset_flag,
                    self.capacity == old(self).capacity,
                    self.comp_tolerance == old(self).comp_tolerance,
                decreases mid - i,
            {
                self.state[i] = AMP_ZERO;
                i = i + 1;
            }
            let mut i: usize = mid;
            while i < len
                invariant
                    len == self.state@.len(),
                    mid == len as int / 2,
                    mid <= i <= len,
                    forall|j: int| 0 <= j < mid ==> self.state@[j] == AMP_ZERO,
                    forall|j: int|
                        mid <= j < i ==> amp_finite(#[trigger] self.state@[j]) ==> self.state@[j]
                            == c_unscale(old(self).amps()[j], f_sqrt(prob)) && finite_bits(prob),
                    prob == ONE_BITS ==> forall|j: int|
                        mid <= j < i ==> amp_finite(old(self).amps()[j]) ==> self.state@[j] == old(
                            self,
                        ).amps()[j],
                    forall|j: int| i <= j < len ==> self.state@[j] == old(self).amps()[j],
                    finite_bits(prob_sqrt) ==> prob_sqrt == f_sqrt(prob) && finite_bits(prob),
                    prob == ONE_BITS ==> prob_sqrt == ONE_BITS,
                    self.qubit_map == old(self).qubit_map,
                    self.qubit_map_inv == old(self).qubit_map_inv,
                    self.allocated_qubit_counter == old(self).allocated_qubit_counter,
                    self.measure_res == old(self).measure_res,
                    self.reset_flag == old(self).reset_flag,
                    self.capacity == old(self).capacity,
                    self.comp_tolerance == old(self).comp_tolerance,
                decreases len - i,
            {
                self.state[i] = amp_unscale(self.state[i], prob_sqrt);
                i = i + 1;
            }
        } else {
            let mut i: usize = mid;
            while i < len
                invariant
                    len == self.state@.len(),
                    mid == len as int / 2,
                    mid <= i <= len,
                    forall|j: int| mid <= j < i ==> self.state@[j] == AMP_ZERO,
                    forall|j: int| 0 <= j < mid ==> self.state@[j] == old(self).amps()[j],
                    forall|j: int| i <= j < len ==> self.state@[j] == old(self).amps()[j],
                    self.qubit_map == old(self).qubit_map,
                    self.qubit_map_inv == old(self).qubit_map_inv,
                    self.allocated_qubit_counter == old(self).allocated_qubit_counter,
                    self.measure_res == old(self).measure_res,
                    self.reset_flag == old(self).reset_flag,
                    self.capacity == old(self).capacity,
                    self.comp_tolerance == old(self).comp_tolerance,
                decreases len - i,
            {
                self.state[i] = AMP_ZERO;
                i = i + 1;
            }
            let mut i: usize = 0;
            while i < mid
                invariant
                    len == self.state@.len(),
                    mid == len as int / 2,
                    mid <= len,
                    i <= mid,
                    forall|j: int| mid <= j < len ==> self.state@[j] == AMP_ZERO,
                    forall|j: int|
                        0 <= j < i ==> amp_finite(#[trigger] self.state@[j]) ==> self.state@[j]
                            == c_unscale(old(self).amps()[j], f_sqrt(prob)) && finite_bits(prob),
                    prob == ONE_BITS ==> forall|j: int|
                        0 <= j < i ==> amp_finite(old(self).amps()[j]) ==> self.state@[j] == old(
                            self,
                        ).amps()[j],
                    forall|j: int| i <= j < mid ==> self.state@[j] == old(self).amps()[j],
                    finite_bits(prob_sqrt) ==> prob_sqrt == f_sqrt(prob) && finite_bits(prob),
                    prob == ONE_BITS ==> prob_sqrt == ONE_BITS,
                    self.qubit_map == old(self).qubit_map,
                    self.qubit_map_inv == old(self).qubit_map_inv,
                    self.allocated_qubit_counter == old(self).allocated_qubit_counter,
                    self.measure_res == old(self).measure_res,
                    self.reset_flag == old(self).reset_flag,
                    self.capacity == old(self).capacity,
                    self.comp_tolerance == old(self).comp_tolerance,
                decreases mid - i,
            {
                self.state[i] = amp_unscale(self.state[i], prob_sqrt);
                i = i + 1;
            }
        }
        proof {
            Self::lemma_wf_transfer(old(self), self);
        }
    }

    /// Remove the most significant slot once it is known to be in the
    /// definite computational state `value`: keep the surviving half of
    /// the vector (copying the upper half down when the outcome was `1`),
    /// truncate to half length, and drop the slot from both directions of
    /// the bijection. Fails when the norm tolerance band is broken before
    /// or after the truncation.
    fn trace_out_msb_computational_qubit(&mut self, value: bool) -> (r: Result<(), SimError>)
        requires
            old(self).wf(),
            old(self).slots().len() >= 1,
        ensures
            r is Ok ==> final(self).wf(),
            r is Ok ==> final(self).slots() == old(self).slots().drop_last(),
            r is Ok ==> final(self).mapping() == old(self).mapping().remove(
                old(self).slots().last(),
            ),
            r is Ok ==> final(self).amps().len() == old(self).amps().len() as int / 2,
            r is Ok && !value ==> forall|j: int|
                0 <= j < final(self).amps().len() ==> final(self).amps()[j] == old(self).amps()[j],
            r is Ok && value ==> forall|j: int|
                0 <= j < final(self).amps().len() ==> final(self).amps()[j] == old(self).amps()[j
                    + old(self).amps().len() as int / 2],
            r is Ok || r == Err::<(), SimError>(SimError::NormBroken),
            r is Ok ==> norm_in_band(old(self).amps()) && norm_in_band(final(self).amps()),
            (forall|j: int|
                0 <= j < old(self).amps().len() ==> amp_finite(#[trigger] old(self).amps()[j]))
                && norm_in_band(old(self).amps()) && norm_in_band(
                if value {
                    old(self).amps().subrange(
                        old(self).amps().len() as int / 2,
                        old(self).amps().len() as int,
                    )
                } else {
                    old(self).amps().take(old(self).amps().len() as int / 2)
                },
            ) ==> r is Ok,
            final(self).same_admin(old(self)),
    {
        proof {
            self.lemma_wf_bits();
            let nn = self.slots().len() as usize;
            assert(1 <= nn < usize::BITS ==> ((1usize << nn) >= 2 && (1usize << nn) / 2 == (
            1usize << (nn - 1) as usize))) by (bit_vector);
            lemma_pow2_adds((nn - 1) as nat, 1);
            lemma2_to64();
        }
        let ghost pre = *self;
        let n = self.qubit_map_inv.len();
        proof {
            assert(n == old(self).slots().len());
            let i0: int = n - 1;
            assert(0 <= i0 < old(self).slots().len());
            assert(old(self).mapping().contains_key(old(self).slots()[i0]));
            assert(old(self).mapping()[old(self).slots()[i0]] == i0);
        }
        let qubit_id = self.qubit_map_inv[n - 1];
        self.qubit_map_inv.truncate(n - 1);
        if !self.validate() {
            return Err(SimError::NormBroken);
        }
        let mid = self.state.len() / 2;
        if value {
            let mut i: usize = 0;
            while i < mid
                invariant
                    mid == self.state@.len() as int / 2,
                    mid <= self.state@.len(),
                    self.state@.len() == pre.amps().len(),
                    i <= mid,
                    forall|j: int| 0 <= j < i ==> self.state@[j] == pre.amps()[j + mid],
                    forall|j: int| i <= j < self.state@.len() ==> self.state@[j] == pre.amps()[j],
                    self.qubit_map == pre.qubit_map,
                    self.qubit_map_inv@ == pre.slots().drop_last(),
                    self.allocated_qubit_counter == pre.allocated_qubit_counter,
                    self.measure_res == pre.measure_res,
                    self.reset_flag == pre.reset_flag,
                    self.capacity == pre.capacity,
                    self.comp_tolerance == pre.comp_tolerance,
                decreases mid - i,
            {
                proof {
                    assert(mid + i < self.state.len());
                }
                let x = self.state[mid + i];
                self.state[i] = x;
                i = i + 1;
            }
        }
        self.state.truncate(mid);
        proof {
            if value {
                assert(self.state@ =~= pre.amps().subrange(
                    mid as int,
                    pre.amps().len() as int,
                ));
            } else {
                assert(self.state@ =~= pre.amps().take(mid as int));
            }
        }
        if !self.validate() {
            return Err(SimError::NormBroken);
        }
        self.qubit_map.remove(&qubit_id);
        proof {
            let ns = self;
            assert(ns.mapping() =~= old(self).mapping().remove(old(self).slots().last()));
            assert forall|k: int| 0 <= k < ns.slots().len() implies #[trigger] ns.mapping().contains_key(
                ns.slots()[k],
            ) && ns.mapping()[ns.slots()[k]] == k by {
                assert(old(self).mapping().contains_key(old(self).slots()[k]));
                assert(old(self).slots()[k] != qubit_id);
            }
            assert forall|q: usize| ns.mapping().contains_key(q) implies #[trigger] ns.mapping()[q]
                < ns.slots().len() && ns.slots()[ns.mapping()[q] as int] == q && q < ns.counter() by {
                assert(old(self).mapping().contains_key(q));
                assert(old(self).mapping()[q] != n - 1);
            }
        }
        Ok(())
    }

    /// Copy the upper half of the vector down and zero the upper half:
    /// performed when a reset's measurement came out `1`.
    fn zeroing_msb(&mut self)
        requires
            old(self).wf(),
            old(self).slots().len() >= 1,
        ensures
            final(self).wf(),
            final(self).amps().len() == old(self).amps().len(),
            forall|j: int|
                0 <= j < old(self).amps().len() as int / 2 ==> final(self).amps()[j] == old(
                    self,
                ).amps()[j + old(self).amps().len() as int / 2],
            forall|j: int|
                old(self).amps().len() as int / 2 <= j < old(self).amps().len()
                    ==> final(self).amps()[j] == AMP_ZERO,
            final(self).slots() == old(self).slots(),
            final(self).mapping() == old(self).mapping(),
            final(self).same_admin(old(self)),
    {
        let mid = self.state.len() / 2;
        let len = self.state.len();
        let mut i: usize = 0;
        while i < mid
            invariant
                len == self.state@.len(),
                mid == len as int / 2,
                mid <= len,
                i <= mid,
                forall|j: int| 0 <= j < i ==> self.state@[j] == old(self).amps()[j + mid],
                forall|j: int| i <= j < len ==> self.state@[j] == old(self).amps()[j],
                self.qubit_map == old(self).qubit_map,
                self.qubit_map_inv == old(self).qubit_map_inv,
                self.allocated_qubit_counter == old(self).allocated_qubit_counter,
                self.measure_res == old(self).measure_res,
                self.reset_flag == old(self).reset_flag,
                self.capacity == old(self).capacity,
                self.comp_tolerance == old(self).comp_tolerance,
            decreases mid - i,
        {
            let x = self.state[mid + i];
            self.state[i] = x;
            i = i + 1;
        }
        let mut i: usize = mid;
        while i < len
            invariant
                len == self.state@.len(),
                mid == len as int / 2,
                mid <= i <= len,
                forall|j: int| 0 <= j < mid ==> self.state@[j] == old(self).amps()[j + mid],
                forall|j: int| mid <= j < i ==> self.state@[j] == AMP_ZERO,
                forall|j: int| i <= j < len ==> self.state@[j] == old(self).amps()[j],
                self.qubit_map == old(self).qubit_map,
                self.qubit_map_inv == old(self).qubit_map_inv,
                self.allocated_qubit_counter == old(self).allocated_qubit_counter,
                self.measure_res == old(self).measure_res,
                self.reset_flag == old(self).reset_flag,
                self.capacity == old(self).capacity,
                self.comp_tolerance == old(self).comp_tolerance,
            decreases len - i,
        {
            self.state[i] = AMP_ZERO;
            i = i + 1;
        }
        proof {
            Self::lemma_wf_transfer(old(self), self);
        }
    }

    /// Whether the amplitude vector's squared-magnitude sum still lies in
    /// the norm tolerance band. A passing check pins the sum in the band;
    /// over a vector free of NaN components the check decides the band
    /// exactly (a NaN sum fails, a numerical-consistency violation).
    fn validate(&self) -> (ok: bool)
        ensures
            ok ==> norm_in_band(self.amps()),
            (forall|j: int| 0 <= j < self.amps().len() ==> amp_finite(#[trigger] self.amps()[j]))
                ==> ok == norm_in_band(self.amps()),
    {
        let len = self.state.len();
        let mut sum: u64 = ZERO_BITS;
        let mut i: usize = 0;
        while i < len
            invariant
                len == self.amps().len(),
                i <= len,
                finite_bits(sum) ==> sum == prob_sum(self.amps(), i as int),
                (forall|j: int| 0 <= j < i ==> amp_finite(#[trigger] self.amps()[j])) ==> sum
                    <= INF_BITS,
            decreases len - i,
        {
            sum = float_add(sum, amp_norm_sqr(self.state[i]));
            i = i + 1;
        }
        proof {
            if forall|j: int| 0 <= j < self.amps().len() ==> amp_finite(#[trigger] self.amps()[j]) {
                lemma_bounded_finite(sum);
            }
        }
        float_le(NORM_LO_BITS, sum) && float_le(sum, NORM_HI_BITS)
    }
}

impl NaiveSimulator {
    /// The union of the slot bits behind the controller handles.
    fn controller_mask(&self, controllers: &[usize]) -> (r: usize)
        requires
            self.wf(),
            forall|k: int|
                0 <= k < controllers@.len() ==> self.mapping().contains_key(
                    #[trigger] controllers@[k],
                ),
        ensures
            r == ctrl_mask(ctrl_slots(self.mapping(), controllers@)),
    {
        proof {
            self.lemma_wf_bits();
        }
        let mut cmask: usize = 0;
        let mut k: usize = 0;
        while k < controllers.len()
            invariant
                self.wf(),
                forall|t: int|
                    0 <= t < controllers@.len() ==> self.mapping().contains_key(
                        #[trigger] controllers@[t],
                    ),
                self.slots().len() < usize::BITS,
                k <= controllers@.len(),
                cmask == ctrl_mask(ctrl_slots(self.mapping(), controllers@.take(k as int))),
            decreases controllers@.len() - k,
        {
            let slot = self.qubit_to_state_id(controllers[k]);
            cmask = cmask | (1usize << slot);
            proof {
                assert(ctrl_slots(self.mapping(), controllers@.take(k as int + 1)).drop_last()
                    =~= ctrl_slots(self.mapping(), controllers@.take(k as int)));
                assert(ctrl_slots(self.mapping(), controllers@.take(k as int + 1)).last()
                    == self.mapping()[controllers@[k as int]]);
            }
            k = k + 1;
        }
        proof {
            assert(ctrl_slots(self.mapping(), controllers@.take(controllers@.len() as int))
                =~= ctrl_slots(self.mapping(), controllers@));
        }
        cmask
    }

    /// Apply a 2x2 matrix to the amplitude pairs of one target slot, on
    /// every pair whose lower member has all controller bits set.
    fn single_qubit_gate(&mut self, controllers: &[usize], pos: usize, mat: &SqMat)
        requires
            old(self).wf(),
            old(self).mapping().contains_key(pos),
            forall|k: int|
                0 <= k < controllers@.len() ==> old(self).mapping().contains_key(
                    #[trigger] controllers@[k],
                ),
        ensures
            final(self).wf(),
            final(self).amps().len() == old(self).amps().len(),
            forall|j: usize|
                j < old(self).amps().len() && amp_finite(final(self).amps()[j as int])
                    ==> final(self).amps()[j as int] == sq_gate_cell(
                    old(self).amps(),
                    j,
                    1usize << old(self).mapping()[pos],
                    ctrl_mask(ctrl_slots(old(self).mapping(), controllers@)),
                    *mat,
                ),
            forall|j: usize|
                j < old(self).amps().len() && ((j & !(1usize << old(self).mapping()[pos]))
                    & ctrl_mask(ctrl_slots(old(self).mapping(), controllers@))) != ctrl_mask(
                    ctrl_slots(old(self).mapping(), controllers@),
                ) ==> final(self).amps()[j as int] == old(self).amps()[j as int],
            final(self).slots() == old(self).slots(),
            final(self).mapping() == old(self).mapping(),
            final(self).same_admin(old(self)),
    {
        let ghost gn = old(self).slots().len() as usize;
        proof {
            old(self).lemma_wf_bits();
        }
        let pos_slot = self.qubit_to_state_id(pos);
        let mask: usize = 1 << pos_slot;
        let cmask = self.controller_mask(controllers);
        let len = self.state.len();
        let mut i: usize = 0;
        while i < len
            invariant
                old(self).wf(),
                old(self).mapping().contains_key(pos),
                pos_slot == old(self).mapping()[pos],
                (pos_slot as int) < gn,
                gn < usize::BITS,
                mask == (1usize << pos_slot),
                cmask == ctrl_mask(ctrl_slots(old(self).mapping(), controllers@)),
                len == old(self).amps().len(),
                len == (1usize << gn),
                self.state@.len() == len,
                i <= len,
                forall|j: usize|
                    j < len && (j & !mask) >= i ==> self.state@[j as int] == old(self).amps()[j as int],
                forall|j: usize|
                    j < len && (j & !mask) < i && ((j & !mask) & cmask) != cmask
                        ==> self.state@[j as int] == old(self).amps()[j as int],
                forall|j: usize|
                    j < len && (j & !mask) < i && amp_finite(self.state@[j as int])
                        ==> self.state@[j as int] == sq_gate_cell(
                        old(self).amps(),
                        j,
                        mask,
                        cmask,
                        *mat,
                    ),
                self.qubit_map == old(self).qubit_map,
                self.qubit_map_inv == old(self).qubit_map_inv,
                self.allocated_qubit_counter == old(self).allocated_qubit_counter,
                self.measure_res == old(self).measure_res,
                self.reset_flag == old(self).reset_flag,
                self.capacity == old(self).capacity,
                self.comp_tolerance == old(self).comp_tolerance,
            decreases len - i,
        {
            let ghost pre = self.state@;
            if i & cmask == cmask && i & mask == 0 {
                proof {
                    lemma_gate_bits(i, gn, pos_slot);
                }
                let a = self.state[i];
                let b = self.state[i + mask];
                self.state[i] = amp_add(amp_mul(mat.m00, a), amp_mul(mat.m01, b));
                self.state[i + mask] = amp_add(amp_mul(mat.m10, a), amp_mul(mat.m11, b));
                proof {
                    assert forall|j: usize|
                        j < len && (j & !mask) < i + 1 && amp_finite(self.state@[j as int]) implies self.state@[j as int]
                        == sq_gate_cell(old(self).amps(), j, mask, cmask, *mat) by {
                        lemma_gate_bits(j, gn, pos_slot);
                        if j == i || j == i + mask {
                        } else {
                            assert(self.state@[j as int] == pre[j as int]);
                        }
                    }
                    assert forall|j: usize|
                        j < len && (j & !mask) >= i + 1 implies self.state@[j as int] == old(
                        self,
                    ).amps()[j as int] by {
                        lemma_gate_bits(j, gn, pos_slot);
                        assert(self.state@[j as int] == pre[j as int]);
                    }
                }
            } else {
                proof {
                    assert forall|j: usize|
                        j < len && (j & !mask) < i + 1 && amp_finite(self.state@[j as int]) implies self.state@[j as int]
                        == sq_gate_cell(old(self).amps(), j, mask, cmask, *mat) by {
                        lemma_gate_bits(j, gn, pos_slot);
                        lemma_gate_bits(i, gn, pos_slot);
                    }
                    assert forall|j: usize|
                        j < len && (j & !mask) < i + 1 && ((j & !mask) & cmask) != cmask implies self.state@[j as int]
                        == old(self).amps()[j as int] by {
                        lemma_gate_bits(j, gn, pos_slot);
                        lemma_gate_bits(i, gn, pos_slot);
                    }
                }
            }
            i = i + 1;
        }
        proof {
            assert forall|j: usize|
                j < len && amp_finite(self.state@[j as int]) implies self.state@[j as int]
                == sq_gate_cell(old(self).amps(), j, mask, cmask, *mat) by {
                lemma_gate_bits(j, gn, pos_slot);
            }
            assert forall|j: usize|
                j < len && ((j & !mask) & cmask) != cmask implies self.state@[j as int] == old(
                self,
            ).amps()[j as int] by {
                lemma_gate_bits(j, gn, pos_slot);
            }
            Self::lemma_wf_transfer(old(self), self);
        }
    }

    /// Apply a 4x4 matrix to the amplitude quadruples of two distinct
    /// target slots, on every quadruple whose base member has all
    /// controller bits set.
    fn two_qubit_gate(&mut self, controllers: &[usize], pos1: usize, pos2: usize, mat: &TqMat)
        requires
            old(self).wf(),
            old(self).mapping().contains_key(pos1),
            old(self).mapping().contains_key(pos2),
            pos1 != pos2,
            forall|k: int|
                0 <= k < controllers@.len() ==> old(self).mapping().contains_key(
                    #[trigger] controllers@[k],
                ),
        ensures
            final(self).wf(),
            final(self).amps().len() == old(self).amps().len(),
            forall|j: usize|
                j < old(self).amps().len() && amp_finite(final(self).amps()[j as int])
                    ==> final(self).amps()[j as int] == tq_gate_cell(
                    old(self).amps(),
                    j,
                    1usize << old(self).mapping()[pos1],
                    1usize << old(self).mapping()[pos2],
                    ctrl_mask(ctrl_slots(old(self).mapping(), controllers@)),
                    *mat,
                ),
            forall|j: usize|
                j < old(self).amps().len() && ((j & !(1usize << old(self).mapping()[pos1]) & !(
                1usize << old(self).mapping()[pos2])) & ctrl_mask(
                    ctrl_slots(old(self).mapping(), controllers@),
                )) != ctrl_mask(ctrl_slots(old(self).mapping(), controllers@))
                    ==> final(self).amps()[j as int] == old(self).amps()[j as int],
            final(self).slots() == old(self).slots(),
            final(self).mapping() == old(self).mapping(),
            final(self).same_admin(old(self)),
    {
        let ghost gn = old(self).slots().len() as usize;
        proof {
            old(self).lemma_wf_bits();
        }
        let p1 = self.qubit_to_state_id(pos1);
        let p2 = self.qubit_to_state_id(pos2);
        proof {
            if p1 == p2 {
                assert(old(self).slots()[p1 as int] == pos1);
                assert(old(self).slots()[p2 as int] == pos2);
            }
        }
        let mask1: usize = 1 << p1;
        let mask2: usize = 1 << p2;
        let cmask = self.controller_mask(controllers);
        let len = self.state.len();
        let mut i: usize = 0;
        while i < len
            invariant
                old(self).wf(),
                old(self).mapping().contains_key(pos1),
                old(self).mapping().contains_key(pos2),
                p1 == old(self).mapping()[pos1],
                p2 == old(self).mapping()[pos2],
                p1 != p2,
                (p1 as int) < gn,
                (p2 as int) < gn,
                gn < usize::BITS,
                mask1 == (1usize << p1),
                mask2 == (1usize << p2),
                cmask == ctrl_mask(ctrl_slots(old(self).mapping(), controllers@)),
                len == old(self).amps().len(),
                len == (1usize << gn),
                self.state@.len() == len,
                i <= len,
                forall|j: usize|
                    j < len && (j & !mask1 & !mask2) >= i ==> self.state@[j as int] == old(
                        self,
                    ).amps()[j as int],
                forall|j: usize|
                    j < len && (j & !mask1 & !mask2) < i && ((j & !mask1 & !mask2) & cmask)
                        != cmask ==> self.state@[j as int] == old(self).amps()[j as int],
                forall|j: usize|
                    j < len && (j & !mask1 & !mask2) < i && amp_finite(self.state@[j as int])
                        ==> self.state@[j as int] == tq_gate_cell(
                        old(self).amps(),
                        j,
                        mask1,
                        mask2,
                        cmask,
                        *mat,
                    ),
                self.qubit_map == old(self).qubit_map,
                self.qubit_map_inv == old(self).qubit_map_inv,
                self.allocated_qubit_counter == old(self).allocated_qubit_counter,
                self.measure_res == old(self).measure_res,
                self.reset_flag == old(self).reset_flag,
                self.capacity == old(self).capacity,
                self.comp_tolerance == old(self).comp_tolerance,
            decreases len - i,
        {
            let ghost pre = self.state@;
            if i & cmask == cmask && i & mask1 == 0 && i & mask2 == 0 {
                proof {
                    lemma_tq_bits(i, gn, p1, p2);
                }
                let a = self.state[i];
                let b = self.state[i + mask2];
                let c = self.state[i + mask1];
                let d = self.state[i + mask1 + mask2];
                self.state[i] = amp_add(
                    amp_add(
                        amp_add(amp_mul(mat.m[0][0], a), amp_mul(mat.m[0][1], b)),
                        amp_mul(mat.m[0][2], c),
                    ),
                    amp_mul(mat.m[0][3], d),
                );
                self.state[i + mask2] = amp_add(
                    amp_add(
                        amp_add(amp_mul(mat.m[1][0], a), amp_mul(mat.m[1][1], b)),
                        amp_mul(mat.m[1][2], c),
                    ),
                    amp_mul(mat.m[1][3], d),
                );
                self.state[i + mask1] = amp_add(
                    amp_add(
                        amp_add(amp_mul(mat.m[2][0], a), amp_mul(mat.m[2][1], b)),
                        amp_mul(mat.m[2][2], c),
                    ),
                    amp_mul(mat.m[2][3], d),
                );
                self.state[i + mask1 + mask2] = amp_add(
                    amp_add(
                        amp_add(amp_mul(mat.m[3][0], a), amp_mul(mat.m[3][1], b)),
                        amp_mul(mat.m[3][2], c),
                    ),
                    amp_mul(mat.m[3][3], d),
                );
                proof {
                    assert forall|j: usize|
                        j < len && (j & !mask1 & !mask2) < i + 1 && amp_finite(
                            self.state@[j as int],
                        ) implies self.state@[j as int] == tq_gate_cell(
                        old(self).amps(),
                        j,
                        mask1,
                        mask2,
                        cmask,
                        *mat,
                    ) by {
                        lemma_tq_bits(j, gn, p1, p2);
                        if j == i || j == i + mask1 || j == i + mask2 || j == i + mask1 + mask2 {
                        } else {
                            assert(self.state@[j as int] == pre[j as int]);
                        }
                    }
                    assert forall|j: usize|
                        j < len && (j & !mask1 & !mask2) >= i + 1 implies self.state@[j as int]
                        == old(self).amps()[j as int] by {
                        lemma_tq_bits(j, gn, p1, p2);
                        assert(self.state@[j as int] == pre[j as int]);
                    }
                }
            } else {
                proof {
                    assert forall|j: usize|
                        j < len && (j & !mask1 & !mask2) < i + 1 && amp_finite(
                            self.state@[j as int],
                        ) implies self.state@[j as int] == tq_gate_cell(
                        old(self).amps(),
                        j,
                        mask1,
                        mask2,
                        cmask,
                        *mat,
                    ) by {
                        lemma_tq_bits(j, gn, p1, p2);
                        lemma_tq_bits(i, gn, p1, p2);
                    }
                    assert forall|j: usize|
                        j < len && (j & !mask1 & !mask2) < i + 1 && ((j & !mask1 & !mask2)
                            & cmask) != cmask implies self.state@[j as int] == old(
                        self,
                    ).amps()[j as int] by {
                        lemma_tq_bits(j, gn, p1, p2);
                        lemma_tq_bits(i, gn, p1, p2);
                    }
                }
            }
            i = i + 1;
        }
        proof {
            assert forall|j: usize|
                j < len && amp_finite(self.state@[j as int]) implies self.state@[j as int]
                == tq_gate_cell(old(self).amps(), j, mask1, mask2, cmask, *mat) by {
                lemma_tq_bits(j, gn, p1, p2);
            }
            assert forall|j: usize|
                j < len && ((j & !mask1 & !mask2) & cmask) != cmask implies self.state@[j as int]
                == old(self).amps()[j as int] by {
                lemma_tq_bits(j, gn, p1, p2);
            }
            Self::lemma_wf_transfer(old(self), self);
        }
    }
}

/// The 4x4 matrix of the swap gate.
pub open spec fn swap_mat() -> TqMat {
    TqMat {
        m: [
            [AMP_ONE, AMP_ZERO, AMP_ZERO, AMP_ZERO],
            [AMP_ZERO, AMP_ZERO, AMP_ONE, AMP_ZERO],
            [AMP_ZERO, AMP_ONE, AMP_ZERO, AMP_ZERO],
            [AMP_ZERO, AMP_ZERO, AMP_ZERO, AMP_ONE],
        ],
    }
}

/// The 4x4 matrix of the controlled-NOT gate (first target controls).
pub open spec fn cnot_mat() -> TqMat {
    TqMat {
        m: [
            [AMP_ONE, AMP_ZERO, AMP_ZERO, AMP_ZERO],
            [AMP_ZERO, AMP_ONE, AMP_ZERO, AMP_ZERO],
            [AMP_ZERO, AMP_ZERO, AMP_ZERO, AMP_ONE],
            [AMP_ZERO, AMP_ZERO, AMP_ONE, AMP_ZERO],
        ],
    }
}

/// The 4x4 matrix of the controlled-Z gate.
pub open spec fn cz_mat() -> TqMat {
    TqMat {
        m: [
            [AMP_ONE, AMP_ZERO, AMP_ZERO, AMP_ZERO],
            [AMP_ZERO, AMP_ONE, AMP_ZERO, AMP_ZERO],
            [AMP_ZERO, AMP_ZERO, AMP_ONE, AMP_ZERO],
            [AMP_ZERO, AMP_ZERO, AMP_ZERO, AMP_NEG_ONE],
        ],
    }
}

/// The 2x2 matrix an eight-parameter general single-qubit request
/// encodes: row-major interleaved real and imaginary bit patterns.
pub open spec fn anysq_mat(p: Seq<u64>) -> SqMat {
    SqMat { m00: (p[0], p[1]), m01: (p[2], p[3]), m10: (p[4], p[5]), m11: (p[6], p[7]) }
}

/// The cell `j` holds after the entangling combination on two slots:
/// every quadruple is replaced by the symmetric combination of its
/// members scaled by `sqrt(0.5)` on the two outer members, and zero on
/// the two inner members.
pub open spec fn epr_cell(s: Seq<Amp>, j: usize, m1: usize, m2: usize) -> Amp {
    let base = j & !m1 & !m2;
    let msum = c_add(c_add(c_add(s[base as int], s[(base ^ m2) as int]), s[(base ^ m1) as int]),
        s[(base ^ m1 ^ m2) as int]);
    if j == base || j == (base ^ m1 ^ m2) {
        c_scale(msum, SQRT_HALF_BITS)
    } else {
        AMP_ZERO
    }
}

/// The sequence with its lower half cleared to `0 + 0i`.
pub open spec fn lower_cleared(s: Seq<Amp>) -> Seq<Amp> {
    Seq::new(s.len(), |j: int| if j < s.len() as int / 2 { AMP_ZERO } else { s[j] })
}

/// The sequence with its upper half cleared to `0 + 0i`.
pub open spec fn upper_cleared(s: Seq<Amp>) -> Seq<Amp> {
    Seq::new(s.len(), |j: int| if j < s.len() as int / 2 { s[j] } else { AMP_ZERO })
}

/// The sequence with its upper half moved down and then cleared.
pub open spec fn upper_moved_down(s: Seq<Amp>) -> Seq<Amp> {
    Seq::new(
        s.len(),
        |j: int|
            if j < s.len() as int / 2 {
                s[j + s.len() as int / 2]
            } else {
                AMP_ZERO
            },
    )
}

/// The cell `j` holds after a global-phase request: every cell whose
/// controller bits are all set is multiplied by the phase amplitude.
pub open spec fn gphase_cell(s: Seq<Amp>, j: usize, cmask: usize, ph: Amp) -> Amp {
    if j & cmask == cmask {
        c_mul(ph, s[j as int])
    } else {
        s[j as int]
    }
}

/// A global-phase request multiplied every controller-selected cell by
/// the one phase amplitude `ph` and changed nothing else.
pub open spec fn gphase_applied_with(
    pre: &NaiveSimulator,
    post: &NaiveSimulator,
    controllers: Seq<usize>,
    ph: Amp,
) -> bool {
    &&& post.amps().len() == pre.amps().len()
    &&& forall|j: usize|
        j < pre.amps().len() && amp_finite(post.amps()[j as int]) ==> post.amps()[j as int]
            == gphase_cell(pre.amps(), j, ctrl_mask(ctrl_slots(pre.mapping(), controllers)), ph)
    &&& forall|j: usize|
        j < pre.amps().len() && (j & ctrl_mask(ctrl_slots(pre.mapping(), controllers)))
            != ctrl_mask(ctrl_slots(pre.mapping(), controllers)) ==> post.amps()[j as int]
            == pre.amps()[j as int]
    &&& post.slots() == pre.slots()
    &&& post.mapping() == pre.mapping()
}

/// The entangling combination replaced every amplitude quadruple of the
/// two targets' slots by the scaled symmetric combination, and changed
/// nothing else.
pub open spec fn epr_applied(
    pre: &NaiveSimulator,
    post: &NaiveSimulator,
    qubits: Seq<usize>,
) -> bool {
    let m1 = 1usize << pre.mapping()[qubits[0]];
    let m2 = 1usize << pre.mapping()[qubits[1]];
    &&& post.amps().len() == pre.amps().len()
    &&& forall|j: usize|
        j < pre.amps().len() && amp_finite(post.amps()[j as int]) ==> post.amps()[j as int]
            == epr_cell(pre.amps(), j, m1, m2)
    &&& forall|j: usize|
        j < pre.amps().len() && swap_eligible(j, m1, m2) ==> post.amps()[j as int] == AMP_ZERO
    &&& post.slots() == pre.slots()
    &&& post.mapping() == pre.mapping()
}

/// What a reset does to the reference backend: the measured qubit moves
/// to the most significant slot, the upper half of the vector ends
/// cleared, the record never grows, and failure comes only from the
/// norm band. Where the outcome is forced (probability exactly 0 or 1
/// over non-NaN amplitudes) and the checked states lie in the band,
/// success is owed.
pub open spec fn naive_reset_effect(
    pre: &NaiveSimulator,
    post: &NaiveSimulator,
    qubits: Seq<usize>,
    r: Result<(), SimError>,
) -> bool {
    let s1 = swapped_seq(
        pre.amps(),
        1usize << pre.mapping()[qubits[0]],
        1usize << (pre.slots().len() - 1) as usize,
    );
    let p0 = msb_prob_zero(s1);
    let mid = pre.amps().len() as int / 2;
    &&& (r is Ok || r == Err::<(), SimError>(SimError::NormBroken))
    &&& post.measured() == pre.measured()
    &&& post.slots().len() == pre.slots().len()
    &&& post.amps().len() == pre.amps().len()
    &&& (r is Ok ==> (forall|j: int| mid <= j < pre.amps().len() ==> post.amps()[j] == AMP_ZERO)
        && post.mapping() == pre.mapping().insert(
        qubits[0],
        (pre.slots().len() - 1) as usize,
    ).insert(pre.slots().last(), pre.mapping()[qubits[0]]))
    &&& (r is Ok ==> norm_in_band(post.amps()))
    &&& (p0 == ONE_BITS && (forall|j: int| 0 <= j < mid ==> amp_finite(#[trigger] s1[j]))
        && norm_in_band(upper_cleared(s1)) ==> r is Ok)
    &&& (p0 == ZERO_BITS && (forall|j: int| 0 <= j < s1.len() ==> amp_finite(#[trigger] s1[j]))
        && norm_in_band(lower_cleared(s1)) && norm_in_band(upper_moved_down(s1)) ==> r is Ok)
}

/// Draw a uniform coin against a threshold: `false` (and the threshold
/// probability) when the draw lands below `a`, else `true` (and `b`).
/// A zero threshold forces `true`; a full threshold forces `false`.
fn random_coin(a: u64, b: u64) -> (r: (bool, u64))
    ensures
        r.0 ==> r.1 == b,
        !r.0 ==> r.1 == a,
        a == ZERO_BITS ==> r.0 == true,
        !finite_bits(a) ==> r.0 == true,
        a == ONE_BITS ==> r.0 == false,
{
    let c = random_unit();
    if float_lt(c, a) {
        (false, a)
    } else {
        (true, b)
    }
}

impl NaiveSimulator {
    /// The debug dump's amplitude list: each physical basis state's
    /// amplitude as its (real, imaginary) bit-pattern pair.
    pub fn dump_amplitudes(&self) -> (r: Vec<Amp>)
        ensures
            r@ == self.amps(),
    {
        let mut v: Vec<Amp> = Vec::new();
        let mut i: usize = 0;
        while i < self.state.len()
            invariant
                i <= self.amps().len(),
                v@ == self.amps().take(i as int),
            decreases self.amps().len() - i,
        {
            v.push(self.state[i]);
            proof {
                assert(v@ =~= self.amps().take(i + 1));
            }
            i = i + 1;
        }
        proof {
            assert(self.amps().take(self.amps().len() as int) =~= self.amps());
        }
        v
    }

    /// The debug dump's physical-to-logical slot assignment.
    pub fn dump_slots(&self) -> (r: Vec<usize>)
        ensures
            r@ == self.slots(),
    {
        let mut v: Vec<usize> = Vec::new();
        let mut i: usize = 0;
        while i < self.qubit_map_inv.len()
            invariant
                i <= self.slots().len(),
                v@ == self.slots().take(i as int),
            decreases self.slots().len() - i,
        {
            v.push(self.qubit_map_inv[i]);
            proof {
                assert(v@ =~= self.slots().take(i + 1));
            }
            i = i + 1;
        }
        proof {
            assert(self.slots().take(self.slots().len() as int) =~= self.slots());
        }
        v
    }

    /// Replace each amplitude quadruple of the two slots by the
    /// symmetric combination of its members: the scaled sum on the two
    /// outer members, zero on the two inner ones.
    fn epr_combine(&mut self, q0: usize, q1: usize)
        requires
            old(self).wf(),
            old(self).mapping().contains_key(q0),
            old(self).mapping().contains_key(q1),
            q0 != q1,
        ensures
            final(self).wf(),
            final(self).amps().len() == old(self).amps().len(),
            forall|j: usize|
                j < old(self).amps().len() && amp_finite(final(self).amps()[j as int])
                    ==> final(self).amps()[j as int] == epr_cell(
                    old(self).amps(),
                    j,
                    1usize << old(self).mapping()[q0],
                    1usize << old(self).mapping()[q1],
                ),
            forall|j: usize|
                j < old(self).amps().len() && swap_eligible(
                    j,
                    1usize << old(self).mapping()[q0],
                    1usize << old(self).mapping()[q1],
                ) ==> final(self).amps()[j as int] == AMP_ZERO,
            final(self).slots() == old(self).slots(),
            final(self).mapping() == old(self).mapping(),
            final(self).same_admin(old(self)),
    {
        let ghost gn = old(self).slots().len() as usize;
        proof {
            old(self).lemma_wf_bits();
        }
        let p1 = self.qubit_to_state_id(q0);
        let p2 = self.qubit_to_state_id(q1);
        proof {
            if p1 == p2 {
                assert(old(self).slots()[p1 as int] == q0);
                assert(old(self).slots()[p2 as int] == q1);
            }
        }
        let mask1: usize = 1 << p1;
        let mask2: usize = 1 << p2;
        let len = self.state.len();
        let mut i: usize = 0;
        while i < len
            invariant
                old(self).wf(),
                old(self).mapping().contains_key(q0),
                old(self).mapping().contains_key(q1),
                p1 == old(self).mapping()[q0],
                p2 == old(self).mapping()[q1],
                p1 != p2,
                (p1 as int) < gn,
                (p2 as int) < gn,
                gn < usize::BITS,
                mask1 == (1usize << p1),
                mask2 == (1usize << p2),
                len == old(self).amps().len(),
                len == (1usize << gn),
                self.state@.len() == len,
                i <= len,
                forall|j: usize|
                    j < len && (j & !mask1 & !mask2) >= i ==> self.state@[j as int] == old(
                        self,
                    ).amps()[j as int],
                forall|j: usize|
                    j < len && (j & !mask1 & !mask2) < i && swap_eligible(j, mask1, mask2)
                        ==> self.state@[j as int] == AMP_ZERO,
                forall|j: usize|
                    j < len && (j & !mask1 & !mask2) < i && amp_finite(self.state@[j as int])
                        ==> self.state@[j as int] == epr_cell(
                        old(self).amps(),
                        j,
                        mask1,
                        mask2,
                    ),
                self.qubit_map == old(self).qubit_map,
                self.qubit_map_inv == old(self).qubit_map_inv,
                self.allocated_qubit_counter == old(self).allocated_qubit_counter,
                self.measure_res == old(self).measure_res,
                self.reset_flag == old(self).reset_flag,
                self.capacity == old(self).capacity,
                self.comp_tolerance == old(self).comp_tolerance,
            decreases len - i,
        {
            let ghost pre = self.state@;
            if i & mask1 == 0 && i & mask2 == 0 {
                proof {
                    lemma_tq_bits(i, gn, p1, p2);
                }
                let a = self.state[i];
                let b = self.state[i + mask2];
                let c = self.state[i + mask1];
                let d = self.state[i + mask1 + mask2];
                let m = amp_add(amp_add(amp_add(a, b), c), d);
                let scaled = amp_scale(m, SQRT_HALF_BITS);
                self.state[i] = scaled;
                self.state[i + mask2] = AMP_ZERO;
                self.state[i + mask1] = AMP_ZERO;
                self.state[i + mask1 + mask2] = scaled;
                proof {
                    assert forall|j: usize|
                        j < len && (j & !mask1 & !mask2) < i + 1 && amp_finite(
                            self.state@[j as int],
                        ) implies self.state@[j as int] == epr_cell(
                        old(self).amps(),
                        j,
                        mask1,
                        mask2,
                    ) by {
                        lemma_tq_bits(j, gn, p1, p2);
                        if j == i || j == i + mask1 || j == i + mask2 || j == i + mask1 + mask2 {
                        } else {
                            assert(self.state@[j as int] == pre[j as int]);
                        }
                    }
                    assert forall|j: usize|
                        j < len && (j & !mask1 & !mask2) < i + 1 && swap_eligible(
                            j,
                            mask1,
                            mask2,
                        ) implies self.state@[j as int] == AMP_ZERO by {
                        lemma_tq_bits(j, gn, p1, p2);
                        if j == i + mask1 || j == i + mask2 {
                        } else {
                            assert(self.state@[j as int] == pre[j as int]);
                        }
                    }
                    assert forall|j: usize|
                        j < len && (j & !mask1 & !mask2) >= i + 1 implies self.state@[j as int]
                        == old(self).amps()[j as int] by {
                        lemma_tq_bits(j, gn, p1, p2);
                        assert(self.state@[j as int] == pre[j as int]);
                    }
                }
            } else {
                proof {
                    assert forall|j: usize|
                        j < len && (j & !mask1 & !mask2) < i + 1 && amp_finite(
                            self.state@[j as int],
                        ) implies self.state@[j as int] == epr_cell(
                        old(self).amps(),
                        j,
                        mask1,
                        mask2,
                    ) by {
                        lemma_tq_bits(j, gn, p1, p2);
                        lemma_tq_bits(i, gn, p1, p2);
                    }
                    assert forall|j: usize|
                        j < len && (j & !mask1 & !mask2) < i + 1 && swap_eligible(
                            j,
                            mask1,
                            mask2,
                        ) implies self.state@[j as int] == AMP_ZERO by {
                        lemma_tq_bits(j, gn, p1, p2);
                        lemma_tq_bits(i, gn, p1, p2);
                    }
                }
            }
            i = i + 1;
        }
        proof {
            assert forall|j: usize|
                j < len && amp_finite(self.state@[j as int]) implies self.state@[j as int]
                == epr_cell(old(self).amps(), j, mask1, mask2) by {
                lemma_tq_bits(j, gn, p1, p2);
            }
            assert forall|j: usize|
                j < len && swap_eligible(j, mask1, mask2) implies self.state@[j as int]
                == AMP_ZERO by {
                lemma_tq_bits(j, gn, p1, p2);
            }
            Self::lemma_wf_transfer(old(self), self);
        }
    }

    /// Multiply every controller-selected amplitude by the drawn phase
    /// `cos t + i sin t` of the requested angle; the trig draws are
    /// platform dependent, so the phase is bound existentially.
    fn global_phase(&mut self, controllers: &[usize], theta: u64)
        requires
            old(self).wf(),
            forall|k: int|
                0 <= k < controllers@.len() ==> old(self).mapping().contains_key(
                    #[trigger] controllers@[k],
                ),
        ensures
            final(self).wf(),
            exists|ph: Amp|
                #[trigger] gphase_applied_with(old(self), final(self), controllers@, ph),
            final(self).slots() == old(self).slots(),
            final(self).mapping() == old(self).mapping(),
            final(self).same_admin(old(self)),
    {
        let ph: Amp = (float_cos(theta), float_sin(theta));
        let cmask = self.controller_mask(controllers);
        let len = self.state.len();
        let mut i: usize = 0;
        while i < len
            invariant
                old(self).wf(),
                cmask == ctrl_mask(ctrl_slots(old(self).mapping(), controllers@)),
                len == old(self).amps().len(),
                self.state@.len() == len,
                i <= len,
                forall|j: usize|
                    j < i && amp_finite(self.state@[j as int]) ==> self.state@[j as int]
                        == gphase_cell(old(self).amps(), j, cmask, ph),
                forall|j: usize|
                    j < i && (j & cmask) != cmask ==> self.state@[j as int] == old(
                        self,
                    ).amps()[j as int],
                forall|j: int| i <= j < len ==> self.state@[j] == old(self).amps()[j],
                self.qubit_map == old(self).qubit_map,
                self.qubit_map_inv == old(self).qubit_map_inv,
                self.allocated_qubit_counter == old(self).allocated_qubit_counter,
                self.measure_res == old(self).measure_res,
                self.reset_flag == old(self).reset_flag,
                self.capacity == old(self).capacity,
                self.comp_tolerance == old(self).comp_tolerance,
            decreases len - i,
        {
            if i & cmask == cmask {
                let v = amp_mul(ph, self.state[i]);
                self.state[i] = v;
            }
            i = i + 1;
        }
        proof {
            Self::lemma_wf_transfer(old(self), self);
            assert(gphase_applied_with(old(self), self, controllers@, ph));
        }
    }
}

/// The operations the reference backend executes directly, in the order
/// it reports them.
pub open spec fn naive_supported_seq() -> Seq<QuantumOp> {
    seq![
        QuantumOp::Reset,
        QuantumOp::CNOT,
        QuantumOp::CZ,
        QuantumOp::Swap,
        QuantumOp::AnySQ,
        QuantumOp::GPhase,
        QuantumOp::EPR,
    ]
}

impl QDevice for NaiveSimulator {
    open spec fn dev_inv(&self) -> bool {
        self.wf()
    }

    open spec fn supported(&self) -> Set<QuantumOp> {
        naive_supported_seq().to_set()
    }

    open spec fn has_qubit(&self, q: usize) -> bool {
        self.mapping().contains_key(q)
    }

    open spec fn can_alloc(&self) -> bool {
        &&& self.slots().len() < self.cap()
        &&& self.counter() < usize::MAX
        &&& 2 * self.amps().len() <= usize::MAX
    }

    open spec fn op_args_ok(
        &self,
        op: QuantumOp,
        controllers: Seq<usize>,
        qubits: Seq<usize>,
        parameters: Seq<u64>,
    ) -> bool {
        &&& qubits.len() == spec_qubit_count(op)
        &&& parameters.len() == spec_parameter_count(op)
        &&& forall|k: int| 0 <= k < qubits.len() ==> self.mapping().contains_key(#[trigger] qubits[k])
        &&& qubits.len() == 2 ==> qubits[0] != qubits[1]
        &&& forall|k: int|
            0 <= k < controllers.len() ==> self.mapping().contains_key(#[trigger] controllers[k])
        &&& op == QuantumOp::Reset ==> controllers.len() == 0
    }

    open spec fn assert_args_ok(&self, qubits: Seq<usize>, space: Seq<u64>) -> bool {
        &&& space.len() == 2 * pow2(qubits.len() as nat) * pow2(qubits.len() as nat)
        &&& forall|k: int| 0 <= k < qubits.len() ==> self.mapping().contains_key(#[trigger] qubits[k])
        &&& forall|k1: int, k2: int|
            0 <= k1 < k2 < qubits.len() ==> #[trigger] qubits[k1] != #[trigger] qubits[k2]
    }

    open spec fn record(&self) -> Seq<char> {
        self.measured()
    }

    open spec fn qop_effect(
        pre: &Self,
        post: &Self,
        op: QuantumOp,
        controllers: Seq<usize>,
        qubits: Seq<usize>,
        parameters: Seq<u64>,
        r: Result<(), SimError>,
    ) -> bool {
        &&& (!naive_supported_seq().contains(op) ==> r == Err::<(), SimError>(
            SimError::UnsupportedOp,
        ) && *post == *pre)
        &&& (op == QuantumOp::Swap ==> r is Ok && gate_applied_tq(
            pre,
            post,
            qubits,
            controllers,
            swap_mat(),
        ) && post.measured() == pre.measured())
        &&& (op == QuantumOp::CNOT ==> r is Ok && gate_applied_tq(
            pre,
            post,
            qubits,
            controllers,
            cnot_mat(),
        ) && post.measured() == pre.measured())
        &&& (op == QuantumOp::CZ ==> r is Ok && gate_applied_tq(
            pre,
            post,
            qubits,
            controllers,
            cz_mat(),
        ) && post.measured() == pre.measured())
        &&& (op == QuantumOp::AnySQ ==> r is Ok && gate_applied_sq(
            pre,
            post,
            qubits,
            controllers,
            anysq_mat(parameters),
        ) && post.measured() == pre.measured())
        &&& (op == QuantumOp::GPhase ==> r is Ok && (exists|ph: Amp|
            #[trigger] gphase_applied_with(pre, post, controllers, ph)) && post.measured()
            == pre.measured())
        &&& (op == QuantumOp::EPR ==> r is Ok && epr_applied(pre, post, qubits) && post.measured()
            == pre.measured())
        &&& (op == QuantumOp::Reset ==> naive_reset_effect(pre, post, qubits, r))
        &&& post.counter() == pre.counter()
        &&& post.cap() == pre.cap()
        &&& post.tolerance() == pre.tolerance()
        &&& (op == QuantumOp::Reset ==> post.resetting() == false)
        &&& (op != QuantumOp::Reset ==> post.resetting() == pre.resetting())
    }

    open spec fn measure_effect(pre: &Self, post: &Self, qubit: usize, r: bool) -> bool {
        let s1 = swapped_seq(
            pre.amps(),
            1usize << pre.mapping()[qubit],
            1usize << (pre.slots().len() - 1) as usize,
        );
        let p0 = msb_prob_zero(s1);
        let mid = pre.amps().len() as int / 2;
        &&& post.amps().len() == pre.amps().len()
        &&& post.slots().len() == pre.slots().len()
        &&& post.slots() == pre.slots().update(pre.slots().len() - 1, qubit).update(
            pre.mapping()[qubit] as int,
            pre.slots().last(),
        )
        &&& post.mapping() == pre.mapping().insert(
            qubit,
            (pre.slots().len() - 1) as usize,
        ).insert(pre.slots().last(), pre.mapping()[qubit])
        &&& post.mapping()[qubit] == pre.slots().len() - 1
        &&& (p0 == ZERO_BITS ==> r == true)
        &&& (p0 == ONE_BITS && (forall|j: int| 0 <= j < mid ==> amp_finite(#[trigger] s1[j]))
            ==> r == false)
        &&& (r ==> (forall|j: int| 0 <= j < mid ==> post.amps()[j] == AMP_ZERO) && (forall|j: int|
            mid <= j < pre.amps().len() ==> amp_finite(#[trigger] post.amps()[j])
                ==> post.amps()[j] == c_unscale(s1[j], f_sqrt(f_sub(ONE_BITS, p0)))))
        &&& (!r ==> (forall|j: int| mid <= j < pre.amps().len() ==> post.amps()[j] == AMP_ZERO)
            && (forall|j: int|
            0 <= j < mid ==> amp_finite(#[trigger] post.amps()[j]) ==> post.amps()[j] == c_unscale(
                s1[j],
                f_sqrt(p0),
            )))
        &&& (!r && p0 == ONE_BITS && (forall|j: int| 0 <= j < mid ==> amp_finite(#[trigger] s1[j]))
            ==> (forall|j: int| 0 <= j < mid ==> post.amps()[j] == s1[j]))
        &&& (r && p0 == ZERO_BITS && (forall|j: int|
            0 <= j < s1.len() ==> amp_finite(#[trigger] s1[j])) ==> (forall|j: int|
            mid <= j < pre.amps().len() ==> post.amps()[j] == s1[j]))
        &&& ((forall|j: int| 0 <= j < mid ==> s1[j] == AMP_ZERO) ==> r == true)
        &&& ((mid >= 1 && s1[0] == AMP_ONE && (forall|j: int|
            1 <= j < mid ==> s1[j] == AMP_ZERO)) ==> r == false && (forall|j: int|
            0 <= j < mid ==> post.amps()[j] == s1[j]))
        &&& (!pre.resetting() ==> post.measured() == pre.measured().push(
            if r {
                '1'
            } else {
                '0'
            },
        ))
        &&& (pre.resetting() ==> post.measured() == pre.measured())
        &&& post.resetting() == pre.resetting()
        &&& post.counter() == pre.counter()
        &&& post.cap() == pre.cap()
        &&& post.tolerance() == pre.tolerance()
    }

    open spec fn free_effect(pre: &Self, post: &Self, qubit: usize, r: Result<
        (),
        SimError,
    >) -> bool {
        let mid = pre.amps().len() as int / 2;
        let s1 = swapped_seq(
            pre.amps(),
            1usize << pre.mapping()[qubit],
            1usize << (pre.slots().len() - 1) as usize,
        );
        let p0 = msb_prob_zero(s1);
        &&& (r is Ok || r == Err::<(), SimError>(SimError::NormBroken))
        &&& (!(f_le(ZERO_BITS, p0) && f_le(p0, ONE_BITS)) ==> r == Err::<(), SimError>(
            SimError::NormBroken,
        ))
        &&& (r is Ok ==> post.slots() == pre.slots().update(
            pre.mapping()[qubit] as int,
            pre.slots().last(),
        ).drop_last())
        &&& (r is Ok ==> post.mapping() == pre.mapping().insert(
            pre.slots().last(),
            pre.mapping()[qubit],
        ).remove(qubit))
        &&& (r is Ok ==> !post.mapping().contains_key(qubit))
        &&& (r is Ok ==> post.slots().len() == pre.slots().len() - 1)
        &&& (r is Ok ==> post.amps().len() == pre.amps().len() as int / 2)
        &&& (r is Ok ==> ({
            ||| (forall|j: int|
                0 <= j < mid ==> amp_finite(#[trigger] post.amps()[j]) ==> post.amps()[j]
                    == c_unscale(s1[j + mid], f_sqrt(f_sub(ONE_BITS, p0))))
            ||| (forall|j: int|
                0 <= j < mid ==> amp_finite(#[trigger] post.amps()[j]) ==> post.amps()[j]
                    == c_unscale(s1[j], f_sqrt(p0)))
        }))
        &&& (r is Ok ==> norm_in_band(post.amps()))
        &&& (p0 == ONE_BITS && (forall|j: int| 0 <= j < mid ==> amp_finite(#[trigger] s1[j]))
            && norm_in_band(upper_cleared(s1)) && norm_in_band(s1.take(mid)) ==> r is Ok)
        &&& (p0 == ZERO_BITS && (forall|j: int| 0 <= j < s1.len() ==> amp_finite(#[trigger] s1[j]))
            && norm_in_band(lower_cleared(s1)) && norm_in_band(
            s1.subrange(mid, s1.len() as int),
        ) ==> r is Ok)
        &&& post.counter() == pre.counter()
        &&& post.resetting() == pre.resetting()
        &&& post.cap() == pre.cap()
        &&& post.tolerance() == pre.tolerance()
    }

    open spec fn assert_effect(&self, qubits: Seq<usize>, space: Seq<u64>, r: Result<
        bool,
        SimError,
    >) -> bool {
        let chosen = Seq::new(qubits.len() as nat, |k: int| self.mapping()[qubits[k]]);
        let width = pow2(qubits.len() as nat) as usize;
        let p = assert_trace(self.amps(), chosen, width, space);
        &&& (r is Ok || r == Err::<bool, SimError>(SimError::ProjectorNotHermitian))
        &&& (r is Ok ==> f_lt(p.1, ASSERT_DELTA_BITS) && f_lt(ASSERT_NEG_DELTA_BITS, p.1) && r
            == Ok::<bool, SimError>(f_lt(ASSERT_LO_BITS, p.0) && f_lt(p.0, ASSERT_HI_BITS)))
        &&& (zero_basis_single_assert(self.amps(), qubits, space) ==> r is Ok)
    }

    fn alloc_qubit(&mut self) -> (q: usize)
        ensures
            q == old(self).counter(),
            !old(self).mapping().contains_key(q),
            final(self).counter() == old(self).counter() + 1,
            final(self).slots() == old(self).slots().push(q),
            final(self).mapping() == old(self).mapping().insert(
                q,
                old(self).slots().len() as usize,
            ),
            final(self).amps().len() == 2 * old(self).amps().len(),
            forall|j: int|
                0 <= j < old(self).amps().len() ==> final(self).amps()[j] == old(self).amps()[j],
            forall|j: int|
                old(self).amps().len() <= j < final(self).amps().len() ==> final(self).amps()[j]
                    == AMP_ZERO,
            final(self).resetting() == old(self).resetting(),
            final(self).cap() == old(self).cap(),
            final(self).tolerance() == old(self).tolerance(),
    {
        self.allocate_qubit_at_msb()
    }

    #[verifier::spinoff_prover]
    #[verifier::rlimit(60)]
    fn free_qubit(&mut self, qubit: usize) -> (r: Result<(), SimError>)
    {
        let ghost mid = old(self).amps().len() as int / 2;
        let ghost m1 = 1usize << old(self).mapping()[qubit];
        let ghost m2 = 1usize << (old(self).slots().len() - 1) as usize;
        let ghost s1 = swapped_seq(old(self).amps(), m1, m2);
        self.swap_qubit_to_msb(qubit);
        proof {
            self.lemma_wf_bits();
            assert forall|j: int| 0 <= j < self.amps().len() implies self.amps()[j] == s1[j] by {
                assert(0 <= j <= usize::MAX);
                let ju = j as usize;
                assert(ju as int == j);
                assert(self.amps()[ju as int] == swap_cell(old(self).amps(), ju, m1, m2));
                assert(s1[j] == swap_cell(old(self).amps(), ju, m1, m2));
            }
            assert(self.amps() =~= s1);
        }
        let (prob_zero, prob_one) = self.try_remove_msb_qubit();
        if !(float_le(ZERO_BITS, prob_zero) && float_le(prob_zero, ONE_BITS)) {
            return Err(SimError::NormBroken);
        }
        if !float_lt(prob_zero, self.comp_tolerance) && !float_lt(prob_one, self.comp_tolerance) {
            emit_noncomputational_warning(qubit, prob_zero, prob_one);
        }
        let (result, prob) = random_coin(prob_zero, prob_one);
        self.collapse_msb_qubit_into(result, prob);
        let ghost collapsed = self.amps();
        proof {
            if prob_zero == ONE_BITS && (forall|j: int| 0 <= j < mid ==> amp_finite(s1[j])) {
                assert(!result);
                assert(collapsed =~= upper_cleared(s1));
                assert(collapsed.take(mid) =~= s1.take(mid));
            }
            if prob_zero == ZERO_BITS && (forall|j: int| 0 <= j < s1.len() ==> amp_finite(
                #[trigger] s1[j],
            )) {
                assert(result);
                assert(prob == ONE_BITS);
                assert(collapsed =~= lower_cleared(s1));
                assert(collapsed.subrange(mid, collapsed.len() as int) =~= s1.subrange(
                    mid,
                    s1.len() as int,
                ));
            }
        }
        let r = self.trace_out_msb_computational_qubit(result);
        proof {
            if r is Ok {
                assert(final(self).mapping() =~= old(self).mapping().insert(
                    old(self).slots().last(),
                    old(self).mapping()[qubit],
                ).remove(qubit));
                assert(final(self).slots() =~= old(self).slots().update(
                    old(self).mapping()[qubit] as int,
                    old(self).slots().last(),
                ).drop_last());
            }
            if prob_zero == ONE_BITS && (forall|j: int| 0 <= j < mid ==> amp_finite(s1[j]))
                && norm_in_band(upper_cleared(s1)) && norm_in_band(s1.take(mid)) {
                lemma_const_amps_finite();
                assert(forall|j: int|
                    0 <= j < collapsed.len() ==> amp_finite(#[trigger] collapsed[j]));
                assert(r is Ok);
            }
            if prob_zero == ZERO_BITS && (forall|j: int| 0 <= j < s1.len() ==> amp_finite(
                #[trigger] s1[j],
            )) && norm_in_band(lower_cleared(s1)) && norm_in_band(s1.subrange(
                mid,
                s1.len() as int,
            )) {
                lemma_const_amps_finite();
                assert(forall|j: int|
                    0 <= j < collapsed.len() ==> amp_finite(#[trigger] collapsed[j]));
                assert(r is Ok);
            }
        }
        r
    }

    fn supported_quantum_ops(&self) -> (r: Vec<QuantumOp>)
        ensures
            r@ == naive_supported_seq(),
    {
        let mut v: Vec<QuantumOp> = Vec::new();
        v.push(QuantumOp::Reset);
        v.push(QuantumOp::CNOT);
        v.push(QuantumOp::CZ);
        v.push(QuantumOp::Swap);
        v.push(QuantumOp::AnySQ);
        v.push(QuantumOp::GPhase);
        v.push(QuantumOp::EPR);
        proof {
            assert(v@ =~= naive_supported_seq());
        }
        v
    }

    fn qop(&mut self, op_type: QuantumOp, qubits: &[usize], parameters: &[u64]) -> (r: Result<
        (),
        SimError,
    >) {
        let empty: [usize; 0] = [];
        proof {
            assert(empty@ =~= Seq::<usize>::empty());
        }
        let r = self.controlled_qop(op_type, &empty, qubits, parameters);
        proof {
            assert(empty@ == Seq::<usize>::empty());
        }
        r
    }

    #[verifier::spinoff_prover]
    #[verifier::rlimit(60)]
    fn controlled_qop(
        &mut self,
        op_type: QuantumOp,
        controllers: &[usize],
        qubits: &[usize],
        parameters: &[u64],
    ) -> (r: Result<(), SimError>) {
        match op_type {
            QuantumOp::Reset => {
                let ghost mid = old(self).amps().len() as int / 2;
                let ghost m1 = 1usize << old(self).mapping()[qubits@[0]];
                let ghost m2 = 1usize << (old(self).slots().len() - 1) as usize;
                let ghost s1 = swapped_seq(old(self).amps(), m1, m2);
                let ghost p0 = msb_prob_zero(s1);
                proof {
                    assert(naive_supported_seq()[0] == QuantumOp::Reset);
                }
                self.reset_flag = true;
                proof {
                    Self::lemma_wf_transfer(old(self), self);
                }
                let ghost flagged = *self;
                let ret = self.measure(qubits[0]);
                proof {
                    assert(flagged.amps() == old(self).amps() && flagged.mapping() == old(
                        self,
                    ).mapping() && flagged.slots() == old(self).slots());
                    if p0 == ONE_BITS && (forall|j: int| 0 <= j < mid ==> amp_finite(s1[j])) {
                        assert(!ret);
                        assert(self.amps() =~= upper_cleared(s1));
                    }
                    if p0 == ZERO_BITS && (forall|j: int|
                        0 <= j < s1.len() ==> amp_finite(#[trigger] s1[j])) {
                        assert(ret);
                        assert(self.amps() =~= lower_cleared(s1));
                    }
                }
                let ghost after_measure = self.amps();
                if !self.validate() {
                    let ghost prev = *self;
                    self.reset_flag = false;
                    proof {
                        Self::lemma_wf_transfer(&prev, self);
                        if p0 == ONE_BITS && (forall|j: int| 0 <= j < mid ==> amp_finite(s1[j]))
                            && norm_in_band(upper_cleared(s1)) {
                            lemma_const_amps_finite();
                            assert(forall|j: int|
                                0 <= j < self.amps().len() ==> amp_finite(
                                    #[trigger] self.amps()[j],
                                ));
                            assert(false);
                        }
                        if p0 == ZERO_BITS && (forall|j: int|
                            0 <= j < s1.len() ==> amp_finite(#[trigger] s1[j])) && norm_in_band(
                            lower_cleared(s1),
                        ) {
                            lemma_const_amps_finite();
                            assert(forall|j: int|
                                0 <= j < self.amps().len() ==> amp_finite(
                                    #[trigger] self.amps()[j],
                                ));
                            assert(false);
                        }
                        assert(naive_reset_effect(
                            old(self),
                            self,
                            qubits@,
                            Err(SimError::NormBroken),
                        ));
                    }
                    return Err(SimError::NormBroken);
                }
                if ret {
                    self.zeroing_msb();
                    proof {
                        if p0 == ZERO_BITS && (forall|j: int|
                            0 <= j < s1.len() ==> amp_finite(#[trigger] s1[j])) {
                            assert(self.amps() =~= upper_moved_down(s1));
                        }
                    }
                }
                if !self.validate() {
                    let ghost prev = *self;
                    self.reset_flag = false;
                    proof {
                        Self::lemma_wf_transfer(&prev, self);
                        if p0 == ONE_BITS && (forall|j: int| 0 <= j < mid ==> amp_finite(s1[j]))
                            && norm_in_band(upper_cleared(s1)) {
                            lemma_const_amps_finite();
                            assert(forall|j: int|
                                0 <= j < self.amps().len() ==> amp_finite(
                                    #[trigger] self.amps()[j],
                                ));
                            assert(false);
                        }
                        if p0 == ZERO_BITS && (forall|j: int|
                            0 <= j < s1.len() ==> amp_finite(#[trigger] s1[j])) && norm_in_band(
                            upper_moved_down(s1),
                        ) {
                            lemma_const_amps_finite();
                            assert(forall|j: int|
                                0 <= j < self.amps().len() ==> amp_finite(
                                    #[trigger] self.amps()[j],
                                ));
                            assert(false);
                        }
                        assert(naive_reset_effect(
                            old(self),
                            self,
                            qubits@,
                            Err(SimError::NormBroken),
                        ));
                    }
                    return Err(SimError::NormBroken);
                }
                let ghost done = *self;
                self.reset_flag = false;
                proof {
                    Self::lemma_wf_transfer(&done, self);
                    assert(norm_in_band(self.amps()));
                    assert(naive_reset_effect(old(self), self, qubits@, Ok(())));
                }
                Ok(())
            },
            QuantumOp::Swap => {
                proof {
                    assert(naive_supported_seq()[3] == QuantumOp::Swap);
                }
                let mat = TqMat {
                    m: [
                        [AMP_ONE, AMP_ZERO, AMP_ZERO, AMP_ZERO],
                        [AMP_ZERO, AMP_ZERO, AMP_ONE, AMP_ZERO],
                        [AMP_ZERO, AMP_ONE, AMP_ZERO, AMP_ZERO],
                        [AMP_ZERO, AMP_ZERO, AMP_ZERO, AMP_ONE],
                    ],
                };
                self.two_qubit_gate(controllers, qubits[0], qubits[1], &mat);
                Ok(())
            },
            QuantumOp::CNOT => {
                proof {
                    assert(naive_supported_seq()[1] == QuantumOp::CNOT);
                }
                let mat = TqMat {
                    m: [
                        [AMP_ONE, AMP_ZERO, AMP_ZERO, AMP_ZERO],
                        [AMP_ZERO, AMP_ONE, AMP_ZERO, AMP_ZERO],
                        [AMP_ZERO, AMP_ZERO, AMP_ZERO, AMP_ONE],
                        [AMP_ZERO, AMP_ZERO, AMP_ONE, AMP_ZERO],
                    ],
                };
                self.two_qubit_gate(controllers, qubits[0], qubits[1], &mat);
                Ok(())
            },
            QuantumOp::CZ => {
                proof {
                    assert(naive_supported_seq()[2] == QuantumOp::CZ);
                }
                let mat = TqMat {
                    m: [
                        [AMP_ONE, AMP_ZERO, AMP_ZERO, AMP_ZERO],
                        [AMP_ZERO, AMP_ONE, AMP_ZERO, AMP_ZERO],
                        [AMP_ZERO, AMP_ZERO, AMP_ONE, AMP_ZERO],
                        [AMP_ZERO, AMP_ZERO, AMP_ZERO, AMP_NEG_ONE],
                    ],
                };
                self.two_qubit_gate(controllers, qubits[0], qubits[1], &mat);
                Ok(())
            },
            QuantumOp::AnySQ => {
                proof {
                    assert(naive_supported_seq()[4] == QuantumOp::AnySQ);
                }
                let mat = SqMat {
                    m00: (parameters[0], parameters[1]),
                    m01: (parameters[2], parameters[3]),
                    m10: (parameters[4], parameters[5]),
                    m11: (parameters[6], parameters[7]),
                };
                self.single_qubit_gate(controllers, qubits[0], &mat);
                Ok(())
            },
            QuantumOp::GPhase => {
                proof {
                    assert(naive_supported_seq()[5] == QuantumOp::GPhase);
                }
                self.global_phase(controllers, parameters[0]);
                Ok(())
            },
            QuantumOp::EPR => {
                proof {
                    assert(naive_supported_seq()[6] == QuantumOp::EPR);
                }
                self.epr_combine(qubits[0], qubits[1]);
                Ok(())
            },
            _ => {
                proof {
                    if naive_supported_seq().contains(op_type) {
                        let i = choose|i: int|
                            0 <= i < naive_supported_seq().len() && naive_supported_seq()[i]
                                == op_type;
                        assert(false);
                    }
                }
                Err(SimError::UnsupportedOp)
            },
        }
    }

    #[verifier::spinoff_prover]
    #[verifier::rlimit(60)]
    fn measure(&mut self, qubit: usize) -> (r: bool)
    {
        self.swap_qubit_to_msb(qubit);
        proof {
            let m1 = 1usize << old(self).mapping()[qubit];
            let m2 = 1usize << (old(self).slots().len() - 1) as usize;
            let sw = swapped_seq(old(self).amps(), m1, m2);
            self.lemma_wf_bits();
            assert forall|j: int| 0 <= j < self.amps().len() implies self.amps()[j] == sw[j] by {
                assert(0 <= j <= usize::MAX);
                let ju = j as usize;
                assert(ju as int == j);
                assert(self.amps()[ju as int] == swap_cell(old(self).amps(), ju, m1, m2));
                assert(sw[j] == swap_cell(old(self).amps(), ju, m1, m2));
            }
            assert(self.amps() =~= sw);
        }
        let (prob_zero, prob_one) = self.try_remove_msb_qubit();
        let (result, prob) = random_coin(prob_zero, prob_one);
        self.collapse_msb_qubit_into(result, prob);
        if !self.reset_flag {
            if result {
                self.measure_res.append("1");
            } else {
                self.measure_res.append("0");
            }
            proof {
                reveal_strlit("1");
                reveal_strlit("0");
                if result {
                    assert(self.measure_res@ =~= old(self).measured().push('1'));
                } else {
                    assert(self.measure_res@ =~= old(self).measured().push('0'));
                }
            }
        }
        proof {
            lemma_const_amps_finite();
        }
        result
    }

    fn get_measure_res(&mut self) -> (r: String) {
        self.measure_res.clone()
    }

    fn print_state(&mut self) {
        emit_state_dump(&self.state, &self.qubit_map_inv);
    }

    fn assert_subspace(&self, qubits: &[usize], space: &[u64]) -> (r: Result<bool, SimError>)
    {
        self.assert_subspace_impl(qubits, space)
    }

    fn param_qop(&mut self, op_type: QuantumOp, qubits: &[usize], parameters: String) {
    }
}

/// Clearing a set bit by subtraction equals XOR, keeps every other bit,
/// and never underflows.
proof fn lemma_clear_bit(z: usize, id: usize)
    requires
        id < usize::BITS,
        ((z >> id) & 1) == 1,
    ensures
        (1usize << id) <= z,
        (z ^ (1usize << id)) + (1usize << id) == z,
        (((z ^ (1usize << id)) >> id) & 1) == 0,
        (z ^ (1usize << id)) <= z,
        forall|d: usize|
            d < usize::BITS && d != id ==> #[trigger] (((z ^ (1usize << id)) >> d) & 1) == ((z
                >> d) & 1),
{
    assert(id < usize::BITS && ((z >> id) & 1) == 1 ==> ((1usize << id) <= z && (z ^ (1usize
        << id)) + (1usize << id) == z && (((z ^ (1usize << id)) >> id) & 1) == 0 && (z ^ (1usize
        << id)) <= z)) by (bit_vector);
    assert forall|d: usize| d < usize::BITS && d != id implies #[trigger] (((z ^ (1usize << id))
        >> d) & 1) == ((z >> d) & 1) by {
        assert(d < usize::BITS && d != id && id < usize::BITS ==> (((z ^ (1usize << id)) >> d) & 1)
            == ((z >> d) & 1)) by (bit_vector);
    }
}

/// Setting a clear bit by addition equals XOR, keeps every other bit,
/// and stays below the vector length.
proof fn lemma_set_bit(z: usize, id: usize, n: usize)
    requires
        id < n,
        n < usize::BITS,
        z < (1usize << n),
        ((z >> id) & 1) == 0,
    ensures
        z + (1usize << id) == (z ^ (1usize << id)),
        (z ^ (1usize << id)) < (1usize << n),
        forall|d: usize|
            d < usize::BITS && d != id ==> #[trigger] (((z ^ (1usize << id)) >> d) & 1) == ((z
                >> d) & 1),
{
    assert(id < n && n < usize::BITS && z < (1usize << n) && ((z >> id) & 1) == 0 ==> (z + (1usize
        << id) == (z ^ (1usize << id)) && (z ^ (1usize << id)) < (1usize << n))) by (bit_vector);
    assert forall|d: usize| d < usize::BITS && d != id implies #[trigger] (((z ^ (1usize << id))
        >> d) & 1) == ((z >> d) & 1) by {
        assert(d < usize::BITS && d != id && id < usize::BITS ==> (((z ^ (1usize << id)) >> d) & 1)
            == ((z >> d) & 1)) by (bit_vector);
    }
}

/// The row index a basis state occupies within the chosen subset: bit
/// `i` of the row is the basis state's bit at the `i`-th chosen slot,
/// accumulated over the first `k` slots.
pub open spec fn subset_row(index: usize, ids: Seq<usize>, k: int) -> usize
    decreases k,
{
    if k <= 0 {
        0
    } else {
        (subset_row(index, ids, k - 1) + (((index >> ids[k - 1]) & 1) << (k - 1) as usize)) as usize
    }
}

/// The basis state with its bits at the first `k` chosen slots cleared:
/// the part of the state agreeing outside the subset.
pub open spec fn subset_cleared(index: usize, ids: Seq<usize>, k: int) -> usize
    decreases k,
{
    if k <= 0 {
        index
    } else {
        (subset_cleared(index, ids, k - 1) - (((index >> ids[k - 1]) & 1) << ids[k - 1])) as usize
    }
}

/// The dual basis state: the cleared state with the column's first `k`
/// bits written into the chosen slots.
pub open spec fn subset_dual(zeroed: usize, col: usize, ids: Seq<usize>, k: int) -> usize
    decreases k,
{
    if k <= 0 {
        zeroed
    } else {
        (subset_dual(zeroed, col, ids, k - 1) + (((col >> (k - 1) as usize) & 1) << ids[k - 1]))
            as usize
    }
}

/// One basis state's contributions folded into the flattened reduced
/// density matrix, for columns below `cols`.
pub open spec fn rho_after_cols(
    rho: Seq<Amp>,
    s: Seq<Amp>,
    index: usize,
    ids: Seq<usize>,
    npow: usize,
    cols: int,
) -> Seq<Amp>
    decreases cols,
{
    if cols <= 0 {
        rho
    } else {
        let prev = rho_after_cols(rho, s, index, ids, npow, cols - 1);
        let row = subset_row(index, ids, ids.len() as int);
        let zeroed = subset_cleared(index, ids, ids.len() as int);
        let dual = subset_dual(zeroed, (cols - 1) as usize, ids, ids.len() as int);
        let cell = row * npow + (cols - 1);
        prev.update(cell, c_add(prev[cell], c_mul(s[index as int], c_conj(s[dual as int]))))
    }
}

/// The flattened reduced density matrix over the chosen slots after the
/// first `idxs` basis states have been folded in.
pub open spec fn rho_acc(s: Seq<Amp>, ids: Seq<usize>, npow: usize, idxs: int) -> Seq<Amp>
    decreases idxs,
{
    if idxs <= 0 {
        Seq::new((npow * npow) as nat, |t: int| AMP_ZERO)
    } else {
        rho_after_cols(rho_acc(s, ids, npow, idxs - 1), s, (idxs - 1) as usize, ids, npow,
            npow as int)
    }
}

/// The trace of the row-major interleaved projector against the reduced
/// density matrix, folded over the first `k` cells.
pub open spec fn trace_acc(space: Seq<u64>, rho: Seq<Amp>, k: int) -> Amp
    decreases k,
{
    if k <= 0 {
        AMP_ZERO
    } else {
        c_add(trace_acc(space, rho, k - 1), c_mul((space[2 * (k - 1)], space[2 * (k - 1) + 1]),
            rho[k - 1]))
    }
}

/// The complex bit pair of the projector-against-rho trace the
/// subspace assertion tests.
pub open spec fn assert_trace(s: Seq<Amp>, ids: Seq<usize>, npow: usize, space: Seq<u64>) -> Amp {
    trace_acc(space, rho_acc(s, ids, npow, s.len() as int), (npow * npow) as int)
}

/// A one-qubit assertion against the exact zero-basis state, with a
/// projector drawn from the exact zero/one entries: every intermediate
/// of the trace computation is then an exact constant, so the check is
/// owed a verdict.
pub open spec fn zero_basis_single_assert(s: Seq<Amp>, qubits: Seq<usize>, space: Seq<u64>) -> bool {
    &&& qubits.len() == 1
    &&& s.len() >= 1
    &&& s[0] == AMP_ONE
    &&& forall|j: int| 1 <= j < s.len() ==> s[j] == AMP_ZERO
    &&& forall|t: int|
        0 <= t < 4 ==> ((#[trigger] space[2 * t], space[2 * t + 1]) == AMP_ZERO || (space[2 * t],
        space[2 * t + 1]) == AMP_ONE)
}

/// Bits of `1e-4`, the tolerance of the subspace-assertion trace test.
pub const ASSERT_DELTA_BITS: u64 = 0x3F1A_36E2_EB1C_432D;

/// Bits of `1.0 - 1e-4`.
pub const ASSERT_LO_BITS: u64 = 0x3FEF_FF2E_48E8_A71E;

/// Bits of `1.0 + 1e-4`.
pub const ASSERT_HI_BITS: u64 = 0x3FF0_0068_DB8B_AC71;

/// Bits of `-1e-4`.
pub const ASSERT_NEG_DELTA_BITS: u64 = 0xBF1A_36E2_EB1C_432D;

impl NaiveSimulator {
    /// Compute the reduced density matrix over the given qubits by
    /// summing `psi(i) * conj(psi(dual))` over basis states agreeing
    /// outside the subset, then test whether the trace of the projector
    /// against it is `1` within `1e-4` with a negligible imaginary part.
    /// A non-negligible imaginary part is reported as an error.
    #[verifier::spinoff_prover]
    #[verifier::rlimit(60)]
    fn assert_subspace_impl(&self, qubits: &[usize], space: &[u64]) -> (r: Result<bool, SimError>)
        requires
            self.wf(),
            self.assert_args_ok(qubits@, space@),
        ensures
            r is Ok || r == Err::<bool, SimError>(SimError::ProjectorNotHermitian),
            ({
                let chosen = Seq::new(qubits@.len() as nat, |k: int| self.mapping()[qubits@[k]]);
                let width = pow2(qubits@.len() as nat) as usize;
                let p = assert_trace(self.amps(), chosen, width, space@);
                r is Ok ==> f_lt(p.1, ASSERT_DELTA_BITS) && f_lt(ASSERT_NEG_DELTA_BITS, p.1) && r
                    == Ok::<bool, SimError>(f_lt(ASSERT_LO_BITS, p.0) && f_lt(p.0, ASSERT_HI_BITS))
            }),
            zero_basis_single_assert(self.amps(), qubits@, space@) ==> r is Ok,
    {
        let ghost gn = self.slots().len() as usize;
        proof {
            self.lemma_wf_bits();
        }
        let nq = qubits.len();
        let sl = space.len();
        proof {
            unsigned_int_max_values();
            lemma_pow2_pos(nq as nat);
            if nq >= usize::BITS {
                if nq > usize::BITS {
                    lemma_pow2_strictly_increases(usize::BITS as nat, nq as nat);
                }
                assert(pow2(nq as nat) >= pow2(usize::BITS as nat));
                assert(2 * pow2(nq as nat) * pow2(nq as nat) > usize::MAX) by (nonlinear_arith)
                    requires
                        pow2(nq as nat) >= usize::MAX + 1 && pow2(nq as nat) >= 1,
                ;
                assert(false);
            }
            assert(pow2(nq as nat) * pow2(nq as nat) <= usize::MAX && pow2(nq as nat)
                <= usize::MAX) by (nonlinear_arith)
                requires
                    2 * pow2(nq as nat) * pow2(nq as nat) <= usize::MAX && pow2(nq as nat) >= 1,
            ;
            lemma_usize_shl_is_mul(1usize, nq);
        }
        let npow: usize = 1 << nq;
        proof {
            assert(npow * npow == pow2(nq as nat) * pow2(nq as nat) && 2 * (npow * npow) == 2
                * pow2(nq as nat) * pow2(nq as nat)) by (nonlinear_arith)
                requires
                    npow == pow2(nq as nat),
            ;
        }
        let sz = npow * npow;
        proof {
            assert((1usize << 0usize) == 1usize) by (bit_vector);
        }
        // Physical slots of the chosen qubits; distinct because the
        // handles are distinct and the bijection is injective.
        let mut ids: Vec<usize> = Vec::new();
        let mut t: usize = 0;
        while t < nq
            invariant
                self.wf(),
                self.assert_args_ok(qubits@, space@),
                nq == qubits@.len(),
                t <= nq,
                ids@.len() == t,
                forall|k: int|
                    0 <= k < t ==> #[trigger] ids@[k] == self.mapping()[qubits@[k]] && ids@[k]
                        < self.slots().len(),
            decreases nq - t,
        {
            ids.push(self.qubit_to_state_id(qubits[t]));
            t = t + 1;
        }
        proof {
            assert forall|k1: int, k2: int| 0 <= k1 < k2 < nq implies #[trigger] ids@[k1] != #[trigger] ids@[k2] by {
                assert(self.slots()[self.mapping()[qubits@[k1]] as int] == qubits@[k1]);
                assert(self.slots()[self.mapping()[qubits@[k2]] as int] == qubits@[k2]);
            }
            assert(ids@ =~= Seq::new(qubits@.len() as nat, |k: int| self.mapping()[qubits@[k]]));
        }
        let ghost hz = zero_basis_single_assert(self.amps(), qubits@, space@);
        proof {
            if hz {
                lemma_const_amps_finite();
                assert(npow == 2 && sz == 4) by {
                    lemma2_to64();
                };
            }
        }
        let mut rho: Vec<Amp> = Vec::new();
        let mut t: usize = 0;
        while t < sz
            invariant
                t <= sz,
                rho@.len() == t,
                forall|c_: int| 0 <= c_ < t ==> rho@[c_] == AMP_ZERO,
            decreases sz - t,
        {
            rho.push(AMP_ZERO);
            t = t + 1;
        }
        proof {
            assert(rho@ =~= rho_acc(self.amps(), ids@, npow, 0));
        }
        let all = self.state.len();
        let mut index: usize = 0;
        while index < all
            invariant
                self.wf(),
                self.assert_args_ok(qubits@, space@),
                gn == self.slots().len(),
                gn < usize::BITS,
                all == self.amps().len(),
                all == (1usize << gn),
                nq == qubits@.len(),
                nq < usize::BITS,
                npow == (1usize << nq),
                npow == pow2(nq as nat),
                sz == npow * npow,
                sl == space@.len(),
                sl == 2 * sz,
                ids@.len() == nq,
                forall|k: int| 0 <= k < nq ==> #[trigger] ids@[k] < gn,
                forall|k1: int, k2: int| 0 <= k1 < k2 < nq ==> #[trigger] ids@[k1] != #[trigger] ids@[k2],
                rho@.len() == sz,
                index <= all,
                (forall|c_: int| 0 <= c_ < sz ==> amp_finite(#[trigger] rho@[c_])) ==> rho@
                    == rho_acc(self.amps(), ids@, npow, index as int),
                hz == zero_basis_single_assert(self.amps(), qubits@, space@),
                hz ==> sz == 4 && rho@[1] == AMP_ZERO && rho@[2] == AMP_ZERO && rho@[3]
                    == AMP_ZERO && rho@[0] == (if index == 0 {
                    AMP_ZERO
                } else {
                    AMP_ONE
                }),
            decreases all - index,
        {
            proof {
                assert((1usize << 0usize) == 1usize) by (bit_vector);
            }
            let mut row: usize = 0;
            let mut zeroed: usize = index;
            let mut i: usize = 0;
            while i < nq
                invariant
                    self.wf(),
                    nq < usize::BITS,
                    gn < usize::BITS,
                    ids@.len() == nq,
                    forall|k: int| 0 <= k < nq ==> #[trigger] ids@[k] < gn,
                    forall|k1: int, k2: int| 0 <= k1 < k2 < nq ==> #[trigger] ids@[k1] != #[trigger] ids@[k2],
                    index < (1usize << gn),
                    i <= nq,
                    row < (1usize << i),
                    row == subset_row(index, ids@, i as int),
                    zeroed == subset_cleared(index, ids@, i as int),
                    zeroed <= index,
                    index == 0 ==> row == 0 && zeroed == 0,
                    forall|k: int|
                        i <= k < nq ==> ((zeroed >> ids@[k]) & 1) == ((index >> #[trigger] ids@[k])
                            & 1),
                    forall|k: int| 0 <= k < i ==> ((zeroed >> #[trigger] ids@[k]) & 1) == 0,
                decreases nq - i,
            {
                let id = ids[i];
                let bit = (index >> id) & 1;
                let ghost z0 = zeroed;
                let ghost r0 = row;
                proof {
                    let ii = i;
                    assert((index >> id) & 1 <= 1) by (bit_vector);
                    assert(r0 < (1usize << ii) && ((index >> id) & 1) <= 1 && ii + 1 < usize::BITS
                        ==> r0 + (((index >> id) & 1) << ii) < (1usize << (ii + 1) as usize))
                        by (bit_vector);
                    assert(((z0 >> id) & 1) == ((index >> id) & 1));
                    if ((index >> id) & 1) == 1 {
                        lemma_clear_bit(z0, id);
                    } else {
                        assert((((index >> id) & 1) << id) == 0usize && (((index >> id) & 1) << ii)
                            == 0usize) by (bit_vector)
                            requires
                                ((index >> id) & 1) == 0usize,
                        ;
                    }
                }
                row = row + (bit << i);
                zeroed = zeroed - (bit << id);
                proof {
                    if bit == 1 {
                        assert(zeroed == (z0 ^ (1usize << id)));
                        assert forall|k: int| i + 1 <= k < nq implies ((zeroed >> ids@[k]) & 1) == ((
                        index >> #[trigger] ids@[k]) & 1) by {
                            assert(ids@[k] != ids@[i as int]);
                            assert(ids@[k] < usize::BITS);
                        }
                        assert forall|k: int| 0 <= k < i + 1 implies ((zeroed >> #[trigger] ids@[k])
                            & 1) == 0 by {
                            if k < i {
                                assert(ids@[k] != ids@[i as int]);
                                assert(ids@[k] < usize::BITS);
                            }
                        }
                    } else {
                        assert(bit << id == 0usize) by (bit_vector)
                            requires
                                bit == 0usize,
                        ;
                        assert(bit << i == 0usize) by (bit_vector)
                            requires
                                bit == 0usize,
                        ;
                    }
                }
                i = i + 1;
            }
            proof {
                let nnq = nq;
                assert(nnq < usize::BITS ==> (1usize << nnq) == (1usize << nnq)) by (bit_vector);
            }
            let ghost rho0 = rho@;
            proof {
                if hz {
                    assert(nq == 1);
                    assert((1usize << 1usize) == 2usize) by (bit_vector);
                }
            }
            let mut col: usize = 0;
            while col < npow
                invariant
                    self.wf(),
                    nq < usize::BITS,
                    gn < usize::BITS,
                    all == self.amps().len(),
                    all == (1usize << gn),
                    ids@.len() == nq,
                    forall|k: int| 0 <= k < nq ==> #[trigger] ids@[k] < gn,
                    forall|k1: int, k2: int|
                        0 <= k1 < k2 < nq ==> #[trigger] ids@[k1] != #[trigger] ids@[k2],
                    index < all,
                    npow == (1usize << nq),
                    sz == npow * npow,
                    rho@.len() == sz,
                    row < npow,
                    row == subset_row(index, ids@, nq as int),
                    zeroed == subset_cleared(index, ids@, nq as int),
                    zeroed < all,
                    forall|k: int| 0 <= k < nq ==> ((zeroed >> #[trigger] ids@[k]) & 1) == 0,
                    col <= npow,
                    (forall|c_: int| 0 <= c_ < sz ==> amp_finite(#[trigger] rho@[c_])) ==> rho@
                        == rho_after_cols(rho0, self.amps(), index, ids@, npow, col as int)
                        && (forall|c_: int| 0 <= c_ < sz ==> amp_finite(#[trigger] rho0[c_])),
                    hz == zero_basis_single_assert(self.amps(), qubits@, space@),
                    hz ==> sz == 4 && nq == 1 && npow == 2 && rho0[2] == AMP_ZERO && rho0[3]
                        == AMP_ZERO && rho@[2] == AMP_ZERO && rho@[3] == AMP_ZERO,
                    hz && index == 0 ==> row == 0 && zeroed == 0 && rho0[0] == AMP_ZERO
                        && rho0[1] == AMP_ZERO && rho@[1] == AMP_ZERO && rho@[0] == (if col == 0 {
                        AMP_ZERO
                    } else {
                        AMP_ONE
                    }),
                    hz && index >= 1 ==> rho0[0] == AMP_ONE && rho0[1] == AMP_ZERO && rho@[0]
                        == AMP_ONE && rho@[1] == AMP_ZERO,
                decreases npow - col,
            {
                let mut dual: usize = zeroed;
                let mut k: usize = 0;
                while k < nq
                    invariant
                        self.wf(),
                        nq < usize::BITS,
                        gn < usize::BITS,
                        all == (1usize << gn),
                        ids@.len() == nq,
                        forall|t2: int| 0 <= t2 < nq ==> #[trigger] ids@[t2] < gn,
                        forall|t1: int, t2: int|
                            0 <= t1 < t2 < nq ==> #[trigger] ids@[t1] != #[trigger] ids@[t2],
                        k <= nq,
                        dual < all,
                        dual == subset_dual(zeroed, col, ids@, k as int),
                        forall|t2: int| k <= t2 < nq ==> ((dual >> #[trigger] ids@[t2]) & 1) == ((
                        zeroed >> ids@[t2]) & 1),
                        forall|t2: int| 0 <= t2 < nq ==> ((zeroed >> #[trigger] ids@[t2]) & 1) == 0,
                    decreases nq - k,
                {
                    let idk = ids[k];
                    let bit = (col >> k) & 1;
                    let ghost d0 = dual;
                    proof {
                        assert((col >> k) & 1 <= 1) by (bit_vector);
                        assert(((d0 >> idk) & 1) == ((zeroed >> idk) & 1));
                        if ((col >> k) & 1) == 1 {
                            lemma_set_bit(d0, idk, gn);
                        } else {
                            assert(((col >> k) & 1) << idk == 0usize) by (bit_vector)
                                requires
                                    ((col >> k) & 1) == 0usize,
                            ;
                        }
                    }
                    dual = dual + (bit << idk);
                    proof {
                        if bit == 1 {
                            assert(dual == (d0 ^ (1usize << idk)));
                        }
                        assert forall|t2: int| k + 1 <= t2 < nq implies ((dual >> #[trigger] ids@[t2])
                            & 1) == ((zeroed >> ids@[t2]) & 1) by {
                            assert(ids@[t2] != ids@[k as int]);
                            assert(ids@[t2] < usize::BITS);
                        }
                    }
                    k = k + 1;
                }
                let a = self.state[index];
                let b = self.state[dual];
                proof {
                    assert(row * npow + col < sz) by (nonlinear_arith)
                        requires
                            row < npow && col < npow && sz == npow * npow,
                    ;
                }
                let cell = row * npow + col;
                let ghost prev_rho = rho@;
                let acc = amp_add(rho[cell], amp_mul(a, amp_conj(b)));
                rho[cell] = acc;
                proof {
                    if forall|c_: int| 0 <= c_ < sz ==> amp_finite(#[trigger] rho@[c_]) {
                        assert(amp_finite(rho@[cell as int]));
                        assert forall|c_: int| 0 <= c_ < sz implies amp_finite(
                            #[trigger] prev_rho[c_],
                        ) by {
                            if c_ != cell as int {
                                assert(prev_rho[c_] == rho@[c_]);
                            }
                        }
                        assert(rho@ =~= prev_rho.update(cell as int, acc));
                    }
                    if hz {
                        assert(forall|j: int|
                            1 <= j < self.amps().len() ==> #[trigger] self.amps()[j] == AMP_ZERO);
                        if index == 0 {
                            let id0 = ids@[0];
                            assert(id0 < usize::BITS);
                            assert(crate::naive::subset_dual(0usize, col, ids@, 0) == 0);
                            if col == 0 {
                                assert(((0usize >> 0usize) & 1) == 0) by (bit_vector);
                                assert(id0 < usize::BITS ==> (0usize << id0) == 0) by (bit_vector);
                                assert(crate::naive::subset_dual(0usize, 0usize, ids@, 1) == 0);
                                assert(dual == 0);
                                assert(b == AMP_ONE && a == AMP_ONE);
                                assert(acc == AMP_ONE);
                            } else {
                                assert(col == 1);
                                assert(((1usize >> 0usize) & 1) == 1) by (bit_vector);
                                assert(id0 < usize::BITS ==> (1usize << id0) >= 1) by (bit_vector);
                                assert(crate::naive::subset_dual(0usize, 1usize, ids@, 1) >= 1);
                                assert(dual >= 1);
                                assert(b == AMP_ZERO && a == AMP_ONE);
                                assert(acc == AMP_ZERO);
                            }
                        } else {
                            assert(a == AMP_ZERO);
                            assert(b == AMP_ONE || b == AMP_ZERO);
                            assert(acc == prev_rho[cell as int]);
                        }
                    }
                }
                col = col + 1;
            }
            index = index + 1;
        }
        // p(rho in projector) = tr(projector * rho)
        let mut p: Amp = AMP_ZERO;
        let mut k: usize = 0;
        while k < sz
            invariant
                sz <= sl,
                sl == space@.len(),
                sl == 2 * sz,
                rho@.len() == sz,
                k <= sz,
                amp_finite(p) ==> p == trace_acc(space@, rho@, k as int) && (forall|c_: int|
                    0 <= c_ < k ==> amp_finite(#[trigger] rho@[c_])),
                hz == zero_basis_single_assert(self.amps(), qubits@, space@),
                hz ==> sz == 4 && rho@[0] == AMP_ONE && rho@[1] == AMP_ZERO && rho@[2]
                    == AMP_ZERO && rho@[3] == AMP_ZERO,
                hz ==> p == (if k >= 1 && (space@[0], space@[1]) == AMP_ONE {
                    AMP_ONE
                } else {
                    AMP_ZERO
                }),
            decreases sz - k,
        {
            let proj: Amp = (space[2 * k], space[2 * k + 1]);
            let ghost p_before = p;
            p = amp_add(p, amp_mul(proj, rho[k]));
            proof {
                if hz {
                    assert(proj == AMP_ZERO || proj == AMP_ONE);
                    if k == 0 {
                        assert(p == (if proj == AMP_ONE {
                            AMP_ONE
                        } else {
                            AMP_ZERO
                        }));
                    } else {
                        assert(p == p_before);
                    }
                }
            }
            k = k + 1;
        }
        proof {
            assert(npow == pow2(nq as nat) as usize);
        }
        proof {
            if hz {
                lemma_const_amps_finite();
                assert(p == AMP_ZERO || p == AMP_ONE);
                assert((ASSERT_NEG_DELTA_BITS & MAG_MASK) != 0 && (ASSERT_NEG_DELTA_BITS
                    & MAG_MASK) <= INF_BITS) by (bit_vector);
            }
        }
        if !(float_le(p.0, p.0) && float_le(p.1, p.1)) {
            proof {
                if hz {
                    assert(false);
                }
            }
            return Err(SimError::ProjectorNotHermitian);
        }
        proof {
            assert(amp_finite(p));
            assert(p == assert_trace(self.amps(), ids@, npow, space@));
        }
        if !(float_lt(p.1, ASSERT_DELTA_BITS) && float_lt(ASSERT_NEG_DELTA_BITS, p.1)) {
            proof {
                if hz {
                    assert(false);
                }
            }
            return Err(SimError::ProjectorNotHermitian);
        }
        Ok(float_lt(ASSERT_LO_BITS, p.0) && float_lt(p.0, ASSERT_HI_BITS))
    }
}

/// The pinned comparisons of the assertion tolerances against the exact
/// trace values, re-exported from the comparison wrapper's clauses by
/// performing each comparison once.
pub fn assert_tolerance_facts()
    ensures
        f_lt(ZERO_BITS, ASSERT_DELTA_BITS) == true,
        f_lt(ASSERT_NEG_DELTA_BITS, ZERO_BITS) == true,
        f_lt(ASSERT_LO_BITS, ONE_BITS) == true,
        f_lt(ONE_BITS, ASSERT_HI_BITS) == true,
        f_lt(ASSERT_LO_BITS, ZERO_BITS) == false,
{
    proof {
        assert((ASSERT_NEG_DELTA_BITS & 0x7FFF_FFFF_FFFF_FFFFu64) != 0 && (ASSERT_NEG_DELTA_BITS
            & 0x7FFF_FFFF_FFFF_FFFFu64) <= 0x7FF0_0000_0000_0000u64) by (bit_vector);
    }
    let _ = float_lt(ZERO_BITS, ASSERT_DELTA_BITS);
    let _ = float_lt(ASSERT_NEG_DELTA_BITS, ZERO_BITS);
    let _ = float_lt(ASSERT_LO_BITS, ONE_BITS);
    let _ = float_lt(ONE_BITS, ASSERT_HI_BITS);
    let _ = float_lt(ASSERT_LO_BITS, ZERO_BITS);
}

/// The two-qubit targets of a gate call were transformed by the given
/// matrix and nothing else changed.
pub open spec fn gate_applied_tq(
    pre: &NaiveSimulator,
    post: &NaiveSimulator,
    qubits: Seq<usize>,
    controllers: Seq<usize>,
    mat: TqMat,
) -> bool {
    let m1 = 1usize << pre.mapping()[qubits[0]];
    let m2 = 1usize << pre.mapping()[qubits[1]];
    let cmask = ctrl_mask(ctrl_slots(pre.mapping(), controllers));
    &&& post.amps().len() == pre.amps().len()
    &&& forall|j: usize|
        j < pre.amps().len() && amp_finite(post.amps()[j as int]) ==> post.amps()[j as int]
            == tq_gate_cell(pre.amps(), j, m1, m2, cmask, mat)
    &&& forall|j: usize|
        j < pre.amps().len() && ((j & !m1 & !m2) & cmask) != cmask ==> post.amps()[j as int]
            == pre.amps()[j as int]
    &&& post.slots() == pre.slots()
    &&& post.mapping() == pre.mapping()
}

/// The single-qubit target of a gate call was transformed by the given
/// matrix and nothing else changed.
pub open spec fn gate_applied_sq(
    pre: &NaiveSimulator,
    post: &NaiveSimulator,
    qubits: Seq<usize>,
    controllers: Seq<usize>,
    mat: SqMat,
) -> bool {
    let mask = 1usize << pre.mapping()[qubits[0]];
    let cmask = ctrl_mask(ctrl_slots(pre.mapping(), controllers));
    &&& post.amps().len() == pre.amps().len()
    &&& forall|j: usize|
        j < pre.amps().len() && amp_finite(post.amps()[j as int]) ==> post.amps()[j as int]
            == sq_gate_cell(pre.amps(), j, mask, cmask, mat)
    &&& forall|j: usize|
        j < pre.amps().len() && ((j & !mask) & cmask) != cmask ==> post.amps()[j as int]
            == pre.amps()[j as int]
    &&& post.slots() == pre.slots()
    &&& post.mapping() == pre.mapping()
}

/// Relies on `writeln!` to standard error to surface the warning that a
/// qubit was freed while its outcome probabilities were not within the
/// computational tolerance; the runtime proceeds by a forced collapse.
#[verifier::external_body]
fn emit_noncomputational_warning(qubit: usize, p0: u64, p1: u64) {
    let err = std::io::stderr();
    let _ = writeln!(
        &mut err.lock(),
        "Qubit {} is not in computational state! prob = ({}, {})",
        qubit,
        Double::from_bits(p0),
        Double::from_bits(p1),
    );
}

/// Relies on `serde_json::to_string` to render the debug dump of the
/// amplitudes (as real/imaginary pairs) and the slot assignment, and
/// writes it to standard output.
#[verifier::external_body]
fn emit_state_dump(state: &Vec<Amp>, slot_to_handle: &Vec<usize>) {
    let pairs: Vec<(Double, Double)> = state.iter().map(
        |a| (Double::from_bits(a.0), Double::from_bits(a.1)),
    ).collect();
    let mut doc = serde_json::Map::new();
    let ps = serde_json::to_value(&pairs).unwrap_or(serde_json::Value::Null);
    let qs = serde_json::to_value(slot_to_handle).unwrap_or(serde_json::Value::Null);
    doc.insert("phy_state".to_string(), ps);
    doc.insert("phy_qubit_to_virt_qubit".to_string(), qs);
    let out = std::io::stdout();
    let _ = writeln!(&mut out.lock(), "Qubit states:");
    let _ = writeln!(&mut out.lock(), "{}", serde_json::Value::Object(doc));
}

} // verus!
