//! Laws of the engine that connect several operations, stated over the
//! same views the operations' own contracts use.

use vstd::prelude::*;
use vstd::arithmetic::power2::{pow2, lemma2_to64};
use crate::amp::{Amp, AMP_ZERO, AMP_ONE, ZERO_BITS, ONE_BITS, amp_constant_facts};
use crate::naive::{NaiveSimulator, swapped_seq, swap_cell, swap_eligible};
use crate::qdevice::{QDevice, SimError};

verus! {

/// Allocation/free round trip: freeing returns the engine to the
/// zero-qubit shape. Each deallocation removes exactly its handle from
/// the bijection and halves the amplitude vector, so after allocating
/// any number of qubits and freeing them, in any order, a well-formed
/// simulator with no live slots holds exactly one amplitude and maps no
/// handle at all.
pub proof fn lemma_empty_simulator_single_amplitude(s: &NaiveSimulator)
    requires
        s.wf(),
        s.slots().len() == 0,
    ensures
        s.amps().len() == 1,
        forall|q: usize| !s.mapping().contains_key(q),
{
    lemma2_to64();
    assert forall|q: usize| !s.mapping().contains_key(q) by {
        if s.mapping().contains_key(q) {
            assert(s.mapping()[q] < s.slots().len());
        }
    }
}

/// Measurement idempotence for an observed `1`: a measurement that
/// observed `1` leaves the measured qubit at the most significant slot
/// with the whole lower half of the vector cleared, and moving a qubit
/// that already sits at the most significant slot is the identity
/// permutation. The repeated measurement therefore sees a cleared lower
/// half again, and its contract forces the same outcome `1`.
pub proof fn lemma_measure_idempotent_after_one(s: &NaiveSimulator, qubit: usize)
    requires
        s.wf(),
        s.mapping().contains_key(qubit),
        s.mapping()[qubit] == s.slots().len() - 1,
        forall|j: int| 0 <= j < s.amps().len() as int / 2 ==> s.amps()[j] == AMP_ZERO,
    ensures
        forall|j: int|
            0 <= j < s.amps().len() as int / 2 ==> #[trigger] swapped_seq(
                s.amps(),
                1usize << s.mapping()[qubit],
                1usize << (s.slots().len() - 1) as usize,
            )[j] == AMP_ZERO,
{
    let m = 1usize << s.mapping()[qubit];
    assert forall|j: int|
        0 <= j < s.amps().len() as int / 2 implies swapped_seq(s.amps(), m, m)[j] == AMP_ZERO by {
        let ju = j as usize;
        assert(!swap_eligible(ju, m, m));
        assert(swapped_seq(s.amps(), m, m)[j] == swap_cell(s.amps(), ju, m, m));
    }
}

/// Deterministic basis-state measurement: a one-qubit simulator in the
/// exact state `1|0> + 0|1>` presents, after the (identity) move of its
/// only qubit to the most significant slot, a lower half that is exactly
/// the amplitude `1 + 0i`; the measurement contract then forces the
/// outcome `0` with the state preserved — no randomness can intervene.
pub proof fn lemma_fresh_qubit_measures_zero(s: &NaiveSimulator, qubit: usize)
    requires
        s.wf(),
        s.slots().len() == 1,
        s.mapping().contains_key(qubit),
        s.amps() == seq![AMP_ONE, AMP_ZERO],
    ensures
        ({
            let s1 = swapped_seq(
                s.amps(),
                1usize << s.mapping()[qubit],
                1usize << (s.slots().len() - 1) as usize,
            );
            &&& s1.len() == 2
            &&& s1[0] == AMP_ONE
            &&& s.amps().len() as int / 2 == 1
        }),
{
    assert(s.mapping()[qubit] == 0);
    let m = 1usize << s.mapping()[qubit];
    let s1 = swapped_seq(s.amps(), m, m);
    assert(!swap_eligible(0usize, m, m));
    assert(s1[0] == swap_cell(s.amps(), 0usize, m, m));
}

/// The subspace-assertion verdicts on the prepared all-zero state,
/// derived from the assertion's contract and the pinned constant
/// arithmetic alone: the projector onto the zero state is affirmed and
/// its orthogonal complement refused, with no numerical slack left.
pub fn witness_subspace_verdicts_on_zero_state() {
    amp_constant_facts();
    crate::naive::assert_tolerance_facts();
    proof {
        lemma2_to64();
        assert(((0usize >> 0usize) & 1) == 0 && ((1usize >> 0usize) & 1) == 1 && ((0usize)
            << 0usize) == 0 && ((1usize) << 0usize) == 1) by (bit_vector);
    }
    let mut sim = NaiveSimulator::new(1);
    let q = sim.alloc_qubit();
    proof {
        assert(sim.amps() =~= seq![AMP_ONE, AMP_ZERO]);
        assert(sim.mapping()[q] == 0);
    }
    let qs: [usize; 1] = [q];
    let zero_projector: [u64; 8] = [
        ONE_BITS,
        ZERO_BITS,
        ZERO_BITS,
        ZERO_BITS,
        ZERO_BITS,
        ZERO_BITS,
        ZERO_BITS,
        ZERO_BITS,
    ];
    let one_projector: [u64; 8] = [
        ZERO_BITS,
        ZERO_BITS,
        ZERO_BITS,
        ZERO_BITS,
        ZERO_BITS,
        ZERO_BITS,
        ONE_BITS,
        ZERO_BITS,
    ];
    proof {
        assert(qs@ =~= seq![q]);
        assert(zero_projector@ =~= seq![
            ONE_BITS, ZERO_BITS, ZERO_BITS, ZERO_BITS, ZERO_BITS, ZERO_BITS, ZERO_BITS, ZERO_BITS,
        ]);
        assert(one_projector@ =~= seq![
            ZERO_BITS, ZERO_BITS, ZERO_BITS, ZERO_BITS, ZERO_BITS, ZERO_BITS, ONE_BITS, ZERO_BITS,
        ]);
        assert(pow2(1) == 2);
    }
    let ghost s = sim.amps();
    let ghost ids = Seq::new(qs@.len() as nat, |k: int| sim.mapping()[qs@[k]]);
    proof {
        assert(ids.len() == 1 && ids[0] == 0);
        lemma_zero_state_trace(s, ids, zero_projector@, AMP_ONE);
        lemma_zero_state_trace(s, ids, one_projector@, AMP_ZERO);
        assert(crate::naive::zero_basis_single_assert(s, qs@, zero_projector@));
        assert(crate::naive::zero_basis_single_assert(s, qs@, one_projector@));
    }
    let v0 = sim.assert_subspace(&qs, &zero_projector);
    proof {
        assert(v0 is Ok);
        assert(v0 == Ok::<bool, SimError>(true));
    }
    let v1 = sim.assert_subspace(&qs, &one_projector);
    proof {
        assert(v1 is Ok);
        assert(v1 == Ok::<bool, SimError>(false));
    }
}

/// Evaluate the reduced-density-matrix trace of a one-qubit projector
/// against the exact zero state, given the pinned constant arithmetic:
/// the trace equals the projector's upper-left entry.
proof fn lemma_zero_state_trace(s: Seq<Amp>, ids: Seq<usize>, sp: Seq<u64>, expect: Amp)
    requires
        s =~= seq![AMP_ONE, AMP_ZERO],
        ids.len() == 1 && ids[0] == 0,
        sp.len() == 8,
        (sp[0], sp[1]) == expect,
        expect == AMP_ONE || expect == AMP_ZERO,
        sp[2] == ZERO_BITS && sp[3] == ZERO_BITS && sp[4] == ZERO_BITS && sp[5] == ZERO_BITS
            && sp[7] == ZERO_BITS,
        sp[6] == ZERO_BITS || sp[6] == ONE_BITS,
        crate::amp::c_conj(AMP_ONE) == (ONE_BITS, crate::amp::SIGN_BIT),
        crate::amp::c_conj(AMP_ZERO) == (ZERO_BITS, crate::amp::SIGN_BIT),
        crate::amp::c_mul(AMP_ONE, (ONE_BITS, crate::amp::SIGN_BIT)) == AMP_ONE,
        crate::amp::c_mul(AMP_ONE, (ZERO_BITS, crate::amp::SIGN_BIT)) == AMP_ZERO,
        crate::amp::c_mul(AMP_ZERO, (ONE_BITS, crate::amp::SIGN_BIT)) == AMP_ZERO,
        crate::amp::c_mul(AMP_ZERO, (ZERO_BITS, crate::amp::SIGN_BIT)) == AMP_ZERO,
        crate::amp::c_mul(AMP_ONE, AMP_ONE) == AMP_ONE,
        crate::amp::c_mul(AMP_ONE, AMP_ZERO) == AMP_ZERO,
        crate::amp::c_mul(AMP_ZERO, AMP_ONE) == AMP_ZERO,
        crate::amp::c_mul(AMP_ZERO, AMP_ZERO) == AMP_ZERO,
        crate::amp::c_add(AMP_ZERO, AMP_ZERO) == AMP_ZERO,
        crate::amp::c_add(AMP_ZERO, AMP_ONE) == AMP_ONE,
        crate::amp::c_add(AMP_ONE, AMP_ZERO) == AMP_ONE,
        ((0usize >> 0usize) & 1) == 0,
        ((1usize >> 0usize) & 1) == 1,
        ((0usize) << 0usize) == 0,
        ((1usize) << 0usize) == 1,
    ensures
        crate::naive::assert_trace(s, ids, 2usize, sp) == expect,
{
    assert(crate::naive::subset_row(0usize, ids, 0) == 0);
    assert(crate::naive::subset_cleared(0usize, ids, 0) == 0);
    assert(crate::naive::subset_row(1usize, ids, 0) == 0);
    assert(crate::naive::subset_cleared(1usize, ids, 0) == 1);
    assert(crate::naive::subset_dual(0usize, 0usize, ids, 0) == 0);
    assert(crate::naive::subset_dual(0usize, 1usize, ids, 0) == 0);
    assert(crate::naive::subset_row(0usize, ids, 1) == 0 && crate::naive::subset_cleared(
        0usize,
        ids,
        1,
    ) == 0);
    assert(crate::naive::subset_row(1usize, ids, 1) == 1 && crate::naive::subset_cleared(
        1usize,
        ids,
        1,
    ) == 0);
    assert(crate::naive::subset_dual(0usize, 0usize, ids, 1) == 0);
    assert(crate::naive::subset_dual(0usize, 1usize, ids, 1) == 1);
    let r0 = crate::naive::rho_acc(s, ids, 2usize, 0);
    assert(r0.len() == 4 && r0[0] == AMP_ZERO && r0[1] == AMP_ZERO && r0[2] == AMP_ZERO && r0[3]
        == AMP_ZERO);
    assert(crate::naive::rho_after_cols(r0, s, 0usize, ids, 2usize, 0) == r0);
    let r0a = crate::naive::rho_after_cols(r0, s, 0usize, ids, 2usize, 1);
    assert(r0a == r0.update(0, crate::amp::c_add(r0[0], crate::amp::c_mul(s[0],
        crate::amp::c_conj(s[0])))));
    assert(r0a[0] == AMP_ONE && r0a[1] == AMP_ZERO && r0a[2] == AMP_ZERO && r0a[3] == AMP_ZERO
        && r0a.len() == 4);
    let r0b = crate::naive::rho_after_cols(r0, s, 0usize, ids, 2usize, 2);
    assert(r0b == r0a.update(1, crate::amp::c_add(r0a[1], crate::amp::c_mul(s[0],
        crate::amp::c_conj(s[1])))));
    assert(r0b[0] == AMP_ONE && r0b[1] == AMP_ZERO && r0b[2] == AMP_ZERO && r0b[3] == AMP_ZERO
        && r0b.len() == 4);
    assert(crate::naive::rho_acc(s, ids, 2usize, 1) == r0b);
    assert(crate::naive::rho_after_cols(r0b, s, 1usize, ids, 2usize, 0) == r0b);
    let r1a = crate::naive::rho_after_cols(r0b, s, 1usize, ids, 2usize, 1);
    assert(r1a == r0b.update(2, crate::amp::c_add(r0b[2], crate::amp::c_mul(s[1],
        crate::amp::c_conj(s[0])))));
    assert(r1a[0] == AMP_ONE && r1a[1] == AMP_ZERO && r1a[2] == AMP_ZERO && r1a[3] == AMP_ZERO
        && r1a.len() == 4);
    let r1b = crate::naive::rho_after_cols(r0b, s, 1usize, ids, 2usize, 2);
    assert(r1b == r1a.update(3, crate::amp::c_add(r1a[3], crate::amp::c_mul(s[1],
        crate::amp::c_conj(s[1])))));
    assert(r1b[0] == AMP_ONE && r1b[1] == AMP_ZERO && r1b[2] == AMP_ZERO && r1b[3] == AMP_ZERO
        && r1b.len() == 4);
    assert(crate::naive::rho_acc(s, ids, 2usize, 2) == r1b);
    let rho = r1b;
    assert(crate::naive::trace_acc(sp, rho, 0) == AMP_ZERO);
    assert(crate::naive::trace_acc(sp, rho, 1) == crate::amp::c_add(AMP_ZERO, crate::amp::c_mul(
        (sp[0], sp[1]),
        rho[0],
    )));
    assert(crate::naive::trace_acc(sp, rho, 1) == expect);
    assert(crate::naive::trace_acc(sp, rho, 2) == crate::amp::c_add(expect, crate::amp::c_mul(
        (sp[2], sp[3]),
        rho[1],
    )));
    assert(crate::naive::trace_acc(sp, rho, 2) == expect);
    assert(crate::naive::trace_acc(sp, rho, 3) == expect);
    assert((sp[6], sp[7]) == AMP_ZERO || (sp[6], sp[7]) == AMP_ONE);
    assert(crate::amp::c_mul((sp[6], sp[7]), rho[3]) == AMP_ZERO);
    assert(crate::naive::trace_acc(sp, rho, 4) == crate::amp::c_add(expect, AMP_ZERO));
    assert(crate::naive::trace_acc(sp, rho, 4) == expect);
    assert(s.len() == 2);
    assert(crate::naive::assert_trace(s, ids, 2usize, sp) == crate::naive::trace_acc(sp,
        crate::naive::rho_acc(s, ids, 2usize, 2), 4));
}

} // verus!