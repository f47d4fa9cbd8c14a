//! The process-wide execution context: the active device, the classical
//! mailbox, the entanglement-pending table, the breakpoint registry, and
//! this rank's identity and peer count.
//!
//! A caller serializes access with one lock around the whole context;
//! every operation here performs a bounded state mutation and returns.
//! The blocking rendezvous protocols are built outside from these
//! non-blocking steps: a receive or an entanglement hand-off that is not
//! yet satisfiable reports so and is retried after a pause, holding no
//! lock meanwhile.

use vstd::prelude::*;
use crate::qdevice::{QuantumOp, SimError, QDevice};

verus! {

/// A point-to-point message key: sending rank, receiving rank, tag.
#[derive(Copy, Clone, Eq, PartialEq, Structural, Debug)]
pub struct MsgKey {
    pub sender: i64,
    pub receiver: i64,
    pub tag: i64,
}

/// The value an association list holds under a key, if any.
pub open spec fn assoc_lookup<V>(entries: Seq<(MsgKey, V)>, key: MsgKey) -> Option<V>
    decreases entries.len(),
{
    if entries.len() == 0 {
        None
    } else if entries.last().0 == key {
        Some(entries.last().1)
    } else {
        assoc_lookup(entries.drop_last(), key)
    }
}

/// Whether an association list holds each key at most once.
pub open spec fn assoc_unique<V>(entries: Seq<(MsgKey, V)>) -> bool {
    forall|i: int, j: int|
        0 <= i < j < entries.len() ==> (#[trigger] entries[i]).0 != (#[trigger] entries[j]).0
}

/// A unique association list looks up to the value stored at any
/// position holding the key.
proof fn lemma_assoc_lookup_at<V>(entries: Seq<(MsgKey, V)>, key: MsgKey, t: int)
    requires
        assoc_unique(entries),
        0 <= t < entries.len(),
        entries[t].0 == key,
    ensures
        assoc_lookup(entries, key) == Some(entries[t].1),
    decreases entries.len(),
{
    if t == entries.len() - 1 {
    } else {
        assert(entries.last().0 != key);
        assert(entries.drop_last()[t] == entries[t]);
        lemma_assoc_lookup_at(entries.drop_last(), key, t);
    }
}

/// A key at no position looks up to nothing.
proof fn lemma_assoc_lookup_absent<V>(entries: Seq<(MsgKey, V)>, key: MsgKey)
    requires
        forall|t: int| 0 <= t < entries.len() ==> (#[trigger] entries[t]).0 != key,
    ensures
        assoc_lookup(entries, key) is None,
    decreases entries.len(),
{
    if entries.len() > 0 {
        assert(entries.drop_last() =~= entries.subrange(0, entries.len() - 1));
        lemma_assoc_lookup_absent(entries.drop_last(), key);
    }
}

/// A successful lookup pins some position holding the key.
proof fn lemma_assoc_lookup_some_position<V>(entries: Seq<(MsgKey, V)>, key: MsgKey)
    requires
        assoc_lookup(entries, key) is Some,
    ensures
        exists|i: int|
            0 <= i < entries.len() && (#[trigger] entries[i]).0 == key && entries[i].1
                == assoc_lookup(entries, key)->Some_0,
    decreases entries.len(),
{
    if entries.last().0 == key {
        assert(entries[entries.len() - 1].0 == key);
    } else {
        lemma_assoc_lookup_some_position(entries.drop_last(), key);
        let i = choose|i: int|
            0 <= i < entries.drop_last().len() && (#[trigger] entries.drop_last()[i]).0 == key
                && entries.drop_last()[i].1 == assoc_lookup(entries.drop_last(), key)->Some_0;
        assert(entries[i] == entries.drop_last()[i]);
    }
}

/// A failed lookup means no position holds the key.
proof fn lemma_assoc_lookup_none_absent<V>(entries: Seq<(MsgKey, V)>, key: MsgKey)
    requires
        assoc_lookup(entries, key) is None,
    ensures
        forall|i: int| 0 <= i < entries.len() ==> (#[trigger] entries[i]).0 != key,
    decreases entries.len(),
{
    if entries.len() > 0 {
        lemma_assoc_lookup_none_absent(entries.drop_last(), key);
        assert forall|i: int| 0 <= i < entries.len() implies (#[trigger] entries[i]).0 != key by {
            if i < entries.len() - 1 {
                assert(entries.drop_last()[i] == entries[i]);
            }
        }
    }
}

/// Removing one key's entry leaves every other key's lookup unchanged.
proof fn lemma_assoc_lookup_remove_other<V>(entries: Seq<(MsgKey, V)>, t: int, k2: MsgKey)
    requires
        assoc_unique(entries),
        0 <= t < entries.len(),
        entries[t].0 != k2,
    ensures
        assoc_lookup(entries.remove(t), k2) == assoc_lookup(entries, k2),
{
    let removed = entries.remove(t);
    assert forall|i: int, j: int| 0 <= i < j < removed.len() implies (#[trigger] removed[i]).0 != (
    #[trigger] removed[j]).0 by {
        let oi = if i < t {
            i
        } else {
            i + 1
        };
        let oj = if j < t {
            j
        } else {
            j + 1
        };
        assert(entries[oi] == removed[i]);
        assert(entries[oj] == removed[j]);
    }
    match assoc_lookup(entries, k2) {
        Some(v) => {
            lemma_assoc_lookup_some_position(entries, k2);
            let i = choose|i: int|
                0 <= i < entries.len() && (#[trigger] entries[i]).0 == k2 && entries[i].1 == v;
            let ri = if i < t {
                i
            } else {
                i - 1
            };
            assert(removed[ri] == entries[i]);
            lemma_assoc_lookup_at(removed, k2, ri);
        },
        None => {
            lemma_assoc_lookup_none_absent(entries, k2);
            assert forall|i: int| 0 <= i < removed.len() implies (#[trigger] removed[i]).0
                != k2 by {
                let oi = if i < t {
                    i
                } else {
                    i + 1
                };
                assert(entries[oi] == removed[i]);
            }
            lemma_assoc_lookup_absent(removed, k2);
        },
    }
}

/// Appending one key's entry leaves every other key's lookup unchanged.
proof fn lemma_assoc_lookup_push_other<V>(entries: Seq<(MsgKey, V)>, e: (MsgKey, V), k2: MsgKey)
    requires
        e.0 != k2,
    ensures
        assoc_lookup(entries.push(e), k2) == assoc_lookup(entries, k2),
{
    assert(entries.push(e).drop_last() =~= entries);
}

/// Overwriting one key's entry in place leaves every other key's lookup
/// unchanged.
proof fn lemma_assoc_lookup_update_other<V>(
    entries: Seq<(MsgKey, V)>,
    t: int,
    e: (MsgKey, V),
    k2: MsgKey,
)
    requires
        assoc_unique(entries),
        0 <= t < entries.len(),
        entries[t].0 == e.0,
        e.0 != k2,
    ensures
        assoc_lookup(entries.update(t, e), k2) == assoc_lookup(entries, k2),
{
    let updated = entries.update(t, e);
    assert forall|i: int, j: int| 0 <= i < j < updated.len() implies (#[trigger] updated[i]).0 != (
    #[trigger] updated[j]).0 by {
        assert(entries[i].0 == updated[i].0 && entries[j].0 == updated[j].0);
    }
    match assoc_lookup(entries, k2) {
        Some(v) => {
            lemma_assoc_lookup_some_position(entries, k2);
            let i = choose|i: int|
                0 <= i < entries.len() && (#[trigger] entries[i]).0 == k2 && entries[i].1 == v;
            assert(updated[i] == entries[i]);
            lemma_assoc_lookup_at(updated, k2, i);
        },
        None => {
            lemma_assoc_lookup_none_absent(entries, k2);
            assert forall|i: int| 0 <= i < updated.len() implies (#[trigger] updated[i]).0
                != k2 by {
                assert(updated[i].0 == entries[i].0);
            }
            lemma_assoc_lookup_absent(updated, k2);
        },
    }
}

pub struct ExecutionContext<D: QDevice> {
    device: D,
    mailbox: Vec<(MsgKey, bool)>,
    epr_pending: Vec<(MsgKey, usize)>,
    disabled_bp: Vec<i64>,
    rank: i64,
    np: i64,
}

impl<D: QDevice> ExecutionContext<D> {
    /// The active device.
    pub closed spec fn dev(&self) -> D {
        self.device
    }

    /// Exclusive access to the active device, for dispatching an
    /// operation while the context lock is held.
    pub fn device_mut(&mut self) -> (r: &mut D)
        ensures
            *r == old(self).dev(),
            final(self).dev() == *final(r),
            final(self).mailbox_entries() == old(self).mailbox_entries(),
            final(self).epr_entries() == old(self).epr_entries(),
            final(self).disabled() == old(self).disabled(),
            final(self).spec_rank() == old(self).spec_rank(),
            final(self).spec_np() == old(self).spec_np(),
            old(self).wf() ==> final(self).wf(),
    {
        &mut self.device
    }

    /// Shared access to the active device.
    pub fn device_ref(&self) -> (r: &D)
        ensures
            *r == self.dev(),
    {
        &self.device
    }

    /// The pending classical messages, keyed by sender, receiver and tag.
    pub closed spec fn mailbox_entries(&self) -> Seq<(MsgKey, bool)> {
        self.mailbox@
    }

    /// The local qubit handles awaiting a remote entanglement partner.
    pub closed spec fn epr_entries(&self) -> Seq<(MsgKey, usize)> {
        self.epr_pending@
    }

    /// The breakpoint indices the user has disabled.
    pub closed spec fn disabled(&self) -> Seq<i64> {
        self.disabled_bp@
    }

    /// This process's rank.
    pub closed spec fn spec_rank(&self) -> i64 {
        self.rank
    }

    /// The total peer count.
    pub closed spec fn spec_np(&self) -> i64 {
        self.np
    }

    /// At most one pending value per mailbox key, and at most one pending
    /// partner per rendezvous key.
    pub open spec fn wf(&self) -> bool {
        &&& assoc_unique(self.mailbox_entries())
        &&& assoc_unique(self.epr_entries())
    }

    /// A context over a freshly configured device; lives for the whole
    /// execution.
    pub fn new(device: D, rank: i64, np: i64) -> (r: ExecutionContext<D>)
        ensures
            r.wf(),
            r.dev() == device,
            r.mailbox_entries() == Seq::<(MsgKey, bool)>::empty(),
            r.epr_entries() == Seq::<(MsgKey, usize)>::empty(),
            r.disabled() == Seq::<i64>::empty(),
            r.spec_rank() == rank,
            r.spec_np() == np,
    {
        ExecutionContext {
            device,
            mailbox: Vec::new(),
            epr_pending: Vec::new(),
            disabled_bp: Vec::new(),
            rank,
            np,
        }
    }

    /// This process's rank.
    pub fn get_rank(&self) -> (r: i64)
        ensures
            r == self.spec_rank(),
    {
        self.rank
    }

    /// The total peer count.
    pub fn get_np(&self) -> (r: i64)
        ensures
            r == self.spec_np(),
    {
        self.np
    }

    /// Whether a breakpoint index has been disabled.
    pub fn contains_bp(&self, index: i64) -> (r: bool)
        ensures
            r == self.disabled().contains(index),
    {
        let mut k: usize = 0;
        let mut found = false;
        while k < self.disabled_bp.len()
            invariant
                k <= self.disabled_bp@.len(),
                found == exists|t: int| 0 <= t < k && self.disabled_bp@[t] == index,
            decreases self.disabled_bp@.len() - k,
        {
            if self.disabled_bp[k] == index {
                found = true;
            }
            k = k + 1;
        }
        proof {
            if found {
                assert(self.disabled().contains(index));
            } else if self.disabled().contains(index) {
                let t = choose|t: int|
                    0 <= t < self.disabled().len() && self.disabled()[t] == index;
                assert(false);
            }
        }
        found
    }

    /// Disable a breakpoint index.
    pub fn disable_bp_index(&mut self, index: i64)
        ensures
            final(self).disabled() == old(self).disabled().push(index),
            final(self).dev() == old(self).dev(),
            final(self).mailbox_entries() == old(self).mailbox_entries(),
            final(self).epr_entries() == old(self).epr_entries(),
            final(self).spec_rank() == old(self).spec_rank(),
            final(self).spec_np() == old(self).spec_np(),
            old(self).wf() ==> final(self).wf(),
    {
        self.disabled_bp.push(index);
    }

    /// Find the position of a key in an association list of booleans.
    fn mailbox_find(&self, key: MsgKey) -> (r: Option<usize>)
        ensures
            match r {
                Some(t) => t < self.mailbox_entries().len() && self.mailbox_entries()[t as int].0
                    == key && (self.wf() ==> assoc_lookup(self.mailbox_entries(), key) == Some(
                    self.mailbox_entries()[t as int].1,
                )),
                None => assoc_lookup(self.mailbox_entries(), key) is None,
            },
    {
        let mut k: usize = 0;
        let mut found: Option<usize> = None;
        while k < self.mailbox.len()
            invariant
                k <= self.mailbox@.len(),
                match found {
                    Some(t) => t < k && self.mailbox@[t as int].0 == key,
                    None => forall|t: int| 0 <= t < k ==> (#[trigger] self.mailbox@[t]).0 != key,
                },
            decreases self.mailbox@.len() - k,
        {
            if found.is_none() && self.mailbox[k].0 == key {
                found = Some(k);
            }
            k = k + 1;
        }
        proof {
            match found {
                Some(t) => {
                    if self.wf() {
                        lemma_assoc_lookup_at(self.mailbox@, key, t as int);
                    }
                },
                None => {
                    lemma_assoc_lookup_absent(self.mailbox@, key);
                },
            }
        }
        found
    }

    /// Deposit a classical bit for a peer: at most one value may be
    /// pending per key, so a second send before the first is drained is
    /// a protocol violation.
    pub fn csend(&mut self, sender: i64, receiver: i64, tag: i64, val: bool) -> (r: Result<
        (),
        SimError,
    >)
        requires
            old(self).wf(),
        ensures
            final(self).wf(),
            ({
                let key = MsgKey { sender, receiver, tag };
                if assoc_lookup(old(self).mailbox_entries(), key) is None {
                    r is Ok && final(self).mailbox_entries() == old(self).mailbox_entries().push(
                        (key, val),
                    ) && assoc_lookup(final(self).mailbox_entries(), key) == Some(val)
                } else {
                    r == Err::<(), SimError>(SimError::ProtocolViolation)
                        && final(self).mailbox_entries() == old(self).mailbox_entries()
                }
            }),
            ({
                let key = MsgKey { sender, receiver, tag };
                forall|k2: MsgKey|
                    k2 != key ==> #[trigger] assoc_lookup(final(self).mailbox_entries(), k2)
                        == assoc_lookup(old(self).mailbox_entries(), k2)
            }),
            final(self).dev() == old(self).dev(),
            final(self).epr_entries() == old(self).epr_entries(),
            final(self).disabled() == old(self).disabled(),
            final(self).spec_rank() == old(self).spec_rank(),
            final(self).spec_np() == old(self).spec_np(),
    {
        let key = MsgKey { sender, receiver, tag };
        match self.mailbox_find(key) {
            Some(_) => Err(SimError::ProtocolViolation),
            None => {
                self.mailbox.push((key, val));
                proof {
                    assert(self.mailbox@.drop_last() =~= old(self).mailbox_entries());
                    assert forall|k2: MsgKey| k2 != key implies #[trigger] assoc_lookup(
                        self.mailbox@,
                        k2,
                    ) == assoc_lookup(old(self).mailbox_entries(), k2) by {
                        lemma_assoc_lookup_push_other(
                            old(self).mailbox_entries(),
                            (key, val),
                            k2,
                        );
                    }
                    assert forall|i: int, j: int| 0 <= i < j < self.mailbox@.len() implies (
                    #[trigger] self.mailbox@[i]).0 != (#[trigger] self.mailbox@[j]).0 by {
                        if j == self.mailbox@.len() - 1 {
                            assert(assoc_lookup(old(self).mailbox_entries(), key) is None);
                            if old(self).mailbox_entries()[i].0 == key {
                                lemma_assoc_lookup_at(old(self).mailbox_entries(), key, i);
                            }
                        }
                    }
                }
                Ok(())
            },
        }
    }

    /// Take the classical bit a peer deposited for this rank, if one is
    /// pending; the caller retries after a pause otherwise.
    pub fn crecv_poll(&mut self, sender: i64, receiver: i64, tag: i64) -> (r: Option<bool>)
        requires
            old(self).wf(),
        ensures
            final(self).wf(),
            ({
                let key = MsgKey { sender, receiver, tag };
                match r {
                    Some(v) => assoc_lookup(old(self).mailbox_entries(), key) == Some(v)
                        && assoc_lookup(final(self).mailbox_entries(), key) is None,
                    None => assoc_lookup(old(self).mailbox_entries(), key) is None
                        && final(self).mailbox_entries() == old(self).mailbox_entries(),
                }
            }),
            ({
                let key = MsgKey { sender, receiver, tag };
                forall|k2: MsgKey|
                    k2 != key ==> #[trigger] assoc_lookup(final(self).mailbox_entries(), k2)
                        == assoc_lookup(old(self).mailbox_entries(), k2)
            }),
            final(self).dev() == old(self).dev(),
            final(self).epr_entries() == old(self).epr_entries(),
            final(self).disabled() == old(self).disabled(),
            final(self).spec_rank() == old(self).spec_rank(),
            final(self).spec_np() == old(self).spec_np(),
    {
        let key = MsgKey { sender, receiver, tag };
        match self.mailbox_find(key) {
            Some(t) => {
                let entry = self.mailbox.remove(t);
                proof {
                    assert forall|i: int, j: int| 0 <= i < j < self.mailbox@.len() implies (
                    #[trigger] self.mailbox@[i]).0 != (#[trigger] self.mailbox@[j]).0 by {
                        let oi = if i < t as int {
                            i
                        } else {
                            i + 1
                        };
                        let oj = if j < t as int {
                            j
                        } else {
                            j + 1
                        };
                        assert(old(self).mailbox_entries()[oi] == self.mailbox@[i]);
                        assert(old(self).mailbox_entries()[oj] == self.mailbox@[j]);
                    }
                    assert forall|i: int| 0 <= i < self.mailbox@.len() implies (
                    #[trigger] self.mailbox@[i]).0 != key by {
                        let oi = if i < t as int {
                            i
                        } else {
                            i + 1
                        };
                        assert(old(self).mailbox_entries()[oi] == self.mailbox@[i]);
                    }
                    lemma_assoc_lookup_absent(self.mailbox@, key);
                    assert forall|k2: MsgKey| k2 != key implies #[trigger] assoc_lookup(
                        self.mailbox@,
                        k2,
                    ) == assoc_lookup(old(self).mailbox_entries(), k2) by {
                        lemma_assoc_lookup_remove_other(
                            old(self).mailbox_entries(),
                            t as int,
                            k2,
                        );
                    }
                }
                Some(entry.1)
            },
            None => None,
        }
    }

    /// Find the position of a key in the entanglement-pending table.
    fn epr_find(&self, key: MsgKey) -> (r: Option<usize>)
        ensures
            match r {
                Some(t) => t < self.epr_entries().len() && self.epr_entries()[t as int].0 == key
                    && (self.wf() ==> assoc_lookup(self.epr_entries(), key) == Some(
                    self.epr_entries()[t as int].1,
                )),
                None => assoc_lookup(self.epr_entries(), key) is None,
            },
    {
        let mut k: usize = 0;
        let mut found: Option<usize> = None;
        while k < self.epr_pending.len()
            invariant
                k <= self.epr_pending@.len(),
                match found {
                    Some(t) => t < k && self.epr_pending@[t as int].0 == key,
                    None => forall|t: int|
                        0 <= t < k ==> (#[trigger] self.epr_pending@[t]).0 != key,
                },
            decreases self.epr_pending@.len() - k,
        {
            if found.is_none() && self.epr_pending[k].0 == key {
                found = Some(k);
            }
            k = k + 1;
        }
        proof {
            match found {
                Some(t) => {
                    if self.wf() {
                        lemma_assoc_lookup_at(self.epr_pending@, key, t as int);
                    }
                },
                None => {
                    lemma_assoc_lookup_absent(self.epr_pending@, key);
                },
            }
        }
        found
    }

    /// Record this rank's half of an entangled pair under the rendezvous
    /// key `(proposer, peer, tag)`, replacing any earlier handle under
    /// the same key, and wait for the peer to take it.
    pub fn epr_propose(&mut self, proposer: i64, peer: i64, tag: i64, qubit: usize)
        requires
            old(self).wf(),
        ensures
            final(self).wf(),
            ({
                let key = MsgKey { sender: proposer, receiver: peer, tag };
                &&& assoc_lookup(final(self).epr_entries(), key) == Some(qubit)
                &&& (assoc_lookup(old(self).epr_entries(), key) is None ==> final(self).epr_entries()
                    == old(self).epr_entries().push((key, qubit)))
                &&& (forall|k2: MsgKey|
                    k2 != key ==> #[trigger] assoc_lookup(final(self).epr_entries(), k2)
                        == assoc_lookup(old(self).epr_entries(), k2))
            }),
            final(self).dev() == old(self).dev(),
            final(self).mailbox_entries() == old(self).mailbox_entries(),
            final(self).disabled() == old(self).disabled(),
            final(self).spec_rank() == old(self).spec_rank(),
            final(self).spec_np() == old(self).spec_np(),
    {
        let key = MsgKey { sender: proposer, receiver: peer, tag };
        match self.epr_find(key) {
            Some(t) => {
                self.epr_pending[t] = (key, qubit);
                proof {
                    assert forall|i: int, j: int| 0 <= i < j < self.epr_pending@.len() implies (
                    #[trigger] self.epr_pending@[i]).0 != (#[trigger] self.epr_pending@[j]).0 by {
                        assert(old(self).epr_entries()[i].0 == self.epr_pending@[i].0);
                        assert(old(self).epr_entries()[j].0 == self.epr_pending@[j].0);
                    }
                    lemma_assoc_lookup_at(self.epr_pending@, key, t as int);
                    assert(self.epr_pending@ =~= old(self).epr_entries().update(
                        t as int,
                        (key, qubit),
                    ));
                    assert forall|k2: MsgKey| k2 != key implies #[trigger] assoc_lookup(
                        self.epr_pending@,
                        k2,
                    ) == assoc_lookup(old(self).epr_entries(), k2) by {
                        lemma_assoc_lookup_update_other(
                            old(self).epr_entries(),
                            t as int,
                            (key, qubit),
                            k2,
                        );
                    }
                }
            },
            None => {
                self.epr_pending.push((key, qubit));
                proof {
                    assert(self.epr_pending@.drop_last() =~= old(self).epr_entries());
                    assert forall|i: int, j: int| 0 <= i < j < self.epr_pending@.len() implies (
                    #[trigger] self.epr_pending@[i]).0 != (#[trigger] self.epr_pending@[j]).0 by {
                        if j == self.epr_pending@.len() - 1 {
                            if old(self).epr_entries()[i].0 == key {
                                lemma_assoc_lookup_at(old(self).epr_entries(), key, i);
                            }
                        }
                    }
                    lemma_assoc_lookup_at(self.epr_pending@, key, self.epr_pending@.len() - 1);
                    assert forall|k2: MsgKey| k2 != key implies #[trigger] assoc_lookup(
                        self.epr_pending@,
                        k2,
                    ) == assoc_lookup(old(self).epr_entries(), k2) by {
                        lemma_assoc_lookup_push_other(
                            old(self).epr_entries(),
                            (key, qubit),
                            k2,
                        );
                    }
                }
            },
        }
    }

    /// Whether a proposal under the key `(proposer, peer, tag)` is still
    /// waiting for its peer: the proposer polls until this turns false.
    pub fn epr_proposal_pending(&self, proposer: i64, peer: i64, tag: i64) -> (r: bool)
        requires
            self.wf(),
        ensures
            ({
                let key = MsgKey { sender: proposer, receiver: peer, tag };
                r == (assoc_lookup(self.epr_entries(), key) is Some)
            }),
    {
        let key = MsgKey { sender: proposer, receiver: peer, tag };
        match self.epr_find(key) {
            Some(_) => true,
            None => false,
        }
    }

    /// Take the qubit handle a lower-ranked proposer recorded under the
    /// key `(proposer, this rank, tag)`, removing the entry; the caller
    /// retries after a pause while no proposal is there.
    pub fn epr_take(&mut self, proposer: i64, acceptor: i64, tag: i64) -> (r: Option<usize>)
        requires
            old(self).wf(),
        ensures
            final(self).wf(),
            ({
                let key = MsgKey { sender: proposer, receiver: acceptor, tag };
                match r {
                    Some(h) => assoc_lookup(old(self).epr_entries(), key) == Some(h)
                        && assoc_lookup(final(self).epr_entries(), key) is None,
                    None => assoc_lookup(old(self).epr_entries(), key) is None
                        && final(self).epr_entries() == old(self).epr_entries(),
                }
            }),
            ({
                let key = MsgKey { sender: proposer, receiver: acceptor, tag };
                forall|k2: MsgKey|
                    k2 != key ==> #[trigger] assoc_lookup(final(self).epr_entries(), k2)
                        == assoc_lookup(old(self).epr_entries(), k2)
            }),
            final(self).dev() == old(self).dev(),
            final(self).mailbox_entries() == old(self).mailbox_entries(),
            final(self).disabled() == old(self).disabled(),
            final(self).spec_rank() == old(self).spec_rank(),
            final(self).spec_np() == old(self).spec_np(),
    {
        let key = MsgKey { sender: proposer, receiver: acceptor, tag };
        match self.epr_find(key) {
            Some(t) => {
                let entry = self.epr_pending.remove(t);
                proof {
                    assert forall|i: int, j: int| 0 <= i < j < self.epr_pending@.len() implies (
                    #[trigger] self.epr_pending@[i]).0 != (#[trigger] self.epr_pending@[j]).0 by {
                        let oi = if i < t as int {
                            i
                        } else {
                            i + 1
                        };
                        let oj = if j < t as int {
                            j
                        } else {
                            j + 1
                        };
                        assert(old(self).epr_entries()[oi] == self.epr_pending@[i]);
                        assert(old(self).epr_entries()[oj] == self.epr_pending@[j]);
                    }
                    assert forall|i: int| 0 <= i < self.epr_pending@.len() implies (
                    #[trigger] self.epr_pending@[i]).0 != key by {
                        let oi = if i < t as int {
                            i
                        } else {
                            i + 1
                        };
                        assert(old(self).epr_entries()[oi] == self.epr_pending@[i]);
                    }
                    lemma_assoc_lookup_absent(self.epr_pending@, key);
                    assert forall|k2: MsgKey| k2 != key implies #[trigger] assoc_lookup(
                        self.epr_pending@,
                        k2,
                    ) == assoc_lookup(old(self).epr_entries(), k2) by {
                        lemma_assoc_lookup_remove_other(
                            old(self).epr_entries(),
                            t as int,
                            k2,
                        );
                    }
                }
                Some(entry.1)
            },
            None => None,
        }
    }
}

} // verus!
