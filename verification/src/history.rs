//! The replication ledger: the append-only byte stream of every replicated
//! write, and the descriptors of the attached replicas with their delivery
//! offsets. The sockets themselves stay with the runtime, keyed by the
//! descriptor ids; the deltas that each write produces are returned to be
//! sent, in attachment order.
use vstd::prelude::*;

use bytes::BytesMut;

use crate::bytebuf::{buf_bytes, buf_extend, buf_len, buf_new, buf_slice};
use crate::resp::copy_range;

verus! {

/// One attached replica: where in the ledger it came in, and how far bytes
/// have been written out to it.
#[derive(Debug, Clone, Copy, PartialEq, Eq, Structural)]
pub struct Replica {
    pub id: u64,
    pub start_offset: usize,
    pub last_offset: usize,
}

impl Replica {
    pub fn new(id: u64, start_offset: usize, last_offset: usize) -> (r: Replica)
        ensures
            r == (Replica { id, start_offset, last_offset }),
    {
        Replica { id, start_offset, last_offset }
    }

    pub fn update_offset(&mut self, offset: usize)
        ensures
            *final(self) == (Replica {
                id: old(self).id,
                start_offset: old(self).start_offset,
                last_offset: offset,
            }),
    {
        self.last_offset = offset;
    }
}

/// The ledger and its replicas, guarded by one lock at the runtime layer.
pub struct History {
    repls: Vec<Replica>,
    write_history: BytesMut,
    next_id: u64,
}

impl History {
    /// The cumulative bytes of every replicated write, in commit order.
    pub closed spec fn ledger(&self) -> Seq<u8> {
        buf_bytes(self.write_history)
    }

    pub closed spec fn replicas(&self) -> Seq<Replica> {
        self.repls@
    }

    /// Every replica window lies inside the ledger.
    pub closed spec fn inv(&self) -> bool {
        forall|i: int|
            0 <= i < self.repls@.len() ==> (#[trigger] self.repls@[i]).start_offset
                <= self.repls@[i].last_offset <= buf_bytes(self.write_history).len()
    }

    pub fn new() -> (r: History)
        ensures
            r.inv(),
            r.ledger() == Seq::<u8>::empty(),
            r.replicas() == Seq::<Replica>::empty(),
    {
        let r = History { repls: Vec::new(), write_history: buf_new(), next_id: 0 };
        proof {
            assert(r.repls@ =~= Seq::<Replica>::empty());
        }
        r
    }

    /// Attach a replica: it starts at the current end of the ledger, with
    /// everything up to here already carried by the snapshot.
    pub fn add_replica(&mut self) -> (id: u64)
        requires
            old(self).inv(),
        ensures
            final(self).inv(),
            final(self).ledger() == old(self).ledger(),
            final(self).replicas() == old(self).replicas().push(
                Replica {
                    id,
                    start_offset: old(self).ledger().len() as usize,
                    last_offset: old(self).ledger().len() as usize,
                },
            ),
    {
        let offset = buf_len(&self.write_history);
        let id = self.next_id;
        if self.next_id < 0xffff_ffff_ffff_ffffu64 {
            self.next_id = self.next_id + 1;
        }
        self.repls.push(Replica::new(id, offset, offset));
        id
    }

    /// Append one write's raw request bytes and produce, for each replica
    /// in attachment order, the ledger bytes it has not yet been sent.
    /// Every replica is then marked as caught up.
    pub fn add_write(&mut self, raw: &[u8]) -> (deltas: Vec<Vec<u8>>)
        requires
            old(self).inv(),
        ensures
            final(self).inv(),
            final(self).ledger() == old(self).ledger() + raw@,
            final(self).replicas().len() == old(self).replicas().len(),
            deltas@.len() == old(self).replicas().len(),
            forall|i: int|
                0 <= i < old(self).replicas().len() ==> {
                    &&& (#[trigger] final(self).replicas()[i]).id == old(self).replicas()[i].id
                    &&& final(self).replicas()[i].start_offset == old(self).replicas()[i].start_offset
                    &&& final(self).replicas()[i].last_offset == final(self).ledger().len()
                },
            forall|i: int|
                0 <= i < old(self).replicas().len() ==> (#[trigger] deltas@[i])@ == final(self).ledger().subrange(
                    old(self).replicas()[i].last_offset as int,
                    final(self).ledger().len() as int,
                ),
    {
        buf_extend(&mut self.write_history, raw);
        let total = buf_len(&self.write_history);
        let data = buf_slice(&self.write_history);
        let n = self.repls.len();
        let ghost pre = self.repls@;
        let mut deltas: Vec<Vec<u8>> = Vec::new();
        let mut i: usize = 0;
        while i < n
            invariant
                0 <= i <= n,
                n == self.repls@.len(),
                total == buf_bytes(self.write_history).len(),
                data@ == buf_bytes(self.write_history),
                pre.len() == n,
                forall|j: int|
                    0 <= j < n ==> (#[trigger] pre[j]).start_offset <= pre[j].last_offset
                        <= total,
                forall|j: int|
                    i <= j < n ==> (#[trigger] self.repls@[j]) == pre[j],
                forall|j: int|
                    0 <= j < i ==> {
                        &&& (#[trigger] self.repls@[j]).id == pre[j].id
                        &&& self.repls@[j].start_offset == pre[j].start_offset
                        &&& self.repls@[j].last_offset == total
                    },
                deltas@.len() == i,
                forall|j: int|
                    0 <= j < i ==> (#[trigger] deltas@[j])@ == data@.subrange(
                        pre[j].last_offset as int,
                        total as int,
                    ),
            decreases n - i,
        {
            let from = self.repls[i].last_offset;
            let delta = copy_range(data, from, total);
            deltas.push(delta);
            let id = self.repls[i].id;
            let start = self.repls[i].start_offset;
            self.repls.set(i, Replica { id, start_offset: start, last_offset: total });
            i += 1;
        }
        deltas
    }

    /// Drop the replica at an index, after its socket failed.
    pub fn drop_replica(&mut self, idx: usize) -> (r: bool)
        requires
            old(self).inv(),
        ensures
            final(self).inv(),
            final(self).ledger() == old(self).ledger(),
            idx < old(self).replicas().len() ==> r && final(self).replicas() == old(self).replicas().subrange(0, idx as int) + old(self).replicas().subrange(
                idx as int + 1,
                old(self).replicas().len() as int,
            ),
            idx >= old(self).replicas().len() ==> !r && final(self).replicas() == old(self).replicas(),
    {
        if idx < self.repls.len() {
            self.repls.remove(idx);
            true
        } else {
            false
        }
    }

    /// How many replicas are attached.
    pub fn replica_count(&self) -> (r: usize)
        ensures
            r == self.replicas().len(),
    {
        self.repls.len()
    }
}

} // verus!

verus! {

impl History {
    /// The attached replicas' ids, in attachment order, aligned with the
    /// deltas that `add_write` returns.
    pub fn replica_ids(&self) -> (r: Vec<u64>)
        ensures
            r@.len() == self.replicas().len(),
            forall|i: int| 0 <= i < r@.len() ==> r@[i] == self.replicas()[i].id,
    {
        let n = self.repls.len();
        let mut out: Vec<u64> = Vec::new();
        let mut i: usize = 0;
        while i < n
            invariant
                0 <= i <= n,
                n == self.repls@.len(),
                out@.len() == i,
                forall|j: int| 0 <= j < i ==> out@[j] == self.repls@[j].id,
            decreases n - i,
        {
            out.push(self.repls[i].id);
            i += 1;
        }
        out
    }
}

} // verus!

verus! {

/// The ordering guarantee of the fan-out: the deltas a surviving replica
/// is sent across consecutive writes concatenate to the exact ledger
/// growth, so it observes every replicated byte once, in commit order.
pub proof fn lemma_fanout_order(w: Seq<u8>, a: int, b: int, c: int)
    requires
        0 <= a <= b <= c <= w.len(),
    ensures
        w.subrange(a, b) + w.subrange(b, c) == w.subrange(a, c),
{
    assert(w.subrange(a, b) + w.subrange(b, c) =~= w.subrange(a, c));
}

} // verus!

verus! {

/// The ledger and the replica descriptors are untouched.
pub open spec fn hist_unchanged(pre: History, post: History) -> bool {
    post.ledger() == pre.ledger() && post.replicas() == pre.replicas()
}

/// The ledger effect of one replicated write: the raw bytes appended, every
/// replica caught up.
pub open spec fn hist_write_effect(pre: History, post: History, raw: Seq<u8>) -> bool {
    &&& post.ledger() == pre.ledger() + raw
    &&& post.replicas().len() == pre.replicas().len()
    &&& forall|i: int|
        0 <= i < pre.replicas().len() ==> {
            &&& (#[trigger] post.replicas()[i]).id == pre.replicas()[i].id
            &&& post.replicas()[i].start_offset == pre.replicas()[i].start_offset
            &&& post.replicas()[i].last_offset == post.ledger().len()
        }
}

/// The deltas of one fan-out: one per replica, in attachment order, each
/// the ledger bytes past that replica's delivery offset.
pub open spec fn deltas_match(deltas: Seq<Vec<u8>>, pre: History, post: History) -> bool {
    &&& deltas.len() == pre.replicas().len()
    &&& forall|i: int|
        0 <= i < pre.replicas().len() ==> (#[trigger] deltas[i])@ == post.ledger().subrange(
            pre.replicas()[i].last_offset as int,
            post.ledger().len() as int,
        )
}

} // verus!
