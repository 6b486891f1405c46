//! Delta exchange with peer nodes: applying what peers send, and choosing the
//! peer for each round of anti-entropy.
use vstd::prelude::*;
use crate::catalog::{Delta, DeltaOp, Element, merge_spec, replay};
use crate::registry::{Registry, delta_views};

verus! {

/// The reply to a delta: which operation on which element was applied.
#[derive(Debug)]
pub struct DeltaAck {
    pub op: DeltaOp,
    pub element: Element,
}

/// A peer's address.
#[derive(Debug)]
pub struct PeerNode {
    pub host: String,
    pub port: u16,
}

/// The receiving end of the peer channel; counts the deltas it has applied.
pub struct PeerService {
    counter: u64,
}

impl PeerService {
    pub closed spec fn count(&self) -> u64 {
        self.counter
    }

    pub fn new() -> (r: PeerService)
        ensures
            r.count() == 0,
    {
        PeerService { counter: 0 }
    }

    /// How many deltas have been applied, saturating at `u64::MAX`.
    pub fn received(&self) -> (r: u64)
        ensures
            r == self.count(),
    {
        self.counter
    }

    /// Applies a delta from a peer to the catalog and acknowledges it. Duplicates
    /// and reordered deliveries are safe, as merging is idempotent and commutative.
    pub fn delta_sync(&mut self, reg: &mut Registry, delta: &Delta) -> (r: DeltaAck)
        requires
            old(reg).wf(),
        ensures
            final(reg).wf(),
            final(reg).catalog@ == merge_spec(old(reg).catalog@, delta@),
            final(reg).catalog.node_id() == old(reg).catalog.node_id(),
            final(reg).uploads == old(reg).uploads,
            final(reg).blobs == old(reg).blobs,
            final(reg).manifests == old(reg).manifests,
            final(reg).outbox == old(reg).outbox,
            r.op == delta.op,
            r.element@ == delta.element@,
            final(self).count() == if old(self).count() < u64::MAX { (old(self).count() + 1) as u64 } else { u64::MAX },
    {
        if self.counter < u64::MAX {
            self.counter = self.counter + 1;
        }
        reg.catalog.merge(delta);
        DeltaAck { op: delta.op, element: delta.element.clone() }
    }

    /// Applies a batch of deltas in order, as anti-entropy delivers a peer's
    /// snapshot.
    pub fn delta_sync_batch(&mut self, reg: &mut Registry, deltas: &Vec<Delta>) -> (r: Vec<DeltaAck>)
        requires
            old(reg).wf(),
        ensures
            final(reg).wf(),
            final(reg).catalog@ == replay(old(reg).catalog@, delta_views(deltas@)),
            final(reg).uploads == old(reg).uploads,
            final(reg).blobs == old(reg).blobs,
            final(reg).manifests == old(reg).manifests,
            final(reg).outbox == old(reg).outbox,
            r@.len() == deltas@.len(),
            forall|i: int| 0 <= i < r@.len() ==> #[trigger] r@[i].op == deltas@[i].op && r@[i].element@ == deltas@[i].element@,
    {
        let mut acks: Vec<DeltaAck> = Vec::new();
        let mut i: usize = 0;
        assert(delta_views(deltas@.subrange(0, 0)) =~= Seq::empty());
        while i < deltas.len()
            invariant
                reg.wf(),
                i <= deltas@.len(),
                reg.catalog@ == replay(old(reg).catalog@, delta_views(deltas@.subrange(0, i as int))),
                reg.uploads == old(reg).uploads,
                reg.blobs == old(reg).blobs,
                reg.manifests == old(reg).manifests,
                reg.outbox == old(reg).outbox,
                acks@.len() == i,
                forall|j: int| 0 <= j < i ==> #[trigger] acks@[j].op == deltas@[j].op && acks@[j].element@ == deltas@[j].element@,
            decreases deltas@.len() - i,
        {
            let ack = self.delta_sync(reg, &deltas[i]);
            acks.push(ack);
            proof {
                let pre = delta_views(deltas@.subrange(0, i as int));
                let post = delta_views(deltas@.subrange(0, i + 1));
                assert(post.drop_last() =~= pre);
                assert(post.last() == deltas@[i as int]@);
            }
            i = i + 1;
        }
        assert(deltas@.subrange(0, deltas@.len() as int) =~= deltas@);
        acks
    }
}

/// The peer to reconcile with in anti-entropy round `round`: the peers in turn.
pub fn reconcile_target(peers: &Vec<PeerNode>, round: usize) -> (r: Option<usize>)
    ensures
        peers@.len() == 0 <==> r is None,
        r matches Some(i) ==> i as int == round as int % (peers@.len() as int),
{
    if peers.len() == 0 {
        None
    } else {
        Some(round % peers.len())
    }
}

} // verus!
