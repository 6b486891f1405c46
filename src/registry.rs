//! The registry node: upload sessions, blobs, manifests and the replicated
//! catalog, with the deltas that local changes produce for other nodes.
use vstd::prelude::*;
use crate::blob::BlobStore;
use crate::catalog::{Catalog, CatalogView, Delta, DeltaOp, DeltaView, Element, present, replay, merge_spec, holds, distinct, lemma_add_keeps_present, nonce_used, observed};
use crate::digest::{Digest, canonical, is_digest_string, sha256_of};
use crate::error::ErrorKind;
use crate::manifest::{ManifestKey, ManifestStore, ManifestView, put_refused, stored_manifest};
use crate::order::{sorted, sorted_insert, lemma_sorted_distinct};
use crate::upload::{SessionView, UploadStore};

verus! {

pub open spec fn delta_views(ds: Seq<Delta>) -> Seq<DeltaView> {
    ds.map_values(|d: Delta| d@)
}

/// `d` adds `e` under one add-tag that `s` has never seen.
pub open spec fn fresh_add(s: CatalogView, d: Delta, e: (Seq<char>, Seq<char>)) -> bool {
    &&& d.op == DeltaOp::Add
    &&& d.element@ == e
    &&& d.tags@.len() == 1
    &&& !nonce_used(s, d.tags@[0])
}

pub struct Registry {
    pub uploads: UploadStore,
    pub blobs: BlobStore,
    pub manifests: ManifestStore,
    pub catalog: Catalog,
    /// Deltas made here that are still to be sent to the peers.
    pub outbox: Vec<Delta>,
}

impl Registry {
    pub open spec fn wf(&self) -> bool {
        &&& self.uploads.wf()
        &&& self.blobs.wf()
        &&& self.manifests.wf()
        &&& self.catalog.wf()
    }

    /// An empty registry whose catalog stamps adds with `node`.
    pub fn new(node: u64) -> (r: Registry)
        ensures
            r.wf(),
            r.uploads@ == Map::<Seq<char>, SessionView>::empty(),
            r.blobs@ == Map::<Seq<u8>, Seq<u8>>::empty(),
            r.manifests@ == Map::<ManifestKey, ManifestView>::empty(),
            r.catalog@ == crate::catalog::empty_view(),
            r.catalog.node_id() == node,
            r.catalog.can_stamp(),
            r.catalog.can_stamp_twice(),
            r.outbox@.len() == 0,
    {
        Registry {
            uploads: UploadStore::new(),
            blobs: BlobStore::new(),
            manifests: ManifestStore::new(),
            catalog: Catalog::new(node),
            outbox: Vec::new(),
        }
    }

    fn emit_add(&mut self, e: &Element)
        requires
            old(self).wf(),
        ensures
            final(self).wf(),
            final(self).uploads == old(self).uploads,
            final(self).blobs == old(self).blobs,
            final(self).manifests == old(self).manifests,
            final(self).catalog.node_id() == old(self).catalog.node_id(),
            final(self).outbox@.subrange(0, old(self).outbox@.len() as int) == old(self).outbox@,
            final(self).outbox@.len() >= old(self).outbox@.len(),
            final(self).catalog@ == replay(old(self).catalog@,
                delta_views(final(self).outbox@.subrange(old(self).outbox@.len() as int, final(self).outbox@.len() as int))),
            old(self).catalog.can_stamp() ==> present(final(self).catalog@, e@),
            old(self).catalog.can_stamp() ==> final(self).outbox@.len() == old(self).outbox@.len() + 1
                && fresh_add(old(self).catalog@, final(self).outbox@.last(), e@)
                && final(self).catalog@ == merge_spec(old(self).catalog@, final(self).outbox@.last()@),
            !old(self).catalog.can_stamp() ==> final(self).outbox@ == old(self).outbox@
                && final(self).catalog@ == old(self).catalog@,
            old(self).catalog.can_stamp_twice() ==> final(self).catalog.can_stamp(),
            forall|x| present(old(self).catalog@, x) ==> present(final(self).catalog@, x),
    {
        let ghost before = self.catalog@;
        let ghost n0 = self.outbox@.len() as int;
        match self.catalog.local_add(e) {
            Some(d) => {
                let ghost dv = d@;
                self.outbox.push(d);
                proof {
                    let added = self.outbox@.subrange(n0, self.outbox@.len() as int);
                    assert(delta_views(added) =~= seq![dv]);
                    assert(delta_views(added).drop_last() =~= Seq::<DeltaView>::empty());
                    assert(replay(before, Seq::<DeltaView>::empty()) == before);
                    assert(replay(before, delta_views(added)) == merge_spec(replay(before, delta_views(added).drop_last()), dv));
                    assert forall|x| present(before, x) implies present(self.catalog@, x) by {
                        lemma_add_keeps_present(before, dv, x);
                    }
                }
            },
            None => {
                assert(delta_views(self.outbox@.subrange(n0, n0)) =~= Seq::<DeltaView>::empty());
                assert(replay(before, Seq::<DeltaView>::empty()) == before);
            },
        }
        assert(self.outbox@.subrange(0, n0) =~= old(self).outbox@);
    }

    /// Stores a manifest as `ManifestStore::put` does and adds
    /// `(repository, reference)` and `(repository, digest string)` to the
    /// catalog, queueing the deltas for the peers.
    pub fn put_manifest(&mut self, repository: &str, reference: &str, content: Vec<u8>, media_type: &str) -> (r: Result<Digest, ErrorKind>)
        requires
            old(self).wf(),
        ensures
            final(self).wf(),
            final(self).uploads == old(self).uploads,
            final(self).blobs == old(self).blobs,
            r is Err <==> put_refused(reference@, content@),
            r matches Err(e) ==> e == ErrorKind::DigestInvalid && final(self).manifests@ == old(self).manifests@
                && final(self).catalog@ == old(self).catalog@ && final(self).outbox@ == old(self).outbox@,
            r matches Ok(d) ==> d@ == sha256_of(content@) && final(self).manifests@ == old(self).manifests@
                .insert((repository@, reference@), stored_manifest(content@, media_type@))
                .insert((repository@, canonical(d@)), stored_manifest(content@, media_type@)),
            r is Ok && old(self).catalog.can_stamp() ==> present(final(self).catalog@, (repository@, reference@)),
            r matches Ok(d) ==> old(self).catalog.can_stamp_twice() ==> {
                let n0 = old(self).outbox@.len() as int;
                let first = final(self).outbox@[n0];
                &&& final(self).outbox@.len() == n0 + 2
                &&& fresh_add(old(self).catalog@, first, (repository@, reference@))
                &&& fresh_add(merge_spec(old(self).catalog@, first@), final(self).outbox@[n0 + 1], (repository@, canonical(d@)))
                &&& present(final(self).catalog@, (repository@, reference@))
                &&& present(final(self).catalog@, (repository@, canonical(d@)))
            },
            final(self).outbox@.subrange(0, old(self).outbox@.len() as int) == old(self).outbox@,
            final(self).catalog@ == replay(old(self).catalog@,
                delta_views(final(self).outbox@.subrange(old(self).outbox@.len() as int, final(self).outbox@.len() as int))),
    {
        let ghost c0 = self.catalog@;
        let ghost n0 = self.outbox@.len() as int;
        let ghost o0 = self.outbox@;
        match self.manifests.put(repository, reference, content, media_type) {
            Ok(d) => {
                self.emit_add(&Element::new(repository, reference));
                let ghost c1 = self.catalog@;
                let ghost n1 = self.outbox@.len() as int;
                let ghost o1 = self.outbox@;
                let ds = d.to_string();
                self.emit_add(&Element::new(repository, ds.as_str()));
                proof {
                    let all = self.outbox@.subrange(n0, self.outbox@.len() as int);
                    let first = o1.subrange(n0, n1);
                    let second = self.outbox@.subrange(n1, self.outbox@.len() as int);
                    assert(all =~= first + second);
                    assert(self.outbox@.subrange(0, n1) == o1);
                    lemma_replay_concat(c0, delta_views(first), delta_views(second));
                    assert(delta_views(all) =~= delta_views(first) + delta_views(second));
                    assert(self.outbox@.subrange(0, n0) =~= o1.subrange(0, n0));
                    if old(self).catalog.can_stamp_twice() {
                        old(self).catalog.lemma_twice_then_once();
                        assert(o1.len() == n0 + 1);
                        assert(self.outbox@[n0] == o1[n0]);
                        assert(o1.last() == o1[n0]);
                        assert(self.outbox@.last() == self.outbox@[n0 + 1]);
                    }
                }
                Ok(d)
            },
            Err(e) => {
                assert(delta_views(self.outbox@.subrange(n0, n0)) =~= Seq::<DeltaView>::empty());
                assert(replay(c0, Seq::<DeltaView>::empty()) == c0);
                assert(self.outbox@.subrange(0, n0) =~= o0);
                Err(e)
            },
        }
    }

    /// Removes the manifest under `(repository, reference)` and removes that
    /// element from the catalog, covering every add of it seen here.
    /// `ManifestUnknown` when no such manifest is stored.
    pub fn delete_manifest(&mut self, repository: &str, reference: &str) -> (r: Result<(), ErrorKind>)
        requires
            old(self).wf(),
        ensures
            final(self).wf(),
            final(self).uploads == old(self).uploads,
            final(self).blobs == old(self).blobs,
            r is Ok <==> old(self).manifests@.contains_key((repository@, reference@)),
            r matches Err(e) ==> e == ErrorKind::ManifestUnknown && final(self).manifests@ == old(self).manifests@
                && final(self).catalog@ == old(self).catalog@ && final(self).outbox@ == old(self).outbox@,
            r is Ok ==> final(self).manifests@ == old(self).manifests@.remove((repository@, reference@))
                && !present(final(self).catalog@, (repository@, reference@))
                && final(self).outbox@.len() == old(self).outbox@.len() + 1
                && final(self).outbox@.drop_last() == old(self).outbox@
                && final(self).catalog@ == merge_spec(old(self).catalog@, final(self).outbox@.last()@)
                && final(self).outbox@.last().op == DeltaOp::Remove
                && final(self).outbox@.last().element@ == (repository@, reference@)
                && final(self).outbox@.last()@.tags == observed(old(self).catalog@, (repository@, reference@)),
    {
        match self.manifests.delete(repository, reference) {
            Ok(()) => {
                let d = self.catalog.local_remove(&Element::new(repository, reference));
                let ghost o0 = self.outbox@;
                self.outbox.push(d);
                assert(self.outbox@.drop_last() =~= o0);
                Ok(())
            },
            Err(e) => Err(e),
        }
    }

    /// The tags of `repository` present in the catalog, each once and in
    /// lexicographic order; digest references are left out.
    pub fn list_tags(&self, repository: &str) -> (r: Vec<String>)
        requires
            self.wf(),
        ensures
            forall|t: Seq<char>| #[trigger] holds(r@, t) <==> (present(self.catalog@, (repository@, t)) && !is_digest_string(t)),
            sorted(r@),
            distinct(r@),
    {
        let refs = self.catalog.references(repository);
        let mut out: Vec<String> = Vec::new();
        let mut i: usize = 0;
        while i < refs.len()
            invariant
                i <= refs@.len(),
                distinct(refs@),
                sorted(out@),
                forall|t: Seq<char>| #[trigger] holds(out@, t) <==> exists|j: int| 0 <= j < i && #[trigger] refs@[j]@ == t && !is_digest_string(t),
            decreases refs@.len() - i,
        {
            if !Digest::is_digest(refs[i].as_str()) {
                let ghost before = out@;
                let ghost x = refs@[i as int]@;
                assert(!holds(before, x)) by {
                    if holds(before, x) {
                        let j = choose|j: int| 0 <= j < i && #[trigger] refs@[j]@ == x && !is_digest_string(x);
                    }
                }
                sorted_insert(&mut out, refs[i].clone());
                proof {
                    assert forall|t: Seq<char>| #[trigger] holds(out@, t) <==> exists|j: int| 0 <= j < i + 1 && #[trigger] refs@[j]@ == t && !is_digest_string(t) by {
                        if holds(out@, t) && t != x {
                            assert(holds(before, t));
                        }
                        if exists|j: int| 0 <= j < i + 1 && #[trigger] refs@[j]@ == t && !is_digest_string(t) {
                            let j = choose|j: int| 0 <= j < i + 1 && #[trigger] refs@[j]@ == t && !is_digest_string(t);
                            if j < i {
                                assert(holds(before, t));
                            }
                        }
                    }
                }
            } else {
                proof {
                    assert forall|t: Seq<char>| #[trigger] holds(out@, t) <==> exists|j: int| 0 <= j < i + 1 && #[trigger] refs@[j]@ == t && !is_digest_string(t) by {
                        if exists|j: int| 0 <= j < i + 1 && #[trigger] refs@[j]@ == t && !is_digest_string(t) {
                            let j = choose|j: int| 0 <= j < i + 1 && #[trigger] refs@[j]@ == t && !is_digest_string(t);
                            assert(j < i);
                        }
                    }
                }
            }
            i = i + 1;
        }
        proof {
            assert forall|t: Seq<char>| #[trigger] holds(out@, t) <==> (present(self.catalog@, (repository@, t)) && !is_digest_string(t)) by {
                if present(self.catalog@, (repository@, t)) && !is_digest_string(t) {
                    assert(holds(refs@, t));
                    let k = choose|k: int| 0 <= k < refs@.len() && refs@[k]@ == t;
                    assert(refs@[k]@ == t);
                }
                if holds(out@, t) {
                    let j = choose|j: int| 0 <= j < refs@.len() && #[trigger] refs@[j]@ == t && !is_digest_string(t);
                    assert(holds(refs@, t));
                }
            }
            lemma_sorted_distinct(out@);
        }
        out
    }

    /// Hands over the queued deltas and empties the queue.
    pub fn take_outgoing(&mut self) -> (r: Vec<Delta>)
        ensures
            r@ == old(self).outbox@,
            final(self).outbox@.len() == 0,
            final(self).uploads == old(self).uploads,
            final(self).blobs == old(self).blobs,
            final(self).manifests == old(self).manifests,
            final(self).catalog == old(self).catalog,
    {
        let mut out: Vec<Delta> = Vec::new();
        std::mem::swap(&mut out, &mut self.outbox);
        out
    }
}

/// Replaying two runs of deltas one after the other is replaying their concatenation.
pub proof fn lemma_replay_concat(s: CatalogView, a: Seq<DeltaView>, b: Seq<DeltaView>)
    ensures
        replay(s, a + b) == replay(replay(s, a), b),
    decreases b.len(),
{
    if b.len() == 0 {
        assert(a + b =~= a);
    } else {
        assert((a + b).drop_last() =~= a + b.drop_last());
        lemma_replay_concat(s, a, b.drop_last());
    }
}

} // verus!
