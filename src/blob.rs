//! Immutable, content-addressed blob storage with deduplication.
use vstd::prelude::*;
use crate::digest::{Digest, sha256_of, bytes_equal};

verus! {

pub struct Blob {
    digest: Digest,
    content: Vec<u8>,
}

/// Blobs keyed by their digest; each digest is stored at most once.
pub struct BlobStore {
    blobs: Vec<Blob>,
}

/// What `commit` makes of a store: a digest already present is left as it is.
pub open spec fn commit_spec(m: Map<Seq<u8>, Seq<u8>>, d: Seq<u8>, content: Seq<u8>) -> Map<
    Seq<u8>,
    Seq<u8>,
> {
    if m.contains_key(d) {
        m
    } else {
        m.insert(d, content)
    }
}

impl BlobStore {
    pub closed spec fn has_at(&self, k: Seq<u8>, i: int) -> bool {
        0 <= i < self.blobs@.len() && self.blobs@[i].digest@ == k
    }

    /// The stored blobs: digest to content.
    pub closed spec fn view(&self) -> Map<Seq<u8>, Seq<u8>> {
        Map::new(
            |k: Seq<u8>| exists|i: int| self.has_at(k, i),
            |k: Seq<u8>| self.blobs@[choose|i: int| self.has_at(k, i)].content@,
        )
    }

    /// Digests are unique and each blob is stored under the digest of its content.
    pub closed spec fn wf(&self) -> bool {
        &&& forall|i: int, j: int|
            0 <= i < self.blobs@.len() && 0 <= j < self.blobs@.len() && i != j
                ==> self.blobs@[i].digest@ != self.blobs@[j].digest@
        &&& forall|i: int|
            0 <= i < self.blobs@.len() ==> #[trigger] self.blobs@[i].digest@ == sha256_of(
                self.blobs@[i].content@,
            )
    }

    proof fn lemma_at(&self, i: int)
        requires
            self.wf(),
            0 <= i < self.blobs@.len(),
        ensures
            self.view().contains_key(self.blobs@[i].digest@),
            self.view()[self.blobs@[i].digest@] == self.blobs@[i].content@,
    {
        let k = self.blobs@[i].digest@;
        assert(self.has_at(k, i));
        let j = choose|j: int| self.has_at(k, j);
        assert(i == j);
    }

    pub fn new() -> (r: BlobStore)
        ensures
            r.wf(),
            r@ == Map::<Seq<u8>, Seq<u8>>::empty(),
    {
        let r = BlobStore { blobs: Vec::new() };
        assert(r@ =~= Map::<Seq<u8>, Seq<u8>>::empty());
        r
    }

    fn find(&self, d: &Digest) -> (r: Option<usize>)
        requires
            self.wf(),
        ensures
            r matches Some(i) ==> i < self.blobs@.len() && self.blobs@[i as int].digest@ == d@,
            r is None <==> !self@.contains_key(d@),
    {
        let mut i: usize = 0;
        while i < self.blobs.len()
            invariant
                self.wf(),
                i <= self.blobs@.len(),
                forall|j: int| 0 <= j < i ==> self.blobs@[j].digest@ != d@,
            decreases self.blobs@.len() - i,
        {
            if bytes_equal(&self.blobs[i].digest.bytes, &d.bytes) {
                proof { self.lemma_at(i as int); }
                return Some(i);
            }
            i = i + 1;
        }
        proof {
            if self@.contains_key(d@) {
                let j = choose|j: int| self.has_at(d@, j);
            }
        }
        None
    }

    /// Stores `content` under `digest`; a digest already stored is left untouched.
    pub fn commit(&mut self, digest: Digest, content: Vec<u8>)
        requires
            old(self).wf(),
            digest@ == sha256_of(content@),
        ensures
            final(self).wf(),
            final(self)@ == commit_spec(old(self)@, digest@, content@),
    {
        match self.find(&digest) {
            Some(_) => {},
            None => {
                let ghost before = *self;
                let ghost k = digest@;
                let ghost c = content@;
                self.blobs.push(Blob { digest, content });
                proof {
                    let n = before.blobs@.len() as int;
                    assert(self.has_at(k, n));
                    assert forall|j: int| 0 <= j < n implies self.blobs@[j].digest@ != k by {
                        assert(before.has_at(self.blobs@[j].digest@, j));
                    }
                    assert(self.wf());
                    assert forall|key: Seq<u8>| #[trigger] self@.contains_key(key)
                        == before@.insert(k, c).contains_key(key) by {
                        if key != k && self@.contains_key(key) {
                            let j = choose|j: int| self.has_at(key, j);
                            assert(before.has_at(key, j));
                        }
                        if before@.contains_key(key) {
                            let j = choose|j: int| before.has_at(key, j);
                            assert(self.has_at(key, j));
                        }
                    }
                    assert forall|key: Seq<u8>| #[trigger] self@.contains_key(key)
                        implies self@[key] == before@.insert(k, c)[key] by {
                        if key == k {
                            self.lemma_at(n);
                        } else {
                            let j = choose|j: int| before.has_at(key, j);
                            before.lemma_at(j);
                            assert(self.has_at(key, j));
                            self.lemma_at(j);
                        }
                    }
                    assert(self@ =~= before@.insert(k, c));
                }
            },
        }
    }

    /// Whether a blob with this digest is stored.
    pub fn contains(&self, digest: &Digest) -> (r: bool)
        requires
            self.wf(),
        ensures
            r == self@.contains_key(digest@),
    {
        self.find(digest).is_some()
    }

    /// The stored content for `digest`, or `BlobUnknown`.
    pub fn get(&self, digest: &Digest) -> (r: Option<Vec<u8>>)
        requires
            self.wf(),
        ensures
            r is Some <==> self@.contains_key(digest@),
            r matches Some(c) ==> c@ == self@[digest@],
    {
        match self.find(digest) {
            Some(i) => {
                proof { self.lemma_at(i as int); }
                Some(self.blobs[i].content.clone())
            },
            None => None,
        }
    }

    /// Every stored blob is stored under the digest of its content.
    pub proof fn lemma_content_addressed(&self, k: Seq<u8>)
        requires
            self.wf(),
            self@.contains_key(k),
        ensures
            k == sha256_of(self@[k]),
    {
        let j = choose|j: int| self.has_at(k, j);
        self.lemma_at(j);
    }
}

/// Committing the same content twice, as two sessions racing on identical
/// bytes do, leaves the store as one commit does, with the content stored once
/// under its digest.
pub proof fn lemma_commit_dedup(m: Map<Seq<u8>, Seq<u8>>, content: Seq<u8>)
    ensures
        commit_spec(commit_spec(m, sha256_of(content), content), sha256_of(content), content)
            == commit_spec(m, sha256_of(content), content),
        commit_spec(m, sha256_of(content), content).contains_key(sha256_of(content)),
        commit_spec(m, sha256_of(content), content).dom() == m.dom().insert(sha256_of(content)),
{
    assert(commit_spec(m, sha256_of(content), content).dom() =~= m.dom().insert(sha256_of(content)));
}

} // verus!
