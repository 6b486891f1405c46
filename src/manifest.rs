//! Manifests by `(repository, reference)`, where a reference is a tag or the
//! canonical digest string of the manifest.
use vstd::prelude::*;
use crate::digest::{Digest, sha256_of, canonical, is_digest_string};
use crate::error::ErrorKind;

verus! {

pub type ManifestKey = (Seq<char>, Seq<char>);

pub struct ManifestView {
    pub content: Seq<u8>,
    pub digest: Seq<u8>,
    pub media_type: Seq<char>,
}

#[derive(Debug)]
pub struct Manifest {
    pub content: Vec<u8>,
    pub digest: Digest,
    pub media_type: String,
}

impl View for Manifest {
    type V = ManifestView;

    open spec fn view(&self) -> ManifestView {
        ManifestView { content: self.content@, digest: self.digest@, media_type: self.media_type@ }
    }
}

impl Clone for Manifest {
    fn clone(&self) -> (r: Manifest)
        ensures
            r@ == self@,
    {
        Manifest { content: self.content.clone(), digest: self.digest.clone(), media_type: self.media_type.clone() }
    }
}

struct Entry {
    repository: String,
    reference: String,
    record: Option<Manifest>,
}

/// The manifest that `put` stores for `content`.
pub open spec fn stored_manifest(content: Seq<u8>, media_type: Seq<char>) -> ManifestView {
    ManifestView { content, digest: sha256_of(content), media_type }
}

/// Whether `put` refuses `reference` for `content`: a digest reference must be
/// the digest of the content.
pub open spec fn put_refused(reference: Seq<char>, content: Seq<u8>) -> bool {
    is_digest_string(reference) && reference != canonical(sha256_of(content))
}

pub struct ManifestStore {
    entries: Vec<Entry>,
}

impl ManifestStore {
    closed spec fn key_at(&self, i: int) -> ManifestKey {
        (self.entries@[i].repository@, self.entries@[i].reference@)
    }

    pub closed spec fn has_at(&self, k: ManifestKey, i: int) -> bool {
        0 <= i < self.entries@.len() && self.key_at(i) == k
    }

    /// The stored manifests by `(repository, reference)`.
    pub closed spec fn view(&self) -> Map<ManifestKey, ManifestView> {
        Map::new(
            |k: ManifestKey| exists|i: int| self.has_at(k, i) && self.entries@[i].record is Some,
            |k: ManifestKey| self.entries@[choose|i: int| self.has_at(k, i)].record.unwrap()@,
        )
    }

    /// Keys are unique.
    pub closed spec fn wf(&self) -> bool {
        forall|i: int, j: int|
            0 <= i < self.entries@.len() && 0 <= j < self.entries@.len() && i != j
                ==> self.key_at(i) != self.key_at(j)
    }

    proof fn lemma_at(&self, i: int)
        requires
            self.wf(),
            0 <= i < self.entries@.len(),
        ensures
            self@.contains_key(self.key_at(i)) == self.entries@[i].record is Some,
            self.entries@[i].record is Some ==> self@[self.key_at(i)] == self.entries@[i].record.unwrap()@,
    {
        let k = self.key_at(i);
        assert(self.has_at(k, i));
        let j = choose|j: int| self.has_at(k, j);
        assert(i == j);
        if self@.contains_key(k) {
            let m = choose|m: int| self.has_at(k, m) && self.entries@[m].record is Some;
            assert(m == i);
        }
    }

    /// The view after the entry at `i` changes its record, or after one new
    /// entry is pushed at `i`.
    proof fn lemma_changed(before: &ManifestStore, after: &ManifestStore, i: int)
        requires
            before.wf(),
            0 <= i <= before.entries@.len(),
            i < after.entries@.len(),
            after.entries@.len() == if i == before.entries@.len() { i + 1 } else { before.entries@.len() as int },
            i < before.entries@.len() ==> after.key_at(i) == before.key_at(i),
            i == before.entries@.len() ==> !before@.contains_key(after.key_at(i)),
            i == before.entries@.len() ==> forall|j: int| 0 <= j < i ==> before.key_at(j) != after.key_at(i),
            forall|j: int| 0 <= j < before.entries@.len() && j != i ==> after.entries@[j] == before.entries@[j],
        ensures
            after.wf(),
            after.entries@[i].record matches Some(m) ==> after@ == before@.insert(after.key_at(i), m@),
            after.entries@[i].record is None ==> after@ == before@.remove(after.key_at(i)),
    {
        let k = after.key_at(i);
        assert forall|a: int, b: int|
            0 <= a < after.entries@.len() && 0 <= b < after.entries@.len() && a != b
                implies after.key_at(a) != after.key_at(b) by {
            if a != i { assert(after.key_at(a) == before.key_at(a)); }
            if b != i { assert(after.key_at(b) == before.key_at(b)); }
        }
        let m = match after.entries@[i].record {
            Some(x) => before@.insert(k, x@),
            None => before@.remove(k),
        };
        assert forall|key: ManifestKey| #[trigger] after@.contains_key(key) == m.contains_key(key) by {
            if key == k {
                after.lemma_at(i);
            } else {
                if after@.contains_key(key) {
                    let j = choose|j: int| after.has_at(key, j) && after.entries@[j].record is Some;
                    assert(before.has_at(key, j));
                    before.lemma_at(j);
                }
                if before@.contains_key(key) {
                    let j = choose|j: int| before.has_at(key, j) && before.entries@[j].record is Some;
                    assert(after.has_at(key, j));
                    after.lemma_at(j);
                }
            }
        }
        assert forall|key: ManifestKey| #[trigger] after@.contains_key(key) implies after@[key] == m[key] by {
            if key == k {
                after.lemma_at(i);
            } else {
                let j = choose|j: int| after.has_at(key, j) && after.entries@[j].record is Some;
                after.lemma_at(j);
                assert(before.has_at(key, j));
                before.lemma_at(j);
            }
        }
        assert(after@ =~= m);
    }

    pub fn new() -> (r: ManifestStore)
        ensures
            r.wf(),
            r@ == Map::<ManifestKey, ManifestView>::empty(),
    {
        let r = ManifestStore { entries: Vec::new() };
        assert(r@ =~= Map::<ManifestKey, ManifestView>::empty());
        r
    }

    fn find(&self, repository: &String, reference: &String) -> (r: Option<usize>)
        requires
            self.wf(),
        ensures
            r matches Some(i) ==> i < self.entries@.len() && self.key_at(i as int) == (repository@, reference@),
            r is None ==> forall|j: int| 0 <= j < self.entries@.len() ==> self.key_at(j) != (repository@, reference@),
            r is None ==> !self@.contains_key((repository@, reference@)),
    {
        let mut i: usize = 0;
        while i < self.entries.len()
            invariant
                i <= self.entries@.len(),
                forall|j: int| 0 <= j < i ==> self.key_at(j) != (repository@, reference@),
            decreases self.entries@.len() - i,
        {
            if self.entries[i].repository == *repository && self.entries[i].reference == *reference {
                return Some(i);
            }
            i = i + 1;
        }
        proof {
            if self@.contains_key((repository@, reference@)) {
                let j = choose|j: int| self.has_at((repository@, reference@), j) && self.entries@[j].record is Some;
            }
        }
        None
    }

    fn store(&mut self, repository: &String, reference: &String, record: Option<Manifest>)
        requires
            old(self).wf(),
        ensures
            final(self).wf(),
            record matches Some(m) ==> final(self)@ == old(self)@.insert((repository@, reference@), m@),
            record is None ==> final(self)@ == old(self)@.remove((repository@, reference@)),
    {
        let ghost before = *self;
        match self.find(repository, reference) {
            Some(i) => {
                let mut e = Entry { repository: String::new(), reference: String::new(), record: None };
                self.entries.set_and_swap(i, &mut e);
                e.record = record;
                self.entries.set_and_swap(i, &mut e);
                proof { ManifestStore::lemma_changed(&before, self, i as int); }
            },
            None => {
                self.entries.push(Entry { repository: repository.clone(), reference: reference.clone(), record });
                proof { ManifestStore::lemma_changed(&before, self, before.entries@.len() as int); }
            },
        }
    }

    /// The manifest stored under `(repository, reference)`, if any.
    pub fn get(&self, repository: &str, reference: &str) -> (r: Option<Manifest>)
        requires
            self.wf(),
        ensures
            r is Some <==> self@.contains_key((repository@, reference@)),
            r matches Some(m) ==> m@ == self@[(repository@, reference@)],
    {
        let repository = repository.to_owned();
        let reference = reference.to_owned();
        match self.find(&repository, &reference) {
            Some(i) => {
                proof { self.lemma_at(i as int); }
                match &self.entries[i].record {
                    Some(m) => Some(m.clone()),
                    None => None,
                }
            },
            None => None,
        }
    }

    /// Stores `content` under `(repository, reference)` and under
    /// `(repository, its digest string)`, replacing what was there, and returns
    /// its digest. A digest reference that is not the content's digest fails
    /// with `DigestInvalid` and changes nothing.
    pub fn put(&mut self, repository: &str, reference: &str, content: Vec<u8>, media_type: &str) -> (r: Result<Digest, ErrorKind>)
        requires
            old(self).wf(),
        ensures
            final(self).wf(),
            r is Err <==> put_refused(reference@, content@),
            r matches Err(e) ==> e == ErrorKind::DigestInvalid && final(self)@ == old(self)@,
            r matches Ok(d) ==> d@ == sha256_of(content@) && final(self)@ == old(self)@
                .insert((repository@, reference@), stored_manifest(content@, media_type@))
                .insert((repository@, canonical(d@)), stored_manifest(content@, media_type@)),
    {
        let d = Digest::of(content.as_slice());
        let ds = d.to_string();
        let reference = reference.to_owned();
        if Digest::is_digest(reference.as_str()) && ds != reference {
            return Err(ErrorKind::DigestInvalid);
        }
        let repository = repository.to_owned();
        let m = Manifest { content, digest: d.clone(), media_type: media_type.to_owned() };
        let m2 = m.clone();
        self.store(&repository, &reference, Some(m));
        self.store(&repository, &ds, Some(m2));
        Ok(d)
    }

    /// Removes the manifest under `(repository, reference)`; `ManifestUnknown`
    /// when there is none.
    pub fn delete(&mut self, repository: &str, reference: &str) -> (r: Result<(), ErrorKind>)
        requires
            old(self).wf(),
        ensures
            final(self).wf(),
            r is Ok <==> old(self)@.contains_key((repository@, reference@)),
            r matches Err(e) ==> e == ErrorKind::ManifestUnknown && final(self)@ == old(self)@,
            r is Ok ==> final(self)@ == old(self)@.remove((repository@, reference@)),
    {
        let repository = repository.to_owned();
        let reference = reference.to_owned();
        match self.find(&repository, &reference) {
            Some(i) => {
                proof { self.lemma_at(i as int); }
                if self.entries[i].record.is_none() {
                    return Err(ErrorKind::ManifestUnknown);
                }
                self.store(&repository, &reference, None);
                Ok(())
            },
            None => Err(ErrorKind::ManifestUnknown),
        }
    }
}

} // verus!
