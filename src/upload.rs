//! Resumable upload sessions: contiguous chunk appends into scratch storage,
//! then digest verification and hand-off to the blob store.
use vstd::prelude::*;
use crate::blob::{BlobStore, commit_spec};
use crate::digest::{Digest, sha256_of, bytes_equal};
use crate::error::ErrorKind;

verus! {

#[derive(Debug, Clone, Copy, PartialEq, Eq, Structural)]
pub enum SessionState {
    Active,
    Finalizing,
    Committed,
    Cancelled,
}

/// What a session is: its names, the bytes written so far and its state.
pub struct SessionView {
    pub repository: Seq<char>,
    pub name: Seq<char>,
    pub contents: Seq<u8>,
    pub state: SessionState,
}

pub struct UploadSession {
    id: String,
    repository: String,
    name: String,
    contents: Vec<u8>,
    state: SessionState,
}

impl View for UploadSession {
    type V = SessionView;

    closed spec fn view(&self) -> SessionView {
        SessionView {
            repository: self.repository@,
            name: self.name@,
            contents: self.contents@,
            state: self.state,
        }
    }
}

pub open spec fn is_open(state: SessionState) -> bool {
    state == SessionState::Active || state == SessionState::Finalizing
}

/// A session that exists and is neither Committed nor Cancelled; the others
/// are gone for every operation but `cancel`.
pub open spec fn live(v: Map<Seq<char>, SessionView>, id: Seq<char>) -> bool {
    v.contains_key(id) && is_open(v[id].state)
}

pub open spec fn fresh_session(repository: Seq<char>, name: Seq<char>) -> SessionView {
    SessionView { repository, name, contents: Seq::empty(), state: SessionState::Active }
}

/// The outcome and the new sessions of `append(id, start, data)`.
pub open spec fn append_spec(
    v: Map<Seq<char>, SessionView>,
    id: Seq<char>,
    start: int,
    data: Seq<u8>,
) -> (Result<int, ErrorKind>, Map<Seq<char>, SessionView>) {
    if !live(v, id) {
        (Err(ErrorKind::UploadUnknown), v)
    } else if v[id].state != SessionState::Active || start != v[id].contents.len() {
        (Err(ErrorKind::UploadInvalid), v)
    } else {
        let s = v[id];
        let c = s.contents + data;
        (Ok(c.len() as int), v.insert(id, SessionView { contents: c, ..s }))
    }
}

/// The outcome and the new sessions of `finalize(id, claimed)`.
pub open spec fn finalize_spec(
    v: Map<Seq<char>, SessionView>,
    id: Seq<char>,
    claimed: Seq<u8>,
) -> (Result<Seq<u8>, ErrorKind>, Map<Seq<char>, SessionView>) {
    if !live(v, id) {
        (Err(ErrorKind::UploadUnknown), v)
    } else if sha256_of(v[id].contents) != claimed {
        (Err(ErrorKind::DigestInvalid), v.insert(id, SessionView { state: SessionState::Finalizing, ..v[id] }))
    } else {
        (Ok(claimed), v.insert(id, SessionView { state: SessionState::Committed, contents: Seq::empty(), ..v[id] }))
    }
}

/// The outcome and the new sessions of `cancel(id)`.
pub open spec fn cancel_spec(v: Map<Seq<char>, SessionView>, id: Seq<char>) -> (Result<(), ErrorKind>, Map<Seq<char>, SessionView>) {
    if !v.contains_key(id) {
        (Err(ErrorKind::UploadUnknown), v)
    } else if !is_open(v[id].state) {
        (Ok(()), v)
    } else {
        (Ok(()), v.insert(id, SessionView { state: SessionState::Cancelled, contents: Seq::empty(), ..v[id] }))
    }
}

/// Relies on uuid::Uuid::new_v4 and its `Display`: a random version 4 UUID in
/// its hyphenated form, 36 characters.
#[verifier::external_body]
fn new_upload_id() -> (r: String)
    ensures
        r@.len() == 36,
{
    uuid::Uuid::new_v4().to_string()
}

/// The upload sessions, keyed by their unique id.
pub struct UploadStore {
    sessions: Vec<UploadSession>,
}

impl UploadStore {
    pub closed spec fn has_at(&self, k: Seq<char>, i: int) -> bool {
        0 <= i < self.sessions@.len() && self.sessions@[i].id@ == k
    }

    /// The sessions by id.
    pub closed spec fn view(&self) -> Map<Seq<char>, SessionView> {
        Map::new(
            |k: Seq<char>| exists|i: int| self.has_at(k, i),
            |k: Seq<char>| self.sessions@[choose|i: int| self.has_at(k, i)]@,
        )
    }

    /// Session ids are unique.
    pub closed spec fn wf(&self) -> bool {
        forall|i: int, j: int|
            0 <= i < self.sessions@.len() && 0 <= j < self.sessions@.len() && i != j
                ==> self.sessions@[i].id@ != self.sessions@[j].id@
    }

    proof fn lemma_at(&self, i: int)
        requires
            self.wf(),
            0 <= i < self.sessions@.len(),
        ensures
            self@.contains_key(self.sessions@[i].id@),
            self@[self.sessions@[i].id@] == self.sessions@[i]@,
    {
        let k = self.sessions@[i].id@;
        assert(self.has_at(k, i));
        let j = choose|j: int| self.has_at(k, j);
        assert(i == j);
    }

    /// Replacing the session at `i` by one with the same id updates the view at that id.
    proof fn lemma_replaced(before: &UploadStore, after: &UploadStore, i: int)
        requires
            before.wf(),
            0 <= i < before.sessions@.len(),
            after.sessions@.len() == before.sessions@.len(),
            after.sessions@[i].id@ == before.sessions@[i].id@,
            forall|j: int| 0 <= j < before.sessions@.len() && j != i ==> after.sessions@[j] == before.sessions@[j],
        ensures
            after.wf(),
            after@ == before@.insert(before.sessions@[i].id@, after.sessions@[i]@),
    {
        let k = before.sessions@[i].id@;
        assert forall|a: int, b: int|
            0 <= a < after.sessions@.len() && 0 <= b < after.sessions@.len() && a != b
                implies after.sessions@[a].id@ != after.sessions@[b].id@ by {
            assert(before.sessions@[a].id@ == after.sessions@[a].id@);
            assert(before.sessions@[b].id@ == after.sessions@[b].id@);
        }
        let m = before@.insert(k, after.sessions@[i]@);
        assert forall|key: Seq<char>| #[trigger] after@.contains_key(key) == m.contains_key(key) by {
            if after@.contains_key(key) {
                let j = choose|j: int| after.has_at(key, j);
                assert(before.has_at(key, j));
            }
            if before@.contains_key(key) {
                let j = choose|j: int| before.has_at(key, j);
                assert(after.has_at(key, j));
            }
            if key == k {
                assert(after.has_at(key, i));
            }
        }
        assert forall|key: Seq<char>| #[trigger] after@.contains_key(key) implies after@[key] == m[key] by {
            let j = choose|j: int| after.has_at(key, j);
            after.lemma_at(j);
            if key != k {
                assert(before.has_at(key, j));
                before.lemma_at(j);
            } else {
                assert(j == i);
            }
        }
        assert(after@ =~= m);
    }

    pub fn new() -> (r: UploadStore)
        ensures
            r.wf(),
            r@ == Map::<Seq<char>, SessionView>::empty(),
    {
        let r = UploadStore { sessions: Vec::new() };
        assert(r@ =~= Map::<Seq<char>, SessionView>::empty());
        r
    }

    fn find(&self, id: &String) -> (r: Option<usize>)
        requires
            self.wf(),
        ensures
            r matches Some(i) ==> i < self.sessions@.len() && self.sessions@[i as int].id@ == id@,
            r is None <==> !self@.contains_key(id@),
    {
        let mut i: usize = 0;
        while i < self.sessions.len()
            invariant
                self.wf(),
                i <= self.sessions@.len(),
                forall|j: int| 0 <= j < i ==> self.sessions@[j].id@ != id@,
            decreases self.sessions@.len() - i,
        {
            if self.sessions[i].id == *id {
                proof { self.lemma_at(i as int); }
                return Some(i);
            }
            i = i + 1;
        }
        proof {
            if self@.contains_key(id@) {
                let j = choose|j: int| self.has_at(id@, j);
            }
        }
        None
    }

    /// Opens an Active, empty session under `id`; an id already in use is refused
    /// with `UploadInvalid` and nothing changes.
    pub fn open_session(&mut self, id: String, repository: String, name: String) -> (r: Result<(), ErrorKind>)
        requires
            old(self).wf(),
        ensures
            final(self).wf(),
            old(self)@.contains_key(id@) ==> r == Err::<(), ErrorKind>(ErrorKind::UploadInvalid) && final(self)@ == old(self)@,
            !old(self)@.contains_key(id@) ==> r is Ok && final(self)@ == old(self)@.insert(id@, fresh_session(repository@, name@)),
    {
        match self.find(&id) {
            Some(_) => Err(ErrorKind::UploadInvalid),
            None => {
                let ghost before = *self;
                let ghost k = id@;
                let s = UploadSession { id, repository, name, contents: Vec::new(), state: SessionState::Active };
                let ghost sv = s@;
                self.sessions.push(s);
                proof {
                    let n = before.sessions@.len() as int;
                    assert(self.has_at(k, n));
                    assert forall|j: int| 0 <= j < n implies self.sessions@[j].id@ != k by {
                        assert(before.has_at(self.sessions@[j].id@, j));
                    }
                    assert(self.wf());
                    let m = before@.insert(k, sv);
                    assert forall|key: Seq<char>| #[trigger] self@.contains_key(key) == m.contains_key(key) by {
                        if key != k && self@.contains_key(key) {
                            let j = choose|j: int| self.has_at(key, j);
                            assert(before.has_at(key, j));
                        }
                        if before@.contains_key(key) {
                            let j = choose|j: int| before.has_at(key, j);
                            assert(self.has_at(key, j));
                        }
                    }
                    assert forall|key: Seq<char>| #[trigger] self@.contains_key(key) implies self@[key] == m[key] by {
                        if key == k {
                            self.lemma_at(n);
                        } else {
                            let j = choose|j: int| before.has_at(key, j);
                            before.lemma_at(j);
                            assert(self.has_at(key, j));
                            self.lemma_at(j);
                        }
                    }
                    assert(self@ =~= m);
                    assert(sv == fresh_session(sv.repository, sv.name));
                }
                Ok(())
            },
        }
    }

    /// Begins an upload under a fresh random id. Only a clash of that id with a
    /// session already present fails, with `UploadInvalid`.
    pub fn begin(&mut self, repository: &str, name: &str) -> (r: Result<String, ErrorKind>)
        requires
            old(self).wf(),
        ensures
            final(self).wf(),
            r matches Ok(id) ==> id@.len() == 36 && !old(self)@.contains_key(id@)
                && final(self)@ == old(self)@.insert(id@, fresh_session(repository@, name@)),
            r matches Err(e) ==> e == ErrorKind::UploadInvalid && final(self)@ == old(self)@
                && exists|k: Seq<char>| k.len() == 36 && old(self)@.contains_key(k),
    {
        let id = new_upload_id();
        match self.open_session(id.clone(), repository.to_owned(), name.to_owned()) {
            Ok(()) => Ok(id),
            Err(e) => {
                assert(id@.len() == 36 && old(self)@.contains_key(id@));
                Err(e)
            },
        }
    }

    /// The offset of the next byte that `id` expects.
    pub fn progress(&self, id: &str) -> (r: Result<usize, ErrorKind>)
        requires
            self.wf(),
        ensures
            r matches Ok(n) ==> live(self@, id@) && n == self@[id@].contents.len(),
            r is Err ==> !live(self@, id@) && r == Err::<usize, ErrorKind>(ErrorKind::UploadUnknown),
    {
        let id = id.to_owned();
        match self.find(&id) {
            Some(i) => {
                proof { self.lemma_at(i as int); }
                let st = self.sessions[i].state;
                if st != SessionState::Active && st != SessionState::Finalizing {
                    return Err(ErrorKind::UploadUnknown);
                }
                Ok(self.sessions[i].contents.len())
            },
            None => Err(ErrorKind::UploadUnknown),
        }
    }

    /// The state of session `id`, if it exists.
    pub fn state(&self, id: &str) -> (r: Option<SessionState>)
        requires
            self.wf(),
        ensures
            r is Some <==> self@.contains_key(id@),
            r matches Some(s) ==> s == self@[id@].state,
    {
        let id = id.to_owned();
        match self.find(&id) {
            Some(i) => {
                proof { self.lemma_at(i as int); }
                Some(self.sessions[i].state)
            },
            None => None,
        }
    }

    /// Appends `data` at offset `start` of session `id`, which must be Active and
    /// have exactly `start` bytes; returns the new offset. A gap or an overlap
    /// fails with `UploadInvalid` and changes nothing; a session that is unknown,
    /// Committed or Cancelled fails with `UploadUnknown`.
    pub fn append(&mut self, id: &str, start: usize, data: &[u8]) -> (r: Result<usize, ErrorKind>)
        requires
            old(self).wf(),
        ensures
            final(self).wf(),
            final(self)@ == append_spec(old(self)@, id@, start as int, data@).1,
            r matches Ok(n) ==> append_spec(old(self)@, id@, start as int, data@).0 == Ok::<int, ErrorKind>(n as int),
            r matches Err(e) ==> append_spec(old(self)@, id@, start as int, data@).0 == Err::<int, ErrorKind>(e),
    {
        let id = id.to_owned();
        let i = match self.find(&id) {
            Some(i) => i,
            None => { return Err(ErrorKind::UploadUnknown); },
        };
        proof { self.lemma_at(i as int); }
        let st = self.sessions[i].state;
        if st != SessionState::Active && st != SessionState::Finalizing {
            return Err(ErrorKind::UploadUnknown);
        }
        if st != SessionState::Active || self.sessions[i].contents.len() != start {
            return Err(ErrorKind::UploadInvalid);
        }
        let ghost before = *self;
        let mut s = UploadSession {
            id: String::new(),
            repository: String::new(),
            name: String::new(),
            contents: Vec::new(),
            state: SessionState::Cancelled,
        };
        self.sessions.set_and_swap(i, &mut s);
        let mut buf: Vec<u8> = Vec::new();
        std::mem::swap(&mut buf, &mut s.contents);
        let ghost old_contents = buf@;
        let mut k: usize = 0;
        while k < data.len()
            invariant
                k <= data@.len(),
                buf@ == old_contents + data@.subrange(0, k as int),
            decreases data@.len() - k,
        {
            buf.push(data[k]);
            k = k + 1;
            assert(buf@ =~= old_contents + data@.subrange(0, k as int));
        }
        assert(data@.subrange(0, data@.len() as int) =~= data@);
        let n = buf.len();
        s.contents = buf;
        self.sessions.set_and_swap(i, &mut s);
        proof {
            UploadStore::lemma_replaced(&before, self, i as int);
            assert(self.sessions@[i as int]@ == SessionView { contents: old_contents + data@, ..before@[id@] });
        }
        Ok(n)
    }

    /// Verifies the contents of session `id` against `claimed`. On a match the
    /// contents are committed to `blobs` under that digest and the session is
    /// Committed; on a mismatch it fails with `DigestInvalid` and the session
    /// stays Finalizing with its contents kept.
    pub fn finalize(&mut self, id: &str, claimed: &Digest, blobs: &mut BlobStore) -> (r: Result<Digest, ErrorKind>)
        requires
            old(self).wf(),
            old(blobs).wf(),
        ensures
            final(self).wf(),
            final(blobs).wf(),
            final(self)@ == finalize_spec(old(self)@, id@, claimed@).1,
            r matches Ok(d) ==> finalize_spec(old(self)@, id@, claimed@).0 == Ok::<Seq<u8>, ErrorKind>(d@)
                && final(blobs)@ == commit_spec(old(blobs)@, d@, old(self)@[id@].contents),
            r matches Err(e) ==> finalize_spec(old(self)@, id@, claimed@).0 == Err::<Seq<u8>, ErrorKind>(e)
                && final(blobs)@ == old(blobs)@,
    {
        let id = id.to_owned();
        let i = match self.find(&id) {
            Some(i) => i,
            None => { return Err(ErrorKind::UploadUnknown); },
        };
        proof { self.lemma_at(i as int); }
        let st = self.sessions[i].state;
        if st != SessionState::Active && st != SessionState::Finalizing {
            return Err(ErrorKind::UploadUnknown);
        }
        let ghost before = *self;
        let mut s = UploadSession {
            id: String::new(),
            repository: String::new(),
            name: String::new(),
            contents: Vec::new(),
            state: SessionState::Cancelled,
        };
        self.sessions.set_and_swap(i, &mut s);
        let computed = Digest::of(s.contents.as_slice());
        if !bytes_equal(&computed.bytes, &claimed.bytes) {
            s.state = SessionState::Finalizing;
            self.sessions.set_and_swap(i, &mut s);
            proof { UploadStore::lemma_replaced(&before, self, i as int); }
            return Err(ErrorKind::DigestInvalid);
        }
        let mut contents: Vec<u8> = Vec::new();
        std::mem::swap(&mut contents, &mut s.contents);
        blobs.commit(computed.clone(), contents);
        s.state = SessionState::Committed;
        self.sessions.set_and_swap(i, &mut s);
        proof {
            UploadStore::lemma_replaced(&before, self, i as int);
            assert(self.sessions@[i as int]@ == SessionView { state: SessionState::Committed, contents: Seq::empty(), ..before@[id@] });
        }
        Ok(computed)
    }

    /// Cancels session `id` and releases its scratch bytes. Cancelling a session
    /// that is already Cancelled or Committed changes nothing and succeeds.
    pub fn cancel(&mut self, id: &str) -> (r: Result<(), ErrorKind>)
        requires
            old(self).wf(),
        ensures
            final(self).wf(),
            final(self)@ == cancel_spec(old(self)@, id@).1,
            r == cancel_spec(old(self)@, id@).0,
    {
        let id = id.to_owned();
        let i = match self.find(&id) {
            Some(i) => i,
            None => { return Err(ErrorKind::UploadUnknown); },
        };
        proof { self.lemma_at(i as int); }
        let st = self.sessions[i].state;
        if st != SessionState::Active && st != SessionState::Finalizing {
            return Ok(());
        }
        let ghost before = *self;
        let mut s = UploadSession {
            id: String::new(),
            repository: String::new(),
            name: String::new(),
            contents: Vec::new(),
            state: SessionState::Cancelled,
        };
        self.sessions.set_and_swap(i, &mut s);
        s.contents = Vec::new();
        s.state = SessionState::Cancelled;
        self.sessions.set_and_swap(i, &mut s);
        proof {
            UploadStore::lemma_replaced(&before, self, i as int);
            assert(self.sessions@[i as int]@ == SessionView { state: SessionState::Cancelled, contents: Seq::empty(), ..before@[id@] });
        }
        Ok(())
    }
}

/// An append whose start is not the session's offset fails with
/// `UploadInvalid` and leaves every session, its offset included, unchanged.
pub proof fn lemma_append_misaligned(v: Map<Seq<char>, SessionView>, id: Seq<char>, start: int, data: Seq<u8>)
    requires
        live(v, id),
        start != v[id].contents.len(),
    ensures
        append_spec(v, id, start, data) == (Err::<int, ErrorKind>(ErrorKind::UploadInvalid), v),
{
}

/// A finalize with a wrong digest fails with `DigestInvalid`, and a later
/// finalize of the same session with the digest of its contents succeeds.
pub proof fn lemma_finalize_retry(v: Map<Seq<char>, SessionView>, id: Seq<char>, wrong: Seq<u8>)
    requires
        v.contains_key(id),
        is_open(v[id].state),
        wrong != sha256_of(v[id].contents),
    ensures
        finalize_spec(v, id, wrong).0 == Err::<Seq<u8>, ErrorKind>(ErrorKind::DigestInvalid),
        finalize_spec(finalize_spec(v, id, wrong).1, id, sha256_of(v[id].contents)).0
            == Ok::<Seq<u8>, ErrorKind>(sha256_of(v[id].contents)),
{
    let v2 = finalize_spec(v, id, wrong).1;
    assert(v2[id].contents == v[id].contents);
}

/// Two live sessions holding the same bytes both finalize with the digest of
/// those bytes, and the blob store ends with that content stored once under it,
/// as after a single commit.
pub proof fn lemma_two_sessions_one_blob(
    v: Map<Seq<char>, SessionView>,
    blobs: Map<Seq<u8>, Seq<u8>>,
    a: Seq<char>,
    b: Seq<char>,
)
    requires
        live(v, a),
        live(v, b),
        a != b,
        v[a].contents == v[b].contents,
    ensures
        ({
            let c = v[a].contents;
            let d = sha256_of(c);
            let first = finalize_spec(v, a, d);
            let second = finalize_spec(first.1, b, d);
            &&& first.0 == Ok::<Seq<u8>, ErrorKind>(d)
            &&& second.0 == Ok::<Seq<u8>, ErrorKind>(d)
            &&& commit_spec(commit_spec(blobs, d, c), d, v[b].contents) == commit_spec(blobs, d, c)
            &&& commit_spec(blobs, d, c).contains_key(d)
            &&& commit_spec(blobs, d, c).dom() == blobs.dom().insert(d)
        }),
{
    let c = v[a].contents;
    let first = finalize_spec(v, a, sha256_of(c));
    assert(first.1[b] == v[b]);
    assert(commit_spec(blobs, sha256_of(c), c).dom() =~= blobs.dom().insert(sha256_of(c)));
}

} // verus!
