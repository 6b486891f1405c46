//! The handlers behind the registry's HTTP routes: each takes the request's
//! path parameters and body as plain values and answers with a `Response`.
use vstd::prelude::*;
use crate::blob::commit_spec;
use crate::catalog::{DeltaOp, holds, distinct, present, merge_spec, observed};
use crate::digest::{Digest, canonical, is_digest_string, sha256_of, lemma_canonical_unique};
use crate::error::ErrorKind;
use crate::manifest::{put_refused, stored_manifest};
use crate::order::sorted;
use crate::registry::{Registry, fresh_add};
use crate::upload::{append_spec, finalize_spec, cancel_spec, fresh_session, live};

verus! {

#[derive(Debug)]
pub enum Response {
    Empty,
    Upload { uuid: String, name: String, repo: String, left: usize, right: usize },
    Manifest { content: Vec<u8>, digest: String, media_type: String },
    ManifestHead { digest: String, length: usize },
    Blob { content: Vec<u8> },
    Accepted { digest: String },
    Tags { name: String, tags: Vec<String> },
    Catalog { repositories: Vec<String> },
    Error(ErrorKind),
}

/// The repository that a route's `<name>/<repo>` parameters name.
pub open spec fn repository_of(name: Seq<char>, repo: Seq<char>) -> Seq<char> {
    name + seq!['/'] + repo
}

pub fn repository(name: &str, repo: &str) -> (r: String)
    ensures
        r@ == repository_of(name@, repo@),
{
    let mut s = name.to_owned();
    proof { reveal_strlit("/"); }
    s.append("/");
    s.append(repo);
    s
}

/// Answer to a malformed request.
pub fn err_400() -> (r: Response)
    ensures
        r == Response::Error(ErrorKind::Unsupported),
{
    Response::Error(ErrorKind::Unsupported)
}

/// Answer to a request that no route serves.
pub fn err_404() -> (r: Response)
    ensures
        r == Response::Error(ErrorKind::Unsupported),
{
    Response::Error(ErrorKind::Unsupported)
}

/// `GET /v2`: the registry speaks version 2 of the protocol.
pub fn get_v2root() -> (r: Response)
    ensures
        r is Empty,
{
    Response::Empty
}

/// `GET /v2/<name>/<repo>/manifests/<reference>`.
pub fn get_manifest(reg: &Registry, name: &str, repo: &str, reference: &str) -> (r: Response)
    requires
        reg.wf(),
    ensures
        ({
            let k = (repository_of(name@, repo@), reference@);
            &&& reg.manifests@.contains_key(k) ==> (r matches Response::Manifest { content, digest, media_type }
                && content@ == reg.manifests@[k].content && digest@ == canonical(reg.manifests@[k].digest)
                && media_type@ == reg.manifests@[k].media_type)
            &&& !reg.manifests@.contains_key(k) ==> r == Response::Error(ErrorKind::ManifestUnknown)
        }),
{
    let repository = repository(name, repo);
    match reg.manifests.get(repository.as_str(), reference) {
        Some(m) => Response::Manifest { content: m.content, digest: m.digest.to_string(), media_type: m.media_type },
        None => Response::Error(ErrorKind::ManifestUnknown),
    }
}

/// `HEAD /v2/<name>/<repo>/manifests/<reference>`: the digest and length of
/// the manifest that `get_manifest` would return.
pub fn check_image_manifest(reg: &Registry, name: &str, repo: &str, reference: &str) -> (r: Response)
    requires
        reg.wf(),
    ensures
        ({
            let k = (repository_of(name@, repo@), reference@);
            &&& reg.manifests@.contains_key(k) ==> (r matches Response::ManifestHead { digest, length }
                && digest@ == canonical(reg.manifests@[k].digest) && length == reg.manifests@[k].content.len())
            &&& !reg.manifests@.contains_key(k) ==> r == Response::Error(ErrorKind::ManifestUnknown)
        }),
{
    let repository = repository(name, repo);
    match reg.manifests.get(repository.as_str(), reference) {
        Some(m) => Response::ManifestHead { digest: m.digest.to_string(), length: m.content.len() },
        None => Response::Error(ErrorKind::ManifestUnknown),
    }
}

/// `GET /v2/<name>/<repo>/blobs/<digest>`.
pub fn get_blob(reg: &Registry, name: &str, repo: &str, digest: &str) -> (r: Response)
    requires
        reg.wf(),
    ensures
        !is_digest_string(digest@) ==> r == Response::Error(ErrorKind::DigestInvalid),
        is_digest_string(digest@) ==> {
            let stored = exists|d: Seq<u8>| canonical(d) == digest@ && #[trigger] reg.blobs@.contains_key(d);
            &&& stored ==> (r matches Response::Blob { content } && exists|d: Seq<u8>|
                canonical(d) == digest@ && #[trigger] reg.blobs@.contains_key(d) && content@ == reg.blobs@[d])
            &&& !stored ==> r == Response::Error(ErrorKind::BlobUnknown)
        },
{
    match Digest::parse(digest) {
        None => Response::Error(ErrorKind::DigestInvalid),
        Some(d) => {
            proof { lemma_canonical_unique(d@); }
            match reg.blobs.get(&d) {
                Some(content) => Response::Blob { content },
                None => Response::Error(ErrorKind::BlobUnknown),
            }
        },
    }
}

/// `HEAD /v2/<name>/<repo>/blobs/<digest>`.
pub fn check_existing_layer(reg: &Registry, name: &str, repo: &str, digest: &str) -> (r: Response)
    requires
        reg.wf(),
    ensures
        !is_digest_string(digest@) ==> r == Response::Error(ErrorKind::DigestInvalid),
        is_digest_string(digest@) ==> {
            let stored = exists|d: Seq<u8>| canonical(d) == digest@ && #[trigger] reg.blobs@.contains_key(d);
            &&& stored ==> r is Empty
            &&& !stored ==> r == Response::Error(ErrorKind::BlobUnknown)
        },
{
    match Digest::parse(digest) {
        None => Response::Error(ErrorKind::DigestInvalid),
        Some(d) => {
            proof { lemma_canonical_unique(d@); }
            if reg.blobs.contains(&d) {
                Response::Empty
            } else {
                Response::Error(ErrorKind::BlobUnknown)
            }
        },
    }
}

/// `POST /v2/<name>/<repo>/blobs/uploads`: begins an upload.
pub fn post_blob_upload(reg: &mut Registry, name: &str, repo: &str) -> (r: Response)
    requires
        old(reg).wf(),
    ensures
        final(reg).wf(),
        final(reg).blobs == old(reg).blobs,
        final(reg).manifests == old(reg).manifests,
        final(reg).catalog == old(reg).catalog,
        final(reg).outbox == old(reg).outbox,
        r matches Response::Upload { uuid, name: n, repo: rp, left, right } ==> left == 0 && right == 0
            && n@ == name@ && rp@ == repo@ && uuid@.len() == 36
            && !old(reg).uploads@.contains_key(uuid@)
            && final(reg).uploads@ == old(reg).uploads@.insert(uuid@, fresh_session(repository_of(name@, repo@), name@)),
        r matches Response::Error(e) ==> e == ErrorKind::UploadInvalid && final(reg).uploads@ == old(reg).uploads@
            && exists|k: Seq<char>| k.len() == 36 && old(reg).uploads@.contains_key(k),
        r is Upload || r is Error,
{
    let repository = repository(name, repo);
    match reg.uploads.begin(repository.as_str(), name) {
        Ok(uuid) => Response::Upload { uuid, name: name.to_owned(), repo: repo.to_owned(), left: 0, right: 0 },
        Err(e) => Response::Error(e),
    }
}

/// `POST /v2/<name>/<repo>/blobs/uploads/<uuid>`: not served by this registry.
pub fn post_blob_uuid(reg: &Registry, name: &str, repo: &str, uuid: &str) -> (r: Response)
    ensures
        r == Response::Error(ErrorKind::Unsupported),
{
    Response::Error(ErrorKind::Unsupported)
}

/// `GET /v2/<name>/<repo>/blobs/uploads/<uuid>`: how many bytes the upload holds.
pub fn get_upload_progress(reg: &Registry, name: &str, repo: &str, uuid: &str) -> (r: Response)
    requires
        reg.wf(),
    ensures
        live(reg.uploads@, uuid@) ==> (r matches Response::Upload { uuid: u, name: n, repo: rp, left, right }
            && u@ == uuid@ && n@ == name@ && rp@ == repo@
            && left == 0 && right == reg.uploads@[uuid@].contents.len()),
        !live(reg.uploads@, uuid@) ==> r == Response::Error(ErrorKind::UploadUnknown),
{
    match reg.uploads.progress(uuid) {
        Ok(n) => Response::Upload { uuid: uuid.to_owned(), name: name.to_owned(), repo: repo.to_owned(), left: 0, right: n },
        Err(e) => Response::Error(e),
    }
}

/// `PATCH /v2/<name>/<repo>/blobs/uploads/<uuid>`: appends `chunk` at `start`.
pub fn patch_blob(reg: &mut Registry, name: &str, repo: &str, uuid: &str, start: usize, chunk: &[u8]) -> (r: Response)
    requires
        old(reg).wf(),
    ensures
        final(reg).wf(),
        final(reg).blobs == old(reg).blobs,
        final(reg).manifests == old(reg).manifests,
        final(reg).catalog == old(reg).catalog,
        final(reg).outbox == old(reg).outbox,
        final(reg).uploads@ == append_spec(old(reg).uploads@, uuid@, start as int, chunk@).1,
        r matches Response::Upload { uuid: u, name: n, repo: rp, left, right } ==> left == 0
            && u@ == uuid@ && n@ == name@ && rp@ == repo@
            && append_spec(old(reg).uploads@, uuid@, start as int, chunk@).0 == Ok::<int, ErrorKind>(right as int),
        r matches Response::Error(e) ==> append_spec(old(reg).uploads@, uuid@, start as int, chunk@).0 == Err::<int, ErrorKind>(e),
        r is Upload || r is Error,
{
    match reg.uploads.append(uuid, start, chunk) {
        Ok(n) => Response::Upload { uuid: uuid.to_owned(), name: name.to_owned(), repo: repo.to_owned(), left: 0, right: n },
        Err(e) => Response::Error(e),
    }
}

/// `PUT /v2/<name>/<repo>/blobs/uploads/<uuid>?digest=<digest>`: completes an upload.
pub fn put_blob(reg: &mut Registry, name: &str, repo: &str, uuid: &str, digest: &str) -> (r: Response)
    requires
        old(reg).wf(),
    ensures
        final(reg).wf(),
        final(reg).manifests == old(reg).manifests,
        final(reg).catalog == old(reg).catalog,
        final(reg).outbox == old(reg).outbox,
        !is_digest_string(digest@) ==> r == Response::Error(ErrorKind::DigestInvalid)
            && final(reg).uploads@ == old(reg).uploads@ && final(reg).blobs@ == old(reg).blobs@,
        is_digest_string(digest@) ==> exists|d: Seq<u8>| #![auto] canonical(d) == digest@ && {
            let out = finalize_spec(old(reg).uploads@, uuid@, d);
            &&& final(reg).uploads@ == out.1
            &&& out.0 is Ok ==> (r matches Response::Accepted { digest: s } && s@ == digest@
                && final(reg).blobs@ == commit_spec(old(reg).blobs@, d, old(reg).uploads@[uuid@].contents))
            &&& out.0 matches Err(e) ==> r == Response::Error(e) && final(reg).blobs@ == old(reg).blobs@
        },
{
    match Digest::parse(digest) {
        None => Response::Error(ErrorKind::DigestInvalid),
        Some(d) => {
            match reg.uploads.finalize(uuid, &d, &mut reg.blobs) {
                Ok(_) => Response::Accepted { digest: digest.to_owned() },
                Err(e) => Response::Error(e),
            }
        },
    }
}

/// `DELETE /v2/<name>/<repo>/blobs/uploads/<uuid>`: cancels an upload.
pub fn delete_upload(reg: &mut Registry, name: &str, repo: &str, uuid: &str) -> (r: Response)
    requires
        old(reg).wf(),
    ensures
        final(reg).wf(),
        final(reg).blobs == old(reg).blobs,
        final(reg).manifests == old(reg).manifests,
        final(reg).catalog == old(reg).catalog,
        final(reg).outbox == old(reg).outbox,
        final(reg).uploads@ == cancel_spec(old(reg).uploads@, uuid@).1,
        old(reg).uploads@.contains_key(uuid@) ==> r is Empty,
        !old(reg).uploads@.contains_key(uuid@) ==> r == Response::Error(ErrorKind::UploadUnknown),
{
    match reg.uploads.cancel(uuid) {
        Ok(()) => Response::Empty,
        Err(e) => Response::Error(e),
    }
}

/// `DELETE /v2/<name>/<repo>/blobs/<digest>`: blobs are immutable here.
pub fn delete_blob(reg: &Registry, name: &str, repo: &str, digest: &str) -> (r: Response)
    ensures
        r == Response::Error(ErrorKind::Unsupported),
{
    Response::Error(ErrorKind::Unsupported)
}

/// `PUT /v2/<name>/<repo>/manifests/<reference>`: stores a manifest.
pub fn put_image_manifest(reg: &mut Registry, name: &str, repo: &str, reference: &str, content: Vec<u8>, media_type: &str) -> (r: Response)
    requires
        old(reg).wf(),
    ensures
        final(reg).wf(),
        final(reg).uploads == old(reg).uploads,
        final(reg).blobs == old(reg).blobs,
        put_refused(reference@, content@) ==> r == Response::Error(ErrorKind::DigestInvalid)
            && final(reg).manifests@ == old(reg).manifests@ && final(reg).catalog@ == old(reg).catalog@,
        !put_refused(reference@, content@) ==> (r matches Response::Accepted { digest }
            && digest@ == canonical(sha256_of(content@))
            && final(reg).manifests@ == old(reg).manifests@
                .insert((repository_of(name@, repo@), reference@), stored_manifest(content@, media_type@))
                .insert((repository_of(name@, repo@), canonical(sha256_of(content@))), stored_manifest(content@, media_type@))),
        !put_refused(reference@, content@) && old(reg).catalog.can_stamp()
            ==> present(final(reg).catalog@, (repository_of(name@, repo@), reference@)),
        !put_refused(reference@, content@) && old(reg).catalog.can_stamp_twice() ==> {
            let n0 = old(reg).outbox@.len() as int;
            let first = final(reg).outbox@[n0];
            let k = repository_of(name@, repo@);
            &&& final(reg).outbox@.len() == n0 + 2
            &&& fresh_add(old(reg).catalog@, first, (k, reference@))
            &&& fresh_add(merge_spec(old(reg).catalog@, first@), final(reg).outbox@[n0 + 1], (k, canonical(sha256_of(content@))))
            &&& present(final(reg).catalog@, (k, reference@))
            &&& present(final(reg).catalog@, (k, canonical(sha256_of(content@))))
        },
{
    let repository = repository(name, repo);
    match reg.put_manifest(repository.as_str(), reference, content, media_type) {
        Ok(d) => Response::Accepted { digest: d.to_string() },
        Err(e) => Response::Error(e),
    }
}

/// `GET /v2/_catalog`: the repositories with a present element in the catalog.
pub fn get_catalog(reg: &Registry) -> (r: Response)
    requires
        reg.wf(),
    ensures
        r matches Response::Catalog { repositories } && distinct(repositories@)
            && forall|n: Seq<char>| holds(repositories@, n) <==> exists|t: Seq<char>| present(reg.catalog@, (n, t)),
{
    Response::Catalog { repositories: reg.catalog.repositories() }
}

/// `GET /v2/<name>/<repo>/tags/list`: the present tags, in lexicographic order.
pub fn get_image_tags(reg: &Registry, name: &str, repo: &str) -> (r: Response)
    requires
        reg.wf(),
    ensures
        r matches Response::Tags { name: n, tags: ts } && n@ == repository_of(name@, repo@) && distinct(ts@) && sorted(ts@)
            && forall|t: Seq<char>| #[trigger] holds(ts@, t) <==> (present(reg.catalog@, (repository_of(name@, repo@), t)) && !is_digest_string(t)),
{
    let repository = repository(name, repo);
    let tags = reg.list_tags(repository.as_str());
    Response::Tags { name: repository, tags }
}

/// `DELETE /v2/<name>/<repo>/manifests/<reference>`.
pub fn delete_image_manifest(reg: &mut Registry, name: &str, repo: &str, reference: &str) -> (r: Response)
    requires
        old(reg).wf(),
    ensures
        final(reg).wf(),
        final(reg).uploads == old(reg).uploads,
        final(reg).blobs == old(reg).blobs,
        old(reg).manifests@.contains_key((repository_of(name@, repo@), reference@)) ==> r is Empty
            && final(reg).manifests@ == old(reg).manifests@.remove((repository_of(name@, repo@), reference@))
            && !present(final(reg).catalog@, (repository_of(name@, repo@), reference@))
            && final(reg).outbox@.drop_last() == old(reg).outbox@
            && final(reg).outbox@.last().op == DeltaOp::Remove
            && final(reg).outbox@.last().element@ == (repository_of(name@, repo@), reference@)
            && final(reg).outbox@.last()@.tags == observed(old(reg).catalog@, (repository_of(name@, repo@), reference@))
            && final(reg).catalog@ == merge_spec(old(reg).catalog@, final(reg).outbox@.last()@),
        !old(reg).manifests@.contains_key((repository_of(name@, repo@), reference@))
            ==> r == Response::Error(ErrorKind::ManifestUnknown) && final(reg).manifests@ == old(reg).manifests@
            && final(reg).catalog@ == old(reg).catalog@,
{
    let repository = repository(name, repo);
    match reg.delete_manifest(repository.as_str(), reference) {
        Ok(()) => Response::Empty,
        Err(e) => Response::Error(e),
    }
}

} // verus!
