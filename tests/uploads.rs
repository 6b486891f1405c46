use lycaon::blob::BlobStore;
use lycaon::digest::Digest;
use lycaon::error::ErrorKind;
use lycaon::upload::{SessionState, UploadStore};

const ABC_SHA256: &str = "sha256:ba7816bf8f01cfea414140de5dae2223b00361a396177a9cb410ff61f20015ad";
const EMPTY_SHA256: &str = "sha256:e3b0c44298fc1c149afbf4c8996fb92427ae41e4649b934ca495991b7852b855";

#[test]
fn digest_of_known_inputs() {
    assert_eq!(Digest::of(b"abc").to_string(), ABC_SHA256);
    assert_eq!(Digest::of(b"").to_string(), EMPTY_SHA256);
    assert_eq!(Digest::of(b"abc").bytes.len(), 32);
}

#[test]
fn digest_parse_round_trip() {
    let d = Digest::parse(ABC_SHA256).unwrap();
    assert_eq!(d, Digest::of(b"abc"));
    assert_eq!(d.to_string(), ABC_SHA256);
    assert!(Digest::is_digest(EMPTY_SHA256));
}

#[test]
fn digest_parse_rejects_malformed() {
    assert!(Digest::parse("latest").is_none());
    assert!(Digest::parse("sha512:ba7816bf8f01cfea414140de5dae2223b00361a396177a9cb410ff61f20015ad").is_none());
    assert!(Digest::parse("sha256:BA7816bf8f01cfea414140de5dae2223b00361a396177a9cb410ff61f20015ad").is_none());
    assert!(Digest::parse("sha256:ba7816bf").is_none());
    assert!(Digest::parse("").is_none());
}

#[test]
fn chunked_upload_then_get() {
    let mut uploads = UploadStore::new();
    let mut blobs = BlobStore::new();
    let id = uploads.begin("library/x", "library").unwrap();
    assert_eq!(id.len(), 36);
    assert_eq!(uploads.progress(&id), Ok(0));
    assert_eq!(uploads.append(&id, 0, b"abc"), Ok(3));
    assert_eq!(uploads.append(&id, 3, b"def"), Ok(6));
    let claimed = Digest::of(b"abcdef");
    let d = uploads.finalize(&id, &claimed, &mut blobs).unwrap();
    assert_eq!(d, claimed);
    assert_eq!(blobs.get(&claimed), Some(b"abcdef".to_vec()));
    assert!(blobs.contains(&claimed));
    assert_eq!(uploads.state(&id), Some(SessionState::Committed));
    assert_eq!(uploads.append(&id, 6, b"g"), Err(ErrorKind::UploadUnknown));
    assert_eq!(uploads.progress(&id), Err(ErrorKind::UploadUnknown));
    assert_eq!(uploads.finalize(&id, &claimed, &mut blobs), Err(ErrorKind::UploadUnknown));
}

#[test]
fn append_out_of_order_is_rejected() {
    let mut uploads = UploadStore::new();
    let id = uploads.begin("r", "n").unwrap();
    assert_eq!(uploads.append(&id, 0, b"abc"), Ok(3));
    assert_eq!(uploads.append(&id, 5, b"gap"), Err(ErrorKind::UploadInvalid));
    assert_eq!(uploads.progress(&id), Ok(3));
    assert_eq!(uploads.append(&id, 1, b"overlap"), Err(ErrorKind::UploadInvalid));
    assert_eq!(uploads.progress(&id), Ok(3));
    assert_eq!(uploads.append(&id, 3, b"d"), Ok(4));
}

#[test]
fn unknown_session_is_reported() {
    let mut uploads = UploadStore::new();
    let mut blobs = BlobStore::new();
    assert_eq!(uploads.append("nope", 0, b"a"), Err(ErrorKind::UploadUnknown));
    assert_eq!(uploads.progress("nope"), Err(ErrorKind::UploadUnknown));
    assert_eq!(uploads.cancel("nope"), Err(ErrorKind::UploadUnknown));
    assert_eq!(
        uploads.finalize("nope", &Digest::of(b""), &mut blobs),
        Err(ErrorKind::UploadUnknown)
    );
}

#[test]
fn wrong_digest_then_retry_succeeds() {
    let mut uploads = UploadStore::new();
    let mut blobs = BlobStore::new();
    let id = uploads.begin("r", "n").unwrap();
    uploads.append(&id, 0, b"payload").unwrap();
    let wrong = Digest::of(b"something else");
    assert_eq!(uploads.finalize(&id, &wrong, &mut blobs), Err(ErrorKind::DigestInvalid));
    assert_eq!(uploads.state(&id), Some(SessionState::Finalizing));
    assert_eq!(uploads.progress(&id), Ok(7));
    assert_eq!(uploads.append(&id, 7, b"more"), Err(ErrorKind::UploadInvalid));
    assert!(!blobs.contains(&wrong));
    let right = Digest::of(b"payload");
    assert_eq!(uploads.finalize(&id, &right, &mut blobs), Ok(right.clone()));
    assert_eq!(blobs.get(&right), Some(b"payload".to_vec()));
}

#[test]
fn cancel_is_idempotent() {
    let mut uploads = UploadStore::new();
    let mut blobs = BlobStore::new();
    let id = uploads.begin("r", "n").unwrap();
    uploads.append(&id, 0, b"xy").unwrap();
    assert_eq!(uploads.cancel(&id), Ok(()));
    assert_eq!(uploads.state(&id), Some(SessionState::Cancelled));
    assert_eq!(uploads.progress(&id), Err(ErrorKind::UploadUnknown));
    assert_eq!(uploads.cancel(&id), Ok(()));
    assert_eq!(uploads.append(&id, 0, b"z"), Err(ErrorKind::UploadUnknown));
    assert_eq!(
        uploads.finalize(&id, &Digest::of(b""), &mut blobs),
        Err(ErrorKind::UploadUnknown)
    );
    let done = uploads.begin("r", "n").unwrap();
    uploads.finalize(&done, &Digest::of(b""), &mut blobs).unwrap();
    assert_eq!(uploads.cancel(&done), Ok(()));
    assert_eq!(uploads.state(&done), Some(SessionState::Committed));
}

#[test]
fn duplicate_session_id_is_refused() {
    let mut uploads = UploadStore::new();
    assert_eq!(uploads.open_session("s1".to_string(), "r".to_string(), "n".to_string()), Ok(()));
    assert_eq!(
        uploads.open_session("s1".to_string(), "r2".to_string(), "n2".to_string()),
        Err(ErrorKind::UploadInvalid)
    );
}

#[test]
fn concurrent_identical_uploads_store_one_blob() {
    let mut uploads = UploadStore::new();
    let mut blobs = BlobStore::new();
    let a = uploads.begin("r", "n").unwrap();
    let b = uploads.begin("r", "n").unwrap();
    assert_ne!(a, b);
    uploads.append(&a, 0, b"same bytes").unwrap();
    uploads.append(&b, 0, b"same bytes").unwrap();
    let d = Digest::of(b"same bytes");
    assert_eq!(uploads.finalize(&a, &d, &mut blobs), Ok(d.clone()));
    assert_eq!(uploads.finalize(&b, &d, &mut blobs), Ok(d.clone()));
    assert_eq!(blobs.get(&d), Some(b"same bytes".to_vec()));
    assert_eq!(blobs.get(&Digest::of(b"other")), None);
}

#[test]
fn error_codes() {
    assert_eq!(ErrorKind::NameInvalid.code(), "NAME_INVALID");
    assert_eq!(ErrorKind::BlobUnknown.code(), "BLOB_UNKNOWN");
    assert_eq!(ErrorKind::UploadUnknown.code(), "BLOB_UPLOAD_UNKNOWN");
    assert_eq!(ErrorKind::UploadInvalid.code(), "BLOB_UPLOAD_INVALID");
    assert_eq!(ErrorKind::DigestInvalid.code(), "DIGEST_INVALID");
    assert_eq!(ErrorKind::ManifestUnknown.code(), "MANIFEST_UNKNOWN");
    assert_eq!(ErrorKind::Unsupported.code(), "UNSUPPORTED");
}
