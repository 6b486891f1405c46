use lycaon::catalog::{DeltaOp, Element};
use lycaon::digest::Digest;
use lycaon::error::ErrorKind;
use lycaon::registry::Registry;
use lycaon::routes::{
    check_existing_layer, check_image_manifest, delete_blob, delete_image_manifest, delete_upload,
    err_400, err_404, get_blob, get_catalog, get_image_tags, get_manifest, get_upload_progress,
    get_v2root, patch_blob, post_blob_upload, post_blob_uuid, put_blob, put_image_manifest,
    repository, Response,
};
use lycaon::sync::{reconcile_target, PeerNode, PeerService};

#[test]
fn put_then_list_then_delete() {
    let mut reg = Registry::new(1);
    let d = reg.put_manifest("x", "latest", b"{\"m\":1}".to_vec(), "application/json").unwrap();
    assert_eq!(d, Digest::of(b"{\"m\":1}"));
    assert_eq!(reg.list_tags("x"), vec!["latest".to_string()]);
    assert_eq!(reg.delete_manifest("x", "latest"), Ok(()));
    assert_eq!(reg.list_tags("x"), Vec::<String>::new());
    assert_eq!(reg.delete_manifest("x", "latest"), Err(ErrorKind::ManifestUnknown));
}

#[test]
fn manifest_by_digest_reference() {
    let mut reg = Registry::new(1);
    let content = b"manifest".to_vec();
    let ds = Digest::of(&content).to_string();
    assert!(reg.put_manifest("x", &ds, content.clone(), "t").is_ok());
    let m = reg.manifests.get("x", &ds).unwrap();
    assert_eq!(m.content, content);
    let other = Digest::of(b"other").to_string();
    assert_eq!(reg.put_manifest("x", &other, content, "t"), Err(ErrorKind::DigestInvalid));
    assert!(reg.manifests.get("x", &other).is_none());
    assert_eq!(reg.list_tags("x"), Vec::<String>::new());
}

#[test]
fn tag_push_is_reachable_by_digest_and_overwrites() {
    let mut reg = Registry::new(1);
    let d1 = reg.put_manifest("x", "latest", b"one".to_vec(), "t").unwrap();
    assert_eq!(reg.manifests.get("x", &d1.to_string()).unwrap().content, b"one".to_vec());
    reg.put_manifest("x", "latest", b"two".to_vec(), "t").unwrap();
    assert_eq!(reg.manifests.get("x", "latest").unwrap().content, b"two".to_vec());
    assert_eq!(reg.list_tags("x"), vec!["latest".to_string()]);
}

#[test]
fn outgoing_deltas_replicate_to_a_peer() {
    let mut a = Registry::new(1);
    let mut b = Registry::new(2);
    a.put_manifest("x", "v1", b"m".to_vec(), "t").unwrap();
    let out = a.take_outgoing();
    assert_eq!(out.len(), 2);
    assert!(a.take_outgoing().is_empty());
    let mut svc = PeerService::new();
    let acks = svc.delta_sync_batch(&mut b, &out);
    assert_eq!(acks.len(), 2);
    assert_eq!(svc.received(), 2);
    assert_eq!(b.list_tags("x"), vec!["v1".to_string()]);
    // duplicate delivery changes nothing
    svc.delta_sync(&mut b, &out[0]);
    assert_eq!(b.list_tags("x"), vec!["v1".to_string()]);
}

#[test]
fn reconcile_targets_rotate() {
    let peers = vec![
        PeerNode { host: "a".to_string(), port: 1 },
        PeerNode { host: "b".to_string(), port: 2 },
    ];
    assert_eq!(reconcile_target(&peers, 0), Some(0));
    assert_eq!(reconcile_target(&peers, 3), Some(1));
    assert_eq!(reconcile_target(&Vec::new(), 3), None);
}

fn is_error(r: &Response, kind: ErrorKind) -> bool {
    matches!(r, Response::Error(k) if *k == kind)
}

#[test]
fn routes_upload_flow() {
    let mut reg = Registry::new(1);
    assert!(matches!(get_v2root(), Response::Empty));
    let uuid = match post_blob_upload(&mut reg, "lib", "app") {
        Response::Upload { uuid, left: 0, right: 0, .. } => uuid,
        other => panic!("unexpected {:?}", other),
    };
    assert!(matches!(patch_blob(&mut reg, "lib", "app", &uuid, 0, b"abc"), Response::Upload { right: 3, .. }));
    assert!(is_error(&patch_blob(&mut reg, "lib", "app", &uuid, 0, b"abc"), ErrorKind::UploadInvalid));
    assert!(matches!(patch_blob(&mut reg, "lib", "app", &uuid, 3, b"def"), Response::Upload { right: 6, .. }));
    assert!(matches!(get_upload_progress(&reg, "lib", "app", &uuid), Response::Upload { right: 6, .. }));
    let ds = Digest::of(b"abcdef").to_string();
    assert!(is_error(&put_blob(&mut reg, "lib", "app", &uuid, "bad"), ErrorKind::DigestInvalid));
    match put_blob(&mut reg, "lib", "app", &uuid, &ds) {
        Response::Accepted { digest } => assert_eq!(digest, ds),
        other => panic!("unexpected {:?}", other),
    }
    match get_blob(&reg, "lib", "app", &ds) {
        Response::Blob { content } => assert_eq!(content, b"abcdef".to_vec()),
        other => panic!("unexpected {:?}", other),
    }
    assert!(matches!(check_existing_layer(&reg, "lib", "app", &ds), Response::Empty));
    let missing = Digest::of(b"missing").to_string();
    assert!(is_error(&check_existing_layer(&reg, "lib", "app", &missing), ErrorKind::BlobUnknown));
    assert!(is_error(&get_blob(&reg, "lib", "app", &missing), ErrorKind::BlobUnknown));
    assert!(is_error(&get_blob(&reg, "lib", "app", "nope"), ErrorKind::DigestInvalid));
    assert!(is_error(&get_upload_progress(&reg, "lib", "app", "nope"), ErrorKind::UploadUnknown));
    assert!(matches!(delete_upload(&mut reg, "lib", "app", &uuid), Response::Empty));
    assert!(is_error(&delete_upload(&mut reg, "lib", "app", "nope"), ErrorKind::UploadUnknown));
}

#[test]
fn routes_manifest_flow() {
    let mut reg = Registry::new(1);
    assert_eq!(repository("lib", "app"), "lib/app");
    let content = b"{}".to_vec();
    let expected = Digest::of(&content).to_string();
    match put_image_manifest(&mut reg, "lib", "app", "latest", content.clone(), "application/json") {
        Response::Accepted { digest } => assert_eq!(digest, expected),
        other => panic!("unexpected {:?}", other),
    }
    match get_manifest(&reg, "lib", "app", "latest") {
        Response::Manifest { content: c, digest, media_type } => {
            assert_eq!(c, content);
            assert_eq!(digest, expected);
            assert_eq!(media_type, "application/json");
        }
        other => panic!("unexpected {:?}", other),
    }
    match check_image_manifest(&reg, "lib", "app", "latest") {
        Response::ManifestHead { digest, length } => {
            assert_eq!(digest, expected);
            assert_eq!(length, 2);
        }
        other => panic!("unexpected {:?}", other),
    }
    match get_image_tags(&reg, "lib", "app") {
        Response::Tags { name, tags } => {
            assert_eq!(name, "lib/app");
            assert_eq!(tags, vec!["latest".to_string()]);
        }
        other => panic!("unexpected {:?}", other),
    }
    match get_catalog(&reg) {
        Response::Catalog { repositories } => assert_eq!(repositories, vec!["lib/app".to_string()]),
        other => panic!("unexpected {:?}", other),
    }
    assert!(matches!(delete_image_manifest(&mut reg, "lib", "app", "latest"), Response::Empty));
    assert!(is_error(&get_manifest(&reg, "lib", "app", "latest"), ErrorKind::ManifestUnknown));
    assert!(is_error(&check_image_manifest(&reg, "lib", "app", "latest"), ErrorKind::ManifestUnknown));
    assert!(is_error(&delete_image_manifest(&mut reg, "lib", "app", "latest"), ErrorKind::ManifestUnknown));
    match get_image_tags(&reg, "lib", "app") {
        Response::Tags { tags, .. } => assert!(tags.is_empty()),
        other => panic!("unexpected {:?}", other),
    }
}

#[test]
fn routes_unsupported() {
    let reg = Registry::new(1);
    assert!(is_error(&err_400(), ErrorKind::Unsupported));
    assert!(is_error(&err_404(), ErrorKind::Unsupported));
    assert!(is_error(&post_blob_uuid(&reg, "a", "b", "c"), ErrorKind::Unsupported));
    assert!(is_error(&delete_blob(&reg, "a", "b", "c"), ErrorKind::Unsupported));
}

#[test]
fn tags_are_listed_in_order() {
    let mut reg = Registry::new(1);
    for tag in ["v2", "latest", "v10", "alpha", "v1"] {
        reg.put_manifest("x", tag, tag.as_bytes().to_vec(), "t").unwrap();
    }
    assert_eq!(
        reg.list_tags("x"),
        vec!["alpha", "latest", "v1", "v10", "v2"].into_iter().map(String::from).collect::<Vec<_>>()
    );
}

#[test]
fn put_adds_tag_and_digest_elements() {
    let mut reg = Registry::new(4);
    let d = reg.put_manifest("x", "latest", b"m".to_vec(), "t").unwrap();
    assert!(reg.catalog.is_present(&Element::new("x", "latest")));
    assert!(reg.catalog.is_present(&Element::new("x", &d.to_string())));
    let out = reg.take_outgoing();
    assert_eq!(out.len(), 2);
    assert_eq!(out[0].op, DeltaOp::Add);
    assert_eq!(out[0].element.reference, "latest");
    assert_eq!(out[1].element.reference, d.to_string());
    assert_ne!(out[0].tags, out[1].tags);
}

#[test]
fn delete_queues_remove_of_observed_tags() {
    let mut reg = Registry::new(4);
    reg.put_manifest("x", "latest", b"m".to_vec(), "t").unwrap();
    reg.put_manifest("x", "latest", b"n".to_vec(), "t").unwrap();
    let adds = reg.take_outgoing();
    reg.delete_manifest("x", "latest").unwrap();
    let out = reg.take_outgoing();
    assert_eq!(out.len(), 1);
    assert_eq!(out[0].op, DeltaOp::Remove);
    let mut expected = vec![adds[0].tags[0], adds[2].tags[0]];
    let mut got = out[0].tags.clone();
    expected.sort_by_key(|n| n.seq);
    got.sort_by_key(|n| n.seq);
    assert_eq!(got, expected);
}

#[test]
fn upload_routes_after_cancel_report_unknown() {
    let mut reg = Registry::new(1);
    let uuid = match post_blob_upload(&mut reg, "lib", "app") {
        Response::Upload { uuid, name, repo, .. } => {
            assert_eq!(name, "lib");
            assert_eq!(repo, "app");
            uuid
        }
        other => panic!("unexpected {:?}", other),
    };
    assert!(matches!(delete_upload(&mut reg, "lib", "app", &uuid), Response::Empty));
    assert!(matches!(delete_upload(&mut reg, "lib", "app", &uuid), Response::Empty));
    assert!(is_error(&patch_blob(&mut reg, "lib", "app", &uuid, 0, b"a"), ErrorKind::UploadUnknown));
    assert!(is_error(&get_upload_progress(&reg, "lib", "app", &uuid), ErrorKind::UploadUnknown));
    let ds = Digest::of(b"").to_string();
    assert!(is_error(&put_blob(&mut reg, "lib", "app", &uuid, &ds), ErrorKind::UploadUnknown));
}
