//! The registry's error kinds, one per protocol error code.
use vstd::prelude::*;

verus! {

#[derive(Debug, Clone, Copy, PartialEq, Eq, Structural)]
pub enum ErrorKind {
    NameInvalid,
    BlobUnknown,
    UploadUnknown,
    UploadInvalid,
    DigestInvalid,
    ManifestUnknown,
    Unsupported,
}

impl ErrorKind {
    /// The protocol's code for this error.
    pub fn code(&self) -> (r: &'static str)
        ensures
            r@.len() > 0,
    {
        match self {
            ErrorKind::NameInvalid => { proof { reveal_strlit("NAME_INVALID"); } "NAME_INVALID" }
            ErrorKind::BlobUnknown => { proof { reveal_strlit("BLOB_UNKNOWN"); } "BLOB_UNKNOWN" }
            ErrorKind::UploadUnknown => { proof { reveal_strlit("BLOB_UPLOAD_UNKNOWN"); } "BLOB_UPLOAD_UNKNOWN" }
            ErrorKind::UploadInvalid => { proof { reveal_strlit("BLOB_UPLOAD_INVALID"); } "BLOB_UPLOAD_INVALID" }
            ErrorKind::DigestInvalid => { proof { reveal_strlit("DIGEST_INVALID"); } "DIGEST_INVALID" }
            ErrorKind::ManifestUnknown => { proof { reveal_strlit("MANIFEST_UNKNOWN"); } "MANIFEST_UNKNOWN" }
            ErrorKind::Unsupported => { proof { reveal_strlit("UNSUPPORTED"); } "UNSUPPORTED" }
        }
    }
}

} // verus!
