use vstd::prelude::*;

verus! {

/// What the object store reports after an upload: the content hash and
/// the stored key, plus the image dimensions when it knows them.
pub struct QuUploadResult {
    pub hash: String,
    pub key: String,
    pub w: Option<String>,
    pub h: Option<String>,
}

} // verus!
