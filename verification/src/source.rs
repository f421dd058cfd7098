use vstd::prelude::*;

use crate::text::{has_prefix, spec_has_prefix};

verus! {

/// The URL schemes under which a DEM is read through an object store
/// rather than from the local file system.
pub open spec fn spec_is_remote(text: Seq<char>) -> bool {
    ||| spec_has_prefix(text, "gs://"@)
    ||| spec_has_prefix(text, "s3://"@)
    ||| spec_has_prefix(text, "http://"@)
    ||| spec_has_prefix(text, "https://"@)
}

/// Whether `text` names a remote DEM (`gs://`, `s3://`, `http://` or `https://`).
pub fn is_remote(text: &str) -> (res: bool)
    ensures
        res == spec_is_remote(text@),
{
    has_prefix(text, "gs://") || has_prefix(text, "s3://") || has_prefix(text, "http://")
        || has_prefix(text, "https://")
}

/// Where a DEM is read from.
#[derive(Debug, Clone, PartialEq, Eq)]
pub enum DemSource {
    /// A path on the local file system, as written by the user.
    Local(String),
    /// An object-store URL.
    Url(String),
}

impl DemSource {
    /// Classifies a DEM location: remote URLs by their scheme, anything else
    /// as a local path. The text is kept unchanged.
    pub fn parse(text: &str) -> (res: DemSource)
        ensures
            spec_is_remote(text@) ==> (res matches DemSource::Url(u) && u@ == text@),
            !spec_is_remote(text@) ==> (res matches DemSource::Local(p) && p@ == text@),
    {
        if is_remote(text) {
            DemSource::Url(text.to_owned())
        } else {
            DemSource::Local(text.to_owned())
        }
    }
}

} // verus!
