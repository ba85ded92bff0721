//! The package lists that rebuilderd publishes, decoded into records.
use crate::verification::{record_views, Outcome, RecordView, VerificationRecord};
use rebuilderd_common::api::v0::{PkgRelease, Status};
use vstd::prelude::*;

verus! {

#[verifier::external_type_specification]
#[verifier::external_body]
pub struct ExJsonError(serde_json::Error);

/// The records that a JSON package list holds, in its order; `None` when
/// the bytes are not such a list.
pub uninterp spec fn release_list(bytes: Seq<u8>) -> Option<Seq<RecordView>>;

/// Why a package list could not be read.
#[derive(Debug, Clone, Copy, PartialEq, Eq, Structural)]
pub enum ListError {
    /// The bytes are not a JSON array of package releases.
    MalformedList,
}

/// Relies on serde_json::from_slice decoding a JSON array of rebuilderd's
/// `PkgRelease` objects: the result depends on the bytes alone. Each
/// release keeps its name, architecture, version and status.
#[verifier::external_body]
fn decode_release_list(buf: &[u8]) -> (r: Result<Vec<VerificationRecord>, serde_json::Error>)
    ensures
        match r {
            Ok(v) => release_list(buf@) == Some(record_views(v@)),
            Err(_) => release_list(buf@) is None,
        },
{
    let list: Vec<PkgRelease> = serde_json::from_slice(buf)?;
    Ok(list.into_iter().map(|p| VerificationRecord {
        name: p.name,
        architecture: p.architecture,
        version: p.version,
        status: match p.status {
            Status::Good => Outcome::Good,
            Status::Bad => Outcome::Bad,
            Status::Unknown => Outcome::Unknown,
        },
    }).collect())
}

/// Reads one endpoint's package list.
pub fn parse_release_list(buf: &[u8]) -> (r: Result<Vec<VerificationRecord>, ListError>)
    ensures
        match r {
            Ok(v) => release_list(buf@) == Some(record_views(v@)),
            Err(e) => release_list(buf@) is None && e == ListError::MalformedList,
        },
{
    match decode_release_list(buf) {
        Ok(v) => Ok(v),
        Err(_) => Err(ListError::MalformedList),
    }
}

} // verus!
