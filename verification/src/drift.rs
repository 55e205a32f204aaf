//! Drift detection: compare recorded fingerprints against what is
//! actually observable.
//!
//! Only file resources are checked in this phase: for every converged
//! file entry in a lock whose details carry a string `path` and a string
//! `content_hash`, the path is re-hashed (the surrounding binary reads
//! the filesystem) and any divergence becomes a finding.

use vstd::prelude::*;

use crate::strutil::{str_eq, str_to_string};
use crate::types::{DriftFinding, ParamValue, ResourceLock, ResourceStatus, ResourceType, StateLock};

verus! {

/// What re-hashing a recorded path observed: nothing there, or the
/// fingerprint of the file (or directory) found.
#[derive(Debug, Clone, PartialEq)]
pub enum FileObservation {
    Missing,
    Hashed(String),
}

/// The string bound to `key` in a details bag, if any.
pub open spec fn detail_str(details: Seq<(Seq<char>, ParamValue)>, key: Seq<char>) -> Option<
    Seq<char>,
> {
    match crate::omap::assoc_find(details, key) {
        Some(ParamValue::Str(s)) => Some(s@),
        _ => None,
    }
}

/// Whether a lock entry is subject to file drift checking.
pub open spec fn is_drift_candidate(rl: ResourceLock) -> bool {
    &&& rl.status == ResourceStatus::Converged
    &&& rl.resource_type == ResourceType::File
    &&& detail_str(rl.details@, "path"@) is Some
    &&& detail_str(rl.details@, "content_hash"@) is Some
}

/// The `(id, path, expected hash)` triples a lock submits to checking,
/// in lock order; entries with missing or non-string details are skipped.
pub open spec fn drift_targets_spec(entries: Seq<(Seq<char>, ResourceLock)>) -> Seq<
    (Seq<char>, Seq<char>, Seq<char>),
>
    decreases entries.len(),
{
    if entries.len() == 0 {
        Seq::empty()
    } else {
        drift_targets_spec(entries.drop_last()) + (if is_drift_candidate(entries.last().1) {
            seq![
                (
                    entries.last().0,
                    detail_str(entries.last().1.details@, "path"@)->0,
                    detail_str(entries.last().1.details@, "content_hash"@)->0,
                ),
            ]
        } else {
            Seq::empty()
        })
    }
}

/// Collect the file entries of a lock that drift checking must re-hash:
/// converged file resources with recorded path and content fingerprint.
pub fn drift_targets(lock: &StateLock) -> (r: Vec<(String, String, String)>)
    ensures
        r@.map_values(|t: (String, String, String)| (t.0@, t.1@, t.2@)) == drift_targets_spec(
            lock.resources@,
        ),
{
    let ghost entries = lock.resources@;
    let mut out: Vec<(String, String, String)> = Vec::new();
    let n = lock.resources.len();
    let mut i: usize = 0;
    while i < n
        invariant
            n == entries.len(),
            i <= n,
            entries == lock.resources@,
            out@.map_values(|t: (String, String, String)| (t.0@, t.1@, t.2@)) =~= drift_targets_spec(
                entries.take(i as int),
            ),
        decreases n - i,
    {
        let id = lock.resources.key_at(i);
        let rl = lock.resources.val_at(i);
        let is_converged = match rl.status {
            ResourceStatus::Converged => true,
            _ => false,
        };
        let is_file = match rl.resource_type {
            ResourceType::File => true,
            _ => false,
        };
        if is_converged && is_file {
            let path_opt: Option<String> = match rl.details.get("path") {
                Some(ParamValue::Str(p)) => Some(p.clone()),
                _ => None,
            };
            let hash_opt: Option<String> = match rl.details.get("content_hash") {
                Some(ParamValue::Str(h)) => Some(h.clone()),
                _ => None,
            };
            match (path_opt, hash_opt) {
                (Some(p), Some(h)) => {
                    proof {
                        reveal_strlit("path");
                        reveal_strlit("content_hash");
                    }
                    out.push((id.clone(), p, h));
                },
                _ => {},
            }
        }
        proof {
            reveal_strlit("path");
            reveal_strlit("content_hash");
            assert(entries.take(i + 1).drop_last() =~= entries.take(i as int));
            assert(entries.take(i + 1).last() == entries[i as int]);
            assert(out@.map_values(|t: (String, String, String)| (t.0@, t.1@, t.2@))
                =~= drift_targets_spec(entries.take(i + 1)));
        }
        i += 1;
    }
    proof {
        assert(entries.take(n as int) =~= entries);
    }
    out
}

/// Check one recorded file against what was observed on disk.
pub fn check_file_drift(
    resource_id: &str,
    path: &str,
    expected_hash: &str,
    observed: &FileObservation,
) -> (r: Option<DriftFinding>)
    ensures
        match observed {
            FileObservation::Missing => {
                &&& r is Some
                &&& r->0.resource_id@ == resource_id@
                &&& r->0.resource_type == ResourceType::File
                &&& r->0.expected_hash@ == expected_hash@
                &&& r->0.actual_hash@ == "MISSING"@
                &&& r->0.detail@ == path@ + " does not exist"@
            },
            FileObservation::Hashed(h) => {
                if h@ != expected_hash@ {
                    &&& r is Some
                    &&& r->0.resource_id@ == resource_id@
                    &&& r->0.resource_type == ResourceType::File
                    &&& r->0.expected_hash@ == expected_hash@
                    &&& r->0.actual_hash@ == h@
                    &&& r->0.detail@ == path@ + " content changed"@
                } else {
                    r is None
                }
            },
        },
{
    match observed {
        FileObservation::Missing => {
            let mut detail = str_to_string(path);
            detail.append(" does not exist");
            Some(
                DriftFinding {
                    resource_id: str_to_string(resource_id),
                    resource_type: ResourceType::File,
                    expected_hash: str_to_string(expected_hash),
                    actual_hash: str_to_string("MISSING"),
                    detail,
                },
            )
        },
        FileObservation::Hashed(h) => {
            if !str_eq(h.as_str(), expected_hash) {
                let mut detail = str_to_string(path);
                detail.append(" content changed");
                Some(
                    DriftFinding {
                        resource_id: str_to_string(resource_id),
                        resource_type: ResourceType::File,
                        expected_hash: str_to_string(expected_hash),
                        actual_hash: h.clone(),
                        detail,
                    },
                )
            } else {
                None
            }
        },
    }
}

} // verus!
