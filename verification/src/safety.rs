//! Deletion-safety checks: protected system paths, in-use files, and
//! size thresholds, plus the bookkeeping of a batch deletion's
//! partial-success result.
//!
//! The checks decide from plain observations (whether the path
//! exists, whether a process uses it, its computed size); gathering
//! those observations from the running system is the driver's job.

use vstd::prelude::*;
use vstd::string::{StrSliceExecFns, StringExecFns, StringSliceAdditionalSpecFns};

use crate::text::{has_prefix, lower_bytes, lower_seq, starts_with_bytes};

verus! {

/// Size above which a deletion demands explicit confirmation (10 GB).
pub const LARGE_DELETION_THRESHOLD: u64 = 10 * 1024 * 1024 * 1024;

/// Outcome of a deletion-safety check.
#[derive(Debug)]
pub enum SafetyCheck {
    Safe,
    Protected { message: String },
    InUse { message: String },
    RequiresConfirmation { message: String },
}

/// Result of a batch deletion: partial-success semantics, failures
/// are collected instead of aborting the batch.
#[derive(Debug)]
pub struct DeletionResult {
    pub deleted: Vec<String>,
    pub failed: Vec<FailedDeletion>,
    pub space_freed: u64,
}

/// One path that could not be deleted, with the reason.
#[derive(Debug)]
pub struct FailedDeletion {
    pub path: String,
    pub error: String,
}

/// The operating system family whose protected-path conventions
/// apply.
#[derive(Debug, Clone, Copy, PartialEq, Eq, Structural)]
pub enum Platform {
    MacOs,
    Windows,
    Linux,
}

/// The path lies in a protected system directory of the platform.
/// Windows paths are compared case-insensitively.
pub open spec fn spec_is_protected(p: Seq<u8>, platform: Platform) -> bool {
    match platform {
        Platform::MacOs => {
            ||| has_prefix(p, "/System".spec_bytes())
            ||| has_prefix(p, "/Library".spec_bytes())
            ||| has_prefix(p, "/Applications".spec_bytes())
            ||| has_prefix(p, "/usr".spec_bytes())
            ||| has_prefix(p, "/bin".spec_bytes())
            ||| has_prefix(p, "/sbin".spec_bytes())
        },
        Platform::Windows => {
            ||| has_prefix(lower_seq(p), "c:\\windows".spec_bytes())
            ||| has_prefix(lower_seq(p), "c:\\program files".spec_bytes())
            ||| has_prefix(lower_seq(p), "c:\\program files (x86)".spec_bytes())
        },
        Platform::Linux => {
            ||| has_prefix(p, "/bin".spec_bytes())
            ||| has_prefix(p, "/boot".spec_bytes())
            ||| has_prefix(p, "/dev".spec_bytes())
            ||| has_prefix(p, "/etc".spec_bytes())
            ||| has_prefix(p, "/lib".spec_bytes())
            ||| has_prefix(p, "/proc".spec_bytes())
            ||| has_prefix(p, "/sys".spec_bytes())
            ||| has_prefix(p, "/usr".spec_bytes())
        },
    }
}

/// Checks whether a path is within a protected system directory.
pub fn is_protected_path(path: &str, platform: Platform) -> (r: bool)
    ensures
        r == spec_is_protected(path.spec_bytes(), platform),
{
    let b = path.as_bytes();
    match platform {
        Platform::MacOs => starts_with_bytes(b, "/System".as_bytes()) || starts_with_bytes(
            b,
            "/Library".as_bytes(),
        ) || starts_with_bytes(b, "/Applications".as_bytes()) || starts_with_bytes(
            b,
            "/usr".as_bytes(),
        ) || starts_with_bytes(b, "/bin".as_bytes()) || starts_with_bytes(b, "/sbin".as_bytes()),
        Platform::Windows => {
            let lowered = lower_bytes(b);
            starts_with_bytes(lowered.as_slice(), "c:\\windows".as_bytes()) || starts_with_bytes(
                lowered.as_slice(),
                "c:\\program files".as_bytes(),
            ) || starts_with_bytes(lowered.as_slice(), "c:\\program files (x86)".as_bytes())
        },
        Platform::Linux => starts_with_bytes(b, "/bin".as_bytes()) || starts_with_bytes(
            b,
            "/boot".as_bytes(),
        ) || starts_with_bytes(b, "/dev".as_bytes()) || starts_with_bytes(b, "/etc".as_bytes())
            || starts_with_bytes(b, "/lib".as_bytes()) || starts_with_bytes(b, "/proc".as_bytes())
            || starts_with_bytes(b, "/sys".as_bytes()) || starts_with_bytes(b, "/usr".as_bytes()),
    }
}

/// The observations about one deletion candidate that the check
/// decides from: whether the path exists, whether some process holds
/// it open, and its computed total size (where it could be computed).
#[derive(Debug)]
pub struct DeletionCandidate {
    pub path: String,
    pub exists: bool,
    pub in_use: bool,
    pub size: Option<u64>,
}

/// The check `r` is the verdict the safety rules give for a path with
/// these observations, with its exact message.
pub open spec fn check_matches(
    r: SafetyCheck,
    path: Seq<char>,
    pbytes: Seq<u8>,
    platform: Platform,
    exists: bool,
    in_use: bool,
    size: Option<u64>,
) -> bool {
    if !exists {
        r matches SafetyCheck::Protected { message } && message@ == "Path does not exist: "@ + path
    } else if spec_is_protected(pbytes, platform) {
        r matches SafetyCheck::Protected { message } && message@
            == "Cannot delete protected system path: "@ + path
    } else if in_use {
        r matches SafetyCheck::InUse { message } && message@
            == "File or directory is currently in use: "@ + path
    } else if size matches Some(s) && s > LARGE_DELETION_THRESHOLD {
        r matches SafetyCheck::RequiresConfirmation { message } && message@
            == "Large deletion. Please confirm this action."@
    } else {
        r matches SafetyCheck::Safe
    }
}

/// Checks the safety of deleting a single path, from the given
/// observations: a missing path and a protected system path are
/// refused, an in-use path is reported as such, and a deletion larger
/// than the threshold demands confirmation; everything else is safe.
pub fn check_deletion_safety(
    path: &str,
    platform: Platform,
    exists: bool,
    in_use: bool,
    size: Option<u64>,
) -> (r: SafetyCheck)
    ensures
        check_matches(r, path@, path.spec_bytes(), platform, exists, in_use, size),
{
    if !exists {
        return SafetyCheck::Protected {
            message: String::from_str("Path does not exist: ").concat(path),
        };
    }
    if is_protected_path(path, platform) {
        return SafetyCheck::Protected {
            message: String::from_str("Cannot delete protected system path: ").concat(path),
        };
    }
    if in_use {
        return SafetyCheck::InUse {
            message: String::from_str("File or directory is currently in use: ").concat(path),
        };
    }
    if let Some(s) = size {
        if s > LARGE_DELETION_THRESHOLD {
            return SafetyCheck::RequiresConfirmation {
                message: String::from_str("Large deletion. Please confirm this action."),
            };
        }
    }
    SafetyCheck::Safe
}

/// Checks the safety of deleting multiple paths.
pub fn check_multiple_deletions(candidates: Vec<DeletionCandidate>, platform: Platform) -> (r: Vec<
    SafetyCheck,
>)
    ensures
        r@.len() == candidates@.len(),
        forall|i: int|
            0 <= i < r@.len() ==> check_matches(
                #[trigger] r@[i],
                candidates@[i].path@,
                vstd::utf8::encode_utf8(candidates@[i].path@),
                platform,
                candidates@[i].exists,
                candidates@[i].in_use,
                candidates@[i].size,
            ),
{
    let mut out: Vec<SafetyCheck> = Vec::new();
    let mut i: usize = 0;
    while i < candidates.len()
        invariant
            i <= candidates@.len(),
            out@.len() == i,
            forall|k: int|
                0 <= k < i ==> check_matches(
                    #[trigger] out@[k],
                    candidates@[k].path@,
                    vstd::utf8::encode_utf8(candidates@[k].path@),
                    platform,
                    candidates@[k].exists,
                    candidates@[k].in_use,
                    candidates@[k].size,
                ),
        decreases candidates@.len() - i,
    {
        let c = &candidates[i];
        let check = check_deletion_safety(c.path.as_str(), platform, c.exists, c.in_use, c.size);
        out.push(check);
        i = i + 1;
    }
    out
}

/// Deletion is attempted only for verdicts that permit it: a safe
/// check, or one that merely demands confirmation (which the caller
/// has by the time it deletes).
pub fn deletion_allowed(check: &SafetyCheck) -> (r: bool)
    ensures
        r == (check matches SafetyCheck::Safe || check matches SafetyCheck::RequiresConfirmation {
            ..
        }),
{
    match check {
        SafetyCheck::Safe => true,
        SafetyCheck::RequiresConfirmation { .. } => true,
        SafetyCheck::Protected { .. } => false,
        SafetyCheck::InUse { .. } => false,
    }
}

/// An empty batch-deletion result.
pub fn new_deletion_result() -> (r: DeletionResult)
    ensures
        r.deleted@.len() == 0,
        r.failed@.len() == 0,
        r.space_freed == 0,
{
    DeletionResult { deleted: Vec::new(), failed: Vec::new(), space_freed: 0 }
}

/// Records one successfully deleted path and the space it freed.
pub fn record_deletion_success(result: &mut DeletionResult, path: String, freed: u64)
    requires
        old(result).space_freed + freed <= u64::MAX,
    ensures
        final(result).deleted@ == old(result).deleted@.push(path),
        final(result).failed@ == old(result).failed@,
        final(result).space_freed == old(result).space_freed + freed,
{
    result.deleted.push(path);
    result.space_freed = result.space_freed + freed;
}

/// Records one path that could not be deleted, with the reason.
pub fn record_deletion_failure(result: &mut DeletionResult, path: String, error: String)
    ensures
        final(result).deleted@ == old(result).deleted@,
        final(result).failed@.len() == old(result).failed@.len() + 1,
        final(result).failed@ == old(result).failed@.push(
            FailedDeletion { path: path, error: error },
        ),
        final(result).space_freed == old(result).space_freed,
{
    result.failed.push(FailedDeletion { path, error });
}

} // verus!
