//! Storage locations: the data model of mounted volumes and
//! quick-access folders, and the rules deciding which mount table
//! entries are worth listing.
//!
//! Reading the mount table and querying free space are the driver's
//! job; the decisions about what a mount entry is are made here.

use vstd::prelude::*;
use vstd::string::{StrSliceExecFns, StringExecFns, StringSliceAdditionalSpecFns};

use crate::text::{bytes_eq, has_prefix, starts_with_bytes};

verus! {

/// Kind of a storage location.
#[derive(Debug, Clone, Copy, PartialEq, Eq, Structural)]
pub enum LocationType {
    Storage,
    Network,
    Folder,
}

/// A mounted volume or a well-known folder, with its free and total
/// space where known.
#[derive(Debug)]
pub struct StorageLocation {
    pub name: String,
    pub path: String,
    pub location_type: LocationType,
    pub total_space: Option<u64>,
    pub available_space: Option<u64>,
}

/// The device name names a physical disk.
pub open spec fn spec_is_physical_device(d: Seq<u8>) -> bool {
    ||| has_prefix(d, "/dev/sd".spec_bytes())
    ||| has_prefix(d, "/dev/nvme".spec_bytes())
    ||| has_prefix(d, "/dev/hd".spec_bytes())
}

/// The file system type names a network file system.
pub open spec fn spec_is_network_fs(f: Seq<u8>) -> bool {
    ||| f == "nfs".spec_bytes()
    ||| f == "cifs".spec_bytes()
    ||| f == "smbfs".spec_bytes()
}

/// What a mount table entry becomes in the storage list: network
/// mounts are network locations; physical disks and the root mount
/// are storage; everything else is not listed.
pub open spec fn spec_mount_location(d: Seq<u8>, mp: Seq<u8>, f: Seq<u8>) -> Option<LocationType> {
    if spec_is_network_fs(f) {
        Some(LocationType::Network)
    } else if spec_is_physical_device(d) || mp == "/".spec_bytes() {
        Some(LocationType::Storage)
    } else {
        None
    }
}

/// Decides whether a mount table entry (device, mount point, file
/// system type) is listed, and as what kind of location.
pub fn mount_entry_location(device: &str, mount_point: &str, fs_type: &str) -> (r: Option<
    LocationType,
>)
    ensures
        r == spec_mount_location(
            device.spec_bytes(),
            mount_point.spec_bytes(),
            fs_type.spec_bytes(),
        ),
{
    let f = fs_type.as_bytes();
    if bytes_eq(f, "nfs".as_bytes()) || bytes_eq(f, "cifs".as_bytes()) || bytes_eq(
        f,
        "smbfs".as_bytes(),
    ) {
        return Some(LocationType::Network);
    }
    let d = device.as_bytes();
    let physical = starts_with_bytes(d, "/dev/sd".as_bytes()) || starts_with_bytes(
        d,
        "/dev/nvme".as_bytes(),
    ) || starts_with_bytes(d, "/dev/hd".as_bytes());
    if physical || bytes_eq(mount_point.as_bytes(), "/".as_bytes()) {
        return Some(LocationType::Storage);
    }
    None
}

/// A volume name that denotes a network share.
pub open spec fn spec_is_network_volume_name(n: Seq<u8>) -> bool {
    ||| has_prefix(n, "smb://".spec_bytes())
    ||| has_prefix(n, "afp://".spec_bytes())
}

/// Decides whether a volume name denotes a network share (the
/// heuristic used for externally mounted volumes).
pub fn is_network_volume_name(name: &str) -> (r: bool)
    ensures
        r == spec_is_network_volume_name(name.spec_bytes()),
{
    let b = name.as_bytes();
    starts_with_bytes(b, "smb://".as_bytes()) || starts_with_bytes(b, "afp://".as_bytes())
}

/// A probed space figure is reported only when it is meaningful:
/// zero means the probe failed and the figure is left unknown.
pub fn positive_space(v: u64) -> (r: Option<u64>)
    ensures
        r == if v > 0 {
            Some(v)
        } else {
            None::<u64>
        },
{
    if v > 0 {
        Some(v)
    } else {
        None
    }
}

/// The display name of a mount point: the root mount is "Root", any
/// other mount point shows its final path component.
pub open spec fn spec_mount_name(mp: Seq<char>) -> Seq<char> {
    if mp == "/"@ {
        "Root"@
    } else {
        mp.subrange(last_slash(mp, mp.len() as int) + 1, mp.len() as int)
    }
}

/// Index of the last slash among the first `n` characters, or -1.
pub open spec fn last_slash(s: Seq<char>, n: int) -> int
    decreases n,
{
    if n <= 0 {
        -1
    } else if s[n - 1] == '/' {
        n - 1
    } else {
        last_slash(s, n - 1)
    }
}

/// Builds the display name of a mount point.
pub fn mount_display_name(mount_point: &str) -> (r: String)
    ensures
        r@ == spec_mount_name(mount_point@),
{
    if crate::text::str_eq(mount_point, "/") {
        let root = String::from_str("Root");
        proof {
            assert(mount_point@ == "/"@);
        }
        return root;
    }
    let n = mount_point.unicode_len();
    let mut cut: usize = 0;
    let mut i: usize = 0;
    while i < n
        invariant
            n == mount_point@.len(),
            i <= n,
            cut <= i,
            cut as int == last_slash(mount_point@, i as int) + 1,
        decreases n - i,
    {
        if mount_point.get_char(i) == '/' {
            cut = i + 1;
        }
        i = i + 1;
    }
    let tail = mount_point.substring_char(cut, n);
    tail.to_owned()
}

} // verus!
