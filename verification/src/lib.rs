//! Verified core of a progressive disk-usage scanner.
//!
//! The library models the state of one scan session: a registry of
//! discovered filesystem nodes with hard-link deduplication for the
//! aggregate counters, cooperative cancellation, event batching, and
//! materialization of a depth- and width-bounded size tree whose
//! directory sizes are always true aggregates.

pub mod classifier;
pub mod engine;
pub mod events;
pub mod limiter;
pub mod materialize;
pub mod registry;
pub mod safety;
pub mod storage;
pub mod text;
pub mod types;

pub use classifier::{classify_file, collect_stats, get_category_stats, CategoryStats};
pub use engine::{lemma_hard_links_counted_once, lemma_symlink_is_zero_leaf, ScanSession};
pub use events::EventBatcher;
pub use limiter::PermitPool;
pub use materialize::{
    build_tree_from_registry_with_depth, build_tree_recursive_lazy, calculate_dir_size_lazy,
    is_descendant, TOP_CHILDREN_CAP,
};
pub use registry::{lemma_dir_size_sums_children, lemma_no_traversal_cycles, DiscoveredNode, Registry};
pub use safety::{
    check_deletion_safety, check_multiple_deletions, deletion_allowed, is_protected_path,
    new_deletion_result, record_deletion_failure, record_deletion_success, DeletionCandidate,
    DeletionResult, FailedDeletion, Platform, SafetyCheck, LARGE_DELETION_THRESHOLD,
};
pub use storage::{
    is_network_volume_name, mount_display_name, mount_entry_location, positive_space,
    LocationType, StorageLocation,
};
pub use types::{
    count_files, FileNode, FileType, NodeStats, PartialScanResult, ScanProgress,
    StreamingScanEvent,
};
