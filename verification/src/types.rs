//! Data model shared by the scan engine, the classifier and the
//! tree materializer.

use vstd::prelude::*;

verus! {

/// File categories assigned by extension-based classification.
#[derive(Debug, Clone, Copy, PartialEq, Eq, Structural)]
pub enum FileType {
    Document,
    Image,
    Video,
    Audio,
    Archive,
    Executable,
    SystemFile,
    Code,
    Other,
}

/// A file or directory node in the materialized file system tree.
///
/// For directories, `size` is the aggregate size of all non-directory
/// descendants and `children` is a size-sorted, truncated view.
#[derive(Debug)]
pub struct FileNode {
    /// Name of the file or directory.
    pub name: String,
    /// Full path to the file or directory.
    pub path: String,
    /// Size in bytes (for directories: aggregate size of all contents).
    pub size: u64,
    /// Whether this node represents a directory.
    pub is_directory: bool,
    /// Child nodes (empty for files).
    pub children: Vec<FileNode>,
    /// Classification of the file type.
    pub file_type: FileType,
    /// Last modification time, in seconds since the epoch.
    pub modified: u64,
}

/// Number of files in a materialized tree: each non-directory node
/// counts as one, directories count their descendants.
pub open spec fn spec_count_files(t: FileNode) -> int
    decreases t,
{
    if !t.is_directory {
        1
    } else {
        spec_count_files_seq(t.children@)
    }
}

/// Sum of `spec_count_files` over a sequence of sibling nodes.
pub open spec fn spec_count_files_seq(s: Seq<FileNode>) -> int
    decreases s,
{
    if s.len() == 0 {
        0
    } else {
        spec_count_files(s[0]) + spec_count_files_seq(s.subrange(1, s.len() as int))
    }
}

/// Counts the non-directory nodes of a materialized tree.
pub fn count_files(node: &FileNode) -> (n: u64)
    requires
        spec_count_files(*node) <= u64::MAX,
    ensures
        n == spec_count_files(*node),
    decreases *node,
{
    if !node.is_directory {
        return 1;
    }

    let mut total: u64 = 0;
    let mut i: usize = 0;
    proof {
        lemma_count_files_seq_nonneg(node.children@);
        assert(node.children@.subrange(0, 0) =~= Seq::<FileNode>::empty());
        assert(node.children@.subrange(0, node.children@.len() as int) =~= node.children@);
    }
    while i < node.children.len()
        invariant
            i <= node.children@.len(),
            spec_count_files_seq(node.children@) <= u64::MAX,
            total == spec_count_files_seq(node.children@.subrange(0, i as int)),
            total + spec_count_files_seq(node.children@.subrange(i as int, node.children@.len() as int))
                == spec_count_files_seq(node.children@),
        decreases node.children@.len() - i,
    {
        proof {
            lemma_count_files_seq_first(node.children@, i as int);
            lemma_count_files_nonneg(node.children@[i as int]);
            lemma_count_files_seq_nonneg(
                node.children@.subrange(i as int + 1, node.children@.len() as int),
            );
        }
        let c = count_files(&node.children[i]);
        total = total + c;
        proof {
            lemma_count_files_seq_snoc(node.children@, i as int);
        }
        i = i + 1;
    }
    proof {
        assert(node.children@.subrange(0, node.children@.len() as int) =~= node.children@);
    }
    total
}

/// The file count of any subtree is non-negative.
proof fn lemma_count_files_nonneg(t: FileNode)
    ensures
        spec_count_files(t) >= 0,
    decreases t,
{
    if t.is_directory {
        lemma_count_files_seq_nonneg(t.children@);
    }
}

/// The file count of any sibling sequence is non-negative.
proof fn lemma_count_files_seq_nonneg(s: Seq<FileNode>)
    ensures
        spec_count_files_seq(s) >= 0,
    decreases s,
{
    if s.len() > 0 {
        lemma_count_files_nonneg(s[0]);
        lemma_count_files_seq_nonneg(s.subrange(1, s.len() as int));
    }
}

/// Splits the count of a suffix at its first element.
proof fn lemma_count_files_seq_first(s: Seq<FileNode>, i: int)
    requires
        0 <= i < s.len(),
    ensures
        spec_count_files_seq(s.subrange(i, s.len() as int)) == spec_count_files(s[i])
            + spec_count_files_seq(s.subrange(i + 1, s.len() as int)),
{
    let suffix = s.subrange(i, s.len() as int);
    assert(suffix[0] == s[i]);
    assert(suffix.subrange(1, suffix.len() as int) =~= s.subrange(i + 1, s.len() as int));
}

/// Extends the count of a prefix by one element.
proof fn lemma_count_files_seq_snoc(s: Seq<FileNode>, i: int)
    requires
        0 <= i < s.len(),
    ensures
        spec_count_files_seq(s.subrange(0, i + 1)) == spec_count_files_seq(s.subrange(0, i))
            + spec_count_files(s[i]),
    decreases i,
{
    if i == 0 {
        assert(s.subrange(0, 1)[0] == s[0]);
        assert(s.subrange(0, 1).subrange(1, 1) =~= Seq::<FileNode>::empty());
        assert(s.subrange(0, 0) =~= Seq::<FileNode>::empty());
    } else {
        let a = s.subrange(0, i + 1);
        let b = s.subrange(0, i);
        assert(a[0] == s[0]);
        assert(b[0] == s[0]);
        assert(a.subrange(1, a.len() as int) =~= s.subrange(1, s.len() as int).subrange(0, i));
        assert(b.subrange(1, b.len() as int) =~= s.subrange(1, s.len() as int).subrange(0, i - 1));
        lemma_count_files_seq_snoc(s.subrange(1, s.len() as int), i - 1);
        assert(s.subrange(1, s.len() as int)[i - 1] == s[i]);
    }
}

/// Tracks the progress of a directory scan operation.
#[derive(Debug, Clone)]
pub struct ScanProgress {
    /// Current path being scanned.
    pub current_path: String,
    /// Total number of files scanned so far.
    pub files_scanned: u64,
    /// Total size accumulated so far in bytes.
    pub total_size: u64,
}

/// Partial scan result emitted during progressive scanning.
#[derive(Debug)]
pub struct PartialScanResult {
    /// The current state of the file tree.
    pub tree: FileNode,
    /// Number of files scanned so far.
    pub files_scanned: u64,
    /// Total size accumulated so far.
    pub total_size: u64,
    /// Whether the scan is complete.
    pub is_complete: bool,
}

/// Statistics for a scanned node.
#[derive(Debug, Clone, Copy)]
pub struct NodeStats {
    /// Number of files in this node (1 for files, sum of children for directories).
    pub file_count: u64,
    /// Total size in bytes.
    pub total_size: u64,
}

impl NodeStats {
    /// An empty statistic: no files, no bytes.
    pub fn new() -> (s: Self)
        ensures
            s.file_count == 0,
            s.total_size == 0,
    {
        Self { file_count: 0, total_size: 0 }
    }

    /// The statistic of a single file of the given size.
    pub fn from_file(size: u64) -> (s: Self)
        ensures
            s.file_count == 1,
            s.total_size == size,
    {
        Self { file_count: 1, total_size: size }
    }

    /// Adds another statistic into this one.
    pub fn merge(&mut self, other: &NodeStats)
        requires
            old(self).file_count + other.file_count <= u64::MAX,
            old(self).total_size + other.total_size <= u64::MAX,
        ensures
            final(self).file_count == old(self).file_count + other.file_count,
            final(self).total_size == old(self).total_size + other.total_size,
    {
        self.file_count += other.file_count;
        self.total_size += other.total_size;
    }
}

/// Streaming scan event emitted during progressive scanning.
#[derive(Debug)]
pub enum StreamingScanEvent {
    /// Progress update with aggregated stats (lightweight, sent frequently).
    Progress { files_scanned: u64, total_size: u64, current_path: String },
    /// Partial tree snapshot (heavier, sent periodically for display updates).
    PartialTree { tree: FileNode, files_scanned: u64, total_size: u64 },
    /// Node discovered: incremental update (lightweight, sent as nodes are found).
    NodeUpdate {
        path: String,
        parent_path: Option<String>,
        name: String,
        size: u64,
        is_directory: bool,
        file_type: FileType,
    },
    /// Scan completed.
    Complete { files_scanned: u64, total_size: u64 },
}

} // verus!
