//! The scan session: the ownership scope of one scan.
//!
//! A session owns the node registry, the per-scan set of seen inodes
//! (for hard-link collapse), the aggregate progress counters and the
//! cooperative cancellation flag.  The traversal driver performs the
//! file system reads and feeds every discovered entry into the session;
//! all bookkeeping decisions are made here.

use vstd::prelude::*;

use crate::registry::{
    counted_count_upto, counted_size_upto, lemma_counted_le_raw, lemma_sums_push, wf_node_at,
    wf_nodes, DiscoveredNode, Registry,
};
use crate::types::{FileType, ScanProgress};

verus! {

/// There is a counted entry carrying this device and inode pair.
pub open spec fn inode_counted(reg: Seq<DiscoveredNode>, k: (u64, u64)) -> bool {
    exists|j: int|
        0 <= j < reg.len() && #[trigger] reg[j].counted && reg[j].inode == Some(k)
}

/// The state of one scan, created at scan start and torn down when the
/// scan finishes or is cancelled.
pub struct ScanSession {
    /// The shared discovery registry.
    pub registry: Registry,
    /// Device and inode pairs already charged to the aggregate
    /// counters; a second path with the same pair is a hard link and
    /// is not charged again.
    pub seen_inodes: Vec<(u64, u64)>,
    /// Number of files charged to the counters so far.
    pub files_scanned: u64,
    /// Total size charged to the counters so far, in bytes.
    pub total_size: u64,
    /// Path the traversal reported most recently.
    pub current_path: String,
    /// Cooperative cancellation flag; set once, never cleared.
    pub cancelled: bool,
}

impl ScanSession {
    /// Well-formedness of a session:
    /// the registry is well-formed; the counters are exactly the
    /// number and total size of the counted entries; the seen-inode
    /// set corresponds exactly to the inodes of counted entries; and
    /// no two counted entries share a device and inode pair.
    pub open spec fn wf(self) -> bool {
        &&& self.registry.wf()
        &&& self.files_scanned as int == counted_count_upto(
            self.registry.nodes@,
            self.registry.nodes@.len() as int,
        )
        &&& self.total_size as int == counted_size_upto(
            self.registry.nodes@,
            self.registry.nodes@.len() as int,
        )
        &&& (forall|k: (u64, u64)|
            #[trigger] self.seen_inodes@.contains(k) <==> inode_counted(self.registry.nodes@, k))
        &&& (forall|i: int, j: int|
            0 <= i < self.registry.nodes@.len() && 0 <= j < self.registry.nodes@.len() && i != j
                && #[trigger] self.registry.nodes@[i].counted
                && #[trigger] self.registry.nodes@[j].counted
                && self.registry.nodes@[i].inode is Some ==> self.registry.nodes@[i].inode
                != self.registry.nodes@[j].inode)
    }

    /// Creates a fresh session for one scan of `root_path`.
    pub fn new(root_path: String) -> (s: ScanSession)
        ensures
            s.wf(),
            s.registry.nodes@.len() == 0,
            s.files_scanned == 0,
            s.total_size == 0,
            !s.cancelled,
            s.current_path@ == root_path@,
    {
        ScanSession {
            registry: Registry::new(),
            seen_inodes: Vec::new(),
            files_scanned: 0,
            total_size: 0,
            current_path: root_path,
            cancelled: false,
        }
    }

    /// Signals cancellation: irreversible, and leaves every discovered
    /// entry in place for best-effort partial reporting.
    pub fn cancel(&mut self)
        ensures
            final(self).cancelled,
            final(self).registry == old(self).registry,
            final(self).files_scanned == old(self).files_scanned,
            final(self).total_size == old(self).total_size,
            old(self).wf() ==> final(self).wf(),
    {
        self.cancelled = true;
    }

    /// Non-blocking cancellation check, consulted at every traversal
    /// entry point.
    pub fn is_cancelled(&self) -> (r: bool)
        ensures
            r == self.cancelled,
    {
        self.cancelled
    }

    /// Current aggregate progress, for emission to the consumer.
    pub fn progress(&self) -> (p: ScanProgress)
        ensures
            p.files_scanned == self.files_scanned,
            p.total_size == self.total_size,
            p.current_path@ == self.current_path@,
    {
        ScanProgress {
            current_path: self.current_path.clone(),
            files_scanned: self.files_scanned,
            total_size: self.total_size,
        }
    }

    /// Sum of the sizes of all registered non-directory entries, hard
    /// links included; the driver checks new file sizes against the
    /// remaining headroom before recording them.
    pub fn raw_size(&self) -> (r: u64)
        ensures
            r == self.registry.raw_size,
    {
        self.registry.raw_size
    }

    /// Whether this device and inode pair has already been charged.
    fn inode_seen(&self, key: (u64, u64)) -> (r: bool)
        ensures
            r == self.seen_inodes@.contains(key),
    {
        let mut i: usize = 0;
        while i < self.seen_inodes.len()
            invariant
                i <= self.seen_inodes@.len(),
                forall|k: int| 0 <= k < i ==> self.seen_inodes@[k] != key,
            decreases self.seen_inodes@.len() - i,
        {
            let e = self.seen_inodes[i];
            if e.0 == key.0 && e.1 == key.1 {
                return true;
            }
            i = i + 1;
        }
        false
    }

    /// Records a regular file.  The entry is charged to the aggregate
    /// counters only if its device and inode pair (where available)
    /// has not been charged before; hard links therefore contribute to
    /// the totals exactly once, while each path still gets its own
    /// registry entry.  A path that is already registered is left
    /// untouched.  Returns the entry's id and whether it was charged.
    pub fn record_file(
        &mut self,
        path: String,
        name: String,
        parent: Option<usize>,
        size: u64,
        file_type: FileType,
        modified: u64,
        inode: Option<(u64, u64)>,
    ) -> (r: (usize, bool))
        requires
            old(self).wf(),
            parent matches Some(p) ==> p < old(self).registry.nodes@.len()
                && old(self).registry.nodes@[p as int].is_directory,
            old(self).registry.raw_size + size <= u64::MAX,
            old(self).files_scanned < u64::MAX,
        ensures
            final(self).wf(),
            old(self).registry.nodes@.is_prefix_of(final(self).registry.nodes@),
            final(self).cancelled == old(self).cancelled,
            r.0 < final(self).registry.nodes@.len(),
            if forall|i: int|
                0 <= i < old(self).registry.nodes@.len()
                    ==> #[trigger] old(self).registry.nodes@[i].path@ != path@ {
                &&& final(self).registry.nodes@ == old(self).registry.nodes@.push(
                    DiscoveredNode {
                        path: path,
                        name: name,
                        size: size,
                        is_directory: false,
                        is_symlink: false,
                        file_type: file_type,
                        modified: modified,
                        parent: parent,
                        is_complete: true,
                        inode: inode,
                        counted: r.1,
                    },
                )
                &&& r.0 == old(self).registry.nodes@.len()
                &&& r.1 == (inode matches Some(k) ==> !inode_counted(
                    old(self).registry.nodes@,
                    k,
                ))
                &&& final(self).total_size == old(self).total_size + if r.1 {
                    size as int
                } else {
                    0
                }
                &&& final(self).files_scanned == old(self).files_scanned + if r.1 {
                    1int
                } else {
                    0
                }
                &&& final(self).current_path@ == final(self).registry.nodes@[r.0 as int].path@
            } else {
                &&& final(self).registry == old(self).registry
                &&& final(self).total_size == old(self).total_size
                &&& final(self).files_scanned == old(self).files_scanned
                &&& !r.1
            },
    {
        let ghost old_reg = self.registry.nodes@;
        let counted = match inode {
            Some(k) => !self.inode_seen(k),
            None => true,
        };
        let node = DiscoveredNode {
            path,
            name,
            size,
            is_directory: false,
            is_symlink: false,
            file_type,
            modified,
            parent,
            is_complete: true,
            inode,
            counted,
        };
        let ghost node_ghost = node;
        let (id, is_new) = self.registry.upsert(node);
        if !is_new {
            return (id, false);
        }
        proof {
            assert(self.registry.nodes@ == old_reg.push(node_ghost));
            lemma_sums_push(old_reg, node_ghost, 0, old_reg.len() as int);
            assert(wf_nodes(self.registry.nodes@));
            lemma_counted_le_raw(self.registry.nodes@, self.registry.nodes@.len() as int);
        }
        self.current_path = self.registry.nodes[id].path.clone();
        if counted {
            self.total_size = self.total_size + size;
            self.files_scanned = self.files_scanned + 1;
            if let Some(k) = inode {
                self.seen_inodes.push(k);
            }
        }
        proof {
            lemma_session_push_wf(*old(self), *self, node_ghost);
        }
        (id, counted)
    }

    /// Records a symbolic link as a zero-size leaf; the traversal
    /// never follows its target, which rules out symlink cycles.  A
    /// path that is already registered is left untouched.
    pub fn record_symlink(
        &mut self,
        path: String,
        name: String,
        parent: Option<usize>,
        modified: u64,
    ) -> (id: usize)
        requires
            old(self).wf(),
            parent matches Some(p) ==> p < old(self).registry.nodes@.len()
                && old(self).registry.nodes@[p as int].is_directory,
        ensures
            final(self).wf(),
            old(self).registry.nodes@.is_prefix_of(final(self).registry.nodes@),
            final(self).cancelled == old(self).cancelled,
            final(self).total_size == old(self).total_size,
            final(self).files_scanned == old(self).files_scanned,
            id < final(self).registry.nodes@.len(),
            if forall|i: int|
                0 <= i < old(self).registry.nodes@.len()
                    ==> #[trigger] old(self).registry.nodes@[i].path@ != path@ {
                &&& final(self).registry.nodes@ == old(self).registry.nodes@.push(
                    DiscoveredNode {
                        path: path,
                        name: name,
                        size: 0,
                        is_directory: false,
                        is_symlink: true,
                        file_type: FileType::Other,
                        modified: modified,
                        parent: parent,
                        is_complete: true,
                        inode: None,
                        counted: false,
                    },
                )
                &&& id == old(self).registry.nodes@.len()
            } else {
                final(self).registry == old(self).registry
            },
    {
        let ghost old_reg = self.registry.nodes@;
        let node = DiscoveredNode {
            path,
            name,
            size: 0,
            is_directory: false,
            is_symlink: true,
            file_type: FileType::Other,
            modified,
            parent,
            is_complete: true,
            inode: None,
            counted: false,
        };
        let ghost node_ghost = node;
        let (id, is_new) = self.registry.upsert(node);
        if is_new {
            proof {
                assert(self.registry.nodes@ == old_reg.push(node_ghost));
                lemma_session_push_wf(*old(self), *self, node_ghost);
            }
        }
        id
    }

    /// Records a directory as an incomplete placeholder entry; the
    /// traversal enumerates its children afterwards and then marks it
    /// complete.  A path that is already registered is left untouched.
    pub fn begin_dir(
        &mut self,
        path: String,
        name: String,
        parent: Option<usize>,
        modified: u64,
    ) -> (id: usize)
        requires
            old(self).wf(),
            parent matches Some(p) ==> p < old(self).registry.nodes@.len()
                && old(self).registry.nodes@[p as int].is_directory,
        ensures
            final(self).wf(),
            old(self).registry.nodes@.is_prefix_of(final(self).registry.nodes@),
            final(self).cancelled == old(self).cancelled,
            final(self).total_size == old(self).total_size,
            final(self).files_scanned == old(self).files_scanned,
            id < final(self).registry.nodes@.len(),
            if forall|i: int|
                0 <= i < old(self).registry.nodes@.len()
                    ==> #[trigger] old(self).registry.nodes@[i].path@ != path@ {
                &&& final(self).registry.nodes@ == old(self).registry.nodes@.push(
                    DiscoveredNode {
                        path: path,
                        name: name,
                        size: 0,
                        is_directory: true,
                        is_symlink: false,
                        file_type: FileType::Other,
                        modified: modified,
                        parent: parent,
                        is_complete: false,
                        inode: None,
                        counted: false,
                    },
                )
                &&& id == old(self).registry.nodes@.len()
                &&& final(self).registry.nodes@[id as int].is_directory
                &&& final(self).current_path@ == path@
            } else {
                final(self).registry == old(self).registry
            },
    {
        let ghost old_reg = self.registry.nodes@;
        let node = DiscoveredNode {
            path,
            name,
            size: 0,
            is_directory: true,
            is_symlink: false,
            file_type: FileType::Other,
            modified,
            parent,
            is_complete: false,
            inode: None,
            counted: false,
        };
        let ghost node_ghost = node;
        let (id, is_new) = self.registry.upsert(node);
        if is_new {
            proof {
                assert(self.registry.nodes@ == old_reg.push(node_ghost));
                lemma_session_push_wf(*old(self), *self, node_ghost);
            }
            self.current_path = self.registry.nodes[id].path.clone();
        }
        id
    }

    /// Marks a directory entry as completely enumerated, after all of
    /// its child units have finished.
    pub fn finish_dir(&mut self, id: usize)
        requires
            old(self).wf(),
            id < old(self).registry.nodes@.len(),
        ensures
            final(self).wf(),
            final(self).registry.nodes@.len() == old(self).registry.nodes@.len(),
            final(self).registry.nodes@ == old(self).registry.nodes@.update(
                id as int,
                DiscoveredNode { is_complete: true, ..old(self).registry.nodes@[id as int] },
            ),
            final(self).total_size == old(self).total_size,
            final(self).files_scanned == old(self).files_scanned,
            final(self).cancelled == old(self).cancelled,
    {
        let ghost old_reg = self.registry.nodes@;
        self.registry.mark_complete(id);
        proof {
            crate::registry::lemma_sums_same_shape(
                self.registry.nodes@,
                old_reg,
                0,
                old_reg.len() as int,
            );
            assert forall|k: (u64, u64)| inode_counted(self.registry.nodes@, k) == inode_counted(
                old_reg,
                k,
            ) by {
                let new_reg = self.registry.nodes@;
                if inode_counted(new_reg, k) {
                    let j = choose|j: int|
                        0 <= j < new_reg.len() && #[trigger] new_reg[j].counted && new_reg[j].inode
                            == Some(k);
                    assert(old_reg[j].counted && old_reg[j].inode == Some(k));
                }
                if inode_counted(old_reg, k) {
                    let j = choose|j: int|
                        0 <= j < old_reg.len() && #[trigger] old_reg[j].counted && old_reg[j].inode
                            == Some(k);
                    assert(new_reg[j].counted && new_reg[j].inode == Some(k));
                }
            }
        }
    }
}

/// Appending one entry extends the counted-inode predicate by exactly
/// that entry's contribution.
proof fn lemma_inode_counted_push(reg: Seq<DiscoveredNode>, node: DiscoveredNode, k: (u64, u64))
    ensures
        inode_counted(reg.push(node), k) == (inode_counted(reg, k) || (node.counted
            && node.inode == Some(k))),
{
    let new_reg = reg.push(node);
    let n = reg.len() as int;
    if inode_counted(reg, k) {
        let j = choose|j: int|
            0 <= j < reg.len() && #[trigger] reg[j].counted && reg[j].inode == Some(k);
        assert(new_reg[j].counted && new_reg[j].inode == Some(k));
        assert(inode_counted(new_reg, k));
    }
    if node.counted && node.inode == Some(k) {
        assert(new_reg[n].counted && new_reg[n].inode == Some(k));
        assert(inode_counted(new_reg, k));
    }
    if inode_counted(new_reg, k) {
        let j = choose|j: int|
            0 <= j < new_reg.len() && #[trigger] new_reg[j].counted && new_reg[j].inode == Some(k);
        if j < n {
            assert(reg[j].counted && reg[j].inode == Some(k));
            assert(inode_counted(reg, k));
        }
    }
}

/// Re-establishes the session invariants after one new entry was
/// appended to the registry and the counters, seen-inode set and
/// aggregate sums were updated accordingly.
proof fn lemma_session_push_wf(old_s: ScanSession, new_s: ScanSession, node: DiscoveredNode)
    requires
        old_s.wf(),
        new_s.registry.wf(),
        new_s.registry.nodes@ == old_s.registry.nodes@.push(node),
        node.counted ==> !node.is_directory,
        node.counted ==> (node.inode matches Some(k) ==> !old_s.seen_inodes@.contains(k)
            && new_s.seen_inodes@ == old_s.seen_inodes@.push(k)),
        node.counted && node.inode is None ==> new_s.seen_inodes@ == old_s.seen_inodes@,
        !node.counted ==> new_s.seen_inodes@ == old_s.seen_inodes@ && (node.inode matches Some(k)
            ==> old_s.seen_inodes@.contains(k)),
        new_s.files_scanned as int == old_s.files_scanned + if node.counted {
            1int
        } else {
            0
        },
        new_s.total_size as int == old_s.total_size + if node.counted {
            node.size as int
        } else {
            0
        },
    ensures
        new_s.wf(),
{
    let old_reg = old_s.registry.nodes@;
    let new_reg = new_s.registry.nodes@;
    let n = old_reg.len() as int;
    lemma_sums_push(old_reg, node, 0, n);
    assert(counted_count_upto(new_reg, n + 1) == counted_count_upto(old_reg, n) + if node.counted {
        1int
    } else {
        0
    });
    assert(counted_size_upto(new_reg, n + 1) == counted_size_upto(old_reg, n) + if node.counted {
        node.size as int
    } else {
        0
    });
    assert forall|k: (u64, u64)|
        #[trigger] new_s.seen_inodes@.contains(k) implies inode_counted(new_reg, k) by {
        lemma_inode_counted_push(old_reg, node, k);
        if old_s.seen_inodes@.contains(k) {
            assert(inode_counted(old_reg, k));
        } else {
            let m = choose|m: int|
                0 <= m < new_s.seen_inodes@.len() && new_s.seen_inodes@[m] == k;
            assert(node.counted && node.inode matches Some(k0));
            assert(m == old_s.seen_inodes@.len());
            assert(node.inode == Some(k));
        }
    }
    assert forall|k: (u64, u64)| inode_counted(new_reg, k) implies #[trigger]
        new_s.seen_inodes@.contains(k) by {
        lemma_inode_counted_push(old_reg, node, k);
        if inode_counted(old_reg, k) {
            assert(old_s.seen_inodes@.contains(k));
            let m = choose|m: int|
                0 <= m < old_s.seen_inodes@.len() && old_s.seen_inodes@[m] == k;
            assert(new_s.seen_inodes@[m] == k);
        } else {
            assert(node.counted && node.inode == Some(k));
            assert(new_s.seen_inodes@[old_s.seen_inodes@.len() as int] == k);
        }
    }
    assert forall|i: int, j: int|
        0 <= i < new_reg.len() && 0 <= j < new_reg.len() && i != j && #[trigger] new_reg[i].counted
            && #[trigger] new_reg[j].counted && new_reg[i].inode is Some implies new_reg[i].inode
        != new_reg[j].inode by {
        if i < n && j < n {
            assert(old_reg[i].counted && old_reg[j].counted);
        } else {
            let a = if i == n {
                j
            } else {
                i
            };
            if new_reg[i].inode == new_reg[j].inode {
                let k = new_reg[i].inode->0;
                assert(node.counted && node.inode == Some(k));
                assert(old_reg[a].counted && old_reg[a].inode == Some(k));
                assert(inode_counted(old_reg, k));
                assert(old_s.seen_inodes@.contains(k));
            }
        }
    }
}

/// Two distinct counted entries never share a device and inode pair:
/// a hard-linked file contributes its size to the aggregate totals
/// exactly once, even though each of its paths has its own entry.
pub proof fn lemma_hard_links_counted_once(s: ScanSession, i: int, j: int)
    requires
        s.wf(),
        0 <= i < s.registry.nodes@.len(),
        0 <= j < s.registry.nodes@.len(),
        i != j,
        s.registry.nodes@[i].inode is Some,
        s.registry.nodes@[i].inode == s.registry.nodes@[j].inode,
    ensures
        !(s.registry.nodes@[i].counted && s.registry.nodes@[j].counted),
{
}

/// A symbolic link is always recorded with size zero and never has
/// children: no entry names it as its parent.
pub proof fn lemma_symlink_is_zero_leaf(reg: Seq<DiscoveredNode>, i: int, j: int)
    requires
        wf_nodes(reg),
        0 <= i < reg.len(),
        0 <= j < reg.len(),
        reg[i].is_symlink,
    ensures
        reg[i].size == 0,
        !(reg[j].parent matches Some(p) && p == i),
{
    assert(wf_node_at(reg, i));
    assert(wf_node_at(reg, j));
}

} // verus!
