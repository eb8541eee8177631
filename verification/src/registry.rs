//! The node registry: the single source of truth during a scan.
//!
//! Discovered nodes are held in an arena indexed by insertion order; a
//! node's parent is referenced by its arena index.  Because a parent is
//! always inserted before its children, every parent index is strictly
//! smaller than the child's own index, which rules out cycles in the
//! parent relation by construction.

use vstd::prelude::*;
use vstd::pervasive::VecAdditionalExecFns;

use crate::types::FileType;

verus! {

/// Metadata of one discovered file system entry, owned by the registry.
#[derive(Debug)]
pub struct DiscoveredNode {
    /// Full path of the entry.
    pub path: String,
    /// Final component of the path.
    pub name: String,
    /// Size in bytes; directories and symlinks are recorded with size 0.
    pub size: u64,
    /// Whether the entry is a directory.
    pub is_directory: bool,
    /// Whether the entry is a symbolic link (recorded as a zero-size leaf).
    pub is_symlink: bool,
    /// Classification of the entry.
    pub file_type: FileType,
    /// Last modification time, in seconds since the epoch.
    pub modified: u64,
    /// Registry index of the parent directory, if any.
    pub parent: Option<usize>,
    /// For directories: all children have been enumerated.
    pub is_complete: bool,
    /// Device and inode numbers, where the platform provides them.
    pub inode: Option<(u64, u64)>,
    /// Whether this entry contributed to the aggregate progress counters
    /// (false for directories and for later paths of a hard-linked file).
    pub counted: bool,
}

/// Structural well-formedness of one registry entry.
pub open spec fn wf_node_at(reg: Seq<DiscoveredNode>, i: int) -> bool {
    &&& (reg[i].parent matches Some(p) ==> p < i && reg[p as int].is_directory)
    &&& (reg[i].is_directory ==> !reg[i].is_symlink && reg[i].size == 0 && !reg[i].counted
        && reg[i].inode is None)
    &&& (reg[i].is_symlink ==> reg[i].size == 0)
    &&& (reg[i].counted ==> !reg[i].is_directory)
}

/// Structural well-formedness of the whole arena: parents come before
/// their children and are directories; symlinks are zero-size leaves.
pub open spec fn wf_nodes(reg: Seq<DiscoveredNode>) -> bool {
    forall|i: int| 0 <= i < reg.len() ==> #[trigger] wf_node_at(reg, i)
}

/// No two entries share a path.
pub open spec fn paths_unique(reg: Seq<DiscoveredNode>) -> bool {
    forall|i: int, j: int|
        0 <= i < reg.len() && 0 <= j < reg.len() && i != j ==> #[trigger] reg[i].path@
            != #[trigger] reg[j].path@
}

/// Sum of the sizes of the first `n` non-directory entries, counting
/// every path (hard links included as many times as they occur).
pub open spec fn raw_size_upto(reg: Seq<DiscoveredNode>, n: int) -> int
    decreases n,
{
    if n <= 0 {
        0
    } else {
        raw_size_upto(reg, n - 1) + if !reg[n - 1].is_directory {
            reg[n - 1].size as int
        } else {
            0
        }
    }
}

/// Sum of the sizes of all non-directory entries, hard links included.
pub open spec fn spec_raw_size(reg: Seq<DiscoveredNode>) -> int {
    raw_size_upto(reg, reg.len() as int)
}

/// Sum of the sizes of the first `n` counted entries.
pub open spec fn counted_size_upto(reg: Seq<DiscoveredNode>, n: int) -> int
    decreases n,
{
    if n <= 0 {
        0
    } else {
        counted_size_upto(reg, n - 1) + if reg[n - 1].counted {
            reg[n - 1].size as int
        } else {
            0
        }
    }
}

/// Number of counted entries among the first `n`.
pub open spec fn counted_count_upto(reg: Seq<DiscoveredNode>, n: int) -> int
    decreases n,
{
    if n <= 0 {
        0
    } else {
        counted_count_upto(reg, n - 1) + if reg[n - 1].counted {
            1int
        } else {
            0
        }
    }
}

/// Entry `j` lies in the subtree rooted at entry `a`: following parent
/// links from `j` reaches `a`.
pub open spec fn is_desc(reg: Seq<DiscoveredNode>, j: int, a: int) -> bool
    decreases j,
{
    if j == a {
        true
    } else if 0 <= j < reg.len() {
        match reg[j].parent {
            Some(p) => 0 <= p < j && is_desc(reg, p as int, a),
            None => false,
        }
    } else {
        false
    }
}

/// Sum of the sizes of the non-directory descendants of `a` among the
/// first `n` entries.
pub open spec fn agg_upto(reg: Seq<DiscoveredNode>, a: int, n: int) -> int
    decreases n,
{
    if n <= 0 {
        0
    } else {
        agg_upto(reg, a, n - 1) + if !reg[n - 1].is_directory && is_desc(reg, n - 1, a) {
            reg[n - 1].size as int
        } else {
            0
        }
    }
}

/// The aggregate size of the subtree rooted at `a`: the sum of the
/// sizes of all non-directory descendants of `a`, each path counted
/// once.
pub open spec fn agg_size(reg: Seq<DiscoveredNode>, a: int) -> int {
    agg_upto(reg, a, reg.len() as int)
}

/// Number of children of `p` among the first `n` entries.
pub open spec fn child_count_upto(reg: Seq<DiscoveredNode>, p: int, n: int) -> int
    decreases n,
{
    if n <= 0 {
        0
    } else {
        child_count_upto(reg, p, n - 1) + if reg[n - 1].parent == Some(p as usize) && p >= 0 {
            1int
        } else {
            0
        }
    }
}

/// Number of children of `p` in the whole registry.
pub open spec fn child_count(reg: Seq<DiscoveredNode>, p: int) -> int {
    child_count_upto(reg, p, reg.len() as int)
}

/// Aggregate sums never exceed the raw size sum, and all are non-negative.
pub proof fn lemma_agg_le_raw(reg: Seq<DiscoveredNode>, a: int, n: int)
    ensures
        0 <= agg_upto(reg, a, n),
        agg_upto(reg, a, n) <= raw_size_upto(reg, n),
    decreases n,
{
    if n > 0 {
        lemma_agg_le_raw(reg, a, n - 1);
    }
}

/// Counted sums never exceed the raw size sum, and all are non-negative.
pub proof fn lemma_counted_le_raw(reg: Seq<DiscoveredNode>, n: int)
    requires
        forall|i: int| 0 <= i < reg.len() ==> #[trigger] wf_node_at(reg, i),
        n <= reg.len(),
    ensures
        0 <= counted_size_upto(reg, n),
        counted_size_upto(reg, n) <= raw_size_upto(reg, n),
        0 <= counted_count_upto(reg, n),
        counted_count_upto(reg, n) <= n || n < 0,
    decreases n,
{
    if n > 0 {
        lemma_counted_le_raw(reg, n - 1);
        assert(wf_node_at(reg, n - 1));
    }
}

/// The raw size sum is non-negative and grows with its bound.
pub proof fn lemma_raw_monotone(reg: Seq<DiscoveredNode>, m: int, n: int)
    requires
        m <= n,
    ensures
        raw_size_upto(reg, m) <= raw_size_upto(reg, n),
        0 <= raw_size_upto(reg, n) - raw_size_upto(reg, m),
    decreases n - m,
{
    if m < n {
        lemma_raw_monotone(reg, m, n - 1);
    }
}

/// An ancestor's index is never larger than its descendant's.
pub proof fn lemma_desc_le(reg: Seq<DiscoveredNode>, j: int, a: int)
    requires
        is_desc(reg, j, a),
    ensures
        a <= j,
    decreases j,
{
    if j != a {
        match reg[j].parent {
            Some(p) => lemma_desc_le(reg, p as int, a),
            None => {},
        }
    }
}

/// The parent relation has no cycles: two entries that each lie in the
/// subtree of the other are the same entry.  In particular a traversal
/// can never revisit an ancestor.
pub proof fn lemma_no_traversal_cycles(reg: Seq<DiscoveredNode>, i: int, j: int)
    requires
        is_desc(reg, i, j),
        is_desc(reg, j, i),
    ensures
        i == j,
{
    lemma_desc_le(reg, i, j);
    lemma_desc_le(reg, j, i);
}

/// Only the entry itself lies in the subtree of a non-directory entry.
pub proof fn lemma_desc_of_leaf(reg: Seq<DiscoveredNode>, j: int, a: int)
    requires
        wf_nodes(reg),
        !reg[a].is_directory,
        is_desc(reg, j, a),
        0 <= j < reg.len(),
    ensures
        j == a,
    decreases j,
{
    if j != a {
        assert(wf_node_at(reg, j));
        match reg[j].parent {
            Some(p) => {
                if p as int == a {
                    assert(reg[a].is_directory);
                } else {
                    lemma_desc_of_leaf(reg, p as int, a);
                }
            },
            None => {},
        }
    }
}

/// The aggregate size of a non-directory entry is its own size.
pub proof fn lemma_agg_of_leaf(reg: Seq<DiscoveredNode>, a: int, n: int)
    requires
        wf_nodes(reg),
        0 <= a < reg.len(),
        !reg[a].is_directory,
    ensures
        agg_upto(reg, a, n) == if a < n {
            reg[a].size as int
        } else {
            0
        },
    decreases n,
{
    if n > 0 {
        lemma_agg_of_leaf(reg, a, n - 1);
        if n - 1 < reg.len() && !reg[n - 1].is_directory && is_desc(reg, n - 1, a) {
            lemma_desc_of_leaf(reg, n - 1, a);
        }
    }
}

/// An entry of a well-formed registry that lies in the subtree of a
/// child of `a` lies in the subtree of `a`.
proof fn lemma_desc_through_child(reg: Seq<DiscoveredNode>, j: int, c: int, a: int)
    requires
        is_desc(reg, j, c),
        0 <= c < reg.len(),
        reg[c].parent == Some(a as usize),
        0 <= a < c,
        a < usize::MAX,
    ensures
        is_desc(reg, j, a),
    decreases j,
{
    if j == c {
        assert(is_desc(reg, a, a));
        assert(is_desc(reg, c, a));
    } else if 0 <= j < reg.len() {
        match reg[j].parent {
            Some(p) => {
                if 0 <= p < j {
                    lemma_desc_through_child(reg, p as int, c, a);
                }
            },
            None => {},
        }
    }
}

/// Two ancestors of the same entry are comparable: one lies in the
/// subtree of the other.
proof fn lemma_ancestors_chain(reg: Seq<DiscoveredNode>, j: int, x: int, y: int)
    requires
        is_desc(reg, j, x),
        is_desc(reg, j, y),
    ensures
        is_desc(reg, x, y) || is_desc(reg, y, x),
    decreases j,
{
    if j == x || j == y {
    } else if 0 <= j < reg.len() {
        match reg[j].parent {
            Some(p) => {
                if 0 <= p < j {
                    lemma_ancestors_chain(reg, p as int, x, y);
                }
            },
            None => {},
        }
    }
}

/// Distinct children of one directory have disjoint subtrees.
proof fn lemma_children_disjoint(reg: Seq<DiscoveredNode>, j: int, a: int, c1: int, c2: int)
    requires
        wf_nodes(reg),
        0 <= a < reg.len(),
        reg.len() <= usize::MAX,
        0 <= c1 < reg.len(),
        0 <= c2 < reg.len(),
        reg[c1].parent == Some(a as usize),
        reg[c2].parent == Some(a as usize),
        c1 != c2,
        is_desc(reg, j, c1),
    ensures
        !is_desc(reg, j, c2),
{
    if is_desc(reg, j, c2) {
        lemma_ancestors_chain(reg, j, c1, c2);
        assert(wf_node_at(reg, c1));
        assert(wf_node_at(reg, c2));
        if is_desc(reg, c1, c2) {
            lemma_desc_le(reg, c1, c2);
            assert(c1 != c2);
            assert(reg[c1].parent matches Some(p) && p == a);
            lemma_desc_le(reg, a, c2);
        } else {
            lemma_desc_le(reg, c2, c1);
            assert(reg[c2].parent matches Some(p) && p == a);
            lemma_desc_le(reg, a, c1);
        }
    }
}

/// A proper descendant of `a` lies in the subtree of one of `a`'s
/// children.
proof fn lemma_desc_has_child_step(reg: Seq<DiscoveredNode>, j: int, a: int) -> (c: int)
    requires
        wf_nodes(reg),
        is_desc(reg, j, a),
        j != a,
        0 <= j < reg.len(),
    ensures
        0 <= c < reg.len(),
        reg[c].parent == Some(a as usize),
        a < c,
        is_desc(reg, j, c),
    decreases j,
{
    assert(wf_node_at(reg, j));
    let p = reg[j].parent->0;
    if p as int == a {
        j
    } else {
        let c = lemma_desc_has_child_step(reg, p as int, a);
        assert(is_desc(reg, j, c));
        c
    }
}

/// Sum of the aggregate sizes (bounded by `n`) of the children of `a`
/// found among the first `m` entries.
pub open spec fn kids_agg_upto(reg: Seq<DiscoveredNode>, a: int, n: int, m: int) -> int
    decreases m,
{
    if m <= 0 {
        0
    } else {
        kids_agg_upto(reg, a, n, m - 1) + if reg[m - 1].parent == Some(a as usize) && a >= 0 {
            agg_upto(reg, m - 1, n)
        } else {
            0
        }
    }
}

/// Sum of the aggregate sizes of all children of `a`.
pub open spec fn kids_agg(reg: Seq<DiscoveredNode>, a: int) -> int {
    kids_agg_upto(reg, a, reg.len() as int, reg.len() as int)
}

/// Contribution of entry `j` to the children sums of `a`, over the
/// children found among the first `m` entries.
spec fn hit_upto(reg: Seq<DiscoveredNode>, a: int, j: int, m: int) -> int
    decreases m,
{
    if m <= 0 {
        0
    } else {
        hit_upto(reg, a, j, m - 1) + if reg[m - 1].parent == Some(a as usize) && a >= 0
            && !reg[j].is_directory && is_desc(reg, j, m - 1) {
            reg[j].size as int
        } else {
            0
        }
    }
}

/// Raising the bound `n` by one adds entry `n`'s contribution to each
/// child's aggregate.
proof fn lemma_kids_agg_step(reg: Seq<DiscoveredNode>, a: int, n: int, m: int)
    ensures
        kids_agg_upto(reg, a, n + 1, m) == kids_agg_upto(reg, a, n, m) + hit_upto(reg, a, n, m),
    decreases m,
{
    if m > 0 {
        lemma_kids_agg_step(reg, a, n, m - 1);
    }
}

/// The contribution of an entry that is no descendant of `a`, or no
/// file, is zero.
proof fn lemma_hit_zero(reg: Seq<DiscoveredNode>, a: int, j: int, m: int)
    requires
        wf_nodes(reg),
        0 <= a < reg.len(),
        reg.len() <= usize::MAX,
        m <= reg.len(),
        !(0 <= j < reg.len() && !reg[j].is_directory && is_desc(reg, j, a) && j != a),
    ensures
        hit_upto(reg, a, j, m) == 0,
    decreases m,
{
    if m > 0 {
        lemma_hit_zero(reg, a, j, m - 1);
        if reg[m - 1].parent == Some(a as usize) && 0 <= j < reg.len() && !reg[j].is_directory
            && is_desc(reg, j, m - 1) {
            assert(wf_node_at(reg, m - 1));
            lemma_desc_through_child(reg, j, m - 1, a);
            if j == a {
                lemma_desc_le(reg, j, m - 1);
                assert(wf_node_at(reg, m - 1));
            }
        }
    }
}

/// The contribution of a proper file descendant of `a` is its size,
/// counted exactly once: in the subtree of the unique child of `a`
/// on its ancestor chain.
proof fn lemma_hit_single(reg: Seq<DiscoveredNode>, a: int, j: int, m: int, cstar: int)
    requires
        wf_nodes(reg),
        0 <= a < reg.len(),
        reg.len() <= usize::MAX,
        0 <= j < reg.len(),
        !reg[j].is_directory,
        0 <= cstar < reg.len(),
        reg[cstar].parent == Some(a as usize),
        is_desc(reg, j, cstar),
        m <= reg.len(),
    ensures
        hit_upto(reg, a, j, m) == if cstar < m {
            reg[j].size as int
        } else {
            0
        },
    decreases m,
{
    if m > 0 {
        lemma_hit_single(reg, a, j, m - 1, cstar);
        if reg[m - 1].parent == Some(a as usize) && m - 1 != cstar {
            lemma_children_disjoint(reg, j, a, cstar, m - 1);
        }
    }
}

/// The round-trip aggregation law: the aggregate size of a directory
/// is exactly the sum of the aggregate sizes of its children — the
/// bottom-up sum over subtrees reproduces the flat sum over all
/// non-directory descendants, however the tree is shaped.
pub proof fn lemma_dir_size_sums_children(reg: Seq<DiscoveredNode>, a: int)
    requires
        wf_nodes(reg),
        reg.len() <= usize::MAX,
        0 <= a < reg.len(),
        reg[a].is_directory,
    ensures
        agg_size(reg, a) == kids_agg(reg, a),
{
    lemma_agg_partition(reg, a, reg.len() as int);
}

/// For every bound `n`, the partial aggregate of `a` equals the sum
/// of its children's partial aggregates.
proof fn lemma_agg_partition(reg: Seq<DiscoveredNode>, a: int, n: int)
    requires
        wf_nodes(reg),
        reg.len() <= usize::MAX,
        0 <= a < reg.len(),
        reg[a].is_directory,
        0 <= n <= reg.len(),
    ensures
        agg_upto(reg, a, n) == kids_agg_upto(reg, a, n, reg.len() as int),
    decreases n,
{
    let m = reg.len() as int;
    if n <= 0 {
        lemma_kids_agg_zero(reg, a, m);
    } else {
        lemma_agg_partition(reg, a, n - 1);
        lemma_kids_agg_step(reg, a, n - 1, m);
        assert(kids_agg_upto(reg, a, n, m) == kids_agg_upto(reg, a, n - 1, m) + hit_upto(
            reg,
            a,
            n - 1,
            m,
        ));
        if !reg[n - 1].is_directory && is_desc(reg, n - 1, a) {
            assert(n - 1 != a);
            let cstar = lemma_desc_has_child_step(reg, n - 1, a);
            lemma_hit_single(reg, a, n - 1, m, cstar);
            assert(hit_upto(reg, a, n - 1, m) == reg[n - 1].size as int);
        } else {
            lemma_hit_zero(reg, a, n - 1, m);
        }
        assert(agg_upto(reg, a, n) == agg_upto(reg, a, n - 1) + if !reg[n - 1].is_directory
            && is_desc(reg, n - 1, a) {
            reg[n - 1].size as int
        } else {
            0
        });
    }
}

/// With bound zero, every child's partial aggregate is zero.
proof fn lemma_kids_agg_zero(reg: Seq<DiscoveredNode>, a: int, m: int)
    ensures
        kids_agg_upto(reg, a, 0, m) == 0,
    decreases m,
{
    if m > 0 {
        lemma_kids_agg_zero(reg, a, m - 1);
    }
}

/// Appending an entry does not change descent among the existing ones.
pub proof fn lemma_desc_push(reg: Seq<DiscoveredNode>, x: DiscoveredNode, j: int, a: int)
    requires
        j < reg.len(),
    ensures
        is_desc(reg.push(x), j, a) == is_desc(reg, j, a),
    decreases j,
{
    if j != a && 0 <= j < reg.len() {
        match reg[j].parent {
            Some(p) => {
                if (p as int) < j {
                    lemma_desc_push(reg, x, p as int, a);
                }
            },
            None => {},
        }
    }
}

/// Appending an entry does not change the partial sums over the
/// existing prefix.
pub proof fn lemma_sums_push(reg: Seq<DiscoveredNode>, x: DiscoveredNode, a: int, n: int)
    requires
        n <= reg.len(),
    ensures
        raw_size_upto(reg.push(x), n) == raw_size_upto(reg, n),
        counted_size_upto(reg.push(x), n) == counted_size_upto(reg, n),
        counted_count_upto(reg.push(x), n) == counted_count_upto(reg, n),
        agg_upto(reg.push(x), a, n) == agg_upto(reg, a, n),
        child_count_upto(reg.push(x), a, n) == child_count_upto(reg, a, n),
    decreases n,
{
    if n > 0 {
        lemma_sums_push(reg, x, a, n - 1);
        lemma_desc_push(reg, x, n - 1, a);
    }
}

/// Entries that agree on sizes, kinds, counted flags and parents yield
/// the same partial sums and the same descent relation.
pub open spec fn same_shape_at(a: Seq<DiscoveredNode>, b: Seq<DiscoveredNode>, k: int) -> bool {
    &&& a[k].size == b[k].size
    &&& a[k].is_directory == b[k].is_directory
    &&& a[k].counted == b[k].counted
    &&& a[k].parent == b[k].parent
    &&& a[k].inode == b[k].inode
}

/// Descent is unchanged between two same-length registries of the same
/// shape.
pub proof fn lemma_desc_same_shape(a: Seq<DiscoveredNode>, b: Seq<DiscoveredNode>, j: int, q: int)
    requires
        a.len() == b.len(),
        forall|k: int| 0 <= k < a.len() ==> #[trigger] same_shape_at(a, b, k),
    ensures
        is_desc(a, j, q) == is_desc(b, j, q),
    decreases j,
{
    if j != q && 0 <= j < a.len() {
        assert(same_shape_at(a, b, j));
        match a[j].parent {
            Some(p) => {
                if (p as int) < j {
                    lemma_desc_same_shape(a, b, p as int, q);
                }
            },
            None => {},
        }
    }
}

/// Partial sums are unchanged between two same-length registries of
/// the same shape.
pub proof fn lemma_sums_same_shape(a: Seq<DiscoveredNode>, b: Seq<DiscoveredNode>, q: int, n: int)
    requires
        a.len() == b.len(),
        n <= a.len(),
        forall|k: int| 0 <= k < a.len() ==> #[trigger] same_shape_at(a, b, k),
    ensures
        raw_size_upto(a, n) == raw_size_upto(b, n),
        counted_size_upto(a, n) == counted_size_upto(b, n),
        counted_count_upto(a, n) == counted_count_upto(b, n),
        agg_upto(a, q, n) == agg_upto(b, q, n),
        child_count_upto(a, q, n) == child_count_upto(b, q, n),
    decreases n,
{
    if n > 0 {
        lemma_sums_same_shape(a, b, q, n - 1);
        lemma_desc_same_shape(a, b, n - 1, q);
        assert(same_shape_at(a, b, n - 1));
    }
}

/// The shared registry of one scan session.
pub struct Registry {
    /// Discovered nodes, in insertion order; a node's index is its id.
    pub nodes: Vec<DiscoveredNode>,
    /// Sum of the sizes of all non-directory nodes, hard links included
    /// as many times as they occur.  Kept exact so that no subtree
    /// aggregation can overflow.
    pub raw_size: u64,
}

impl Registry {
    /// Well-formedness: structural invariants hold, paths are unique,
    /// and `raw_size` is exactly the raw size sum.
    pub open spec fn wf(self) -> bool {
        &&& wf_nodes(self.nodes@)
        &&& paths_unique(self.nodes@)
        &&& self.raw_size as int == spec_raw_size(self.nodes@)
    }

    /// Creates an empty registry.
    pub fn new() -> (r: Registry)
        ensures
            r.wf(),
            r.nodes@.len() == 0,
    {
        Registry { nodes: Vec::new(), raw_size: 0 }
    }

    /// Number of discovered nodes.
    pub fn len(&self) -> (n: usize)
        ensures
            n == self.nodes@.len(),
    {
        self.nodes.len()
    }

    /// Looks a node up by path; returns its id.
    pub fn get(&self, path: &str) -> (r: Option<usize>)
        ensures
            match r {
                Some(i) => i < self.nodes@.len() && self.nodes@[i as int].path@ == path@,
                None => forall|i: int|
                    0 <= i < self.nodes@.len() ==> #[trigger] self.nodes@[i].path@ != path@,
            },
    {
        let mut i: usize = 0;
        while i < self.nodes.len()
            invariant
                i <= self.nodes@.len(),
                forall|k: int| 0 <= k < i ==> #[trigger] self.nodes@[k].path@ != path@,
            decreases self.nodes@.len() - i,
        {
            if crate::text::str_eq(self.nodes[i].path.as_str(), path) {
                return Some(i);
            }
            i = i + 1;
        }
        None
    }

    /// Inserts a node discovered by the traversal.  The first write for
    /// a path wins: if the path is already registered, nothing changes
    /// and the existing id is returned with `false`.
    pub fn upsert(&mut self, node: DiscoveredNode) -> (r: (usize, bool))
        requires
            old(self).wf(),
            node.parent matches Some(p) ==> p < old(self).nodes@.len()
                && old(self).nodes@[p as int].is_directory,
            node.is_directory ==> !node.is_symlink && node.size == 0 && !node.counted
                && node.inode is None,
            node.is_symlink ==> node.size == 0,
            node.counted ==> !node.is_directory,
            old(self).raw_size + node.size <= u64::MAX,
        ensures
            final(self).wf(),
            old(self).nodes@.is_prefix_of(final(self).nodes@),
            r.0 < final(self).nodes@.len(),
            if r.1 {
                &&& (forall|i: int|
                    0 <= i < old(self).nodes@.len() ==> #[trigger] old(self).nodes@[i].path@
                        != node.path@)
                &&& final(self).nodes@ == old(self).nodes@.push(node)
                &&& r.0 == old(self).nodes@.len()
                &&& final(self).raw_size == old(self).raw_size + if !node.is_directory {
                    node.size as int
                } else {
                    0
                }
            } else {
                &&& *final(self) == *old(self)
                &&& final(self).nodes@[r.0 as int].path@ == node.path@
            },
    {
        let existing = self.get(node.path.as_str());
        match existing {
            Some(i) => (i, false),
            None => {
                let ghost old_nodes = self.nodes@;
                let id = self.nodes.len();
                if !node.is_directory {
                    self.raw_size = self.raw_size + node.size;
                }
                self.nodes.push(node);
                proof {
                    assert forall|i: int| 0 <= i < self.nodes@.len() implies #[trigger] wf_node_at(
                        self.nodes@,
                        i,
                    ) by {
                        if i < old_nodes.len() {
                            assert(wf_node_at(old_nodes, i));
                        }
                    }
                    lemma_sums_push(old_nodes, self.nodes@[old_nodes.len() as int], 0, old_nodes.len() as int);
                    assert(self.nodes@ == old_nodes.push(self.nodes@[old_nodes.len() as int]));
                }
                (id, true)
            },
        }
    }

    /// Marks the node with the given id as completely enumerated.
    pub fn mark_complete(&mut self, id: usize)
        requires
            old(self).wf(),
            id < old(self).nodes@.len(),
        ensures
            final(self).wf(),
            final(self).nodes@.len() == old(self).nodes@.len(),
            final(self).nodes@ == old(self).nodes@.update(
                id as int,
                DiscoveredNode { is_complete: true, ..old(self).nodes@[id as int] },
            ),
            final(self).raw_size == old(self).raw_size,
            forall|q: int, n: int|
                n <= old(self).nodes@.len() ==> #[trigger] agg_upto(final(self).nodes@, q, n)
                    == agg_upto(old(self).nodes@, q, n),
    {
        let ghost old_nodes = self.nodes@;
        let mut taken = DiscoveredNode {
            path: String::new(),
            name: String::new(),
            size: 0,
            is_directory: false,
            is_symlink: false,
            file_type: FileType::Other,
            modified: 0,
            parent: None,
            is_complete: false,
            inode: None,
            counted: false,
        };
        self.nodes.set_and_swap(id, &mut taken);
        taken.is_complete = true;
        self.nodes.set_and_swap(id, &mut taken);
        proof {
            assert(self.nodes@ =~= old_nodes.update(
                id as int,
                DiscoveredNode { is_complete: true, ..old_nodes[id as int] },
            ));
            assert forall|k: int| 0 <= k < old_nodes.len() implies #[trigger] same_shape_at(
                self.nodes@,
                old_nodes,
                k,
            ) by {}
            assert forall|i: int| 0 <= i < self.nodes@.len() implies #[trigger] wf_node_at(
                self.nodes@,
                i,
            ) by {
                assert(wf_node_at(old_nodes, i));
            }
            assert forall|q: int, n: int| n <= old_nodes.len() implies #[trigger] agg_upto(
                self.nodes@,
                q,
                n,
            ) == agg_upto(old_nodes, q, n) by {
                lemma_sums_same_shape(self.nodes@, old_nodes, q, n);
            }
            lemma_sums_same_shape(self.nodes@, old_nodes, 0, old_nodes.len() as int);
        }
    }
}

} // verus!
