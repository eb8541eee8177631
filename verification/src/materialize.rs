//! The tree materializer: converts the registry into a bounded-depth,
//! size-sorted, truncated tree snapshot on demand.
//!
//! The snapshot's directory sizes are always the true aggregate over
//! the whole registry subtree; the *view* however is bounded: children
//! are only expanded down to a maximum depth, and each directory shows
//! at most [`TOP_CHILDREN_CAP`] children, the largest first.

use vstd::multiset::Multiset;
use vstd::prelude::*;

use crate::registry::{
    agg_size, agg_upto, child_count, child_count_upto, is_desc, lemma_agg_le_raw,
    lemma_agg_of_leaf, lemma_raw_monotone, paths_unique, wf_node_at, wf_nodes, DiscoveredNode,
    Registry,
};
use crate::types::{FileNode, FileType};

verus! {

/// Maximum number of children kept per directory in a materialized
/// view; the cap keeps snapshots cheap to render and does not affect
/// aggregate sizes.
pub const TOP_CHILDREN_CAP: usize = 100;

/// Children are in descending order of size.
pub open spec fn sorted_desc(s: Seq<FileNode>) -> bool {
    forall|i: int, j: int|
        0 <= i < j < s.len() ==> #[trigger] s[i].size >= #[trigger] s[j].size
}

/// The id of the registry entry carrying path `p`; meaningful only
/// when such an entry exists (with unique paths it is unique).
pub open spec fn entry_of(reg: Seq<DiscoveredNode>, p: Seq<char>) -> int {
    choose|i: int| 0 <= i < reg.len() && reg[i].path@ == p
}

/// With unique paths, `entry_of` recovers the id of any entry.
pub proof fn lemma_entry_of(reg: Seq<DiscoveredNode>, c: int)
    requires
        paths_unique(reg),
        0 <= c < reg.len(),
    ensures
        entry_of(reg, reg[c].path@) == c,
{
    let p = reg[c].path@;
    assert(0 <= c < reg.len() && reg[c].path@ == p);
    let i = entry_of(reg, p);
    assert(0 <= i < reg.len() && reg[i].path@ == p);
}

/// The materialized node `t` is a faithful bounded view of registry
/// entry `id`: its metadata matches the entry, its `size` is the true
/// aggregate size of the whole registry subtree (the sum of the sizes
/// of all non-directory descendants, regardless of any view bounds),
/// its children are views of children of `id`, sorted by descending
/// size and truncated to the cap, and nothing is expanded deeper than
/// `depth_left` levels.
pub open spec fn view_ok(t: FileNode, reg: Seq<DiscoveredNode>, id: int, depth_left: int) -> bool
    decreases t, 0int,
{
    &&& t.name@ == reg[id].name@
    &&& t.path@ == reg[id].path@
    &&& t.modified == reg[id].modified
    &&& t.is_directory == reg[id].is_directory
    &&& t.size as int == agg_size(reg, id)
    &&& t.file_type == if reg[id].is_directory {
        FileType::Other
    } else {
        reg[id].file_type
    }
    &&& sorted_desc(t.children@)
    &&& if reg[id].is_directory && depth_left > 0 {
        &&& t.children@.len() == vstd::math::min(child_count(reg, id), TOP_CHILDREN_CAP as int)
        &&& kids_ok(t.children@, reg, id, depth_left - 1)
        &&& distinct_paths(t.children@)
        &&& keeps_largest(t.children@, reg, id)
    } else {
        t.children@.len() == 0
    }
}

/// No two view children carry the same path: with the registry's
/// unique paths, each shown child is a view of a different entry.
pub open spec fn distinct_paths(s: Seq<FileNode>) -> bool {
    forall|k1: int, k2: int|
        #![trigger s[k1].path@, s[k2].path@]
        0 <= k1 < k2 < s.len() ==> s[k1].path@ != s[k2].path@
}

/// Registry entry `c` appears (by path) among the view children `s`.
pub open spec fn child_shown(s: Seq<FileNode>, reg: Seq<DiscoveredNode>, c: int) -> bool {
    exists|k: int| 0 <= k < s.len() && #[trigger] s[k].path@ == reg[c].path@
}

/// The view keeps the largest children: every child of `id` that the
/// view omits has an aggregate size no larger than the smallest kept
/// child's.
pub open spec fn keeps_largest(s: Seq<FileNode>, reg: Seq<DiscoveredNode>, id: int) -> bool {
    forall|c: int|
        #![trigger reg[c].parent]
        0 <= c < reg.len() && (reg[c].parent matches Some(q) && q == id) && !child_shown(s, reg, c)
            ==> s.len() > 0 && agg_size(reg, c) <= s[s.len() - 1].size
}

/// The node `t` is a faithful bounded view of that child of registry
/// entry `pid` which carries `t`'s path.
pub open spec fn kid_ok(t: FileNode, reg: Seq<DiscoveredNode>, pid: int, d: int) -> bool
    decreases t, 1int,
{
    let c = entry_of(reg, t.path@);
    &&& 0 <= c < reg.len()
    &&& reg[c].parent matches Some(q) && q == pid
    &&& view_ok(t, reg, c, d)
}

/// Every node of `s` is a faithful bounded view of a child of
/// registry entry `pid`.
pub open spec fn kids_ok(s: Seq<FileNode>, reg: Seq<DiscoveredNode>, pid: int, d: int) -> bool
    decreases s, 2int,
{
    if s.len() == 0 {
        true
    } else {
        kid_ok(s[0], reg, pid, d) && kids_ok(s.subrange(1, s.len() as int), reg, pid, d)
    }
}

/// `kids_ok` holds when it holds of every element.
proof fn lemma_kids_ok_intro(s: Seq<FileNode>, reg: Seq<DiscoveredNode>, pid: int, d: int)
    requires
        forall|k: int| 0 <= k < s.len() ==> #[trigger] kid_ok(s[k], reg, pid, d),
    ensures
        kids_ok(s, reg, pid, d),
    decreases s.len(),
{
    if s.len() > 0 {
        let rest = s.subrange(1, s.len() as int);
        assert(kid_ok(s[0], reg, pid, d));
        assert forall|k: int| 0 <= k < rest.len() implies #[trigger] kid_ok(
            rest[k],
            reg,
            pid,
            d,
        ) by {
            assert(rest[k] == s[k + 1]);
            assert(kid_ok(s[k + 1], reg, pid, d));
        }
        lemma_kids_ok_intro(rest, reg, pid, d);
    }
}

/// `kids_ok` gives the property of every element.
proof fn lemma_kids_ok_elim(s: Seq<FileNode>, reg: Seq<DiscoveredNode>, pid: int, d: int, k: int)
    requires
        kids_ok(s, reg, pid, d),
        0 <= k < s.len(),
    ensures
        kid_ok(s[k], reg, pid, d),
    decreases k,
{
    if k > 0 {
        let rest = s.subrange(1, s.len() as int);
        lemma_kids_ok_elim(rest, reg, pid, d, k - 1);
        assert(rest[k - 1] == s[k]);
    }
}

/// The memoization cache is indexed by registry id and only ever
/// holds true aggregate sizes.
pub open spec fn cache_ok(cache: Seq<Option<u64>>, reg: Seq<DiscoveredNode>) -> bool {
    &&& cache.len() == reg.len()
    &&& forall|i: int|
        0 <= i < cache.len() ==> (#[trigger] cache[i] matches Some(s) ==> s as int == agg_size(
            reg,
            i,
        ))
}

/// A parent-to-children index entry is sound (every listed id is a
/// child of `p` that comes after it), complete (every child of `p` is
/// listed) and strictly increasing.
pub open spec fn idx_entry_ok(ids: Seq<usize>, reg: Seq<DiscoveredNode>, p: usize) -> bool {
    &&& (forall|k: int|
        0 <= k < ids.len() ==> p < #[trigger] ids[k] < reg.len() && reg[ids[k] as int].parent
            == Some(p))
    &&& (forall|c: usize| c < reg.len() && #[trigger] reg[c as int].parent == Some(p)
        ==> ids.contains(c))
    &&& (forall|k1: int, k2: int|
        #![trigger ids[k1], ids[k2]]
        0 <= k1 < k2 < ids.len() ==> ids[k1] < ids[k2])
    &&& ids.len() == child_count(reg, p as int)
}

/// The whole parent-to-children index is correct.
pub open spec fn idx_ok(idx: Seq<Vec<usize>>, reg: Seq<DiscoveredNode>) -> bool {
    &&& idx.len() == reg.len()
    &&& forall|p: int| 0 <= p < idx.len() ==> idx_entry_ok(#[trigger] idx[p]@, reg, p as usize)
}

/// Walks parent links upward to decide whether `j` lies in the
/// subtree rooted at `a`.
pub fn is_descendant(nodes: &Vec<DiscoveredNode>, j: usize, a: usize) -> (r: bool)
    requires
        wf_nodes(nodes@),
        j < nodes@.len(),
    ensures
        r == is_desc(nodes@, j as int, a as int),
{
    let mut cur = j;
    loop
        invariant
            wf_nodes(nodes@),
            cur < nodes@.len(),
            is_desc(nodes@, j as int, a as int) == is_desc(nodes@, cur as int, a as int),
        decreases cur,
    {
        if cur == a {
            return true;
        }
        proof {
            assert(wf_node_at(nodes@, cur as int));
        }
        match nodes[cur].parent {
            Some(p) => {
                cur = p;
            },
            None => {
                return false;
            },
        }
    }
}

/// Computes the true aggregate size of the subtree rooted at `id`,
/// with memoization: the sum of the sizes of all non-directory
/// descendants.  Never overflows, because the registry keeps the raw
/// size sum exact in a machine word.
pub fn calculate_dir_size_lazy(reg: &Registry, cache: &mut Vec<Option<u64>>, id: usize) -> (r: u64)
    requires
        reg.wf(),
        id < reg.nodes@.len(),
        cache_ok(old(cache)@, reg.nodes@),
    ensures
        cache_ok(final(cache)@, reg.nodes@),
        r as int == agg_size(reg.nodes@, id as int),
{
    if let Some(s) = cache[id] {
        return s;
    }
    let n = reg.nodes.len();
    if !reg.nodes[id].is_directory {
        let s = reg.nodes[id].size;
        proof {
            lemma_agg_of_leaf(reg.nodes@, id as int, n as int);
        }
        cache.set(id, Some(s));
        return s;
    }
    let mut acc: u64 = 0;
    let mut j: usize = 0;
    while j < n
        invariant
            reg.wf(),
            id < n,
            n == reg.nodes@.len(),
            j <= n,
            acc as int == agg_upto(reg.nodes@, id as int, j as int),
        decreases n - j,
    {
        proof {
            lemma_agg_le_raw(reg.nodes@, id as int, j + 1);
            lemma_raw_monotone(reg.nodes@, j + 1, n as int);
        }
        if !reg.nodes[j].is_directory && is_descendant(&reg.nodes, j, id) {
            acc = acc + reg.nodes[j].size;
        }
        j = j + 1;
    }
    cache.set(id, Some(acc));
    acc
}

/// Builds the parent-to-children index for one materialization
/// request.
fn build_child_index(reg: &Registry) -> (idx: Vec<Vec<usize>>)
    requires
        reg.wf(),
    ensures
        idx_ok(idx@, reg.nodes@),
{
    let n = reg.nodes.len();
    let mut idx: Vec<Vec<usize>> = Vec::new();
    let mut p: usize = 0;
    while p < n
        invariant
            reg.wf(),
            n == reg.nodes@.len(),
            p <= n,
            idx@.len() == p,
            forall|q: int| 0 <= q < p ==> idx_entry_ok(#[trigger] idx@[q]@, reg.nodes@, q as usize),
        decreases n - p,
    {
        let mut ids: Vec<usize> = Vec::new();
        let mut j: usize = 0;
        while j < n
            invariant
                reg.wf(),
                n == reg.nodes@.len(),
                p < n,
                j <= n,
                forall|k: int|
                    0 <= k < ids@.len() ==> p < #[trigger] ids@[k] < j
                        && reg.nodes@[ids@[k] as int].parent == Some(p),
                forall|c: usize| c < j && #[trigger] reg.nodes@[c as int].parent == Some(p)
                    ==> ids@.contains(c),
                forall|k1: int, k2: int|
                    #![trigger ids@[k1], ids@[k2]]
                    0 <= k1 < k2 < ids@.len() ==> ids@[k1] < ids@[k2],
                ids@.len() == child_count_upto(reg.nodes@, p as int, j as int),
            decreases n - j,
        {
            let is_child = match reg.nodes[j].parent {
                Some(q) => q == p,
                None => false,
            };
            if is_child {
                proof {
                    assert(wf_node_at(reg.nodes@, j as int));
                }
                let ghost old_ids = ids@;
                ids.push(j);
                proof {
                    assert forall|c: usize|
                        c < j + 1 && #[trigger] reg.nodes@[c as int].parent == Some(p)
                        implies ids@.contains(c) by {
                        if c < j {
                            let m = choose|m: int| 0 <= m < old_ids.len() && old_ids[m] == c;
                            assert(ids@[m] == c);
                        } else {
                            assert(ids@[old_ids.len() as int] == c);
                        }
                    }
                }
            }
            j = j + 1;
        }
        idx.push(ids);
        p = p + 1;
    }
    idx
}

/// Extracts a size-descending ordering of sibling nodes: the result
/// holds exactly the same nodes, sorted by descending size.
fn sort_children_desc(v: Vec<FileNode>) -> (r: Vec<FileNode>)
    ensures
        sorted_desc(r@),
        r@.to_multiset() == v@.to_multiset(),
        r@.len() == v@.len(),
{
    broadcast use vstd::seq_lib::group_to_multiset_ensures;

    let mut src = v;
    let mut out: Vec<FileNode> = Vec::new();
    let ghost all = v@;
    proof {
        assert(out@.to_multiset().add(src@.to_multiset()) =~= all.to_multiset());
    }
    while src.len() > 0
        invariant
            out@.to_multiset().add(src@.to_multiset()) == all.to_multiset(),
            out@.len() + src@.len() == all.len(),
            sorted_desc(out@),
            forall|a: int, b: int|
                0 <= a < out@.len() && 0 <= b < src@.len() ==> #[trigger] out@[a].size
                    >= #[trigger] src@[b].size,
        decreases src@.len(),
    {
        let mut m: usize = 0;
        let mut k: usize = 1;
        while k < src.len()
            invariant
                src@.len() > 0,
                m < k <= src@.len(),
                forall|b: int| 0 <= b < k ==> src@[m as int].size >= #[trigger] src@[b].size,
            decreases src@.len() - k,
        {
            if src[k].size > src[m].size {
                m = k;
            }
            k = k + 1;
        }
        let ghost old_src = src@;
        let ghost old_out = out@;
        let x = src.remove(m);
        out.push(x);
        proof {
            old_src.to_multiset_ensures();
            old_out.to_multiset_ensures();
            assert(old_src.remove(m as int).to_multiset() =~= old_src.to_multiset().remove(
                old_src[m as int],
            ));
            assert(out@.to_multiset() =~= old_out.to_multiset().insert(old_src[m as int]));
            assert(out@.to_multiset().add(src@.to_multiset()) =~= all.to_multiset());
            assert forall|b: int| 0 <= b < src@.len() implies out@[out@.len() - 1].size
                >= #[trigger] src@[b].size by {
                if b < m {
                    assert(src@[b] == old_src[b]);
                } else {
                    assert(src@[b] == old_src[b + 1]);
                }
            }
        }
    }
    proof {
        assert(src@.to_multiset() =~= Multiset::<FileNode>::empty());
        assert(out@.to_multiset() =~= all.to_multiset());
        assert(out@.len() == all.len());
    }
    out
}

/// Every member of a sequence with the same multiset as another is a
/// member of the other.
proof fn lemma_multiset_member(a: Seq<FileNode>, b: Seq<FileNode>, k: int)
    requires
        a.to_multiset() == b.to_multiset(),
        0 <= k < a.len(),
    ensures
        exists|m: int| 0 <= m < b.len() && b[m] == a[k],
{
    broadcast use vstd::seq_lib::group_to_multiset_ensures;

    assert(a.contains(a[k]));
    assert(a.to_multiset().count(a[k]) > 0);
    assert(b.contains(a[k]));
    let m = choose|m: int| 0 <= m < b.len() && b[m] == a[k];
    assert(b[m] == a[k]);
}

/// Builds the bounded view of the subtree rooted at `id`.
///
/// Children are expanded only while `current_depth < max_depth`, then
/// sorted by descending size and truncated to the cap; the node's own
/// size is always the true aggregate for the whole registry subtree,
/// computed lazily with memoization.
pub fn build_tree_recursive_lazy(
    reg: &Registry,
    idx: &Vec<Vec<usize>>,
    cache: &mut Vec<Option<u64>>,
    id: usize,
    current_depth: usize,
    max_depth: usize,
) -> (t: FileNode)
    requires
        reg.wf(),
        idx_ok(idx@, reg.nodes@),
        cache_ok(old(cache)@, reg.nodes@),
        id < reg.nodes@.len(),
    ensures
        cache_ok(final(cache)@, reg.nodes@),
        view_ok(t, reg.nodes@, id as int, max_depth - current_depth),
    decreases reg.nodes@.len() - id,
{
    let ghost depth_left = max_depth - current_depth;
    let total = reg.nodes.len();
    proof {
        assert(reg.nodes@.len() == total);
    }
    let node_is_dir = reg.nodes[id].is_directory;
    let mut children: Vec<FileNode> = Vec::new();

    if node_is_dir && current_depth < max_depth {
        let ids = &idx[id];
        let mut k: usize = 0;
        while k < ids.len()
            invariant
                reg.wf(),
                idx_ok(idx@, reg.nodes@),
                cache_ok(cache@, reg.nodes@),
                id < reg.nodes@.len(),
                current_depth < max_depth,
                ids == &idx@[id as int],
                idx_entry_ok(ids@, reg.nodes@, id),
                k <= ids@.len(),
                children@.len() == k,
                forall|t: int|
                    0 <= t < children@.len() ==> #[trigger] kid_ok(
                        children@[t],
                        reg.nodes@,
                        id as int,
                        max_depth - current_depth - 1,
                    ),
                forall|t: int|
                    0 <= t < children@.len() ==> #[trigger] children@[t].path@ == reg.nodes@[ids@[t] as int].path@,
            decreases ids@.len() - k,
        {
            let c = ids[k];
            let child = build_tree_recursive_lazy(reg, idx, cache, c, current_depth + 1, max_depth);
            proof {
                assert(id < c && (c as int) < reg.nodes@.len());
                assert(reg.nodes@[c as int].parent == Some(id));
                assert(view_ok(child, reg.nodes@, c as int, max_depth - current_depth - 1));
                assert(child.path@ == reg.nodes@[c as int].path@);
                lemma_entry_of(reg.nodes@, c as int);
                assert(kid_ok(child, reg.nodes@, id as int, max_depth - current_depth - 1));
            }
            let ghost pre_push = children@;
            children.push(child);
            proof {
                assert forall|t: int| 0 <= t < children@.len() implies #[trigger] kid_ok(
                    children@[t],
                    reg.nodes@,
                    id as int,
                    max_depth - current_depth - 1,
                ) by {
                    if t < pre_push.len() {
                        assert(children@[t] == pre_push[t]);
                        assert(kid_ok(pre_push[t], reg.nodes@, id as int, max_depth - current_depth
                            - 1));
                    } else {
                        assert(children@[t] == child);
                    }
                }
                assert forall|t: int| 0 <= t < children@.len() implies #[trigger] children@[
                    t
                ].path@ == reg.nodes@[ids@[t] as int].path@ by {
                    if t < pre_push.len() {
                        assert(children@[t] == pre_push[t]);
                        assert(pre_push[t].path@ == reg.nodes@[ids@[t] as int].path@);
                    } else {
                        assert(children@[t] == child);
                    }
                }
            }
            k = k + 1;
        }
        proof {
            // The built children carry pairwise-distinct paths: each
            // shows a different registry entry, and registry paths
            // are unique.
            assert forall|k1: int, k2: int|
                #![trigger children@[k1].path@, children@[k2].path@]
                0 <= k1 < k2 < children@.len() implies children@[k1].path@ != children@[
                k2
            ].path@ by {
                assert(ids@[k1] < ids@[k2]);
                assert(reg.nodes@[ids@[k1] as int].path@ != reg.nodes@[ids@[k2] as int].path@);
            }
            assert(distinct_paths(children@));
            assert forall|i: int, j: int|
                0 <= i < children@.len() && 0 <= j < children@.len() && i != j implies children@[
                i
            ] != children@[j] by {
                if i < j {
                    assert(children@[i].path@ != children@[j].path@);
                } else {
                    assert(children@[j].path@ != children@[i].path@);
                }
            }
            assert(children@.no_duplicates());
            // Every child of `id` is shown among the built children.
            assert forall|c: int|
                #![trigger reg.nodes@[c].parent]
                0 <= c < reg.nodes@.len() && (reg.nodes@[c].parent matches Some(q) && q == id)
                implies child_shown(children@, reg.nodes@, c) by {
                let cu = c as usize;
                assert(cu as int == c);
                assert(reg.nodes@[cu as int].parent == Some(id));
                assert(ids@.contains(cu));
                let k0 = choose|k0: int| 0 <= k0 < ids@.len() && ids@[k0] == cu;
                assert(children@[k0].path@ == reg.nodes@[ids@[k0] as int].path@);
                assert(children@[k0].path@ == reg.nodes@[c].path@);
            }
        }
        let ghost pre_sort = children@;
        children = sort_children_desc(children);
        let ghost sorted_all = children@;
        proof {
            assert forall|t: int| 0 <= t < sorted_all.len() implies #[trigger] kid_ok(
                sorted_all[t],
                reg.nodes@,
                id as int,
                depth_left - 1,
            ) by {
                lemma_multiset_member(sorted_all, pre_sort, t);
                let m = choose|m: int| 0 <= m < pre_sort.len() && pre_sort[m] == sorted_all[t];
                assert(kid_ok(pre_sort[m], reg.nodes@, id as int, depth_left - 1));
            }
            // Distinct paths survive the reordering: the sorted nodes
            // are the same nodes, none occurring twice.
            pre_sort.lemma_multiset_has_no_duplicates();
            sorted_all.lemma_multiset_has_no_duplicates_conv();
            assert forall|k1: int, k2: int|
                #![trigger sorted_all[k1].path@, sorted_all[k2].path@]
                0 <= k1 < k2 < sorted_all.len() implies sorted_all[k1].path@ != sorted_all[
                k2
            ].path@ by {
                assert(sorted_all[k1] != sorted_all[k2]);
                lemma_multiset_member(sorted_all, pre_sort, k1);
                lemma_multiset_member(sorted_all, pre_sort, k2);
                let m1 = choose|m: int| 0 <= m < pre_sort.len() && pre_sort[m] == sorted_all[k1];
                let m2 = choose|m: int| 0 <= m < pre_sort.len() && pre_sort[m] == sorted_all[k2];
                assert(m1 != m2);
                if m1 < m2 {
                    assert(pre_sort[m1].path@ != pre_sort[m2].path@);
                } else {
                    assert(pre_sort[m2].path@ != pre_sort[m1].path@);
                }
            }
            assert(distinct_paths(sorted_all));
            // Coverage survives the reordering too.
            assert forall|c: int|
                #![trigger reg.nodes@[c].parent]
                0 <= c < reg.nodes@.len() && (reg.nodes@[c].parent matches Some(q) && q == id)
                implies child_shown(sorted_all, reg.nodes@, c) by {
                assert(child_shown(pre_sort, reg.nodes@, c));
                let k0 = choose|k0: int|
                    0 <= k0 < pre_sort.len() && #[trigger] pre_sort[k0].path@ == reg.nodes@[
                    c
                ].path@;
                lemma_multiset_member(pre_sort, sorted_all, k0);
                let m = choose|m: int| 0 <= m < sorted_all.len() && sorted_all[m] == pre_sort[k0];
                assert(sorted_all[m].path@ == reg.nodes@[c].path@);
            }
        }
        if children.len() > TOP_CHILDREN_CAP {
            let ghost pre_trunc = children@;
            children.truncate(TOP_CHILDREN_CAP);
            proof {
                assert(children@ == pre_trunc.subrange(0, TOP_CHILDREN_CAP as int));
            }
        }
        proof {
            // The final children are a prefix of the sorted run.
            assert(children@.len() <= sorted_all.len());
            assert(forall|t: int| 0 <= t < children@.len() ==> #[trigger] children@[t]
                == sorted_all[t]);
            assert forall|t: int| 0 <= t < children@.len() implies #[trigger] kid_ok(
                children@[t],
                reg.nodes@,
                id as int,
                depth_left - 1,
            ) by {
                assert(children@[t] == sorted_all[t]);
                assert(kid_ok(sorted_all[t], reg.nodes@, id as int, depth_left - 1));
            }
            assert forall|i: int, j: int| 0 <= i < j < children@.len() implies children@[i].size
                >= children@[j].size by {
                assert(children@[i] == sorted_all[i]);
                assert(children@[j] == sorted_all[j]);
            }
            assert forall|k1: int, k2: int|
                #![trigger children@[k1].path@, children@[k2].path@]
                0 <= k1 < k2 < children@.len() implies children@[k1].path@ != children@[
                k2
            ].path@ by {
                assert(children@[k1] == sorted_all[k1]);
                assert(children@[k2] == sorted_all[k2]);
                assert(sorted_all[k1].path@ != sorted_all[k2].path@);
            }
            assert(children@.len() == vstd::math::min(
                child_count(reg.nodes@, id as int),
                TOP_CHILDREN_CAP as int,
            ));
            assert(sorted_desc(children@));
            assert(distinct_paths(children@));
            lemma_kids_ok_intro(children@, reg.nodes@, id as int, depth_left - 1);
            // Whatever the cap cut away is no larger than the
            // smallest kept child.
            assert forall|c: int|
                #![trigger reg.nodes@[c].parent]
                0 <= c < reg.nodes@.len() && (reg.nodes@[c].parent matches Some(q) && q == id)
                    && !child_shown(children@, reg.nodes@, c) implies children@.len() > 0
                && agg_size(reg.nodes@, c) <= children@[children@.len() - 1].size by {
                assert(child_shown(sorted_all, reg.nodes@, c));
                let m = choose|m: int|
                    0 <= m < sorted_all.len() && #[trigger] sorted_all[m].path@ == reg.nodes@[
                    c
                ].path@;
                if m < children@.len() {
                    assert(children@[m] == sorted_all[m]);
                    assert(children@[m].path@ == reg.nodes@[c].path@);
                    assert(child_shown(children@, reg.nodes@, c));
                } else {
                    assert(children@.len() > 0);
                    assert(kid_ok(sorted_all[m], reg.nodes@, id as int, depth_left - 1));
                    lemma_entry_of(reg.nodes@, c);
                    assert(entry_of(reg.nodes@, sorted_all[m].path@) == c);
                    assert(sorted_all[m].size as int == agg_size(reg.nodes@, c));
                    let last = children@.len() - 1;
                    assert(children@[last] == sorted_all[last]);
                    assert(sorted_all[last].size >= sorted_all[m].size);
                }
            }
            assert(keeps_largest(children@, reg.nodes@, id as int));
        }
    }

    let ghost ch = children@;
    let dir_size = calculate_dir_size_lazy(reg, cache, id);

    proof {
        if !node_is_dir {
            lemma_agg_of_leaf(reg.nodes@, id as int, reg.nodes@.len() as int);
        }
    }

    let result = FileNode {
        name: reg.nodes[id].name.clone(),
        path: reg.nodes[id].path.clone(),
        size: dir_size,
        is_directory: node_is_dir,
        file_type: if node_is_dir {
            FileType::Other
        } else {
            reg.nodes[id].file_type
        },
        children,
        modified: reg.nodes[id].modified,
    };
    proof {
        assert(result.children@ == ch);
        assert(view_ok(result, reg.nodes@, id as int, depth_left));
    }
    result
}

/// Materializes the bounded tree for the registry entry whose path is
/// `path`, or `None` if no such entry was discovered.
///
/// The returned tree's directory sizes are true aggregates over the
/// whole registry, whatever `max_depth` and the child cap cut from
/// the view.
pub fn build_tree_from_registry_with_depth(reg: &Registry, path: &str, max_depth: usize) -> (r:
    Option<FileNode>)
    requires
        reg.wf(),
    ensures
        match r {
            Some(t) => exists|root: int|
                0 <= root < reg.nodes@.len() && reg.nodes@[root].path@ == path@ && view_ok(
                    t,
                    reg.nodes@,
                    root,
                    max_depth as int,
                ),
            None => forall|i: int|
                0 <= i < reg.nodes@.len() ==> #[trigger] reg.nodes@[i].path@ != path@,
        },
{
    let root_id = match reg.get(path) {
        Some(i) => i,
        None => {
            return None;
        },
    };
    let idx = build_child_index(reg);
    let mut cache: Vec<Option<u64>> = Vec::new();
    let n = reg.nodes.len();
    let mut i: usize = 0;
    while i < n
        invariant
            i <= n,
            n == reg.nodes@.len(),
            cache@.len() == i,
            forall|q: int| 0 <= q < i ==> #[trigger] cache@[q] is None,
        decreases n - i,
    {
        cache.push(None);
        i = i + 1;
    }
    let tree = build_tree_recursive_lazy(reg, &idx, &mut cache, root_id, 0, max_depth);
    proof {
        assert(0 <= (root_id as int) < reg.nodes@.len() && reg.nodes@[root_id as int].path@
            == path@ && view_ok(tree, reg.nodes@, root_id as int, max_depth as int));
    }
    Some(tree)
}

} // verus!
