use vstd::prelude::*;

use crate::tree::arena::{lemma_concat_contains, TreeArena};
use crate::tree::node::{EntryFlags, NodeId, TreeNode};
use std::collections::HashSet;

verus! {

broadcast use vstd::std_specs::hash::group_hash_axioms;

/// Totals of a subtree.
#[derive(Clone, Copy, Debug, PartialEq, Eq, Structural)]
pub struct AggregateStats {
    pub total_asize: i64,
    pub total_dsize: i64,
    pub item_count: u32,
    pub dir_count: u32,
    pub file_count: u32,
    pub latest_mtime: i64,
    pub shared_size: i64,
}

impl AggregateStats {
    pub open spec fn zero() -> AggregateStats {
        AggregateStats {
            total_asize: 0,
            total_dsize: 0,
            item_count: 0,
            dir_count: 0,
            file_count: 0,
            latest_mtime: 0,
            shared_size: 0,
        }
    }
}

impl Default for AggregateStats {
    fn default() -> (r: AggregateStats)
        ensures
            r == AggregateStats::zero(),
    {
        AggregateStats {
            total_asize: 0,
            total_dsize: 0,
            item_count: 0,
            dir_count: 0,
            file_count: 0,
            latest_mtime: 0,
            shared_size: 0,
        }
    }
}

/// Exact totals of a subtree, as mathematical integers: apparent size, disk
/// usage, items, directories, files, latest modification time, shared size.
pub type Totals = (int, int, int, int, int, int, int);

/// The modification time of a node, 0 when it has no extended information.
pub open spec fn mtime_of(n: TreeNode) -> int {
    match n.extended {
        Some(e) => e.mtime as int,
        None => 0,
    }
}

/// A file (not a directory) that carries the hard link flag.
pub open spec fn is_link_file(n: TreeNode) -> bool {
    !n.spec_is_dir() && EntryFlags::has(n.flags.bits, 128)
}

/// The key that identifies the inode of a node.
pub open spec fn link_key(n: TreeNode) -> (u64, u64) {
    (n.dev, n.ino)
}

pub open spec fn max_int(a: int, b: int) -> int {
    if a >= b {
        a
    } else {
        b
    }
}

/// Adds the totals `t` of a child to the running totals `acc` of a directory.
pub open spec fn add_totals(acc: Totals, t: Totals) -> Totals {
    (
        acc.0 + t.0,
        acc.1 + t.1,
        acc.2 + t.2,
        acc.3 + t.3,
        acc.4 + t.4,
        max_int(acc.5, t.5),
        acc.6 + t.6,
    )
}

/// The totals fit the field types of `AggregateStats`.
pub open spec fn fits(t: Totals) -> bool {
    &&& i64::MIN <= t.0 <= i64::MAX
    &&& i64::MIN <= t.1 <= i64::MAX
    &&& 0 <= t.2 <= u32::MAX
    &&& 0 <= t.3 <= u32::MAX
    &&& 0 <= t.4 <= u32::MAX
    &&& i64::MIN <= t.5 <= i64::MAX
    &&& i64::MIN <= t.6 <= i64::MAX
}

/// The totals recorded in `s`.
pub open spec fn totals_of(s: AggregateStats) -> Totals {
    (
        s.total_asize as int,
        s.total_dsize as int,
        s.item_count as int,
        s.dir_count as int,
        s.file_count as int,
        s.latest_mtime as int,
        s.shared_size as int,
    )
}

/// The statistics record holding the totals `t`.
pub open spec fn to_stats(t: Totals) -> AggregateStats {
    AggregateStats {
        total_asize: t.0 as i64,
        total_dsize: t.1 as i64,
        item_count: t.2 as u32,
        dir_count: t.3 as u32,
        file_count: t.4 as u32,
        latest_mtime: t.5 as i64,
        shared_size: t.6 as i64,
    }
}

impl TreeArena {
    /// Within the traversal `po`, the file `x` is the first occurrence of its
    /// inode (or is no hard link at all), so its sizes count.
    pub open spec fn counted(&self, po: Seq<int>, x: int) -> bool {
        !is_link_file(self.nodes@[x]) || !exists|i: int, j: int|
            0 <= i < j < po.len() && po[j] == x && is_link_file(self.nodes@[po[i]]) && link_key(
                self.nodes@[po[i]],
            ) == link_key(self.nodes@[x])
    }

    /// Totals of the file `x`: its sizes when counted (0 otherwise), one item,
    /// one file, its modification time, and its disk usage as shared size when
    /// it is a hard link.
    pub open spec fn file_totals(&self, po: Seq<int>, x: int) -> Totals {
        let n = self.nodes@[x];
        let c = self.counted(po, x);
        (
            if c {
                n.asize as int
            } else {
                0
            },
            if c {
                n.dsize as int
            } else {
                0
            },
            1,
            0,
            1,
            mtime_of(n),
            if EntryFlags::has(n.flags.bits, 128) {
                n.dsize as int
            } else {
                0
            },
        )
    }

    /// Totals of the subtree rooted at `x`; hard links are counted by their
    /// first occurrence in the traversal `po`.
    pub open spec fn totals(&self, po: Seq<int>, x: int) -> Totals
        decreases self.len() - x, self.nkids(x) + 1,
    {
        if 0 <= x < self.len() && 0 <= self.nkids(x) {
            let n = self.nodes@[x];
            if n.spec_is_dir() {
                let a = self.kids_totals(po, x, self.nkids(x));
                (
                    a.0 + n.asize,
                    a.1 + n.dsize,
                    a.2 + 1,
                    a.3,
                    a.4,
                    max_int(a.5, mtime_of(n)),
                    a.6,
                )
            } else {
                self.file_totals(po, x)
            }
        } else {
            (0, 0, 0, 0, 0, 0, 0)
        }
    }

    /// Running totals of the directory `x` after its first `k` children: one
    /// directory (itself) plus the totals of those children.
    pub open spec fn kids_totals(&self, po: Seq<int>, x: int, k: int) -> Totals
        decreases self.len() - x, k,
    {
        if 0 <= x < self.len() && 0 < k <= self.nkids(x) {
            let c = self.kid(x, k - 1);
            let acc = self.kids_totals(po, x, k - 1);
            if x < c < self.len() {
                add_totals(acc, self.totals(po, c))
            } else {
                acc
            }
        } else {
            (0, 0, 0, 1, 0, 0, 0)
        }
    }

    /// The statistics of the tree fit their field types at every step of
    /// their computation, partial sums over the children included.
    pub open spec fn stats_fit(&self) -> bool {
        let po = self.post_order(self.root.0 as int);
        forall|x: int|
            #![trigger po.contains(x)]
            po.contains(x) && self.nodes@[x].spec_is_dir() ==> fits(self.totals(po, x)) && forall|
                k: int,
            |
                0 <= k <= self.nkids(x) ==> #[trigger] fits(self.kids_totals(po, x, k))
    }

    /// The nodes still to be listed by a post-order traversal whose stack of
    /// (node, next child) frames is `stack`.
    pub open spec fn pending(&self, stack: Seq<(NodeId, usize)>) -> Seq<int>
        decreases stack.len(),
    {
        if stack.len() == 0 {
            Seq::empty()
        } else {
            let top = stack.last();
            self.post_from(top.0.0 as int, top.1 as int).push(top.0.0 as int) + self.pending(
                stack.drop_last(),
            )
        }
    }

    pub proof fn lemma_pending_len(&self, stack: Seq<(NodeId, usize)>)
        ensures
            self.pending(stack).len() >= stack.len(),
        decreases stack.len(),
    {
        if stack.len() > 0 {
            self.lemma_pending_len(stack.drop_last());
        }
    }

    /// The post-order of `x` is a contiguous block of the post-order of any
    /// node whose subtree holds `x`.
    pub proof fn lemma_post_order_block(&self, r: int, x: int)
        requires
            self.wf(),
            0 <= r < self.len(),
            self.post_order(r).contains(x),
        ensures
            exists|off: int|
                0 <= off && off + self.post_order(x).len() <= self.post_order(r).len()
                    && #[trigger] self.post_order(r).subrange(off, off + self.post_order(x).len())
                    == self.post_order(x),
        decreases self.len() - r, self.nkids(r) + 1,
    {
        let po = self.post_order(r);
        assert(po =~= self.post_from(r, 0) + seq![r]);
        lemma_concat_contains(self.post_from(r, 0), seq![r], x);
        if x == r {
            assert(self.post_order(r).subrange(0int, 0int + self.post_order(x).len()) =~= self.post_order(
                x,
            ));
        } else {
            assert(!seq![r].contains(x)) by {
                if seq![r].contains(x) {
                    let i = choose|i: int| 0 <= i < 1 && seq![r][i] == x;
                }
            }
            self.lemma_post_from_block(r, 0, x);
            let off = choose|off: int|
                0 <= off && off + self.post_order(x).len() <= self.post_from(r, 0).len()
                    && #[trigger] self.post_from(r, 0).subrange(off, off + self.post_order(x).len())
                    == self.post_order(x);
            assert(self.post_order(r).subrange(off, off + self.post_order(x).len()) =~= self.post_from(
                r,
                0,
            ).subrange(off, off + self.post_order(x).len()));
        }
    }

    pub proof fn lemma_post_from_block(&self, n: int, k: int, x: int)
        requires
            self.wf(),
            0 <= n < self.len(),
            0 <= k,
            self.post_from(n, k).contains(x),
        ensures
            exists|off: int|
                0 <= off && off + self.post_order(x).len() <= self.post_from(n, k).len()
                    && #[trigger] self.post_from(n, k).subrange(off, off + self.post_order(x).len())
                    == self.post_order(x),
        decreases self.len() - n, self.nkids(n) - k,
    {
        if k < self.nkids(n) {
            let c = self.kid(n, k);
            assert(n < c < self.len());
            let a = self.post_order(c);
            let b = self.post_from(n, k + 1);
            assert(self.post_from(n, k) == a + b);
            lemma_concat_contains(a, b, x);
            let lx = self.post_order(x).len();
            if a.contains(x) {
                self.lemma_post_order_block(c, x);
                let off = choose|off: int|
                    0 <= off && off + lx <= a.len() && #[trigger] a.subrange(off, off + lx)
                        == self.post_order(x);
                assert(self.post_from(n, k).subrange(off, off + lx) =~= a.subrange(off, off + lx));
            } else {
                self.lemma_post_from_block(n, k + 1, x);
                let off = choose|off: int|
                    0 <= off && off + lx <= b.len() && #[trigger] b.subrange(off, off + lx)
                        == self.post_order(x);
                assert(self.post_from(n, k).subrange(a.len() + off, a.len() + off + lx) =~= b.subrange(
                    off,
                    off + lx,
                ));
            }
        }
    }

    /// In a post-order without repetition, the children of the node at
    /// position `k` all come before position `k`.
    pub proof fn lemma_kids_before(&self, r: int, k: int, j: int)
        requires
            self.wf(),
            0 <= r < self.len(),
            0 <= k < self.post_order(r).len(),
            0 <= j < self.nkids(self.post_order(r)[k]),
        ensures
            self.post_order(r).subrange(0, k).contains(self.kid(self.post_order(r)[k], j)),
    {
        let po = self.post_order(r);
        let x = po[k];
        let c = self.kid(x, j);
        self.lemma_post_order_desc(r);
        assert(po.contains(x));
        self.lemma_post_order_block(r, x);
        self.lemma_post_order_nodup(r);
        self.lemma_post_order_nodup(x);
        self.lemma_post_order_members(x);
        let px = self.post_order(x);
        let lx = px.len();
        let off = choose|off: int|
            0 <= off && off + lx <= po.len() && #[trigger] po.subrange(off, off + lx) == px;
        assert(px[lx - 1] == x);
        assert(po[off + lx - 1] == x);
        assert(off + lx - 1 == k);
        self.lemma_post_order_members(c);
        assert(self.post_order(c).contains(c));
        assert(self.post_order(self.kid(x, j)).contains(c));
        assert(px.contains(c));
        let p = choose|p: int| 0 <= p < lx && px[p] == c;
        assert(c != x) by {
            assert(x < c);
        }
        assert(p != lx - 1);
        assert(po[off + p] == c);
        assert(po.subrange(0, k)[off + p] == c);
    }

    /// Law: two hard-linked files that share an inode are never both counted.
    pub proof fn lemma_links_counted_once(&self, x: int, y: int)
        requires
            self.wf(),
            self.post_order(self.root.0 as int).contains(x),
            self.post_order(self.root.0 as int).contains(y),
            x != y,
            is_link_file(self.nodes@[x]),
            is_link_file(self.nodes@[y]),
            link_key(self.nodes@[x]) == link_key(self.nodes@[y]),
        ensures
            !(self.counted(self.post_order(self.root.0 as int), x) && self.counted(
                self.post_order(self.root.0 as int),
                y,
            )),
    {
        let po = self.post_order(self.root.0 as int);
        let i = choose|i: int| 0 <= i < po.len() && po[i] == x;
        let j = choose|j: int| 0 <= j < po.len() && po[j] == y;
        assert(i != j);
        if i < j {
            assert(!self.counted(po, y));
        } else {
            assert(!self.counted(po, x));
        }
    }
}

/// The key under which the inode of a hard-linked file is remembered.
pub open spec fn inode_key(n: TreeNode) -> u128 {
    (n.dev as u128) << 64u128 | (n.ino as u128)
}

fn make_inode_key(dev: u64, ino: u64) -> (r: u128)
    ensures
        r == (dev as u128) << 64u128 | (ino as u128),
{
    (dev as u128) << 64u128 | (ino as u128)
}

proof fn lemma_inode_key_injective(d1: u64, i1: u64, d2: u64, i2: u64)
    requires
        (d1 as u128) << 64u128 | (i1 as u128) == (d2 as u128) << 64u128 | (i2 as u128),
    ensures
        d1 == d2,
        i1 == i2,
{
    assert((d1 as u128) << 64u128 | (i1 as u128) == (d2 as u128) << 64u128 | (i2 as u128) ==> d1
        == d2 && i1 == i2) by (bit_vector);
}

/// Lists the nodes of the subtree rooted at `root` in post-order, appending
/// them to `post_order`; uses an explicit stack rather than recursion.
pub(crate) fn get_post_order(arena: &TreeArena, root: NodeId, post_order: &mut Vec<NodeId>)
    requires
        arena.wf(),
        root.0 < arena.nodes@.len(),
    ensures
        final(post_order)@.len() == old(post_order)@.len() + arena.post_order(root.0 as int).len(),
        forall|i: int|
            0 <= i < old(post_order)@.len() ==> final(post_order)@[i] == old(post_order)@[i],
        forall|i: int|
            0 <= i < arena.post_order(root.0 as int).len() ==> #[trigger] final(post_order)@[old(
                post_order,
            )@.len() + i].0 == arena.post_order(root.0 as int)[i],
{
    let ghost start = old(post_order)@.len() as int;
    let ghost target = arena.post_order(root.0 as int);
    let mut stack: Vec<(NodeId, usize)> = Vec::new();
    stack.push((root, 0));
    proof {
        assert(arena.pending(stack@) =~= target) by {
            assert(stack@.drop_last() =~= Seq::<(NodeId, usize)>::empty());
            assert(stack@.last() == (root, 0usize));
            assert(arena.pending(stack@.drop_last()) =~= Seq::<int>::empty());
            assert(target == arena.post_from(root.0 as int, 0).push(root.0 as int));
        }
        arena.lemma_pending_len(stack@);
    }
    while stack.len() > 0
        invariant
            arena.wf(),
            start == old(post_order)@.len(),
            start <= post_order@.len(),
            forall|i: int|
                0 <= i < start ==> post_order@[i] == old(post_order)@[i],
            forall|f: int|
                0 <= f < stack@.len() ==> (#[trigger] stack@[f]).0.0 < arena.nodes@.len()
                    && stack@[f].1 <= arena.nkids(stack@[f].0.0 as int),
            post_order@.subrange(start, post_order@.len() as int).map_values(
                |v: NodeId| v.0 as int,
            ) + arena.pending(stack@) == target,
        decreases 2 * arena.pending(stack@).len() - stack@.len(),
    {
        proof {
            arena.lemma_pending_len(stack@);
        }
        let top_i = stack.len() - 1;
        let (node_id, child_idx) = stack[top_i];
        let ghost s0 = stack@;
        let ghost out0 = post_order@.subrange(start, post_order@.len() as int).map_values(
            |v: NodeId| v.0 as int,
        );
        let nkids = arena.nodes[node_id.0].children.len();
        if child_idx < nkids {
            let next_child = arena.nodes[node_id.0].children[child_idx];
            stack.set(top_i, (node_id, child_idx + 1));
            stack.push((next_child, 0));
            proof {
                let n = node_id.0 as int;
                let k = child_idx as int;
                let c = next_child.0 as int;
                assert(c == arena.kid(n, k));
                assert(n < c < arena.len());
                let below = s0.drop_last();
                assert(stack@.drop_last().drop_last() =~= below);
                assert(stack@.drop_last().last() == (node_id, (child_idx + 1) as usize));
                assert(stack@.last() == (next_child, 0usize));
                assert(arena.post_from(n, k) == arena.post_order(c) + arena.post_from(n, k + 1));
                assert(arena.post_order(c) == arena.post_from(c, 0).push(c));
                let tail = arena.pending(below);
                assert(arena.pending(s0) == arena.post_from(n, k).push(n) + tail);
                assert(arena.pending(stack@.drop_last()) == arena.post_from(n, k + 1).push(n)
                    + tail);
                assert(arena.pending(stack@) == arena.post_from(c, 0).push(c) + arena.pending(
                    stack@.drop_last(),
                ));
                assert(arena.pending(stack@) =~= arena.pending(s0));
                assert forall|f: int| 0 <= f < stack@.len() implies (#[trigger] stack@[f]).0.0
                    < arena.nodes@.len() && stack@[f].1 <= arena.nkids(stack@[f].0.0 as int) by {
                    if f < top_i {
                        assert(stack@[f] == s0[f]);
                    }
                }
                arena.lemma_pending_len(stack@);
            }
        } else {
            let ghost v0 = post_order@;
            post_order.push(node_id);
            stack.pop();
            proof {
                let n = node_id.0 as int;
                assert(post_order@ == v0.push(node_id));
                assert(post_order@.subrange(start, post_order@.len() as int) =~= v0.subrange(
                    start,
                    v0.len() as int,
                ).push(node_id));
                assert(arena.pending(s0) == arena.post_from(n, child_idx as int).push(n)
                    + arena.pending(s0.drop_last()));
                assert(arena.post_from(n, child_idx as int) =~= Seq::<int>::empty());
                assert(stack@ =~= s0.drop_last());
                assert(post_order@.subrange(start, post_order@.len() as int).map_values(
                    |v: NodeId| v.0 as int,
                ) =~= out0.push(n));
                assert forall|f: int| 0 <= f < stack@.len() implies (#[trigger] stack@[f]).0.0
                    < arena.nodes@.len() && stack@[f].1 <= arena.nkids(stack@[f].0.0 as int) by {
                    assert(stack@[f] == s0[f]);
                }
                arena.lemma_pending_len(stack@);
            }
        }
    }
    proof {
        let out = post_order@.subrange(start, post_order@.len() as int).map_values(
            |v: NodeId| v.0 as int,
        );
        assert(out =~= target);
        assert forall|i: int| 0 <= i < target.len() implies #[trigger] post_order@[start + i].0
            == target[i] by {
            assert(out[i] == post_order@[start + i].0 as int);
        }
    }
}

/// The statistics of a tree do not fit their field types.
#[derive(Clone, Copy, Debug, PartialEq, Eq, Structural)]
pub struct StatsOverflow;

/// Adds the statistics `cs` of a child to the running statistics `st` of a
/// directory; `None` when a sum leaves its field type.
fn add_child_stats(st: AggregateStats, cs: AggregateStats) -> (r: Option<AggregateStats>)
    ensures
        r is Some <==> fits(add_totals(totals_of(st), totals_of(cs))),
        r matches Some(v) ==> totals_of(v) == add_totals(totals_of(st), totals_of(cs)),
{
    let a = match st.total_asize.checked_add(cs.total_asize) {
        Some(v) => v,
        None => return None,
    };
    let d = match st.total_dsize.checked_add(cs.total_dsize) {
        Some(v) => v,
        None => return None,
    };
    let items = match st.item_count.checked_add(cs.item_count) {
        Some(v) => v,
        None => return None,
    };
    let dirs = match st.dir_count.checked_add(cs.dir_count) {
        Some(v) => v,
        None => return None,
    };
    let files = match st.file_count.checked_add(cs.file_count) {
        Some(v) => v,
        None => return None,
    };
    let shared = match st.shared_size.checked_add(cs.shared_size) {
        Some(v) => v,
        None => return None,
    };
    let mtime = if cs.latest_mtime > st.latest_mtime {
        cs.latest_mtime
    } else {
        st.latest_mtime
    };
    Some(
        AggregateStats {
            total_asize: a,
            total_dsize: d,
            item_count: items,
            dir_count: dirs,
            file_count: files,
            latest_mtime: mtime,
            shared_size: shared,
        },
    )
}

/// Adds a directory's own sizes, itself as an item and its own modification
/// time to the statistics `st` of its children.
fn add_own_stats(st: AggregateStats, n: &TreeNode) -> (r: Option<AggregateStats>)
    ensures
        ({
            let a = totals_of(st);
            let t = (
                a.0 + n.asize,
                a.1 + n.dsize,
                a.2 + 1,
                a.3,
                a.4,
                max_int(a.5, mtime_of(*n)),
                a.6,
            );
            &&& r is Some <==> fits(t)
            &&& r matches Some(v) ==> totals_of(v) == t
        }),
{
    let a = match st.total_asize.checked_add(n.asize) {
        Some(v) => v,
        None => return None,
    };
    let d = match st.total_dsize.checked_add(n.dsize) {
        Some(v) => v,
        None => return None,
    };
    let items = match st.item_count.checked_add(1) {
        Some(v) => v,
        None => return None,
    };
    let own_mtime: i64 = match n.extended {
        Some(e) => e.mtime,
        None => 0,
    };
    let mtime = if own_mtime > st.latest_mtime {
        own_mtime
    } else {
        st.latest_mtime
    };
    Some(
        AggregateStats {
            total_asize: a,
            total_dsize: d,
            item_count: items,
            dir_count: st.dir_count,
            file_count: st.file_count,
            latest_mtime: mtime,
            shared_size: st.shared_size,
        },
    )
}


/// `b` is `a` with its statistics recomputed: every node reached from the
/// root holds the totals of its subtree, the others keep theirs.
pub open spec fn recalculated(a: TreeArena, b: TreeArena) -> bool {
    let po = a.post_order(a.root.0 as int);
    &&& forall|x: int| #[trigger] po.contains(x) ==> b.nodes@[x].stats == to_stats(a.totals(po, x))
    &&& forall|x: int|
        0 <= x < a.len() && !po.contains(x) ==> #[trigger] b.nodes@[x].stats == a.nodes@[x].stats
}

/// Recomputing the statistics of a tree whose statistics are exact changes
/// none of them: a second pass leaves the tree as the first left it.
pub proof fn lemma_recalculate_idempotent(a: TreeArena, b: TreeArena)
    requires
        a.wf(),
        a.stats_exact(),
        recalculated(a, b),
    ensures
        forall|x: int| 0 <= x < a.len() ==> #[trigger] b.nodes@[x].stats == a.nodes@[x].stats,
{
    let po = a.post_order(a.root.0 as int);
    assert forall|x: int| 0 <= x < a.len() implies #[trigger] b.nodes@[x].stats == a.nodes@[x].stats by {
        if po.contains(x) {
            assert(a.nodes@[x].stats == to_stats(a.totals(po, x)));
        }
    }
}

/// Recomputes, bottom-up, the statistics of every node reachable from the
/// root: a file counts itself (a hard-linked inode only at its first
/// occurrence in post-order), a directory adds its own size to the totals of
/// its children. Fails, with some statistics already replaced, when a total
/// or a partial sum leaves its field type; the nodes the root does not reach
/// keep their statistics either way.
pub fn recalculate_stats(arena: &mut TreeArena) -> (r: Result<(), StatsOverflow>)
    requires
        old(arena).wf(),
    ensures
        r is Ok <==> old(arena).stats_fit(),
        final(arena).wf(),
        final(arena).len() == old(arena).len(),
        final(arena).root == old(arena).root,
        forall|i: int|
            0 <= i < old(arena).len() ==> (#[trigger] final(arena).nodes@[i]).same_but_stats(
                old(arena).nodes@[i],
            ),
        r is Ok ==> recalculated(*old(arena), *final(arena)),
        r is Ok ==> final(arena).stats_exact(),
        forall|x: int|
            0 <= x < old(arena).len() && !old(arena).post_order(old(arena).root.0 as int).contains(x)
                ==> #[trigger] final(arena).nodes@[x].stats == old(arena).nodes@[x].stats,
{
    let ghost o = *old(arena);
    let ghost r = o.root.0 as int;
    let ghost po = o.post_order(r);
    let mut post_order: Vec<NodeId> = Vec::new();
    let root = arena.root;
    get_post_order(arena, root, &mut post_order);
    proof {
        o.lemma_post_order_nodup(r);
        o.lemma_post_order_desc(r);
        assert forall|i: int| 0 <= i < po.len() implies #[trigger] post_order@[i].0 == po[i] by {
            assert(post_order@[0 + i].0 == po[i]);
        }
    }
    let mut seen_links: HashSet<u128> = HashSet::new();
    let mut k: usize = 0;
    while k < post_order.len()
        invariant
            *old(arena) == o,
            o.wf(),
            0 <= r < o.len(),
            r == o.root.0 as int,
            po == o.post_order(r),
            po.no_duplicates(),
            forall|x: int| #[trigger] po.contains(x) ==> 0 <= x < o.len(),
            post_order@.len() == po.len(),
            forall|i: int| 0 <= i < po.len() ==> #[trigger] post_order@[i].0 == po[i],
            k <= po.len(),
            arena.wf(),
            arena.len() == o.len(),
            arena.root == o.root,
            forall|i: int|
                0 <= i < o.len() ==> (#[trigger] arena.nodes@[i]).same_but_stats(o.nodes@[i]),
            forall|i: int|
                0 <= i < k ==> arena.nodes@[#[trigger] po[i]].stats == to_stats(
                    o.totals(po, po[i]),
                ) && fits(o.totals(po, po[i])),
            forall|i: int|
                0 <= i < k && o.nodes@[#[trigger] po[i]].spec_is_dir() ==> forall|j: int|
                    0 <= j <= o.nkids(po[i]) ==> #[trigger] fits(o.kids_totals(po, po[i], j)),
            forall|x: int|
                0 <= x < o.len() && !po.subrange(0, k as int).contains(x)
                    ==> #[trigger] arena.nodes@[x].stats == o.nodes@[x].stats,
            forall|key: u128|
                seen_links@.contains(key) <==> exists|i: int|
                    0 <= i < k && is_link_file(o.nodes@[po[i]]) && #[trigger] inode_key(
                        o.nodes@[po[i]],
                    ) == key,
        decreases po.len() - k,
    {
        let node_id = post_order[k];
        let x = node_id.0;
        let ghost xi = x as int;
        proof {
            assert(post_order@[k as int].0 == po[k as int]);
            assert(po.contains(xi));
        }
        let ghost before = *arena;
        if !arena.nodes[x].is_dir() {
            let is_hard_link = arena.nodes[x].flags.contains(EntryFlags::HARD_LINK);
            let key = make_inode_key(arena.nodes[x].dev, arena.nodes[x].ino);
            let mut asize: i64 = arena.nodes[x].asize;
            let mut dsize: i64 = arena.nodes[x].dsize;
            if is_hard_link {
                if seen_links.contains(&key) {
                    asize = 0;
                    dsize = 0;
                } else {
                    seen_links.insert(key);
                }
            }
            let mtime: i64 = match arena.nodes[x].extended {
                Some(e) => e.mtime,
                None => 0,
            };
            let shared: i64 = if is_hard_link {
                arena.nodes[x].dsize
            } else {
                0
            };
            let stats = AggregateStats {
                total_asize: asize,
                total_dsize: dsize,
                item_count: 1,
                dir_count: 0,
                file_count: 1,
                latest_mtime: mtime,
                shared_size: shared,
            };
            arena.nodes[x].stats = stats;
            proof {
                let n = o.nodes@[xi];
                assert(n.same_but_stats(before.nodes@[xi]));
                assert(key == inode_key(n));
                let earlier = exists|i: int|
                    0 <= i < k && is_link_file(o.nodes@[po[i]]) && #[trigger] inode_key(
                        o.nodes@[po[i]],
                    ) == key;
                assert(o.counted(po, xi) == (!is_link_file(n) || !earlier)) by {
                    if is_link_file(n) {
                        if earlier {
                            let i = choose|i: int|
                                0 <= i < k && is_link_file(o.nodes@[po[i]]) && #[trigger] inode_key(
                                    o.nodes@[po[i]],
                                ) == key;
                            let m = o.nodes@[po[i]];
                            lemma_inode_key_injective(m.dev, m.ino, n.dev, n.ino);
                            assert(0 <= i < k < po.len() && po[k as int] == xi);
                        } else {
                            if exists|i: int, j: int|
                                0 <= i < j < po.len() && po[j] == xi && is_link_file(
                                    o.nodes@[po[i]],
                                ) && link_key(o.nodes@[po[i]]) == link_key(n) {
                                let (i, j) = choose|i: int, j: int|
                                    0 <= i < j < po.len() && po[j] == xi && is_link_file(
                                        o.nodes@[po[i]],
                                    ) && link_key(o.nodes@[po[i]]) == link_key(n);
                                assert(j == k);
                                assert(inode_key(o.nodes@[po[i]]) == key);
                            }
                        }
                    }
                }
                assert(o.totals(po, xi) == o.file_totals(po, xi));
                assert forall|key2: u128| seen_links@.contains(key2) <==> exists|i: int|
                    0 <= i < k + 1 && is_link_file(o.nodes@[po[i]]) && #[trigger] inode_key(
                        o.nodes@[po[i]],
                    ) == key2 by {
                    if exists|i: int|
                        0 <= i < k + 1 && is_link_file(o.nodes@[po[i]]) && #[trigger] inode_key(
                            o.nodes@[po[i]],
                        ) == key2 {
                        let i = choose|i: int|
                            0 <= i < k + 1 && is_link_file(o.nodes@[po[i]]) && #[trigger] inode_key(
                                o.nodes@[po[i]],
                            ) == key2;
                        if i < k {
                            assert(exists|i: int|
                                0 <= i < k && is_link_file(o.nodes@[po[i]]) && #[trigger] inode_key(
                                    o.nodes@[po[i]],
                                ) == key2);
                        }
                    }
                    if seen_links@.contains(key2) && key2 != key {
                        assert(exists|i: int|
                            0 <= i < k && is_link_file(o.nodes@[po[i]]) && #[trigger] inode_key(
                                o.nodes@[po[i]],
                            ) == key2);
                    }
                    if key2 == key && is_link_file(n) {
                        assert(po[k as int] == xi);
                        assert(inode_key(o.nodes@[po[k as int]]) == key2);
                    }
                }
            }
        } else {
            let mut st = AggregateStats {
                total_asize: 0,
                total_dsize: 0,
                item_count: 0,
                dir_count: 1,
                file_count: 0,
                latest_mtime: 0,
                shared_size: 0,
            };
            let nk = arena.nodes[x].children.len();
            let mut j: usize = 0;
            while j < nk
                invariant
                    *arena == before,
                    *old(arena) == o,
                    arena.wf(),
                    arena.root == o.root,
                    o.wf(),
                    0 <= r < o.len(),
                    r == o.root.0 as int,
                    po == o.post_order(r),
                    po.no_duplicates(),
                    forall|x: int| #[trigger] po.contains(x) ==> 0 <= x < o.len(),
                    k < po.len(),
                    po[k as int] == xi,
                    0 <= xi < o.len(),
                    o.nodes@[xi].spec_is_dir(),
                    x as int == xi,
                    nk == o.nkids(xi),
                    j <= nk,
                    arena.len() == o.len(),
                    forall|i: int|
                        0 <= i < o.len() ==> (#[trigger] arena.nodes@[i]).same_but_stats(
                            o.nodes@[i],
                        ),
                    forall|i: int|
                        0 <= i < k ==> arena.nodes@[#[trigger] po[i]].stats == to_stats(
                            o.totals(po, po[i]),
                        ) && fits(o.totals(po, po[i])),
                    forall|i: int| 0 <= i <= j ==> #[trigger] fits(o.kids_totals(po, xi, i)),
                    totals_of(st) == o.kids_totals(po, xi, j as int),
                    forall|y: int|
                        0 <= y < o.len() && !po.contains(y) ==> #[trigger] arena.nodes@[y].stats
                            == o.nodes@[y].stats,
                decreases nk - j,
            {
                let c = arena.nodes[x].children[j];
                proof {
                    let ci = c.0 as int;
                    assert(ci == o.kid(xi, j as int));
                    assert(xi < ci < o.len());
                    o.lemma_kids_before(r, k as int, j as int);
                    let sub = po.subrange(0, k as int);
                    let i = choose|i: int| 0 <= i < sub.len() && sub[i] == ci;
                    assert(po[i] == ci);
                    assert(arena.nodes@[ci].stats == to_stats(o.totals(po, ci)));
                    assert(fits(o.totals(po, ci)));
                    assert(totals_of(arena.nodes@[ci].stats) == o.totals(po, ci));
                    assert(o.kids_totals(po, xi, j + 1) == add_totals(
                        o.kids_totals(po, xi, j as int),
                        o.totals(po, ci),
                    ));
                }
                let cs = arena.nodes[c.0].stats;
                match add_child_stats(st, cs) {
                    Some(v) => {
                        st = v;
                    },
                    None => {
                        proof {
                            assert(po.contains(xi));
                            assert(!fits(o.kids_totals(po, xi, j + 1)));
                            assert(!o.stats_fit());
                        }
                        return Err(StatsOverflow);
                    },
                }
                j = j + 1;
            }
            let ghost a = o.kids_totals(po, xi, nk as int);
            proof {
                assert(o.totals(po, xi) == (
                    a.0 + o.nodes@[xi].asize,
                    a.1 + o.nodes@[xi].dsize,
                    a.2 + 1,
                    a.3,
                    a.4,
                    max_int(a.5, mtime_of(o.nodes@[xi])),
                    a.6,
                ));
                assert(arena.nodes@[xi].same_but_stats(o.nodes@[xi]));
            }
            match add_own_stats(st, &arena.nodes[x]) {
                Some(v) => {
                    st = v;
                },
                None => {
                    proof {
                        assert(po.contains(xi));
                        assert(!fits(o.totals(po, xi)));
                        assert(!o.stats_fit());
                    }
                    return Err(StatsOverflow);
                },
            }
            arena.nodes[x].stats = st;
        }
        assert(forall|y: int| 0 <= y < o.len() && y != xi ==> arena.nodes@[y] == before.nodes@[y]);
        proof {
            assert(fits(o.totals(po, xi)));
            assert(arena.nodes@[xi].stats == to_stats(o.totals(po, xi)));
            assert forall|i: int| 0 <= i < k + 1 implies arena.nodes@[#[trigger] po[i]].stats
                == to_stats(o.totals(po, po[i])) && fits(o.totals(po, po[i])) by {
                if i < k {
                    assert(po[i] != po[k as int]);
                    assert(po.contains(po[i]));
                    assert(arena.nodes@[po[i]] == before.nodes@[po[i]]);
                }
            }
            assert forall|y: int|
                0 <= y < o.len() && !po.subrange(0, k + 1).contains(y) implies #[trigger] arena.nodes@[y].stats
                == o.nodes@[y].stats by {
                assert(po.subrange(0, k + 1)[k as int] == xi);
                assert(y != xi);
                assert(arena.nodes@[y] == before.nodes@[y]);
                if po.subrange(0, k as int).contains(y) {
                    let i = choose|i: int| 0 <= i < k && po.subrange(0, k as int)[i] == y;
                    assert(po.subrange(0, k + 1)[i] == y);
                }
            }
            assert forall|i: int| 0 <= i < o.len() implies (#[trigger] arena.nodes@[i]).same_but_stats(
                o.nodes@[i],
            ) by {
                if i != xi {
                    assert(arena.nodes@[i] == before.nodes@[i]);
                }
            }
            o.lemma_wf_same_shape(arena);
        }
        k = k + 1;
    }
    proof {
        assert forall|x: int| #[trigger] po.contains(x) implies arena.nodes@[x].stats == to_stats(
            o.totals(po, x),
        ) by {
            let i = choose|i: int| 0 <= i < po.len() && po[i] == x;
        }
        assert forall|x: int|
            0 <= x < o.len() && !po.contains(x) implies #[trigger] arena.nodes@[x].stats
            == o.nodes@[x].stats by {
            assert(po.subrange(0, po.len() as int) =~= po);
        }
        assert(o.stats_fit()) by {
            assert forall|x: int| #![trigger po.contains(x)]
                po.contains(x) && o.nodes@[x].spec_is_dir() implies fits(o.totals(po, x)) && forall|
                    kk: int,
                |
                    0 <= kk <= o.nkids(x) ==> #[trigger] fits(o.kids_totals(po, x, kk)) by {
                let i = choose|i: int| 0 <= i < po.len() && po[i] == x;
            }
        }
        o.lemma_stats_exact_after(arena);
    }
    Ok(())
}

impl TreeArena {
    /// Every node reachable from the root carries the totals of its subtree.
    pub open spec fn stats_exact(&self) -> bool {
        let po = self.post_order(self.root.0 as int);
        forall|x: int|
            #[trigger] po.contains(x) ==> self.nodes@[x].stats == to_stats(self.totals(po, x))
    }

    /// The totals of a subtree do not depend on the statistics stored in the nodes.
    pub proof fn lemma_totals_frame(&self, other: &TreeArena, po: Seq<int>, x: int)
        requires
            other.len() == self.len(),
            forall|i: int|
                0 <= i < self.len() ==> (#[trigger] other.nodes@[i]).same_but_stats(self.nodes@[i]),
            forall|i: int| 0 <= i < po.len() ==> 0 <= #[trigger] po[i] < self.len(),
        ensures
            other.totals(po, x) == self.totals(po, x),
        decreases self.len() - x, self.nkids(x) + 1,
    {
        if 0 <= x < self.len() {
            assert(other.nodes@[x].same_but_stats(self.nodes@[x]));
            if self.nodes@[x].spec_is_dir() {
                self.lemma_kids_totals_frame(other, po, x, self.nkids(x));
            } else {
                assert forall|i: int| 0 <= i < po.len() implies is_link_file(
                    other.nodes@[#[trigger] po[i]],
                ) == is_link_file(self.nodes@[po[i]]) && link_key(other.nodes@[po[i]]) == link_key(
                    self.nodes@[po[i]],
                ) by {
                    if 0 <= po[i] < self.len() {
                        assert(other.nodes@[po[i]].same_but_stats(self.nodes@[po[i]]));
                    }
                }
                assert(other.counted(po, x) == self.counted(po, x));
            }
        }
    }

    /// The running totals over the children do not depend on stored statistics.
    pub proof fn lemma_kids_totals_frame(&self, other: &TreeArena, po: Seq<int>, x: int, k: int)
        requires
            other.len() == self.len(),
            forall|i: int|
                0 <= i < self.len() ==> (#[trigger] other.nodes@[i]).same_but_stats(self.nodes@[i]),
            forall|i: int| 0 <= i < po.len() ==> 0 <= #[trigger] po[i] < self.len(),
        ensures
            other.kids_totals(po, x, k) == self.kids_totals(po, x, k),
        decreases self.len() - x, k,
    {
        if 0 <= x < self.len() && 0 < k <= self.nkids(x) {
            assert(other.nodes@[x].same_but_stats(self.nodes@[x]));
            let c = self.kid(x, k - 1);
            assert(other.kid(x, k - 1) == c);
            self.lemma_kids_totals_frame(other, po, x, k - 1);
            if x < c < self.len() {
                self.lemma_totals_frame(other, po, c);
            }
        } else if 0 <= x < self.len() {
            assert(other.nodes@[x].same_but_stats(self.nodes@[x]));
        }
    }

    /// Replacing the statistics of the reachable nodes by the totals computed
    /// on `self` gives a tree whose statistics are exact.
    pub proof fn lemma_stats_exact_after(&self, other: &TreeArena)
        requires
            self.wf(),
            other.len() == self.len(),
            other.root == self.root,
            forall|i: int|
                0 <= i < self.len() ==> (#[trigger] other.nodes@[i]).same_but_stats(self.nodes@[i]),
            forall|x: int|
                #[trigger] self.post_order(self.root.0 as int).contains(x) ==> other.nodes@[x].stats
                    == to_stats(self.totals(self.post_order(self.root.0 as int), x)),
        ensures
            other.stats_exact(),
    {
        let r = self.root.0 as int;
        self.lemma_post_order_desc(r);
        assert forall|x: int| #![trigger self.post_order(r).contains(x)]
            self.post_order(r).contains(x) implies other.nodes@[x].children@
                == self.nodes@[x].children@ by {
            assert(0 <= x < self.len());
            assert(other.nodes@[x].same_but_stats(self.nodes@[x]));
        }
        self.lemma_post_order_frame(other, r);
        let po = self.post_order(r);
        assert forall|i: int| 0 <= i < po.len() implies 0 <= #[trigger] po[i] < self.len() by {
            assert(po.contains(po[i]));
        }
        assert forall|x: int| #[trigger] po.contains(x) implies other.nodes@[x].stats == to_stats(
            other.totals(po, x),
        ) by {
            self.lemma_totals_frame(other, po, x);
        }
    }
}

} // verus!
