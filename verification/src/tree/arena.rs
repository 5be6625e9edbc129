use vstd::prelude::*;

use crate::tree::node::{NodeId, TreeNode};
use crate::tree::stats::AggregateStats;

verus! {

/// All nodes of a tree in one vector; `root` is the index of the root node.
///
/// Nodes are never removed from the vector, so that indices stay valid: a
/// deleted subtree is unlinked from its parent and emptied in place.
#[derive(Debug)]
pub struct TreeArena {
    pub nodes: Vec<TreeNode>,
    pub root: NodeId,
}

impl TreeArena {
    pub open spec fn len(&self) -> int {
        self.nodes@.len() as int
    }

    /// Number of children of node `i`.
    pub open spec fn nkids(&self, i: int) -> int {
        self.nodes@[i].children@.len() as int
    }

    /// Index of the `j`-th child of node `i`.
    pub open spec fn kid(&self, i: int, j: int) -> int {
        self.nodes@[i].children@[j].0 as int
    }

    /// Well-formedness: the root is node 0; a child always has a larger index
    /// than its parent and records that parent; a parent always has a smaller
    /// index; no children list names a node twice.
    pub open spec fn wf(&self) -> bool {
        &&& self.nodes@.len() >= 1
        &&& self.root.0 == 0
        &&& forall|i: int, j: int|
            0 <= i < self.len() && 0 <= j < self.nkids(i) ==> {
                &&& i < #[trigger] self.kid(i, j) < self.len()
                &&& self.nodes@[self.kid(i, j)].parent == Some(NodeId(i as usize))
            }
        &&& forall|i: int|
            0 <= i < self.len() ==> match (#[trigger] self.nodes@[i]).parent {
                Some(p) => p.0 < i,
                None => true,
            }
        &&& forall|i: int, j: int, k: int|
            0 <= i < self.len() && 0 <= j < k < self.nkids(i) ==> #[trigger] self.kid(i, j)
                != #[trigger] self.kid(i, k)
    }

    /// The nodes of the subtree rooted at `n`, in post-order: the subtrees of
    /// the children in order, then `n` itself.
    pub open spec fn post_order(&self, n: int) -> Seq<int>
        decreases self.len() - n, self.nkids(n) + 1,
    {
        if 0 <= n < self.len() && 0 <= self.nkids(n) {
            self.post_from(n, 0).push(n)
        } else {
            Seq::empty()
        }
    }

    /// The post-orders of the subtrees of the children of `n`, from the
    /// `k`-th child on, concatenated.
    pub open spec fn post_from(&self, n: int, k: int) -> Seq<int>
        decreases self.len() - n, self.nkids(n) - k,
    {
        if 0 <= n < self.len() && 0 <= k < self.nkids(n) {
            let c = self.kid(n, k);
            if n < c < self.len() {
                self.post_order(c) + self.post_from(n, k + 1)
            } else {
                self.post_from(n, k + 1)
            }
        } else {
            Seq::empty()
        }
    }

    /// The nodes of the subtree of `x` in depth-first order, as a walk of the
    /// tree visits them: `x`, then, for a directory, the nodes below each of
    /// its children in turn.
    pub open spec fn walk_order(&self, x: int) -> Seq<int>
        decreases self.len() - x, 1nat,
    {
        if 0 <= x < self.len() {
            if self.nodes@[x].spec_is_dir() {
                seq![x] + self.walk_from(x, 0)
            } else {
                seq![x]
            }
        } else {
            Seq::empty()
        }
    }

    /// The walks below the children of `x` from the `k`-th on, concatenated.
    pub open spec fn walk_from(&self, x: int, k: int) -> Seq<int>
        decreases self.len() - x, 0nat, if 0 <= k < self.nkids(x) {
            (self.nkids(x) - k) as nat
        } else {
            0nat
        },
    {
        if 0 <= x < self.len() && 0 <= k < self.nkids(x) && x < self.kid(x, k) < self.len() {
            self.walk_order(self.kid(x, k)) + self.walk_from(x, k + 1)
        } else {
            Seq::empty()
        }
    }

    /// `a` lies on the chain of parents of `d` (or is `d`).
    pub open spec fn anc(&self, a: int, d: int) -> bool
        decreases d,
    {
        d == a || (0 <= d < self.len() && match self.nodes@[d].parent {
            Some(p) => 0 <= p.0 < d && self.anc(a, p.0 as int),
            None => false,
        })
    }

    /// An arena whose only node is `root_node`.
    pub fn new(root_node: TreeNode) -> (r: TreeArena)
        ensures
            r.nodes@ == seq![root_node],
            r.root == NodeId(0),
            root_node.children@.len() == 0 && root_node.parent is None ==> r.wf(),
    {
        let mut nodes = Vec::new();
        nodes.push(root_node);
        TreeArena { nodes, root: NodeId(0) }
    }

    /// The node with index `id`.
    pub fn get(&self, id: NodeId) -> (r: &TreeNode)
        requires
            id.0 < self.nodes@.len(),
        ensures
            *r == self.nodes@[id.0 as int],
    {
        &self.nodes[id.0]
    }

    /// Mutable access to the node with index `id`.
    pub fn get_mut(&mut self, id: NodeId) -> (r: &mut TreeNode)
        requires
            id.0 < old(self).nodes@.len(),
        ensures
            *r == old(self).nodes@[id.0 as int],
            final(self).nodes@ == old(self).nodes@.update(id.0 as int, *final(r)),
            final(self).root == old(self).root,
    {
        &mut self.nodes[id.0]
    }

    /// Appends `child_node` as the last child of `parent_id`; returns its index.
    pub fn add_child(&mut self, parent_id: NodeId, child_node: TreeNode) -> (r: NodeId)
        requires
            parent_id.0 < old(self).nodes@.len(),
            old(self).nodes@.len() < usize::MAX,
        ensures
            r.0 == old(self).nodes@.len(),
            final(self).root == old(self).root,
            final(self).nodes@.len() == old(self).nodes@.len() + 1,
            final(self).nodes@[r.0 as int].same_but_children(
                TreeNode { parent: Some(parent_id), ..child_node },
            ),
            final(self).nodes@[r.0 as int].children@ == child_node.children@,
            final(self).nodes@[parent_id.0 as int].children@ == old(
                self,
            ).nodes@[parent_id.0 as int].children@.push(r),
            final(self).nodes@[parent_id.0 as int].same_but_children(
                old(self).nodes@[parent_id.0 as int],
            ),
            forall|i: int|
                0 <= i < old(self).nodes@.len() && i != parent_id.0 ==> final(self).nodes@[i]
                    == old(self).nodes@[i],
            old(self).wf() && child_node.children@.len() == 0 ==> final(self).wf(),
    {
        let child_id = NodeId(self.nodes.len());
        let mut child_node = child_node;
        child_node.parent = Some(parent_id);
        self.nodes.push(child_node);
        self.nodes[parent_id.0].children.push(child_id);
        proof {
            let o = old(self);
            if o.wf() && child_node.children@.len() == 0 {
                assert forall|i: int, j: int|
                    0 <= i < self.len() && 0 <= j < self.nkids(i) implies {
                    &&& i < #[trigger] self.kid(i, j) < self.len()
                    &&& self.nodes@[self.kid(i, j)].parent == Some(NodeId(i as usize))
                } by {
                    if i == parent_id.0 as int {
                        if j < o.nkids(i) {
                            assert(self.kid(i, j) == o.kid(i, j));
                        }
                    } else if i < o.len() {
                        assert(self.kid(i, j) == o.kid(i, j));
                    }
                }
                assert forall|i: int, j: int, k: int|
                    0 <= i < self.len() && 0 <= j < k < self.nkids(i) implies #[trigger] self.kid(
                    i,
                    j,
                ) != #[trigger] self.kid(i, k) by {
                    if i == parent_id.0 as int {
                        if k < o.nkids(i) {
                            assert(self.kid(i, j) == o.kid(i, j));
                            assert(self.kid(i, k) == o.kid(i, k));
                        } else {
                            assert(self.kid(i, j) == o.kid(i, j));
                        }
                    } else if i < o.len() {
                        assert(self.kid(i, j) == o.kid(i, j));
                        assert(self.kid(i, k) == o.kid(i, k));
                    }
                }
                assert forall|i: int| 0 <= i < self.len() implies match (
                #[trigger] self.nodes@[i]).parent {
                    Some(p) => p.0 < i,
                    None => true,
                } by {
                    if i < o.len() {
                        assert(self.nodes@[i].parent == o.nodes@[i].parent);
                    }
                }
            }
        }
        child_id
    }

    /// The children of `at`, moved along by `base - 1`: the positions they
    /// get when the nodes of `sub` but its root are appended from `base`.
    fn grafted_kids(sub: &TreeArena, i: usize, base: usize) -> (r: Vec<NodeId>)
        requires
            sub.wf(),
            i < sub.len(),
            base >= 1,
            base + sub.len() <= usize::MAX,
        ensures
            r@.len() == sub.nkids(i as int),
            forall|j: int| 0 <= j < r@.len() ==> (#[trigger] r@[j]).0 == sub.kid(i as int, j) + base - 1,
    {
        let src = &sub.nodes[i];
        let mut kids: Vec<NodeId> = Vec::new();
        let mut j: usize = 0;
        while j < src.children.len()
            invariant
                sub.wf(),
                i < sub.len(),
                base >= 1,
                base + sub.len() <= usize::MAX,
                *src == sub.nodes@[i as int],
                j <= src.children@.len(),
                kids@.len() == j,
                forall|jj: int| 0 <= jj < j ==> (#[trigger] kids@[jj]).0 == sub.kid(i as int, jj) + base - 1,
            decreases src.children@.len() - j,
        {
            assert(sub.kid(i as int, j as int) < sub.len());
            let c = src.children[j].0;
            kids.push(NodeId(c + base - 1));
            j = j + 1;
        }
        kids
    }

    /// Replaces the children of node `at` by the tree `sub` below its root:
    /// the nodes of `sub` but its root are appended in order, their links
    /// moved along, and the children of the root of `sub` become those of
    /// `at`. The former children of `at` stay in the arena, unlinked.
    pub(crate) fn graft_children(&mut self, at: usize, sub: &TreeArena)
        requires
            old(self).wf(),
            sub.wf(),
            at < old(self).len(),
            old(self).len() + sub.len() <= usize::MAX,
        ensures
            final(self).wf(),
            grafted_at(*old(self), *sub, at as int, *final(self)),
    {
        let ghost o = *self;
        let base = self.nodes.len();
        let n = sub.nodes.len();
        let mut k: usize = 1;
        while k < n
            invariant
                o == *old(self),
                sub.wf(),
                at < o.len(),
                base == o.len(),
                n == sub.len(),
                base + n <= usize::MAX,
                1 <= k <= n,
                self.root == o.root,
                self.len() == base + k - 1,
                forall|i: int| 0 <= i < base ==> self.nodes@[i] == o.nodes@[i],
                forall|kk: int|
                    1 <= kk < k ==> grafted_node(
                        #[trigger] sub.nodes@[kk],
                        self.nodes@[base + kk - 1],
                        at as int,
                        base as int,
                    ),
            decreases n - k,
        {
            let src = &sub.nodes[k];
            let kids = TreeArena::grafted_kids(sub, k, base);
            let parent = match src.parent {
                Some(p) => {
                    assert(p.0 < k);
                    if p.0 == 0 {
                        Some(NodeId(at))
                    } else {
                        Some(NodeId(p.0 + base - 1))
                    }
                },
                None => None,
            };
            let node = TreeNode {
                name: src.name.clone(),
                asize: src.asize,
                dsize: src.dsize,
                dev: src.dev,
                ino: src.ino,
                nlink: src.nlink,
                flags: src.flags,
                extended: src.extended,
                children: kids,
                parent,
                stats: src.stats,
            };
            self.nodes.push(node);
            proof {
                let m = self.nodes@[base + k - 1];
                assert(m == node);
                assert forall|j: int| 0 <= j < src.children@.len() implies (#[trigger] m.children@[j]).0
                    == graft_index(src.children@[j].0 as int, at as int, base as int) by {
                    assert(sub.kid(k as int, j) == src.children@[j].0 as int);
                    assert(sub.kid(k as int, j) > k);
                }
                assert(grafted_node(sub.nodes@[k as int], m, at as int, base as int));
            }
            k = k + 1;
        }
        let root_kids = TreeArena::grafted_kids(sub, 0, base);
        self.nodes[at].children = root_kids;
        proof {
            assert forall|i: int| 0 <= i < o.len() && i != at implies self.nodes@[i] == o.nodes@[i] by {}
            assert forall|kk: int|
                1 <= kk < sub.len() implies grafted_node(
                #[trigger] sub.nodes@[kk],
                self.nodes@[o.len() + kk - 1],
                at as int,
                o.len() as int,
            ) by {}
            assert forall|j: int| 0 <= j < sub.nkids(0) implies #[trigger] self.kid(at as int, j) == sub.kid(0, j)
                + o.len() - 1 by {}
            lemma_graft_wf(o, *sub, *self, at as int);
        }
    }
}

/// Where node `c` of a tree grafted at node `at` lands when its nodes but
/// the root are appended from position `base`: the root becomes `at`.
pub open spec fn graft_index(c: int, at: int, base: int) -> int {
    if c == 0 {
        at
    } else {
        c + base - 1
    }
}

/// `m` is the node `n` of a tree grafted at `at` with its other nodes
/// appended from `base`: the same entry and statistics, its links moved
/// along.
pub open spec fn grafted_node(n: TreeNode, m: TreeNode, at: int, base: int) -> bool {
    &&& m.same_but_children(
        TreeNode {
            parent: match n.parent {
                Some(p) => Some(NodeId(graft_index(p.0 as int, at, base) as usize)),
                None => None,
            },
            ..n
        },
    )
    &&& m.children@.len() == n.children@.len()
    &&& forall|j: int|
        0 <= j < n.children@.len() ==> (#[trigger] m.children@[j]).0 == graft_index(
            n.children@[j].0 as int,
            at,
            base,
        )
}

/// `a` is `o` with the tree `sub` grafted at node `at`: the nodes of `o`
/// are kept, but `at` gets the children of the root of `sub`, moved along;
/// the nodes of `sub` but its root follow, in order, their links moved
/// along.
pub open spec fn grafted_at(o: TreeArena, sub: TreeArena, at: int, a: TreeArena) -> bool {
    &&& a.root == o.root
    &&& a.len() == o.len() + sub.len() - 1
    &&& forall|i: int| 0 <= i < o.len() && i != at ==> a.nodes@[i] == o.nodes@[i]
    &&& a.nodes@[at].same_but_children(o.nodes@[at])
    &&& a.nkids(at) == sub.nkids(0)
    &&& forall|j: int| 0 <= j < sub.nkids(0) ==> #[trigger] a.kid(at, j) == sub.kid(0, j) + o.len() - 1
    &&& forall|k: int|
        1 <= k < sub.len() ==> grafted_node(#[trigger] sub.nodes@[k], a.nodes@[o.len() + k - 1], at, o.len() as int)
}

/// Grafting keeps the arena well formed.
proof fn lemma_graft_wf(o: TreeArena, sub: TreeArena, a: TreeArena, at: int)
    requires
        o.wf(),
        sub.wf(),
        0 <= at < o.len(),
        grafted_at(o, sub, at, a),
    ensures
        a.wf(),
{
    let base = o.len();
    assert forall|i: int, j: int|
        0 <= i < a.len() && 0 <= j < a.nkids(i) implies {
        &&& i < #[trigger] a.kid(i, j) < a.len()
        &&& a.nodes@[a.kid(i, j)].parent == Some(NodeId(i as usize))
    } by {
        if i == at {
            let c = sub.kid(0, j);
            assert(0 < c < sub.len());
            assert(sub.nodes@[c].parent == Some(NodeId(0)));
            assert(grafted_node(sub.nodes@[c], a.nodes@[base + c - 1], at, base));
        } else if i < base {
            assert(a.nodes@[i] == o.nodes@[i]);
            assert(a.kid(i, j) == o.kid(i, j));
            let c = o.kid(i, j);
            if c != at {
                assert(a.nodes@[c] == o.nodes@[c]);
            } else {
                assert(a.nodes@[at].parent == o.nodes@[at].parent);
            }
        } else {
            let k = i - base + 1;
            assert(grafted_node(sub.nodes@[k], a.nodes@[i], at, base));
            assert(a.nodes@[i].children@[j] == a.nodes@[base + k - 1].children@[j]);
            let c = sub.kid(k, j);
            assert(k < c < sub.len());
            assert(sub.nodes@[c].parent == Some(NodeId(k as usize)));
            assert(grafted_node(sub.nodes@[c], a.nodes@[base + c - 1], at, base));
            assert(a.kid(i, j) == c + base - 1);
        }
    }
    assert forall|i: int| 0 <= i < a.len() implies match (#[trigger] a.nodes@[i]).parent {
        Some(p) => p.0 < i,
        None => true,
    } by {
        if i == at {
            assert(a.nodes@[at].parent == o.nodes@[at].parent);
            assert(match o.nodes@[at].parent {
                Some(p) => p.0 < at,
                None => true,
            });
        } else if i < base {
            assert(a.nodes@[i] == o.nodes@[i]);
            assert(match o.nodes@[i].parent {
                Some(p) => p.0 < i,
                None => true,
            });
        } else {
            let k = i - base + 1;
            assert(grafted_node(sub.nodes@[k], a.nodes@[base + k - 1], at, base));
            assert(match sub.nodes@[k].parent {
                Some(p) => p.0 < k,
                None => true,
            });
        }
    }
    assert forall|i: int, j: int, k2: int|
        0 <= i < a.len() && 0 <= j < k2 < a.nkids(i) implies #[trigger] a.kid(i, j) != #[trigger] a.kid(i, k2) by {
        if i == at {
            assert(sub.kid(0, j) != sub.kid(0, k2));
        } else if i < base {
            assert(a.nodes@[i] == o.nodes@[i]);
            assert(o.kid(i, j) != o.kid(i, k2));
        } else {
            let k = i - base + 1;
            assert(grafted_node(sub.nodes@[k], a.nodes@[i], at, base));
            assert(sub.kid(k, j) != sub.kid(k, k2));
            assert(sub.kid(k, j) > 0 && sub.kid(k, k2) > 0);
        }
    }
}

/// Membership in a concatenation.
pub proof fn lemma_concat_contains<A>(a: Seq<A>, b: Seq<A>, x: A)
    ensures
        (a + b).contains(x) <==> a.contains(x) || b.contains(x),
{
    if (a + b).contains(x) {
        let i = choose|i: int| 0 <= i < (a + b).len() && (a + b)[i] == x;
        if i >= a.len() {
            assert(b[i - a.len()] == x);
        }
    }
    if a.contains(x) {
        let i = choose|i: int| 0 <= i < a.len() && a[i] == x;
        assert((a + b)[i] == x);
    }
    if b.contains(x) {
        let i = choose|i: int| 0 <= i < b.len() && b[i] == x;
        assert((a + b)[a.len() + i] == x);
    }
}

impl TreeArena {
    /// An ancestor never has a larger index than its descendant.
    pub proof fn lemma_anc_le(&self, a: int, d: int)
        requires
            self.anc(a, d),
        ensures
            a <= d,
        decreases d,
    {
        if d != a {
            let p = self.nodes@[d].parent.unwrap().0 as int;
            self.lemma_anc_le(a, p);
        }
    }

    /// The ancestor relation is transitive.
    pub proof fn lemma_anc_trans(&self, a: int, b: int, x: int)
        requires
            self.anc(a, b),
            self.anc(b, x),
        ensures
            self.anc(a, x),
        decreases x,
    {
        if x != b {
            let p = self.nodes@[x].parent.unwrap().0 as int;
            self.lemma_anc_trans(a, b, p);
        }
    }

    /// Two ancestors of one node are ancestors of one another.
    pub proof fn lemma_anc_total(&self, a: int, b: int, x: int)
        requires
            self.anc(a, x),
            self.anc(b, x),
            a < b,
        ensures
            self.anc(a, b),
        decreases x,
    {
        if x == a {
            self.lemma_anc_le(b, x);
        } else if x != b {
            let p = self.nodes@[x].parent.unwrap().0 as int;
            self.lemma_anc_total(a, b, p);
        }
    }

    /// Two distinct children of one node share no descendant.
    pub proof fn lemma_siblings_disjoint(&self, n: int, j: int, k: int, x: int)
        requires
            self.wf(),
            0 <= n < self.len(),
            0 <= j < self.nkids(n),
            0 <= k < self.nkids(n),
            j != k,
        ensures
            !(self.anc(self.kid(n, j), x) && self.anc(self.kid(n, k), x)),
    {
        if !(self.anc(self.kid(n, j), x) && self.anc(self.kid(n, k), x)) {
            return;
        }
        let cj = self.kid(n, j);
        let ck = self.kid(n, k);
        if j < k {
            assert(cj != ck);
        } else {
            assert(self.kid(n, k) != self.kid(n, j));
        }
        if cj < ck {
            self.lemma_anc_total(cj, ck, x);
            assert(self.nodes@[ck].parent == Some(NodeId(n as usize)));
            self.lemma_anc_le(cj, n);
        } else {
            self.lemma_anc_total(ck, cj, x);
            assert(self.nodes@[cj].parent == Some(NodeId(n as usize)));
            self.lemma_anc_le(ck, n);
        }
    }

    /// Every node of the post-order of `n` descends from `n` and lies in the arena.
    pub proof fn lemma_post_order_desc(&self, n: int)
        requires
            self.wf(),
            0 <= n < self.len(),
        ensures
            forall|x: int|
                #[trigger] self.post_order(n).contains(x) ==> self.anc(n, x) && n <= x < self.len(),
        decreases self.len() - n, self.nkids(n) + 1,
    {
        self.lemma_post_from_desc(n, 0);
        assert(self.post_order(n) =~= self.post_from(n, 0) + seq![n]);
        assert(self.anc(n, n));
        assert forall|x: int| #[trigger] self.post_order(n).contains(x) implies self.anc(n, x) && n
            <= x < self.len() by {
            lemma_concat_contains(self.post_from(n, 0), seq![n], x);
            if x != n {
                assert(!seq![n].contains(x)) by {
                    if seq![n].contains(x) {
                        let i = choose|i: int| 0 <= i < 1 && seq![n][i] == x;
                    }
                }
            }
        }
    }

    /// Every node of `post_from(n, k)` descends from `n` and lies after it.
    pub proof fn lemma_post_from_desc(&self, n: int, k: int)
        requires
            self.wf(),
            0 <= n < self.len(),
            0 <= k,
        ensures
            forall|x: int|
                #[trigger] self.post_from(n, k).contains(x) ==> self.anc(n, x) && n < x < self.len(),
            forall|x: int|
                self.post_from(n, k).contains(x) ==> exists|j: int|
                    k <= j < self.nkids(n) && #[trigger] self.post_order(self.kid(n, j)).contains(x),
        decreases self.len() - n, self.nkids(n) - k,
    {
        if k < self.nkids(n) {
            let c = self.kid(n, k);
            assert(n < c < self.len());
            self.lemma_post_order_desc(c);
            self.lemma_post_from_desc(n, k + 1);
            assert(self.anc(n, n));
            assert(self.post_from(n, k) == self.post_order(c) + self.post_from(n, k + 1));
            assert forall|x: int| self.post_from(n, k).contains(x) implies self.anc(n, x) && n < x
                < self.len() by {
                lemma_concat_contains(self.post_order(c), self.post_from(n, k + 1), x);
                if self.post_order(c).contains(x) {
                    assert(self.nodes@[c].parent == Some(NodeId(n as usize)));
                    assert(self.anc(n, c));
                    self.lemma_anc_trans(n, c, x);
                    assert(self.anc(n, x));
                    assert(c <= x);
                    assert(x < self.len());
                } else {
                    assert(self.post_from(n, k + 1).contains(x));
                    assert(self.anc(n, x));
                    assert(n < x);
                    assert(x < self.len());
                }
            }
            assert forall|x: int| self.post_from(n, k).contains(x) implies exists|j: int|
                k <= j < self.nkids(n) && #[trigger] self.post_order(self.kid(n, j)).contains(x) by {
                lemma_concat_contains(self.post_order(c), self.post_from(n, k + 1), x);
                if self.post_order(c).contains(x) {
                    assert(self.post_order(self.kid(n, k)).contains(x));
                } else {
                    assert(self.post_from(n, k + 1).contains(x));
                }
            }
        }
    }

    /// The post-order of each child from the `k`-th on is part of `post_from(n, k)`.
    pub proof fn lemma_post_from_has(&self, n: int, k: int)
        requires
            self.wf(),
            0 <= n < self.len(),
            0 <= k,
        ensures
            forall|j: int, x: int|
                k <= j < self.nkids(n) && #[trigger] self.post_order(self.kid(n, j)).contains(x)
                    ==> self.post_from(n, k).contains(x),
        decreases self.nkids(n) - k,
    {
        if k < self.nkids(n) {
            let c = self.kid(n, k);
            assert(n < c < self.len());
            self.lemma_post_from_has(n, k + 1);
            assert forall|j: int, x: int|
                k <= j < self.nkids(n) && #[trigger] self.post_order(self.kid(n, j)).contains(
                    x,
                ) implies self.post_from(n, k).contains(x) by {
                let s = self.post_from(n, k);
                if j == k {
                    let i = choose|i: int| 0 <= i < self.post_order(c).len() && self.post_order(c)[i] == x;
                    assert(s[i] == x);
                } else {
                    let rest = self.post_from(n, k + 1);
                    let i = choose|i: int| 0 <= i < rest.len() && rest[i] == x;
                    assert(s[self.post_order(c).len() + i] == x);
                }
            }
        }
    }

    /// A post-order names each node once.
    pub proof fn lemma_post_order_nodup(&self, n: int)
        requires
            self.wf(),
            0 <= n < self.len(),
        ensures
            self.post_order(n).no_duplicates(),
        decreases self.len() - n, self.nkids(n) + 1,
    {
        self.lemma_post_from_nodup(n, 0);
        self.lemma_post_from_desc(n, 0);
        let s = self.post_from(n, 0);
        assert forall|i: int, j: int|
            0 <= i < s.len() && 0 <= j < seq![n].len() implies s[i] != seq![n][j] by {
            let x = s[i];
            assert(self.post_from(n, 0).contains(x));
            assert(self.anc(n, x) && n < x < self.len());
            assert(seq![n][j] == n);
        }
        vstd::seq_lib::lemma_no_dup_in_concat(s, seq![n]);
        assert(s + seq![n] == self.post_order(n));
    }

    /// `post_from(n, k)` names each node once.
    pub proof fn lemma_post_from_nodup(&self, n: int, k: int)
        requires
            self.wf(),
            0 <= n < self.len(),
            0 <= k,
        ensures
            self.post_from(n, k).no_duplicates(),
        decreases self.len() - n, self.nkids(n) - k,
    {
        if k < self.nkids(n) {
            let c = self.kid(n, k);
            assert(n < c < self.len());
            self.lemma_post_order_nodup(c);
            self.lemma_post_from_nodup(n, k + 1);
            self.lemma_post_order_desc(c);
            self.lemma_post_from_desc(n, k + 1);
            let a = self.post_order(c);
            let b = self.post_from(n, k + 1);
            assert forall|i: int, j: int| 0 <= i < a.len() && 0 <= j < b.len() implies a[i]
                != b[j] by {
                if a[i] == b[j] {
                    let x = a[i];
                    assert(a.contains(x));
                    assert(b.contains(x));
                    let jj = choose|jj: int|
                        k + 1 <= jj < self.nkids(n) && #[trigger] self.post_order(
                            self.kid(n, jj),
                        ).contains(x);
                    self.lemma_post_order_desc(self.kid(n, jj));
                    self.lemma_siblings_disjoint(n, k, jj, x);
                }
            }
            vstd::seq_lib::lemma_no_dup_in_concat(a, b);
        }
    }

    /// The post-order of `n` only depends on the children lists of its own nodes.
    pub proof fn lemma_post_order_frame(&self, other: &TreeArena, n: int)
        requires
            self.wf(),
            0 <= n < self.len(),
            other.len() == self.len(),
            forall|x: int|
                #![trigger self.post_order(n).contains(x)]
                self.post_order(n).contains(x) ==> other.nodes@[x].children@
                    == self.nodes@[x].children@,
        ensures
            other.post_order(n) == self.post_order(n),
        decreases self.len() - n, self.nkids(n) + 1,
    {
        let po = self.post_order(n);
        assert(po[po.len() - 1] == n);
        assert(po.contains(n));
        assert(po =~= self.post_from(n, 0) + seq![n]);
        assert forall|x: int| #![trigger self.post_from(n, 0).contains(x)]
            self.post_from(n, 0).contains(x) implies other.nodes@[x].children@
                == self.nodes@[x].children@ by {
            lemma_concat_contains(self.post_from(n, 0), seq![n], x);
        }
        self.lemma_post_from_has(n, 0);
        self.lemma_post_from_frame(other, n, 0);
    }

    /// `post_from(n, k)` only depends on the children lists of `n` and of its nodes.
    pub proof fn lemma_post_from_frame(&self, other: &TreeArena, n: int, k: int)
        requires
            self.wf(),
            0 <= n < self.len(),
            0 <= k,
            other.len() == self.len(),
            other.nodes@[n].children@ == self.nodes@[n].children@,
            forall|x: int|
                #![trigger self.post_from(n, k).contains(x)]
                self.post_from(n, k).contains(x) ==> other.nodes@[x].children@
                    == self.nodes@[x].children@,
        ensures
            other.post_from(n, k) == self.post_from(n, k),
        decreases self.len() - n, self.nkids(n) - k,
    {
        if k < self.nkids(n) {
            let c = self.kid(n, k);
            assert(other.kid(n, k) == c);
            self.lemma_post_from_has(n, k);
            self.lemma_post_from_has(n, k + 1);
            assert forall|x: int| #![trigger self.post_order(c).contains(x)]
                self.post_order(c).contains(x) implies other.nodes@[x].children@
                    == self.nodes@[x].children@ by {
                assert(self.post_order(self.kid(n, k)).contains(x));
                assert(self.post_from(n, k).contains(x));
            }
            assert forall|x: int| #![trigger self.post_from(n, k + 1).contains(x)]
                self.post_from(n, k + 1).contains(x) implies other.nodes@[x].children@
                    == self.nodes@[x].children@ by {
                self.lemma_post_from_desc(n, k + 1);
                let jj = choose|jj: int|
                    k + 1 <= jj < self.nkids(n) && #[trigger] self.post_order(
                        self.kid(n, jj),
                    ).contains(x);
                assert(self.post_from(n, k).contains(x));
            }
            self.lemma_post_order_frame(other, c);
            self.lemma_post_from_frame(other, n, k + 1);
        }
    }
}

impl TreeArena {
    /// The post-order of `n` holds `n` and, for each child, that child's post-order.
    pub proof fn lemma_post_order_members(&self, n: int)
        requires
            self.wf(),
            0 <= n < self.len(),
        ensures
            forall|x: int|
                self.post_order(n).contains(x) <==> (x == n || exists|j: int|
                    0 <= j < self.nkids(n) && #[trigger] self.post_order(self.kid(n, j)).contains(
                        x,
                    )),
    {
        self.lemma_post_from_desc(n, 0);
        self.lemma_post_from_has(n, 0);
        assert(self.post_order(n) =~= self.post_from(n, 0) + seq![n]);
        assert forall|x: int|
            self.post_order(n).contains(x) <==> (x == n || exists|j: int|
                0 <= j < self.nkids(n) && #[trigger] self.post_order(self.kid(n, j)).contains(x)) by {
            lemma_concat_contains(self.post_from(n, 0), seq![n], x);
            assert(seq![n].contains(x) <==> x == n) by {
                if x == n {
                    assert(seq![n][0] == n);
                }
            }
        }
    }

    /// An arena with the parents and children of a well-formed one is well formed.
    pub proof fn lemma_wf_same_shape(&self, other: &TreeArena)
        requires
            self.wf(),
            other.len() == self.len(),
            other.root == self.root,
            forall|i: int|
                0 <= i < self.len() ==> (#[trigger] other.nodes@[i]).parent
                    == self.nodes@[i].parent && other.nodes@[i].children@
                    == self.nodes@[i].children@,
        ensures
            other.wf(),
    {
        self.lemma_wf_drop_children_all(other);
    }

    proof fn lemma_wf_drop_children_all(&self, other: &TreeArena)
        requires
            self.wf(),
            other.len() == self.len(),
            other.root == self.root,
            forall|i: int|
                0 <= i < self.len() ==> (#[trigger] other.nodes@[i]).parent
                    == self.nodes@[i].parent && other.nodes@[i].children@
                    == self.nodes@[i].children@,
        ensures
            other.wf(),
    {
        assert forall|i: int, j: int|
            0 <= i < other.len() && 0 <= j < other.nkids(i) implies {
            &&& i < #[trigger] other.kid(i, j) < other.len()
            &&& other.nodes@[other.kid(i, j)].parent == Some(NodeId(i as usize))
        } by {
            assert(other.nodes@[i].children@ == self.nodes@[i].children@);
            assert(other.kid(i, j) == self.kid(i, j));
            assert(other.nodes@[self.kid(i, j)].parent == self.nodes@[self.kid(i, j)].parent);
        }
        assert forall|i: int, j: int, k: int|
            0 <= i < other.len() && 0 <= j < k < other.nkids(i) implies #[trigger] other.kid(i, j)
            != #[trigger] other.kid(i, k) by {
            assert(other.kid(i, j) == self.kid(i, j));
            assert(other.kid(i, k) == self.kid(i, k));
        }
        assert forall|i: int| 0 <= i < other.len() implies match (
        #[trigger] other.nodes@[i]).parent {
            Some(p) => p.0 < i,
            None => true,
        } by {
            assert(other.nodes@[i].parent == self.nodes@[i].parent);
        }
    }

    /// Emptying the children list of one node keeps an arena well formed.
    pub proof fn lemma_wf_drop_children(&self, other: &TreeArena, n: int)
        requires
            self.wf(),
            0 <= n < self.len(),
            other.len() == self.len(),
            other.root == self.root,
            other.nodes@[n].children@.len() == 0,
            other.nodes@[n].parent == self.nodes@[n].parent,
            forall|i: int|
                0 <= i < self.len() && i != n ==> (#[trigger] other.nodes@[i]).parent
                    == self.nodes@[i].parent && other.nodes@[i].children@
                    == self.nodes@[i].children@,
        ensures
            other.wf(),
    {
        assert forall|i: int, j: int|
            0 <= i < other.len() && 0 <= j < other.nkids(i) implies {
            &&& i < #[trigger] other.kid(i, j) < other.len()
            &&& other.nodes@[other.kid(i, j)].parent == Some(NodeId(i as usize))
        } by {
            assert(other.nodes@[i].children@ == self.nodes@[i].children@);
            assert(other.kid(i, j) == self.kid(i, j));
            assert(other.nodes@[self.kid(i, j)].parent == self.nodes@[self.kid(i, j)].parent);
        }
        assert forall|i: int, j: int, k: int|
            0 <= i < other.len() && 0 <= j < k < other.nkids(i) implies #[trigger] other.kid(i, j)
            != #[trigger] other.kid(i, k) by {
            assert(other.kid(i, j) == self.kid(i, j));
            assert(other.kid(i, k) == self.kid(i, k));
        }
        assert forall|i: int| 0 <= i < other.len() implies match (
        #[trigger] other.nodes@[i]).parent {
            Some(p) => p.0 < i,
            None => true,
        } by {
            assert(other.nodes@[i].parent == self.nodes@[i].parent);
        }
    }

    /// Empties the subtree rooted at `id`: every node of it loses its children,
    /// name, sizes, extended information and statistics.
    #[verifier::loop_isolation(false)]
    fn clear_subtree(&mut self, id: NodeId)
        requires
            old(self).wf(),
            id.0 < old(self).nodes@.len(),
        ensures
            final(self).wf(),
            final(self).len() == old(self).len(),
            final(self).root == old(self).root,
            forall|x: int|
                0 <= x < old(self).len() ==> if old(self).post_order(id.0 as int).contains(x) {
                    final(self).nodes@[x].cleared_from(old(self).nodes@[x])
                } else {
                    final(self).nodes@[x] == old(self).nodes@[x]
                },
        decreases old(self).len() - id.0,
    {
        let ghost o = *old(self);
        let ghost n = id.0 as int;
        let mut kids: Vec<NodeId> = Vec::new();
        std::mem::swap(&mut kids, &mut self.nodes[id.0].children);
        proof {
            o.lemma_wf_drop_children(self, n);
            o.lemma_post_order_members(n);
        }
        let mut j: usize = 0;
        while j < kids.len()
            invariant
                *old(self) == o,
                self.wf(),
                self.len() == o.len(),
                self.root == o.root,
                o.wf(),
                0 <= n < o.len(),
                kids@ == o.nodes@[n].children@,
                j <= kids@.len(),
                self.nodes@[n].children@.len() == 0,
                self.nodes@[n].same_but_children(o.nodes@[n]),
                forall|x: int|
                    0 <= x < o.len() && x != n ==> if exists|i: int|
                        0 <= i < j && #[trigger] o.post_order(o.kid(n, i)).contains(x) {
                        self.nodes@[x].cleared_from(o.nodes@[x])
                    } else {
                        self.nodes@[x] == o.nodes@[x]
                    },
            decreases kids@.len() - j,
        {
            let c = kids[j];
            let ghost ci = c.0 as int;
            let ghost cur = *self;
            proof {
                assert(ci == o.kid(n, j as int));
                assert(n < ci < o.len());
                o.lemma_post_order_desc(ci);
                assert forall|x: int| #![trigger o.post_order(ci).contains(x)]
                    o.post_order(ci).contains(x) implies cur.nodes@[x].children@
                        == o.nodes@[x].children@ by {
                    assert(ci <= x);
                    assert(x != n);
                    if exists|i: int| 0 <= i < j && #[trigger] o.post_order(o.kid(n, i)).contains(x) {
                        let i = choose|i: int|
                            0 <= i < j && #[trigger] o.post_order(o.kid(n, i)).contains(x);
                        o.lemma_post_order_desc(o.kid(n, i));
                        o.lemma_siblings_disjoint(n, i, j as int, x);
                    }
                }
                o.lemma_post_order_frame(&cur, ci);
            }
            assert(self.len() - ci < o.len() - n);
            self.clear_subtree(c);
            proof {
                assert forall|x: int| 0 <= x < o.len() && x != n implies if exists|i: int|
                    0 <= i < j + 1 && #[trigger] o.post_order(o.kid(n, i)).contains(x) {
                    self.nodes@[x].cleared_from(o.nodes@[x])
                } else {
                    self.nodes@[x] == o.nodes@[x]
                } by {
                    if o.post_order(ci).contains(x) {
                        assert(o.post_order(o.kid(n, j as int)).contains(x));
                        if exists|i: int| 0 <= i < j && #[trigger] o.post_order(o.kid(n, i)).contains(x) {
                            let i = choose|i: int|
                                0 <= i < j && #[trigger] o.post_order(o.kid(n, i)).contains(x);
                            o.lemma_post_order_desc(o.kid(n, i));
                            o.lemma_siblings_disjoint(n, i, j as int, x);
                        }
                    } else {
                        if exists|i: int| 0 <= i < j + 1 && #[trigger] o.post_order(o.kid(n, i)).contains(x) {
                            let i = choose|i: int|
                                0 <= i < j + 1 && #[trigger] o.post_order(o.kid(n, i)).contains(x);
                            assert(i != j);
                            assert(exists|i: int| 0 <= i < j && #[trigger] o.post_order(o.kid(n, i)).contains(x));
                        }
                    }
                }
                assert(ci != n);
            }
            j = j + 1;
        }
        let ghost before = *self;
        self.nodes[id.0].name = String::new();
        self.nodes[id.0].extended = None;
        self.nodes[id.0].asize = 0;
        self.nodes[id.0].dsize = 0;
        self.nodes[id.0].stats = AggregateStats::default();
        proof {
            before.lemma_wf_drop_children(self, n);
            assert forall|x: int|
                0 <= x < o.len() implies if o.post_order(n).contains(x) {
                self.nodes@[x].cleared_from(o.nodes@[x])
            } else {
                self.nodes@[x] == o.nodes@[x]
            } by {
                if x != n {
                    assert(self.nodes@[x] == before.nodes@[x]);
                    if o.post_order(n).contains(x) {
                        let i = choose|i: int|
                            0 <= i < o.nkids(n) && #[trigger] o.post_order(o.kid(n, i)).contains(x);
                        assert(exists|i: int| 0 <= i < j && #[trigger] o.post_order(o.kid(n, i)).contains(x));
                    }
                } else {
                    assert(o.post_order(n).contains(n));
                }
            }
        }
    }

    /// `after` is `self` once node `n` has been deleted: `n` is gone from its
    /// parent's children list, every node of its subtree is emptied, every
    /// other node is unchanged, and the arena stays well formed.
    pub open spec fn is_deletion(&self, after: TreeArena, n: int) -> bool {
        &&& after.wf()
        &&& after.len() == self.len()
        &&& after.root == self.root
        &&& forall|x: int|
            0 <= x < self.len() && #[trigger] self.post_order(n).contains(x)
                ==> after.nodes@[x].cleared_from(self.nodes@[x])
        &&& forall|x: int|
            0 <= x < self.len() && !self.post_order(n).contains(x) && self.nodes@[n].parent
                != Some(NodeId(x as usize)) ==> #[trigger] after.nodes@[x] == self.nodes@[x]
        &&& match self.nodes@[n].parent {
            Some(p) => {
                let before = self.nodes@[p.0 as int].children@;
                &&& after.nodes@[p.0 as int].same_but_children(self.nodes@[p.0 as int])
                &&& before.contains(NodeId(n as usize)) ==> after.nodes@[p.0 as int].children@
                    == before.remove(before.index_of(NodeId(n as usize)))
                &&& !before.contains(NodeId(n as usize)) ==> after.nodes@[p.0 as int].children@
                    == before
            },
            None => true,
        }
    }

    /// Unlinks `node_id` from its parent and empties its whole subtree; indices
    /// of all nodes stay valid.
    pub fn delete_node(&mut self, node_id: NodeId)
        requires
            old(self).wf(),
            node_id.0 < old(self).nodes@.len(),
        ensures
            old(self).is_deletion(*final(self), node_id.0 as int),
    {
        let ghost o = *old(self);
        let ghost n = node_id.0 as int;
        match self.nodes[node_id.0].parent {
            Some(parent_id) => {
                let ghost p = parent_id.0 as int;
                let len = self.nodes[parent_id.0].children.len();
                let mut pos: usize = 0;
                let mut found = false;
                while pos < len
                    invariant
                        *self == o,
                        p == parent_id.0,
                        0 <= p < n < o.len(),
                        o.nodes@[n].parent == Some(parent_id),
                        len == o.nodes@[p].children@.len(),
                        pos <= len,
                        found ==> pos < len && o.nodes@[p].children@[pos as int] == node_id,
                        !found ==> forall|i: int|
                            0 <= i < pos ==> o.nodes@[p].children@[i] != node_id,
                    ensures
                        found || pos == len,
                    decreases len - pos,
                {
                    if self.nodes[parent_id.0].children[pos] == node_id {
                        found = true;
                        break;
                    }
                    pos = pos + 1;
                }
                if found {
                    let ghost before = *self;
                    self.nodes[parent_id.0].children.remove(pos);
                    proof {
                        let ch = o.nodes@[p].children@;
                        assert(ch.contains(node_id));
                        assert forall|i: int| 0 <= i < ch.len() && ch[i] == node_id implies i
                            == pos by {
                            if i != pos {
                                if i < pos {
                                    assert(o.kid(p, i) != o.kid(p, pos as int));
                                } else {
                                    assert(o.kid(p, pos as int) != o.kid(p, i));
                                }
                            }
                        }
                        assert(ch.index_of(node_id) == pos);
                        self.lemma_wf_remove_child(&before, p, pos as int);
                        assert(o.post_order(p).len() > 0);
                        o.lemma_post_order_desc(n);
                        assert forall|x: int| #![trigger o.post_order(n).contains(x)]
                            o.post_order(n).contains(x) implies self.nodes@[x].children@
                                == o.nodes@[x].children@ by {
                            assert(n <= x < o.len());
                            assert(x != p);
                            assert(self.nodes@[x] == before.nodes@[x]);
                        }
                        o.lemma_post_order_frame(self, n);
                    }
                } else {
                    proof {
                        assert(!o.nodes@[p].children@.contains(node_id));
                    }
                }
            },
            None => {},
        }
        let ghost mid = *self;
        proof {
            o.lemma_post_order_desc(n);
        }
        self.clear_subtree(node_id);
        proof {
            assert forall|x: int|
                0 <= x < o.len() && !o.post_order(n).contains(x) && o.nodes@[n].parent != Some(
                    NodeId(x as usize),
                ) implies #[trigger] self.nodes@[x] == o.nodes@[x] by {
                assert(mid.nodes@[x] == o.nodes@[x]);
            }
            assert(node_id == NodeId(n as usize));
        }
    }

    /// Law: once a node other than the root has been deleted, it can no longer
    /// be reached from the root.
    pub proof fn lemma_delete_unlinks(&self, after: TreeArena, n: int)
        requires
            self.wf(),
            0 <= n < self.len(),
            n != self.root.0,
            self.is_deletion(after, n),
        ensures
            !after.post_order(after.root.0 as int).contains(n),
    {
        match self.nodes@[n].parent {
            Some(p) => {
                let pi = p.0 as int;
                assert(pi < n);
                let before = self.nodes@[pi].children@;
                let id = NodeId(n as usize);
                self.lemma_post_order_desc(n);
                assert(!self.post_order(n).contains(pi)) by {
                    if self.post_order(n).contains(pi) {
                        assert(n <= pi);
                    }
                }
                if before.contains(id) {
                    let k = before.index_of(id);
                    assert forall|i: int| 0 <= i < before.len() - 1 implies before.remove(k)[i] != id by {
                        if i < k {
                            assert(self.kid(pi, i) != self.kid(pi, k));
                        } else {
                            assert(self.kid(pi, k) != self.kid(pi, i + 1));
                        }
                    }
                    assert(!after.nodes@[pi].children@.contains(id));
                }
                assert(after.nodes@[n].parent == Some(p)) by {
                    assert(self.post_order(n).contains(n)) by {
                        self.lemma_post_order_members(n);
                    }
                }
                after.lemma_deleted_unreachable(n, 0);
            },
            None => {
                self.lemma_post_order_members(n);
                assert(after.nodes@[n].parent is None);
                after.lemma_deleted_unreachable(n, 0);
            },
        }
    }

    /// Removing one entry from one children list keeps an arena well formed.
    pub proof fn lemma_wf_remove_child(&self, before: &TreeArena, p: int, k: int)
        requires
            before.wf(),
            0 <= p < before.len(),
            0 <= k < before.nkids(p),
            self.len() == before.len(),
            self.root == before.root,
            self.nodes@[p].children@ == before.nodes@[p].children@.remove(k),
            forall|i: int|
                0 <= i < before.len() ==> (#[trigger] self.nodes@[i]).parent
                    == before.nodes@[i].parent,
            forall|i: int|
                0 <= i < before.len() && i != p ==> (#[trigger] self.nodes@[i]).children@
                    == before.nodes@[i].children@,
        ensures
            self.wf(),
    {
        assert forall|i: int, j: int|
            0 <= i < self.len() && 0 <= j < self.nkids(i) implies {
            &&& i < #[trigger] self.kid(i, j) < self.len()
            &&& self.nodes@[self.kid(i, j)].parent == Some(NodeId(i as usize))
        } by {
            if i == p {
                if j < k {
                    assert(self.kid(i, j) == before.kid(i, j));
                } else {
                    assert(self.kid(i, j) == before.kid(i, j + 1));
                }
            } else {
                assert(self.kid(i, j) == before.kid(i, j));
            }
            assert(self.nodes@[self.kid(i, j)].parent == before.nodes@[self.kid(i, j)].parent);
        }
        assert forall|i: int, j: int, l: int|
            0 <= i < self.len() && 0 <= j < l < self.nkids(i) implies #[trigger] self.kid(i, j)
            != #[trigger] self.kid(i, l) by {
            if i == p {
                let jj = if j < k { j } else { j + 1 };
                let ll = if l < k { l } else { l + 1 };
                assert(self.kid(i, j) == before.kid(i, jj));
                assert(self.kid(i, l) == before.kid(i, ll));
            } else {
                assert(self.kid(i, j) == before.kid(i, j));
                assert(self.kid(i, l) == before.kid(i, l));
            }
        }
        assert forall|i: int| 0 <= i < self.len() implies match (#[trigger] self.nodes@[i]).parent {
            Some(q) => q.0 < i,
            None => true,
        } by {
            assert(self.nodes@[i].parent == before.nodes@[i].parent);
        }
    }

    /// A deleted node (other than the root) can no longer be reached from the
    /// root: no post-order of the tree names it.
    pub proof fn lemma_deleted_unreachable(&self, n: int, r: int)
        requires
            self.wf(),
            0 <= n < self.len(),
            0 <= r < self.len(),
            r != n,
            match self.nodes@[n].parent {
                Some(p) => !self.nodes@[p.0 as int].children@.contains(NodeId(n as usize)),
                None => true,
            },
        ensures
            !self.post_order(r).contains(n),
        decreases self.len() - r,
    {
        self.lemma_post_order_members(r);
        if self.post_order(r).contains(n) {
            let j = choose|j: int|
                0 <= j < self.nkids(r) && #[trigger] self.post_order(self.kid(r, j)).contains(n);
            let c = self.kid(r, j);
            if c == n {
                assert(self.nodes@[n].parent == Some(NodeId(r as usize)));
                assert(self.nodes@[r].children@[j] == NodeId(n as usize));
                assert(self.nodes@[r].children@.contains(NodeId(n as usize)));
            } else {
                self.lemma_deleted_unreachable(n, c);
            }
        }
    }
}

} // verus!
