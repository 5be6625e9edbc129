use vstd::prelude::*;

use crate::export::bin_read::{
    item_extended, item_flag_bits, item_is_dir, items_view, node_from_item, node_of_item, BinError,
    ItemFields, ItemFieldsV,
};
use crate::export::json_read::child_ids;
use crate::tree::arena::TreeArena;
use crate::tree::node::{NodeId, TreeNode};
use crate::tree::stats::recalculate_stats;
use std::collections::HashMap;

verus! {

broadcast use vstd::std_specs::hash::group_hash_axioms;

/// `n` carries what the item with fields `f` describes, its links and
/// statistics aside.
pub open spec fn node_matches(n: TreeNode, f: ItemFieldsV) -> bool {
    &&& n.name@ == f.name
    &&& n.dev == f.dev
    &&& n.ino == f.ino
    &&& n.flags.bits == item_flag_bits(f)
    &&& n.extended == item_extended(f)
    &&& if item_is_dir(f) {
        n.asize == 0 && n.dsize == 0 && n.nlink == 1
    } else {
        n.asize == f.asize && n.dsize == f.dsize && n.nlink == f.nlink
    }
}

/// `a` and `b` describe the same entry: they agree on everything but their
/// links and statistics.
pub open spec fn same_entry(a: TreeNode, b: TreeNode) -> bool {
    &&& a.name@ == b.name@
    &&& a.asize == b.asize
    &&& a.dsize == b.dsize
    &&& a.dev == b.dev
    &&& a.ino == b.ino
    &&& a.nlink == b.nlink
    &&& a.flags == b.flags
    &&& a.extended == b.extended
}

/// The index of the last item at offset `off`, -1 when there is none.
pub open spec fn last_at(items: Seq<(nat, ItemFieldsV)>, off: nat) -> int
    decreases items.len(),
{
    if items.len() == 0 {
        -1
    } else if items.last().0 == off {
        items.len() - 1
    } else {
        last_at(items.drop_last(), off)
    }
}

/// `last_at` names an item at that offset, or none at all.
pub proof fn lemma_last_at(items: Seq<(nat, ItemFieldsV)>, off: nat)
    ensures
        -1 <= last_at(items, off) < items.len(),
        last_at(items, off) >= 0 ==> items[last_at(items, off)].0 == off,
        last_at(items, off) < 0 ==> forall|j: int| 0 <= j < items.len() ==> items[j].0 != off,
    decreases items.len(),
{
    if items.len() > 0 && items.last().0 != off {
        lemma_last_at(items.drop_last(), off);
        assert forall|j: int| 0 <= j < items.len() - 1 implies items[j] == items.drop_last()[j] by {}
    }
}

/// The node `n` carries one of the items.
pub open spec fn carries_item(n: TreeNode, items: Seq<(nat, ItemFieldsV)>) -> bool {
    exists|j: int| 0 <= j < items.len() && #[trigger] node_matches(n, items[j].1)
}

/// Every node of `a` carries one of the items.
pub open spec fn nodes_from_items(a: TreeArena, items: Seq<(nat, ItemFieldsV)>) -> bool {
    forall|i: int| 0 <= i < a.len() ==> carries_item(#[trigger] a.nodes@[i], items)
}

/// Maps each offset to the index of the last item found at it.
fn index_offsets(items: &Vec<(usize, ItemFields)>) -> (m: HashMap<usize, usize>)
    ensures
        forall|off: usize|
            #[trigger] m@.contains_key(off) <==> last_at(items_view(items@), off as nat) >= 0,
        forall|off: usize|
            #[trigger] m@.contains_key(off) ==> m@[off] == last_at(items_view(items@), off as nat),
{
    let mut m: HashMap<usize, usize> = HashMap::new();
    let mut i: usize = 0;
    while i < items.len()
        invariant
            i <= items@.len(),
            forall|off: usize|
                #[trigger] m@.contains_key(off) <==> last_at(
                    items_view(items@.subrange(0, i as int)),
                    off as nat,
                ) >= 0,
            forall|off: usize|
                #[trigger] m@.contains_key(off) ==> m@[off] == last_at(
                    items_view(items@.subrange(0, i as int)),
                    off as nat,
                ),
        decreases items@.len() - i,
    {
        let off = items[i].0;
        m.insert(off, i);
        proof {
            let s = items_view(items@.subrange(0, i + 1));
            assert(s.drop_last() =~= items_view(items@.subrange(0, i as int)));
            assert(s.last().0 == off as nat);
        }
        i = i + 1;
    }
    assert(items@.subrange(0, items@.len() as int) =~= items@);
    m
}

/// The indices of `v` are strictly ascending.
pub open spec fn ascending(v: Seq<usize>) -> bool {
    forall|a: int, b: int| 0 <= a < b < v.len() ==> v[a] < v[b]
}

/// Inserts `x` into an ascending list of distinct indices, unless present.
fn insert_sorted(v: &mut Vec<usize>, x: usize)
    requires
        ascending(old(v)@),
    ensures
        ascending(final(v)@),
        forall|y: usize| final(v)@.contains(y) <==> (old(v)@.contains(y) || y == x),
{
    let mut i: usize = 0;
    while i < v.len() && v[i] < x
        invariant
            i <= v@.len(),
            v@ == old(v)@,
            forall|k: int| 0 <= k < i ==> v@[k] < x,
        decreases v@.len() - i,
    {
        i = i + 1;
    }
    if i < v.len() && v[i] == x {
        assert(v@[i as int] == x);
        assert(v@.contains(x));
        assert forall|y: usize| v@.contains(y) <==> (old(v)@.contains(y) || y == x) by {}
        return;
    }
    let ghost o = v@;
    assert(o == old(v)@);
    assert(i < o.len() ==> o[i as int] > x);
    v.insert(i, x);
    proof {
        assert forall|y: usize| #[trigger] v@.contains(y) <==> (old(v)@.contains(y) || y == x) by {
            lemma_insert_contains(o, i as int, x, y);
        }
        lemma_insert_ascending(o, i as int, x);
    }
}

/// Inserting `x` where everything before is smaller and everything after
/// larger keeps a list ascending.
proof fn lemma_insert_ascending(o: Seq<usize>, i: int, x: usize)
    requires
        ascending(o),
        0 <= i <= o.len(),
        forall|k: int| 0 <= k < i ==> o[k] < x,
        i < o.len() ==> o[i] > x,
    ensures
        ascending(o.insert(i, x)),
{
    let v = o.insert(i, x);
    assert forall|a: int, b: int| 0 <= a < b < v.len() implies v[a] < v[b] by {
        if b < i {
            assert(v[a] == o[a] && v[b] == o[b]);
        } else if b == i {
            assert(v[a] == o[a]);
        } else if a < i {
            assert(v[a] == o[a] && v[b] == o[b - 1]);
            assert(o[i] <= o[b - 1]);
        } else if a == i {
            assert(v[b] == o[b - 1]);
            assert(o[i] <= o[b - 1]);
        } else {
            assert(v[a] == o[a - 1] && v[b] == o[b - 1]);
        }
    }
}

/// Membership after an insertion into a sequence.
proof fn lemma_insert_contains(o: Seq<usize>, i: int, x: usize, y: usize)
    requires
        0 <= i <= o.len(),
    ensures
        o.insert(i, x).contains(y) <==> (o.contains(y) || y == x),
{
    let v = o.insert(i, x);
    if v.contains(y) {
        let k = choose|k: int| 0 <= k < v.len() && v[k] == y;
        if k < i {
            assert(o[k] == y);
        } else if k > i {
            assert(o[k - 1] == y);
        }
    }
    if o.contains(y) {
        let k = choose|k: int| 0 <= k < o.len() && o[k] == y;
        if k < i {
            assert(v[k] == y);
        } else {
            assert(v[k + 1] == y);
        }
    }
    if y == x {
        assert(v[i] == x);
    }
}

/// A node that keeps what it describes still carries the same item.
proof fn lemma_nodes_from_items_frame(before: TreeArena, after: TreeArena, iv: Seq<(nat, ItemFieldsV)>)
    requires
        nodes_from_items(before, iv),
        after.len() == before.len(),
        forall|i: int| 0 <= i < before.len() ==> same_entry(#[trigger] after.nodes@[i], before.nodes@[i]),
    ensures
        nodes_from_items(after, iv),
{
    assert forall|i: int| 0 <= i < after.len() implies carries_item(#[trigger] after.nodes@[i], iv) by {
        if 0 <= i < before.len() {
            assert(same_entry(after.nodes@[i], before.nodes@[i]));
            let b = before.nodes@[i];
            let j = choose|j: int| 0 <= j < iv.len() && #[trigger] node_matches(b, iv[j].1);
            assert(node_matches(after.nodes@[i], iv[j].1));
        }
    }
}

/// Appending a node that carries an item keeps every node carrying one.
proof fn lemma_nodes_from_items_push(
    before: TreeArena,
    after: TreeArena,
    iv: Seq<(nat, ItemFieldsV)>,
    c: int,
)
    requires
        nodes_from_items(before, iv),
        after.len() == before.len() + 1,
        0 <= c < iv.len(),
        node_matches(after.nodes@[before.len()], iv[c].1),
        forall|i: int| 0 <= i < before.len() ==> same_entry(#[trigger] after.nodes@[i], before.nodes@[i]),
    ensures
        nodes_from_items(after, iv),
{
    assert forall|i: int| 0 <= i < after.len() implies carries_item(#[trigger] after.nodes@[i], iv) by {
        if i == before.len() {
            assert(node_matches(after.nodes@[i], iv[c].1));
        } else {
            assert(same_entry(after.nodes@[i], before.nodes@[i]));
            let b = before.nodes@[i];
            let j = choose|j: int| 0 <= j < iv.len() && #[trigger] node_matches(b, iv[j].1);
            assert(node_matches(after.nodes@[i], iv[j].1));
        }
    }
}

/// Every index held in `v` is below `n`.
pub open spec fn all_below(v: Seq<usize>, n: nat) -> bool {
    forall|k: int| 0 <= k < v.len() ==> #[trigger] v[k] < n
}

/// Every link held in `v` is below `n`.
pub open spec fn links_below(v: Seq<Option<usize>>, n: nat) -> bool {
    forall|k: int| 0 <= k < v.len() ==> (#[trigger] v[k] matches Some(x) ==> x < n)
}

/// The item that item `j` names as its previous sibling: the last item at
/// the offset of `j` moved by its relative reference, when there is one.
pub open spec fn prev_link(iv: Seq<(nat, ItemFieldsV)>, j: int) -> Option<usize> {
    match iv[j].1.prev {
        Some(rel) => {
            let t = iv[j].0 + rel;
            if 0 <= t <= usize::MAX && last_at(iv, t as nat) >= 0 {
                Some(last_at(iv, t as nat) as usize)
            } else {
                None
            }
        },
        None => None,
    }
}

/// The last of the first `m` items that names `p` as its previous sibling.
pub open spec fn next_link(iv: Seq<(nat, ItemFieldsV)>, p: usize, m: int) -> Option<usize>
    decreases m,
{
    if m <= 0 {
        None
    } else if prev_link(iv, m - 1) == Some(p) {
        Some((m - 1) as usize)
    } else {
        next_link(iv, p, m - 1)
    }
}

/// Resolves the relative sibling references: `prev[j]` is the item that item
/// `j` names as its previous sibling, `next[p]` the last item that names `p`.
fn sibling_links(items: &Vec<(usize, ItemFields)>, ids: &HashMap<usize, usize>) -> (r: (
    Vec<Option<usize>>,
    Vec<Option<usize>>,
))
    requires
        forall|off: usize|
            #[trigger] ids@.contains_key(off) <==> last_at(items_view(items@), off as nat) >= 0,
        forall|off: usize|
            #[trigger] ids@.contains_key(off) ==> ids@[off] == last_at(
                items_view(items@),
                off as nat,
            ),
    ensures
        r.0@.len() == items@.len(),
        r.1@.len() == items@.len(),
        links_below(r.0@, items@.len()),
        links_below(r.1@, items@.len()),
        forall|j: int| 0 <= j < items@.len() ==> #[trigger] r.0@[j] == prev_link(items_view(items@), j),
        forall|p: int|
            0 <= p < items@.len() ==> #[trigger] r.1@[p] == next_link(
                items_view(items@),
                p as usize,
                items@.len() as int,
            ),
{
    let ghost iv = items_view(items@);
    let n = items.len();
    let mut prev: Vec<Option<usize>> = Vec::new();
    let mut next: Vec<Option<usize>> = Vec::new();
    let mut i: usize = 0;
    while i < n
        invariant
            n == items@.len(),
            i <= n,
            prev@.len() == i,
            next@.len() == i,
            forall|k: int| 0 <= k < i ==> prev@[k] is None && next@[k] is None,
        decreases n - i,
    {
        prev.push(None);
        next.push(None);
        i = i + 1;
    }
    assert forall|q: int| 0 <= q < n implies #[trigger] next@[q] == next_link(iv, q as usize, 0) by {}
    let mut j: usize = 0;
    while j < n
        invariant
            n == items@.len(),
            j <= n,
            prev@.len() == n,
            next@.len() == n,
            links_below(prev@, n as nat),
            links_below(next@, n as nat),
            iv == items_view(items@),
            forall|off: usize|
                #[trigger] ids@.contains_key(off) <==> last_at(iv, off as nat) >= 0,
            forall|off: usize|
                #[trigger] ids@.contains_key(off) ==> ids@[off] == last_at(
                    items_view(items@),
                    off as nat,
                ),
            forall|k: int| 0 <= k < n ==> #[trigger] prev@[k] == if k < j {
                prev_link(iv, k)
            } else {
                None
            },
            forall|q: int| 0 <= q < n ==> #[trigger] next@[q] == next_link(iv, q as usize, j as int),
        decreases n - j,
    {
        let ghost pj = prev_link(iv, j as int);
        assert(iv[j as int] == (items@[j as int].0 as nat, items@[j as int].1@));
        if let Some(rel) = items[j].1.prev {
            let target: i128 = items[j].0 as i128 + rel as i128;
            if 0 <= target && target <= usize::MAX as i128 {
                let t = target as usize;
                if let Some(p) = ids.get(&t) {
                    let p = *p;
                    proof {
                        lemma_last_at(items_view(items@), t as nat);
                        assert(pj == Some(p));
                    }
                    prev.set(j, Some(p));
                    next.set(p, Some(j));
                } else {
                    assert(pj is None);
                }
            } else {
                assert(pj is None);
            }
        } else {
            assert(pj is None);
        }
        assert forall|q: int| 0 <= q < n implies #[trigger] next@[q] == next_link(iv, q as usize, j + 1) by {
            assert(next_link(iv, q as usize, j + 1) == if prev_link(iv, j as int) == Some(q as usize) {
                Some(j)
            } else {
                next_link(iv, q as usize, j as int)
            });
        }
        j = j + 1;
    }
    (prev, next)
}

/// The indices met following the links in `links` from `cur` for at most
/// `fuel` steps; `None` when the walk has not ended by then.
pub open spec fn chain(links: Seq<Option<usize>>, cur: Option<usize>, fuel: nat) -> Option<Set<usize>>
    decreases fuel,
{
    match cur {
        None => Some(Set::empty()),
        Some(x) => if fuel == 0 {
            None
        } else {
            match chain(links, links[x as int], (fuel - 1) as nat) {
                Some(s) => Some(s.insert(x)),
                None => None,
            }
        },
    }
}

/// Follows the links in `links` from `start`, adding each index met to
/// `list`; fails when the walk does not end within `n` steps, that is when
/// the links form a cycle.
fn walk_links(links: &Vec<Option<usize>>, start: Option<usize>, list: &mut Vec<usize>) -> (r: Result<
    (),
    BinError,
>)
    requires
        links_below(links@, links@.len()),
        start matches Some(x) ==> x < links@.len(),
        all_below(old(list)@, links@.len()),
        ascending(old(list)@),
    ensures
        all_below(final(list)@, links@.len()),
        ascending(final(list)@),
        r is Ok <==> chain(links@, start, links@.len()) is Some,
        r is Ok ==> forall|y: usize|
            final(list)@.contains(y) <==> (old(list)@.contains(y) || chain(
                links@,
                start,
                links@.len(),
            )->0.contains(y)),
        r is Err ==> r == Err::<(), BinError>(BinError::MalformedLinks),
{
    let n = links.len();
    let mut cur = start;
    let mut steps: usize = 0;
    let ghost mut seen: Set<usize> = Set::empty();
    while cur.is_some()
        invariant
            n == links@.len(),
            steps <= n,
            links_below(links@, n as nat),
            cur matches Some(x) ==> x < n,
            all_below(list@, n as nat),
            ascending(list@),
            forall|y: usize| #[trigger] list@.contains(y) <==> (old(list)@.contains(y) || seen.contains(y)),
            match chain(links@, cur, (n - steps) as nat) {
                Some(rest) => chain(links@, start, n as nat) == Some(rest.union(seen)),
                None => chain(links@, start, n as nat) is None,
            },
        decreases n - steps,
    {
        if steps == n {
            return Err(BinError::MalformedLinks);
        }
        let idx = cur.unwrap();
        let ghost before = list@;
        insert_sorted(list, idx);
        proof {
            assert forall|k: int| 0 <= k < list@.len() implies #[trigger] list@[k] < n by {
                assert(list@.contains(list@[k]));
                if before.contains(list@[k]) {
                    let kk = choose|kk: int| 0 <= kk < before.len() && before[kk] == list@[k];
                    assert(before[kk] < n);
                }
            }
            let f = (n - steps) as nat;
            assert(chain(links@, cur, f) == match chain(links@, links@[idx as int], (f - 1) as nat) {
                Some(s) => Some(s.insert(idx)),
                None => None::<Set<usize>>,
            });
            if let Some(rest) = chain(links@, links@[idx as int], (f - 1) as nat) {
                assert(rest.insert(idx).union(seen) =~= rest.union(seen.insert(idx)));
            }
            assert forall|y: usize| #[trigger] list@.contains(y) <==> (old(list)@.contains(y) || seen.insert(
                idx,
            ).contains(y)) by {
                assert(list@.contains(y) <==> (before.contains(y) || y == idx));
                assert(before.contains(y) <==> (old(list)@.contains(y) || seen.contains(y)));
            }
            seen = seen.insert(idx);
        }
        cur = links[idx];
        steps = steps + 1;
    }
    proof {
        assert(chain(links@, cur, (n - steps) as nat) == Some(Set::<usize>::empty()));
        assert(Set::<usize>::empty().union(seen) =~= seen);
        assert(chain(links@, start, n as nat) == Some(seen));
        assert forall|y: usize| #[trigger] list@.contains(y) <==> (old(list)@.contains(y) || chain(
            links@,
            start,
            n as nat,
        )->0.contains(y)) by {}
    }
    Ok(())
}

/// The previous-sibling links of all the items.
pub open spec fn prev_links(iv: Seq<(nat, ItemFieldsV)>) -> Seq<Option<usize>> {
    Seq::new(iv.len(), |j: int| prev_link(iv, j))
}

/// The next-sibling links of all the items.
pub open spec fn next_links(iv: Seq<(nat, ItemFieldsV)>) -> Seq<Option<usize>> {
    Seq::new(iv.len(), |p: int| next_link(iv, p as usize, iv.len() as int))
}

/// The item that the child reference of item `p` names, when it points into
/// block `root_block` at an offset where an item lies.
pub open spec fn first_child(iv: Seq<(nat, ItemFieldsV)>, p: int, root_block: u32) -> Option<usize> {
    match iv[p].1.sub {
        Some(sub) => {
            let off = (sub & 0xFF_FFFF) as usize;
            if (sub >> 24) as u32 == root_block && last_at(iv, off as nat) >= 0 {
                Some(last_at(iv, off as nat) as usize)
            } else {
                None
            }
        },
        None => None,
    }
}

/// The children of item `p`: the item its child reference names with all
/// the previous and next siblings reached from it; `None` when a sibling
/// chain does not end.
pub open spec fn child_set(iv: Seq<(nat, ItemFieldsV)>, p: int, root_block: u32) -> Option<Set<usize>> {
    match first_child(iv, p, root_block) {
        Some(c) => match chain(prev_links(iv), Some(c), iv.len()) {
            Some(before) => match chain(next_links(iv), next_links(iv)[c as int], iv.len()) {
                Some(after) => Some(before.union(after)),
                None => None,
            },
            None => None,
        },
        None => Some(Set::empty()),
    }
}

/// `list` holds exactly the indices of `set`, in ascending order.
pub open spec fn lists_set(list: Seq<usize>, set: Set<usize>) -> bool {
    &&& ascending(list)
    &&& forall|y: usize| #[trigger] list.contains(y) <==> set.contains(y)
}

/// The children of each item: for an item with a child reference into the
/// root block, the referenced item with all its previous and next siblings,
/// in ascending order of index.
fn child_lists(
    items: &Vec<(usize, ItemFields)>,
    ids: &HashMap<usize, usize>,
    prev: &Vec<Option<usize>>,
    next: &Vec<Option<usize>>,
    root_block: u32,
) -> (r: Result<Vec<Vec<usize>>, BinError>)
    requires
        prev@.len() == items@.len(),
        next@.len() == items@.len(),
        links_below(prev@, items@.len()),
        links_below(next@, items@.len()),
        prev@ == prev_links(items_view(items@)),
        next@ == next_links(items_view(items@)),
        forall|off: usize|
            #[trigger] ids@.contains_key(off) <==> last_at(items_view(items@), off as nat) >= 0,
        forall|off: usize|
            #[trigger] ids@.contains_key(off) ==> ids@[off] == last_at(
                items_view(items@),
                off as nat,
            ),
    ensures
        r is Ok <==> forall|p: int|
            0 <= p < items@.len() ==> #[trigger] child_set(items_view(items@), p, root_block) is Some,
        r matches Ok(k) ==> k@.len() == items@.len() && forall|p: int|
            0 <= p < k@.len() ==> all_below(#[trigger] k@[p]@, items@.len()) && lists_set(
                k@[p]@,
                child_set(items_view(items@), p, root_block)->0,
            ),
        r is Err ==> r == Err::<Vec<Vec<usize>>, BinError>(BinError::MalformedLinks),
{
    let ghost iv = items_view(items@);
    let n = items.len();
    let mut kids: Vec<Vec<usize>> = Vec::new();
    let mut p: usize = 0;
    while p < n
        invariant
            n == items@.len(),
            p <= n,
            prev@.len() == n,
            next@.len() == n,
            links_below(prev@, n as nat),
            links_below(next@, n as nat),
            kids@.len() == p,
            iv == items_view(items@),
            prev@ == prev_links(iv),
            next@ == next_links(iv),
            forall|q: int| 0 <= q < p ==> all_below(#[trigger] kids@[q]@, n as nat),
            forall|q: int|
                0 <= q < p ==> #[trigger] child_set(iv, q, root_block) is Some && lists_set(
                    kids@[q]@,
                    child_set(iv, q, root_block)->0,
                ),
            forall|off: usize|
                #[trigger] ids@.contains_key(off) <==> last_at(iv, off as nat) >= 0,
            forall|off: usize|
                #[trigger] ids@.contains_key(off) ==> ids@[off] == last_at(
                    items_view(items@),
                    off as nat,
                ),
        decreases n - p,
    {
        let mut list: Vec<usize> = Vec::new();
        let ghost fc = first_child(iv, p as int, root_block);
        assert(iv[p as int] == (items@[p as int].0 as nat, items@[p as int].1@));
        if let Some(sub) = items[p].1.sub {
            let child_block = (sub >> 24) as u32;
            let child_offset = (sub & 0xFF_FFFF) as usize;
            if child_block == root_block {
                if let Some(c) = ids.get(&child_offset) {
                    let c = *c;
                    proof {
                        lemma_last_at(items_view(items@), child_offset as nat);
                        assert(fc == Some(c));
                    }
                    let r1 = walk_links(prev, Some(c), &mut list);
                    if r1.is_err() {
                        assert(child_set(iv, p as int, root_block) is None);
                        return Err(BinError::MalformedLinks);
                    }
                    let ghost mid = list@;
                    let r2 = walk_links(next, next[c], &mut list);
                    if r2.is_err() {
                        assert(child_set(iv, p as int, root_block) is None);
                        return Err(BinError::MalformedLinks);
                    }
                    proof {
                        let cs = child_set(iv, p as int, root_block)->0;
                        assert forall|y: usize| #[trigger] list@.contains(y) <==> cs.contains(y) by {
                            assert(list@.contains(y) <==> (mid.contains(y) || chain(next@, next@[c as int], n as nat)->0.contains(y)));
                            assert(mid.contains(y) <==> (Seq::<usize>::empty().contains(y) || chain(prev@, Some(c), n as nat)->0.contains(y)));
                        }
                    }
                } else {
                    assert(fc is None);
                }
            } else {
                assert(fc is None);
            }
        } else {
            assert(fc is None);
        }
        proof {
            if fc is None {
                assert forall|y: usize| #[trigger] list@.contains(y) <==> child_set(iv, p as int, root_block)->0.contains(y) by {}
            }
        }
        kids.push(list);
        proof {
            assert(kids@[p as int]@ == list@);
        }
        p = p + 1;
    }
    Ok(kids)
}

/// The items whose nodes are added below item `idx` when building with
/// `fuel` levels left, in the order they are added: each child in list
/// order, followed by the items below it; `None` when the nesting runs out
/// of levels.
pub open spec fn item_walk(kids: Seq<Seq<usize>>, idx: int, fuel: nat) -> Option<Seq<int>>
    decreases fuel, 0nat, 0nat,
{
    if fuel == 0 {
        None
    } else {
        item_list_walk(kids, kids[idx], 0, (fuel - 1) as nat)
    }
}

/// The items added for the children `list[k..]`, each followed by the items
/// below it.
pub open spec fn item_list_walk(kids: Seq<Seq<usize>>, list: Seq<usize>, k: int, fuel: nat) -> Option<
    Seq<int>,
>
    decreases fuel, 1nat, if 0 <= k < list.len() {
        (list.len() - k) as nat
    } else {
        0nat
    },
{
    if 0 <= k < list.len() {
        match item_walk(kids, list[k] as int, fuel) {
            Some(below) => match item_list_walk(kids, list, k + 1, fuel) {
                Some(rest) => Some(seq![list[k] as int] + below + rest),
                None => None,
            },
            None => None,
        }
    } else {
        Some(Seq::empty())
    }
}

/// The positions where the nodes of the children `list[k..]` go when laid
/// out from position `q`, each followed by the nodes below it.
pub open spec fn item_starts(kids: Seq<Seq<usize>>, list: Seq<usize>, k: int, q: int, fuel: nat) -> Seq<int>
    decreases list.len() - k,
{
    if 0 <= k < list.len() {
        seq![q] + item_starts(kids, list, k + 1, q + 1 + item_walk(kids, list[k] as int, fuel)->0.len(), fuel)
    } else {
        Seq::empty()
    }
}

/// The node at position `p` of `a` heads the subtree built for item `idx`
/// with `fuel` levels left: its children are, in order, the nodes of the
/// item's children, laid out from `p + 1`, each heading its own subtree.
pub open spec fn item_shape(a: TreeArena, p: int, idx: int, kids: Seq<Seq<usize>>, fuel: nat) -> bool
    decreases fuel, 0nat, 0nat,
{
    fuel > 0 && child_ids(a, p) == item_starts(kids, kids[idx], 0, p + 1, (fuel - 1) as nat)
        && item_list_shape(a, kids, kids[idx], 0, p + 1, (fuel - 1) as nat)
}

/// The subtrees of the children `list[k..]` are held from position `q` on,
/// one after another.
pub open spec fn item_list_shape(a: TreeArena, kids: Seq<Seq<usize>>, list: Seq<usize>, k: int, q: int, fuel: nat) -> bool
    decreases fuel, 1nat, if 0 <= k < list.len() {
        (list.len() - k) as nat
    } else {
        0nat
    },
{
    if 0 <= k < list.len() {
        item_shape(a, q, list[k] as int, kids, fuel) && item_list_shape(
            a,
            kids,
            list,
            k + 1,
            q + 1 + item_walk(kids, list[k] as int, fuel)->0.len(),
            fuel,
        )
    } else {
        true
    }
}

/// The shape held at `p` depends only on the children of the nodes of the
/// subtree's positions.
proof fn lemma_item_shape_frame(a: TreeArena, b: TreeArena, p: int, idx: int, kids: Seq<Seq<usize>>, fuel: nat)
    requires
        item_shape(a, p, idx, kids, fuel),
        item_walk(kids, idx, fuel) is Some,
        forall|i: int|
            p <= i <= p + item_walk(kids, idx, fuel)->0.len() ==> (#[trigger] b.nodes@[i]).children@
                == a.nodes@[i].children@,
    ensures
        item_shape(b, p, idx, kids, fuel),
    decreases fuel, 0nat, 0nat,
{
    assert(b.nodes@[p].children@ == a.nodes@[p].children@);
    assert(child_ids(b, p) == child_ids(a, p));
    lemma_item_list_shape_frame(a, b, kids, kids[idx], 0, p + 1, (fuel - 1) as nat);
}

/// The list form of `lemma_item_shape_frame`.
proof fn lemma_item_list_shape_frame(
    a: TreeArena,
    b: TreeArena,
    kids: Seq<Seq<usize>>,
    list: Seq<usize>,
    k: int,
    q: int,
    fuel: nat,
)
    requires
        item_list_shape(a, kids, list, k, q, fuel),
        item_list_walk(kids, list, k, fuel) is Some,
        forall|i: int|
            q <= i < q + item_list_walk(kids, list, k, fuel)->0.len() ==> (#[trigger] b.nodes@[i]).children@
                == a.nodes@[i].children@,
    ensures
        item_list_shape(b, kids, list, k, q, fuel),
    decreases fuel, 1nat, if 0 <= k < list.len() {
        (list.len() - k) as nat
    } else {
        0nat
    },
{
    if 0 <= k < list.len() {
        let below = item_walk(kids, list[k] as int, fuel)->0;
        let rest = item_list_walk(kids, list, k + 1, fuel)->0;
        assert(item_list_walk(kids, list, k, fuel)->0 == seq![list[k] as int] + below + rest);
        lemma_item_shape_frame(a, b, q, list[k] as int, kids, fuel);
        lemma_item_list_shape_frame(a, b, kids, list, k + 1, q + 1 + below.len(), fuel);
    }
}

/// Shapes held at the starts of the children from the `k`-th on make the
/// list shape.
proof fn lemma_item_list_collect(
    a: TreeArena,
    kids: Seq<Seq<usize>>,
    list: Seq<usize>,
    k: int,
    q: int,
    fuel: nat,
    starts: Seq<int>,
)
    requires
        0 <= k <= list.len(),
        starts.len() == list.len(),
        item_starts(kids, list, k, q, fuel) == starts.subrange(k, starts.len() as int),
        forall|m: int| k <= m < list.len() ==> item_shape(a, #[trigger] starts[m], list[m] as int, kids, fuel),
    ensures
        item_list_shape(a, kids, list, k, q, fuel),
    decreases list.len() - k,
{
    if k < list.len() {
        let n = item_walk(kids, list[k] as int, fuel)->0.len();
        assert(item_starts(kids, list, k, q, fuel)[0] == q);
        assert(starts.subrange(k, starts.len() as int)[0] == starts[k]);
        assert(item_shape(a, starts[k], list[k] as int, kids, fuel));
        assert(item_starts(kids, list, k + 1, q + 1 + n, fuel) =~= starts.subrange(k + 1, starts.len() as int)) by {
            assert(item_starts(kids, list, k, q, fuel) == seq![q] + item_starts(kids, list, k + 1, q + 1 + n, fuel));
            assert(item_starts(kids, list, k, q, fuel).drop_first() =~= item_starts(kids, list, k + 1, q + 1 + n, fuel));
            assert(starts.subrange(k, starts.len() as int).drop_first() =~= starts.subrange(k + 1, starts.len() as int));
        }
        lemma_item_list_collect(a, kids, list, k + 1, q + 1 + n, fuel, starts);
    }
}

/// The views of the children lists.
pub open spec fn kid_lists(kids: Seq<Vec<usize>>) -> Seq<Seq<usize>> {
    kids.map_values(|l: Vec<usize>| l@)
}

/// Adds, below the arena node `parent`, the subtree of the item `pidx`: its
/// children in list order, each followed by its own subtree. Fails when the
/// nesting gets deeper than the number of items, that is when the child
/// references form a cycle, or when the tree outgrows the index range.
fn build_subtree(
    arena: &mut TreeArena,
    parent: usize,
    pidx: usize,
    items: &Vec<(usize, ItemFields)>,
    kids: &Vec<Vec<usize>>,
    depth: usize,
) -> (r: Result<(), BinError>)
    requires
        old(arena).wf(),
        parent + 1 == old(arena).len(),
        old(arena).nodes@[parent as int].children@.len() == 0,
        pidx < items@.len(),
        depth <= items@.len(),
        kids@.len() == items@.len(),
        forall|p: int| 0 <= p < kids@.len() ==> all_below(#[trigger] kids@[p]@, items@.len()),
        nodes_from_items(*old(arena), items_view(items@)),
    ensures
        final(arena).wf(),
        final(arena).root == old(arena).root,
        final(arena).len() >= old(arena).len(),
        forall|i: int|
            0 <= i < old(arena).len() ==> same_entry(
                #[trigger] final(arena).nodes@[i],
                old(arena).nodes@[i],
            ),
        nodes_from_items(*final(arena), items_view(items@)),
        r is Err ==> r == Err::<(), BinError>(BinError::MalformedLinks),
        ({
            let w = item_walk(kid_lists(kids@), pidx as int, (items@.len() - depth) as nat);
            &&& r is Ok ==> w is Some && final(arena).len() == old(arena).len() + w->0.len()
            &&& r is Ok ==> forall|m: int|
                0 <= m < w->0.len() ==> #[trigger] node_matches(
                    final(arena).nodes@[old(arena).len() + m],
                    items_view(items@)[w->0[m]].1,
                )
            &&& r is Ok ==> item_shape(
                *final(arena),
                parent as int,
                pidx as int,
                kid_lists(kids@),
                (items@.len() - depth) as nat,
            )
            &&& r is Ok ==> forall|i: int|
                0 <= i < old(arena).len() && i != parent ==> (#[trigger] final(arena).nodes@[i]).children@
                    == old(arena).nodes@[i].children@
            &&& w is None ==> r is Err
            &&& r is Err ==> w is None || old(arena).len() + w->0.len() >= usize::MAX - 1
        }),
    decreases items@.len() - depth,
{
    let ghost kl = kid_lists(kids@);
    let ghost iv = items_view(items@);
    let ghost fuel = (items@.len() - depth) as nat;
    if depth >= items.len() {
        return Err(BinError::MalformedLinks);
    }
    let ghost f = (fuel - 1) as nat;
    let ghost o = *arena;
    let list = &kids[pidx];
    assert(all_below(list@, items@.len()));
    assert(kl[pidx as int] == list@);
    assert(item_walk(kl, pidx as int, fuel) == item_list_walk(kl, list@, 0, f));
    let ghost mut done: Seq<int> = Seq::empty();
    let ghost mut starts: Seq<int> = Seq::empty();
    proof {
        assert(child_ids(*arena, parent as int) =~= starts);
        assert(starts + item_starts(kl, list@, 0, arena.len(), f) =~= item_starts(kl, list@, 0, o.len(), f));
        match item_list_walk(kl, list@, 0, f) {
            Some(rest) => {
                assert(done + rest =~= rest);
            },
            None => {},
        }
    }
    let mut k: usize = 0;
    while k < list.len()
        invariant
            o == *old(arena),
            depth < items.len(),
            k <= list@.len(),
            fuel == items@.len() - depth,
            f == fuel - 1,
            kl == kid_lists(kids@),
            iv == items_view(items@),
            list@ == kids@[pidx as int]@,
            kl[pidx as int] == list@,
            all_below(list@, items@.len()),
            kids@.len() == items@.len(),
            forall|p: int| 0 <= p < kids@.len() ==> all_below(#[trigger] kids@[p]@, items@.len()),
            arena.wf(),
            parent + 1 == o.len(),
            arena.root == o.root,
            arena.len() >= o.len(),
            forall|i: int| 0 <= i < o.len() ==> same_entry(#[trigger] arena.nodes@[i], o.nodes@[i]),
            nodes_from_items(*arena, items_view(items@)),
            item_walk(kl, pidx as int, fuel) == item_list_walk(kl, list@, 0, f),
            item_list_walk(kl, list@, 0, f) == match item_list_walk(kl, list@, k as int, f) {
                Some(rest) => Some(done + rest),
                None => None::<Seq<int>>,
            },
            arena.len() == o.len() + done.len(),
            forall|m: int|
                0 <= m < done.len() ==> #[trigger] node_matches(arena.nodes@[o.len() + m], iv[done[m]].1),
            forall|i: int|
                0 <= i < o.len() && i != parent ==> (#[trigger] arena.nodes@[i]).children@
                    == o.nodes@[i].children@,
            child_ids(*arena, parent as int) == starts,
            starts.len() == k,
            starts + item_starts(kl, list@, k as int, arena.len(), f) == item_starts(kl, list@, 0, o.len(), f),
            forall|m: int|
                0 <= m < k ==> parent < #[trigger] starts[m] && item_walk(kl, list@[m] as int, f) is Some
                    && starts[m] + 1 + item_walk(kl, list@[m] as int, f)->0.len() <= arena.len()
                    && item_shape(*arena, starts[m], list@[m] as int, kl, f),
        decreases list@.len() - k,
    {
        let child_idx = list[k];
        assert(child_idx < items@.len());
        proof {
            assert(item_list_walk(kl, list@, k as int, f) == match item_walk(kl, child_idx as int, f) {
                Some(below) => match item_list_walk(kl, list@, k + 1, f) {
                    Some(rest) => Some(seq![child_idx as int] + below + rest),
                    None => None,
                },
                None => None::<Seq<int>>,
            });
        }
        if arena.nodes.len() >= usize::MAX - 1 {
            return Err(BinError::MalformedLinks);
        }
        let node = node_of_item(&items[child_idx].1);
        let ghost before = *arena;
        let child_id = arena.add_child(NodeId(parent), node);
        proof {
            assert(iv[child_idx as int].1 == items@[child_idx as int].1@);
            assert forall|i: int| 0 <= i < before.len() implies same_entry(
                #[trigger] arena.nodes@[i],
                before.nodes@[i],
            ) by {
                if i != parent as int {
                    assert(arena.nodes@[i] == before.nodes@[i]);
                }
            }
            lemma_nodes_from_items_push(before, *arena, iv, child_idx as int);
            assert forall|i: int| 0 <= i < o.len() implies same_entry(
                #[trigger] arena.nodes@[i],
                o.nodes@[i],
            ) by {
                assert(same_entry(before.nodes@[i], o.nodes@[i]));
                assert(same_entry(arena.nodes@[i], before.nodes@[i]));
            }
        }
        let ghost mid = *arena;
        let res = build_subtree(arena, child_id.0, child_idx, items, kids, depth + 1);
        proof {
            assert forall|i: int| 0 <= i < o.len() implies same_entry(
                #[trigger] arena.nodes@[i],
                o.nodes@[i],
            ) by {
                assert(same_entry(mid.nodes@[i], o.nodes@[i]));
                assert(same_entry(arena.nodes@[i], mid.nodes@[i]));
            }
            assert((items@.len() - (depth + 1)) as nat == f);
        }
        if res.is_err() {
            proof {
                match item_list_walk(kl, list@, k as int, f) {
                    Some(rest) => {
                        let below = item_walk(kl, child_idx as int, f)->0;
                        assert(rest.len() >= 1 + below.len());
                    },
                    None => {},
                }
            }
            return res;
        }
        proof {
            let below = item_walk(kl, child_idx as int, f)->0;
            let b = before.len() as int;
            assert(arena.len() == b + 1 + below.len());
            assert forall|m: int| 0 <= m < done.len() + 1 + below.len() implies #[trigger] node_matches(
                arena.nodes@[o.len() + m],
                iv[(done + seq![child_idx as int] + below)[m]].1,
            ) by {
                let ds = done + seq![child_idx as int] + below;
                if m < done.len() {
                    assert(ds[m] == done[m]);
                    assert(node_matches(before.nodes@[o.len() + m], iv[done[m]].1));
                    assert(same_entry(arena.nodes@[o.len() + m], mid.nodes@[o.len() + m]));
                    assert(same_entry(mid.nodes@[o.len() + m], before.nodes@[o.len() + m]));
                } else if m == done.len() {
                    assert(ds[m] == child_idx as int);
                    assert(o.len() + m == b);
                    assert(node_matches(mid.nodes@[b], iv[child_idx as int].1));
                    assert(same_entry(arena.nodes@[b], mid.nodes@[b]));
                } else {
                    let m2 = m - done.len() - 1;
                    assert(ds[m] == below[m2]);
                    assert(o.len() + m == mid.len() + m2);
                    assert(node_matches(arena.nodes@[mid.len() + m2], iv[below[m2]].1));
                }
            }
            assert forall|i: int| 0 <= i < o.len() && i != parent implies (#[trigger] arena.nodes@[i]).children@
                == o.nodes@[i].children@ by {
                assert(mid.nodes@[i] == before.nodes@[i]);
            }
            assert(arena.nodes@[parent as int].children@ == mid.nodes@[parent as int].children@);
            let cb = before.nodes@[parent as int].children@;
            let ca = arena.nodes@[parent as int].children@;
            assert(ca == cb.push(NodeId(b as usize)));
            assert(child_ids(before, parent as int).len() == cb.len());
            assert forall|i: int| 0 <= i < ca.len() implies #[trigger] child_ids(*arena, parent as int)[i]
                == starts.push(b)[i] by {
                if i < cb.len() {
                    assert(ca[i] == cb[i]);
                    assert(child_ids(before, parent as int)[i] == cb[i].0 as int);
                } else {
                    assert(ca[i] == NodeId(b as usize));
                }
            }
            assert(child_ids(*arena, parent as int) =~= starts.push(b));
            assert(item_starts(kl, list@, k as int, b, f) == seq![b] + item_starts(
                kl,
                list@,
                k + 1,
                b + 1 + below.len(),
                f,
            ));
            assert(starts.push(b) + item_starts(kl, list@, k + 1, arena.len(), f) =~= starts + item_starts(
                kl,
                list@,
                k as int,
                b,
                f,
            ));
            assert forall|m: int| 0 <= m < k + 1 implies parent < #[trigger] starts.push(b)[m] && item_walk(
                kl,
                list@[m] as int,
                f,
            ) is Some && starts.push(b)[m] + 1 + item_walk(kl, list@[m] as int, f)->0.len() <= arena.len()
                && item_shape(*arena, starts.push(b)[m], list@[m] as int, kl, f) by {
                if m < k {
                    assert(starts.push(b)[m] == starts[m]);
                    assert forall|i: int|
                        starts[m] <= i <= starts[m] + item_walk(kl, list@[m] as int, f)->0.len() implies (
                        #[trigger] arena.nodes@[i]).children@ == before.nodes@[i].children@ by {
                        assert(mid.nodes@[i] == before.nodes@[i]);
                    }
                    lemma_item_shape_frame(before, *arena, starts[m], list@[m] as int, kl, f);
                }
            }
            match item_list_walk(kl, list@, k + 1, f) {
                Some(rest) => {
                    assert(done + (seq![child_idx as int] + below + rest) =~= done + seq![child_idx as int] + below
                        + rest);
                },
                None => {},
            }
            done = done + seq![child_idx as int] + below;
            starts = starts.push(b);
        }
        k = k + 1;
    }
    proof {
        assert(item_list_walk(kl, list@, k as int, f) == Some(Seq::<int>::empty()));
        assert(done + Seq::<int>::empty() =~= done);
        assert(item_starts(kl, list@, k as int, arena.len(), f) =~= Seq::<int>::empty());
        assert(starts + Seq::<int>::empty() =~= starts);
        assert(starts.subrange(0, starts.len() as int) =~= starts);
        lemma_item_list_collect(*arena, kl, list@, 0, o.len() as int, f, starts);
        assert(item_shape(*arena, parent as int, pidx as int, kl, fuel));
    }
    Ok(())
}

/// `kids` lists, for each item, its children in ascending order of index,
/// every sibling chain ending.
pub open spec fn kids_of(iv: Seq<(nat, ItemFieldsV)>, root_block: u32, kids: Seq<Seq<usize>>) -> bool {
    &&& kids.len() == iv.len()
    &&& forall|p: int|
        0 <= p < iv.len() ==> #[trigger] child_set(iv, p, root_block) is Some && lists_set(
            kids[p],
            child_set(iv, p, root_block)->0,
        )
}

/// `a` is the tree built for the item `root` from the children lists
/// `kids`, with `fuel` levels: the root carries the root item, the nodes
/// after it the items below it in the order they are added, each linked
/// below the node of its parent item.
pub open spec fn built_from(
    a: TreeArena,
    iv: Seq<(nat, ItemFieldsV)>,
    kids: Seq<Seq<usize>>,
    root: int,
    fuel: nat,
) -> bool {
    &&& item_walk(kids, root, fuel) is Some
    &&& a.len() == 1 + item_walk(kids, root, fuel)->0.len()
    &&& node_matches(a.nodes@[0], iv[root].1)
    &&& forall|m: int|
        0 <= m < item_walk(kids, root, fuel)->0.len() ==> #[trigger] node_matches(
            a.nodes@[1 + m],
            iv[item_walk(kids, root, fuel)->0[m]].1,
        )
    &&& item_shape(a, 0, root, kids, fuel)
}

/// Two ascending lists of the same indices are the same list.
proof fn lemma_lists_set_unique(a: Seq<usize>, b: Seq<usize>, set: Set<usize>)
    requires
        lists_set(a, set),
        lists_set(b, set),
    ensures
        a == b,
    decreases a.len(),
{
    if a.len() == 0 {
        if b.len() > 0 {
            assert(b.contains(b[0]));
            assert(a.contains(b[0]));
        }
        assert(a =~= b);
    } else {
        assert(a.contains(a[0]));
        assert(b.contains(a[0]));
        assert(b.len() > 0);
        assert(b.contains(b[0]));
        assert(a.contains(b[0]));
        let i = choose|i: int| 0 <= i < a.len() && a[i] == b[0];
        let j = choose|j: int| 0 <= j < b.len() && b[j] == a[0];
        assert(a[0] <= a[i]);
        assert(b[0] <= b[j]);
        assert(a[0] == b[0]);
        let x = a[0];
        let s2 = set.remove(x);
        let a2 = a.drop_first();
        let b2 = b.drop_first();
        assert forall|y: usize| #[trigger] a2.contains(y) <==> s2.contains(y) by {
            if a2.contains(y) {
                let k = choose|k: int| 0 <= k < a2.len() && a2[k] == y;
                assert(a[k + 1] == y);
                assert(a.contains(y));
            }
            if s2.contains(y) {
                assert(a.contains(y));
                let k = choose|k: int| 0 <= k < a.len() && a[k] == y;
                assert(k != 0);
                assert(a2[k - 1] == y);
            }
        }
        assert forall|y: usize| #[trigger] b2.contains(y) <==> s2.contains(y) by {
            if b2.contains(y) {
                let k = choose|k: int| 0 <= k < b2.len() && b2[k] == y;
                assert(b[k + 1] == y);
                assert(b.contains(y));
            }
            if s2.contains(y) {
                assert(b.contains(y));
                let k = choose|k: int| 0 <= k < b.len() && b[k] == y;
                assert(k != 0);
                assert(b2[k - 1] == y);
            }
        }
        assert(ascending(a2));
        assert(ascending(b2));
        lemma_lists_set_unique(a2, b2, s2);
        assert(a =~= seq![x] + a2);
        assert(b =~= seq![x] + b2);
    }
}

/// The children lists of the items are determined by the items.
proof fn lemma_kids_of_unique(iv: Seq<(nat, ItemFieldsV)>, root_block: u32, k1: Seq<Seq<usize>>, k2: Seq<Seq<usize>>)
    requires
        kids_of(iv, root_block, k1),
        kids_of(iv, root_block, k2),
    ensures
        k1 == k2,
{
    assert forall|p: int| 0 <= p < k1.len() implies k1[p] == k2[p] by {
        assert(child_set(iv, p, root_block) is Some);
        lemma_lists_set_unique(k1[p], k2[p], child_set(iv, p, root_block)->0);
    }
    assert(k1 =~= k2);
}

/// Builds the tree that decoded items describe: the root is the item at
/// `root_offset`; each item's children are found through its child
/// reference (into block `root_block`) and the sibling references around the
/// referenced item; the statistics are then recomputed.
pub fn build_tree(items: &Vec<(usize, ItemFields)>, root_block: u32, root_offset: usize) -> (r:
    Result<TreeArena, BinError>)
    ensures
        items@.len() == 0 ==> r == Err::<TreeArena, BinError>(BinError::NoItems),
        items@.len() > 0 && last_at(items_view(items@), root_offset as nat) < 0 ==> r == Err::<
            TreeArena,
            BinError,
        >(BinError::RootMissing),
        r matches Ok(a) ==> {
            &&& a.wf()
            &&& a.stats_exact()
            &&& last_at(items_view(items@), root_offset as nat) >= 0
            &&& node_matches(
                a.nodes@[0],
                items_view(items@)[last_at(items_view(items@), root_offset as nat)].1,
            )
            &&& nodes_from_items(a, items_view(items@))
            &&& exists|kids: Seq<Seq<usize>>|
                #[trigger] kids_of(items_view(items@), root_block, kids) && built_from(
                    a,
                    items_view(items@),
                    kids,
                    last_at(items_view(items@), root_offset as nat),
                    items@.len() as nat,
                )
        },
        r == Err::<TreeArena, BinError>(BinError::MalformedLinks) ==> forall|kids: Seq<Seq<usize>>|
            #[trigger] kids_of(items_view(items@), root_block, kids) ==> (item_walk(
                kids,
                last_at(items_view(items@), root_offset as nat),
                items@.len() as nat,
            ) matches Some(s) ==> 1 + s.len() >= usize::MAX - 1),
        r == Err::<TreeArena, BinError>(BinError::StatsOverflow) ==> exists|a: TreeArena, kids: Seq<Seq<usize>>|
            #[trigger] kids_of(items_view(items@), root_block, kids) && a.wf() && #[trigger] built_from(
                a,
                items_view(items@),
                kids,
                last_at(items_view(items@), root_offset as nat),
                items@.len() as nat,
            ) && !a.stats_fit(),
        r matches Err(e) ==> e == BinError::NoItems || e == BinError::RootMissing || e
            == BinError::MalformedLinks || e == BinError::StatsOverflow,
{
    if items.len() == 0 {
        return Err(BinError::NoItems);
    }
    let ghost iv = items_view(items@);
    let ids = index_offsets(items);
    let root_idx = match ids.get(&root_offset) {
        None => {
            return Err(BinError::RootMissing);
        },
        Some(i) => *i,
    };
    proof {
        lemma_last_at(iv, root_offset as nat);
    }
    let (prev, next) = sibling_links(items, &ids);
    proof {
        assert(prev@ =~= prev_links(iv));
        assert(next@ =~= next_links(iv));
    }
    let kids = match child_lists(items, &ids, &prev, &next, root_block) {
        Ok(k) => k,
        Err(e) => {
            proof {
                assert forall|kl: Seq<Seq<usize>>| #[trigger] kids_of(iv, root_block, kl) implies false by {
                    let p = choose|p: int| 0 <= p < items@.len() && !(#[trigger] child_set(iv, p, root_block) is Some);
                }
            }
            return Err(e);
        },
    };
    let ghost kl = kid_lists(kids@);
    proof {
        assert forall|p: int| 0 <= p < iv.len() implies #[trigger] child_set(iv, p, root_block) is Some && lists_set(
            kl[p],
            child_set(iv, p, root_block)->0,
        ) by {
            assert(kl[p] == kids@[p]@);
        }
        assert(kids_of(iv, root_block, kl));
    }
    let root_node = node_of_item(&items[root_idx].1);
    let mut arena = TreeArena::new(root_node);
    proof {
        assert(iv[root_idx as int].1 == items@[root_idx as int].1@);
        assert(node_matches(arena.nodes@[0], iv[root_idx as int].1));
        assert(nodes_from_items(arena, iv)) by {
            assert forall|i: int| 0 <= i < arena.len() implies carries_item(#[trigger] arena.nodes@[i], iv) by {
                assert(i == 0);
                assert(node_matches(arena.nodes@[i], iv[root_idx as int].1));
            }
        }
    }
    let ghost start = arena;
    let res = build_subtree(&mut arena, 0, root_idx, items, &kids, 0);
    if res.is_err() {
        proof {
            assert forall|k2: Seq<Seq<usize>>| #[trigger] kids_of(iv, root_block, k2) implies (item_walk(
                k2,
                root_idx as int,
                items@.len() as nat,
            ) matches Some(s) ==> 1 + s.len() >= usize::MAX - 1) by {
                lemma_kids_of_unique(iv, root_block, kl, k2);
            }
        }
        return Err(BinError::MalformedLinks);
    }
    let ghost built = arena;
    proof {
        let n = items@.len() as nat;
        let w = item_walk(kl, root_idx as int, n)->0;
        assert(same_entry(built.nodes@[0], start.nodes@[0]));
        assert(node_matches(built.nodes@[0], iv[root_idx as int].1));
        assert forall|m: int| 0 <= m < w.len() implies #[trigger] node_matches(
            built.nodes@[1 + m],
            iv[w[m]].1,
        ) by {
            assert(node_matches(built.nodes@[start.len() + m], iv[w[m]].1));
        }
        assert(built_from(built, iv, kl, root_idx as int, n));
    }
    match recalculate_stats(&mut arena) {
        Err(_) => {
            assert(kids_of(iv, root_block, kl) && built.wf() && built_from(
                built,
                iv,
                kl,
                root_idx as int,
                items@.len() as nat,
            ) && !built.stats_fit());
            return Err(BinError::StatsOverflow);
        },
        Ok(()) => {},
    }
    proof {
        assert(same_entry(arena.nodes@[0], built.nodes@[0]));
        assert forall|i: int| 0 <= i < built.len() implies same_entry(
            #[trigger] arena.nodes@[i],
            built.nodes@[i],
        ) by {
            assert(arena.nodes@[i].same_but_stats(built.nodes@[i]));
        }
        lemma_nodes_from_items_frame(built, arena, iv);
        let n = items@.len() as nat;
        let w = item_walk(kl, root_idx as int, n)->0;
        assert(node_matches(arena.nodes@[0], iv[root_idx as int].1));
        assert forall|m: int| 0 <= m < w.len() implies #[trigger] node_matches(
            arena.nodes@[1 + m],
            iv[w[m]].1,
        ) by {
            assert(node_matches(built.nodes@[start.len() + m], iv[w[m]].1));
            assert(same_entry(arena.nodes@[1 + m], built.nodes@[1 + m]));
        }
        assert forall|i: int| 0 <= i <= 0 + w.len() implies (#[trigger] arena.nodes@[i]).children@
            == built.nodes@[i].children@ by {
            assert(arena.nodes@[i].same_but_stats(built.nodes@[i]));
        }
        lemma_item_shape_frame(built, arena, 0, root_idx as int, kl, n);
        assert(built_from(arena, iv, kl, root_idx as int, n));
    }
    Ok(arena)
}

} // verus!
