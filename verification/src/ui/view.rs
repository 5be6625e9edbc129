use vstd::prelude::*;
use vstd::string::StrSliceExecFns;

use crate::tree::arena::TreeArena;
use crate::tree::node::{EntryFlags, NodeId, TreeNode};
use crate::ui::order::{flip_order, natural_order, natural_sign, Order};
use crate::ui::state::{has_prefix, has_suffix, AppState};
use crate::ui::text::{
    contains_chars, has_infix, lowercase, str_lowercase, text_chars,
};
use std::cmp::Ordering;

verus! {

/// `p` ends `s`.
pub open spec fn ends_with(s: Seq<char>, p: Seq<char>) -> bool {
    p.len() <= s.len() && s.subrange(s.len() - p.len(), s.len() as int) == p
}

/// The column of a sort key: the key without its `-desc` or `-asc` suffix.
pub open spec fn sort_column(sort: Seq<char>) -> Seq<char> {
    if ends_with(sort, "-desc"@) {
        sort.subrange(0, sort.len() - 5)
    } else if ends_with(sort, "-asc"@) {
        sort.subrange(0, sort.len() - 4)
    } else {
        sort
    }
}

/// Lexicographic order of two names by their characters (the order of
/// their UTF-8 bytes).
pub open spec fn lex_order(a: Seq<char>, b: Seq<char>) -> Order
    decreases a.len(),
{
    if a.len() == 0 {
        if b.len() == 0 {
            Order::Equal
        } else {
            Order::Less
        }
    } else if b.len() == 0 {
        Order::Greater
    } else if (a[0] as int) < (b[0] as int) {
        Order::Less
    } else if a[0] == b[0] {
        lex_order(a.drop_first(), b.drop_first())
    } else {
        Order::Greater
    }
}

pub open spec fn int_order(a: int, b: int) -> Order {
    if a < b {
        Order::Less
    } else if a == b {
        Order::Equal
    } else {
        Order::Greater
    }
}


/// The apparent size an entry is sorted by: a directory's total.
pub open spec fn asize_key(n: TreeNode) -> int {
    if n.spec_is_dir() {
        n.stats.total_asize as int
    } else {
        n.asize as int
    }
}

/// The disk usage an entry is sorted by: a directory's total.
pub open spec fn dsize_key(n: TreeNode) -> int {
    if n.spec_is_dir() {
        n.stats.total_dsize as int
    } else {
        n.dsize as int
    }
}

pub open spec fn mtime_key(n: TreeNode) -> int {
    match n.extended {
        Some(e) => e.mtime as int,
        None => 0,
    }
}

/// How two entries are listed: directories first when grouping; then by
/// the sort column (name, natural or plain; apparent size; item count;
/// modification time; disk usage otherwise), reversed for a `-desc` key.
pub open spec fn entry_order(a: TreeNode, b: TreeNode, sort: Seq<char>, natsort_off: bool, group: bool) -> Order {
    if group && a.spec_is_dir() && !b.spec_is_dir() {
        Order::Less
    } else if group && !a.spec_is_dir() && b.spec_is_dir() {
        Order::Greater
    } else {
        let col = sort_column(sort);
        let ord = if col == "name"@ {
            if !natsort_off {
                natural_sign(a.name@, b.name@)
            } else {
                lex_order(a.name@, b.name@)
            }
        } else if col == "apparent-size"@ {
            int_order(asize_key(a), asize_key(b))
        } else if col == "itemcount"@ {
            int_order(a.stats.item_count as int, b.stats.item_count as int)
        } else if col == "mtime"@ {
            int_order(mtime_key(a), mtime_key(b))
        } else {
            int_order(dsize_key(a), dsize_key(b))
        };
        if ends_with(sort, "-desc"@) {
            flip_order(ord)
        } else {
            ord
        }
    }
}

/// Swapping two names reverses their lexicographic order.
proof fn lemma_lex_flip(a: Seq<char>, b: Seq<char>)
    ensures
        lex_order(b, a) == flip_order(lex_order(a, b)),
    decreases a.len(),
{
    if a.len() > 0 && b.len() > 0 && a[0] == b[0] {
        lemma_lex_flip(a.drop_first(), b.drop_first());
    }
}

/// Whether two texts are the same.
fn text_eq(a: &str, b: &str) -> (r: bool)
    ensures
        r == (a@ == b@),
{
    if a.unicode_len() != b.unicode_len() {
        return false;
    }
    let r = has_prefix(a, b);
    proof {
        if r {
            assert(a@.subrange(0, b@.len() as int) =~= a@);
        } else if a@ == b@ {
            assert(a@.subrange(0, b@.len() as int) =~= b@);
        }
    }
    r
}

/// Lexicographic order of two names.
fn lex_compare(a: &str, b: &str) -> (r: Order)
    ensures
        r == lex_order(a@, b@),
{
    let x = text_chars(a);
    let y = text_chars(b);
    let mut i: usize = 0;
    assert(x@.subrange(0, x@.len() as int) =~= x@);
    assert(y@.subrange(0, y@.len() as int) =~= y@);
    while i < x.len() && i < y.len() && x[i] == y[i]
        invariant
            i <= x@.len(),
            i <= y@.len(),
            lex_order(x@, y@) == lex_order(x@.subrange(i as int, x@.len() as int), y@.subrange(
                i as int,
                y@.len() as int,
            )),
        decreases x@.len() - i,
    {
        proof {
            let xs = x@.subrange(i as int, x@.len() as int);
            let ys = y@.subrange(i as int, y@.len() as int);
            assert(xs.drop_first() =~= x@.subrange(i + 1, x@.len() as int));
            assert(ys.drop_first() =~= y@.subrange(i + 1, y@.len() as int));
        }
        i = i + 1;
    }
    let ghost xs = x@.subrange(i as int, x@.len() as int);
    let ghost ys = y@.subrange(i as int, y@.len() as int);
    assert(xs.len() == x@.len() - i && ys.len() == y@.len() - i);
    if i == x.len() {
        if i == y.len() {
            Order::Equal
        } else {
            Order::Less
        }
    } else if i == y.len() {
        Order::Greater
    } else {
        assert(xs[0] == x@[i as int] && ys[0] == y@[i as int]);
        assert(x@[i as int] != y@[i as int]);
        if x[i] < y[i] {
            Order::Less
        } else {
            Order::Greater
        }
    }
}

fn int_compare(a: i64, b: i64) -> (r: Order)
    ensures
        r == int_order(a as int, b as int),
{
    if a < b {
        Order::Less
    } else if a == b {
        Order::Equal
    } else {
        Order::Greater
    }
}

/// How two entries of the tree are listed, by the state's sort key.
pub fn order_entries(state: &AppState, x: NodeId, y: NodeId) -> (r: Order)
    requires
        x.0 < state.arena.len(),
        y.0 < state.arena.len(),
    ensures
        r == entry_order(
            state.arena.nodes@[x.0 as int],
            state.arena.nodes@[y.0 as int],
            state.args.sort@,
            state.args.disable_natsort,
            state.group_dirs_first,
        ),
        flip_order(r) == entry_order(
            state.arena.nodes@[y.0 as int],
            state.arena.nodes@[x.0 as int],
            state.args.sort@,
            state.args.disable_natsort,
            state.group_dirs_first,
        ),
{
    let a = state.arena.get(x);
    let b = state.arena.get(y);
    proof {
        lemma_lex_flip(a.name@, b.name@);
    }
    if state.group_dirs_first {
        if a.is_dir() && !b.is_dir() {
            return Order::Less;
        }
        if !a.is_dir() && b.is_dir() {
            return Order::Greater;
        }
    }
    proof {
        reveal_strlit("-desc");
        reveal_strlit("-asc");
    }
    let sort = state.args.sort.as_str();
    let n = sort.unicode_len();
    let desc = has_suffix(sort, "-desc");
    let col = if desc {
        sort.substring_char(0, n - 5)
    } else if has_suffix(sort, "-asc") {
        sort.substring_char(0, n - 4)
    } else {
        sort
    };
    let ord = if text_eq(col, "name") {
        if !state.args.disable_natsort {
            natural_order(a.name.as_str(), b.name.as_str())
        } else {
            lex_compare(a.name.as_str(), b.name.as_str())
        }
    } else if text_eq(col, "apparent-size") {
        let ka = if a.is_dir() {
            a.stats.total_asize
        } else {
            a.asize
        };
        let kb = if b.is_dir() {
            b.stats.total_asize
        } else {
            b.asize
        };
        int_compare(ka, kb)
    } else if text_eq(col, "itemcount") {
        int_compare(a.stats.item_count as i64, b.stats.item_count as i64)
    } else if text_eq(col, "mtime") {
        let ta = match a.extended {
            Some(e) => e.mtime,
            None => 0,
        };
        let tb = match b.extended {
            Some(e) => e.mtime,
            None => 0,
        };
        int_compare(ta, tb)
    } else {
        let ka = if a.is_dir() {
            a.stats.total_dsize
        } else {
            a.dsize
        };
        let kb = if b.is_dir() {
            b.stats.total_dsize
        } else {
            b.dsize
        };
        int_compare(ka, kb)
    };
    if desc {
        match ord {
            Order::Less => Order::Greater,
            Order::Equal => Order::Equal,
            Order::Greater => Order::Less,
        }
    } else {
        ord
    }
}

/// Whether the entry `id` is listed: excluded entries only when hidden
/// entries are shown, and only names that hold the filter, both lowercased.
pub open spec fn shown(a: TreeArena, show_hidden: bool, filter: Option<Seq<char>>, id: int) -> bool {
    &&& (show_hidden || !EntryFlags::has(a.nodes@[id].flags.bits, 8))
    &&& match filter {
        Some(q) => has_infix(str_lowercase(a.nodes@[id].name@), str_lowercase(q)),
        None => true,
    }
}

/// The entries of `s` that are listed, in order.
pub open spec fn shown_of(a: TreeArena, show_hidden: bool, filter: Option<Seq<char>>, s: Seq<NodeId>) -> Seq<NodeId>
    decreases s.len(),
{
    if s.len() == 0 {
        Seq::empty()
    } else {
        let rest = shown_of(a, show_hidden, filter, s.drop_last());
        if shown(a, show_hidden, filter, s.last().0 as int) {
            rest.push(s.last())
        } else {
            rest
        }
    }
}

pub open spec fn opt_view(o: Option<String>) -> Option<Seq<char>> {
    match o {
        Some(s) => Some(s@),
        None => None,
    }
}

/// The entries `s` are in listing order: none is listed after the next one.
pub open spec fn listed_in_order(state: AppState, s: Seq<NodeId>) -> bool {
    forall|i: int| 0 <= i < s.len() - 1 ==> #[trigger] listing_order(state, s[i], s[i + 1]) != Order::Greater
}

/// Merges two runs in listing order into one, taking from the first run on
/// ties.
fn merge_listing(a: Vec<NodeId>, b: Vec<NodeId>, state: &AppState) -> (r: Vec<NodeId>)
    requires
        forall|i: int| 0 <= i < a@.len() ==> (#[trigger] a@[i]).0 < state.arena.len(),
        forall|i: int| 0 <= i < b@.len() ==> (#[trigger] b@[i]).0 < state.arena.len(),
        listed_in_order(*state, a@),
        listed_in_order(*state, b@),
    ensures
        r@.to_multiset() == a@.to_multiset().add(b@.to_multiset()),
        listed_in_order(*state, r@),
        forall|i: int| 0 <= i < r@.len() ==> (#[trigger] r@[i]).0 < state.arena.len(),
{
    broadcast use vstd::seq_lib::group_to_multiset_ensures;
    broadcast use vstd::multiset::group_multiset_axioms;

    let mut out: Vec<NodeId> = Vec::new();
    let mut i: usize = 0;
    let mut j: usize = 0;
    while i < a.len() || j < b.len()
        invariant
            i <= a@.len(),
            j <= b@.len(),
            forall|k: int| 0 <= k < a@.len() ==> (#[trigger] a@[k]).0 < state.arena.len(),
            forall|k: int| 0 <= k < b@.len() ==> (#[trigger] b@[k]).0 < state.arena.len(),
            listed_in_order(*state, a@),
            listed_in_order(*state, b@),
            forall|k: int| 0 <= k < out@.len() ==> (#[trigger] out@[k]).0 < state.arena.len(),
            out@.to_multiset() == a@.subrange(0, i as int).to_multiset().add(b@.subrange(0, j as int).to_multiset()),
            listed_in_order(*state, out@),
            out@.len() > 0 && i < a@.len() ==> listing_order(*state, out@.last(), a@[i as int]) != Order::Greater,
            out@.len() > 0 && j < b@.len() ==> listing_order(*state, out@.last(), b@[j as int]) != Order::Greater,
        decreases a@.len() - i + b@.len() - j,
    {
        let ghost prev = out@;
        let take_a = if i < a.len() && j < b.len() {
            match order_entries(state, a[i], b[j]) {
                Order::Greater => false,
                _ => true,
            }
        } else {
            i < a.len()
        };
        if take_a {
            let e = a[i];
            let ghost ga = a@.subrange(0, i as int).to_multiset();
            let ghost gb = b@.subrange(0, j as int).to_multiset();
            out.push(e);
            proof {
                assert(a@.subrange(0, i + 1) =~= a@.subrange(0, i as int).push(e));
                a@.subrange(0, i as int).to_multiset_ensures();
                prev.to_multiset_ensures();
                assert(a@.subrange(0, i as int).push(e).to_multiset() =~= ga.insert(e));
                assert(a@.subrange(0, i + 1).to_multiset() =~= ga.insert(e));
                assert(out@ =~= prev.push(e));
                assert(prev.push(e).to_multiset() =~= prev.to_multiset().insert(e));
                assert(out@.to_multiset() =~= prev.to_multiset().insert(e));
                assert(out@.to_multiset() =~= ga.insert(e).add(gb));
                if prev.len() > 0 {
                    assert(listing_order(*state, prev[prev.len() - 1], out@[prev.len() as int]) != Order::Greater);
                }
                assert forall|k: int| 0 <= k < out@.len() - 1 implies #[trigger] listing_order(*state, out@[k], out@[k + 1])
                    != Order::Greater by {
                    if k < prev.len() - 1 {
                        assert(out@[k] == prev[k] && out@[k + 1] == prev[k + 1]);
                    }
                }
                if i + 1 < a@.len() {
                    assert(listing_order(*state, a@[i as int], a@[i + 1]) != Order::Greater);
                }
            }
            i = i + 1;
        } else {
            let e = b[j];
            let ghost ga = a@.subrange(0, i as int).to_multiset();
            let ghost gb = b@.subrange(0, j as int).to_multiset();
            out.push(e);
            proof {
                assert(b@.subrange(0, j + 1) =~= b@.subrange(0, j as int).push(e));
                b@.subrange(0, j as int).to_multiset_ensures();
                prev.to_multiset_ensures();
                assert(b@.subrange(0, j as int).push(e).to_multiset() =~= gb.insert(e));
                assert(b@.subrange(0, j + 1).to_multiset() =~= gb.insert(e));
                assert(out@ =~= prev.push(e));
                assert(prev.push(e).to_multiset() =~= prev.to_multiset().insert(e));
                assert(out@.to_multiset() =~= prev.to_multiset().insert(e));
                assert(out@.to_multiset() =~= ga.add(gb.insert(e)));
                if prev.len() > 0 {
                    assert(listing_order(*state, prev[prev.len() - 1], out@[prev.len() as int]) != Order::Greater);
                }
                assert forall|k: int| 0 <= k < out@.len() - 1 implies #[trigger] listing_order(*state, out@[k], out@[k + 1])
                    != Order::Greater by {
                    if k < prev.len() - 1 {
                        assert(out@[k] == prev[k] && out@[k + 1] == prev[k + 1]);
                    }
                }
                if j + 1 < b@.len() {
                    assert(listing_order(*state, b@[j as int], b@[j + 1]) != Order::Greater);
                }
            }
            j = j + 1;
        }
    }
    proof {
        assert(a@.subrange(0, a@.len() as int) =~= a@);
        assert(b@.subrange(0, b@.len() as int) =~= b@);
    }
    out
}

/// The entries of `v` in listing order, equal ones keeping their order.
fn sort_listing(v: Vec<NodeId>, state: &AppState) -> (r: Vec<NodeId>)
    requires
        forall|i: int| 0 <= i < v@.len() ==> (#[trigger] v@[i]).0 < state.arena.len(),
    ensures
        r@.to_multiset() == v@.to_multiset(),
        listed_in_order(*state, r@),
        forall|i: int| 0 <= i < r@.len() ==> (#[trigger] r@[i]).0 < state.arena.len(),
    decreases v@.len(),
{
    if v.len() <= 1 {
        return v;
    }
    let mid = v.len() / 2;
    let mut left: Vec<NodeId> = Vec::new();
    let mut right: Vec<NodeId> = Vec::new();
    let mut k: usize = 0;
    while k < v.len()
        invariant
            k <= v@.len(),
            mid <= v@.len(),
            left@ == v@.subrange(0, if k < mid { k as int } else { mid as int }),
            right@ == v@.subrange(mid as int, if k < mid { mid as int } else { k as int }),
        decreases v@.len() - k,
    {
        if k < mid {
            left.push(v[k]);
            assert(left@ =~= v@.subrange(0, k + 1));
        } else {
            right.push(v[k]);
            assert(right@ =~= v@.subrange(mid as int, k + 1));
        }
        k = k + 1;
    }
    proof {
        assert(v@ =~= left@ + right@);
        vstd::seq_lib::lemma_multiset_commutative(left@, right@);
    }
    let sl = sort_listing(left, state);
    let sr = sort_listing(right, state);
    merge_listing(sl, sr, state)
}

/// How the entries `x` and `y` of the state's tree are listed.
pub open spec fn listing_order(state: AppState, x: NodeId, y: NodeId) -> Order {
    entry_order(
        state.arena.nodes@[x.0 as int],
        state.arena.nodes@[y.0 as int],
        state.args.sort@,
        state.args.disable_natsort,
        state.group_dirs_first,
    )
}

/// How two entries are listed, in std's terms.
pub fn compare_entries(state: &AppState, x: NodeId, y: NodeId) -> (r: Ordering)
    requires
        x.0 < state.arena.len(),
        y.0 < state.arena.len(),
    ensures
        (r == Ordering::Less) == (listing_order(*state, x, y) == Order::Less),
        (r == Ordering::Greater) == (listing_order(*state, x, y) == Order::Greater),
{
    match order_entries(state, x, y) {
        Order::Less => Ordering::Less,
        Order::Equal => Ordering::Equal,
        Order::Greater => Ordering::Greater,
    }
}

/// The children of `dir_id` as listed: those shown, in listing order.
pub fn get_visible_children(state: &AppState, dir_id: NodeId) -> (r: Vec<NodeId>)
    requires
        state.arena.wf(),
        dir_id.0 < state.arena.len(),
    ensures
        r@.to_multiset() == shown_of(
            state.arena,
            state.show_hidden,
            opt_view(state.filter_query),
            state.arena.nodes@[dir_id.0 as int].children@,
        ).to_multiset(),
        forall|i: int| 0 <= i < r@.len() ==> (#[trigger] r@[i]).0 < state.arena.len(),
        listed_in_order(*state, r@),
{
    let dir = state.arena.get(dir_id);
    let ghost filter = opt_view(state.filter_query);
    let lowered: Option<Vec<char>> = match &state.filter_query {
        Some(q) => {
            let l = lowercase(q.as_str());
            Some(text_chars(l.as_str()))
        },
        None => None,
    };
    let mut out: Vec<NodeId> = Vec::new();
    let mut i: usize = 0;
    while i < dir.children.len()
        invariant
            state.arena.wf(),
            dir_id.0 < state.arena.len(),
            *dir == state.arena.nodes@[dir_id.0 as int],
            filter == opt_view(state.filter_query),
            match filter {
                Some(q) => lowered matches Some(l) && l@ == str_lowercase(q),
                None => lowered is None,
            },
            i <= dir.children@.len(),
            out@ == shown_of(state.arena, state.show_hidden, filter, dir.children@.subrange(0, i as int)),
            forall|k: int| 0 <= k < out@.len() ==> (#[trigger] out@[k]).0 < state.arena.len(),
        decreases dir.children@.len() - i,
    {
        let id = dir.children[i];
        assert(state.arena.kid(dir_id.0 as int, i as int) == id.0);
        let child = state.arena.get(id);
        let mut keep = state.show_hidden || !child.flags.contains(EntryFlags::EXCLUDED);
        if keep {
            match &lowered {
                Some(l) => {
                    let name = lowercase(child.name.as_str());
                    let chars = text_chars(name.as_str());
                    keep = contains_chars(&chars, l);
                },
                None => {},
            }
        }
        proof {
            assert(dir.children@.subrange(0, i + 1).drop_last() =~= dir.children@.subrange(0, i as int));
        }
        if keep {
            out.push(id);
        }
        i = i + 1;
    }
    assert(dir.children@.subrange(0, dir.children@.len() as int) =~= dir.children@);
    sort_listing(out, state)
}

} // verus!

verus! {

/// Under the apparent-size column, two entries are listed by the apparent
/// size shown for them, a directory's being its total and a file's its own
/// (largest first for a `-desc` key); directories come first only when
/// grouping sets them apart.
pub proof fn lemma_apparent_size_order(a: TreeNode, b: TreeNode, sort: Seq<char>, natsort_off: bool, group: bool)
    requires
        sort_column(sort) == "apparent-size"@,
        !group || a.spec_is_dir() == b.spec_is_dir(),
    ensures
        ({
            let ka: int = if a.spec_is_dir() { a.stats.total_asize as int } else { a.asize as int };
            let kb: int = if b.spec_is_dir() { b.stats.total_asize as int } else { b.asize as int };
            &&& ka < kb ==> entry_order(a, b, sort, natsort_off, group) == (if ends_with(sort, "-desc"@) {
                Order::Greater
            } else {
                Order::Less
            })
            &&& ka > kb ==> entry_order(a, b, sort, natsort_off, group) == (if ends_with(sort, "-desc"@) {
                Order::Less
            } else {
                Order::Greater
            })
            &&& ka == kb ==> entry_order(a, b, sort, natsort_off, group) == Order::Equal
        }),
{
    reveal_strlit("apparent-size");
    reveal_strlit("name");
    let col = sort_column(sort);
    assert(col.len() != "name"@.len());
    assert(col != "name"@);
    assert(a.spec_is_dir() ==> asize_key(a) == a.stats.total_asize as int);
    assert(!a.spec_is_dir() ==> asize_key(a) == a.asize as int);
    assert(b.spec_is_dir() ==> asize_key(b) == b.stats.total_asize as int);
    assert(!b.spec_is_dir() ==> asize_key(b) == b.asize as int);
}

/// Under the disk-usage column, two entries are listed by the disk usage
/// shown for them, a directory's being its total and a file's its own
/// (largest first for a `-desc` key); directories come first only when
/// grouping sets them apart.
pub proof fn lemma_disk_usage_order(a: TreeNode, b: TreeNode, sort: Seq<char>, natsort_off: bool, group: bool)
    requires
        sort_column(sort) == "disk-usage"@,
        !group || a.spec_is_dir() == b.spec_is_dir(),
    ensures
        ({
            let ka: int = if a.spec_is_dir() { a.stats.total_dsize as int } else { a.dsize as int };
            let kb: int = if b.spec_is_dir() { b.stats.total_dsize as int } else { b.dsize as int };
            &&& ka < kb ==> entry_order(a, b, sort, natsort_off, group) == (if ends_with(sort, "-desc"@) {
                Order::Greater
            } else {
                Order::Less
            })
            &&& ka > kb ==> entry_order(a, b, sort, natsort_off, group) == (if ends_with(sort, "-desc"@) {
                Order::Less
            } else {
                Order::Greater
            })
            &&& ka == kb ==> entry_order(a, b, sort, natsort_off, group) == Order::Equal
        }),
{
    reveal_strlit("disk-usage");
    reveal_strlit("name");
    reveal_strlit("apparent-size");
    reveal_strlit("itemcount");
    reveal_strlit("mtime");
    let col = sort_column(sort);
    assert(col.len() != "name"@.len());
    assert(col.len() != "apparent-size"@.len());
    assert(col.len() != "itemcount"@.len());
    assert(col.len() != "mtime"@.len());
}

/// Under the item-count column, two entries are listed by their item counts
/// (largest first for a `-desc` key); directories come first only when
/// grouping sets them apart.
pub proof fn lemma_itemcount_order(a: TreeNode, b: TreeNode, sort: Seq<char>, natsort_off: bool, group: bool)
    requires
        sort_column(sort) == "itemcount"@,
        !group || a.spec_is_dir() == b.spec_is_dir(),
    ensures
        ({
            let ka: int = a.stats.item_count as int;
            let kb: int = b.stats.item_count as int;
            &&& ka < kb ==> entry_order(a, b, sort, natsort_off, group) == (if ends_with(sort, "-desc"@) {
                Order::Greater
            } else {
                Order::Less
            })
            &&& ka > kb ==> entry_order(a, b, sort, natsort_off, group) == (if ends_with(sort, "-desc"@) {
                Order::Less
            } else {
                Order::Greater
            })
            &&& ka == kb ==> entry_order(a, b, sort, natsort_off, group) == Order::Equal
        }),
{
    reveal_strlit("itemcount");
    reveal_strlit("name");
    reveal_strlit("apparent-size");
    let col = sort_column(sort);
    assert(col.len() != "name"@.len());
    assert(col.len() != "apparent-size"@.len());
}

/// Under the modification-time column, two entries are listed by their
/// modification times, an entry without extended information counting as
/// time 0 (latest first for a `-desc` key); directories come first only
/// when grouping sets them apart.
pub proof fn lemma_mtime_order(a: TreeNode, b: TreeNode, sort: Seq<char>, natsort_off: bool, group: bool)
    requires
        sort_column(sort) == "mtime"@,
        !group || a.spec_is_dir() == b.spec_is_dir(),
    ensures
        ({
            let ka: int = match a.extended { Some(e) => e.mtime as int, None => 0 };
            let kb: int = match b.extended { Some(e) => e.mtime as int, None => 0 };
            &&& ka < kb ==> entry_order(a, b, sort, natsort_off, group) == (if ends_with(sort, "-desc"@) {
                Order::Greater
            } else {
                Order::Less
            })
            &&& ka > kb ==> entry_order(a, b, sort, natsort_off, group) == (if ends_with(sort, "-desc"@) {
                Order::Less
            } else {
                Order::Greater
            })
            &&& ka == kb ==> entry_order(a, b, sort, natsort_off, group) == Order::Equal
        }),
{
    reveal_strlit("mtime");
    reveal_strlit("name");
    reveal_strlit("apparent-size");
    reveal_strlit("itemcount");
    let col = sort_column(sort);
    assert(col.len() != "name"@.len());
    assert(col.len() != "apparent-size"@.len());
    assert(col.len() != "itemcount"@.len());
}

} // verus!
