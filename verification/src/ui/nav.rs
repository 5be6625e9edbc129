use vstd::prelude::*;

use crate::tree::arena::TreeArena;
use crate::tree::node::NodeId;
use crate::cli::Args;
use crate::text::same_text;
use crate::ui::state::{append_char, append_text, get_node_path, path_names, AppState, Dialog, GraphMode, SharedColumnMode};
use crate::tree::stats::get_post_order;
use crate::ui::text::{str_lowercase, lowercase, lower_each, subsequence_from, text_chars, trim_text, lower_chars, str_trimmed, is_subsequence};
use crate::ui::view::{get_visible_children, listed_in_order, listing_order, opt_view, shown_of};

verus! {

/// The browser state is consistent: the tree is well formed, and every node
/// the state refers to lies in it.
pub open spec fn state_ok(s: AppState) -> bool {
    &&& s.arena.wf()
    &&& s.current_dir.0 < s.arena.len()
    &&& forall|i: int| 0 <= i < s.visible_children@.len() ==> (#[trigger] s.visible_children@[i]).0 < s.arena.len()
    &&& forall|i: int| 0 <= i < s.history@.len() ==> (#[trigger] s.history@[i]).0.0 < s.arena.len()
    &&& match s.active_dialog {
        Dialog::Info(id) => id.0 < s.arena.len(),
        Dialog::ConfirmDelete(id) => id.0 < s.arena.len(),
        Dialog::FuzzySearch { results, .. } => forall|i: int|
            0 <= i < results@.len() ==> (#[trigger] results@[i]).0.0 < s.arena.len(),
        _ => true,
    }
}

/// The listed children of the current directory are those `get_visible_children` gives.
pub open spec fn visible_current(s: AppState) -> bool {
    s.visible_children@.to_multiset() == shown_of(
        s.arena,
        s.show_hidden,
        opt_view(s.filter_query),
        s.arena.nodes@[s.current_dir.0 as int].children@,
    ).to_multiset()
}

/// The graph column shown first, from the options hiding the graph and
/// the percentage.
pub open spec fn graph_mode_for(hide_graph: bool, hide_percent: bool) -> GraphMode {
    if hide_graph && hide_percent {
        GraphMode::Neither
    } else if hide_percent {
        GraphMode::Graph
    } else if hide_graph {
        GraphMode::Percent
    } else {
        GraphMode::Both
    }
}

/// The shared column shown first: `off` and `unique` name their modes,
/// anything else shows shared sizes.
pub open spec fn shared_mode_for(s: Seq<char>) -> SharedColumnMode {
    if s == "off"@ {
        SharedColumnMode::Off
    } else if s == "unique"@ {
        SharedColumnMode::Unique
    } else {
        SharedColumnMode::Shared
    }
}

impl AppState {
    /// The browser state a session starts in: at the root of `arena`, the
    /// cursor on the first entry, no dialog, the display options taken from
    /// the command line, and the root's children listed.
    pub fn new(arena: TreeArena, args: Args, custom_actions: Vec<(char, String)>) -> (r: AppState)
        requires
            arena.wf(),
        ensures
            r.arena == arena,
            r.current_dir == arena.root,
            r.selected_idx == 0,
            r.scroll_offset == 0,
            r.history@.len() == 0,
            r.args == args,
            r.apparent_size == args.apparent_size,
            r.si == args.si,
            r.show_itemcount == args.show_itemcount,
            r.show_mtime == args.show_mtime,
            r.show_hidden == !args.hide_hidden,
            r.group_dirs_first == args.group_directories_first,
            r.graph_mode == graph_mode_for(args.hide_graph, args.hide_percent),
            r.shared_column_mode == shared_mode_for(args.shared_column@),
            r.active_dialog is Closed,
            r.show_icons == args.icons,
            !r.refreshing,
            r.custom_actions == custom_actions,
            r.filter_query is None,
            !r.show_preview,
            !r.fs_modified,
            visible_current(r),
            state_ok(r),
    {
        let graph_mode = if args.hide_graph && args.hide_percent {
            GraphMode::Neither
        } else if args.hide_percent {
            GraphMode::Graph
        } else if args.hide_graph {
            GraphMode::Percent
        } else {
            GraphMode::Both
        };
        let shared_column_mode = if same_text(&args.shared_column, "off") {
            SharedColumnMode::Off
        } else if same_text(&args.shared_column, "unique") {
            SharedColumnMode::Unique
        } else {
            SharedColumnMode::Shared
        };
        let mut state = AppState {
            current_dir: arena.root,
            arena,
            selected_idx: 0,
            scroll_offset: 0,
            history: Vec::new(),
            apparent_size: args.apparent_size,
            si: args.si,
            show_itemcount: args.show_itemcount,
            show_mtime: args.show_mtime,
            show_hidden: !args.hide_hidden,
            group_dirs_first: args.group_directories_first,
            graph_mode,
            shared_column_mode,
            active_dialog: Dialog::Closed,
            show_icons: args.icons,
            refreshing: false,
            args,
            visible_children: Vec::new(),
            custom_actions,
            filter_query: None,
            show_preview: false,
            fs_modified: false,
        };
        state.update_visible_children();
        state
    }

    /// Recomputes the listed children of the current directory.
    pub fn update_visible_children(&mut self)
        requires
            old(self).arena.wf(),
            old(self).current_dir.0 < old(self).arena.len(),
        ensures
            *final(self) == (AppState { visible_children: final(self).visible_children, ..*old(self) }),
            visible_current(*final(self)),
            forall|i: int| 0 <= i < final(self).visible_children@.len() ==> (#[trigger] final(self).visible_children@[i]).0 < final(self).arena.len(),
            listed_in_order(*final(self), final(self).visible_children@),
    {
        let ghost before = *self;
        let v = get_visible_children(self, self.current_dir);
        self.visible_children = v;
        proof {
            assert forall|i: int| 0 <= i < v@.len() - 1 implies #[trigger] listing_order(*self, v@[i], v@[i + 1])
                != crate::ui::order::Order::Greater by {
                assert(listing_order(before, v@[i], v@[i + 1]) != crate::ui::order::Order::Greater);
            }
        }
    }
}

/// The position of `id` in `v`, if any.
fn position_of(v: &Vec<NodeId>, id: NodeId) -> (r: Option<usize>)
    ensures
        match r {
            Some(i) => i < v@.len() && v@[i as int] == id && forall|k: int| 0 <= k < i ==> v@[k] != id,
            None => forall|k: int| 0 <= k < v@.len() ==> v@[k] != id,
        },
{
    let mut i: usize = 0;
    while i < v.len()
        invariant
            i <= v@.len(),
            forall|k: int| 0 <= k < i ==> v@[k] != id,
        decreases v@.len() - i,
    {
        if v[i] == id {
            return Some(i);
        }
        i = i + 1;
    }
    None
}

/// The directory a jump to `t` opens: `t` itself when it is a directory,
/// else its parent (the root when it has none).
pub open spec fn jump_dir(a: TreeArena, t: int) -> NodeId {
    if a.nodes@[t].spec_is_dir() {
        NodeId(t as usize)
    } else {
        match a.nodes@[t].parent {
            Some(p) => p,
            None => a.root,
        }
    }
}

/// `n` is `o` with at most the directory, the cursor, the history and the
/// listing changed.
#[verifier::opaque]
pub open spec fn moved_view(o: AppState, n: AppState) -> bool {
    n == (AppState {
        current_dir: n.current_dir,
        selected_idx: n.selected_idx,
        scroll_offset: n.scroll_offset,
        history: n.history,
        visible_children: n.visible_children,
        ..o
    })
}

/// Two such changes in a row are one.
proof fn lemma_moved_view_trans(o: AppState, m: AppState, n: AppState)
    requires
        moved_view(o, m),
        moved_view(m, n),
    ensures
        moved_view(o, n),
{
    reveal(moved_view);
}

/// `n` is `o` after a jump to the node `target`: the directory of the
/// target is open and listed, the cursor on the target when it is a listed
/// file and at the top otherwise; only the directory, the cursor, the
/// history and the listing change.
pub open spec fn jumped(o: AppState, n: AppState, target: NodeId) -> bool {
    &&& moved_view(o, n)
    &&& n.arena == o.arena
    &&& n.active_dialog == o.active_dialog
    &&& n.current_dir == jump_dir(o.arena, target.0 as int)
    &&& visible_current(n)
    &&& n.scroll_offset == 0
    &&& !o.arena.nodes@[target.0 as int].spec_is_dir() && n.visible_children@.contains(target)
        ==> n.visible_children@[n.selected_idx as int] == target
    &&& o.arena.nodes@[target.0 as int].spec_is_dir() || !n.visible_children@.contains(target)
        ==> n.selected_idx == 0
}

/// Opens the directory of the node `target` as if walked down from the
/// root: the history holds each directory passed with the position of the
/// next one in its listing; the cursor rests on `target` when it is a file.
pub fn jump_to_node(state: &mut AppState, target: NodeId)
    requires
        state_ok(*old(state)),
        target.0 < old(state).arena.len(),
    ensures
        state_ok(*final(state)),
        jumped(*old(state), *final(state), target),
{
    let mut path_nodes: Vec<NodeId> = Vec::new();
    let mut curr = target.0;
    loop
        invariant
            state.arena.wf(),
            curr < state.arena.len(),
            forall|k: int| 0 <= k < path_nodes@.len() ==> (#[trigger] path_nodes@[k]).0 < state.arena.len(),
        decreases curr,
    {
        path_nodes.push(NodeId(curr));
        match state.arena.get(NodeId(curr)).parent {
            Some(p) => {
                curr = p.0;
            },
            None => {
                break;
            },
        }
    }
    let root = state.arena.root;
    let target_is_dir = state.arena.get(target).is_dir();
    let target_dir = if target_is_dir {
        target
    } else {
        match state.arena.get(target).parent {
            Some(p) => p,
            None => root,
        }
    };
    let mut hist: Vec<(NodeId, usize)> = Vec::new();
    let mut curr_dir = root;
    let mut k = path_nodes.len();
    while k > 0
        invariant
            state_ok(*state),
            *state == *old(state),
            curr_dir.0 < state.arena.len(),
            target_dir.0 < state.arena.len(),
            k <= path_nodes@.len(),
            forall|j: int| 0 <= j < path_nodes@.len() ==> (#[trigger] path_nodes@[j]).0 < state.arena.len(),
            forall|j: int| 0 <= j < hist@.len() ==> (#[trigger] hist@[j]).0.0 < state.arena.len(),
        decreases k,
    {
        k = k - 1;
        let next = path_nodes[k];
        if next == root {
            continue;
        }
        if next == target_dir && !target_is_dir {
            break;
        }
        if state.arena.get(curr_dir).is_dir() {
            let listing = get_visible_children(state, curr_dir);
            match position_of(&listing, next) {
                Some(idx) => {
                    hist.push((curr_dir, idx));
                },
                None => {},
            }
            curr_dir = next;
        }
    }
    state.history = hist;
    state.current_dir = target_dir;
    state.scroll_offset = 0;
    state.update_visible_children();
    if !target_is_dir {
        match position_of(&state.visible_children, target) {
            Some(idx) => {
                state.selected_idx = idx;
            },
            None => {
                state.selected_idx = 0;
            },
        }
    } else {
        state.selected_idx = 0;
    }
    assert(moved_view(*old(state), *state)) by {
        reveal(moved_view);
    }
}

/// The path `PathBuf::push` builds from components: a component that starts
/// with `/` replaces what is there; otherwise a `/` separates it from a
/// non-empty path that does not end with one.
pub open spec fn joined_path(parts: Seq<Seq<char>>) -> Seq<char>
    decreases parts.len(),
{
    if parts.len() == 0 {
        Seq::empty()
    } else {
        let head = joined_path(parts.drop_last());
        let c = parts.last();
        if c.len() > 0 && c[0] == '/' {
            c
        } else if head.len() == 0 || head.last() == '/' {
            head + c
        } else {
            head.push('/') + c
        }
    }
}

/// Joins path components as `PathBuf::push` does.
pub fn join_path(parts: &Vec<String>) -> (r: String)
    ensures
        r@ == joined_path(parts@.map_values(|s: String| s@)),
{
    let ghost pv = parts@.map_values(|s: String| s@);
    let mut out = String::new();
    let mut i: usize = 0;
    while i < parts.len()
        invariant
            i <= parts@.len(),
            pv == parts@.map_values(|s: String| s@),
            out@ == joined_path(pv.subrange(0, i as int)),
        decreases parts@.len() - i,
    {
        let c = &parts[i];
        let chars = text_chars(c.as_str());
        let out_chars = text_chars(out.as_str());
        proof {
            assert(pv.subrange(0, i + 1).drop_last() =~= pv.subrange(0, i as int));
            assert(pv.subrange(0, i + 1).last() == c@);
        }
        if chars.len() > 0 && chars[0] == '/' {
            out = c.clone();
        } else if out_chars.len() == 0 || out_chars[out_chars.len() - 1] == '/' {
            append_text(&mut out, c.as_str());
        } else {
            append_char(&mut out, '/');
            append_text(&mut out, c.as_str());
        }
        i = i + 1;
    }
    assert(pv.subrange(0, parts@.len() as int) =~= pv);
    out
}

/// Whether the lowercased characters of `query` can be found, in order, in
/// those of `text`.
pub fn fuzzy_match(text: &str, query: &str) -> (r: bool)
    ensures
        r == is_subsequence(lower_chars(query@), lower_chars(text@)),
{
    let t = lower_each(&text_chars(text));
    let q = lower_each(&text_chars(query));
    let n = subsequence_from(&q, 0, &t, 0);
    proof {
        assert(q@.subrange(0, q@.len() as int) =~= q@);
        assert(t@.subrange(0, t@.len() as int) =~= t@);
    }
    n == q.len()
}

/// How far greedy matching of `q` from index `i` gets through `t`: each
/// character of `t` in turn matches the next one of `q` when they are equal.
pub open spec fn greedy_match(q: Seq<char>, i: int, t: Seq<char>) -> int
    decreases t.len(),
{
    if i >= q.len() || t.len() == 0 {
        i
    } else if q[i] == t[0] {
        greedy_match(q, i + 1, t.drop_first())
    } else {
        greedy_match(q, i, t.drop_first())
    }
}

/// The count of query characters matched that a directory hands to its
/// children: a `/` of the query right after them is passed.
pub open spec fn carried(q: Seq<char>, m: int) -> int {
    if 0 <= m < q.len() && q[m] == '/' {
        m + 1
    } else {
        m
    }
}

/// How much of the query the names on the path to `x` match, greedily
/// from the root down, a `/` of the query passing into each directory.
pub open spec fn path_matched(a: TreeArena, q: Seq<char>, x: int) -> int
    decreases x,
{
    greedy_match(
        q,
        match a.nodes@[x].parent {
            Some(p) => if 0 <= p.0 < x {
                carried(q, path_matched(a, q, p.0 as int))
            } else {
                0
            },
            None => 0,
        },
        lower_chars(a.nodes@[x].name@),
    )
}

/// The count of query characters matched before the name of `x`.
pub open spec fn carry_in(a: TreeArena, q: Seq<char>, x: int) -> int {
    match a.nodes@[x].parent {
        Some(p) => if 0 <= p.0 < x {
            carried(q, path_matched(a, q, p.0 as int))
        } else {
            0
        },
        None => 0,
    }
}

/// Node `x` is a hit for the (lowercased) query `q`: its lowercased name
/// holds `q` as a subsequence, or its path matches all of `q`.
pub open spec fn fuzzy_hit(a: TreeArena, q: Seq<char>, x: int) -> bool {
    is_subsequence(q, lower_chars(a.nodes@[x].name@)) || path_matched(a, q, x) == q.len()
}

/// The hits among the nodes `po`, in order.
pub open spec fn fuzzy_hits(a: TreeArena, q: Seq<char>, po: Seq<int>) -> Seq<int>
    decreases po.len(),
{
    if po.len() == 0 {
        Seq::empty()
    } else if fuzzy_hit(a, q, po.last()) {
        fuzzy_hits(a, q, po.drop_last()).push(po.last())
    } else {
        fuzzy_hits(a, q, po.drop_last())
    }
}

/// The hits of a concatenation are those of its parts.
proof fn lemma_hits_concat(a: TreeArena, q: Seq<char>, p: Seq<int>, s: Seq<int>)
    ensures
        fuzzy_hits(a, q, p + s) == fuzzy_hits(a, q, p) + fuzzy_hits(a, q, s),
    decreases s.len(),
{
    if s.len() == 0 {
        assert(p + s =~= p);
        assert(fuzzy_hits(a, q, p) + fuzzy_hits(a, q, s) =~= fuzzy_hits(a, q, p));
    } else {
        assert((p + s).drop_last() =~= p + s.drop_last());
        assert((p + s).last() == s.last());
        lemma_hits_concat(a, q, p, s.drop_last());
        if fuzzy_hit(a, q, s.last()) {
            assert(fuzzy_hits(a, q, p) + fuzzy_hits(a, q, s) =~= (fuzzy_hits(a, q, p) + fuzzy_hits(
                a,
                q,
                s.drop_last(),
            )).push(s.last()));
        }
    }
}

/// The nodes a walk with stack `stack` has still to visit: the walks below
/// the entries from the top of the stack down.
pub open spec fn walk_pending(a: TreeArena, stack: Seq<(NodeId, usize)>) -> Seq<int>
    decreases stack.len(),
{
    if stack.len() == 0 {
        Seq::empty()
    } else {
        a.walk_order(stack.last().0.0 as int) + walk_pending(a, stack.drop_last())
    }
}

/// `r` lists the search results for `query`: for a query that is blank
/// once trimmed, none; else the first fifty nodes (or fewer) of the tree, in
/// depth-first order, whose path the lowercased query matches, each with its
/// path.
pub open spec fn fuzzy_listed(a: TreeArena, query: Seq<char>, r: Seq<(NodeId, String)>) -> bool {
    let q = lower_chars(str_trimmed(query));
    let hits = fuzzy_hits(a, q, a.walk_order(0));
    &&& r.len() == (if q.len() == 0 {
        0
    } else if hits.len() < 50 {
        hits.len()
    } else {
        50
    })
    &&& forall|i: int|
        0 <= i < r.len() ==> (#[trigger] r[i]).0.0 == hits[i] && r[i].1@ == joined_path(
            path_names(a, hits[i]),
        )
}

/// The first hits, at most 50, of the trimmed and lowercased query in a
/// depth-first walk of the tree: nodes whose name holds the query as a
/// subsequence, or whose path does (a `/` in the query passing into a
/// directory), each with its path.
pub fn update_fuzzy_results(arena: &TreeArena, query: &str) -> (r: Vec<(NodeId, String)>)
    requires
        arena.wf(),
    ensures
        fuzzy_listed(*arena, query@, r@),
        forall|i: int| 0 <= i < r@.len() ==> (#[trigger] r@[i]).0.0 < arena.len(),
{
    let trimmed = trim_text(query);
    let qc = lower_each(&text_chars(trimmed.as_str()));
    if qc.len() == 0 {
        return Vec::new();
    }
    let ghost q = qc@;
    let ghost walk = arena.walk_order(0);
    let mut results: Vec<(NodeId, String)> = Vec::new();
    let mut stack: Vec<(NodeId, usize)> = Vec::new();
    stack.push((arena.root, 0));
    let ghost mut done: Seq<int> = Seq::empty();
    proof {
        assert(stack@.drop_last() =~= Seq::<(NodeId, usize)>::empty());
        assert(stack@.last() == (arena.root, 0usize));
        assert(walk_pending(*arena, stack@.drop_last()) =~= Seq::<int>::empty());
        assert(walk_pending(*arena, stack@) == arena.walk_order(0) + walk_pending(*arena, stack@.drop_last()));
        assert(walk_pending(*arena, stack@) =~= walk);
        assert(done + walk_pending(*arena, stack@) =~= walk);
        assert(arena.nodes@[0].parent is None) by {
            if let Some(p) = arena.nodes@[0].parent {
                assert(p.0 < 0);
            }
        }
    }
    while stack.len() > 0
        invariant_except_break
            results@.len() < 50,
            done + walk_pending(*arena, stack@) == walk,
            results@.len() == fuzzy_hits(*arena, q, done).len(),
            forall|i: int|
                0 <= i < results@.len() ==> (#[trigger] results@[i]).0.0 == fuzzy_hits(*arena, q, done)[i],
        invariant
            arena.wf(),
            q == qc@,
            q == lower_chars(str_trimmed(query@)),
            trimmed@ == str_trimmed(query@),
            walk == arena.walk_order(0),
            forall|i: int|
                0 <= i < stack@.len() ==> (#[trigger] stack@[i]).0.0 < arena.len() && stack@[i].1 <= qc@.len()
                    && stack@[i].1 == carry_in(*arena, q, stack@[i].0.0 as int),
            forall|i: int|
                0 <= i < results@.len() ==> (#[trigger] results@[i]).0.0 < arena.len() && results@[i].1@
                    == joined_path(path_names(*arena, results@[i].0.0 as int)),
        ensures
            results@.len() == (if fuzzy_hits(*arena, q, walk).len() < 50 {
                fuzzy_hits(*arena, q, walk).len()
            } else {
                50
            }),
            forall|i: int|
                0 <= i < results@.len() ==> (#[trigger] results@[i]).0.0 == fuzzy_hits(*arena, q, walk)[i],
        decreases walk_pending(*arena, stack@).len(),
    {
        let ghost before = stack@;
        let (node_id, parent_matched) = stack.pop().unwrap();
        let ghost rest = stack@;
        let ghost x = node_id.0 as int;
        proof {
            assert(before.drop_last() =~= rest);
            assert(before.last() == (node_id, parent_matched));
            assert(walk_pending(*arena, before) == arena.walk_order(x) + walk_pending(*arena, rest));
        }
        let node = arena.get(node_id);
        let name = lower_each(&text_chars(node.name.as_str()));
        let matched = subsequence_prefix(&qc, parent_matched, &name);
        let name_matches = fuzzy_match(node.name.as_str(), trimmed.as_str());
        let ghost old_done = done;
        proof {
            assert(matched == path_matched(*arena, q, x));
            done = done.push(x);
            assert(done.drop_last() =~= old_done);
            assert(done.last() == x);
        }
        let ghost tail = if node.spec_is_dir() {
            arena.walk_from(x, 0)
        } else {
            Seq::<int>::empty()
        };
        proof {
            assert(arena.walk_order(x) == seq![x] + tail);
            assert(done + (tail + walk_pending(*arena, rest)) =~= walk);
        }
        if name_matches || matched == qc.len() {
            let path = join_path(&get_node_path(arena, node_id));
            let ghost old_results = results@;
            results.push((node_id, path));
            proof {
                assert(fuzzy_hit(*arena, q, x));
                assert(fuzzy_hits(*arena, q, done) == fuzzy_hits(*arena, q, old_done).push(x));
                assert forall|i: int| 0 <= i < results@.len() implies (#[trigger] results@[i]).0.0
                    == fuzzy_hits(*arena, q, done)[i] by {
                    if i < old_results.len() {
                        assert(results@[i] == old_results[i]);
                    }
                }
            }
            if results.len() >= 50 {
                proof {
                    lemma_hits_concat(*arena, q, done, tail + walk_pending(*arena, rest));
                }
                break;
            }
        } else {
            proof {
                assert(!fuzzy_hit(*arena, q, x));
                assert(fuzzy_hits(*arena, q, done) == fuzzy_hits(*arena, q, old_done));
            }
        }
        if node.is_dir() {
            let child_matched = if matched < qc.len() && qc[matched] == '/' {
                matched + 1
            } else {
                matched
            };
            proof {
                assert(child_matched == carried(q, path_matched(*arena, q, x)));
            }
            let mut c = node.children.len();
            proof {
                assert(arena.walk_from(x, c as int) =~= Seq::<int>::empty());
                assert(walk_pending(*arena, stack@) =~= arena.walk_from(x, c as int) + walk_pending(*arena, rest));
            }
            while c > 0
                invariant
                    arena.wf(),
                    node_id.0 < arena.len(),
                    x == node_id.0 as int,
                    *node == arena.nodes@[x],
                    node.spec_is_dir(),
                    c <= node.children@.len(),
                    child_matched <= qc@.len(),
                    q == qc@,
                    child_matched == carried(q, path_matched(*arena, q, x)),
                    walk_pending(*arena, stack@) == arena.walk_from(x, c as int) + walk_pending(*arena, rest),
                    forall|i: int|
                        0 <= i < stack@.len() ==> (#[trigger] stack@[i]).0.0 < arena.len() && stack@[i].1
                            <= qc@.len() && stack@[i].1 == carry_in(*arena, q, stack@[i].0.0 as int),
                decreases c,
            {
                c = c - 1;
                let kid = node.children[c];
                proof {
                    assert(arena.kid(x, c as int) == kid.0);
                    assert(x < kid.0 < arena.len());
                    assert(arena.nodes@[kid.0 as int].parent == Some(NodeId(x as usize)));
                    assert(carry_in(*arena, q, kid.0 as int) == child_matched);
                }
                let ghost prev = stack@;
                stack.push((kid, child_matched));
                proof {
                    assert(stack@.drop_last() =~= prev);
                    assert(arena.walk_from(x, c as int) == arena.walk_order(kid.0 as int) + arena.walk_from(x, c + 1));
                    assert(walk_pending(*arena, stack@) =~= arena.walk_from(x, c as int) + walk_pending(*arena, rest));
                }
            }
            proof {
                assert(walk_pending(*arena, stack@) == tail + walk_pending(*arena, rest));
            }
        } else {
            proof {
                assert(walk_pending(*arena, stack@) =~= tail + walk_pending(*arena, rest));
            }
        }
        proof {
            assert(done + walk_pending(*arena, stack@) =~= walk);
        }
    }
    proof {
        if stack@.len() == 0 {
            assert(walk_pending(*arena, stack@) =~= Seq::<int>::empty());
        }
    }
    results
}

/// How far the greedy match of `q` from `from` gets through `t`.
fn subsequence_prefix(q: &Vec<char>, from: usize, t: &Vec<char>) -> (r: usize)
    requires
        from <= q@.len(),
    ensures
        r == greedy_match(q@, from as int, t@),
        from <= r <= q@.len(),
{
    let mut i = from;
    let mut j: usize = 0;
    assert(t@.subrange(0, t@.len() as int) =~= t@);
    while i < q.len() && j < t.len()
        invariant
            from <= i <= q@.len(),
            j <= t@.len(),
            greedy_match(q@, from as int, t@) == greedy_match(q@, i as int, t@.subrange(j as int, t@.len() as int)),
        decreases t@.len() - j,
    {
        let ghost sub = t@.subrange(j as int, t@.len() as int);
        proof {
            assert(sub[0] == t@[j as int]);
            assert(sub.drop_first() =~= t@.subrange(j + 1, t@.len() as int));
        }
        if q[i] == t[j] {
            i = i + 1;
        }
        j = j + 1;
    }
    proof {
        let sub = t@.subrange(j as int, t@.len() as int);
        if j == t.len() {
            assert(sub.len() == 0);
        }
    }
    i
}

/// The extension `std::path::Path::extension` finds in a file name.
pub uninterp spec fn path_extension(name: Seq<char>) -> Option<Seq<char>>;

/// Calls `Path::extension` on the name (as text). Claims that the result
/// is `path_extension(name)`, a function of the name alone.
#[verifier::external_body]
fn file_extension(name: &str) -> (r: Option<String>)
    ensures
        match r {
            Some(e) => path_extension(name@) == Some(e@),
            None => path_extension(name@) is None,
        },
{
    std::path::Path::new(name).extension().map(|e| e.to_string_lossy().into_owned())
}

/// `b` is `a` reordered by `p`: its `i`-th element is the `p[i]`-th of `a`,
/// each index of `a` taken once.
pub open spec fn reorders<A>(p: Seq<int>, a: Seq<A>, b: Seq<A>) -> bool {
    &&& p.len() == a.len()
    &&& b.len() == a.len()
    &&& forall|i: int| 0 <= i < p.len() ==> 0 <= #[trigger] p[i] < p.len()
    &&& forall|i: int, j: int| 0 <= i < j < p.len() ==> #[trigger] p[i] != #[trigger] p[j]
    &&& forall|i: int| 0 <= i < p.len() ==> #[trigger] b[i] == a[p[i]]
}

/// Calls `slice::sort_by_key` with the size reversed: the entries are
/// permuted so that the largest sizes come first.
#[verifier::external_body]
fn sort_by_size_desc(v: &mut Vec<(String, u64)>)
    ensures
        final(v)@.len() == old(v)@.len(),
        (exists|p: Seq<int>| #[trigger] reorders(p, old(v)@, final(v)@)),
        forall|i: int, j: int| 0 <= i < j < final(v)@.len() ==> final(v)@[i].1 >= final(v)@[j].1,
{
    v.sort_by_key(|b| std::cmp::Reverse(b.1));
}

/// The key a file is counted under: its extension lowercased, or `no
/// extension`.
pub open spec fn ext_key(name: Seq<char>) -> Seq<char> {
    match path_extension(name) {
        Some(e) => str_lowercase(e),
        None => "no extension"@,
    }
}

/// Node `x` is a file counted under `key`.
pub open spec fn is_file_with(a: TreeArena, x: int, key: Seq<char>) -> bool {
    !a.nodes@[x].spec_is_dir() && ext_key(a.nodes@[x].name@) == key
}

/// The disk usage of the files among the nodes `po` counted under `key`,
/// each taken as unsigned, summed with wrapping.
pub open spec fn ext_sum(a: TreeArena, po: Seq<int>, key: Seq<char>) -> u64
    decreases po.len(),
{
    if po.len() == 0 {
        0
    } else {
        let s = ext_sum(a, po.drop_last(), key);
        if is_file_with(a, po.last(), key) {
            vstd::wrapping::u64_specs::wrapping_add(s, a.nodes@[po.last()].dsize as u64)
        } else {
            s
        }
    }
}

/// Some file among the nodes `po` is counted under `key`.
pub open spec fn ext_found(a: TreeArena, po: Seq<int>, key: Seq<char>) -> bool {
    exists|i: int| 0 <= i < po.len() && #[trigger] is_file_with(a, po[i], key)
}

/// `sizes` holds, each key once, the totals of the keys found among `po`.
pub open spec fn ext_table(a: TreeArena, po: Seq<int>, sizes: Seq<(String, u64)>) -> bool {
    &&& forall|i: int, j: int| 0 <= i < j < sizes.len() ==> (#[trigger] sizes[i]).0@ != (#[trigger] sizes[j]).0@
    &&& forall|i: int|
        0 <= i < sizes.len() ==> ext_found(a, po, (#[trigger] sizes[i]).0@) && sizes[i].1 == ext_sum(
            a,
            po,
            sizes[i].0@,
        )
    &&& forall|key: Seq<char>| #[trigger] ext_found(a, po, key) ==> exists|i: int| 0 <= i < sizes.len() && (#[trigger] sizes[i]).0@ == key
}

/// The disk usage of the files below `dir_id`, summed by lowercased
/// extension (`no extension` for a name without one), largest first.
pub fn calculate_extension_stats(arena: &TreeArena, dir_id: NodeId) -> (r: Vec<(String, u64)>)
    requires
        arena.wf(),
        dir_id.0 < arena.len(),
    ensures
        ext_table(*arena, arena.post_order(dir_id.0 as int), r@),
        forall|i: int, j: int| 0 <= i < j < r@.len() ==> r@[i].1 >= r@[j].1,
{
    let mut order: Vec<NodeId> = Vec::new();
    get_post_order(arena, dir_id, &mut order);
    let ghost po = arena.post_order(dir_id.0 as int);
    let ghost ids = order@.map_values(|n: NodeId| n.0 as int);
    proof {
        assert forall|i: int| 0 <= i < ids.len() implies ids[i] == po[i] by {
            assert(order@[0 + i].0 == po[i]);
        }
        assert(ids =~= po);
        arena.lemma_post_order_desc(dir_id.0 as int);
        assert forall|i: int| 0 <= i < ids.len() implies 0 <= #[trigger] ids[i] < arena.len() by {
            assert(po.contains(po[i]));
        }
    }
    let mut sizes: Vec<(String, u64)> = Vec::new();
    let mut k: usize = 0;
    while k < order.len()
        invariant
            arena.wf(),
            ids == order@.map_values(|n: NodeId| n.0 as int),
            forall|i: int| 0 <= i < ids.len() ==> 0 <= #[trigger] ids[i] < arena.len(),
            k <= order@.len(),
            ext_table(*arena, ids.subrange(0, k as int), sizes@),
        decreases order@.len() - k,
    {
        let ghost pk = ids.subrange(0, k as int);
        let ghost pk1 = ids.subrange(0, k + 1);
        proof {
            assert(pk1.drop_last() =~= pk);
            assert(pk1.last() == ids[k as int]);
            assert(ids[k as int] == order@[k as int].0 as int);
        }
        let node = arena.get(order[k]);
        if node.is_dir() {
            proof {
                assert forall|key: Seq<char>| ext_sum(*arena, pk1, key) == ext_sum(*arena, pk, key)
                    && ext_found(*arena, pk1, key) == ext_found(*arena, pk, key) by {
                    if ext_found(*arena, pk1, key) {
                        let i = choose|i: int| 0 <= i < pk1.len() && #[trigger] is_file_with(*arena, pk1[i], key);
                        assert(i < pk.len() && pk[i] == pk1[i]);
                    }
                    if ext_found(*arena, pk, key) {
                        let i = choose|i: int| 0 <= i < pk.len() && #[trigger] is_file_with(*arena, pk[i], key);
                        assert(pk1[i] == pk[i]);
                    }
                }
            }
        } else {
            let ext = match file_extension(node.name.as_str()) {
                Some(e) => lowercase(e.as_str()),
                None => "no extension".to_owned(),
            };
            let ghost e = ext@;
            proof {
                reveal_strlit("no extension");
                assert(e == ext_key(node.name@));
                assert(is_file_with(*arena, pk1.last(), e));
                assert forall|key: Seq<char>| key != e implies ext_sum(*arena, pk1, key) == ext_sum(
                    *arena,
                    pk,
                    key,
                ) && ext_found(*arena, pk1, key) == ext_found(*arena, pk, key) by {
                    if ext_found(*arena, pk1, key) {
                        let i = choose|i: int| 0 <= i < pk1.len() && #[trigger] is_file_with(*arena, pk1[i], key);
                        assert(i < pk.len() && pk[i] == pk1[i]);
                    }
                    if ext_found(*arena, pk, key) {
                        let i = choose|i: int| 0 <= i < pk.len() && #[trigger] is_file_with(*arena, pk[i], key);
                        assert(pk1[i] == pk[i]);
                    }
                }
                assert(ext_found(*arena, pk1, e)) by {
                    assert(is_file_with(*arena, pk1[k as int], e));
                }
            }
            let add = #[verifier::truncate] (node.dsize as u64);
            let mut j: usize = 0;
            while j < sizes.len() && sizes[j].0 != ext
                invariant
                    j <= sizes@.len(),
                    forall|i: int| 0 <= i < j ==> (#[trigger] sizes@[i]).0@ != e,
                    e == ext@,
                decreases sizes@.len() - j,
            {
                j = j + 1;
            }
            if j < sizes.len() {
                let total = sizes[j].1;
                let ghost before = sizes@;
                let name = sizes[j].0.clone();
                sizes.set(j, (name, total.wrapping_add(add)));
                proof {
                    assert(before[j as int].0@ == e);
                    assert forall|i: int| 0 <= i < sizes@.len() && i != j implies #[trigger] sizes@[i] == before[i] by {}
                    assert(ext_table(*arena, pk1, sizes@)) by {
                        assert forall|key: Seq<char>| #[trigger] ext_found(*arena, pk1, key) implies exists|i: int|
                            0 <= i < sizes@.len() && (#[trigger] sizes@[i]).0@ == key by {
                            if key == e {
                                assert(sizes@[j as int].0@ == key);
                            } else {
                                let i = choose|i: int| 0 <= i < before.len() && (#[trigger] before[i]).0@ == key;
                                assert(sizes@[i].0@ == key);
                            }
                        }
                        assert forall|i: int| 0 <= i < sizes@.len() implies ext_found(*arena, pk1, (#[trigger] sizes@[i]).0@)
                            && sizes@[i].1 == ext_sum(*arena, pk1, sizes@[i].0@) by {
                            if i != j {
                                assert(before[i].0@ != e);
                            }
                        }
                        assert forall|i: int, i2: int| 0 <= i < i2 < sizes@.len() implies (#[trigger] sizes@[i]).0@
                            != (#[trigger] sizes@[i2]).0@ by {
                            assert(before[i].0@ != before[i2].0@);
                        }
                    }
                }
            } else {
                let ghost before = sizes@;
                sizes.push((ext, add));
                proof {
                    assert(!ext_found(*arena, pk, e)) by {
                        if ext_found(*arena, pk, e) {
                            let i = choose|i: int| 0 <= i < before.len() && (#[trigger] before[i]).0@ == e;
                        }
                    }
                    assert(ext_sum(*arena, pk, e) == 0) by {
                        lemma_ext_sum_absent(*arena, pk, e);
                    }
                    assert(ext_table(*arena, pk1, sizes@)) by {
                        assert forall|key: Seq<char>| #[trigger] ext_found(*arena, pk1, key) implies exists|i: int|
                            0 <= i < sizes@.len() && (#[trigger] sizes@[i]).0@ == key by {
                            if key == e {
                                assert(sizes@[before.len() as int].0@ == key);
                            } else {
                                let i = choose|i: int| 0 <= i < before.len() && (#[trigger] before[i]).0@ == key;
                                assert(sizes@[i] == before[i]);
                            }
                        }
                        assert forall|i: int| 0 <= i < sizes@.len() implies ext_found(*arena, pk1, (#[trigger] sizes@[i]).0@)
                            && sizes@[i].1 == ext_sum(*arena, pk1, sizes@[i].0@) by {
                            if i < before.len() {
                                assert(sizes@[i] == before[i]);
                                assert(before[i].0@ != e);
                            }
                        }
                        assert forall|i: int, i2: int| 0 <= i < i2 < sizes@.len() implies (#[trigger] sizes@[i]).0@
                            != (#[trigger] sizes@[i2]).0@ by {
                            if i2 < before.len() {
                                assert(sizes@[i] == before[i] && sizes@[i2] == before[i2]);
                            } else {
                                assert(sizes@[i] == before[i]);
                            }
                        }
                    }
                }
            }
        }
        k = k + 1;
    }
    proof {
        assert(ids.subrange(0, order@.len() as int) =~= po);
    }
    let ghost unsorted = sizes@;
    sort_by_size_desc(&mut sizes);
    proof {
        let p = choose|p: Seq<int>| #[trigger] reorders(p, unsorted, sizes@);
        lemma_permutation_onto(p);
        assert forall|key: Seq<char>| #[trigger] ext_found(*arena, po, key) implies exists|i: int|
            0 <= i < sizes@.len() && (#[trigger] sizes@[i]).0@ == key by {
            let q = choose|q: int| 0 <= q < unsorted.len() && (#[trigger] unsorted[q]).0@ == key;
            assert(hit_below(p, p.len() as int, q));
            let i = choose|i: int| 0 <= i < p.len() && #[trigger] p[i] == q;
            assert(sizes@[i] == unsorted[q]);
        }
        assert forall|i: int, j: int| 0 <= i < j < sizes@.len() implies (#[trigger] sizes@[i]).0@
            != (#[trigger] sizes@[j]).0@ by {
            assert(sizes@[i] == unsorted[p[i]] && sizes@[j] == unsorted[p[j]]);
            if p[i] < p[j] {
                assert(unsorted[p[i]].0@ != unsorted[p[j]].0@);
            } else {
                assert(unsorted[p[j]].0@ != unsorted[p[i]].0@);
            }
        }
        assert forall|i: int| 0 <= i < sizes@.len() implies ext_found(*arena, po, (#[trigger] sizes@[i]).0@)
            && sizes@[i].1 == ext_sum(*arena, po, sizes@[i].0@) by {
            assert(sizes@[i] == unsorted[p[i]]);
        }
    }
    sizes
}

/// With no file counted under `key`, its sum is 0.
proof fn lemma_ext_sum_absent(a: TreeArena, po: Seq<int>, key: Seq<char>)
    requires
        !ext_found(a, po, key),
    ensures
        ext_sum(a, po, key) == 0,
    decreases po.len(),
{
    if po.len() > 0 {
        assert(!is_file_with(a, po[po.len() - 1], key));
        assert(!ext_found(a, po.drop_last(), key)) by {
            if ext_found(a, po.drop_last(), key) {
                let i = choose|i: int| 0 <= i < po.drop_last().len() && #[trigger] is_file_with(a, po.drop_last()[i], key);
                assert(po[i] == po.drop_last()[i]);
            }
        }
        lemma_ext_sum_absent(a, po.drop_last(), key);
    }
}

/// Some index below `k` is sent to `x` by `p`.
pub open spec fn hit_below(p: Seq<int>, k: int, x: int) -> bool {
    exists|i: int| 0 <= i < k && #[trigger] p[i] == x
}

/// An injective map of `[0, n)` into itself reaches every index.
proof fn lemma_permutation_onto(p: Seq<int>)
    requires
        forall|i: int| 0 <= i < p.len() ==> 0 <= #[trigger] p[i] < p.len(),
        forall|i: int, j: int| 0 <= i < j < p.len() ==> #[trigger] p[i] != #[trigger] p[j],
    ensures
        forall|q: int| 0 <= q < p.len() ==> #[trigger] hit_below(p, p.len() as int, q),
{
    let n = p.len() as int;
    let img = Set::new(|x: int| hit_below(p, n, x));
    let full = vstd::set_lib::set_int_range(0, n);
    assert(img.subset_of(full));
    lemma_image_len(p, n);
    vstd::set_lib::lemma_int_range(0, n);
    assert forall|q: int| 0 <= q < n implies #[trigger] hit_below(p, n, q) by {
        if !hit_below(p, n, q) {
            assert(img.subset_of(full.remove(q)));
            vstd::set_lib::lemma_len_subset(img, full.remove(q));
        }
    }
}

/// The first `k` values of an injective `p` form a set of `k` elements.
proof fn lemma_image_len(p: Seq<int>, k: int)
    requires
        0 <= k <= p.len(),
        forall|i: int, j: int| 0 <= i < j < p.len() ==> #[trigger] p[i] != #[trigger] p[j],
    ensures
        Set::new(|x: int| hit_below(p, k, x)).finite(),
        Set::new(|x: int| hit_below(p, k, x)).len() == k,
    decreases k,
{
    let s = Set::new(|x: int| hit_below(p, k, x));
    if k == 0 {
        assert(s =~= Set::empty());
    } else {
        lemma_image_len(p, k - 1);
        let t = Set::new(|x: int| hit_below(p, k - 1, x));
        assert forall|x: int| s.contains(x) <==> t.insert(p[k - 1]).contains(x) by {
            if s.contains(x) {
                let i = choose|i: int| 0 <= i < k && #[trigger] p[i] == x;
                if i < k - 1 {
                    assert(t.contains(x));
                }
            }
            if t.contains(x) {
                let i = choose|i: int| 0 <= i < k - 1 && #[trigger] p[i] == x;
                assert(p[i] == x);
            }
            if x == p[k - 1] {
                assert(p[k - 1] == x);
            }
        }
        assert(s =~= t.insert(p[k - 1]));
        assert(!t.contains(p[k - 1])) by {
            if t.contains(p[k - 1]) {
                let i = choose|i: int| 0 <= i < k - 1 && #[trigger] p[i] == p[k - 1];
            }
        }
    }
}

} // verus!
