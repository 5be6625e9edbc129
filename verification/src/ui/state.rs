use vstd::prelude::*;
use vstd::string::StrSliceExecFns;

use crate::cli::Args;
use crate::tree::arena::TreeArena;
use crate::tree::node::NodeId;

verus! {

/// A mounted filesystem, as offered by the drive selector.
#[derive(Clone, Debug, PartialEq, Eq)]
pub struct DriveInfo {
    pub name: String,
    pub mount_point: String,
    pub total_space: u64,
    pub available_space: u64,
}

/// Which of the percentage and the bar graph the size column shows.
#[derive(Debug, Clone, Copy, PartialEq, Eq, Structural)]
pub enum GraphMode {
    Both,
    Percent,
    Graph,
    /// Neither percentage nor graph.
    Neither,
}

/// What the shared-size column shows.
#[derive(Debug, Clone, Copy, PartialEq, Eq, Structural)]
pub enum SharedColumnMode {
    Off,
    Shared,
    Unique,
}

/// The pages of the help dialog.
#[derive(Debug, Clone, Copy, PartialEq, Eq, Structural)]
pub enum HelpPage {
    Keys,
    Format,
    About,
}

/// The dialog shown over the browser, if any.
#[derive(Debug, Clone)]
pub enum Dialog {
    /// No dialog.
    Closed,
    Help(HelpPage),
    Info(NodeId),
    ConfirmDelete(NodeId),
    ConfirmQuit,
    FilterInput(String),
    FuzzySearch { query: String, results: Vec<(NodeId, String)>, selected_idx: usize },
    DriveSelector { drives: Vec<DriveInfo>, selected_idx: usize },
    ExtensionAnalytics { stats: Vec<(String, u64)>, selected_idx: usize, scroll_offset: usize },
}

/// The state of the interactive browser: the tree, where the cursor is,
/// the options and display toggles, and the dialog shown.
#[derive(Debug)]
pub struct AppState {
    pub arena: TreeArena,
    pub current_dir: NodeId,
    pub selected_idx: usize,
    pub scroll_offset: usize,
    /// The directories left, each with the cursor position it had.
    pub history: Vec<(NodeId, usize)>,
    pub args: Args,
    pub apparent_size: bool,
    pub si: bool,
    pub show_itemcount: bool,
    pub show_mtime: bool,
    pub show_hidden: bool,
    pub group_dirs_first: bool,
    pub graph_mode: GraphMode,
    pub shared_column_mode: SharedColumnMode,
    pub active_dialog: Dialog,
    pub show_icons: bool,
    /// A rescan runs in the background.
    pub refreshing: bool,
    /// The children of the current directory as listed: filtered and sorted.
    pub visible_children: Vec<NodeId>,
    /// The custom actions, by key.
    pub custom_actions: Vec<(char, String)>,
    pub filter_query: Option<String>,
    pub show_preview: bool,
    pub fs_modified: bool,
}

/// Whether deletion is allowed: an explicit disable or enable wins, then an
/// imported tree forbids it, then one `-r` does.
pub open spec fn delete_allowed(a: Args) -> bool {
    if a.disable_delete {
        false
    } else if a.enable_delete {
        true
    } else if a.import_file is Some {
        false
    } else {
        a.read_only < 1
    }
}

/// Whether spawning a shell is allowed: an explicit disable or enable wins,
/// then an imported tree forbids it, then two `-r` do.
pub open spec fn shell_allowed(a: Args) -> bool {
    if a.disable_shell {
        false
    } else if a.enable_shell {
        true
    } else if a.import_file is Some {
        false
    } else {
        a.read_only < 2
    }
}

/// Whether a rescan is allowed: an explicit disable or enable wins, then an
/// imported tree forbids it, then one `-r` does.
pub open spec fn refresh_allowed(a: Args) -> bool {
    if a.disable_refresh {
        false
    } else if a.enable_refresh {
        true
    } else if a.import_file is Some {
        false
    } else {
        a.read_only < 1
    }
}

impl AppState {
    /// Whether deletion is allowed.
    pub fn allow_delete(&self) -> (r: bool)
        ensures
            r == delete_allowed(self.args),
    {
        let is_import = self.args.import_file.is_some();
        if self.args.disable_delete {
            false
        } else if self.args.enable_delete {
            true
        } else if is_import {
            false
        } else {
            self.args.read_only < 1
        }
    }

    /// Whether spawning a shell is allowed.
    pub fn allow_shell(&self) -> (r: bool)
        ensures
            r == shell_allowed(self.args),
    {
        let is_import = self.args.import_file.is_some();
        if self.args.disable_shell {
            false
        } else if self.args.enable_shell {
            true
        } else if is_import {
            false
        } else {
            self.args.read_only < 2
        }
    }

    /// Whether a rescan is allowed.
    pub fn allow_refresh(&self) -> (r: bool)
        ensures
            r == refresh_allowed(self.args),
    {
        let is_import = self.args.import_file.is_some();
        if self.args.disable_refresh {
            false
        } else if self.args.enable_refresh {
            true
        } else if is_import {
            false
        } else {
            self.args.read_only < 1
        }
    }
}

/// Whether `p` is a prefix of `s`.
pub fn has_prefix(s: &str, p: &str) -> (r: bool)
    ensures
        r == (p@.len() <= s@.len() && s@.subrange(0, p@.len() as int) == p@),
{
    let n = s.unicode_len();
    let m = p.unicode_len();
    if m > n {
        return false;
    }
    let mut i: usize = 0;
    while i < m
        invariant
            n == s@.len(),
            m == p@.len(),
            m <= n,
            i <= m,
            forall|j: int| 0 <= j < i ==> s@[j] == p@[j],
        decreases m - i,
    {
        if s.get_char(i) != p.get_char(i) {
            assert(s@.subrange(0, m as int)[i as int] != p@[i as int]);
            return false;
        }
        i = i + 1;
    }
    assert(s@.subrange(0, m as int) =~= p@);
    true
}

/// Whether `p` is a suffix of `s`.
pub fn has_suffix(s: &str, p: &str) -> (r: bool)
    ensures
        r == (p@.len() <= s@.len() && s@.subrange(s@.len() - p@.len(), s@.len() as int) == p@),
{
    let n = s.unicode_len();
    let m = p.unicode_len();
    if m > n {
        return false;
    }
    let d = n - m;
    let mut i: usize = 0;
    while i < m
        invariant
            n == s@.len(),
            m == p@.len(),
            m <= n,
            d == n - m,
            i <= m,
            forall|j: int| 0 <= j < i ==> s@[d + j] == p@[j],
        decreases m - i,
    {
        if s.get_char(d + i) != p.get_char(i) {
            assert(s@.subrange(d as int, n as int)[i as int] != p@[i as int]);
            return false;
        }
        i = i + 1;
    }
    assert(s@.subrange(d as int, n as int) =~= p@);
    true
}

/// Calls `String::push_str`: appends `t` to `s`.
#[verifier::external_body]
pub(crate) fn append_text(s: &mut String, t: &str)
    ensures
        final(s)@ == old(s)@ + t@,
{
    s.push_str(t);
}

/// Calls `String::push`: appends `c` to `s`.
#[verifier::external_body]
pub(crate) fn append_char(s: &mut String, c: char)
    ensures
        final(s)@ == old(s)@.push(c),
{
    s.push(c);
}

/// Calls `String::pop`: removes the last character of `s`, if any.
#[verifier::external_body]
pub(crate) fn pop_char(s: &mut String) -> (r: Option<char>)
    ensures
        old(s)@.len() == 0 ==> r is None && final(s)@ == old(s)@,
        old(s)@.len() > 0 ==> r == Some(old(s)@.last()) && final(s)@ == old(s)@.drop_last(),
{
    s.pop()
}

/// The sort key after toggling the column `col`: the same column flips
/// between descending and ascending (descending unless it was
/// descending); another column starts descending.
pub open spec fn toggled_sort(sort: Seq<char>, col: Seq<char>) -> Seq<char> {
    if col.len() <= sort.len() && sort.subrange(0, col.len() as int) == col {
        if 5 <= sort.len() && sort.subrange(sort.len() - 5, sort.len() as int) == "-desc"@ {
            col + "-asc"@
        } else {
            col + "-desc"@
        }
    } else {
        col + "-desc"@
    }
}

/// The sort key after toggling the column `col` in the key `sort`.
pub fn toggle_sort(sort: &String, col: &str) -> (r: String)
    ensures
        r@ == toggled_sort(sort@, col@),
{
    proof {
        reveal_strlit("-desc");
    }
    let mut s = col.to_owned();
    if has_prefix(sort.as_str(), col) {
        if has_suffix(sort.as_str(), "-desc") {
            append_text(&mut s, "-asc");
        } else {
            append_text(&mut s, "-desc");
        }
    } else {
        append_text(&mut s, "-desc");
    }
    s
}

/// The names of the nodes from the root down to `x`, following parents.
pub open spec fn path_names(a: TreeArena, x: int) -> Seq<Seq<char>>
    decreases x,
{
    if 0 <= x < a.len() {
        match a.nodes@[x].parent {
            Some(p) => if 0 <= p.0 < x {
                path_names(a, p.0 as int).push(a.nodes@[x].name@)
            } else {
                seq![a.nodes@[x].name@]
            },
            None => seq![a.nodes@[x].name@],
        }
    } else {
        Seq::empty()
    }
}

/// The path of a node, as the names of the nodes from the root down to it
/// (the root's name being the directory that was scanned).
pub fn get_node_path(arena: &TreeArena, node_id: NodeId) -> (r: Vec<String>)
    requires
        arena.wf(),
        node_id.0 < arena.len(),
    ensures
        r@.map_values(|s: String| s@) == path_names(*arena, node_id.0 as int),
{
    let mut rev: Vec<String> = Vec::new();
    let mut curr = node_id.0;
    let ghost mut acc: Seq<Seq<char>> = Seq::empty();
    loop
        invariant_except_break
            curr < arena.len(),
            path_names(*arena, node_id.0 as int) == path_names(*arena, curr as int) + acc,
            rev@.map_values(|s: String| s@) == acc.reverse(),
        invariant
            arena.wf(),
        ensures
            path_names(*arena, node_id.0 as int) == acc,
            rev@.map_values(|s: String| s@) == acc.reverse(),
        decreases curr,
    {
        let node = arena.get(NodeId(curr));
        let name = node.name.clone();
        let ghost before = rev@;
        rev.push(name);
        proof {
            assert(rev@.map_values(|s: String| s@) =~= before.map_values(|s: String| s@).push(
                node.name@,
            ));
        }
        match node.parent {
            Some(p) => {
                proof {
                    assert(path_names(*arena, curr as int) == path_names(*arena, p.0 as int).push(
                        node.name@,
                    ));
                    assert(path_names(*arena, p.0 as int).push(node.name@) + acc
                        =~= path_names(*arena, p.0 as int) + (seq![node.name@] + acc));
                    assert((seq![node.name@] + acc).reverse() =~= acc.reverse().push(node.name@));
                    acc = seq![node.name@] + acc;
                }
                curr = p.0;
            },
            None => {
                proof {
                    assert((seq![node.name@] + acc).reverse() =~= acc.reverse().push(node.name@));
                    assert(path_names(*arena, curr as int) + acc =~= seq![node.name@] + acc);
                    acc = seq![node.name@] + acc;
                }
                break;
            },
        }
    }
    let mut out: Vec<String> = Vec::new();
    let mut k = rev.len();
    while k > 0
        invariant
            k <= rev@.len(),
            rev@.map_values(|s: String| s@) == acc.reverse(),
            out@.map_values(|s: String| s@) == acc.subrange(0, (rev@.len() - k) as int),
            acc.len() == rev@.len(),
        decreases k,
    {
        k = k - 1;
        let ghost before = out@;
        out.push(rev[k].clone());
        proof {
            assert(rev@.map_values(|s: String| s@)[k as int] == acc.reverse()[k as int]);
            assert(out@.map_values(|s: String| s@) =~= before.map_values(|s: String| s@).push(
                rev@[k as int]@,
            ));
            assert(acc.subrange(0, (rev@.len() - k) as int) =~= acc.subrange(
                0,
                (rev@.len() - k - 1) as int,
            ).push(acc[(rev@.len() - k - 1) as int]));
        }
    }
    assert(acc.subrange(0, acc.len() as int) =~= acc);
    out
}

} // verus!
