use vstd::prelude::*;
use vstd::string::StrSliceExecFns;

use crate::tree::arena::grafted_at;
use crate::tree::node::NodeId;
use crate::tree::stats::{recalculate_stats, recalculated};
use crate::tree::arena::TreeArena;
use crate::cli::Args;
use crate::ui::nav::{
    calculate_extension_stats, ext_table, fuzzy_listed, jump_to_node, jumped, state_ok,
    update_fuzzy_results, visible_current,
};
use crate::ui::state::{
    append_char, delete_allowed, get_node_path, path_names, pop_char, refresh_allowed,
    shell_allowed, toggle_sort, toggled_sort, AppState, Dialog, DriveInfo, GraphMode, HelpPage,
    SharedColumnMode,
};
use crate::ui::text::{str_trimmed, trim_text};

verus! {

/// A key as the browser reads it.
#[derive(Clone, Copy, Debug, PartialEq, Eq, Structural)]
pub enum Key {
    Char(char),
    Esc,
    Enter,
    Backspace,
    Up,
    Down,
    Left,
    Right,
    PageUp,
    PageDown,
    Home,
    End,
    Tab,
    /// Any other key.
    Other,
}

/// What the program must do, outside the library, after a key.
#[derive(Debug)]
pub enum UiAction {
    /// Nothing.
    Nothing,
    /// Watch the current directory for changes.
    Watch,
    /// Delete the entry whose path is given, read-only mode as given; on
    /// success call `finish_confirmed_delete`.
    DeleteConfirmed { node: NodeId, path: Vec<String>, read_only: bool },
    /// Delete the entry whose path is given, then call
    /// `finish_direct_delete` whatever happened.
    DeleteNow { node: NodeId, path: Vec<String> },
    /// Spawn a shell in the directory whose path is given.
    Shell(Vec<String>),
    /// Rescan the directory whose path is given in the background, then call
    /// `finish_rescan` with the result.
    Rescan(Vec<String>),
    /// List the mounted drives and call `open_drive_selector` with them.
    ListDrives,
    /// Scan the drive mounted at the given path in the background, then call
    /// `finish_rescan` with the result.
    ScanDrive(String),
    /// Run the custom command on the entry whose path is given, then call
    /// `finish_custom_action`.
    RunAction { command: String, path: Vec<String> },
}

/// The help page before `p`, cycling.
pub open spec fn prev_page(p: HelpPage) -> HelpPage {
    match p {
        HelpPage::Keys => HelpPage::About,
        HelpPage::Format => HelpPage::Keys,
        HelpPage::About => HelpPage::Format,
    }
}

/// The help page after `p`, cycling.
pub open spec fn next_page(p: HelpPage) -> HelpPage {
    match p {
        HelpPage::Keys => HelpPage::Format,
        HelpPage::Format => HelpPage::About,
        HelpPage::About => HelpPage::Keys,
    }
}

/// Whether `k` is the character `c`.
pub open spec fn is_char(k: Key, c: char) -> bool {
    k == Key::Char(c)
}

/// The state after a key in the help dialog on page `p`.
pub open spec fn help_step(p: HelpPage, k: Key) -> Option<HelpPage> {
    if is_char(k, 'q') || k == Key::Esc || is_char(k, '?') {
        None
    } else if is_char(k, '1') {
        Some(HelpPage::Keys)
    } else if is_char(k, '2') {
        Some(HelpPage::Format)
    } else if is_char(k, '3') {
        Some(HelpPage::About)
    } else if k == Key::Left || is_char(k, 'h') {
        Some(prev_page(p))
    } else if k == Key::Right || is_char(k, 'l') {
        Some(next_page(p))
    } else {
        Some(p)
    }
}

/// The selection after moving up (`delta` false) or down in a list of `len`.
pub open spec fn moved(sel: int, len: int, down: bool) -> int {
    if !down {
        if sel > 0 {
            sel - 1
        } else {
            sel
        }
    } else if len > 0 && sel < len - 1 {
        sel + 1
    } else {
        sel
    }
}

/// The state holds no dialog and is otherwise consistent.
pub open spec fn closed_ok(s: AppState) -> bool {
    state_ok(s) && s.active_dialog is Closed
}

/// `n` is `o` showing the dialog `d`.
#[verifier::opaque]
pub open spec fn shows(o: AppState, n: AppState, d: Dialog) -> bool {
    n == (AppState { active_dialog: d, ..o })
}

/// `s` with its dialog taken down.
#[verifier::opaque]
pub open spec fn closed_view(s: AppState) -> AppState {
    AppState { active_dialog: Dialog::Closed, ..s }
}

/// Field by field, `n` is `o` with its dialog taken down.
proof fn lemma_closed_view(o: AppState, n: AppState)
    requires
        n.arena == o.arena,
        n.current_dir == o.current_dir,
        n.selected_idx == o.selected_idx,
        n.scroll_offset == o.scroll_offset,
        n.history == o.history,
        n.args == o.args,
        n.apparent_size == o.apparent_size,
        n.si == o.si,
        n.show_itemcount == o.show_itemcount,
        n.show_mtime == o.show_mtime,
        n.show_hidden == o.show_hidden,
        n.group_dirs_first == o.group_dirs_first,
        n.graph_mode == o.graph_mode,
        n.shared_column_mode == o.shared_column_mode,
        n.active_dialog == Dialog::Closed,
        n.show_icons == o.show_icons,
        n.refreshing == o.refreshing,
        n.visible_children == o.visible_children,
        n.custom_actions == o.custom_actions,
        n.filter_query == o.filter_query,
        n.show_preview == o.show_preview,
        n.fs_modified == o.fs_modified,
    ensures
        n == closed_view(o),
{
    reveal(closed_view);
}

/// A state with no dialog shown shows none.
proof fn lemma_shows_none(o: AppState)
    requires
        o.active_dialog is Closed,
    ensures
        shows(o, o, Dialog::Closed),
{
    reveal(shows);
}

/// `n` is `o` with at most the dialog shown changed.
pub open spec fn only_dialog(o: AppState, n: AppState) -> bool {
    n == (AppState { active_dialog: n.active_dialog, ..o })
}

/// `p` holds the path of the node `x`, component by component.
pub open spec fn path_is(p: Vec<String>, a: TreeArena, x: NodeId) -> bool {
    p@.map_values(|s: String| s@) == path_names(a, x.0 as int)
}

/// `s` without its last character, if any.
pub open spec fn popped(s: Seq<char>) -> Seq<char> {
    if s.len() == 0 {
        s
    } else {
        s.drop_last()
    }
}

/// What a key does in the filter input dialog holding `query`, from the
/// state `o` with the dialog taken down: Esc drops the filter, Enter sets it
/// (a blank query drops it), both relisting; Backspace and characters edit
/// the query; other keys change nothing.
#[verifier::opaque]
pub open spec fn filter_step(query: String, code: Key, o: AppState, n: AppState) -> bool {
    match code {
        Key::Esc => n == (AppState { filter_query: None, visible_children: n.visible_children, ..o })
            && visible_current(n),
        Key::Enter => n == (AppState {
            filter_query: if str_trimmed(query@).len() == 0 {
                None
            } else {
                Some(query)
            },
            visible_children: n.visible_children,
            ..o
        }) && visible_current(n),
        Key::Backspace => only_dialog(o, n) && (n.active_dialog matches Dialog::FilterInput(q2) && q2@
            == popped(query@)),
        Key::Char(c) => only_dialog(o, n) && (n.active_dialog matches Dialog::FilterInput(q2) && q2@
            == query@.push(c)),
        _ => n == (AppState { active_dialog: Dialog::FilterInput(query), ..o }),
    }
}

/// The fuzzy search dialog shown again with the cursor moved.
pub open spec fn fuzzy_moved(
    query: String,
    results: Vec<(NodeId, String)>,
    sel: usize,
    down: bool,
    o: AppState,
    n: AppState,
) -> bool {
    n == (AppState {
        active_dialog: Dialog::FuzzySearch {
            query,
            results,
            selected_idx: moved(sel as int, results@.len() as int, down) as usize,
        },
        ..o
    })
}

/// The fuzzy search dialog shown again for the edited query `q`: the
/// results searched anew, the cursor on the first.
pub open spec fn fuzzy_retyped(o: AppState, n: AppState, q: Seq<char>) -> bool {
    &&& only_dialog(o, n)
    &&& n.active_dialog matches Dialog::FuzzySearch { query: q2, results: r2, selected_idx }
        && q2@ == q && selected_idx == 0 && fuzzy_listed(o.arena, q, r2@)
}

/// What a key does in the fuzzy search dialog, from the state `o` with the
/// dialog taken down: Esc closes it; Enter jumps to the selected result;
/// Up/`k` and Down/`j` move the cursor; Backspace and other characters edit
/// the query and search again; other keys change nothing.
#[verifier::opaque]
pub open spec fn fuzzy_step(
    query: String,
    results: Vec<(NodeId, String)>,
    sel: usize,
    code: Key,
    o: AppState,
    n: AppState,
    r: UiAction,
) -> bool {
    match code {
        Key::Esc => n == o && r is Nothing,
        Key::Enter => if sel < results@.len() {
            jumped(o, n, results@[sel as int].0) && r is Watch
        } else {
            n == o && r is Nothing
        },
        Key::Up => fuzzy_moved(query, results, sel, false, o, n) && r is Nothing,
        Key::Down => fuzzy_moved(query, results, sel, true, o, n) && r is Nothing,
        Key::Backspace => fuzzy_retyped(o, n, popped(query@)) && r is Nothing,
        Key::Char(c) => if c == 'k' {
            fuzzy_moved(query, results, sel, false, o, n) && r is Nothing
        } else if c == 'j' {
            fuzzy_moved(query, results, sel, true, o, n) && r is Nothing
        } else {
            fuzzy_retyped(o, n, query@.push(c)) && r is Nothing
        },
        _ => n == (AppState { active_dialog: Dialog::FuzzySearch { query, results, selected_idx: sel }, ..o })
            && r is Nothing,
    }
}

/// What a key does in the drive selector, from the state `o` with the
/// dialog taken down: Esc/`q` close it; Up/`k` and Down/`j` move the
/// cursor; Enter on a drive asks for its scan, the history and cursor
/// reset; other keys change nothing.
#[verifier::opaque]
pub open spec fn drive_step(drives: Vec<DriveInfo>, sel: usize, code: Key, o: AppState, n: AppState, r: UiAction) -> bool {
    if code == Key::Esc || is_char(code, 'q') {
        n == o && r is Nothing
    } else if code == Key::Up || is_char(code, 'k') {
        n == (AppState {
            active_dialog: Dialog::DriveSelector {
                drives,
                selected_idx: moved(sel as int, drives@.len() as int, false) as usize,
            },
            ..o
        }) && r is Nothing
    } else if code == Key::Down || is_char(code, 'j') {
        n == (AppState {
            active_dialog: Dialog::DriveSelector {
                drives,
                selected_idx: moved(sel as int, drives@.len() as int, true) as usize,
            },
            ..o
        }) && r is Nothing
    } else if code == Key::Enter && sel < drives@.len() {
        &&& n == (AppState { history: n.history, selected_idx: 0, scroll_offset: 0, refreshing: true, ..o })
        &&& n.history@.len() == 0
        &&& r == UiAction::ScanDrive(drives@[sel as int].mount_point)
    } else {
        n == (AppState { active_dialog: Dialog::DriveSelector { drives, selected_idx: sel }, ..o })
            && r is Nothing
    }
}

/// What a key does in the extension analytics dialog, from the state `o`
/// with the dialog taken down: Esc/`q`/Enter close it; Up/`k` and Down/`j`
/// move the cursor within the table, scrolling to keep it in a window of
/// ten rows; other keys change nothing.
#[verifier::opaque]
pub open spec fn ext_step(stats: Vec<(String, u64)>, sel: usize, scroll: usize, code: Key, o: AppState, n: AppState) -> bool {
    if code == Key::Esc || is_char(code, 'q') || code == Key::Enter {
        n == o
    } else if (code == Key::Up || is_char(code, 'k')) && sel > 0 {
        n == (AppState {
            active_dialog: Dialog::ExtensionAnalytics {
                stats,
                selected_idx: (sel - 1) as usize,
                scroll_offset: if sel - 1 < scroll {
                    (sel - 1) as usize
                } else {
                    scroll
                },
            },
            ..o
        })
    } else if (code == Key::Down || is_char(code, 'j')) && stats@.len() > 0 && sel < stats@.len() - 1 {
        n == (AppState {
            active_dialog: Dialog::ExtensionAnalytics {
                stats,
                selected_idx: (sel + 1) as usize,
                scroll_offset: if sel + 1 >= scroll + 10 {
                    (sel + 1 - 10 + 1) as usize
                } else {
                    scroll
                },
            },
            ..o
        })
    } else {
        n == (AppState {
            active_dialog: Dialog::ExtensionAnalytics { stats, selected_idx: sel, scroll_offset: scroll },
            ..o
        })
    }
}

/// A key in the help dialog.
#[verifier::rlimit(30)]
fn help_keys(page: HelpPage, code: Key, state: &mut AppState)
    requires
        closed_ok(*old(state)),
    ensures
        state_ok(*final(state)),
        shows(
            *old(state),
            *final(state),
            match help_step(page, code) {
                None => Dialog::Closed,
                Some(q) => Dialog::Help(q),
            },
        ),
{
    reveal(shows);
    if code == Key::Char('q') || code == Key::Esc || code == Key::Char('?') {
    } else if code == Key::Char('1') {
        state.active_dialog = Dialog::Help(HelpPage::Keys);
    } else if code == Key::Char('2') {
        state.active_dialog = Dialog::Help(HelpPage::Format);
    } else if code == Key::Char('3') {
        state.active_dialog = Dialog::Help(HelpPage::About);
    } else if code == Key::Left || code == Key::Char('h') {
        let p = match page {
            HelpPage::Keys => HelpPage::About,
            HelpPage::Format => HelpPage::Keys,
            HelpPage::About => HelpPage::Format,
        };
        state.active_dialog = Dialog::Help(p);
    } else if code == Key::Right || code == Key::Char('l') {
        let p = match page {
            HelpPage::Keys => HelpPage::Format,
            HelpPage::Format => HelpPage::About,
            HelpPage::About => HelpPage::Keys,
        };
        state.active_dialog = Dialog::Help(p);
    } else {
        state.active_dialog = Dialog::Help(page);
    }
}

/// A key in the filter input dialog holding `query`.
#[verifier::rlimit(30)]
fn filter_keys(query: String, code: Key, state: &mut AppState)
    requires
        closed_ok(*old(state)),
    ensures
        state_ok(*final(state)),
        filter_step(query, code, *old(state), *final(state)),
{
    reveal(filter_step);
    let ghost q0 = query;
    let mut q = query;
    if code == Key::Esc {
        state.filter_query = None;
        state.update_visible_children();
    } else if code == Key::Enter {
        let t = trim_text(q.as_str());
        if t.as_str().unicode_len() == 0 {
            state.filter_query = None;
        } else {
            state.filter_query = Some(q);
        }
        state.update_visible_children();
    } else if code == Key::Backspace {
        pop_char(&mut q);
        state.active_dialog = Dialog::FilterInput(q);
    } else {
        match code {
            Key::Char(c) => {
                append_char(&mut q, c);
                state.active_dialog = Dialog::FilterInput(q);
            },
            _ => {
                state.active_dialog = Dialog::FilterInput(q);
            },
        }
    }
}

/// A key in the fuzzy search dialog.
#[verifier::rlimit(30)]
fn fuzzy_keys(query: String, results: Vec<(NodeId, String)>, sel: usize, code: Key, state: &mut AppState) -> (r: UiAction)
    requires
        closed_ok(*old(state)),
        forall|i: int| 0 <= i < results@.len() ==> (#[trigger] results@[i]).0.0 < old(state).arena.len(),
    ensures
        state_ok(*final(state)),
        fuzzy_step(query, results, sel, code, *old(state), *final(state), r),
{
    reveal(fuzzy_step);
    let ghost q0 = query;
    let ghost r0 = results;
    let mut q = query;
    let mut action = UiAction::Nothing;
    if code == Key::Esc {
    } else if code == Key::Enter {
        if sel < results.len() {
            let target = results[sel].0;
            jump_to_node(state, target);
            action = UiAction::Watch;
        }
    } else if code == Key::Up || code == Key::Char('k') {
        let s2 = if sel > 0 {
            sel - 1
        } else {
            sel
        };
        state.active_dialog = Dialog::FuzzySearch { query: q, results, selected_idx: s2 };
    } else if code == Key::Down || code == Key::Char('j') {
        let s2 = if results.len() > 0 && sel < results.len() - 1 {
            sel + 1
        } else {
            sel
        };
        state.active_dialog = Dialog::FuzzySearch { query: q, results, selected_idx: s2 };
    } else if code == Key::Backspace {
        pop_char(&mut q);
        let updated = update_fuzzy_results(&state.arena, q.as_str());
        state.active_dialog = Dialog::FuzzySearch { query: q, results: updated, selected_idx: 0 };
    } else {
        match code {
            Key::Char(c) => {
                append_char(&mut q, c);
                let updated = update_fuzzy_results(&state.arena, q.as_str());
                state.active_dialog = Dialog::FuzzySearch { query: q, results: updated, selected_idx: 0 };
            },
            _ => {
                state.active_dialog = Dialog::FuzzySearch { query: q, results, selected_idx: sel };
            },
        }
    }
    action
}

/// A key in the drive selector.
#[verifier::rlimit(30)]
fn drive_keys(drives: Vec<DriveInfo>, sel: usize, code: Key, state: &mut AppState) -> (r: UiAction)
    requires
        closed_ok(*old(state)),
    ensures
        state_ok(*final(state)),
        drive_step(drives, sel, code, *old(state), *final(state), r),
{
    reveal(drive_step);
    let mut action = UiAction::Nothing;
    if code == Key::Esc || code == Key::Char('q') {
    } else if code == Key::Up || code == Key::Char('k') {
        let s2 = if sel > 0 {
            sel - 1
        } else {
            sel
        };
        state.active_dialog = Dialog::DriveSelector { drives, selected_idx: s2 };
    } else if code == Key::Down || code == Key::Char('j') {
        let s2 = if drives.len() > 0 && sel < drives.len() - 1 {
            sel + 1
        } else {
            sel
        };
        state.active_dialog = Dialog::DriveSelector { drives, selected_idx: s2 };
    } else if code == Key::Enter && sel < drives.len() {
        let path = drives[sel].mount_point.clone();
        state.history.clear();
        state.selected_idx = 0;
        state.scroll_offset = 0;
        state.refreshing = true;
        action = UiAction::ScanDrive(path);
    } else {
        state.active_dialog = Dialog::DriveSelector { drives, selected_idx: sel };
    }
    action
}

/// A key in the extension analytics dialog.
#[verifier::rlimit(30)]
fn extension_keys(stats: Vec<(String, u64)>, sel: usize, scroll: usize, code: Key, state: &mut AppState)
    requires
        closed_ok(*old(state)),
    ensures
        state_ok(*final(state)),
        ext_step(stats, sel, scroll, code, *old(state), *final(state)),
{
    reveal(ext_step);
    if code == Key::Esc || code == Key::Char('q') || code == Key::Enter {
    } else if (code == Key::Up || code == Key::Char('k')) && sel > 0 {
        let s2 = sel - 1;
        let o2 = if s2 < scroll {
            s2
        } else {
            scroll
        };
        state.active_dialog = Dialog::ExtensionAnalytics { stats, selected_idx: s2, scroll_offset: o2 };
    } else if (code == Key::Down || code == Key::Char('j')) && stats.len() > 0 && sel < stats.len() - 1 {
        let s2 = sel + 1;
        let o2 = if scroll <= usize::MAX - 10 && s2 >= scroll + 10 {
            s2 - 10 + 1
        } else {
            scroll
        };
        state.active_dialog = Dialog::ExtensionAnalytics { stats, selected_idx: s2, scroll_offset: o2 };
    } else {
        state.active_dialog = Dialog::ExtensionAnalytics { stats, selected_idx: sel, scroll_offset: scroll };
    }
}

/// A key in the info dialog about `id`: `q`, Esc, `i` or Enter close it.
fn info_keys(id: NodeId, code: Key, state: &mut AppState)
    requires
        closed_ok(*old(state)),
        id.0 < old(state).arena.len(),
    ensures
        state_ok(*final(state)),
        shows(
            *old(state),
            *final(state),
            if is_char(code, 'q') || code == Key::Esc || is_char(code, 'i') || code == Key::Enter {
                Dialog::Closed
            } else {
                Dialog::Info(id)
            },
        ),
{
    reveal(shows);
    if !(code == Key::Char('q') || code == Key::Esc || code == Key::Char('i') || code == Key::Enter) {
        state.active_dialog = Dialog::Info(id);
    }
}

/// A key in the delete confirmation for `id`: `y` or Enter ask for the
/// deletion, `n`, Esc or `q` cancel it.
fn confirm_delete_keys(id: NodeId, code: Key, state: &mut AppState) -> (r: UiAction)
    requires
        closed_ok(*old(state)),
        id.0 < old(state).arena.len(),
    ensures
        state_ok(*final(state)),
        if is_char(code, 'y') || code == Key::Enter {
            &&& shows(*old(state), *final(state), Dialog::Closed)
            &&& r matches UiAction::DeleteConfirmed { node, path, read_only }
            &&& node == id
            &&& path_is(path, old(state).arena, id)
            &&& read_only == !delete_allowed(old(state).args)
        } else if is_char(code, 'n') || code == Key::Esc || is_char(code, 'q') {
            shows(*old(state), *final(state), Dialog::Closed) && r is Nothing
        } else {
            shows(*old(state), *final(state), Dialog::ConfirmDelete(id)) && r is Nothing
        },
{
    reveal(shows);
    let mut action = UiAction::Nothing;
    if code == Key::Char('y') || code == Key::Enter {
        let path = get_node_path(&state.arena, id);
        let read_only = !state.allow_delete();
        action = UiAction::DeleteConfirmed { node: id, path, read_only };
    } else if code == Key::Char('n') || code == Key::Esc || code == Key::Char('q') {
    } else {
        state.active_dialog = Dialog::ConfirmDelete(id);
    }
    action
}

/// A key in the quit confirmation: `y` or Enter confirm (the dialog stays
/// while the program ends), `n`, Esc or `q` cancel; other keys wait.
fn confirm_quit_keys(code: Key, state: &mut AppState) -> (r: bool)
    requires
        closed_ok(*old(state)),
    ensures
        state_ok(*final(state)),
        r == !(is_char(code, 'y') || code == Key::Enter),
        shows(
            *old(state),
            *final(state),
            if is_char(code, 'n') || code == Key::Esc || is_char(code, 'q') {
                Dialog::Closed
            } else {
                Dialog::ConfirmQuit
            },
        ),
{
    reveal(shows);
    if code == Key::Char('y') || code == Key::Enter {
        state.active_dialog = Dialog::ConfirmQuit;
        false
    } else if code == Key::Char('n') || code == Key::Esc || code == Key::Char('q') {
        true
    } else {
        state.active_dialog = Dialog::ConfirmQuit;
        true
    }
}

/// Handles a key while a dialog is shown. Returns `false` only when the
/// quit confirmation is answered yes, with what the program must do: each
/// dialog acts on the state with the dialog taken down, as its step says.
#[verifier::rlimit(30)]
pub fn handle_dialog_keys(code: Key, state: &mut AppState) -> (r: (bool, UiAction))
    requires
        state_ok(*old(state)),
    ensures
        state_ok(*final(state)),
        r.0 == !(old(state).active_dialog is ConfirmQuit && (is_char(code, 'y') || code == Key::Enter)),
        ({
            let o = closed_view(*old(state));
            match old(state).active_dialog {
                Dialog::Help(p) => shows(
                    o,
                    *final(state),
                    match help_step(p, code) {
                        None => Dialog::Closed,
                        Some(q) => Dialog::Help(q),
                    },
                ) && r.1 is Nothing,
                Dialog::Info(id) => shows(
                    o,
                    *final(state),
                    if is_char(code, 'q') || code == Key::Esc || is_char(code, 'i') || code == Key::Enter {
                        Dialog::Closed
                    } else {
                        Dialog::Info(id)
                    },
                ) && r.1 is Nothing,
                Dialog::ConfirmDelete(id) => if is_char(code, 'y') || code == Key::Enter {
                    &&& shows(o, *final(state), Dialog::Closed)
                    &&& r.1 matches UiAction::DeleteConfirmed { node, path, read_only }
                    &&& node == id
                    &&& path_is(path, o.arena, id)
                    &&& read_only == !delete_allowed(o.args)
                } else if is_char(code, 'n') || code == Key::Esc || is_char(code, 'q') {
                    shows(o, *final(state), Dialog::Closed) && r.1 is Nothing
                } else {
                    shows(o, *final(state), Dialog::ConfirmDelete(id)) && r.1 is Nothing
                },
                Dialog::ConfirmQuit => shows(
                    o,
                    *final(state),
                    if is_char(code, 'n') || code == Key::Esc || is_char(code, 'q') {
                        Dialog::Closed
                    } else {
                        Dialog::ConfirmQuit
                    },
                ) && r.1 is Nothing,
                Dialog::FilterInput(q) => filter_step(q, code, o, *final(state)) && r.1 is Nothing,
                Dialog::FuzzySearch { query, results, selected_idx } => fuzzy_step(
                    query,
                    results,
                    selected_idx,
                    code,
                    o,
                    *final(state),
                    r.1,
                ),
                Dialog::DriveSelector { drives, selected_idx } => drive_step(
                    drives,
                    selected_idx,
                    code,
                    o,
                    *final(state),
                    r.1,
                ),
                Dialog::ExtensionAnalytics { stats, selected_idx, scroll_offset } => ext_step(
                    stats,
                    selected_idx,
                    scroll_offset,
                    code,
                    o,
                    *final(state),
                ) && r.1 is Nothing,
                Dialog::Closed => shows(o, *final(state), Dialog::Closed) && r.1 is Nothing,
            }
        }),
{
    let mut dialog = Dialog::Closed;
    std::mem::swap(&mut dialog, &mut state.active_dialog);
    proof {
        lemma_closed_view(*old(state), *state);
    }
    let mut action = UiAction::Nothing;
    let mut keep_going = true;
    match dialog {
        Dialog::Help(page) => {
            help_keys(page, code, state);
        },
        Dialog::Info(id) => {
            info_keys(id, code, state);
        },
        Dialog::ConfirmDelete(id) => {
            action = confirm_delete_keys(id, code, state);
        },
        Dialog::ConfirmQuit => {
            keep_going = confirm_quit_keys(code, state);
        },
        Dialog::FilterInput(query) => {
            filter_keys(query, code, state);
        },
        Dialog::FuzzySearch { query, results, selected_idx } => {
            action = fuzzy_keys(query, results, selected_idx, code, state);
        },
        Dialog::DriveSelector { drives, selected_idx } => {
            action = drive_keys(drives, selected_idx, code, state);
        },
        Dialog::ExtensionAnalytics { stats, selected_idx, scroll_offset } => {
            extension_keys(stats, selected_idx, scroll_offset, code, state);
        },
        Dialog::Closed => {
            proof {
                lemma_shows_none(*state);
            }
        },
    }
    (keep_going, action)
}

/// The cursor can index the listing whenever the listing is not empty.
pub open spec fn selection_ok(s: AppState) -> bool {
    s.visible_children@.len() == 0 || s.selected_idx < s.visible_children@.len()
}

/// The command of the custom action bound to `c`, if any (the first binding).
pub open spec fn action_for(v: Seq<(char, String)>, c: char) -> Option<String>
    decreases v.len(),
{
    if v.len() == 0 {
        None
    } else if v[0].0 == c {
        Some(v[0].1)
    } else {
        action_for(v.drop_first(), c)
    }
}

/// The command of the custom action bound to `c`, if any.
fn find_action(v: &Vec<(char, String)>, c: char) -> (r: Option<String>)
    ensures
        r == action_for(v@, c),
{
    let mut i: usize = 0;
    assert(v@.subrange(0, v@.len() as int) =~= v@);
    while i < v.len()
        invariant
            i <= v@.len(),
            action_for(v@, c) == action_for(v@.subrange(i as int, v@.len() as int), c),
        decreases v@.len() - i,
    {
        let ghost rest = v@.subrange(i as int, v@.len() as int);
        assert(rest[0] == v@[i as int]);
        assert(rest.drop_first() =~= v@.subrange(i + 1, v@.len() as int));
        if v[i].0 == c {
            return Some(v[i].1.clone());
        }
        i = i + 1;
    }
    None
}

/// The cursor after a movement key in a listing of `len` entries.
pub open spec fn cursor_after(k: Key, sel: int, len: int) -> int {
    if k == Key::Up || is_char(k, 'k') {
        moved(sel, len, false)
    } else if k == Key::Down || is_char(k, 'j') {
        moved(sel, len, true)
    } else if k == Key::PageUp {
        if sel > 10 {
            sel - 10
        } else {
            0
        }
    } else if k == Key::PageDown {
        if len > 0 {
            if sel + 10 < len {
                sel + 10
            } else {
                len - 1
            }
        } else {
            sel
        }
    } else if k == Key::Home {
        0
    } else if k == Key::End {
        if len > 0 {
            len - 1
        } else {
            sel
        }
    } else {
        sel
    }
}

/// Whether `k` moves the cursor.
pub open spec fn is_move_key(k: Key) -> bool {
    k == Key::Up || is_char(k, 'k') || k == Key::Down || is_char(k, 'j') || k == Key::PageUp || k
        == Key::PageDown || k == Key::Home || k == Key::End
}

/// `n` keeps the tree, the directory, the listing and its scroll, the
/// history, the dialog, the options and the display settings of `o`: at
/// most the cursor moved.
pub open spec fn cursor_only(o: AppState, n: AppState) -> bool {
    &&& n.arena == o.arena
    &&& n.current_dir == o.current_dir
    &&& n.visible_children == o.visible_children
    &&& n.scroll_offset == o.scroll_offset
    &&& n.history == o.history
    &&& n.active_dialog == o.active_dialog
    &&& n.args == o.args
    &&& n.filter_query == o.filter_query
    &&& n.refreshing == o.refreshing
}

/// Moves the cursor.
fn move_cursor(code: Key, state: &mut AppState)
    requires
        state_ok(*old(state)),
        is_move_key(code),
    ensures
        state_ok(*final(state)),
        final(state).current_dir == old(state).current_dir,
        final(state).selected_idx == cursor_after(code, old(state).selected_idx as int, old(state).visible_children@.len() as int),
        cursor_only(*old(state), *final(state)),
{
    let len = state.visible_children.len();
    let sel = state.selected_idx;
    if code == Key::Up || code == Key::Char('k') {
        if sel > 0 {
            state.selected_idx = sel - 1;
        }
    } else if code == Key::Down || code == Key::Char('j') {
        if len > 0 && sel < len - 1 {
            state.selected_idx = sel + 1;
        }
    } else if code == Key::PageUp {
        if sel > 10 {
            state.selected_idx = sel - 10;
        } else {
            state.selected_idx = 0;
        }
    } else if code == Key::PageDown {
        if len > 0 {
            if len >= 10 && sel < len - 10 {
                state.selected_idx = sel + 10;
            } else {
                state.selected_idx = len - 1;
            }
        }
    } else if code == Key::Home {
        state.selected_idx = 0;
    } else {
        if len > 0 {
            state.selected_idx = len - 1;
        }
    }
}

/// Opens the selected entry when it is a directory.
fn enter_selected(state: &mut AppState) -> (r: UiAction)
    requires
        state_ok(*old(state)),
        selection_ok(*old(state)),
    ensures
        state_ok(*final(state)),
        ({
            let o = *old(state);
            if o.visible_children@.len() > 0 && o.arena.nodes@[o.visible_children@[o.selected_idx as int].0 as int].spec_is_dir() {
                &&& final(state).current_dir == o.visible_children@[o.selected_idx as int]
                &&& final(state).history@ == o.history@.push((o.current_dir, o.selected_idx))
                &&& final(state).selected_idx == 0
                &&& final(state).scroll_offset == 0
                &&& visible_current(*final(state))
                &&& r is Watch
            } else {
                *final(state) == o && r is Nothing
            }
        }),
{
    if state.visible_children.len() > 0 {
        let id = state.visible_children[state.selected_idx];
        if state.arena.get(id).is_dir() {
            state.history.push((state.current_dir, state.selected_idx));
            state.current_dir = id;
            state.selected_idx = 0;
            state.scroll_offset = 0;
            state.update_visible_children();
            return UiAction::Watch;
        }
    }
    UiAction::Nothing
}

/// Goes back to the directory left last.
fn go_back(state: &mut AppState) -> (r: UiAction)
    requires
        state_ok(*old(state)),
    ensures
        state_ok(*final(state)),
        old(state).history@.len() > 0 ==> ({
            let top = old(state).history@.last();
            &&& final(state).history@ == old(state).history@.drop_last()
            &&& final(state).current_dir == top.0
            &&& final(state).selected_idx == top.1
            &&& final(state).scroll_offset == 0
            &&& visible_current(*final(state))
            &&& r is Watch
        }),
        old(state).history@.len() == 0 ==> r is Nothing && final(state).current_dir == old(state).current_dir
            && final(state).selected_idx == old(state).selected_idx,
{
    match state.history.pop() {
        Some((dir, idx)) => {
            state.current_dir = dir;
            state.selected_idx = idx;
            state.scroll_offset = 0;
            state.update_visible_children();
            UiAction::Watch
        },
        None => UiAction::Nothing,
    }
}

/// The graph mode after `g`.
pub open spec fn next_graph_mode(m: GraphMode) -> GraphMode {
    match m {
        GraphMode::Both => GraphMode::Percent,
        GraphMode::Percent => GraphMode::Graph,
        GraphMode::Graph => GraphMode::Neither,
        GraphMode::Neither => GraphMode::Both,
    }
}

/// The shared column mode after `u`.
pub open spec fn next_shared_mode(m: SharedColumnMode) -> SharedColumnMode {
    match m {
        SharedColumnMode::Off => SharedColumnMode::Shared,
        SharedColumnMode::Shared => SharedColumnMode::Unique,
        SharedColumnMode::Unique => SharedColumnMode::Off,
    }
}

/// Whether `k` is a display toggle or a sort key.
pub open spec fn is_toggle_key(k: Key) -> bool {
    is_char(k, 'n') || is_char(k, 's') || is_char(k, 'C') || is_char(k, 'M') || is_char(k, 't')
        || is_char(k, 'a') || is_char(k, 'g') || is_char(k, 'u') || is_char(k, 'c') || is_char(k, 'm')
        || is_char(k, 'e') || k == Key::Tab || is_char(k, 'p')
}

/// What a display toggle or a sort key does: `n`, `s`, `C` and (in
/// extended mode) `M` sort by name, disk usage, item count and time (the
/// same column again flips the order); `t`, `a` and `e` flip grouping of
/// directories, apparent sizes and hidden entries; each of these relists;
/// `g` and `u` cycle the graph and shared-size columns; `c`, `m` (in
/// extended mode) and Tab/`p` flip the item count, time and preview
/// columns. The tree and the directory stay.
pub open spec fn toggle_effect(code: Key, o: AppState, n: AppState) -> bool {
    &&& n.current_dir == o.current_dir
    &&& n.arena == o.arena
    &&& is_char(code, 'n') ==> n.args.sort@ == toggled_sort(o.args.sort@, "name"@) && visible_current(n)
    &&& is_char(code, 's') ==> n.args.sort@ == toggled_sort(o.args.sort@, "disk-usage"@) && visible_current(n)
    &&& is_char(code, 'C') ==> n.args.sort@ == toggled_sort(o.args.sort@, "itemcount"@) && visible_current(n)
    &&& is_char(code, 'M') && o.args.extended ==> n.args.sort@ == toggled_sort(o.args.sort@, "mtime"@) && visible_current(n)
    &&& is_char(code, 't') ==> n.group_dirs_first == !o.group_dirs_first && visible_current(n)
    &&& is_char(code, 'a') ==> n.apparent_size == !o.apparent_size && visible_current(n)
    &&& is_char(code, 'e') ==> n.show_hidden == !o.show_hidden && visible_current(n)
    &&& is_char(code, 'g') ==> n.graph_mode == next_graph_mode(o.graph_mode)
    &&& is_char(code, 'u') ==> n.shared_column_mode == next_shared_mode(o.shared_column_mode)
    &&& is_char(code, 'c') ==> n.show_itemcount == !o.show_itemcount
    &&& is_char(code, 'm') ==> n.show_mtime == (o.show_mtime != o.args.extended)
    &&& (code == Key::Tab || is_char(code, 'p')) ==> n.show_preview == !o.show_preview
}

/// Handles a display toggle or a sort key (`n`, `s`, `C`, `M`, `t`, `a`,
/// `g`, `u`, `c`, `m`, `e`, Tab, `p`).
fn toggle_keys(code: Key, state: &mut AppState)
    requires
        state_ok(*old(state)),
    ensures
        state_ok(*final(state)),
        toggle_effect(code, *old(state), *final(state)),
{
    if code == Key::Char('n') {
        state.args.sort = toggle_sort(&state.args.sort, "name");
        state.update_visible_children();
    } else if code == Key::Char('s') {
        state.args.sort = toggle_sort(&state.args.sort, "disk-usage");
        state.update_visible_children();
    } else if code == Key::Char('C') {
        state.args.sort = toggle_sort(&state.args.sort, "itemcount");
        state.update_visible_children();
    } else if code == Key::Char('M') {
        if state.args.extended {
            state.args.sort = toggle_sort(&state.args.sort, "mtime");
            state.update_visible_children();
        }
    } else if code == Key::Char('t') {
        state.group_dirs_first = !state.group_dirs_first;
        state.update_visible_children();
    } else if code == Key::Char('a') {
        state.apparent_size = !state.apparent_size;
        state.update_visible_children();
    } else if code == Key::Char('g') {
        state.graph_mode = match state.graph_mode {
            GraphMode::Both => GraphMode::Percent,
            GraphMode::Percent => GraphMode::Graph,
            GraphMode::Graph => GraphMode::Neither,
            GraphMode::Neither => GraphMode::Both,
        };
    } else if code == Key::Char('u') {
        state.shared_column_mode = match state.shared_column_mode {
            SharedColumnMode::Off => SharedColumnMode::Shared,
            SharedColumnMode::Shared => SharedColumnMode::Unique,
            SharedColumnMode::Unique => SharedColumnMode::Off,
        };
    } else if code == Key::Char('c') {
        state.show_itemcount = !state.show_itemcount;
    } else if code == Key::Char('m') {
        if state.args.extended {
            state.show_mtime = !state.show_mtime;
        }
    } else if code == Key::Char('e') {
        state.show_hidden = !state.show_hidden;
        state.update_visible_children();
    } else if code == Key::Tab || code == Key::Char('p') {
        state.show_preview = !state.show_preview;
    }
}

/// What a dialog or action key does: `/` opens the filter input, `V` asks
/// for the drives, `E` opens the extension table of the current directory,
/// `?` the help, `i` the information about the selected entry; `d` asks
/// to confirm the deletion of the selected entry (or asks for it at once
/// without confirmation) when deletion is allowed; `b` asks for a shell in
/// the current directory and `r` for its rescan when allowed; another
/// character bound to a custom action asks to run it on the selected entry.
/// The tree and the directory stay.
pub open spec fn action_effect(code: Key, o: AppState, n: AppState, r: UiAction) -> bool {
    &&& n.arena == o.arena
    &&& n.current_dir == o.current_dir
    &&& is_char(code, '/') ==> (n.active_dialog matches Dialog::FilterInput(q) && q@.len() == 0)
    &&& is_char(code, 'V') ==> r is ListDrives
    &&& is_char(code, 'E') ==> (n.active_dialog matches Dialog::ExtensionAnalytics { stats, selected_idx, scroll_offset }
        && selected_idx == 0 && scroll_offset == 0 && ext_table(o.arena, o.arena.post_order(o.current_dir.0 as int), stats@))
    &&& is_char(code, '?') ==> n.active_dialog == Dialog::Help(HelpPage::Keys)
    &&& is_char(code, 'i') && o.visible_children@.len() > 0 ==> (n.active_dialog matches Dialog::Info(id)
        && id == o.visible_children@[o.selected_idx as int])
    &&& is_char(code, 'd') && delete_allowed(o.args) && o.visible_children@.len() > 0 ==> ({
        let id = o.visible_children@[o.selected_idx as int];
        if !o.args.no_confirm_delete {
            n.active_dialog matches Dialog::ConfirmDelete(x) && x == id && r is Nothing
        } else {
            n == o && (r matches UiAction::DeleteNow { node, path } && node == id && path_is(path, o.arena, id))
        }
    })
    &&& is_char(code, 'd') && !(delete_allowed(o.args) && o.visible_children@.len() > 0) ==> n == o && r is Nothing
    &&& is_char(code, 'i') && o.visible_children@.len() == 0 ==> n == o && r is Nothing
    &&& is_char(code, 'b') ==> n == o
    &&& is_char(code, 'b') && !shell_allowed(o.args) ==> r is Nothing
    &&& is_char(code, 'r') && !(refresh_allowed(o.args) && !o.refreshing) ==> n == o && r is Nothing
    &&& is_char(code, 'V') ==> n == o
    &&& !(code is Char) ==> n == o && r is Nothing
    &&& is_char(code, 'b') && shell_allowed(o.args) ==> (r matches UiAction::Shell(p) && path_is(p, o.arena, o.current_dir))
    &&& is_char(code, 'r') && refresh_allowed(o.args) && !o.refreshing ==> (r matches UiAction::Rescan(p) && path_is(
        p,
        o.arena,
        o.current_dir,
    ) && n.refreshing)
    &&& code matches Key::Char(c) ==> (!is_action_char(c) && o.visible_children@.len() > 0 ==> match action_for(
        o.custom_actions@,
        c,
    ) {
        Some(cmd) => r matches UiAction::RunAction { command, path } && command == cmd && path_is(
            path,
            o.arena,
            o.visible_children@[o.selected_idx as int],
        ),
        None => r is Nothing,
    })
    &&& code matches Key::Char(c) ==> (!is_action_char(c) ==> n == o)
    &&& code matches Key::Char(c) ==> (!is_action_char(c) && o.visible_children@.len() == 0 ==> r is Nothing)
}

/// The characters with an action of their own in the browser.
pub open spec fn is_action_char(c: char) -> bool {
    c == '/' || c == 'V' || c == 'E' || c == '?' || c == 'i' || c == 'd' || c == 'b' || c == 'r'
}

/// Handles a dialog or action key (`/`, `V`, `E`, `?`, `i`, `d`, `b`, `r`,
/// or a custom action's key).
fn action_keys(code: Key, state: &mut AppState) -> (r: UiAction)
    requires
        state_ok(*old(state)),
        selection_ok(*old(state)),
    ensures
        state_ok(*final(state)),
        action_effect(code, *old(state), *final(state), r),
{
    let mut action = UiAction::Nothing;
    if code == Key::Char('/') {
        state.active_dialog = Dialog::FilterInput(String::new());
    } else if code == Key::Char('V') {
        action = UiAction::ListDrives;
    } else if code == Key::Char('E') {
        let stats = calculate_extension_stats(&state.arena, state.current_dir);
        state.active_dialog = Dialog::ExtensionAnalytics { stats, selected_idx: 0, scroll_offset: 0 };
    } else if code == Key::Char('?') {
        state.active_dialog = Dialog::Help(HelpPage::Keys);
    } else if code == Key::Char('i') {
        if state.visible_children.len() > 0 {
            state.active_dialog = Dialog::Info(state.visible_children[state.selected_idx]);
        }
    } else if code == Key::Char('d') {
        if state.allow_delete() && state.visible_children.len() > 0 {
            let id = state.visible_children[state.selected_idx];
            if !state.args.no_confirm_delete {
                state.active_dialog = Dialog::ConfirmDelete(id);
            } else {
                let path = get_node_path(&state.arena, id);
                action = UiAction::DeleteNow { node: id, path };
            }
        }
    } else if code == Key::Char('b') {
        if state.allow_shell() {
            action = UiAction::Shell(get_node_path(&state.arena, state.current_dir));
        }
    } else if code == Key::Char('r') {
        if state.allow_refresh() && !state.refreshing {
            action = UiAction::Rescan(get_node_path(&state.arena, state.current_dir));
            state.refreshing = true;
        }
    } else {
        match code {
            Key::Char(c) => {
                match find_action(&state.custom_actions, c) {
                    Some(command) => {
                        if state.visible_children.len() > 0 {
                            let id = state.visible_children[state.selected_idx];
                            action = UiAction::RunAction { command, path: get_node_path(&state.arena, id) };
                        }
                    },
                    None => {},
                }
            },
            _ => {},
        }
    }
    action
}

/// `n` is `o` after opening the selected entry: a selected directory
/// becomes the current one, the directory left and the cursor position are
/// pushed on the history, and the cursor goes to the top; anything else
/// leaves the state as it was.
pub open spec fn entered(o: AppState, n: AppState) -> bool {
    if o.visible_children@.len() > 0 && o.arena.nodes@[o.visible_children@[o.selected_idx as int].0 as int].spec_is_dir() {
        &&& n.current_dir == o.visible_children@[o.selected_idx as int]
        &&& n.history@ == o.history@.push((o.current_dir, o.selected_idx))
        &&& n.selected_idx == 0
    } else {
        n == o
    }
}

/// `n` is `o` after going back: the directory and cursor position last
/// pushed on the history are restored and popped; with an empty history
/// the directory and cursor stay.
pub open spec fn went_back(o: AppState, n: AppState) -> bool {
    if o.history@.len() > 0 {
        &&& n.current_dir == o.history@.last().0
        &&& n.selected_idx == o.history@.last().1
        &&& n.history@ == o.history@.drop_last()
    } else {
        n.current_dir == o.current_dir && n.selected_idx == o.selected_idx
    }
}

/// Opening a directory and going back returns to the directory and the
/// cursor position left, with the history as it was.
pub proof fn lemma_enter_then_back(s0: AppState, s1: AppState, s2: AppState)
    requires
        s0.visible_children@.len() > 0,
        s0.arena.nodes@[s0.visible_children@[s0.selected_idx as int].0 as int].spec_is_dir(),
        entered(s0, s1),
        went_back(s1, s2),
    ensures
        s2.current_dir == s0.current_dir,
        s2.selected_idx == s0.selected_idx,
        s2.history@ == s0.history@,
{
    assert(s1.history@.drop_last() =~= s0.history@);
}

/// Whether the browser handles `k` itself (search, quit, cursor,
/// directories, toggles) rather than as a dialog or action key.
pub open spec fn browser_own_key(k: Key) -> bool {
    is_char(k, 'f') || is_char(k, 'q') || is_move_key(k) || k == Key::Right || is_char(k, 'l') || k
        == Key::Enter || k == Key::Left || is_char(k, 'h') || k == Key::Backspace || is_toggle_key(k)
}

/// Handles a key in the browser (no dialog shown); `ctrl` tells whether
/// Control was held. Returns `true` when the program should leave, with what
/// it must do.
pub fn handle_browser_keys(code: Key, ctrl: bool, state: &mut AppState) -> (r: (bool, UiAction))
    requires
        state_ok(*old(state)),
        selection_ok(*old(state)),
    ensures
        state_ok(*final(state)),
        r.0 == (is_char(code, 'q') && !old(state).args.confirm_quit),
        is_char(code, 'f') ==> (final(state).active_dialog matches Dialog::FuzzySearch { query, results, selected_idx }
            && query@.len() == 0 && results@.len() == 0 && selected_idx == 0),
        is_char(code, 'q') && old(state).args.confirm_quit ==> final(state).active_dialog is ConfirmQuit,
        is_move_key(code) ==> final(state).selected_idx == cursor_after(code, old(state).selected_idx as int, old(state).visible_children@.len() as int)
            && final(state).current_dir == old(state).current_dir,
        (code == Key::Left || is_char(code, 'h') || code == Key::Backspace) ==> went_back(*old(state), *final(state)),
        (code == Key::Left || is_char(code, 'h') || code == Key::Backspace) && old(state).history@.len() > 0 ==> r.1 is Watch,
        (code == Key::Right || is_char(code, 'l') || code == Key::Enter) ==> entered(*old(state), *final(state)),
        is_move_key(code) ==> cursor_only(*old(state), *final(state)) && r.1 is Nothing,
        is_toggle_key(code) ==> toggle_effect(code, *old(state), *final(state)) && r.1 is Nothing,
        !browser_own_key(code) ==> action_effect(code, *old(state), *final(state), r.1),
{
    if code == Key::Char('f') {
        let _ = ctrl;
        state.active_dialog = Dialog::FuzzySearch { query: String::new(), results: Vec::new(), selected_idx: 0 };
        return (false, UiAction::Nothing);
    }
    if code == Key::Char('q') {
        if state.args.confirm_quit {
            state.active_dialog = Dialog::ConfirmQuit;
            return (false, UiAction::Nothing);
        }
        return (true, UiAction::Nothing);
    }
    if code == Key::Up || code == Key::Char('k') || code == Key::Down || code == Key::Char('j') || code
        == Key::PageUp || code == Key::PageDown || code == Key::Home || code == Key::End {
        move_cursor(code, state);
        return (false, UiAction::Nothing);
    }
    if code == Key::Right || code == Key::Char('l') || code == Key::Enter {
        return (false, enter_selected(state));
    }
    if code == Key::Left || code == Key::Char('h') || code == Key::Backspace {
        return (false, go_back(state));
    }
    if code == Key::Char('n') || code == Key::Char('s') || code == Key::Char('C') || code == Key::Char('M')
        || code == Key::Char('t') || code == Key::Char('a') || code == Key::Char('g') || code
        == Key::Char('u') || code == Key::Char('c') || code == Key::Char('m') || code == Key::Char('e')
        || code == Key::Tab || code == Key::Char('p') {
        toggle_keys(code, state);
        return (false, UiAction::Nothing);
    }
    (false, action_keys(code, state))
}

/// Clamps the cursor into a non-empty listing.
fn clamp_cursor(state: &mut AppState)
    requires
        state_ok(*old(state)),
    ensures
        state_ok(*final(state)),
        final(state).current_dir == old(state).current_dir,
        final(state).arena == old(state).arena,
        final(state).visible_children == old(state).visible_children,
        visible_current(*old(state)) ==> visible_current(*final(state)),
        selection_ok(*final(state)),
        final(state).selected_idx == (if old(state).selected_idx >= old(state).visible_children@.len()
            && old(state).visible_children@.len() > 0 {
            (old(state).visible_children@.len() - 1) as usize
        } else {
            old(state).selected_idx
        }),
{
    let len = state.visible_children.len();
    if state.selected_idx >= len && len > 0 {
        state.selected_idx = len - 1;
    }
}

/// `b` is `a` after the entry `node` was deleted: the deletion that
/// `TreeArena::delete_node` makes (the entry unlinked, its subtree emptied),
/// then the statistics recomputed when they fit.
pub open spec fn removed(a: TreeArena, b: TreeArena, node: NodeId) -> bool {
    exists|mid: TreeArena|
        a.is_deletion(mid, node.0 as int) && mid.len() == b.len() && (forall|i: int|
            0 <= i < mid.len() ==> (#[trigger] b.nodes@[i]).same_but_stats(mid.nodes@[i])) && (
        mid.stats_fit() ==> recalculated(mid, b))
}

/// Removes a deleted entry from the tree: unlinks and empties its subtree,
/// recomputes the statistics and the listing.
fn remove_entry(state: &mut AppState, node: NodeId)
    requires
        state_ok(*old(state)),
        node.0 < old(state).arena.len(),
    ensures
        state_ok(*final(state)),
        final(state).current_dir == old(state).current_dir,
        final(state).selected_idx == old(state).selected_idx,
        visible_current(*final(state)),
        removed(old(state).arena, final(state).arena, node),
{
    state.arena.delete_node(node);
    let ghost mid = state.arena;
    let _ = recalculate_stats(&mut state.arena);
    assert(mid.stats_fit() ==> recalculated(mid, state.arena));
    proof {
        assert forall|i: int| 0 <= i < state.history@.len() implies (#[trigger] state.history@[i]).0.0 < state.arena.len() by {}
    }
    state.update_visible_children();
    proof {
        assert(old(state).arena.is_deletion(mid, node.0 as int));
    }
}

/// After a confirmed deletion succeeded: removes the entry and keeps the
/// cursor in the listing.
pub fn finish_confirmed_delete(state: &mut AppState, node: NodeId)
    requires
        state_ok(*old(state)),
        node.0 < old(state).arena.len(),
    ensures
        state_ok(*final(state)),
        selection_ok(*final(state)),
        visible_current(*final(state)),
        final(state).current_dir == old(state).current_dir,
        removed(old(state).arena, final(state).arena, node),
{
    remove_entry(state, node);
    clamp_cursor(state);
}

/// After a deletion without confirmation, whatever its outcome: removes the
/// entry.
pub fn finish_direct_delete(state: &mut AppState, node: NodeId)
    requires
        state_ok(*old(state)),
        node.0 < old(state).arena.len(),
    ensures
        state_ok(*final(state)),
        visible_current(*final(state)),
        final(state).current_dir == old(state).current_dir,
        final(state).selected_idx == old(state).selected_idx,
        removed(old(state).arena, final(state).arena, node),
{
    remove_entry(state, node);
}

/// Shows the drive selector with the mounted drives listed.
pub fn open_drive_selector(state: &mut AppState, drives: Vec<DriveInfo>)
    requires
        state_ok(*old(state)),
    ensures
        state_ok(*final(state)),
        final(state).active_dialog matches Dialog::DriveSelector { drives: d, selected_idx } && d == drives && selected_idx == 0,
{
    state.active_dialog = Dialog::DriveSelector { drives, selected_idx: 0 };
}

/// After a custom action ran: recomputes the listing, and the directory is
/// to be watched again.
pub fn finish_custom_action(state: &mut AppState) -> (r: UiAction)
    requires
        state_ok(*old(state)),
    ensures
        state_ok(*final(state)),
        visible_current(*final(state)),
        r is Watch,
{
    state.update_visible_children();
    UiAction::Watch
}

/// After a background scan of the current directory ended, with its tree
/// when it succeeded: at the root, the new tree replaces the old one and the
/// cursor goes to the top; below the root, the scanned tree takes the place
/// of the directory's contents (unless the arena would outgrow the index
/// range). The listing is recomputed and the directory is to be watched
/// again.
#[verifier::rlimit(40)]
pub fn finish_rescan(state: &mut AppState, result: Option<crate::tree::arena::TreeArena>) -> (r: UiAction)
    requires
        state_ok(*old(state)),
        result matches Some(a) ==> a.wf(),
    ensures
        state_ok(*final(state)),
        !final(state).refreshing,
        visible_current(*final(state)),
        r is Watch,
        (result is Some && old(state).current_dir == old(state).arena.root) ==> final(state).selected_idx == 0
            && final(state).scroll_offset == 0 && final(state).arena == result.unwrap(),
        result matches Some(a) ==> (old(state).current_dir != old(state).arena.root ==> if old(
            state,
        ).arena.len() + a.len() <= usize::MAX {
            grafted_at(old(state).arena, a, old(state).current_dir.0 as int, final(state).arena)
        } else {
            final(state).arena == old(state).arena
        }),
        result is None ==> final(state).arena == old(state).arena,
        final(state).current_dir == old(state).current_dir,
{
    match result {
        Some(new_arena) => {
            if state.current_dir == state.arena.root {
                state.arena = new_arena;
                state.current_dir = state.arena.root;
                state.selected_idx = 0;
                state.scroll_offset = 0;
                state.history.clear();
                state.active_dialog = Dialog::Closed;
            } else if state.arena.nodes.len() <= usize::MAX - new_arena.nodes.len() {
                state.arena.graft_children(state.current_dir.0, &new_arena);
            }
        },
        None => {},
    }
    state.refreshing = false;
    state.update_visible_children();
    UiAction::Watch
}

/// `n` is `o` after a left click on screen row `row` (the first row is
/// the header): a click on a listed row selects it; a click on the row
/// already selected opens it when it is a directory, pushing the directory
/// left and the cursor on the history; any other click changes nothing.
pub open spec fn clicked(o: AppState, n: AppState, row: int) -> bool {
    let at = o.scroll_offset + row - 1;
    if row >= 1 && at < o.visible_children@.len() {
        if o.selected_idx == at {
            let id = o.visible_children@[at];
            if o.arena.nodes@[id.0 as int].spec_is_dir() {
                &&& n.arena == o.arena
                &&& n.current_dir == id
                &&& n.history@ == o.history@.push((o.current_dir, o.selected_idx))
                &&& n.selected_idx == 0
                &&& n.scroll_offset == 0
                &&& visible_current(n)
                &&& n.active_dialog == o.active_dialog
            } else {
                n == o
            }
        } else {
            cursor_only(o, n) && n.selected_idx == at
        }
    } else {
        n == o
    }
}

/// A mouse event as the browser reads it.
#[derive(Clone, Copy, Debug, PartialEq, Eq, Structural)]
pub enum Mouse {
    ScrollUp,
    ScrollDown,
    /// The left button pressed on the given screen row.
    LeftClick(u16),
    /// Any other event.
    Other,
}

/// Handles a mouse event in the browser: the wheel moves the cursor; a
/// click selects a row of the listing (the first screen row is the header),
/// a click on the selected row opens it when it is a directory.
pub fn handle_mouse_event(ev: Mouse, state: &mut AppState)
    requires
        state_ok(*old(state)),
        selection_ok(*old(state)),
    ensures
        state_ok(*final(state)),
        !(old(state).active_dialog is Closed) ==> *final(state) == *old(state),
        old(state).active_dialog is Closed && ev == Mouse::ScrollUp ==> final(state).selected_idx == moved(old(state).selected_idx as int, old(state).visible_children@.len() as int, false),
        old(state).active_dialog is Closed && ev == Mouse::ScrollDown ==> final(state).selected_idx == moved(old(state).selected_idx as int, old(state).visible_children@.len() as int, true),
        old(state).active_dialog is Closed && (ev is ScrollUp || ev is ScrollDown) ==> cursor_only(*old(state), *final(state)),
        old(state).active_dialog is Closed && ev is Other ==> *final(state) == *old(state),
        old(state).active_dialog is Closed ==> match ev {
            Mouse::LeftClick(row) => clicked(*old(state), *final(state), row as int),
            _ => true,
        },
{
    match state.active_dialog {
        Dialog::Closed => {},
        _ => {
            return;
        },
    }
    match ev {
        Mouse::ScrollUp => {
            if state.selected_idx > 0 {
                state.selected_idx = state.selected_idx - 1;
            }
        },
        Mouse::ScrollDown => {
            let len = state.visible_children.len();
            if len > 0 && state.selected_idx < len - 1 {
                state.selected_idx = state.selected_idx + 1;
            }
        },
        Mouse::LeftClick(row) => {
            let listed = state.visible_children.len();
            let list_row = row as usize;
            if list_row >= 1 && state.scroll_offset <= usize::MAX - list_row {
                let clicked = state.scroll_offset + (list_row - 1);
                if clicked < listed {
                    if state.selected_idx == clicked {
                        let id = state.visible_children[clicked];
                        if state.arena.get(id).is_dir() {
                            state.history.push((state.current_dir, state.selected_idx));
                            state.current_dir = id;
                            state.selected_idx = 0;
                            state.scroll_offset = 0;
                            state.update_visible_children();
                        }
                    } else {
                        state.selected_idx = clicked;
                    }
                }
            }
        },
        Mouse::Other => {},
    }
}

} // verus!
