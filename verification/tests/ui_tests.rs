use rusdu::cli::Args;
use rusdu::tree::stats::recalculate_stats;
use rusdu::tree::{EntryFlags, TreeArena, TreeNode};
use rusdu::ui::actions::{custom_shell_command, delete_command_line, editor_command, load_custom_actions, parse_action_line};
use rusdu::ui::listing::{clamp_scroll, flag_char, shown_size};
use rusdu::ui::keys::{finish_confirmed_delete, finish_rescan, handle_browser_keys, handle_dialog_keys, handle_mouse_event, Key, Mouse, UiAction};
use rusdu::ui::nav::{calculate_extension_stats, fuzzy_match, join_path, update_fuzzy_results};
use rusdu::ui::state::{toggle_sort, AppState, Dialog, GraphMode, HelpPage, SharedColumnMode};

fn tree() -> TreeArena {
    let root = TreeNode::new_dir("/data".to_string(), 1, 1, EntryFlags::empty(), None);
    let mut arena = TreeArena::new(root);
    let r = arena.root;
    let docs = arena.add_child(r, TreeNode::new_dir("docs".to_string(), 1, 2, EntryFlags::empty(), None));
    arena.add_child(docs, TreeNode::new_file("big.pdf".to_string(), 9000, 12288, 1, 3, 1, EntryFlags::empty(), None));
    arena.add_child(r, TreeNode::new_file("a.txt".to_string(), 10, 4096, 1, 4, 1, EntryFlags::empty(), None));
    recalculate_stats(&mut arena).unwrap();
    arena
}

fn state() -> AppState {
    AppState::new(tree(), Args::default(), load_custom_actions(None))
}

#[test]
fn new_state_lists_the_root_children_smallest_first() {
    let s = state();
    assert_eq!(s.visible_children.len(), 2);
    assert_eq!(s.arena.get(s.visible_children[0]).name, "a.txt");
    assert_eq!(s.arena.get(s.visible_children[1]).name, "docs");
    assert_eq!(s.graph_mode, GraphMode::Both);
    assert_eq!(s.shared_column_mode, SharedColumnMode::Shared);
    assert!(matches!(s.active_dialog, Dialog::Closed));
}

#[test]
fn graph_and_shared_modes_follow_the_options() {
    let mut a = Args::default();
    a.hide_graph = true;
    a.shared_column = "off".to_string();
    let s = AppState::new(tree(), a, Vec::new());
    assert_eq!(s.graph_mode, GraphMode::Percent);
    assert_eq!(s.shared_column_mode, SharedColumnMode::Off);
    let mut b = Args::default();
    b.hide_graph = true;
    b.hide_percent = true;
    b.shared_column = "unique".to_string();
    let t = AppState::new(tree(), b, Vec::new());
    assert_eq!(t.graph_mode, GraphMode::Neither);
    assert_eq!(t.shared_column_mode, SharedColumnMode::Unique);
}

#[test]
fn enter_and_back_restore_the_cursor() {
    let mut s = state();
    // Enter on a file does nothing
    handle_browser_keys(Key::Enter, false, &mut s);
    assert_eq!(s.current_dir, s.arena.root);
    let (quit, _) = handle_browser_keys(Key::Down, false, &mut s);
    assert!(!quit);
    assert_eq!(s.selected_idx, 1);
    handle_browser_keys(Key::Down, false, &mut s);
    assert_eq!(s.selected_idx, 1);
    handle_browser_keys(Key::Enter, false, &mut s);
    assert_eq!(s.arena.get(s.current_dir).name, "docs");
    assert_eq!(s.visible_children.len(), 1);
    assert_eq!(s.selected_idx, 0);
    assert_eq!(s.history.len(), 1);
    handle_browser_keys(Key::Left, false, &mut s);
    assert_eq!(s.current_dir, s.arena.root);
    assert_eq!(s.selected_idx, 1);
    assert!(s.history.is_empty());
}

#[test]
fn quit_key_quits_unless_confirmation_is_asked() {
    let mut s = state();
    let (quit, _) = handle_browser_keys(Key::Char('q'), false, &mut s);
    assert!(quit);
    let mut a = Args::default();
    a.confirm_quit = true;
    let mut t = AppState::new(tree(), a, Vec::new());
    let (quit2, _) = handle_browser_keys(Key::Char('q'), false, &mut t);
    assert!(!quit2);
    assert!(matches!(t.active_dialog, Dialog::ConfirmQuit));
}

#[test]
fn toggles_and_dialogs() {
    let mut s = state();
    handle_browser_keys(Key::Char('g'), false, &mut s);
    assert_eq!(s.graph_mode, GraphMode::Percent);
    handle_browser_keys(Key::Char('u'), false, &mut s);
    assert_eq!(s.shared_column_mode, SharedColumnMode::Unique);
    handle_browser_keys(Key::Char('n'), false, &mut s);
    assert_eq!(s.args.sort, "name-desc");
    handle_browser_keys(Key::Char('n'), false, &mut s);
    assert_eq!(s.args.sort, "name-asc");
    handle_browser_keys(Key::Char('?'), false, &mut s);
    assert!(matches!(s.active_dialog, Dialog::Help(HelpPage::Keys)));
    handle_dialog_keys(Key::Right, &mut s);
    assert!(matches!(s.active_dialog, Dialog::Help(HelpPage::Format)));
    handle_dialog_keys(Key::Esc, &mut s);
    assert!(matches!(s.active_dialog, Dialog::Closed));
    handle_browser_keys(Key::Char('f'), false, &mut s);
    assert!(matches!(s.active_dialog, Dialog::FuzzySearch { .. }));
}

#[test]
fn delete_asks_then_removes_the_entry() {
    let mut s = state();
    let target = s.visible_children[0];
    handle_browser_keys(Key::Char('d'), false, &mut s);
    assert!(matches!(s.active_dialog, Dialog::ConfirmDelete(n) if n == target));
    let (_, action) = handle_dialog_keys(Key::Char('y'), &mut s);
    match action {
        UiAction::DeleteConfirmed { node, path, read_only } => {
            assert_eq!(node, target);
            assert_eq!(path, vec!["/data", "a.txt"]);
            assert!(!read_only);
        },
        other => panic!("unexpected action {:?}", other),
    }
    finish_confirmed_delete(&mut s, target);
    assert_eq!(s.visible_children.len(), 1);
    assert_eq!(s.selected_idx, 0);
    assert_eq!(s.arena.get(s.arena.root).stats.total_asize, 9000);
}

#[test]
fn sort_toggle_flips_direction() {
    assert_eq!(toggle_sort(&"disk-usage".to_string(), "disk-usage"), "disk-usage-desc");
    assert_eq!(toggle_sort(&"disk-usage-desc".to_string(), "disk-usage"), "disk-usage-asc");
    assert_eq!(toggle_sort(&"name-asc".to_string(), "name"), "name-desc");
    assert_eq!(toggle_sort(&"name-asc".to_string(), "itemcount"), "itemcount-desc");
}

#[test]
fn fuzzy_match_and_paths() {
    assert!(fuzzy_match("Big.PDF", "bpdf"));
    assert!(!fuzzy_match("abc", "acb"));
    assert_eq!(join_path(&vec!["/data".to_string(), "docs".to_string()]), "/data/docs");
}

#[test]
fn custom_actions_defaults_and_overrides() {
    let none = load_custom_actions(None);
    let find = |v: &Vec<(char, String)>, c: char| v.iter().find(|(k, _)| *k == c).map(|(_, s)| s.clone());
    assert_eq!(find(&none, 'c'), Some("copy".to_string()));
    assert_eq!(find(&none, 'o'), Some("open".to_string()));
    assert_eq!(find(&none, 'v'), Some("editor".to_string()));
    let lines = vec![
        "# comment".to_string(),
        " x = echo {path} ".to_string(),
        "o=xdg-open".to_string(),
        "ab=nope".to_string(),
        "no equals".to_string(),
    ];
    let some = load_custom_actions(Some(lines));
    assert_eq!(find(&some, 'x'), Some("echo {path}".to_string()));
    assert_eq!(find(&some, 'o'), Some("xdg-open".to_string()));
    assert_eq!(find(&some, 'a'), None);
    assert_eq!(some.len(), 4);
}

#[test]
fn action_lines() {
    assert_eq!(parse_action_line("k = ls -l"), Some(('k', "ls -l".to_string())));
    assert_eq!(parse_action_line("k=a=b"), Some(('k', "a=b".to_string())));
    assert_eq!(parse_action_line("é=x"), None);
    assert_eq!(parse_action_line("#k=x"), None);
    assert_eq!(parse_action_line("   "), None);
}

#[test]
fn shell_and_editor_commands() {
    assert_eq!(custom_shell_command("cp {path} {path}.bak", "/a b"), "cp /a b /a b.bak");
    assert_eq!(custom_shell_command("du -sh", "/x"), "du -sh \"/x\"");
    let (prog, args) = editor_command("code  --wait", "/f");
    assert_eq!(prog, "code");
    assert_eq!(args, vec!["--wait", "/f"]);
    let (prog2, args2) = editor_command("   ", "/f");
    assert_eq!(prog2, "   ");
    assert_eq!(args2, vec!["/f"]);
}

#[test]
fn delete_command_quotes_the_path() {
    assert_eq!(delete_command_line("trash-put", "/a/b"), "trash-put '/a/b'");
    assert_eq!(delete_command_line("rm -rf", "/it's"), "rm -rf '/it'\\''s'");
}

#[test]
fn listing_helpers() {
    assert_eq!(flag_char(EntryFlags::empty()), ' ');
    assert_eq!(flag_char(EntryFlags::from_bits(EntryFlags::HARD_LINK | EntryFlags::NOT_REG)), '@');
    assert_eq!(flag_char(EntryFlags::from_bits(EntryFlags::READ_ERROR | EntryFlags::EXCLUDED)), '!');
    assert_eq!(flag_char(EntryFlags::from_bits(EntryFlags::OTHER_FS | EntryFlags::IS_DIR)), '>');
    // selected row below the window: the window moves just enough
    assert_eq!(clamp_scroll(12, 0, 10, 30), 3);
    // selected row above the window
    assert_eq!(clamp_scroll(2, 5, 10, 30), 2);
    // everything fits
    assert_eq!(clamp_scroll(4, 3, 10, 8), 0);
    // the window stays full at the end
    assert_eq!(clamp_scroll(25, 25, 10, 30), 20);
    let arena = tree();
    let docs = arena.get(arena.root).children[0];
    assert_eq!(shown_size(arena.get(docs), true), 9000);
    assert_eq!(shown_size(arena.get(docs), false), 12288);
}

#[test]
fn fuzzy_results_follow_names_and_paths() {
    let arena = tree();
    let r = update_fuzzy_results(&arena, "  PDF ");
    assert_eq!(r.len(), 1);
    assert_eq!(arena.get(r[0].0).name, "big.pdf");
    assert_eq!(r[0].1, "/data/docs/big.pdf");
    // a slash in the query passes into a directory
    let p = update_fuzzy_results(&arena, "d/b");
    assert_eq!(p.len(), 1);
    assert_eq!(arena.get(p[0].0).name, "big.pdf");
    assert!(update_fuzzy_results(&arena, "   ").is_empty());
    assert!(update_fuzzy_results(&arena, "zzz").is_empty());
}

#[test]
fn fuzzy_results_stop_at_fifty() {
    let root = TreeNode::new_dir("/r".to_string(), 1, 1, EntryFlags::empty(), None);
    let mut arena = TreeArena::new(root);
    let r = arena.root;
    for i in 0..60 {
        arena.add_child(r, TreeNode::new_file(format!("f{}.log", i), 1, 1, 1, 10 + i, 1, EntryFlags::empty(), None));
    }
    let hits = update_fuzzy_results(&arena, "log");
    assert_eq!(hits.len(), 50);
    assert_eq!(arena.get(hits[0].0).name, "f0.log");
    assert_eq!(arena.get(hits[49].0).name, "f49.log");
}

#[test]
fn extension_totals() {
    let root = TreeNode::new_dir("/r".to_string(), 1, 1, EntryFlags::empty(), None);
    let mut arena = TreeArena::new(root);
    let r = arena.root;
    let d = arena.add_child(r, TreeNode::new_dir("d".to_string(), 1, 2, EntryFlags::empty(), None));
    arena.add_child(d, TreeNode::new_file("a.PDF".to_string(), 1, 100, 1, 3, 1, EntryFlags::empty(), None));
    arena.add_child(r, TreeNode::new_file("b.pdf".to_string(), 1, 200, 1, 4, 1, EntryFlags::empty(), None));
    arena.add_child(r, TreeNode::new_file("README".to_string(), 1, 50, 1, 5, 1, EntryFlags::empty(), None));
    arena.add_child(r, TreeNode::new_file("c.txt".to_string(), 1, 10, 1, 6, 1, EntryFlags::empty(), None));
    let stats = calculate_extension_stats(&arena, r);
    assert_eq!(
        stats,
        vec![("pdf".to_string(), 300), ("no extension".to_string(), 50), ("txt".to_string(), 10)]
    );
    assert_eq!(calculate_extension_stats(&arena, d), vec![("pdf".to_string(), 100)]);
}

#[test]
fn listing_follows_the_sort_key() {
    let root = TreeNode::new_dir("/r".to_string(), 1, 1, EntryFlags::empty(), None);
    let mut arena = TreeArena::new(root);
    let r = arena.root;
    arena.add_child(r, TreeNode::new_file("f10".to_string(), 5, 5, 1, 2, 1, EntryFlags::empty(), None));
    arena.add_child(r, TreeNode::new_file("f2".to_string(), 50, 50, 1, 3, 1, EntryFlags::empty(), None));
    arena.add_child(r, TreeNode::new_dir("z".to_string(), 1, 4, EntryFlags::empty(), None));
    recalculate_stats(&mut arena).unwrap();
    let mut a = Args::default();
    a.sort = "name".to_string();
    let s = AppState::new(arena, a, Vec::new());
    let names: Vec<String> = s.visible_children.iter().map(|&id| s.arena.get(id).name.clone()).collect();
    assert_eq!(names, vec!["f2", "f10", "z"]);
    let mut t = s;
    t.group_dirs_first = true;
    t.update_visible_children();
    let names2: Vec<String> = t.visible_children.iter().map(|&id| t.arena.get(id).name.clone()).collect();
    assert_eq!(names2, vec!["z", "f2", "f10"]);
    t.args.sort = "disk-usage-desc".to_string();
    t.group_dirs_first = false;
    t.update_visible_children();
    let names3: Vec<String> = t.visible_children.iter().map(|&id| t.arena.get(id).name.clone()).collect();
    assert_eq!(names3, vec!["f2", "f10", "z"]);
}

#[test]
fn rescan_below_the_root_replaces_the_directory_contents() {
    let mut s = state();
    handle_browser_keys(Key::Down, false, &mut s);
    handle_browser_keys(Key::Enter, false, &mut s);
    let docs = s.current_dir;
    assert_eq!(s.arena.get(docs).name, "docs");

    let mut fresh = TreeArena::new(TreeNode::new_dir("docs".to_string(), 1, 2, EntryFlags::empty(), None));
    let fr = fresh.root;
    let sub = fresh.add_child(fr, TreeNode::new_dir("new".to_string(), 1, 5, EntryFlags::empty(), None));
    fresh.add_child(sub, TreeNode::new_file("x.bin".to_string(), 1, 4096, 1, 6, 1, EntryFlags::empty(), None));
    fresh.add_child(fr, TreeNode::new_file("y.bin".to_string(), 2, 4096, 1, 7, 1, EntryFlags::empty(), None));

    let before = s.arena.nodes.len();
    let action = finish_rescan(&mut s, Some(fresh));
    assert!(matches!(action, UiAction::Watch));
    assert!(!s.refreshing);
    assert_eq!(s.current_dir, docs);
    assert_eq!(s.arena.nodes.len(), before + 3);
    let kids: Vec<usize> = s.arena.get(docs).children.iter().map(|c| c.0).collect();
    assert_eq!(kids, vec![before, before + 2]);
    assert_eq!(s.arena.get(rusdu::tree::NodeId(before)).name, "new");
    assert_eq!(s.arena.get(rusdu::tree::NodeId(before)).parent, Some(docs));
    assert_eq!(s.arena.get(rusdu::tree::NodeId(before)).children[0].0, before + 1);
    assert_eq!(s.arena.get(rusdu::tree::NodeId(before + 1)).name, "x.bin");
    assert_eq!(s.arena.get(rusdu::tree::NodeId(before + 2)).parent, Some(docs));
    assert_eq!(s.visible_children.len(), 2);
}

#[test]
fn rescan_at_the_root_replaces_the_tree() {
    let mut s = state();
    let fresh = TreeArena::new(TreeNode::new_dir("/data".to_string(), 1, 1, EntryFlags::empty(), None));
    finish_rescan(&mut s, Some(fresh));
    assert_eq!(s.arena.nodes.len(), 1);
    assert_eq!(s.selected_idx, 0);
    assert!(s.visible_children.is_empty());
    let mut t = state();
    let n = t.arena.nodes.len();
    finish_rescan(&mut t, None);
    assert_eq!(t.arena.nodes.len(), n);
}

#[test]
fn clicks_select_then_open_a_directory() {
    let mut s = state();
    // Row 0 is the header: nothing happens.
    handle_mouse_event(Mouse::LeftClick(0), &mut s);
    assert_eq!(s.selected_idx, 0);
    // The second listed entry ("docs") sits on screen row 2.
    handle_mouse_event(Mouse::LeftClick(2), &mut s);
    assert_eq!(s.selected_idx, 1);
    assert_eq!(s.current_dir, s.arena.root);
    handle_mouse_event(Mouse::LeftClick(2), &mut s);
    assert_eq!(s.arena.get(s.current_dir).name, "docs");
    assert_eq!(s.history.len(), 1);
    assert_eq!(s.selected_idx, 0);
    // A click below the listing changes nothing.
    handle_mouse_event(Mouse::LeftClick(9), &mut s);
    assert_eq!(s.selected_idx, 0);
}

#[test]
fn delete_key_asks_for_confirmation_and_movement_keeps_the_rest() {
    let mut s = state();
    let before_history = s.history.len();
    handle_browser_keys(Key::PageDown, false, &mut s);
    assert_eq!(s.selected_idx, 1);
    assert_eq!(s.history.len(), before_history);
    assert!(matches!(s.active_dialog, Dialog::Closed));
    let (quit, action) = handle_browser_keys(Key::Char('d'), false, &mut s);
    assert!(!quit);
    assert!(matches!(action, UiAction::Nothing));
    let id = s.visible_children[1];
    assert!(matches!(s.active_dialog, Dialog::ConfirmDelete(x) if x == id));
}
