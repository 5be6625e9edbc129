use rusdu::tree::stats::recalculate_stats;
use rusdu::tree::{EntryFlags, TreeArena, TreeNode};
use rusdu::ui::state::get_node_path;

#[test]
fn test_tree_arena_add_and_delete() {
    let root = TreeNode::new_dir("root".to_string(), 1, 10, EntryFlags::empty(), None);
    let mut arena = TreeArena::new(root);

    let child1 = TreeNode::new_file(
        "child1.txt".to_string(),
        100,
        512,
        1,
        20,
        1,
        EntryFlags::empty(),
        None,
    );
    let child1_id = arena.add_child(arena.root, child1);

    let sub_dir = TreeNode::new_dir("subdir".to_string(), 1, 30, EntryFlags::empty(), None);
    let sub_dir_id = arena.add_child(arena.root, sub_dir);

    let grand_child = TreeNode::new_file(
        "gc.txt".to_string(),
        200,
        512,
        1,
        40,
        1,
        EntryFlags::empty(),
        None,
    );
    let grand_child_id = arena.add_child(sub_dir_id, grand_child);

    assert_eq!(arena.get(arena.root).children.len(), 2);
    assert_eq!(arena.get(sub_dir_id).children.len(), 1);

    arena.delete_node(sub_dir_id);

    assert_eq!(arena.get(arena.root).children.len(), 1);
    assert_eq!(arena.get(arena.root).children[0], child1_id);
    assert_eq!(arena.get(grand_child_id).asize, 0);
}

fn sample_tree() -> TreeArena {
    let root = TreeNode::new_dir("root".to_string(), 1, 10, EntryFlags::empty(), None);
    let mut arena = TreeArena::new(root);
    let r = arena.root;
    arena.add_child(r, TreeNode::new_file("a".to_string(), 100, 512, 1, 20, 1, EntryFlags::empty(), None));
    let d = arena.add_child(r, TreeNode::new_dir("d".to_string(), 1, 30, EntryFlags::empty(), None));
    arena.add_child(
        d,
        TreeNode::new_file("h1".to_string(), 300, 4096, 1, 50, 2, EntryFlags::from_bits(EntryFlags::HARD_LINK), None),
    );
    arena.add_child(
        d,
        TreeNode::new_file("h2".to_string(), 300, 4096, 1, 50, 2, EntryFlags::from_bits(EntryFlags::HARD_LINK), None),
    );
    arena
}

#[test]
fn stats_sum_subtrees_and_count_hard_links_once() {
    let mut arena = sample_tree();
    assert!(recalculate_stats(&mut arena).is_ok());
    let root = arena.get(arena.root);
    assert_eq!(root.stats.total_asize, 400);
    assert_eq!(root.stats.total_dsize, 4608);
    assert_eq!(root.stats.item_count, 5);
    assert_eq!(root.stats.dir_count, 2);
    assert_eq!(root.stats.file_count, 3);
    let d = arena.get(root.children[1]);
    assert_eq!(d.stats.total_asize, 300);
    assert_eq!(d.stats.total_dsize, 4096);
}

#[test]
fn stats_after_delete_drop_the_subtree() {
    let mut arena = sample_tree();
    let d = arena.get(arena.root).children[1];
    arena.delete_node(d);
    assert!(recalculate_stats(&mut arena).is_ok());
    let root = arena.get(arena.root);
    assert_eq!(root.stats.total_asize, 100);
    assert_eq!(root.stats.total_dsize, 512);
    assert_eq!(root.children.len(), 1);
}

#[test]
fn node_path_lists_names_from_the_root() {
    let arena = sample_tree();
    let d = arena.get(arena.root).children[1];
    let h2 = arena.get(d).children[1];
    assert_eq!(get_node_path(&arena, h2), vec!["root", "d", "h2"]);
    assert_eq!(get_node_path(&arena, arena.root), vec!["root"]);
}

#[test]
fn flags_insert_and_contain() {
    let mut f = EntryFlags::empty();
    assert!(!f.contains(EntryFlags::NOT_REG));
    f.insert(EntryFlags::NOT_REG);
    f.insert(EntryFlags::HARD_LINK);
    assert!(f.contains(EntryFlags::NOT_REG));
    assert!(f.contains(EntryFlags::HARD_LINK));
    assert_eq!(f.bits, 64 | 128);
    let d = TreeNode::new_dir("x".to_string(), 1, 2, EntryFlags::empty(), None);
    assert!(d.is_dir());
    assert_eq!(d.nlink, 1);
}

#[test]
fn a_second_statistics_pass_changes_nothing() {
    let mut a = sample_tree();
    recalculate_stats(&mut a).unwrap();
    let first: Vec<_> = a.nodes.iter().map(|n| n.stats).collect();
    recalculate_stats(&mut a).unwrap();
    let second: Vec<_> = a.nodes.iter().map(|n| n.stats).collect();
    assert_eq!(first, second);
}
