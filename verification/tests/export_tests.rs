use rusdu::export::bin_link::build_tree;
use rusdu::export::bin_read::{import_bin, BinError, ItemFields};
use rusdu::export::bin_write::export_bin;
use rusdu::export::json_read::{import_json, JsonError};
use rusdu::export::json_write::export_json;
use rusdu::export::{import_file, ImportError};
use rusdu::tree::{EntryFlags, ExtendedInfo, TreeArena, TreeNode};

fn mock_tree() -> TreeArena {
    let root_node = TreeNode::new_dir(
        "root".to_string(),
        1,
        100,
        EntryFlags::empty(),
        Some(ExtendedInfo { mtime: 123456, uid: 1000, gid: 1000, mode: 0o755 }),
    );
    let mut arena = TreeArena::new(root_node);
    let root_id = arena.root;

    let child_dir = TreeNode::new_dir("child_dir".to_string(), 1, 101, EntryFlags::empty(), None);
    let child_dir_id = arena.add_child(root_id, child_dir);

    let file_1 = TreeNode::new_file(
        "file_1.txt".to_string(),
        500,
        512,
        1,
        201,
        1,
        EntryFlags::empty(),
        None,
    );
    arena.add_child(child_dir_id, file_1);

    let hard_link = TreeNode::new_file(
        "file_1_hard.txt".to_string(),
        500,
        512,
        1,
        201,
        2,
        EntryFlags::from_bits(EntryFlags::HARD_LINK),
        None,
    );
    arena.add_child(child_dir_id, hard_link);
    arena
}

#[test]
fn test_json_and_binary_roundtrip() {
    let mut arena = mock_tree();
    rusdu::tree::stats::recalculate_stats(&mut arena).unwrap();

    let json_bytes = export_json(&arena);
    let imported_json_arena = import_json(&json_bytes).unwrap();

    assert_eq!(imported_json_arena.nodes.len(), arena.nodes.len());
    assert_eq!(imported_json_arena.get(imported_json_arena.root).name.as_str(), "root");

    let children = &imported_json_arena.get(imported_json_arena.root).children;
    assert_eq!(children.len(), 1);
    let child_dir_node = imported_json_arena.get(children[0]);
    assert_eq!(child_dir_node.name.as_str(), "child_dir");
    assert_eq!(child_dir_node.children.len(), 2);

    let bin_bytes = export_bin(&arena, 64, 1).unwrap();
    let imported_bin_arena = import_bin(&bin_bytes).unwrap();

    assert_eq!(imported_bin_arena.nodes.len(), arena.nodes.len());
    assert_eq!(imported_bin_arena.get(imported_bin_arena.root).name.as_str(), "root");

    let root_bin = imported_bin_arena.get(imported_bin_arena.root);
    assert_eq!(root_bin.extended.as_ref().unwrap().mtime, 123456);

    let bin_children = &root_bin.children;
    assert_eq!(bin_children.len(), 1);
    let bin_child_dir_node = imported_bin_arena.get(bin_children[0]);
    assert_eq!(bin_child_dir_node.name.as_str(), "child_dir");
    assert_eq!(bin_child_dir_node.children.len(), 2);

    let bin_file_1 = imported_bin_arena.get(bin_child_dir_node.children[0]);
    assert_eq!(bin_file_1.name.as_str(), "file_1.txt");
    assert_eq!(bin_file_1.asize, 500);
    assert_eq!(bin_file_1.dsize, 512);

    let bin_hard_link = imported_bin_arena.get(bin_child_dir_node.children[1]);
    assert_eq!(bin_hard_link.name.as_str(), "file_1_hard.txt");
    assert!(bin_hard_link.flags.contains(EntryFlags::HARD_LINK));
}

#[test]
fn import_file_reads_both_formats() {
    let mut arena = mock_tree();
    rusdu::tree::stats::recalculate_stats(&mut arena).unwrap();
    let from_json = import_file(export_json(&arena)).unwrap();
    let from_bin = import_file(export_bin(&arena, 64, 3).unwrap()).unwrap();
    for t in [&from_json, &from_bin] {
        let root = t.get(t.root);
        // only the entry flagged as a hard link is counted once per inode
        assert_eq!(root.stats.total_asize, 1000);
        assert_eq!(root.stats.total_dsize, 1024);
        assert_eq!(root.stats.item_count, 4);
        assert_eq!(root.stats.file_count, 2);
    }
}

#[test]
fn json_import_errors() {
    assert_eq!(import_json(b"not json").err(), Some(JsonError::Parse));
    assert_eq!(import_json(b"{}").err(), Some(JsonError::NotArray));
    assert_eq!(import_json(b"[1, 0, {}]").err(), Some(JsonError::BadLayout));
    assert_eq!(import_json(b"[\"1\", 0, {}, {\"name\": \"x\"}]").err(), Some(JsonError::InvalidVersion));
    assert_eq!(import_json(b"[2, 0, {}, {\"name\": \"x\"}]").err(), Some(JsonError::UnsupportedVersion));
    assert_eq!(import_json(b"[1, 0, {}, []]").err(), Some(JsonError::EmptyDir));
    assert_eq!(import_json(b"[1, 0, {}, 5]").err(), Some(JsonError::BadEntry));
}

#[test]
fn json_import_of_a_single_file_gives_an_empty_placeholder() {
    let a = import_json(b"[1, 2, {}, {\"name\": \"f\", \"asize\": 7, \"dsize\": 4096}]").unwrap();
    assert_eq!(a.nodes.len(), 1);
    let root = a.get(a.root);
    assert_eq!(root.name.as_str(), "");
    assert!(root.is_dir());
    assert_eq!(root.asize, 0);
}

#[test]
fn json_import_keeps_entry_fields() {
    let doc = b"[1, 2, {}, [{\"name\": \"r\", \"ino\": 5}, {\"name\": \"f\", \"asize\": 7, \"dsize\": 4096, \"notreg\": true, \"mtime\": 9}]]";
    let a = import_json(doc).unwrap();
    assert_eq!(a.nodes.len(), 2);
    let root = a.get(a.root);
    assert_eq!(root.name.as_str(), "r");
    assert_eq!(root.ino, 5);
    let f = a.get(root.children[0]);
    assert_eq!(f.name.as_str(), "f");
    assert_eq!(f.asize, 7);
    assert_eq!(f.dsize, 4096);
    assert!(f.flags.contains(EntryFlags::NOT_REG));
    assert_eq!(f.extended.unwrap().mtime, 9);
    assert_eq!(root.stats.total_dsize, 4096);
    assert_eq!(root.stats.latest_mtime, 9);
}

#[test]
fn import_file_errors() {
    assert_eq!(import_file(b"[]".to_vec()).err(), Some(ImportError::Json(JsonError::BadLayout)));
    // zstd magic bytes followed by garbage
    assert_eq!(
        import_file(vec![0x28, 0xb5, 0x2f, 0xfd, 1, 2, 3]).err(),
        Some(ImportError::Decompression)
    );
    // binary signature, then a block header too short for its trailer
    let mut short = vec![0xbf, 0x6e, 0x63, 0x64, 0x75, 0x45, 0x58, 0x31];
    short.extend_from_slice(&[0, 0, 0, 4]);
    assert_eq!(import_file(short).err(), Some(ImportError::ShortBlock));
}

#[test]
fn bin_import_errors() {
    let sig = [0xbf, 0x6e, 0x63, 0x64, 0x75, 0x45, 0x58, 0x31];
    assert_eq!(import_bin(&[0xbf, 0x6e]).err(), Some(BinError::TooShort));

    let mut bad = vec![1u8, 0, 0, 0, 0, 0, 0, 0, 0, 0xff, 0xff, 0xff, 0, 0, 0, 0];
    assert_eq!(import_bin(&bad).err(), Some(BinError::BadSignature));

    bad[..8].copy_from_slice(&sig);
    assert_eq!(import_bin(&bad).err(), Some(BinError::MalformedBlockLength));

    let mut skipped = sig.to_vec();
    skipped.extend_from_slice(&[0x20, 0, 0, 8, 0x20, 0, 0, 8]);
    assert_eq!(import_bin(&skipped).err(), Some(BinError::NoIndex));
}

#[test]
fn json_export_compressed_or_plain() {
    let mut arena = mock_tree();
    rusdu::tree::stats::recalculate_stats(&mut arena).unwrap();
    let plain = rusdu::export::export_json(&arena, false, 4).unwrap();
    assert_eq!(plain[0], b'[');
    let packed = rusdu::export::export_json(&arena, true, 4).unwrap();
    assert_eq!(&packed[..4], &[0x28, 0xb5, 0x2f, 0xfd]);
    let back = import_file(packed).unwrap();
    assert_eq!(back.nodes.len(), arena.nodes.len());
}

#[test]
fn json_roundtrip_keeps_nesting() {
    let mut arena = mock_tree();
    let root_id = arena.root;
    let second = TreeNode::new_dir("second".to_string(), 1, 102, EntryFlags::empty(), None);
    let second_id = arena.add_child(root_id, second);
    let inner = TreeNode::new_file("inner.bin".to_string(), 3, 4096, 1, 301, 1, EntryFlags::empty(), None);
    arena.add_child(second_id, inner);
    let tail = TreeNode::new_file("tail".to_string(), 1, 4096, 1, 302, 1, EntryFlags::empty(), None);
    arena.add_child(root_id, tail);
    rusdu::tree::stats::recalculate_stats(&mut arena).unwrap();

    let b = import_json(&export_json(&arena)).unwrap();
    assert_eq!(b.nodes.len(), 7);
    let names: Vec<&str> = b.nodes.iter().map(|n| n.name.as_str()).collect();
    assert_eq!(
        names,
        vec!["root", "child_dir", "file_1.txt", "file_1_hard.txt", "second", "inner.bin", "tail"]
    );
    let root = b.get(b.root);
    let kids: Vec<usize> = root.children.iter().map(|c| c.0).collect();
    assert_eq!(kids, vec![1, 4, 6]);
    let child_kids: Vec<usize> = b.get(root.children[0]).children.iter().map(|c| c.0).collect();
    assert_eq!(child_kids, vec![2, 3]);
    let second_kids: Vec<usize> = b.get(root.children[1]).children.iter().map(|c| c.0).collect();
    assert_eq!(second_kids, vec![5]);
    assert!(b.get(root.children[2]).children.is_empty());
    assert_eq!(b.get(root.children[1]).stats.total_dsize, 4096);
}

fn item(item_type: i32, name: &str, prev: Option<i64>, sub: Option<u64>) -> ItemFields {
    ItemFields {
        item_type,
        name: name.to_string(),
        prev,
        asize: 7,
        dsize: 4096,
        dev: 0,
        rderr: false,
        ino: 0,
        nlink: 1,
        uid: None,
        gid: None,
        mode: None,
        mtime: None,
        sub,
    }
}

#[test]
fn build_tree_links_children_through_sibling_chains() {
    let items = vec![
        (0usize, item(1, "root", None, Some(10))),
        (10usize, item(0, "a", None, None)),
        (20usize, item(0, "b", Some(-10), None)),
        (30usize, item(1, "d", Some(-10), Some(40))),
        (40usize, item(0, "e", None, None)),
    ];
    let a = build_tree(&items, 0, 0).unwrap();
    assert_eq!(a.nodes.len(), 5);
    let names: Vec<&str> = a.nodes.iter().map(|n| n.name.as_str()).collect();
    assert_eq!(names, vec!["root", "a", "b", "d", "e"]);
    let root_kids: Vec<usize> = a.get(a.root).children.iter().map(|c| c.0).collect();
    assert_eq!(root_kids, vec![1, 2, 3]);
    let d_kids: Vec<usize> = a.get(rusdu::tree::NodeId(3)).children.iter().map(|c| c.0).collect();
    assert_eq!(d_kids, vec![4]);
    assert_eq!(a.get(a.root).stats.total_dsize, 3 * 4096);
}

#[test]
fn build_tree_errors() {
    assert_eq!(build_tree(&Vec::new(), 0, 0).err(), Some(BinError::NoItems));
    let one = vec![(0usize, item(1, "root", None, None))];
    assert_eq!(build_tree(&one, 0, 5).err(), Some(BinError::RootMissing));
    let cycle = vec![
        (0usize, item(1, "root", None, Some(10))),
        (10usize, item(0, "a", Some(10), None)),
        (20usize, item(0, "b", Some(-10), None)),
    ];
    assert_eq!(build_tree(&cycle, 0, 0).err(), Some(BinError::MalformedLinks));
    let selfref = vec![(0usize, item(1, "root", None, Some(0)))];
    assert_eq!(build_tree(&selfref, 0, 0).err(), Some(BinError::MalformedLinks));
    let other_block = vec![(0usize, item(1, "root", None, Some((1u64 << 24) | 10))), (10usize, item(0, "a", None, None))];
    assert_eq!(build_tree(&other_block, 0, 0).unwrap().nodes.len(), 1);
}

#[test]
fn json_export_writes_dev_where_it_differs_from_the_parent() {
    let mut arena = mock_tree();
    let root_id = arena.root;
    let mount = TreeNode::new_dir("mnt".to_string(), 7, 900, EntryFlags::empty(), None);
    let mount_id = arena.add_child(root_id, mount);
    let inside = TreeNode::new_file("inside".to_string(), 1, 1, 7, 901, 1, EntryFlags::empty(), None);
    arena.add_child(mount_id, inside);

    let doc: serde_json::Value = serde_json::from_slice(&export_json(&arena)).unwrap();
    let root = &doc[3];
    assert_eq!(root[0]["dev"], serde_json::Value::from(1u64));
    let child_dir = &root[1];
    assert!(child_dir[0].get("dev").is_none());
    assert!(child_dir[1].get("dev").is_none());
    let mnt = &root[2];
    assert_eq!(mnt[0]["name"], "mnt");
    assert_eq!(mnt[0]["dev"], serde_json::Value::from(7u64));
    assert!(mnt[1].get("dev").is_none());
}
