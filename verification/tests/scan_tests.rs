use rusdu::cli::Args;
use rusdu::scan::record::record_entry;
use rusdu::scan::{PlatformMetadata, ScanOptions, ScanStats, DEFAULT_THREADS};
use rusdu::tree::{EntryFlags, TreeArena, TreeNode};

fn meta(dev: u64, ino: u64, nlink: u32, dsize: i64) -> PlatformMetadata {
    PlatformMetadata { asize: 100, dsize, dev, ino, nlink, extended: None }
}

#[test]
fn options_from_the_command_line() {
    let a = Args::try_parse_from(&["rusdu", "-x", "--exclude", "*.o", "-t", "4", "-e"]).unwrap();
    let o = ScanOptions::from_args(&a);
    assert!(o.one_file_system);
    assert_eq!(o.exclude_patterns, vec!["*.o"]);
    assert_eq!(o.threads, 4);
    assert!(o.extended);
    let d = ScanOptions::from_args(&Args::default());
    assert_eq!(d.threads, DEFAULT_THREADS);
    assert!(d.exclude_from.is_none());
}

#[test]
fn unix_metadata() {
    let m = PlatformMetadata::from_unix(1234, 8, 7, 42, 3, 99, 1000, 100, 0o644, true);
    assert_eq!(m.asize, 1234);
    assert_eq!(m.dsize, 4096);
    assert_eq!(m.dev, 7);
    assert_eq!(m.ino, 42);
    assert_eq!(m.nlink, 3);
    assert_eq!(m.extended.unwrap().mtime, 99);
    let n = PlatformMetadata::from_unix(1, 1, 1, 1, 1, 5, 0, 0, 0, false);
    assert!(n.extended.is_none());
}

#[test]
fn recording_entries() {
    let root = TreeNode::new_dir("/".to_string(), 1, 1, EntryFlags::empty(), None);
    let mut arena = TreeArena::new(root);
    let mut stats = ScanStats::default();
    let mut opts = ScanOptions::from_args(&Args::default());
    opts.one_file_system = true;
    let r = arena.root;

    let d = record_entry(&mut arena, r, "sub".to_string(), &meta(1, 2, 1, 4096), true, false, &opts, &mut stats);
    assert!(d.is_some());
    let d = d.unwrap();
    assert!(arena.get(d).is_dir());
    assert_eq!(arena.get(d).dsize, 0);

    let f = record_entry(&mut arena, d, "link".to_string(), &meta(1, 3, 2, 512), false, false, &opts, &mut stats);
    assert!(f.is_none());
    let file = arena.get(arena.get(d).children[0]);
    assert_eq!(file.dsize, 512);
    assert!(file.flags.contains(EntryFlags::NOT_REG));
    assert!(file.flags.contains(EntryFlags::HARD_LINK));

    let other = record_entry(&mut arena, r, "mnt".to_string(), &meta(2, 9, 1, 4096), true, false, &opts, &mut stats);
    assert!(other.is_none());
    let m = arena.get(arena.get(r).children[1]);
    assert!(m.flags.contains(EntryFlags::OTHER_FS));
    assert!(m.is_dir());

    assert_eq!(stats.items_scanned, 2);
    assert_eq!(stats.size_scanned, 4096 + 512);
    assert_eq!(arena.nodes.len(), 4);
}
