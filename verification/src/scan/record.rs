use vstd::prelude::*;

use crate::scan::{PlatformMetadata, ScanOptions, ScanStats};
use crate::tree::arena::TreeArena;
use crate::tree::node::{EntryFlags, NodeId, TreeNode};
use crate::tree::stats::AggregateStats;

verus! {

/// Whether an entry with metadata `meta` met under `parent` lies on another
/// filesystem than its parent while the scan keeps to one filesystem.
pub open spec fn crosses_fs(arena: TreeArena, parent: NodeId, meta: PlatformMetadata, one_fs: bool) -> bool {
    one_fs && meta.dev != arena.nodes@[parent.0 as int].dev
}

/// The flags of an entry that is not a directory: not a regular file, and
/// carrying more than one hard link.
pub open spec fn file_flag_bits(is_file: bool, nlink: u32) -> u16 {
    (if is_file { 0u16 } else { 64u16 }) | (if nlink > 1 { 128u16 } else { 0u16 })
}

/// Whether `n` is the node recorded for the entry `name` with metadata
/// `meta` under `parent`, with the flag bits `bits`; `sized` tells whether
/// it keeps the entry's sizes and link count (files) or not (directories).
pub open spec fn recorded_as(
    n: TreeNode,
    parent: NodeId,
    name: Seq<char>,
    meta: PlatformMetadata,
    bits: u16,
    sized: bool,
) -> bool {
    &&& n.name@ == name
    &&& n.dev == meta.dev
    &&& n.ino == meta.ino
    &&& n.extended == meta.extended
    &&& n.parent == Some(parent)
    &&& n.children@.len() == 0
    &&& n.stats == AggregateStats::zero()
    &&& n.flags.bits == bits
    &&& if sized {
        n.asize == meta.asize && n.dsize == meta.dsize && n.nlink == meta.nlink
    } else {
        n.asize == 0 && n.dsize == 0 && n.nlink == 1
    }
}

/// Records one entry a scan met in the directory `parent_id`, as its last
/// child. An entry on another filesystem (when the scan keeps to one) is
/// recorded as a directory flagged `OTHER_FS` and neither counted nor
/// entered. Any other entry is counted, its disk usage added to the running
/// size; a directory is recorded with no size and its index returned, to be
/// scanned next; anything else is recorded with its sizes and link count,
/// flagged `NOT_REG` when it is not a regular file and `HARD_LINK` when it
/// has more than one link.
pub fn record_entry(
    arena: &mut TreeArena,
    parent_id: NodeId,
    name: String,
    meta: &PlatformMetadata,
    is_dir: bool,
    is_file: bool,
    opts: &ScanOptions,
    stats: &mut ScanStats,
) -> (r: Option<NodeId>)
    requires
        parent_id.0 < old(arena).nodes@.len(),
        old(arena).nodes@.len() < usize::MAX,
        !crosses_fs(*old(arena), parent_id, *meta, opts.one_file_system) ==> {
            &&& old(stats).items_scanned < u64::MAX
            &&& i64::MIN <= old(stats).size_scanned + meta.dsize <= i64::MAX
        },
    ensures
        ({
            let id = old(arena).nodes@.len() as int;
            let n = final(arena).nodes@[id];
            &&& final(arena).nodes@.len() == id + 1
            &&& final(arena).root == old(arena).root
            &&& final(arena).nodes@[parent_id.0 as int].children@ == old(
                arena,
            ).nodes@[parent_id.0 as int].children@.push(NodeId(id as usize))
            &&& final(arena).nodes@[parent_id.0 as int].same_but_children(
                old(arena).nodes@[parent_id.0 as int],
            )
            &&& forall|i: int|
                0 <= i < id && i != parent_id.0 ==> final(arena).nodes@[i] == old(arena).nodes@[i]
            &&& old(arena).wf() ==> final(arena).wf()
            &&& if crosses_fs(*old(arena), parent_id, *meta, opts.one_file_system) {
                &&& recorded_as(n, parent_id, name@, *meta, 17, false)
                &&& r is None
                &&& final(stats).items_scanned == old(stats).items_scanned
                &&& final(stats).size_scanned == old(stats).size_scanned
            } else {
                &&& final(stats).items_scanned == old(stats).items_scanned + 1
                &&& final(stats).size_scanned == old(stats).size_scanned + meta.dsize
                &&& if is_dir {
                    recorded_as(n, parent_id, name@, *meta, 1, false) && r == Some(
                        NodeId(id as usize),
                    )
                } else {
                    recorded_as(n, parent_id, name@, *meta, file_flag_bits(is_file, meta.nlink), true)
                        && r is None
                }
            }
        }),
        ({
            let n = final(arena).nodes@[old(arena).nodes@.len() as int];
            &&& crosses_fs(*old(arena), parent_id, *meta, opts.one_file_system) ==> n.spec_is_dir()
                && EntryFlags::has(n.flags.bits, EntryFlags::OTHER_FS)
            &&& !crosses_fs(*old(arena), parent_id, *meta, opts.one_file_system) && is_dir ==> n.spec_is_dir()
                && !EntryFlags::has(n.flags.bits, EntryFlags::OTHER_FS)
            &&& !crosses_fs(*old(arena), parent_id, *meta, opts.one_file_system) && !is_dir ==> !n.spec_is_dir()
                && (EntryFlags::has(n.flags.bits, EntryFlags::HARD_LINK) <==> meta.nlink > 1)
                && (EntryFlags::has(n.flags.bits, EntryFlags::NOT_REG) <==> !is_file)
        }),
{
    let parent_dev = arena.get(parent_id).dev;
    if opts.one_file_system && meta.dev != parent_dev {
        let child = TreeNode::new_dir(
            name,
            meta.dev,
            meta.ino,
            EntryFlags::from_bits(EntryFlags::OTHER_FS),
            meta.extended,
        );
        assert(16u16 | 1u16 == 17u16) by (bit_vector);
        assert(17u16 & 1u16 == 1u16 && 17u16 & 16u16 == 16u16) by (bit_vector);
        arena.add_child(parent_id, child);
        return None;
    }
    stats.items_scanned = stats.items_scanned + 1;
    stats.size_scanned = stats.size_scanned + meta.dsize;
    if is_dir {
        let child = TreeNode::new_dir(name, meta.dev, meta.ino, EntryFlags::empty(), meta.extended);
        assert(0u16 | 1u16 == 1u16) by (bit_vector);
        assert(1u16 & 1u16 == 1u16 && 1u16 & 16u16 != 16u16) by (bit_vector);
        let child_id = arena.add_child(parent_id, child);
        Some(child_id)
    } else {
        let mut flags = EntryFlags::empty();
        if !is_file {
            flags.insert(EntryFlags::NOT_REG);
        }
        if meta.nlink > 1 {
            flags.insert(EntryFlags::HARD_LINK);
        }
        proof {
            assert(0u16 | 64u16 == 64u16) by (bit_vector);
            assert(0u16 | 128u16 == 128u16) by (bit_vector);
            assert(64u16 | 0u16 == 64u16) by (bit_vector);
            assert(0u16 | 0u16 == 0u16) by (bit_vector);
        }
        let ghost gname = name@;
        let ghost id = old(arena).nodes@.len() as int;
        let child = TreeNode::new_file(
            name,
            meta.asize,
            meta.dsize,
            meta.dev,
            meta.ino,
            meta.nlink,
            flags,
            meta.extended,
        );
        arena.add_child(parent_id, child);
        proof {
            assert(recorded_as(arena.nodes@[id], parent_id, gname, *meta, file_flag_bits(is_file, meta.nlink), true));
            lemma_recorded_file_flags(arena.nodes@[id], parent_id, gname, *meta, is_file);
        }
        None
    }
}

} // verus!

verus! {

/// The node recorded for an entry that is neither a directory nor on
/// another filesystem is flagged a hard link exactly when the entry has more
/// than one link, and not regular exactly when it is not a regular file,
/// each whatever the other is; it carries no other flag.
pub proof fn lemma_recorded_file_flags(
    n: TreeNode,
    parent: NodeId,
    name: Seq<char>,
    meta: PlatformMetadata,
    is_file: bool,
)
    requires
        recorded_as(n, parent, name, meta, file_flag_bits(is_file, meta.nlink), true),
    ensures
        EntryFlags::has(n.flags.bits, EntryFlags::HARD_LINK) <==> meta.nlink > 1,
        EntryFlags::has(n.flags.bits, EntryFlags::NOT_REG) <==> !is_file,
        n.flags.bits & !(EntryFlags::HARD_LINK | EntryFlags::NOT_REG) == 0,
        !n.spec_is_dir(),
        n.nlink == meta.nlink,
{
    let b = n.flags.bits;
    if is_file {
        if meta.nlink > 1 {
            assert(b == 128u16) by (bit_vector) requires b == (0u16 | 128u16);
            assert(b & 128u16 == 128u16 && b & 64u16 != 64u16 && b & !(128u16 | 64u16) == 0 && b & 1u16 != 1u16) by (bit_vector)
                requires b == 128u16;
        } else {
            assert(b == 0u16) by (bit_vector) requires b == (0u16 | 0u16);
            assert(b & 128u16 != 128u16 && b & 64u16 != 64u16 && b & !(128u16 | 64u16) == 0 && b & 1u16 != 1u16) by (bit_vector)
                requires b == 0u16;
        }
    } else {
        if meta.nlink > 1 {
            assert(b == 192u16) by (bit_vector) requires b == (64u16 | 128u16);
            assert(b & 128u16 == 128u16 && b & 64u16 == 64u16 && b & !(128u16 | 64u16) == 0 && b & 1u16 != 1u16) by (bit_vector)
                requires b == 192u16;
        } else {
            assert(b == 64u16) by (bit_vector) requires b == (64u16 | 0u16);
            assert(b & 128u16 != 128u16 && b & 64u16 == 64u16 && b & !(128u16 | 64u16) == 0 && b & 1u16 != 1u16) by (bit_vector)
                requires b == 64u16;
        }
    }
}

} // verus!
