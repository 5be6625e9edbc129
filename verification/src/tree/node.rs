use vstd::prelude::*;

use crate::tree::stats::AggregateStats;

verus! {

/// Index of a node inside a `TreeArena`.
#[derive(Clone, Copy, Debug, PartialEq, Eq, Structural, Hash)]
pub struct NodeId(pub usize);

/// Set of per-entry flags, one bit each.
#[derive(Clone, Copy, Debug, PartialEq, Eq, Structural, Hash)]
pub struct EntryFlags {
    pub bits: u16,
}

impl EntryFlags {
    /// The entry is a directory.
    pub const IS_DIR: u16 = 1;
    /// The entry could not be read (`!`).
    pub const READ_ERROR: u16 = 2;
    /// An entry below this directory could not be read (`.`).
    pub const SUB_ERROR: u16 = 4;
    /// The entry was excluded (`<`).
    pub const EXCLUDED: u16 = 8;
    /// The entry lives on another filesystem (`>`).
    pub const OTHER_FS: u16 = 16;
    /// The entry is on a kernel pseudo filesystem (`F`).
    pub const KERNFS: u16 = 32;
    /// The entry is not a regular file (`@`).
    pub const NOT_REG: u16 = 64;
    /// The entry is a file with more than one hard link (`H`).
    pub const HARD_LINK: u16 = 128;
    /// The entry is an empty directory (`e`).
    pub const EMPTY_DIR: u16 = 256;

    /// Whether every bit of `other` is set in `bits`.
    pub open spec fn has(bits: u16, other: u16) -> bool {
        bits & other == other
    }

    /// The set with no flag.
    pub fn empty() -> (r: EntryFlags)
        ensures
            r.bits == 0,
    {
        EntryFlags { bits: 0 }
    }

    /// The set holding exactly the flags whose bits are set in `bits`.
    pub fn from_bits(bits: u16) -> (r: EntryFlags)
        ensures
            r.bits == bits,
    {
        EntryFlags { bits }
    }

    /// Whether every flag of `other` (a mask of the constants above) is in `self`.
    pub fn contains(&self, other: u16) -> (r: bool)
        ensures
            r == Self::has(self.bits, other),
    {
        self.bits & other == other
    }

    /// Adds the flags of the mask `other`.
    pub fn insert(&mut self, other: u16)
        ensures
            final(self).bits == old(self).bits | other,
    {
        self.bits = self.bits | other;
    }

    /// The union of `self` and the mask `other`.
    pub fn union(&self, other: u16) -> (r: EntryFlags)
        ensures
            r.bits == self.bits | other,
    {
        EntryFlags { bits: self.bits | other }
    }
}

/// Ownership, permission and time information kept in extended mode.
#[derive(Clone, Copy, Debug, PartialEq, Eq, Structural)]
pub struct ExtendedInfo {
    /// Unix timestamp of the last modification.
    pub mtime: i64,
    pub uid: u32,
    pub gid: u32,
    pub mode: u32,
}

/// One file or directory of the tree.
#[derive(Debug)]
pub struct TreeNode {
    /// File or directory name (not the full path).
    pub name: String,
    /// Apparent size in bytes.
    pub asize: i64,
    /// Disk usage in bytes.
    pub dsize: i64,
    /// Device number (for cross-filesystem detection).
    pub dev: u64,
    /// Inode number (for hard link detection).
    pub ino: u64,
    /// Hard link count.
    pub nlink: u32,
    pub flags: EntryFlags,
    /// Extended information, present only in extended mode.
    pub extended: Option<ExtendedInfo>,
    /// Children (directories only), as indices into the arena.
    pub children: Vec<NodeId>,
    /// Parent index.
    pub parent: Option<NodeId>,
    /// Aggregated statistics of the subtree.
    pub stats: AggregateStats,
}

impl TreeNode {
    /// Whether the node carries the directory flag.
    pub open spec fn spec_is_dir(&self) -> bool {
        EntryFlags::has(self.flags.bits, 1)
    }

    /// Whether `self` and `other` agree on every field but `children`.
    pub open spec fn same_but_children(&self, other: TreeNode) -> bool {
        &&& self.name@ == other.name@
        &&& self.asize == other.asize
        &&& self.dsize == other.dsize
        &&& self.dev == other.dev
        &&& self.ino == other.ino
        &&& self.nlink == other.nlink
        &&& self.flags == other.flags
        &&& self.extended == other.extended
        &&& self.parent == other.parent
        &&& self.stats == other.stats
    }

    /// Whether `self` agrees with `other` on every field but `stats`.
    pub open spec fn same_but_stats(&self, other: TreeNode) -> bool {
        &&& self.name@ == other.name@
        &&& self.asize == other.asize
        &&& self.dsize == other.dsize
        &&& self.dev == other.dev
        &&& self.ino == other.ino
        &&& self.nlink == other.nlink
        &&& self.flags == other.flags
        &&& self.extended == other.extended
        &&& self.children@ == other.children@
        &&& self.parent == other.parent
    }

    /// `self` is `other` emptied by a deletion: no children, empty name, no size,
    /// no extended information, zero statistics; the other fields are kept.
    pub open spec fn cleared_from(&self, other: TreeNode) -> bool {
        &&& self.children@.len() == 0
        &&& self.name@.len() == 0
        &&& self.extended is None
        &&& self.asize == 0
        &&& self.dsize == 0
        &&& self.stats == AggregateStats::zero()
        &&& self.dev == other.dev
        &&& self.ino == other.ino
        &&& self.nlink == other.nlink
        &&& self.flags == other.flags
        &&& self.parent == other.parent
    }

    /// A file node, with no children, no parent and zeroed statistics.
    pub fn new_file(
        name: String,
        asize: i64,
        dsize: i64,
        dev: u64,
        ino: u64,
        nlink: u32,
        flags: EntryFlags,
        extended: Option<ExtendedInfo>,
    ) -> (r: TreeNode)
        ensures
            r.name@ == name@,
            r.asize == asize,
            r.dsize == dsize,
            r.dev == dev,
            r.ino == ino,
            r.nlink == nlink,
            r.flags == flags,
            r.extended == extended,
            r.children@.len() == 0,
            r.parent is None,
            r.stats == AggregateStats::zero(),
    {
        TreeNode {
            name,
            asize,
            dsize,
            dev,
            ino,
            nlink,
            flags,
            extended,
            children: Vec::new(),
            parent: None,
            stats: AggregateStats::default(),
        }
    }

    /// A directory node: sizes 0, one link, the directory flag added to `flags`.
    pub fn new_dir(
        name: String,
        dev: u64,
        ino: u64,
        flags: EntryFlags,
        extended: Option<ExtendedInfo>,
    ) -> (r: TreeNode)
        ensures
            r.name@ == name@,
            r.asize == 0,
            r.dsize == 0,
            r.dev == dev,
            r.ino == ino,
            r.nlink == 1,
            r.flags.bits == flags.bits | 1,
            r.extended == extended,
            r.children@.len() == 0,
            r.parent is None,
            r.stats == AggregateStats::zero(),
            r.spec_is_dir(),
    {
        let f = flags.union(EntryFlags::IS_DIR);
        let b: u16 = flags.bits;
        assert((b | 1u16) & 1u16 == 1u16) by (bit_vector);
        TreeNode {
            name,
            asize: 0,
            dsize: 0,
            dev,
            ino,
            nlink: 1,
            flags: f,
            extended,
            children: Vec::new(),
            parent: None,
            stats: AggregateStats::default(),
        }
    }

    /// Whether the node is a directory.
    pub fn is_dir(&self) -> (r: bool)
        ensures
            r == self.spec_is_dir(),
    {
        self.flags.contains(EntryFlags::IS_DIR)
    }
}

} // verus!
