use vstd::prelude::*;

use crate::export::cbor_read::{
    cbor_decoded, decode_cbor_item, entries_view, CborItem, CborScalar, CborScalarV,
};
use crate::export::compress::{zstd_decode, zstd_decompressed};
use crate::export::bin_write::bin_signature;
use crate::export::bin_link::{
    build_tree, built_from, item_walk, kids_of, last_at, node_matches, nodes_from_items,
};
use crate::tree::arena::TreeArena;
use crate::tree::node::{EntryFlags, ExtendedInfo, TreeNode};
use std::collections::HashMap;

verus! {

/// The fields of one item of a binary export, as read.
#[derive(Debug)]
pub struct ItemFields {
    pub item_type: i32,
    pub name: String,
    pub prev: Option<i64>,
    pub asize: i64,
    pub dsize: i64,
    pub dev: u64,
    pub rderr: bool,
    pub ino: u64,
    pub nlink: u32,
    pub uid: Option<u32>,
    pub gid: Option<u32>,
    pub mode: Option<u32>,
    pub mtime: Option<i64>,
    pub sub: Option<u64>,
}

/// The mathematical value of `ItemFields`.
pub struct ItemFieldsV {
    pub item_type: i32,
    pub name: Seq<char>,
    pub prev: Option<i64>,
    pub asize: i64,
    pub dsize: i64,
    pub dev: u64,
    pub rderr: bool,
    pub ino: u64,
    pub nlink: u32,
    pub uid: Option<u32>,
    pub gid: Option<u32>,
    pub mode: Option<u32>,
    pub mtime: Option<i64>,
    pub sub: Option<u64>,
}

impl View for ItemFields {
    type V = ItemFieldsV;

    open spec fn view(&self) -> ItemFieldsV {
        ItemFieldsV {
            item_type: self.item_type,
            name: self.name@,
            prev: self.prev,
            asize: self.asize,
            dsize: self.dsize,
            dev: self.dev,
            rderr: self.rderr,
            ino: self.ino,
            nlink: self.nlink,
            uid: self.uid,
            gid: self.gid,
            mode: self.mode,
            mtime: self.mtime,
            sub: self.sub,
        }
    }
}

/// `i` when it lies in `[lo, hi]`, else `d` (an integer conversion that
/// falls back to a default).
pub open spec fn in_or(i: int, lo: int, hi: int, d: int) -> int {
    if lo <= i <= hi {
        i
    } else {
        d
    }
}

/// The fields before any entry is read.
pub open spec fn default_fields() -> ItemFieldsV {
    ItemFieldsV {
        item_type: 0,
        name: Seq::empty(),
        prev: None,
        asize: 0,
        dsize: 0,
        dev: 0,
        rderr: false,
        ino: 0,
        nlink: 1,
        uid: None,
        gid: None,
        mode: None,
        mtime: None,
        sub: None,
    }
}

/// The effect of one map entry: an integer key selects a field (keys that do
/// not fit a byte select nothing); a value of the wrong kind is ignored; an
/// integer that does not fit its field takes the field's fallback.
pub open spec fn apply_entry(f: ItemFieldsV, k: CborScalarV, v: CborScalarV) -> ItemFieldsV {
    match k {
        CborScalarV::Int(ki) => {
            let key = in_or(ki as int, 0, 255, 255);
            match v {
                CborScalarV::Int(i) => {
                    let i = i as int;
                    if key == 0 {
                        ItemFieldsV { item_type: in_or(i, i32::MIN as int, i32::MAX as int, 0) as i32, ..f }
                    } else if key == 2 {
                        ItemFieldsV { prev: Some(in_or(i, i64::MIN as int, i64::MAX as int, 0) as i64), ..f }
                    } else if key == 3 {
                        ItemFieldsV { asize: in_or(i, i64::MIN as int, i64::MAX as int, 0) as i64, ..f }
                    } else if key == 4 {
                        ItemFieldsV { dsize: in_or(i, i64::MIN as int, i64::MAX as int, 0) as i64, ..f }
                    } else if key == 5 {
                        ItemFieldsV { dev: in_or(i, 0, u64::MAX as int, 0) as u64, ..f }
                    } else if key == 12 {
                        ItemFieldsV { sub: Some(in_or(i, 0, u64::MAX as int, 0) as u64), ..f }
                    } else if key == 13 {
                        ItemFieldsV { ino: in_or(i, 0, u64::MAX as int, 0) as u64, ..f }
                    } else if key == 14 {
                        ItemFieldsV { nlink: in_or(i, 0, u32::MAX as int, 1) as u32, ..f }
                    } else if key == 15 {
                        ItemFieldsV { uid: Some(in_or(i, 0, u32::MAX as int, 0) as u32), ..f }
                    } else if key == 16 {
                        ItemFieldsV { gid: Some(in_or(i, 0, u32::MAX as int, 0) as u32), ..f }
                    } else if key == 17 {
                        ItemFieldsV { mode: Some(in_or(i, 0, u32::MAX as int, 0) as u32), ..f }
                    } else if key == 18 {
                        ItemFieldsV { mtime: Some(in_or(i, i64::MIN as int, i64::MAX as int, 0) as i64), ..f }
                    } else {
                        f
                    }
                },
                CborScalarV::Text(t) => if key == 1 {
                    ItemFieldsV { name: t, ..f }
                } else {
                    f
                },
                CborScalarV::Bool(b) => if key == 6 {
                    ItemFieldsV { rderr: b, ..f }
                } else {
                    f
                },
                CborScalarV::Other => f,
            }
        },
        _ => f,
    }
}

/// The fields read from the entries of an item map, in order.
pub open spec fn fields_of(entries: Seq<(CborScalarV, CborScalarV)>) -> ItemFieldsV
    decreases entries.len(),
{
    if entries.len() == 0 {
        default_fields()
    } else {
        let last = entries.last();
        apply_entry(fields_of(entries.drop_last()), last.0, last.1)
    }
}

fn i128_in(i: i128, lo: i128, hi: i128, d: i128) -> (r: i128)
    ensures
        r == in_or(i as int, lo as int, hi as int, d as int),
{
    if lo <= i && i <= hi {
        i
    } else {
        d
    }
}

/// Applies one map entry to the fields read so far.
fn apply_entry_exec(f: &mut ItemFields, k: &CborScalar, v: &CborScalar)
    ensures
        final(f)@ == apply_entry(old(f)@, k@, v@),
{
    let ki = match k {
        CborScalar::Int(ki) => *ki,
        _ => return,
    };
    let key = i128_in(ki, 0, 255, 255);
    match v {
        CborScalar::Int(i) => {
            let i = *i;
            if key == 0 {
                f.item_type = i128_in(i, i32::MIN as i128, i32::MAX as i128, 0) as i32;
            } else if key == 2 {
                f.prev = Some(i128_in(i, i64::MIN as i128, i64::MAX as i128, 0) as i64);
            } else if key == 3 {
                f.asize = i128_in(i, i64::MIN as i128, i64::MAX as i128, 0) as i64;
            } else if key == 4 {
                f.dsize = i128_in(i, i64::MIN as i128, i64::MAX as i128, 0) as i64;
            } else if key == 5 {
                f.dev = i128_in(i, 0, u64::MAX as i128, 0) as u64;
            } else if key == 12 {
                f.sub = Some(i128_in(i, 0, u64::MAX as i128, 0) as u64);
            } else if key == 13 {
                f.ino = i128_in(i, 0, u64::MAX as i128, 0) as u64;
            } else if key == 14 {
                f.nlink = i128_in(i, 0, u32::MAX as i128, 1) as u32;
            } else if key == 15 {
                f.uid = Some(i128_in(i, 0, u32::MAX as i128, 0) as u32);
            } else if key == 16 {
                f.gid = Some(i128_in(i, 0, u32::MAX as i128, 0) as u32);
            } else if key == 17 {
                f.mode = Some(i128_in(i, 0, u32::MAX as i128, 0) as u32);
            } else if key == 18 {
                f.mtime = Some(i128_in(i, i64::MIN as i128, i64::MAX as i128, 0) as i64);
            }
        },
        CborScalar::Text(t) => {
            if key == 1 {
                f.name = t.clone();
            }
        },
        CborScalar::Bool(b) => {
            if key == 6 {
                f.rderr = *b;
            }
        },
        CborScalar::Other => {},
    }
}

/// Reads the fields of an item from the entries of its map, in order.
pub fn read_fields(entries: &Vec<(CborScalar, CborScalar)>) -> (r: ItemFields)
    ensures
        r@ == fields_of(entries_view(entries@)),
{
    let mut f = ItemFields {
        item_type: 0,
        name: String::new(),
        prev: None,
        asize: 0,
        dsize: 0,
        dev: 0,
        rderr: false,
        ino: 0,
        nlink: 1,
        uid: None,
        gid: None,
        mode: None,
        mtime: None,
        sub: None,
    };
    let mut i: usize = 0;
    while i < entries.len()
        invariant
            i <= entries@.len(),
            f@ == fields_of(entries_view(entries@.subrange(0, i as int))),
        decreases entries@.len() - i,
    {
        let (k, v) = &entries[i];
        apply_entry_exec(&mut f, k, v);
        proof {
            let s = entries@.subrange(0, i + 1);
            assert(entries_view(s).drop_last() =~= entries_view(entries@.subrange(0, i as int)));
            assert(entries_view(s).last() == (entries@[i as int].0@, entries@[i as int].1@));
        }
        i = i + 1;
    }
    assert(entries@.subrange(0, entries@.len() as int) =~= entries@);
    f
}

/// The directory flag of an item: its type is 1.
pub open spec fn item_is_dir(f: ItemFieldsV) -> bool {
    f.item_type == 1
}

/// The flag bits of the node read from an item: directory, read error, and
/// hard link for a file with more than one link.
pub open spec fn item_flag_bits(f: ItemFieldsV) -> u16 {
    ((if item_is_dir(f) {
        1int
    } else {
        0int
    }) + (if f.rderr {
        2int
    } else {
        0int
    }) + (if f.nlink > 1 && !item_is_dir(f) {
        128int
    } else {
        0int
    })) as u16
}

/// The extended information of an item: present when any of uid, gid, mode
/// or mtime is, the missing ones read as 0.
pub open spec fn item_extended(f: ItemFieldsV) -> Option<ExtendedInfo> {
    if f.uid is Some || f.gid is Some || f.mode is Some || f.mtime is Some {
        Some(
            ExtendedInfo {
                mtime: match f.mtime {
                    Some(m) => m,
                    None => 0,
                },
                uid: match f.uid {
                    Some(u) => u,
                    None => 0,
                },
                gid: match f.gid {
                    Some(g) => g,
                    None => 0,
                },
                mode: match f.mode {
                    Some(m) => m,
                    None => 0,
                },
            },
        )
    } else {
        None
    }
}

/// `n` is the fresh node read from an item with fields `f`: a directory
/// (sizes 0, one link) when the type is 1, a file otherwise.
pub open spec fn node_from_item(n: TreeNode, f: ItemFieldsV) -> bool {
    &&& n.name@ == f.name
    &&& n.dev == f.dev
    &&& n.ino == f.ino
    &&& n.flags.bits == item_flag_bits(f)
    &&& n.extended == item_extended(f)
    &&& n.children@.len() == 0
    &&& n.parent is None
    &&& n.stats == crate::tree::stats::AggregateStats::zero()
    &&& if item_is_dir(f) {
        n.asize == 0 && n.dsize == 0 && n.nlink == 1
    } else {
        n.asize == f.asize && n.dsize == f.dsize && n.nlink == f.nlink
    }
}

/// Builds the node that an item describes.
pub fn node_of_item(f: &ItemFields) -> (r: TreeNode)
    ensures
        node_from_item(r, f@),
{
    let dir = f.item_type == 1;
    let mut bits: u16 = 0;
    if dir {
        bits = bits + 1;
    }
    if f.rderr {
        bits = bits + 2;
    }
    if f.nlink > 1 && !dir {
        bits = bits + 128;
    }
    let flags = EntryFlags::from_bits(bits);
    let extended = if f.uid.is_some() || f.gid.is_some() || f.mode.is_some() || f.mtime.is_some() {
        Some(
            ExtendedInfo {
                mtime: match f.mtime {
                    Some(m) => m,
                    None => 0,
                },
                uid: match f.uid {
                    Some(u) => u,
                    None => 0,
                },
                gid: match f.gid {
                    Some(g) => g,
                    None => 0,
                },
                mode: match f.mode {
                    Some(m) => m,
                    None => 0,
                },
            },
        )
    } else {
        None
    };
    let name = f.name.clone();
    if dir {
        assert(bits == 1 || bits == 3);
        assert((bits == 1u16 || bits == 3u16) ==> bits | 1u16 == bits) by (bit_vector);
        TreeNode::new_dir(name, f.dev, f.ino, flags, extended)
    } else {
        TreeNode::new_file(name, f.asize, f.dsize, f.dev, f.ino, f.nlink, flags, extended)
    }
}

/// Why a binary import failed.
#[derive(Clone, Copy, Debug, PartialEq, Eq, Structural)]
pub enum BinError {
    /// Fewer than 16 bytes.
    TooShort,
    /// The file does not start with the binary export signature.
    BadSignature,
    /// A block claims more bytes than the file has left.
    MalformedBlockLength,
    /// A data block too short to hold its block number.
    MalformedDataBlock,
    /// The content of a data block is not valid zstd data.
    Decompression,
    /// No index block.
    NoIndex,
    /// An index block too short to hold the root reference.
    MalformedIndex,
    /// The root reference names a data block that is absent.
    RootBlockMissing,
    /// No item could be decoded from the root data block.
    NoItems,
    /// No item starts at the root offset.
    RootMissing,
    /// The sibling and child references form a cycle.
    MalformedLinks,
    /// The statistics of the tree do not fit their field types.
    StatsOverflow,
}

/// The bytes `s` read as one big-endian number.
pub open spec fn be_value(s: Seq<u8>) -> nat
    decreases s.len(),
{
    if s.len() == 0 {
        0
    } else {
        (be_value(s.drop_last()) * 256 + s.last()) as nat
    }
}

/// The data blocks (by block number, decompressed) and the content of the
/// last index block met so far.
pub struct BlockScan {
    pub data: Map<u32, Seq<u8>>,
    pub index: Option<Seq<u8>>,
}

/// The length field (low 28 bits) of the block header at `off`.
pub open spec fn block_len_at(bytes: Seq<u8>, off: int) -> int {
    (be_value(bytes.subrange(off, off + 4)) % 0x1000_0000) as int
}

/// The type field (high 4 bits) of the block header at `off`.
pub open spec fn block_type_at(bytes: Seq<u8>, off: int) -> int {
    (be_value(bytes.subrange(off, off + 4)) / 0x1000_0000) as int
}

/// Every block from `off` on that fits in the file is at least 8 bytes long
/// (its two 4-byte headers).
pub open spec fn blocks_sized(bytes: Seq<u8>, off: int) -> bool
    decreases bytes.len() - off,
{
    if 0 <= off && off + 4 <= bytes.len() {
        let bl = block_len_at(bytes, off);
        off + bl > bytes.len() || (bl >= 8 && blocks_sized(bytes, off + bl))
    } else {
        true
    }
}

/// Reads the blocks from `off` to the end of the file: a data block (type 0)
/// holds a 4-byte block number and zstd data, an index block (type 1) is
/// kept whole, other types are skipped.
pub open spec fn scan_blocks(bytes: Seq<u8>, off: int, acc: BlockScan) -> Result<BlockScan, BinError>
    decreases bytes.len() - off,
{
    if 0 <= off && off + 4 <= bytes.len() {
        let bl = block_len_at(bytes, off);
        let ty = block_type_at(bytes, off);
        if off + bl > bytes.len() {
            Err(BinError::MalformedBlockLength)
        } else if bl < 8 {
            Ok(acc)
        } else {
            let content = bytes.subrange(off + 4, off + bl - 4);
            if ty == 0 {
                if content.len() < 4 {
                    Err(BinError::MalformedDataBlock)
                } else {
                    match zstd_decompressed(content.subrange(4, content.len() as int)) {
                        None => Err(BinError::Decompression),
                        Some(d) => scan_blocks(
                            bytes,
                            off + bl,
                            BlockScan {
                                data: acc.data.insert(be_value(content.subrange(0, 4)) as u32, d),
                                index: acc.index,
                            },
                        ),
                    }
                }
            } else if ty == 1 {
                scan_blocks(bytes, off + bl, BlockScan { data: acc.data, index: Some(content) })
            } else {
                scan_blocks(bytes, off + bl, acc)
            }
        }
    } else {
        Ok(acc)
    }
}

/// The root data block of a binary export (decompressed), its number, and
/// the offset of the root item in it.
pub open spec fn bin_root_block(bytes: Seq<u8>) -> Result<(Seq<u8>, u32, nat), BinError> {
    if bytes.len() < 16 {
        Err(BinError::TooShort)
    } else if bytes.subrange(0, 8) != bin_signature() {
        Err(BinError::BadSignature)
    } else {
        match scan_blocks(bytes, 8, BlockScan { data: Map::empty(), index: None }) {
            Err(e) => Err(e),
            Ok(acc) => match acc.index {
                None => Err(BinError::NoIndex),
                Some(ix) => if ix.len() < 8 {
                    Err(BinError::MalformedIndex)
                } else {
                    let r = be_value(ix.subrange(ix.len() - 8, ix.len() as int));
                    let rb = ((r / 0x100_0000) % 0x1_0000_0000) as u32;
                    if acc.data.contains_key(rb) {
                        Ok((acc.data[rb], rb, r % 0x100_0000))
                    } else {
                        Err(BinError::RootBlockMissing)
                    }
                },
            },
        }
    }
}

/// The big-endian value of four bytes.
proof fn lemma_be4(s: Seq<u8>)
    requires
        s.len() == 4,
    ensures
        be_value(s) == s[0] * 0x100_0000 + s[1] * 0x1_0000 + s[2] * 0x100 + s[3],
{
    assert(s.drop_last().drop_last().drop_last().drop_last() =~= Seq::<u8>::empty());
    reveal_with_fuel(be_value, 5);
}

/// Appending four bytes shifts the value by 32 bits.
proof fn lemma_be_append4(a: Seq<u8>, b: Seq<u8>)
    requires
        b.len() == 4,
    ensures
        be_value(a + b) == be_value(a) * 0x1_0000_0000 + be_value(b),
{
    let s = a + b;
    assert(s.drop_last() =~= a + b.drop_last());
    assert(s.drop_last().drop_last() =~= a + b.drop_last().drop_last());
    assert(s.drop_last().drop_last().drop_last() =~= a + b.drop_last().drop_last().drop_last());
    assert(s.drop_last().drop_last().drop_last().drop_last() =~= a);
    lemma_be4(b);
    reveal_with_fuel(be_value, 5);
}

/// Reads the four bytes at `off` as a big-endian number.
fn read_be32(bytes: &[u8], off: usize) -> (r: u32)
    requires
        off + 4 <= bytes.len(),
    ensures
        r == be_value(bytes@.subrange(off as int, off + 4)),
{
    proof {
        lemma_be4(bytes@.subrange(off as int, off + 4));
    }
    (bytes[off] as u32) * 0x100_0000 + (bytes[off + 1] as u32) * 0x1_0000 + (bytes[off + 2] as u32)
        * 0x100 + (bytes[off + 3] as u32)
}

/// Reads the eight bytes at `off` as a big-endian number.
fn read_be64(bytes: &[u8], off: usize) -> (r: u64)
    requires
        off + 8 <= bytes.len(),
    ensures
        r == be_value(bytes@.subrange(off as int, off + 8)),
{
    let hi = read_be32(bytes, off) as u64;
    let lo = read_be32(bytes, off + 4) as u64;
    proof {
        assert(bytes@.subrange(off as int, off + 8) =~= bytes@.subrange(off as int, off + 4)
            + bytes@.subrange(off + 4, off + 8));
        lemma_be_append4(bytes@.subrange(off as int, off + 4), bytes@.subrange(off + 4, off + 8));
    }
    hi * 0x1_0000_0000 + lo
}

/// Whether every block of a binary export that fits in the file is at least
/// 8 bytes long (shorter ones cannot hold their two headers).
pub fn blocks_well_sized(bytes: &[u8]) -> (r: bool)
    ensures
        r == blocks_sized(bytes@, 8),
{
    let mut off: usize = 8;
    while off <= bytes.len() && bytes.len() - off >= 4
        invariant
            8 <= off,
            blocks_sized(bytes@, 8) == blocks_sized(bytes@, off as int),
        decreases bytes@.len() - off,
    {
        let bl = (read_be32(bytes, off) % 0x1000_0000) as usize;
        if bl > bytes.len() - off {
            return true;
        }
        if bl < 8 {
            return false;
        }
        off = off + bl;
    }
    true
}

/// The view of a map from block numbers to block contents.
pub open spec fn blocks_view(m: Map<u32, Vec<u8>>) -> Map<u32, Seq<u8>> {
    m.map_values(|v: Vec<u8>| v@)
}

/// The view of an optional byte vector.
pub open spec fn opt_bytes(o: Option<Vec<u8>>) -> Option<Seq<u8>> {
    match o {
        Some(v) => Some(v@),
        None => None,
    }
}

/// Reads every block after the signature: the data blocks, decompressed and
/// keyed by block number, and the content of the last index block.
fn scan_container(bytes: &[u8]) -> (r: Result<(HashMap<u32, Vec<u8>>, Option<Vec<u8>>), BinError>)
    requires
        blocks_sized(bytes@, 8),
    ensures
        match scan_blocks(bytes@, 8, BlockScan { data: Map::empty(), index: None }) {
            Err(e) => r == Err::<(HashMap<u32, Vec<u8>>, Option<Vec<u8>>), BinError>(e),
            Ok(acc) => r matches Ok((m, ix)) && blocks_view(m@) == acc.data && opt_bytes(ix)
                == acc.index,
        },
{
    broadcast use vstd::std_specs::hash::group_hash_axioms;

    let mut data: HashMap<u32, Vec<u8>> = HashMap::new();
    let mut index: Option<Vec<u8>> = None;
    let mut off: usize = 8;
    let ghost init = BlockScan { data: Map::empty(), index: None };
    proof {
        assert(blocks_view(data@) =~= Map::empty());
    }
    while off <= bytes.len() && bytes.len() - off >= 4
        invariant
            8 <= off,
            init == (BlockScan { data: Map::empty(), index: None }),
            blocks_sized(bytes@, off as int),
            scan_blocks(bytes@, 8, init) == scan_blocks(
                bytes@,
                off as int,
                BlockScan {
                    data: blocks_view(data@),
                    index: opt_bytes(index),
                },
            ),
        decreases bytes@.len() - off,
    {
        let ghost acc = BlockScan {
            data: blocks_view(data@),
            index: opt_bytes(index),
        };
        let word = read_be32(bytes, off);
        let ty = word / 0x1000_0000;
        let bl = (word % 0x1000_0000) as usize;
        assert(block_len_at(bytes@, off as int) == bl);
        assert(block_type_at(bytes@, off as int) == ty);
        if bl > bytes.len() - off {
            assert(scan_blocks(bytes@, off as int, acc) == Err::<BlockScan, BinError>(BinError::MalformedBlockLength));
            return Err(BinError::MalformedBlockLength);
        }
        let content = vstd::slice::slice_subrange(bytes, off + 4, off + bl - 4);
        if ty == 0 {
            if content.len() < 4 {
                return Err(BinError::MalformedDataBlock);
            }
            let num = read_be32(content, 0);
            let compressed = vstd::slice::slice_subrange(content, 4, content.len());
            match zstd_decode(compressed) {
                None => {
                    return Err(BinError::Decompression);
                },
                Some(d) => {
                    proof {
                        assert(blocks_view(data@.insert(num, d)) =~= blocks_view(data@).insert(
                            num,
                            d@,
                        ));
                    }
                    data.insert(num, d);
                },
            }
        } else if ty == 1 {
            index = Some(vstd::slice::slice_to_vec(content));
        }
        off = off + bl;
    }
    Ok((data, index))
}

/// Whether the file opens with the binary export signature.
fn has_signature(bytes: &[u8]) -> (r: bool)
    requires
        bytes@.len() >= 8,
    ensures
        r == (bytes@.subrange(0, 8) == bin_signature()),
{
    let ok = bytes[0] == 0xbf && bytes[1] == 0x6e && bytes[2] == 0x63 && bytes[3] == 0x64
        && bytes[4] == 0x75 && bytes[5] == 0x45 && bytes[6] == 0x58 && bytes[7] == 0x31;
    if ok {
        assert(bytes@.subrange(0, 8) =~= bin_signature());
    } else {
        assert(bytes@.subrange(0, 8) != bin_signature()) by {
            if bytes@.subrange(0, 8) == bin_signature() {
                assert(bytes@.subrange(0, 8)[0] == bytes@[0]);
                assert(bytes@.subrange(0, 8)[1] == bytes@[1]);
                assert(bytes@.subrange(0, 8)[2] == bytes@[2]);
                assert(bytes@.subrange(0, 8)[3] == bytes@[3]);
                assert(bytes@.subrange(0, 8)[4] == bytes@[4]);
                assert(bytes@.subrange(0, 8)[5] == bytes@[5]);
                assert(bytes@.subrange(0, 8)[6] == bytes@[6]);
                assert(bytes@.subrange(0, 8)[7] == bytes@[7]);
            }
        }
    }
    ok
}

/// Finds the root data block of a binary export: checks the signature,
/// reads the blocks, and follows the root reference at the end of the index.
fn read_root_block(bytes: &[u8]) -> (r: Result<(Vec<u8>, u32, usize), BinError>)
    requires
        blocks_sized(bytes@, 8),
    ensures
        match bin_root_block(bytes@) {
            Err(e) => r == Err::<(Vec<u8>, u32, usize), BinError>(e),
            Ok((d, rb, ro)) => r matches Ok((v, b, o)) && v@ == d && b == rb && o == ro,
        },
{
    broadcast use vstd::std_specs::hash::group_hash_axioms;

    if bytes.len() < 16 {
        return Err(BinError::TooShort);
    }
    if !has_signature(bytes) {
        return Err(BinError::BadSignature);
    }
    let (mut data, index) = match scan_container(bytes) {
        Err(e) => {
            return Err(e);
        },
        Ok(p) => p,
    };
    let ix = match index {
        None => {
            return Err(BinError::NoIndex);
        },
        Some(ix) => ix,
    };
    if ix.len() < 8 {
        return Err(BinError::MalformedIndex);
    }
    let rref = read_be64(ix.as_slice(), ix.len() - 8);
    let rb = (rref >> 24) as u32;
    let ro = (rref & 0xFF_FFFF) as usize;
    assert((rref >> 24) as u32 == ((rref / 0x100_0000) % 0x1_0000_0000) as u32) by (bit_vector);
    assert(rref & 0xFF_FFFF == rref % 0x100_0000) by (bit_vector);
    match data.remove(&rb) {
        None => Err(BinError::RootBlockMissing),
        Some(d) => Ok((d, rb, ro)),
    }
}

/// The items of a data block from offset `pos` on: each CBOR data item is
/// decoded in turn, a map becomes an item at its offset, any other value is
/// skipped, and the first failure to decode ends the block.
pub open spec fn items_from(data: Seq<u8>, pos: nat) -> Seq<(nat, ItemFieldsV)>
    decreases data.len() - pos,
{
    if pos < data.len() {
        match cbor_decoded(data.subrange(pos as int, data.len() as int)) {
            None => Seq::empty(),
            Some((n, item)) => if n == 0 || pos + n > data.len() {
                Seq::empty()
            } else {
                let rest = items_from(data, pos + n);
                match item {
                    Some(es) => seq![(pos, fields_of(es))] + rest,
                    None => rest,
                }
            },
        }
    } else {
        Seq::empty()
    }
}

/// The view of decoded items.
pub open spec fn items_view(v: Seq<(usize, ItemFields)>) -> Seq<(nat, ItemFieldsV)> {
    v.map_values(|p: (usize, ItemFields)| (p.0 as nat, p.1@))
}

/// Decodes every item of a data block.
pub fn decode_items(data: &[u8]) -> (r: Vec<(usize, ItemFields)>)
    ensures
        items_view(r@) == items_from(data@, 0),
{
    let mut out: Vec<(usize, ItemFields)> = Vec::new();
    let mut pos: usize = 0;
    while pos < data.len()
        invariant
            pos <= data@.len(),
            items_from(data@, 0) == items_view(out@) + items_from(data@, pos as nat),
        decreases data@.len() - pos,
    {
        let rest = vstd::slice::slice_subrange(data, pos, data.len());
        match decode_cbor_item(rest) {
            None => {
                assert(items_from(data@, pos as nat) =~= Seq::empty());
                assert(items_view(out@) + Seq::empty() =~= items_view(out@));
                return out;
            },
            Some((n, item)) => {
                let ghost before = out@;
                match item.entries {
                    Some(es) => {
                        let f = read_fields(&es);
                        out.push((pos, f));
                        assert(items_view(out@) =~= items_view(before) + seq![(pos as nat, f@)]);
                    },
                    None => {},
                }
                pos = pos + n;
                assert(items_from(data@, 0) == items_view(out@) + items_from(data@, pos as nat));
            },
        }
    }
    assert(items_from(data@, pos as nat) =~= Seq::empty());
    assert(items_view(out@) + Seq::empty() =~= items_view(out@));
    out
}

/// The outcome of importing the binary export `bytes`: the errors of the
/// container; no item in the root block; no item at the root offset; else a
/// well-formed tree with exact statistics built from the items, the root
/// carrying the root item and each node linked below the node of its parent
/// item (or a failure on sibling or child links that form a cycle, on a tree
/// too large to index, or on statistics that do not fit).
pub open spec fn bin_import(bytes: Seq<u8>, r: Result<TreeArena, BinError>) -> bool {
    match bin_root_block(bytes) {
        Err(e) => r == Err::<TreeArena, BinError>(e),
        Ok((data, rb, ro)) => {
            let items = items_from(data, 0);
            &&& items.len() == 0 ==> r == Err::<TreeArena, BinError>(BinError::NoItems)
            &&& items.len() > 0 && last_at(items, ro) < 0 ==> r == Err::<TreeArena, BinError>(
                BinError::RootMissing,
            )
            &&& r matches Ok(a) ==> {
                &&& a.wf()
                &&& a.stats_exact()
                &&& last_at(items, ro) >= 0
                &&& node_matches(a.nodes@[0], items[last_at(items, ro)].1)
                &&& nodes_from_items(a, items)
                &&& exists|kids: Seq<Seq<usize>>|
                    #[trigger] kids_of(items, rb, kids) && built_from(
                        a,
                        items,
                        kids,
                        last_at(items, ro),
                        items.len(),
                    )
            }
            &&& r == Err::<TreeArena, BinError>(BinError::MalformedLinks) ==> forall|
                kids: Seq<Seq<usize>>,
            |
                #[trigger] kids_of(items, rb, kids) ==> (item_walk(kids, last_at(items, ro), items.len())
                    matches Some(s) ==> 1 + s.len() >= usize::MAX - 1)
            &&& r == Err::<TreeArena, BinError>(BinError::StatsOverflow) ==> exists|
                a: TreeArena,
                kids: Seq<Seq<usize>>,
            |
                #[trigger] kids_of(items, rb, kids) && a.wf() && #[trigger] built_from(
                    a,
                    items,
                    kids,
                    last_at(items, ro),
                    items.len(),
                ) && !a.stats_fit()
            &&& r matches Err(e) ==> e == BinError::NoItems || e == BinError::RootMissing || e
                == BinError::MalformedLinks || e == BinError::StatsOverflow
        },
    }
}

/// Reads a binary export into a tree: finds the root data block through
/// the index, decodes its items, links them into a tree rooted at the item
/// the index names, and recomputes the statistics.
pub fn import_bin(file_bytes: &[u8]) -> (r: Result<TreeArena, BinError>)
    requires
        blocks_sized(file_bytes@, 8),
    ensures
        bin_import(file_bytes@, r),
{
    let (data, rb, ro) = match read_root_block(file_bytes) {
        Err(e) => {
            return Err(e);
        },
        Ok(t) => t,
    };
    let items = decode_items(data.as_slice());
    build_tree(&items, rb, ro)
}

} // verus!
