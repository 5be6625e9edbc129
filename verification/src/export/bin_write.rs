use vstd::prelude::*;
use vstd::string::StringSliceAdditionalSpecFns;
use vstd::utf8::encode_utf8;

use crate::export::cbor::{
    be_bytes, cbor_bool, cbor_head, cbor_int, cbor_text, cbor_u64_fixed, push_be, write_cbor_bool,
    write_cbor_head, write_cbor_int, write_cbor_text,
};
use crate::export::compress::{zstd_compressed, zstd_decompressed, zstd_encode, zstd_encodes};
use crate::tree::arena::TreeArena;
use crate::tree::node::{EntryFlags, NodeId};

verus! {

/// The eight bytes every binary export starts with: `\xbfncduEX1`.
pub open spec fn bin_signature() -> Seq<u8> {
    seq![0xbfu8, 0x6eu8, 0x63u8, 0x64u8, 0x75u8, 0x45u8, 0x58u8, 0x31u8]
}

/// Why an export failed.
#[derive(Clone, Copy, Debug, PartialEq, Eq, Structural)]
pub enum ExportError {
    /// The zstd encoder reported an error.
    Compression,
    /// The compressed data block does not fit a 32-bit block length.
    TooLarge,
}

/// One field of an item map: the key, then the encoded value.
pub open spec fn field(key: u8, value: Seq<u8>) -> Seq<u8> {
    seq![key] + value
}

proof fn lemma_dfs_nonempty(a: TreeArena, x: int, off: int, prev: Option<int>)
    requires
        0 <= x < a.len(),
    ensures
        dfs_bytes(a, x, off, prev).len() > 0,
{
    reveal(cbor_head);
    let len0 = item_bytes(a, x, off, prev, 0).len();
    assert(item_bytes(a, x, off, prev, off + len0).len() > 0);
}

/// The number of fields in the item map of node `x`.
pub open spec fn field_count(a: TreeArena, x: int, has_prev: bool) -> nat {
    let n = a.nodes@[x];
    2 + (if has_prev {
        1nat
    } else {
        0nat
    }) + 3 + (if EntryFlags::has(n.flags.bits, 2) {
        1nat
    } else {
        0nat
    }) + (if n.spec_is_dir() {
        3 + (if n.children@.len() > 0 {
            1nat
        } else {
            0nat
        })
    } else {
        0nat
    }) + 2 + (if n.extended is Some {
        4nat
    } else {
        0nat
    })
}

/// The fields common to every item: type, name, relative reference to the
/// previous sibling (if any), sizes, device, and the read error mark.
#[verifier::opaque]
pub open spec fn item_fields_head(a: TreeArena, x: int, off: int, prev: Option<int>) -> Seq<u8> {
    let n = a.nodes@[x];
    field(
        0,
        cbor_int(
            if n.spec_is_dir() {
                1
            } else {
                0
            },
        ),
    ) + field(1, cbor_text(encode_utf8(n.name@))) + (match prev {
        Some(p) => field(2, cbor_int(p - off)),
        None => Seq::empty(),
    }) + field(3, cbor_int(n.asize as int)) + field(4, cbor_int(n.dsize as int)) + field(
        5,
        cbor_int((n.dev as i64) as int),
    ) + (if EntryFlags::has(n.flags.bits, 2) {
        field(6, cbor_bool(true))
    } else {
        Seq::empty()
    })
}

/// The fields only directories have: cumulated sizes, item count, and the
/// offset `sub` of the first child when there is one.
#[verifier::opaque]
pub open spec fn item_fields_dir(a: TreeArena, x: int, sub: int) -> Seq<u8> {
    let n = a.nodes@[x];
    if n.spec_is_dir() {
        field(7, cbor_int(n.stats.total_asize as int)) + field(
            8,
            cbor_int(n.stats.total_dsize as int),
        ) + field(11, cbor_int(n.stats.item_count as int)) + (if n.children@.len() > 0 {
            field(12, cbor_u64_fixed(sub as nat))
        } else {
            Seq::empty()
        })
    } else {
        Seq::empty()
    }
}

/// The closing fields: inode, link count, and extended information.
#[verifier::opaque]
pub open spec fn item_fields_tail(a: TreeArena, x: int) -> Seq<u8> {
    let n = a.nodes@[x];
    field(13, cbor_int((n.ino as i64) as int)) + field(14, cbor_int(n.nlink as int)) + (
    match n.extended {
        Some(e) => field(15, cbor_int(e.uid as int)) + field(16, cbor_int(e.gid as int)) + field(
            17,
            cbor_int(e.mode as int),
        ) + field(18, cbor_int(e.mtime as int)),
        None => Seq::empty(),
    })
}

/// The fields of the item map of node `x` written at offset `off`, whose
/// previous sibling (if any) was written at `prev` and whose first child (if
/// any) is written at `sub`.
pub open spec fn item_body(a: TreeArena, x: int, off: int, prev: Option<int>, sub: int) -> Seq<u8> {
    item_fields_head(a, x, off, prev) + item_fields_dir(a, x, sub) + item_fields_tail(a, x)
}

/// The item map of node `x`: a map head, then its fields.
pub open spec fn item_bytes(a: TreeArena, x: int, off: int, prev: Option<int>, sub: int) -> Seq<
    u8,
> {
    cbor_head(5, field_count(a, x, prev is Some)) + item_body(a, x, off, prev, sub)
}

/// The items of the subtree of `x` in depth-first pre-order, starting at
/// offset `off`; each item points to its first child and back to its previous
/// sibling.
pub open spec fn dfs_bytes(a: TreeArena, x: int, off: int, prev: Option<int>) -> Seq<u8>
    decreases a.len() - x, a.nkids(x) + 1,
{
    if 0 <= x < a.len() && 0 <= a.nkids(x) {
        let len0 = item_bytes(a, x, off, prev, 0).len();
        let head = item_bytes(a, x, off, prev, off + len0);
        head + kids_bytes(a, x, 0, off + head.len(), None)
    } else {
        Seq::empty()
    }
}

/// The subtrees of the children of `x` from the `k`-th on, written from
/// offset `pos` on, the previous one (if any) having started at `prev`.
pub open spec fn kids_bytes(a: TreeArena, x: int, k: int, pos: int, prev: Option<int>) -> Seq<u8>
    decreases a.len() - x, a.nkids(x) - k,
{
    if 0 <= x < a.len() && 0 <= k < a.nkids(x) && x < a.kid(x, k) < a.len() {
        let b = dfs_bytes(a, a.kid(x, k), pos, prev);
        b + kids_bytes(a, x, k + 1, pos + b.len(), Some(pos))
    } else {
        Seq::empty()
    }
}

/// The uncompressed content of the single data block: all items of the tree.
pub open spec fn bin_payload(a: TreeArena) -> Seq<u8> {
    dfs_bytes(a, a.root.0 as int, 0, None)
}

/// A complete binary export whose only data block (number 0) holds
/// `compressed`, followed by an index block pointing at that data block and
/// at the root item (offset 0 of block 0).
pub open spec fn bin_file(compressed: Seq<u8>) -> Seq<u8> {
    let bl = compressed.len() + 12;
    bin_signature() + be_bytes(bl, 4) + be_bytes(0, 4) + compressed + be_bytes(bl, 4) + be_bytes(
        0x1000_0018,
        4,
    ) + be_bytes(0x0800_0000 + bl % 0x100_0000, 8) + be_bytes(0, 8) + be_bytes(0x1000_0018, 4)
}

proof fn lemma_fixed_len(u: nat)
    ensures
        cbor_u64_fixed(u).len() == 9,
{
    lemma_be_len(u, 8);
}

pub proof fn lemma_be_len(v: nat, n: nat)
    ensures
        be_bytes(v, n).len() == n,
    decreases n,
{
    if n > 0 {
        lemma_be_len(v / 256, (n - 1) as nat);
    }
}

/// The length of an item does not depend on where its first child is.
proof fn lemma_item_len(a: TreeArena, x: int, off: int, prev: Option<int>, s1: int, s2: int)
    ensures
        item_bytes(a, x, off, prev, s1).len() == item_bytes(a, x, off, prev, s2).len(),
{
    reveal(item_fields_dir);
    lemma_fixed_len(s1 as nat);
    lemma_fixed_len(s2 as nat);
}

/// The number of fields of the item map of `node`.
fn count_fields(a: &TreeArena, x: usize, has_prev: bool) -> (r: u64)
    requires
        x < a.nodes@.len(),
    ensures
        r == field_count(*a, x as int, has_prev),
{
    let n = &a.nodes[x];
    let mut c: u64 = 2;
    if has_prev {
        c = c + 1;
    }
    c = c + 3;
    if n.flags.contains(EntryFlags::READ_ERROR) {
        c = c + 1;
    }
    if n.is_dir() {
        c = c + 3;
        if n.children.len() > 0 {
            c = c + 1;
        }
    }
    c = c + 2;
    if n.extended.is_some() {
        c = c + 4;
    }
    c
}

fn write_fields_head(a: &TreeArena, x: usize, buf: &mut Vec<u8>, off: usize, prev: Option<usize>)
    requires
        x < a.nodes@.len(),
        match prev {
            Some(p) => p < off <= i64::MAX,
            None => true,
        },
    ensures
        final(buf)@ == old(buf)@ + item_fields_head(
            *a,
            x as int,
            off as int,
            match prev {
                Some(p) => Some(p as int),
                None => None,
            },
        ),
{
    reveal(item_fields_head);
    let ghost gprev = match prev {
        Some(p) => Some(p as int),
        None => None,
    };
    let n = &a.nodes[x];
    buf.push(0);
    write_cbor_int(buf, if n.is_dir() {
        1
    } else {
        0
    });
    let ghost b1 = buf@;
    buf.push(1);
    let name = n.name.as_str();
    write_cbor_text(buf, name);
    assert(name@ == n.name@);
    let ghost b2 = buf@;
    match prev {
        Some(p) => {
            buf.push(2);
            let d: i64 = (off - p) as i64;
            write_cbor_int(buf, -d);
        },
        None => {},
    }
    let ghost b3 = buf@;
    buf.push(3);
    write_cbor_int(buf, n.asize);
    buf.push(4);
    write_cbor_int(buf, n.dsize);
    buf.push(5);
    write_cbor_int(buf, n.dev as i64);
    let ghost b4 = buf@;
    if n.flags.contains(EntryFlags::READ_ERROR) {
        buf.push(6);
        write_cbor_bool(buf, true);
    }
    assert(buf@ =~= old(buf)@ + item_fields_head(*a, x as int, off as int, gprev));
}

fn write_fields_dir(a: &TreeArena, x: usize, buf: &mut Vec<u8>, sub: u64)
    requires
        x < a.nodes@.len(),
    ensures
        final(buf)@ == old(buf)@ + item_fields_dir(*a, x as int, sub as int),
{
    reveal(item_fields_dir);
    let n = &a.nodes[x];
    if n.is_dir() {
        buf.push(7);
        write_cbor_int(buf, n.stats.total_asize);
        buf.push(8);
        write_cbor_int(buf, n.stats.total_dsize);
        buf.push(11);
        write_cbor_int(buf, n.stats.item_count as i64);
        if n.children.len() > 0 {
            buf.push(12);
            buf.push(0x1b);
            push_be(buf, sub, 8);
        }
    }
    assert(buf@ =~= old(buf)@ + item_fields_dir(*a, x as int, sub as int));
}

fn write_fields_tail(a: &TreeArena, x: usize, buf: &mut Vec<u8>)
    requires
        x < a.nodes@.len(),
    ensures
        final(buf)@ == old(buf)@ + item_fields_tail(*a, x as int),
{
    reveal(item_fields_tail);
    let n = &a.nodes[x];
    buf.push(13);
    write_cbor_int(buf, n.ino as i64);
    buf.push(14);
    write_cbor_int(buf, n.nlink as i64);
    let ghost b1 = buf@;
    match n.extended {
        Some(e) => {
            buf.push(15);
            write_cbor_int(buf, e.uid as i64);
            buf.push(16);
            write_cbor_int(buf, e.gid as i64);
            buf.push(17);
            write_cbor_int(buf, e.mode as i64);
            buf.push(18);
            write_cbor_int(buf, e.mtime);
        },
        None => {},
    }
    assert(buf@ =~= old(buf)@ + item_fields_tail(*a, x as int));
}

/// Appends the item map of node `x`, written at offset `off`.
fn write_item(a: &TreeArena, x: usize, buf: &mut Vec<u8>, off: usize, prev: Option<usize>, sub: u64)
    requires
        x < a.nodes@.len(),
        match prev {
            Some(p) => p < off <= i64::MAX,
            None => true,
        },
    ensures
        final(buf)@ == old(buf)@ + item_bytes(
            *a,
            x as int,
            off as int,
            match prev {
                Some(p) => Some(p as int),
                None => None,
            },
            sub as int,
        ),
{
    let count = count_fields(a, x, prev.is_some());
    write_cbor_head(buf, 5, count);
    write_fields_head(a, x, buf, off, prev);
    write_fields_dir(a, x, buf, sub);
    write_fields_tail(a, x, buf);
    assert(buf@ =~= old(buf)@ + item_bytes(
        *a,
        x as int,
        off as int,
        match prev {
            Some(p) => Some(p as int),
            None => None,
        },
        sub as int,
    ));
}

/// Appends the items of the subtree of `x` in depth-first pre-order; each
/// item points to its first child and back to its previous sibling, `prev`
/// being where the previous sibling of `x` starts.
fn serialize_item_dfs(a: &TreeArena, x: usize, buf: &mut Vec<u8>, prev: Option<usize>)
    requires
        a.wf(),
        x < a.nodes@.len(),
        match prev {
            Some(p) => p < old(buf)@.len(),
            None => true,
        },
        old(buf)@.len() + dfs_bytes(
            *a,
            x as int,
            old(buf)@.len() as int,
            match prev {
                Some(p) => Some(p as int),
                None => None,
            },
        ).len() <= i64::MAX,
    ensures
        final(buf)@ == old(buf)@ + dfs_bytes(
            *a,
            x as int,
            old(buf)@.len() as int,
            match prev {
                Some(p) => Some(p as int),
                None => None,
            },
        ),
    decreases a.len() - x,
{
    let ghost gprev = match prev {
        Some(p) => Some(p as int),
        None => None,
    };
    let ghost xi = x as int;
    let off = buf.len();
    let ghost total = dfs_bytes(*a, xi, off as int, gprev);
    let mut tmp: Vec<u8> = Vec::new();
    proof {
        lemma_item_len(*a, xi, off as int, gprev, 0, (off + item_bytes(*a, xi, off as int, gprev, 0).len()) as int);
        assert(total.len() >= item_bytes(*a, xi, off as int, gprev, 0).len());
    }
    write_item(a, x, &mut tmp, off, prev, 0);
    assert(tmp@ =~= item_bytes(*a, xi, off as int, gprev, 0));
    assert(off + tmp@.len() <= i64::MAX);
    let sub: u64 = (off as u64) + (tmp.len() as u64);
    write_item(a, x, buf, off, prev, sub);
    let ghost head = item_bytes(*a, xi, off as int, gprev, sub as int);
    let ghost base = old(buf)@ + head;
    proof {
        assert(total == head + kids_bytes(*a, xi, 0, off + head.len(), None));
    }
    let nk = a.nodes[x].children.len();
    let mut j: usize = 0;
    let mut prev_child: Option<usize> = None;
    while j < nk
        invariant
            a.wf(),
            0 <= xi < a.len(),
            x as int == xi,
            nk == a.nkids(xi),
            j <= nk,
            old(buf)@.len() + total.len() <= i64::MAX,
            total == head + kids_bytes(*a, xi, 0, off + head.len(), None),
            off + head.len() <= buf@.len(),
            buf@.subrange(0, off + head.len()) == base,
            base.len() == off + head.len(),
            off == old(buf)@.len(),
            buf@.subrange(off + head.len(), buf@.len() as int) + kids_bytes(
                *a,
                xi,
                j as int,
                buf@.len() as int,
                match prev_child {
                    Some(p) => Some(p as int),
                    None => None,
                },
            ) == kids_bytes(*a, xi, 0, off + head.len(), None),
            j == 0 ==> prev_child is None,
            match prev_child {
                Some(p) => p < buf@.len(),
                None => true,
            },
        decreases nk - j,
    {
        let c = a.nodes[x].children[j];
        let start = buf.len();
        let ghost gpc = match prev_child {
            Some(p) => Some(p as int),
            None => None,
        };
        let ghost before = buf@;
        proof {
            assert(c.0 as int == a.kid(xi, j as int));
            let rest = kids_bytes(*a, xi, j as int, start as int, gpc);
            let b = dfs_bytes(*a, c.0 as int, start as int, gpc);
            assert(rest == b + kids_bytes(*a, xi, j + 1, start + b.len(), Some(start as int)));
            let done = buf@.subrange(off + head.len(), buf@.len() as int);
            assert(done.len() + rest.len() == kids_bytes(*a, xi, 0, off + head.len(), None).len());
            assert(start + b.len() <= old(buf)@.len() + total.len());
        }
        serialize_item_dfs(a, c.0, buf, prev_child);
        proof {
            let b = dfs_bytes(*a, c.0 as int, start as int, gpc);
            assert(buf@ == before + b);
            lemma_dfs_nonempty(*a, c.0 as int, start as int, gpc);
            let rest2 = kids_bytes(*a, xi, j + 1, buf@.len() as int, Some(start as int));
            assert(buf@.subrange(off + head.len(), buf@.len() as int) =~= before.subrange(
                off + head.len(),
                before.len() as int,
            ) + b);
            assert(buf@.subrange(0, off + head.len()) =~= before.subrange(0, off + head.len()));
        }
        prev_child = Some(start);
        j = j + 1;
    }
    proof {
        assert(kids_bytes(*a, xi, j as int, buf@.len() as int, match prev_child {
            Some(p) => Some(p as int),
            None => None,
        }) =~= Seq::<u8>::empty());
        assert(buf@ =~= buf@.subrange(0, off + head.len()) + buf@.subrange(
            off + head.len(),
            buf@.len() as int,
        ));
        assert(buf@ =~= old(buf)@ + total);
    }
}

/// Lays out a complete binary export around the compressed data block:
/// signature, data block 0, and an index block that points at data block 0
/// and at the root item (offset 0 of block 0).
pub fn assemble_bin_file(compressed: &[u8]) -> (r: Vec<u8>)
    requires
        compressed@.len() + 12 <= u32::MAX,
    ensures
        r@ == bin_file(compressed@),
{
    let mut out: Vec<u8> = Vec::new();
    out.push(0xbf);
    out.push(0x6e);
    out.push(0x63);
    out.push(0x64);
    out.push(0x75);
    out.push(0x45);
    out.push(0x58);
    out.push(0x31);
    let block_len: u64 = (compressed.len() + 12) as u64;
    push_be(&mut out, block_len, 4);
    push_be(&mut out, 0, 4);
    let ghost mid = out@;
    let mut i: usize = 0;
    while i < compressed.len()
        invariant
            i <= compressed@.len(),
            out@ == mid + compressed@.subrange(0, i as int),
        decreases compressed@.len() - i,
    {
        out.push(compressed[i]);
        i = i + 1;
        assert(out@ =~= mid + compressed@.subrange(0, i as int));
    }
    push_be(&mut out, block_len, 4);
    push_be(&mut out, 0x1000_0018, 4);
    push_be(&mut out, 0x0800_0000 + block_len % 0x100_0000, 8);
    push_be(&mut out, 0, 8);
    push_be(&mut out, 0x1000_0018, 4);
    assert(compressed@.subrange(0, compressed@.len() as int) =~= compressed@);
    assert(out@ =~= bin_file(compressed@));
    out
}

/// Serializes the tree as a binary export: all items in one data block,
/// compressed with zstd at `compress_level`, followed by the index block.
/// `_block_size_kb` is accepted for compatibility; one block holds everything.
pub fn export_bin(arena: &TreeArena, _block_size_kb: usize, compress_level: i32) -> (r: Result<
    Vec<u8>,
    ExportError,
>)
    requires
        arena.wf(),
        bin_payload(*arena).len() <= i64::MAX,
    ensures
        match r {
            Ok(bytes) => zstd_encodes(bin_payload(*arena), compress_level) && zstd_compressed(
                bin_payload(*arena),
                compress_level,
            ).len() + 12 <= u32::MAX && bytes@ == bin_file(
                zstd_compressed(bin_payload(*arena), compress_level),
            ) && zstd_decompressed(zstd_compressed(bin_payload(*arena), compress_level)) == Some(
                bin_payload(*arena),
            ),
            Err(ExportError::TooLarge) => zstd_encodes(bin_payload(*arena), compress_level)
                && zstd_compressed(bin_payload(*arena), compress_level).len() + 12 > u32::MAX,
            Err(ExportError::Compression) => !zstd_encodes(bin_payload(*arena), compress_level),
        },
{
    let mut payload: Vec<u8> = Vec::new();
    serialize_item_dfs(arena, arena.root.0, &mut payload, None);
    assert(payload@ =~= bin_payload(*arena));
    let compressed = match zstd_encode(payload.as_slice(), compress_level) {
        Some(c) => c,
        None => return Err(ExportError::Compression),
    };
    if compressed.len() > 0xffff_fff3 {
        return Err(ExportError::TooLarge);
    }
    Ok(assemble_bin_file(compressed.as_slice()))
}

} // verus!
