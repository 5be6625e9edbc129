//! What the block layer of a binary export reads back.

use vstd::prelude::*;

use crate::export::bin_read::{be_value, bin_root_block, block_len_at, block_type_at, blocks_sized, scan_blocks, BlockScan};
use crate::export::bin_write::{bin_file, bin_signature, lemma_be_len};
use crate::export::cbor::be_bytes;
use crate::export::compress::zstd_decompressed;

verus! {

/// Appending a byte shifts the value by eight bits.
proof fn lemma_be_push(s: Seq<u8>, b: u8)
    ensures
        be_value(s.push(b)) == be_value(s) * 256 + b,
{
    assert(s.push(b).drop_last() =~= s);
}

/// Zero written on `n` bytes reads back as zero.
proof fn lemma_be_zero(n: nat)
    ensures
        be_value(be_bytes(0, n)) == 0,
    decreases n,
{
    if n > 0 {
        lemma_be_zero((n - 1) as nat);
        lemma_be_push(be_bytes(0, (n - 1) as nat), 0);
    }
}

/// A value below 2^32 written on four bytes reads back as itself.
proof fn lemma_be4_value(v: nat)
    requires
        v < 0x1_0000_0000,
    ensures
        be_value(be_bytes(v, 4)) == v,
{
    let w1: nat = v / 0x100_0000;
    let w2: nat = v / 0x1_0000;
    let w3: nat = v / 256;
    assert(w3 / 256 == w2);
    assert(w2 / 256 == w1);
    assert(w1 / 256 == 0);
    assert(be_bytes(w1, 1) == be_bytes(w1 / 256, 0).push((w1 % 256) as u8));
    assert(be_bytes(w2, 2) == be_bytes(w1, 1).push((w2 % 256) as u8));
    assert(be_bytes(w3, 3) == be_bytes(w2, 2).push((w3 % 256) as u8));
    assert(be_bytes(v, 4) == be_bytes(w3, 3).push((v % 256) as u8));
    lemma_be_zero(0);
    lemma_be_push(be_bytes(w1 / 256, 0), (w1 % 256) as u8);
    lemma_be_push(be_bytes(w1, 1), (w2 % 256) as u8);
    lemma_be_push(be_bytes(w2, 2), (w3 % 256) as u8);
    lemma_be_push(be_bytes(w3, 3), (v % 256) as u8);
    assert(be_value(be_bytes(w1, 1)) == w1);
    assert(be_value(be_bytes(w2, 2)) == w1 * 256 + w2 % 256);
    assert(w1 * 256 + w2 % 256 == w2);
    assert(w2 * 256 + w3 % 256 == w3);
    assert(w3 * 256 + v % 256 == v);
}

/// A binary export whose data block holds `c`, which zstd decompresses to
/// `p`, meets what the import asks of its blocks, and its root data block
/// reads back as block 0, holding `p`, with the root item at offset 0. The
/// data block's length must fit the 28 bits a block header gives it.
pub proof fn lemma_bin_blocks(c: Seq<u8>, p: Seq<u8>)
    requires
        zstd_decompressed(c) == Some(p),
        c.len() + 12 < 0x1000_0000,
    ensures
        blocks_sized(bin_file(c), 8),
        bin_root_block(bin_file(c)) == Ok::<(Seq<u8>, u32, nat), crate::export::bin_read::BinError>((p, 0u32, 0nat)),
{
    let bl: int = c.len() + 12int;
    let bytes = bin_file(c);
    let h1 = be_bytes(bl as nat, 4);
    let n1 = be_bytes(0, 4);
    let h2 = be_bytes(0x1000_0018, 4);
    let r1 = be_bytes((0x0800_0000 + bl % 0x100_0000) as nat, 8);
    let r2 = be_bytes(0, 8);
    lemma_be_len(bl as nat, 4);
    lemma_be_len(0, 4);
    lemma_be_len(0x1000_0018, 4);
    lemma_be_len((0x0800_0000 + bl % 0x100_0000) as nat, 8);
    lemma_be_len(0, 8);
    assert(bytes == bin_signature() + h1 + n1 + c + h1 + h2 + r1 + r2 + h2);
    let off2: int = 8int + bl;
    assert(bytes.len() == off2 + 24);
    assert(bytes.subrange(0, 8) =~= bin_signature());
    assert(bytes.subrange(8, 12) =~= h1);
    lemma_be4_value(bl as nat);
    assert(block_len_at(bytes, 8) == bl);
    assert(block_type_at(bytes, 8) == 0);
    let content = bytes.subrange(12, 8 + bl - 4);
    assert(content =~= n1 + c);
    assert(content.subrange(0, 4) =~= n1);
    assert(content.subrange(4, content.len() as int) =~= c);
    lemma_be_zero(4);
    assert(bytes.subrange(off2, off2 + 4) =~= h2);
    lemma_be4_value(0x1000_0018);
    assert(block_len_at(bytes, off2) == 24);
    assert(block_type_at(bytes, off2) == 1);
    let content2 = bytes.subrange(off2 + 4, off2 + 24 - 4);
    assert(content2 =~= r1 + r2);
    assert(content2.subrange(8, 16) =~= r2);
    lemma_be_zero(8);
    let acc1 = BlockScan { data: Map::<u32, Seq<u8>>::empty().insert(0u32, p), index: None };
    let acc2 = BlockScan { data: acc1.data, index: Some(content2) };
    assert(scan_blocks(bytes, off2 + 24, acc2) == Ok::<BlockScan, crate::export::bin_read::BinError>(acc2));
    assert(scan_blocks(bytes, off2, acc1) == Ok::<BlockScan, crate::export::bin_read::BinError>(acc2));
    assert(be_value(content.subrange(0, 4)) == 0);
    assert(scan_blocks(bytes, 8, BlockScan { data: Map::empty(), index: None }) == Ok::<
        BlockScan,
        crate::export::bin_read::BinError,
    >(acc2));
    assert(blocks_sized(bytes, off2 + 24));
    assert(blocks_sized(bytes, off2));
}

} // verus!
