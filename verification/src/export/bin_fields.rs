//! What the directory fields of a binary export's items read back as.

use vstd::prelude::*;

use crate::export::bin_read::be_value;
use crate::export::bin_write::{
    field, field_count, item_body, item_bytes, item_fields_dir, item_fields_head, item_fields_tail, lemma_be_len,
};
use crate::export::cbor::{be_bytes, cbor_bool, cbor_head, cbor_int, cbor_text, cbor_u64_fixed};
use crate::tree::node::EntryFlags;
use vstd::utf8::{decode_utf8, encode_utf8, encode_utf8_decode_utf8};
use crate::export::cbor_read::CborScalarV;
use crate::tree::arena::TreeArena;

verus! {

/// The head of a CBOR data item at the start of `b` (RFC 8949, section 3):
/// its major type, its argument and its length in bytes. The argument is
/// packed in the initial byte when below 24, else it follows in 1, 2, 4 or
/// 8 bytes, most significant first.
pub open spec fn read_head(b: Seq<u8>) -> Option<(nat, nat, nat)> {
    if b.len() == 0 {
        None
    } else {
        let major = (b[0] / 32) as nat;
        let info = (b[0] % 32) as nat;
        if info < 24 {
            Some((major, info, 1))
        } else if info <= 27 {
            let w: nat = if info == 24 {
                1
            } else if info == 25 {
                2
            } else if info == 26 {
                4
            } else {
                8
            };
            if b.len() >= 1 + w {
                Some((major, be_value(b.subrange(1, 1 + w as int)), 1 + w))
            } else {
                None
            }
        } else {
            None
        }
    }
}

/// The integer, text or boolean at the start of `b`, and its length: major
/// type 0 is the argument, major type 1 is -1 minus the argument, major
/// type 3 is the text whose UTF-8 bytes, as many as the argument, follow,
/// and the simple values 20 and 21 are false and true.
pub open spec fn read_scalar(b: Seq<u8>) -> Option<(CborScalarV, nat)> {
    match read_head(b) {
        Some((m, u, l)) => if m == 0 {
            Some((CborScalarV::Int(u as i128), l))
        } else if m == 1 {
            Some((CborScalarV::Int((-1 - u) as i128), l))
        } else if m == 3 && b.len() >= l + u {
            Some((CborScalarV::Text(decode_utf8(b.subrange(l as int, (l + u) as int))), l + u))
        } else if m == 7 && u == 20 {
            Some((CborScalarV::Bool(false), l))
        } else if m == 7 && u == 21 {
            Some((CborScalarV::Bool(true), l))
        } else {
            None
        },
        None => None,
    }
}

/// The map entries `b` holds, read one key and one value after another
/// until all of `b` is read; `None` when something else stands in it.
#[verifier::opaque]
pub open spec fn read_entries(b: Seq<u8>) -> Option<Seq<(CborScalarV, CborScalarV)>>
    decreases b.len(),
{
    if b.len() == 0 {
        Some(Seq::empty())
    } else {
        match read_scalar(b) {
            Some((k, l1)) => if 0 < l1 <= b.len() {
                let b1 = b.subrange(l1 as int, b.len() as int);
                match read_scalar(b1) {
                    Some((v, l2)) => if 0 < l2 <= b1.len() {
                        match read_entries(b1.subrange(l2 as int, b1.len() as int)) {
                            Some(rest) => Some(seq![(k, v)] + rest),
                            None => None,
                        }
                    } else {
                        None
                    },
                    None => None,
                }
            } else {
                None
            },
            None => None,
        }
    }
}

/// 256 to the power `n`.
pub open spec fn byte_bound(n: nat) -> nat
    decreases n,
{
    if n == 0 {
        1
    } else {
        256 * byte_bound((n - 1) as nat)
    }
}

/// No bytes hold no entries.
proof fn lemma_read_nothing()
    ensures
        read_entries(Seq::<u8>::empty()) == Some(Seq::<(CborScalarV, CborScalarV)>::empty()),
{
    reveal(read_entries);
}

/// A value that fits `n` bytes, written on `n` bytes, reads back as itself.
proof fn lemma_be_bytes_value(v: nat, n: nat)
    requires
        v < byte_bound(n),
    ensures
        be_value(be_bytes(v, n)) == v,
    decreases n,
{
    if n > 0 {
        let b = byte_bound((n - 1) as nat);
        assert(v / 256 < b) by (nonlinear_arith)
            requires
                v < 256 * b,
        ;
        lemma_be_bytes_value(v / 256, (n - 1) as nat);
        let s = be_bytes(v / 256, (n - 1) as nat);
        assert(s.push((v % 256) as u8).drop_last() =~= s);
    }
}

/// The head written for major type `m` and argument `u` reads back as them,
/// whatever follows it.
proof fn lemma_read_head(m: nat, u: nat, rest: Seq<u8>)
    requires
        m < 8,
        u < 0x1_0000_0000_0000_0000,
    ensures
        read_head(cbor_head(m, u) + rest) == Some((m, u, cbor_head(m, u).len())),
{
    reveal(cbor_head);
    reveal_with_fuel(byte_bound, 9);
    let h = cbor_head(m, u);
    let b = h + rest;
    let w: nat = if u < 24 {
        0
    } else if u <= 0xff {
        1
    } else if u <= 0xffff {
        2
    } else if u <= 0xffff_ffff {
        4
    } else {
        8
    };
    lemma_be_len(u, w);
    if w > 0 {
        assert(b.subrange(1, 1 + w as int) =~= be_bytes(u, w));
        lemma_be_bytes_value(u, w);
    }
}

/// An integer written in CBOR reads back as itself.
proof fn lemma_read_int(v: int, rest: Seq<u8>)
    requires
        i64::MIN <= v <= u64::MAX,
    ensures
        read_scalar(cbor_int(v) + rest) == Some((CborScalarV::Int(v as i128), cbor_int(v).len())),
{
    reveal(cbor_int);
    if v >= 0 {
        lemma_read_head(0, v as nat, rest);
    } else {
        lemma_read_head(1, (-1 - v) as nat, rest);
    }
}

/// A field key below 24, written as one byte, reads back as that integer.
proof fn lemma_read_key(k: u8, rest: Seq<u8>)
    requires
        k < 24,
    ensures
        read_scalar(seq![k] + rest) == Some((CborScalarV::Int(k as i128), 1nat)),
{
}

/// A field read back: its key, then its integer value, then the rest.
proof fn lemma_read_int_field(k: u8, v: int, rest: Seq<u8>)
    requires
        k < 24,
        i64::MIN <= v <= u64::MAX,
        read_entries(rest) is Some,
    ensures
        read_entries(field(k, cbor_int(v)) + rest) == Some(
            seq![(CborScalarV::Int(k as i128), CborScalarV::Int(v as i128))] + read_entries(rest)->0,
        ),
{
    reveal(read_entries);
    let e = cbor_int(v);
    let b = field(k, e) + rest;
    assert(b =~= seq![k] + (e + rest));
    lemma_read_key(k, e + rest);
    reveal(cbor_int);
    reveal(cbor_head);
    assert(e.len() > 0);
    let b1 = b.subrange(1, b.len() as int);
    assert(b1 =~= e + rest);
    lemma_read_int(v, rest);
    assert(b1.subrange(e.len() as int, b1.len() as int) =~= rest);
}

/// The offset of a first child, written on 9 bytes under key 12, reads
/// back as itself.
proof fn lemma_read_sub_field(sub: nat)
    requires
        sub <= u64::MAX,
    ensures
        read_entries(field(12, cbor_u64_fixed(sub))) == Some(
            seq![(CborScalarV::Int(12), CborScalarV::Int(sub as i128))],
        ),
{
    reveal(read_entries);
    let f = cbor_u64_fixed(sub);
    let b = field(12, f);
    lemma_be_len(sub, 8);
    reveal_with_fuel(byte_bound, 9);
    lemma_be_bytes_value(sub, 8);
    assert(f.subrange(1, 9) =~= be_bytes(sub, 8));
    assert(f[0] == 0x1bu8);
    assert(read_head(f) == Some((0nat, sub, 9nat)));
    assert(read_scalar(f) == Some((CborScalarV::Int(sub as i128), 9nat)));
    assert(read_scalar(b) == Some((CborScalarV::Int(12), 1nat)));
    let b1 = b.subrange(1, b.len() as int);
    assert(b1 =~= f);
    assert(b1.subrange(9, b1.len() as int) =~= Seq::<u8>::empty());
    lemma_read_nothing();
    assert(seq![(CborScalarV::Int(12), CborScalarV::Int(sub as i128))] + Seq::<(CborScalarV, CborScalarV)>::empty()
        =~= seq![(CborScalarV::Int(12), CborScalarV::Int(sub as i128))]);
}

/// The directory fields of the item written for a directory read back as
/// its cumulated apparent size under key 7, its cumulated disk usage under
/// key 8 and its item count under key 11, then, when it has children, the
/// offset `sub` of its first child under key 12.
#[verifier::rlimit(30)]
pub proof fn lemma_dir_fields_read(a: TreeArena, x: int, sub: int)
    requires
        0 <= x < a.len(),
        a.nodes@[x].spec_is_dir(),
        0 <= sub <= u64::MAX,
    ensures
        ({
            let n = a.nodes@[x];
            read_entries(item_fields_dir(a, x, sub)) == Some(
                seq![
                    (CborScalarV::Int(7), CborScalarV::Int(n.stats.total_asize as i128)),
                    (CborScalarV::Int(8), CborScalarV::Int(n.stats.total_dsize as i128)),
                    (CborScalarV::Int(11), CborScalarV::Int(n.stats.item_count as i128)),
                ] + if n.children@.len() > 0 {
                    seq![(CborScalarV::Int(12), CborScalarV::Int(sub as i128))]
                } else {
                    Seq::empty()
                },
            )
        }),
{
    reveal(item_fields_dir);
    let n = a.nodes@[x];
    let tail = if n.children@.len() > 0 {
        field(12, cbor_u64_fixed(sub as nat))
    } else {
        Seq::empty()
    };
    let tail_e = if n.children@.len() > 0 {
        seq![(CborScalarV::Int(12), CborScalarV::Int(sub as i128))]
    } else {
        Seq::<(CborScalarV, CborScalarV)>::empty()
    };
    if n.children@.len() > 0 {
        lemma_read_sub_field(sub as nat);
    }
    lemma_read_nothing();
    assert(read_entries(tail) == Some(tail_e));
    let f11 = field(11, cbor_int(n.stats.item_count as int));
    let f8 = field(8, cbor_int(n.stats.total_dsize as int));
    let f7 = field(7, cbor_int(n.stats.total_asize as int));
    lemma_read_int_field(11, n.stats.item_count as int, tail);
    lemma_read_int_field(8, n.stats.total_dsize as int, f11 + tail);
    lemma_read_int_field(7, n.stats.total_asize as int, f8 + (f11 + tail));
    assert(item_fields_dir(a, x, sub) =~= f7 + (f8 + (f11 + tail)));
}

/// A field read back: its key, then its value, then the rest.
proof fn lemma_read_field(k: u8, e: Seq<u8>, v: CborScalarV, rest: Seq<u8>)
    requires
        k < 24,
        e.len() > 0,
        read_scalar(e + rest) == Some((v, e.len())),
        read_entries(rest) is Some,
    ensures
        read_entries(field(k, e) + rest) == Some(
            seq![(CborScalarV::Int(k as i128), v)] + read_entries(rest)->0,
        ),
{
    reveal(read_entries);
    let b = field(k, e) + rest;
    assert(b =~= seq![k] + (e + rest));
    lemma_read_key(k, e + rest);
    let b1 = b.subrange(1, b.len() as int);
    assert(b1 =~= e + rest);
    assert(b1.subrange(e.len() as int, b1.len() as int) =~= rest);
}

/// A text written in CBOR reads back as itself.
proof fn lemma_read_text(t: Seq<char>, rest: Seq<u8>)
    requires
        encode_utf8(t).len() < 0x1_0000_0000_0000_0000,
    ensures
        read_scalar(cbor_text(encode_utf8(t)) + rest) == Some((CborScalarV::Text(t), cbor_text(encode_utf8(t)).len())),
        cbor_text(encode_utf8(t)).len() > 0,
{
    let e = encode_utf8(t);
    let h = cbor_head(3, e.len());
    lemma_read_head(3, e.len(), e + rest);
    reveal(cbor_head);
    assert(cbor_text(e) + rest =~= h + (e + rest));
    assert((h + (e + rest)).subrange(h.len() as int, (h.len() + e.len()) as int) =~= e);
    encode_utf8_decode_utf8(t);
}

/// A boolean written in CBOR reads back as itself.
proof fn lemma_read_bool(v: bool, rest: Seq<u8>)
    ensures
        read_scalar(cbor_bool(v) + rest) == Some((CborScalarV::Bool(v), 1nat)),
        cbor_bool(v).len() == 1,
{
}

/// An integer written in CBOR is not empty.
proof fn lemma_int_len(v: int)
    ensures
        cbor_int(v).len() > 0,
{
    reveal(cbor_int);
    reveal(cbor_head);
}

/// The size, device and read-error fields read back as the apparent size
/// under key 3, the disk usage under key 4, the device (as a signed 64-bit
/// number) under key 5 and, when set, true under key 6.
proof fn lemma_size_fields_read(asize: i64, dsize: i64, dev: u64, rderr: bool)
    ensures
        read_entries(field(3, cbor_int(asize as int)) + field(4, cbor_int(dsize as int)) + field(
            5,
            cbor_int((dev as i64) as int),
        ) + (if rderr { field(6, cbor_bool(true)) } else { Seq::empty() })) == Some(
            seq![
                (CborScalarV::Int(3), CborScalarV::Int(asize as i128)),
                (CborScalarV::Int(4), CborScalarV::Int(dsize as i128)),
                (CborScalarV::Int(5), CborScalarV::Int((dev as i64) as i128)),
            ] + (if rderr {
                seq![(CborScalarV::Int(6), CborScalarV::Bool(true))]
            } else {
                Seq::<(CborScalarV, CborScalarV)>::empty()
            }),
        ),
{
    let f6 = if rderr { field(6, cbor_bool(true)) } else { Seq::empty() };
    let e6 = if rderr {
        seq![(CborScalarV::Int(6), CborScalarV::Bool(true))]
    } else {
        Seq::<(CborScalarV, CborScalarV)>::empty()
    };
    lemma_read_nothing();
    if rderr {
        lemma_read_bool(true, Seq::empty());
        assert(cbor_bool(true) + Seq::<u8>::empty() =~= cbor_bool(true));
        lemma_read_field(6, cbor_bool(true), CborScalarV::Bool(true), Seq::empty());
        assert(field(6, cbor_bool(true)) + Seq::<u8>::empty() =~= field(6, cbor_bool(true)));
        assert(seq![(CborScalarV::Int(6), CborScalarV::Bool(true))] + Seq::<(CborScalarV, CborScalarV)>::empty()
            =~= e6);
    }
    lemma_read_nothing();
    assert(read_entries(f6) == Some(e6));
    let f5 = field(5, cbor_int((dev as i64) as int));
    let f4 = field(4, cbor_int(dsize as int));
    let f3 = field(3, cbor_int(asize as int));
    lemma_read_int_field(5, (dev as i64) as int, f6);
    lemma_read_int_field(4, dsize as int, f5 + f6);
    lemma_read_int_field(3, asize as int, f4 + (f5 + f6));
    assert(f3 + f4 + f5 + f6 =~= f3 + (f4 + (f5 + f6)));
}

/// The distance back to a previous sibling, when there is one, reads back
/// under key 2 before what follows.
proof fn lemma_prev_field_read(prev: Option<int>, off: int, rest: Seq<u8>, er: Seq<(CborScalarV, CborScalarV)>)
    requires
        prev matches Some(p) ==> i64::MIN <= p - off <= i64::MAX,
        read_entries(rest) == Some(er),
    ensures
        read_entries(
            (match prev {
                Some(p) => field(2, cbor_int(p - off)),
                None => Seq::empty(),
            }) + rest,
        ) == Some(
            (match prev {
                Some(p) => seq![(CborScalarV::Int(2), CborScalarV::Int((p - off) as i128))],
                None => Seq::<(CborScalarV, CborScalarV)>::empty(),
            }) + er,
        ),
{
    match prev {
        Some(p) => {
            lemma_read_int_field(2, p - off, rest);
        },
        None => {
            assert(Seq::<u8>::empty() + rest =~= rest);
            assert(Seq::<(CborScalarV, CborScalarV)>::empty() + er =~= er);
        },
    }
}

/// The type and the name read back under keys 0 and 1 before what follows.
proof fn lemma_type_name_read(ty: int, name: Seq<char>, rest: Seq<u8>, er: Seq<(CborScalarV, CborScalarV)>)
    requires
        0 <= ty <= 1,
        encode_utf8(name).len() < 0x1_0000_0000_0000_0000,
        read_entries(rest) == Some(er),
    ensures
        read_entries(field(0, cbor_int(ty)) + (field(1, cbor_text(encode_utf8(name))) + rest)) == Some(
            seq![
                (CborScalarV::Int(0), CborScalarV::Int(ty as i128)),
                (CborScalarV::Int(1), CborScalarV::Text(name)),
            ] + er,
        ),
{
    let f1 = field(1, cbor_text(encode_utf8(name)));
    lemma_read_text(name, rest);
    lemma_read_field(1, cbor_text(encode_utf8(name)), CborScalarV::Text(name), rest);
    lemma_read_int_field(0, ty, f1 + rest);
    assert(seq![(CborScalarV::Int(0), CborScalarV::Int(ty as i128))] + (seq![
        (CborScalarV::Int(1), CborScalarV::Text(name)),
    ] + er) =~= seq![
        (CborScalarV::Int(0), CborScalarV::Int(ty as i128)),
        (CborScalarV::Int(1), CborScalarV::Text(name)),
    ] + er);
}

/// The leading fields of the item written for node `x` at offset `off`
/// read back as its type (1 for a directory, 0 otherwise) under key 0, its
/// name under key 1, the distance back to its previous sibling (when it
/// has one) under key 2, its apparent size under key 3, its disk usage
/// under key 4, its device (as a signed 64-bit number) under key 5, and, when
/// it could not be read, true under key 6.
pub proof fn lemma_head_fields_read(a: TreeArena, x: int, off: int, prev: Option<int>)
    requires
        0 <= x < a.len(),
        prev matches Some(p) ==> i64::MIN <= p - off <= i64::MAX,
        encode_utf8(a.nodes@[x].name@).len() < 0x1_0000_0000_0000_0000,
    ensures
        ({
            let n = a.nodes@[x];
            read_entries(item_fields_head(a, x, off, prev)) == Some(
                seq![
                    (CborScalarV::Int(0), CborScalarV::Int(if n.spec_is_dir() { 1 } else { 0 })),
                    (CborScalarV::Int(1), CborScalarV::Text(n.name@)),
                ] + (match prev {
                    Some(p) => seq![(CborScalarV::Int(2), CborScalarV::Int((p - off) as i128))],
                    None => Seq::empty(),
                }) + seq![
                    (CborScalarV::Int(3), CborScalarV::Int(n.asize as i128)),
                    (CborScalarV::Int(4), CborScalarV::Int(n.dsize as i128)),
                    (CborScalarV::Int(5), CborScalarV::Int((n.dev as i64) as i128)),
                ] + (if EntryFlags::has(n.flags.bits, 2) {
                    seq![(CborScalarV::Int(6), CborScalarV::Bool(true))]
                } else {
                    Seq::empty()
                }),
            )
        }),
{
    let n = a.nodes@[x];
    let ty: int = if n.spec_is_dir() { 1 } else { 0 };
    let rd = EntryFlags::has(n.flags.bits, 2);
    let r3 = field(3, cbor_int(n.asize as int)) + field(4, cbor_int(n.dsize as int)) + field(
        5,
        cbor_int((n.dev as i64) as int),
    ) + (if rd { field(6, cbor_bool(true)) } else { Seq::empty() });
    let e3 = seq![
        (CborScalarV::Int(3), CborScalarV::Int(n.asize as i128)),
        (CborScalarV::Int(4), CborScalarV::Int(n.dsize as i128)),
        (CborScalarV::Int(5), CborScalarV::Int((n.dev as i64) as i128)),
    ] + (if rd {
        seq![(CborScalarV::Int(6), CborScalarV::Bool(true))]
    } else {
        Seq::<(CborScalarV, CborScalarV)>::empty()
    });
    lemma_size_fields_read(n.asize, n.dsize, n.dev, rd);
    let fp = match prev {
        Some(p) => field(2, cbor_int(p - off)),
        None => Seq::empty(),
    };
    let ep = match prev {
        Some(p) => seq![(CborScalarV::Int(2), CborScalarV::Int((p - off) as i128))],
        None => Seq::<(CborScalarV, CborScalarV)>::empty(),
    };
    lemma_prev_field_read(prev, off, r3, e3);
    lemma_type_name_read(ty, n.name@, fp + r3, ep + e3);
    let e01 = seq![
        (CborScalarV::Int(0), CborScalarV::Int(ty as i128)),
        (CborScalarV::Int(1), CborScalarV::Text(n.name@)),
    ];
    assert(e01 + (ep + e3) =~= e01 + ep + e3);
    let f0 = field(0, cbor_int(ty));
    let f1 = field(1, cbor_text(encode_utf8(n.name@)));
    let f3 = field(3, cbor_int(n.asize as int));
    let f4 = field(4, cbor_int(n.dsize as int));
    let f5 = field(5, cbor_int((n.dev as i64) as int));
    let f6 = if rd { field(6, cbor_bool(true)) } else { Seq::empty() };
    assert(item_fields_head(a, x, off, prev) == f0 + f1 + fp + f3 + f4 + f5 + f6) by {
        reveal(item_fields_head);
    }
    assert(f0 + f1 + fp + f3 + f4 + f5 + f6 =~= f0 + (f1 + (fp + r3)));
}

/// The closing fields of the item written for node `x` read back as its
/// inode (as a signed 64-bit number) under key 13 and its link count under
/// key 14, then, when it has extended information, its owner, group, mode
/// and modification time under keys 15 to 18.
#[verifier::rlimit(40)]
pub proof fn lemma_tail_fields_read(a: TreeArena, x: int)
    requires
        0 <= x < a.len(),
    ensures
        ({
            let n = a.nodes@[x];
            read_entries(item_fields_tail(a, x)) == Some(
                seq![
                    (CborScalarV::Int(13), CborScalarV::Int((n.ino as i64) as i128)),
                    (CborScalarV::Int(14), CborScalarV::Int(n.nlink as i128)),
                ] + match n.extended {
                    Some(e) => seq![
                        (CborScalarV::Int(15), CborScalarV::Int(e.uid as i128)),
                        (CborScalarV::Int(16), CborScalarV::Int(e.gid as i128)),
                        (CborScalarV::Int(17), CborScalarV::Int(e.mode as i128)),
                        (CborScalarV::Int(18), CborScalarV::Int(e.mtime as i128)),
                    ],
                    None => Seq::empty(),
                },
            )
        }),
{
    let n = a.nodes@[x];
    let ext = match n.extended {
        Some(e) => field(15, cbor_int(e.uid as int)) + field(16, cbor_int(e.gid as int)) + field(
            17,
            cbor_int(e.mode as int),
        ) + field(18, cbor_int(e.mtime as int)),
        None => Seq::empty(),
    };
    let e_ext = match n.extended {
        Some(e) => seq![
            (CborScalarV::Int(15), CborScalarV::Int(e.uid as i128)),
            (CborScalarV::Int(16), CborScalarV::Int(e.gid as i128)),
            (CborScalarV::Int(17), CborScalarV::Int(e.mode as i128)),
            (CborScalarV::Int(18), CborScalarV::Int(e.mtime as i128)),
        ],
        None => Seq::<(CborScalarV, CborScalarV)>::empty(),
    };
    lemma_ext_fields_read(n.extended);
    assert(read_entries(ext) == Some(e_ext));
    let f14 = field(14, cbor_int(n.nlink as int));
    lemma_read_int_field(14, n.nlink as int, ext);
    lemma_read_int_field(13, (n.ino as i64) as int, f14 + ext);
    assert(seq![
        (CborScalarV::Int(13), CborScalarV::Int((n.ino as i64) as i128)),
        (CborScalarV::Int(14), CborScalarV::Int(n.nlink as i128)),
    ] + e_ext =~= seq![(CborScalarV::Int(13), CborScalarV::Int((n.ino as i64) as i128))] + (seq![
        (CborScalarV::Int(14), CborScalarV::Int(n.nlink as i128)),
    ] + e_ext));
    assert(item_fields_tail(a, x) =~= field(13, cbor_int((n.ino as i64) as int)) + (f14 + ext)) by {
        reveal(item_fields_tail);
    }
}

/// The extended information fields read back as the owner, group, mode
/// and modification time under keys 15 to 18.
proof fn lemma_ext_fields_read(ext: Option<crate::tree::node::ExtendedInfo>)
    ensures
        read_entries(match ext {
            Some(e) => field(15, cbor_int(e.uid as int)) + field(16, cbor_int(e.gid as int)) + field(
                17,
                cbor_int(e.mode as int),
            ) + field(18, cbor_int(e.mtime as int)),
            None => Seq::empty(),
        }) == Some(match ext {
            Some(e) => seq![
                (CborScalarV::Int(15), CborScalarV::Int(e.uid as i128)),
                (CborScalarV::Int(16), CborScalarV::Int(e.gid as i128)),
                (CborScalarV::Int(17), CborScalarV::Int(e.mode as i128)),
                (CborScalarV::Int(18), CborScalarV::Int(e.mtime as i128)),
            ],
            None => Seq::<(CborScalarV, CborScalarV)>::empty(),
        }),
{
    lemma_read_nothing();
    match ext {
        Some(e) => {
            let g18 = field(18, cbor_int(e.mtime as int));
            let g17 = field(17, cbor_int(e.mode as int));
            let g16 = field(16, cbor_int(e.gid as int));
            let g15 = field(15, cbor_int(e.uid as int));
            lemma_read_nothing();
            lemma_read_int_field(18, e.mtime as int, Seq::empty());
            assert(g18 + Seq::<u8>::empty() =~= g18);
            lemma_read_int_field(17, e.mode as int, g18);
            lemma_read_int_field(16, e.gid as int, g17 + g18);
            lemma_read_int_field(15, e.uid as int, g16 + (g17 + g18));
            assert(g15 + g16 + g17 + g18 =~= g15 + (g16 + (g17 + g18)));
        },
        None => {},
    }
}

} // verus!

verus! {

/// An item written for anything but a directory holds no directory field.
pub proof fn lemma_file_has_no_dir_fields(a: TreeArena, x: int, sub: int)
    requires
        0 <= x < a.len(),
        !a.nodes@[x].spec_is_dir(),
    ensures
        read_entries(item_fields_dir(a, x, sub)) == Some(Seq::<(CborScalarV, CborScalarV)>::empty()),
{
    reveal(item_fields_dir);
    lemma_read_nothing();
}

} // verus!

verus! {

/// What follows a scalar plays no part in reading it.
proof fn lemma_scalar_prefix(x: Seq<u8>, y: Seq<u8>)
    requires
        read_scalar(x) matches Some((v, l)) && l <= x.len(),
    ensures
        read_scalar(x + y) == read_scalar(x),
{
    let b = x + y;
    assert(b[0] == x[0]);
    let info = (x[0] % 32) as nat;
    if 24 <= info <= 27 {
        let w: nat = if info == 24 {
            1
        } else if info == 25 {
            2
        } else if info == 26 {
            4
        } else {
            8
        };
        assert(b.subrange(1, 1 + w as int) =~= x.subrange(1, 1 + w as int));
    }
    if let Some((m, u, l)) = read_head(x) {
        if m == 3 && x.len() >= l + u {
            assert(b.subrange(l as int, (l + u) as int) =~= x.subrange(l as int, (l + u) as int));
        }
    }
}

/// Entries read from two runs of bytes, one after the other, are the
/// entries of the first run, then those of the second.
proof fn lemma_read_concat(
    x: Seq<u8>,
    y: Seq<u8>,
    ex: Seq<(CborScalarV, CborScalarV)>,
    ey: Seq<(CborScalarV, CborScalarV)>,
)
    requires
        read_entries(x) == Some(ex),
        read_entries(y) == Some(ey),
    ensures
        read_entries(x + y) == Some(ex + ey),
    decreases x.len(),
{
    reveal(read_entries);
    if x.len() == 0 {
        assert(x + y =~= y);
        assert(ex + ey =~= ey);
    } else {
        let (k, l1) = read_scalar(x)->0;
        let x1 = x.subrange(l1 as int, x.len() as int);
        let (v, l2) = read_scalar(x1)->0;
        let x2 = x1.subrange(l2 as int, x1.len() as int);
        let rest = read_entries(x2)->0;
        lemma_scalar_prefix(x, y);
        let b = x + y;
        let b1 = b.subrange(l1 as int, b.len() as int);
        assert(b1 =~= x1 + y);
        lemma_scalar_prefix(x1, y);
        let b2 = b1.subrange(l2 as int, b1.len() as int);
        assert(b2 =~= x2 + y);
        lemma_read_concat(x2, y, rest, ey);
        assert(seq![(k, v)] + (rest + ey) =~= (seq![(k, v)] + rest) + ey);
    }
}

/// The item written for node `x` is a CBOR map (major type 5) whose count
/// is the number of entries its fields read back as: the leading fields,
/// the directory fields (for a directory) and the closing fields, in that
/// order.
pub proof fn lemma_item_read(a: TreeArena, x: int, off: int, prev: Option<int>, sub: int)
    requires
        0 <= x < a.len(),
        prev matches Some(p) ==> i64::MIN <= p - off <= i64::MAX,
        encode_utf8(a.nodes@[x].name@).len() < 0x1_0000_0000_0000_0000,
        0 <= sub <= u64::MAX,
    ensures
        read_head(item_bytes(a, x, off, prev, sub)) == Some((5nat, field_count(a, x, prev is Some), 1nat)),
        read_entries(item_body(a, x, off, prev, sub)) matches Some(es) && es.len() == field_count(
            a,
            x,
            prev is Some,
        ),
{
    let n = a.nodes@[x];
    let h = item_fields_head(a, x, off, prev);
    let d = item_fields_dir(a, x, sub);
    let t = item_fields_tail(a, x);
    lemma_head_fields_read(a, x, off, prev);
    if n.spec_is_dir() {
        lemma_dir_fields_read(a, x, sub);
    } else {
        lemma_file_has_no_dir_fields(a, x, sub);
    }
    lemma_tail_fields_read(a, x);
    let eh = read_entries(h)->0;
    let ed = read_entries(d)->0;
    let et = read_entries(t)->0;
    lemma_read_concat(h, d, eh, ed);
    lemma_read_concat(h + d, t, eh + ed, et);
    let c = field_count(a, x, prev is Some);
    assert(c < 24);
    lemma_read_head(5, c, item_body(a, x, off, prev, sub));
    reveal(cbor_head);
}

} // verus!
