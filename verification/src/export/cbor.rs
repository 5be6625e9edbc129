use vstd::prelude::*;
use vstd::string::StringSliceAdditionalSpecFns;

verus! {

/// `v` as `n` bytes, most significant first (only the low `n` bytes of `v`).
pub open spec fn be_bytes(v: nat, n: nat) -> Seq<u8>
    decreases n,
{
    if n == 0 {
        Seq::empty()
    } else {
        be_bytes(v / 256, (n - 1) as nat).push((v % 256) as u8)
    }
}

/// The head of a CBOR data item of major type `major` with argument `u`
/// (RFC 8949, section 3): the argument is packed into the initial byte when
/// below 24, else it follows in 1, 2, 4 or 8 bytes.
#[verifier::opaque]
pub open spec fn cbor_head(major: nat, u: nat) -> Seq<u8> {
    let ib = major * 32;
    if u < 24 {
        seq![(ib + u) as u8]
    } else if u <= 0xff {
        seq![(ib + 24) as u8] + be_bytes(u, 1)
    } else if u <= 0xffff {
        seq![(ib + 25) as u8] + be_bytes(u, 2)
    } else if u <= 0xffff_ffff {
        seq![(ib + 26) as u8] + be_bytes(u, 4)
    } else {
        seq![(ib + 27) as u8] + be_bytes(u, 8)
    }
}

/// The CBOR encoding of the integer `v`: major type 0 for `v >= 0`, major
/// type 1 with argument `-1 - v` otherwise.
#[verifier::opaque]
pub open spec fn cbor_int(v: int) -> Seq<u8> {
    if v >= 0 {
        cbor_head(0, v as nat)
    } else {
        cbor_head(1, (-1 - v) as nat)
    }
}

/// The CBOR encoding of a text string whose UTF-8 bytes are `bytes`.
pub open spec fn cbor_text(bytes: Seq<u8>) -> Seq<u8> {
    cbor_head(3, bytes.len()) + bytes
}

/// The CBOR encoding of a boolean.
pub open spec fn cbor_bool(b: bool) -> Seq<u8> {
    if b {
        seq![0xf5u8]
    } else {
        seq![0xf4u8]
    }
}

/// An unsigned integer always written on 9 bytes.
pub open spec fn cbor_u64_fixed(u: nat) -> Seq<u8> {
    seq![0x1bu8] + be_bytes(u, 8)
}

/// Appends `v` as `n` big-endian bytes.
pub fn push_be(buf: &mut Vec<u8>, v: u64, n: usize)
    requires
        n <= 8,
    ensures
        final(buf)@ == old(buf)@ + be_bytes(v as nat, n as nat),
    decreases n,
{
    if n > 0 {
        push_be(buf, v / 256, n - 1);
        buf.push((v % 256) as u8);
        proof {
            assert(be_bytes(v as nat, n as nat) == be_bytes((v / 256) as nat, (n - 1) as nat).push(
                (v % 256) as u8,
            ));
        }
    } else {
        assert(old(buf)@ + be_bytes(v as nat, 0) =~= old(buf)@);
    }
}

/// Appends the head of a data item of major type `major` with argument `u`.
pub fn write_cbor_head(buf: &mut Vec<u8>, major: u8, u: u64)
    requires
        major < 8,
    ensures
        final(buf)@ == old(buf)@ + cbor_head(major as nat, u as nat),
{
    reveal(cbor_head);
    let ib: u8 = major * 32;
    if u < 24 {
        buf.push(ib + (u as u8));
        assert(final(buf)@ =~= old(buf)@ + cbor_head(major as nat, u as nat));
    } else {
        let n: usize = if u <= 0xff {
            buf.push(ib + 24);
            1
        } else if u <= 0xffff {
            buf.push(ib + 25);
            2
        } else if u <= 0xffff_ffff {
            buf.push(ib + 26);
            4
        } else {
            buf.push(ib + 27);
            8
        };
        let ghost mid = buf@;
        push_be(buf, u, n);
        assert(buf@ =~= old(buf)@ + cbor_head(major as nat, u as nat));
    }
}

/// Appends the CBOR encoding of the integer `val`.
pub fn write_cbor_int(buf: &mut Vec<u8>, val: i64)
    ensures
        final(buf)@ == old(buf)@ + cbor_int(val as int),
{
    reveal(cbor_int);
    if val >= 0 {
        write_cbor_head(buf, 0, val as u64);
    } else {
        let n: i64 = -1 - val;
        write_cbor_head(buf, 1, n as u64);
    }
}

/// Appends the CBOR encoding of the text `text`: its UTF-8 bytes preceded by
/// their count.
pub fn write_cbor_text(buf: &mut Vec<u8>, text: &str)
    ensures
        final(buf)@ == old(buf)@ + cbor_text(text.spec_bytes()),
{
    let bytes = text.as_bytes();
    write_cbor_head(buf, 3, bytes.len() as u64);
    let ghost mid = buf@;
    let mut i: usize = 0;
    while i < bytes.len()
        invariant
            i <= bytes@.len(),
            buf@ == mid + bytes@.subrange(0, i as int),
        decreases bytes@.len() - i,
    {
        buf.push(bytes[i]);
        i = i + 1;
        assert(buf@ =~= mid + bytes@.subrange(0, i as int));
    }
    assert(bytes@.subrange(0, bytes@.len() as int) =~= bytes@);
    assert(buf@ =~= old(buf)@ + cbor_text(text.spec_bytes()));
}

/// Appends the CBOR encoding of a boolean.
pub fn write_cbor_bool(buf: &mut Vec<u8>, b: bool)
    ensures
        final(buf)@ == old(buf)@ + cbor_bool(b),
{
    if b {
        buf.push(0xf5);
    } else {
        buf.push(0xf4);
    }
    assert(buf@ =~= old(buf)@ + cbor_bool(b));
}

} // verus!
