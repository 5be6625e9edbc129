use vstd::prelude::*;

verus! {

/// The output of zstd compression of `data` at level `level`.
pub uninterp spec fn zstd_compressed(data: Seq<u8>, level: i32) -> Seq<u8>;

/// The output of zstd decompression of `data`, `None` when `data` is not a
/// sequence of valid zstd frames.
pub uninterp spec fn zstd_decompressed(data: Seq<u8>) -> Option<Seq<u8>>;

/// The four bytes that open a zstd frame.
pub open spec fn zstd_magic() -> Seq<u8> {
    seq![0x28u8, 0xB5u8, 0x2Fu8, 0xFDu8]
}

/// Whether zstd compresses `data` at `level` without reporting an error.
pub uninterp spec fn zstd_encodes(data: Seq<u8>, level: i32) -> bool;

/// Calls `zstd::stream::encode_all` on `data` at `level`. Claims that it
/// succeeds exactly when `zstd_encodes(data, level)` (whether the encoder
/// reports an error depends on the input bytes and the level alone; a
/// failed allocation of its context panics rather than returning), that a
/// successful result is the compressed form named
/// `zstd_compressed(data, level)`, and that decompressing it gives `data`
/// back (zstd is lossless).
#[verifier::external_body]
pub(crate) fn zstd_encode(data: &[u8], level: i32) -> (r: Option<Vec<u8>>)
    ensures
        r is Some <==> zstd_encodes(data@, level),
        r matches Some(v) ==> v@ == zstd_compressed(data@, level) && zstd_decompressed(v@)
            == Some(data@),
{
    zstd::stream::encode_all(data, level).ok()
}

/// Calls `zstd::stream::decode_all` on `data`. Claims that it succeeds exactly
/// when `zstd_decompressed(data)` is some byte sequence, and then returns it.
#[verifier::external_body]
pub(crate) fn zstd_decode(data: &[u8]) -> (r: Option<Vec<u8>>)
    ensures
        r is Some <==> zstd_decompressed(data@) is Some,
        r matches Some(v) ==> v@ == zstd_decompressed(data@).unwrap(),
{
    zstd::stream::decode_all(data).ok()
}

/// The content of a file as read: decompressed when it opens with the zstd
/// magic bytes (`None` when that fails), as is otherwise.
pub open spec fn file_content(raw: Seq<u8>) -> Option<Seq<u8>> {
    if raw.len() >= 4 && raw.subrange(0, 4) == zstd_magic() {
        zstd_decompressed(raw)
    } else {
        Some(raw)
    }
}

/// Decompresses the bytes of a file when they open with the zstd magic
/// bytes; returns them unchanged otherwise.
pub fn decompress_if_zstd(raw: Vec<u8>) -> (r: Option<Vec<u8>>)
    ensures
        match r {
            Some(v) => file_content(raw@) == Some(v@),
            None => file_content(raw@) is None,
        },
{
    if raw.len() >= 4 && raw[0] == 0x28 && raw[1] == 0xB5 && raw[2] == 0x2F && raw[3] == 0xFD {
        assert(raw@.subrange(0, 4) =~= zstd_magic());
        zstd_decode(raw.as_slice())
    } else {
        proof {
            if raw@.len() >= 4 && raw@.subrange(0, 4) == zstd_magic() {
                assert(raw@.subrange(0, 4)[0] == raw@[0]);
                assert(raw@.subrange(0, 4)[1] == raw@[1]);
                assert(raw@.subrange(0, 4)[2] == raw@[2]);
                assert(raw@.subrange(0, 4)[3] == raw@[3]);
            }
        }
        Some(raw)
    }
}

} // verus!
