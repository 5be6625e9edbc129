//! Import and export of trees: the binary (CBOR) and JSON formats, with
//! optional zstd compression.

pub mod bin_write;
pub mod cbor;
pub mod compress;
pub mod cbor_read;
pub mod bin_read;
pub mod bin_link;
pub mod bin_blocks;
pub mod bin_fields;
pub mod json_value;
pub mod json_write;
pub mod json_read;
pub mod roundtrip;

use vstd::prelude::*;

use crate::export::bin_read::{bin_import, blocks_sized, blocks_well_sized, import_bin, BinError};
use crate::export::bin_write::bin_signature;
use crate::export::bin_write::ExportError;
use crate::export::compress::{
    decompress_if_zstd, file_content, zstd_compressed, zstd_decompressed, zstd_encode, zstd_encodes,
};
use crate::export::json_value::json_rendered;
use crate::export::json_write::document_json;
use crate::export::json_value::JsonValue;
use crate::export::json_read::{import_json, json_import, JsonError};
use crate::export::json_value::json_parsed;
use crate::tree::arena::TreeArena;

verus! {

/// Why an import failed.
#[derive(Clone, Copy, Debug, PartialEq, Eq, Structural)]
pub enum ImportError {
    /// The file opens with the zstd magic bytes but does not decompress.
    Decompression,
    /// A block of the binary export is shorter than its two headers.
    ShortBlock,
    /// The binary export is invalid.
    Bin(BinError),
    /// The JSON export is invalid.
    Json(JsonError),
}

/// Whether `b` opens with the binary export signature.
pub open spec fn is_bin_export(b: Seq<u8>) -> bool {
    b.len() >= 8 && b.subrange(0, 8) == bin_signature()
}

/// The outcome of importing a file with the raw bytes `raw`: the content is
/// decompressed when zstd-compressed, then read as a binary export when it
/// opens with the binary signature, as a JSON export otherwise.
pub open spec fn file_import(raw: Seq<u8>, r: Result<TreeArena, ImportError>) -> bool {
    match file_content(raw) {
        None => r == Err::<TreeArena, ImportError>(ImportError::Decompression),
        Some(b) => if is_bin_export(b) {
            if !blocks_sized(b, 8) {
                r == Err::<TreeArena, ImportError>(ImportError::ShortBlock)
            } else {
                match r {
                    Ok(a) => bin_import(b, Ok(a)),
                    Err(ImportError::Bin(e)) => bin_import(b, Err(e)),
                    _ => false,
                }
            }
        } else {
            match json_parsed(b) {
                None => r == Err::<TreeArena, ImportError>(ImportError::Json(JsonError::Parse)),
                Some(v) => match r {
                    Ok(a) => json_import(v, Ok(a)),
                    Err(ImportError::Json(e)) => json_import(v, Err(e)),
                    _ => false,
                },
            }
        },
    }
}

/// Whether the bytes open with the binary export signature.
fn starts_with_signature(b: &[u8]) -> (r: bool)
    ensures
        r == is_bin_export(b@),
{
    if b.len() < 8 {
        return false;
    }
    let ok = b[0] == 0xbf && b[1] == 0x6e && b[2] == 0x63 && b[3] == 0x64 && b[4] == 0x75 && b[5]
        == 0x45 && b[6] == 0x58 && b[7] == 0x31;
    if ok {
        assert(b@.subrange(0, 8) =~= bin_signature());
    } else {
        assert(b@.subrange(0, 8) != bin_signature()) by {
            if b@.subrange(0, 8) == bin_signature() {
                assert(b@.subrange(0, 8)[0] == b@[0]);
                assert(b@.subrange(0, 8)[1] == b@[1]);
                assert(b@.subrange(0, 8)[2] == b@[2]);
                assert(b@.subrange(0, 8)[3] == b@[3]);
                assert(b@.subrange(0, 8)[4] == b@[4]);
                assert(b@.subrange(0, 8)[5] == b@[5]);
                assert(b@.subrange(0, 8)[6] == b@[6]);
                assert(b@.subrange(0, 8)[7] == b@[7]);
            }
        }
    }
    ok
}

/// Imports a tree from the bytes of an export file, binary or JSON, either
/// possibly zstd-compressed.
pub fn import_file(raw: Vec<u8>) -> (r: Result<TreeArena, ImportError>)
    ensures
        file_import(raw@, r),
{
    let bytes = match decompress_if_zstd(raw) {
        Some(b) => b,
        None => {
            return Err(ImportError::Decompression);
        },
    };
    if starts_with_signature(bytes.as_slice()) {
        if !blocks_well_sized(bytes.as_slice()) {
            return Err(ImportError::ShortBlock);
        }
        match import_bin(bytes.as_slice()) {
            Ok(a) => Ok(a),
            Err(e) => Err(ImportError::Bin(e)),
        }
    } else {
        match import_json(bytes.as_slice()) {
            Ok(a) => Ok(a),
            Err(e) => Err(ImportError::Json(e)),
        }
    }
}

/// The bytes of a JSON export of the tree, compressed with zstd at
/// `compress_level` when `compress` is set.
pub fn export_json(arena: &TreeArena, compress: bool, compress_level: i32) -> (r: Result<
    Vec<u8>,
    ExportError,
>)
    requires
        arena.wf(),
    ensures
        match r {
            Ok(bytes) => exists|t: u64, v: JsonValue|
                document_json(*arena, t, v) && if compress {
                    bytes@ == zstd_compressed(json_rendered(v), compress_level) && zstd_decompressed(
                        bytes@,
                    ) == Some(json_rendered(v))
                } else {
                    bytes@ == json_rendered(v)
                },
            Err(e) => compress && e == ExportError::Compression && exists|t: u64, v: JsonValue|
                document_json(*arena, t, v) && !zstd_encodes(json_rendered(v), compress_level),
        },
{
    let json_bytes = crate::export::json_write::export_json(arena);
    if compress {
        match zstd_encode(json_bytes.as_slice(), compress_level) {
            Some(c) => Ok(c),
            None => Err(ExportError::Compression),
        }
    } else {
        Ok(json_bytes)
    }
}

} // verus!
