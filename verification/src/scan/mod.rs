//! Scanning: the options a scan runs with, what it records for each entry
//! it meets, and which entries it leaves out.

pub mod filter;
pub mod record;

use vstd::prelude::*;

use crate::cli::Args;
use crate::tree::node::ExtendedInfo;

verus! {

/// Default zstandard compression level.
pub const DEFAULT_COMPRESS_LEVEL: i32 = 4;

/// Default number of scan threads (a single-threaded walk).
pub const DEFAULT_THREADS: usize = 1;

/// Default block size of a binary export, in KiB.
pub const DEFAULT_BLOCK_SIZE_KB: usize = 64;

/// What a scan is asked to do.
#[derive(Debug, Clone)]
pub struct ScanOptions {
    pub one_file_system: bool,
    pub exclude_patterns: Vec<String>,
    /// File holding more exclusion patterns, one per line.
    pub exclude_from: Option<String>,
    pub exclude_caches: bool,
    pub exclude_kernfs: bool,
    pub follow_symlinks: bool,
    pub threads: usize,
    pub extended: bool,
}

impl ScanOptions {
    /// The scan options the command line asks for; one thread unless a
    /// number was given.
    pub fn from_args(args: &Args) -> (r: ScanOptions)
        ensures
            r.one_file_system == args.one_file_system,
            r.exclude_patterns@ == args.exclude@,
            r.exclude_from == args.exclude_from,
            r.exclude_caches == args.exclude_caches,
            r.exclude_kernfs == args.exclude_kernfs,
            r.follow_symlinks == args.follow_symlinks,
            r.threads == (match args.threads {
                Some(n) => n,
                None => DEFAULT_THREADS,
            }),
            r.extended == args.extended,
    {
        let mut exclude_patterns: Vec<String> = Vec::new();
        let mut i: usize = 0;
        while i < args.exclude.len()
            invariant
                i <= args.exclude@.len(),
                exclude_patterns@ == args.exclude@.subrange(0, i as int),
            decreases args.exclude@.len() - i,
        {
            let s = args.exclude[i].clone();
            exclude_patterns.push(s);
            assert(exclude_patterns@ =~= args.exclude@.subrange(0, i + 1));
            i = i + 1;
        }
        assert(exclude_patterns@ =~= args.exclude@);
        let exclude_from = match &args.exclude_from {
            Some(p) => Some(p.clone()),
            None => None,
        };
        let threads = match args.threads {
            Some(n) => n,
            None => DEFAULT_THREADS,
        };
        ScanOptions {
            one_file_system: args.one_file_system,
            exclude_patterns,
            exclude_from,
            exclude_caches: args.exclude_caches,
            exclude_kernfs: args.exclude_kernfs,
            follow_symlinks: args.follow_symlinks,
            threads,
            extended: args.extended,
        }
    }
}

/// How a scan reports its progress.
#[derive(Debug, Clone, Copy, PartialEq, Eq, Structural)]
pub enum ProgressMode {
    Silent,
    Line,
    Fullscreen,
}

/// Running counts of a scan: entries recorded and the disk usage they add up to.
#[derive(Debug)]
pub struct ScanStats {
    pub items_scanned: u64,
    pub size_scanned: i64,
}

impl Default for ScanStats {
    fn default() -> (r: ScanStats)
        ensures
            r.items_scanned == 0,
            r.size_scanned == 0,
    {
        ScanStats { items_scanned: 0, size_scanned: 0 }
    }
}

/// What a scan reads of an entry's metadata.
#[derive(Debug, Clone)]
pub struct PlatformMetadata {
    /// Apparent size in bytes.
    pub asize: i64,
    /// Disk usage in bytes.
    pub dsize: i64,
    pub dev: u64,
    pub ino: u64,
    pub nlink: u32,
    pub extended: Option<ExtendedInfo>,
}

impl PlatformMetadata {
    /// The metadata of a Unix entry from its raw fields: the length as a
    /// signed size, disk usage as 512-byte blocks, the link count cut to 32
    /// bits, and the ownership, mode and time kept in extended mode only.
    pub fn from_unix(
        len: u64,
        blocks: u64,
        dev: u64,
        ino: u64,
        nlink: u64,
        mtime: i64,
        uid: u32,
        gid: u32,
        mode: u32,
        extended: bool,
    ) -> (r: PlatformMetadata)
        requires
            i64::MIN <= (blocks as i64) * 512 <= i64::MAX,
        ensures
            r.asize == len as i64,
            r.dsize == (blocks as i64) * 512,
            r.dev == dev,
            r.ino == ino,
            r.nlink == nlink as u32,
            r.extended == (if extended {
                Some(ExtendedInfo { mtime, uid, gid, mode })
            } else {
                None::<ExtendedInfo>
            }),
    {
        let b: i64 = blocks as i64;
        let extended_info = if extended {
            Some(ExtendedInfo { mtime, uid, gid, mode })
        } else {
            None
        };
        PlatformMetadata {
            asize: len as i64,
            dsize: b * 512,
            dev,
            ino,
            nlink: nlink as u32,
            extended: extended_info,
        }
    }
}

} // verus!
