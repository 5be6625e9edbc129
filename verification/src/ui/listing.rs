use vstd::prelude::*;

use crate::tree::node::{EntryFlags, TreeNode};
use crate::ui::view::{asize_key, dsize_key};

verus! {

/// The character shown before an entry: the first of its flags in the
/// order read error, error below, excluded, other filesystem, kernel
/// filesystem, not a regular file, hard link, empty directory; a space when
/// it has none of them.
pub open spec fn flag_char_of(bits: u16) -> char {
    if EntryFlags::has(bits, 2) {
        '!'
    } else if EntryFlags::has(bits, 4) {
        '.'
    } else if EntryFlags::has(bits, 8) {
        '<'
    } else if EntryFlags::has(bits, 16) {
        '>'
    } else if EntryFlags::has(bits, 32) {
        'F'
    } else if EntryFlags::has(bits, 64) {
        '@'
    } else if EntryFlags::has(bits, 128) {
        'H'
    } else if EntryFlags::has(bits, 256) {
        'e'
    } else {
        ' '
    }
}

/// The character shown before an entry with the flags `flags`.
pub fn flag_char(flags: EntryFlags) -> (r: char)
    ensures
        r == flag_char_of(flags.bits),
{
    if flags.contains(EntryFlags::READ_ERROR) {
        '!'
    } else if flags.contains(EntryFlags::SUB_ERROR) {
        '.'
    } else if flags.contains(EntryFlags::EXCLUDED) {
        '<'
    } else if flags.contains(EntryFlags::OTHER_FS) {
        '>'
    } else if flags.contains(EntryFlags::KERNFS) {
        'F'
    } else if flags.contains(EntryFlags::NOT_REG) {
        '@'
    } else if flags.contains(EntryFlags::HARD_LINK) {
        'H'
    } else if flags.contains(EntryFlags::EMPTY_DIR) {
        'e'
    } else {
        ' '
    }
}

/// The size shown for an entry: a directory's total, a file's own size;
/// apparent size or disk usage as asked.
pub fn shown_size(node: &TreeNode, apparent: bool) -> (r: i64)
    ensures
        r == (if apparent { asize_key(*node) } else { dsize_key(*node) }),
{
    if node.is_dir() {
        if apparent {
            node.stats.total_asize
        } else {
            node.stats.total_dsize
        }
    } else if apparent {
        node.asize
    } else {
        node.dsize
    }
}

/// The first row shown of a listing of `len` rows in a window of `height`
/// rows: the smallest move of `scroll` that shows the row `selected`, then
/// kept so that the window is full when the listing is long enough, and 0
/// when it all fits.
pub open spec fn scrolled(selected: int, scroll: int, height: int, len: int) -> int {
    let s = if height > 0 {
        if selected < scroll {
            selected
        } else if selected >= scroll + height {
            selected - height + 1
        } else {
            scroll
        }
    } else {
        scroll
    };
    if len <= height {
        0
    } else if s <= len - height {
        s
    } else {
        len - height
    }
}

/// The first row shown of the listing, as `scrolled` says.
pub fn clamp_scroll(selected: usize, scroll: usize, height: usize, len: usize) -> (r: usize)
    ensures
        r == scrolled(selected as int, scroll as int, height as int, len as int),
{
    let mut s = scroll;
    if height > 0 {
        if selected < s {
            s = selected;
        } else if selected - s >= height {
            s = selected - height + 1;
        }
    }
    if len <= height {
        0
    } else if s <= len - height {
        s
    } else {
        len - height
    }
}

} // verus!
