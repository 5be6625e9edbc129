use vstd::prelude::*;

use crate::export::bin_link::same_entry;
use crate::text::same_text;
use crate::export::json_value::{json_parsed, parse_json, JsonValue};
use crate::tree::arena::TreeArena;
use crate::tree::node::{EntryFlags, ExtendedInfo, NodeId, TreeNode};
use crate::tree::stats::recalculate_stats;

verus! {

/// Why a JSON import failed.
#[derive(Clone, Copy, Debug, PartialEq, Eq, Structural)]
pub enum JsonError {
    /// The bytes are not a JSON document.
    Parse,
    /// The document is not an array.
    NotArray,
    /// The top-level array has fewer than four elements.
    BadLayout,
    /// The major version is not an integer that fits `i64`.
    InvalidVersion,
    /// The major version is not 1.
    UnsupportedVersion,
    /// A directory array without its metadata object.
    EmptyDir,
    /// An entry object that lacks a name or holds a value of the wrong type.
    BadEntry,
    /// The tree has more nodes than an arena can index.
    TooLarge,
    /// The statistics of the tree do not fit their field types.
    StatsOverflow,
}

/// The fields of one entry object.
#[derive(Debug)]
pub struct JsonEntry {
    pub name: String,
    pub asize: i64,
    pub dsize: i64,
    pub ino: Option<u64>,
    pub nlink: Option<u32>,
    pub uid: Option<u32>,
    pub gid: Option<u32>,
    pub mode: Option<u32>,
    pub mtime: Option<i64>,
    pub read_error: Option<bool>,
    pub excluded: Option<bool>,
    pub notreg: Option<bool>,
    pub othfs: Option<bool>,
    pub kernfs: Option<bool>,
    pub hlnkc: Option<bool>,
}

/// The mathematical value of a `JsonEntry`.
pub struct JsonEntryV {
    pub name: Seq<char>,
    pub asize: i64,
    pub dsize: i64,
    pub ino: Option<u64>,
    pub nlink: Option<u32>,
    pub uid: Option<u32>,
    pub gid: Option<u32>,
    pub mode: Option<u32>,
    pub mtime: Option<i64>,
    pub read_error: Option<bool>,
    pub excluded: Option<bool>,
    pub notreg: Option<bool>,
    pub othfs: Option<bool>,
    pub kernfs: Option<bool>,
    pub hlnkc: Option<bool>,
}

impl View for JsonEntry {
    type V = JsonEntryV;

    open spec fn view(&self) -> JsonEntryV {
        JsonEntryV {
            name: self.name@,
            asize: self.asize,
            dsize: self.dsize,
            ino: self.ino,
            nlink: self.nlink,
            uid: self.uid,
            gid: self.gid,
            mode: self.mode,
            mtime: self.mtime,
            read_error: self.read_error,
            excluded: self.excluded,
            notreg: self.notreg,
            othfs: self.othfs,
            kernfs: self.kernfs,
            hlnkc: self.hlnkc,
        }
    }
}

/// The value of the first member of `ms` named `key`.
pub open spec fn member(ms: Seq<(String, JsonValue)>, key: Seq<char>) -> Option<JsonValue>
    decreases ms.len(),
{
    if ms.len() == 0 {
        None
    } else if ms[0].0@ == key {
        Some(ms[0].1)
    } else {
        member(ms.drop_first(), key)
    }
}

/// An integer member with a default of 0: `None` when present with anything
/// but an integer in `[lo, hi]`.
pub open spec fn int_member(m: Option<JsonValue>, lo: int, hi: int) -> Option<int> {
    match m {
        None => Some(0),
        Some(JsonValue::Int(i)) => if lo <= i <= hi {
            Some(i as int)
        } else {
            None
        },
        _ => None,
    }
}

/// An optional integer member (absent or `null` is `Some(None)`): `None`
/// when present with anything but `null` or an integer in `[lo, hi]`.
pub open spec fn opt_int_member(m: Option<JsonValue>, lo: int, hi: int) -> Option<Option<int>> {
    match m {
        None => Some(None),
        Some(JsonValue::Null) => Some(None),
        Some(JsonValue::Int(i)) => if lo <= i <= hi {
            Some(Some(i as int))
        } else {
            None
        },
        _ => None,
    }
}

/// An optional boolean member: `None` when present with anything but
/// `null` or a boolean.
pub open spec fn opt_bool_member(m: Option<JsonValue>) -> Option<Option<bool>> {
    match m {
        None => Some(None),
        Some(JsonValue::Null) => Some(None),
        Some(JsonValue::Bool(b)) => Some(Some(b)),
        _ => None,
    }
}

pub open spec fn opt_u64(o: Option<int>) -> Option<u64> {
    match o {
        Some(i) => Some(i as u64),
        None => None,
    }
}

pub open spec fn opt_u32(o: Option<int>) -> Option<u32> {
    match o {
        Some(i) => Some(i as u32),
        None => None,
    }
}

pub open spec fn opt_i64(o: Option<int>) -> Option<i64> {
    match o {
        Some(i) => Some(i as i64),
        None => None,
    }
}

/// The entry that an object describes: `None` when `v` is no object, has no
/// string `name`, or holds a member of the wrong type or range.
#[verifier::opaque]
pub open spec fn entry_fields(v: JsonValue) -> Option<JsonEntryV> {
    match v {
        JsonValue::Object(ms) => {
            let ms = ms@;
            let name = member(ms, "name"@);
            let asize = int_member(member(ms, "asize"@), i64::MIN as int, i64::MAX as int);
            let dsize = int_member(member(ms, "dsize"@), i64::MIN as int, i64::MAX as int);
            let ino = opt_int_member(member(ms, "ino"@), 0, u64::MAX as int);
            let nlink = opt_int_member(member(ms, "nlink"@), 0, u32::MAX as int);
            let uid = opt_int_member(member(ms, "uid"@), 0, u32::MAX as int);
            let gid = opt_int_member(member(ms, "gid"@), 0, u32::MAX as int);
            let mode = opt_int_member(member(ms, "mode"@), 0, u32::MAX as int);
            let mtime = opt_int_member(member(ms, "mtime"@), i64::MIN as int, i64::MAX as int);
            let read_error = opt_bool_member(member(ms, "read_error"@));
            let excluded = opt_bool_member(member(ms, "excluded"@));
            let notreg = opt_bool_member(member(ms, "notreg"@));
            let othfs = opt_bool_member(member(ms, "othfs"@));
            let kernfs = opt_bool_member(member(ms, "kernfs"@));
            let hlnkc = opt_bool_member(member(ms, "hlnkc"@));
            match name {
                Some(JsonValue::Str(n)) => if asize is Some && dsize is Some && ino is Some
                    && nlink is Some && uid is Some && gid is Some && mode is Some && mtime is Some
                    && read_error is Some && excluded is Some && notreg is Some && othfs is Some
                    && kernfs is Some && hlnkc is Some {
                    Some(
                        JsonEntryV {
                            name: n@,
                            asize: asize.unwrap() as i64,
                            dsize: dsize.unwrap() as i64,
                            ino: opt_u64(ino.unwrap()),
                            nlink: opt_u32(nlink.unwrap()),
                            uid: opt_u32(uid.unwrap()),
                            gid: opt_u32(gid.unwrap()),
                            mode: opt_u32(mode.unwrap()),
                            mtime: opt_i64(mtime.unwrap()),
                            read_error: read_error.unwrap(),
                            excluded: excluded.unwrap(),
                            notreg: notreg.unwrap(),
                            othfs: othfs.unwrap(),
                            kernfs: kernfs.unwrap(),
                            hlnkc: hlnkc.unwrap(),
                        },
                    )
                } else {
                    None
                },
                _ => None,
            }
        },
        _ => None,
    }
}

/// The value of the first member named `key`.
fn find_member<'a>(ms: &'a Vec<(String, JsonValue)>, key: &str) -> (r: Option<&'a JsonValue>)
    ensures
        match r {
            Some(v) => member(ms@, key@) == Some(*v),
            None => member(ms@, key@) is None,
        },
{
    let mut i: usize = 0;
    assert(ms@.subrange(0, ms@.len() as int) =~= ms@);
    while i < ms.len()
        invariant
            i <= ms@.len(),
            member(ms@, key@) == member(ms@.subrange(i as int, ms@.len() as int), key@),
        decreases ms@.len() - i,
    {
        let ghost rest = ms@.subrange(i as int, ms@.len() as int);
        assert(rest[0] == ms@[i as int]);
        assert(rest.drop_first() =~= ms@.subrange(i + 1, ms@.len() as int));
        if same_text(&ms[i].0, key) {
            return Some(&ms[i].1);
        }
        i = i + 1;
    }
    None
}

/// Reads an integer member with a default of 0.
fn read_int(m: Option<&JsonValue>, lo: i128, hi: i128) -> (r: Option<i128>)
    ensures
        match m {
            Some(v) => match int_member(Some(*v), lo as int, hi as int) {
                Some(i) => r == Some(i as i128),
                None => r is None,
            },
            None => r == Some(0i128),
        },
        r matches Some(i) ==> (m is None || lo <= i <= hi),
{
    match m {
        None => Some(0),
        Some(JsonValue::Int(i)) => if lo <= *i && *i <= hi {
            Some(*i)
        } else {
            None
        },
        Some(_) => None,
    }
}

/// Reads an optional integer member.
fn read_opt_int(m: Option<&JsonValue>, lo: i128, hi: i128) -> (r: Option<Option<i128>>)
    ensures
        match m {
            Some(v) => match opt_int_member(Some(*v), lo as int, hi as int) {
                Some(Some(i)) => r == Some(Some(i as i128)),
                Some(None) => r == Some(None::<i128>),
                None => r is None,
            },
            None => r == Some(None::<i128>),
        },
        r matches Some(Some(i)) ==> lo <= i <= hi,
{
    match m {
        None => Some(None),
        Some(JsonValue::Null) => Some(None),
        Some(JsonValue::Int(i)) => if lo <= *i && *i <= hi {
            Some(Some(*i))
        } else {
            None
        },
        Some(_) => None,
    }
}

/// Reads an optional boolean member.
fn read_opt_bool(m: Option<&JsonValue>) -> (r: Option<Option<bool>>)
    ensures
        match m {
            Some(v) => r == opt_bool_member(Some(*v)),
            None => r == Some(None::<bool>),
        },
{
    match m {
        None => Some(None),
        Some(JsonValue::Null) => Some(None),
        Some(JsonValue::Bool(b)) => Some(Some(*b)),
        Some(_) => None,
    }
}

fn narrow_u64(o: Option<i128>) -> (r: Option<u64>)
    requires
        o matches Some(i) ==> 0 <= i <= u64::MAX,
    ensures
        r == match o {
            Some(i) => Some(i as u64),
            None => None::<u64>,
        },
{
    match o {
        Some(i) => Some(i as u64),
        None => None,
    }
}

fn narrow_u32(o: Option<i128>) -> (r: Option<u32>)
    requires
        o matches Some(i) ==> 0 <= i <= u32::MAX,
    ensures
        r == match o {
            Some(i) => Some(i as u32),
            None => None::<u32>,
        },
{
    match o {
        Some(i) => Some(i as u32),
        None => None,
    }
}

fn narrow_i64(o: Option<i128>) -> (r: Option<i64>)
    requires
        o matches Some(i) ==> i64::MIN <= i <= i64::MAX,
    ensures
        r == match o {
            Some(i) => Some(i as i64),
            None => None::<i64>,
        },
{
    match o {
        Some(i) => Some(i as i64),
        None => None,
    }
}

/// Reads the entry that an object describes.
#[verifier::rlimit(40)]
pub fn read_entry(v: &JsonValue) -> (r: Option<JsonEntry>)
    ensures
        match r {
            Some(e) => entry_fields(*v) == Some(e@),
            None => entry_fields(*v) is None,
        },
{
    proof {
        reveal(entry_fields);
    }
    let ms = match v {
        JsonValue::Object(ms) => ms,
        _ => {
            return None;
        },
    };
    let name = match find_member(ms, "name") {
        Some(JsonValue::Str(s)) => s.clone(),
        _ => {
            return None;
        },
    };
    let asize = match read_int(find_member(ms, "asize"), i64::MIN as i128, i64::MAX as i128) {
        Some(i) => i as i64,
        None => {
            return None;
        },
    };
    let dsize = match read_int(find_member(ms, "dsize"), i64::MIN as i128, i64::MAX as i128) {
        Some(i) => i as i64,
        None => {
            return None;
        },
    };
    let ino = match read_opt_int(find_member(ms, "ino"), 0, u64::MAX as i128) {
        Some(o) => narrow_u64(o),
        None => {
            return None;
        },
    };
    let nlink = match read_opt_int(find_member(ms, "nlink"), 0, u32::MAX as i128) {
        Some(o) => narrow_u32(o),
        None => {
            return None;
        },
    };
    let uid = match read_opt_int(find_member(ms, "uid"), 0, u32::MAX as i128) {
        Some(o) => narrow_u32(o),
        None => {
            return None;
        },
    };
    let gid = match read_opt_int(find_member(ms, "gid"), 0, u32::MAX as i128) {
        Some(o) => narrow_u32(o),
        None => {
            return None;
        },
    };
    let mode = match read_opt_int(find_member(ms, "mode"), 0, u32::MAX as i128) {
        Some(o) => narrow_u32(o),
        None => {
            return None;
        },
    };
    let mtime = match read_opt_int(find_member(ms, "mtime"), i64::MIN as i128, i64::MAX as i128) {
        Some(o) => narrow_i64(o),
        None => {
            return None;
        },
    };
    let read_error = match read_opt_bool(find_member(ms, "read_error")) {
        Some(o) => o,
        None => {
            return None;
        },
    };
    let excluded = match read_opt_bool(find_member(ms, "excluded")) {
        Some(o) => o,
        None => {
            return None;
        },
    };
    let notreg = match read_opt_bool(find_member(ms, "notreg")) {
        Some(o) => o,
        None => {
            return None;
        },
    };
    let othfs = match read_opt_bool(find_member(ms, "othfs")) {
        Some(o) => o,
        None => {
            return None;
        },
    };
    let kernfs = match read_opt_bool(find_member(ms, "kernfs")) {
        Some(o) => o,
        None => {
            return None;
        },
    };
    let hlnkc = match read_opt_bool(find_member(ms, "hlnkc")) {
        Some(o) => o,
        None => {
            return None;
        },
    };
    Some(
        JsonEntry {
            name,
            asize,
            dsize,
            ino,
            nlink,
            uid,
            gid,
            mode,
            mtime,
            read_error,
            excluded,
            notreg,
            othfs,
            kernfs,
            hlnkc,
        },
    )
}

pub open spec fn flag_bit(o: Option<bool>, bit: int) -> int {
    if o == Some(true) {
        bit
    } else {
        0
    }
}

/// The flags of a directory entry: directory, plus read error, excluded,
/// other filesystem and kernel filesystem when marked true.
pub open spec fn json_dir_bits(e: JsonEntryV) -> u16 {
    (1 + flag_bit(e.read_error, 2) + flag_bit(e.excluded, 8) + flag_bit(e.othfs, 16) + flag_bit(
        e.kernfs,
        32,
    )) as u16
}

/// The flags of a file entry: read error, excluded, not regular and hard
/// link when marked true.
pub open spec fn json_file_bits(e: JsonEntryV) -> u16 {
    (flag_bit(e.read_error, 2) + flag_bit(e.excluded, 8) + flag_bit(e.notreg, 64) + flag_bit(
        e.hlnkc,
        128,
    )) as u16
}

/// The extended information of an entry: present when any of uid, gid, mode
/// or mtime is, the missing ones read as 0.
pub open spec fn json_extended(e: JsonEntryV) -> Option<ExtendedInfo> {
    if e.uid is Some || e.gid is Some || e.mode is Some || e.mtime is Some {
        Some(
            ExtendedInfo {
                mtime: match e.mtime {
                    Some(m) => m,
                    None => 0,
                },
                uid: match e.uid {
                    Some(u) => u,
                    None => 0,
                },
                gid: match e.gid {
                    Some(g) => g,
                    None => 0,
                },
                mode: match e.mode {
                    Some(m) => m,
                    None => 0,
                },
            },
        )
    } else {
        None
    }
}

/// `n` carries the entry `e`, as a directory or as a file: a directory has
/// no size and one link; no entry records a device.
pub open spec fn json_node(n: TreeNode, is_dir: bool, e: JsonEntryV) -> bool {
    &&& n.name@ == e.name
    &&& n.dev == 0
    &&& n.ino == match e.ino {
        Some(i) => i,
        None => 0,
    }
    &&& n.extended == json_extended(e)
    &&& if is_dir {
        &&& n.flags.bits == json_dir_bits(e)
        &&& n.asize == 0
        &&& n.dsize == 0
        &&& n.nlink == 1
    } else {
        &&& n.flags.bits == json_file_bits(e)
        &&& n.asize == e.asize
        &&& n.dsize == e.dsize
        &&& n.nlink == match e.nlink {
            Some(l) => l,
            None => 1,
        }
    }
}

fn flag_if(o: Option<bool>, bit: u16) -> (r: u16)
    requires
        bit <= 128,
    ensures
        r == flag_bit(o, bit as int),
{
    match o {
        Some(true) => bit,
        _ => 0,
    }
}

/// The node that an entry describes, as a directory or as a file.
pub fn node_of_entry(e: JsonEntry, is_dir: bool) -> (r: TreeNode)
    ensures
        json_node(r, is_dir, e@),
        r.children@.len() == 0,
        r.parent is None,
{
    let extended = if e.uid.is_some() || e.gid.is_some() || e.mode.is_some() || e.mtime.is_some() {
        Some(
            ExtendedInfo {
                mtime: match e.mtime {
                    Some(m) => m,
                    None => 0,
                },
                uid: match e.uid {
                    Some(u) => u,
                    None => 0,
                },
                gid: match e.gid {
                    Some(g) => g,
                    None => 0,
                },
                mode: match e.mode {
                    Some(m) => m,
                    None => 0,
                },
            },
        )
    } else {
        None
    };
    let ino = match e.ino {
        Some(i) => i,
        None => 0,
    };
    if is_dir {
        let bits: u16 = 1 + flag_if(e.read_error, 2) + flag_if(e.excluded, 8) + flag_if(e.othfs, 16)
            + flag_if(e.kernfs, 32);
        assert(bits % 2 == 1);
        assert(bits % 2 == 1 ==> bits | 1u16 == bits) by (bit_vector);
        TreeNode::new_dir(e.name, 0, ino, EntryFlags::from_bits(bits), extended)
    } else {
        let bits: u16 = flag_if(e.read_error, 2) + flag_if(e.excluded, 8) + flag_if(e.notreg, 64)
            + flag_if(e.hlnkc, 128);
        let nlink = match e.nlink {
            Some(l) => l,
            None => 1,
        };
        TreeNode::new_file(
            e.name,
            e.asize,
            e.dsize,
            0,
            ino,
            nlink,
            EntryFlags::from_bits(bits),
            extended,
        )
    }
}

/// The entries of a JSON tree in document order, each with whether it is a
/// directory: a directory array gives its metadata object, then the entries
/// of its other elements; any other value is a file entry.
pub open spec fn json_entries(v: JsonValue) -> Seq<(bool, JsonValue)>
    decreases v, 0nat,
{
    match v {
        JsonValue::Array(items) => if items@.len() == 0 {
            Seq::empty()
        } else {
            seq![(true, items@[0])] + json_list_entries(items@, 1)
        },
        _ => seq![(false, v)],
    }
}

/// The entries of the trees `s[i..]`, in order.
pub open spec fn json_list_entries(s: Seq<JsonValue>, i: int) -> Seq<(bool, JsonValue)>
    decreases s, if 0 <= i < s.len() {
        (s.len() - i) as nat
    } else {
        0nat
    },
{
    if 0 <= i < s.len() {
        json_entries(s[i]) + json_list_entries(s, i + 1)
    } else {
        Seq::empty()
    }
}

/// The first error met reading a JSON tree in document order; `None` when
/// every directory array has its metadata and every entry is valid.
pub open spec fn json_tree_error(v: JsonValue) -> Option<JsonError>
    decreases v, 0nat,
{
    match v {
        JsonValue::Array(items) => if items@.len() == 0 {
            Some(JsonError::EmptyDir)
        } else if entry_fields(items@[0]) is None {
            Some(JsonError::BadEntry)
        } else {
            json_list_error(items@, 1)
        },
        _ => if entry_fields(v) is None {
            Some(JsonError::BadEntry)
        } else {
            None
        },
    }
}

/// The first error met reading the trees `s[i..]`.
pub open spec fn json_list_error(s: Seq<JsonValue>, i: int) -> Option<JsonError>
    decreases s, if 0 <= i < s.len() {
        (s.len() - i) as nat
    } else {
        0nat
    },
{
    if 0 <= i < s.len() {
        match json_tree_error(s[i]) {
            Some(e) => Some(e),
            None => json_list_error(s, i + 1),
        }
    } else {
        None
    }
}

/// From index `base` on, `a` holds nodes carrying the entries `es` in order.
pub open spec fn nodes_carry(a: TreeArena, base: int, es: Seq<(bool, JsonValue)>) -> bool {
    &&& base + es.len() <= a.len()
    &&& forall|k: int|
        0 <= k < es.len() ==> (entry_fields((#[trigger] es[k]).1) matches Some(e) && json_node(
            a.nodes@[base + k],
            es[k].0,
            e,
        ))
}

/// Keeping the entries of the nodes keeps what they carry.
proof fn lemma_nodes_carry_frame(
    before: TreeArena,
    after: TreeArena,
    base: int,
    es: Seq<(bool, JsonValue)>,
)
    requires
        nodes_carry(before, base, es),
        0 <= base,
        after.len() >= before.len(),
        forall|i: int| 0 <= i < before.len() ==> same_entry(#[trigger] after.nodes@[i], before.nodes@[i]),
    ensures
        nodes_carry(after, base, es),
{
    assert forall|k: int| 0 <= k < es.len() implies (entry_fields((#[trigger] es[k]).1) matches Some(e)
        && json_node(after.nodes@[base + k], es[k].0, e)) by {
        assert(same_entry(after.nodes@[base + k], before.nodes@[base + k]));
    }
}

/// Two runs of carried entries side by side carry their concatenation.
proof fn lemma_nodes_carry_concat(
    a: TreeArena,
    base: int,
    e1: Seq<(bool, JsonValue)>,
    e2: Seq<(bool, JsonValue)>,
)
    requires
        nodes_carry(a, base, e1),
        nodes_carry(a, base + e1.len(), e2),
    ensures
        nodes_carry(a, base, e1 + e2),
{
    let e = e1 + e2;
    assert forall|k: int| 0 <= k < e.len() implies (entry_fields((#[trigger] e[k]).1) matches Some(x)
        && json_node(a.nodes@[base + k], e[k].0, x)) by {
        if k < e1.len() {
            assert(e[k] == e1[k]);
        } else {
            assert(e[k] == e2[k - e1.len()]);
            assert(base + e1.len() + (k - e1.len()) == base + k);
        }
    }
}

/// Where the element trees of `s` from the `k`-th on start when laid out one
/// after another from position `p`, each taking one position per entry.
pub open spec fn tree_starts(s: Seq<JsonValue>, k: int, p: int) -> Seq<int>
    decreases s.len() - k,
{
    if 0 <= k < s.len() {
        seq![p] + tree_starts(s, k + 1, p + json_entries(s[k]).len())
    } else {
        Seq::empty()
    }
}

/// The indices of the children of node `p`, in order.
pub open spec fn child_ids(a: TreeArena, p: int) -> Seq<int> {
    a.nodes@[p].children@.map_values(|c: NodeId| c.0 as int)
}

/// The nodes of `a` from position `p` on hold the JSON tree `v` as an import
/// lays it out: for a directory array, the node at `p` has as children, in
/// order, the positions where its element trees start, each holding its
/// tree; for any other value, the node at `p` has no child.
pub open spec fn json_shape(a: TreeArena, p: int, v: JsonValue) -> bool
    decreases v, 0nat,
{
    match v {
        JsonValue::Array(items) => items@.len() > 0 && child_ids(a, p) == tree_starts(items@, 1, p + 1)
            && json_list_shape(a, items@, 1, p + 1),
        _ => a.nodes@[p].children@.len() == 0,
    }
}

/// The element trees of `s` from the `k`-th on are held from position `p`
/// on, one after another.
pub open spec fn json_list_shape(a: TreeArena, s: Seq<JsonValue>, k: int, p: int) -> bool
    decreases s, if 0 <= k < s.len() {
        (s.len() - k) as nat
    } else {
        0nat
    },
{
    if 0 <= k < s.len() {
        json_shape(a, p, s[k]) && json_list_shape(a, s, k + 1, p + json_entries(s[k]).len())
    } else {
        true
    }
}

/// The shape held from `p` on depends only on the children of the nodes of
/// the tree's positions.
proof fn lemma_shape_frame(a: TreeArena, b: TreeArena, p: int, v: JsonValue)
    requires
        json_shape(a, p, v),
        forall|i: int| p <= i < p + json_entries(v).len() ==> (#[trigger] b.nodes@[i]).children@ == a.nodes@[i].children@,
    ensures
        json_shape(b, p, v),
    decreases v, 0nat,
{
    match v {
        JsonValue::Array(items) => {
            assert(json_entries(v) == seq![(true, items@[0])] + json_list_entries(items@, 1));
            assert(b.nodes@[p].children@ == a.nodes@[p].children@);
            assert(child_ids(b, p) == child_ids(a, p));
            lemma_list_shape_frame(a, b, items@, 1, p + 1);
        },
        _ => {
            assert(json_entries(v).len() == 1);
            assert(b.nodes@[p].children@ == a.nodes@[p].children@);
        },
    }
}

/// The list form of `lemma_shape_frame`.
proof fn lemma_list_shape_frame(a: TreeArena, b: TreeArena, s: Seq<JsonValue>, k: int, p: int)
    requires
        json_list_shape(a, s, k, p),
        forall|i: int| p <= i < p + json_list_entries(s, k).len() ==> (#[trigger] b.nodes@[i]).children@ == a.nodes@[i].children@,
    ensures
        json_list_shape(b, s, k, p),
    decreases s, if 0 <= k < s.len() {
        (s.len() - k) as nat
    } else {
        0nat
    },
{
    if 0 <= k < s.len() {
        let n = json_entries(s[k]).len();
        assert(json_list_entries(s, k) == json_entries(s[k]) + json_list_entries(s, k + 1));
        lemma_shape_frame(a, b, p, s[k]);
        lemma_list_shape_frame(a, b, s, k + 1, p + n);
    }
}

/// Shapes held at the starts of the element trees from the `k`-th on make
/// the list shape.
proof fn lemma_list_shape_collect(a: TreeArena, s: Seq<JsonValue>, k: int, p: int, starts: Seq<int>)
    requires
        1 <= k <= s.len(),
        starts.len() == s.len() - 1,
        tree_starts(s, k, p) == starts.subrange(k - 1, starts.len() as int),
        forall|m: int| k <= m < s.len() ==> json_shape(a, #[trigger] starts[m - 1], s[m]),
    ensures
        json_list_shape(a, s, k, p),
    decreases s.len() - k,
{
    if k < s.len() {
        assert(tree_starts(s, k, p)[0] == p);
        assert(starts.subrange(k - 1, starts.len() as int)[0] == starts[k - 1]);
        assert(json_shape(a, starts[k - 1], s[k]));
        assert(tree_starts(s, k + 1, p + json_entries(s[k]).len()) =~= starts.subrange(k, starts.len() as int)) by {
            assert(tree_starts(s, k, p) == seq![p] + tree_starts(s, k + 1, p + json_entries(s[k]).len()));
            assert(tree_starts(s, k, p).drop_first() =~= tree_starts(s, k + 1, p + json_entries(s[k]).len()));
            assert(starts.subrange(k - 1, starts.len() as int).drop_first() =~= starts.subrange(k, starts.len() as int));
        }
        lemma_list_shape_collect(a, s, k + 1, p + json_entries(s[k]).len(), starts);
    }
}

/// Adds the JSON tree `v` below the arena node `parent`, entries in document
/// order; stops at the first invalid part.
fn add_json_subtree(arena: &mut TreeArena, parent: usize, v: &JsonValue) -> (r: Result<(), JsonError>)
    requires
        old(arena).wf(),
        parent < old(arena).len(),
    ensures
        final(arena).wf(),
        final(arena).root == old(arena).root,
        final(arena).len() >= old(arena).len(),
        forall|i: int|
            0 <= i < old(arena).len() ==> same_entry(
                #[trigger] final(arena).nodes@[i],
                old(arena).nodes@[i],
            ),
        r is Ok ==> json_tree_error(*v) is None && final(arena).len() == old(arena).len()
            + json_entries(*v).len() && nodes_carry(
            *final(arena),
            old(arena).len() as int,
            json_entries(*v),
        ),
        r matches Err(e) ==> if e == JsonError::TooLarge {
            old(arena).len() + json_entries(*v).len() >= usize::MAX
        } else {
            json_tree_error(*v) == Some(e)
        },
        json_tree_error(*v) is Some ==> r is Err,
        r is Ok ==> forall|i: int|
            0 <= i < old(arena).len() && i != parent ==> (#[trigger] final(arena).nodes@[i]).children@
                == old(arena).nodes@[i].children@,
        r is Ok ==> final(arena).nodes@[parent as int].children@ == old(arena).nodes@[parent as int].children@.push(
            NodeId(old(arena).len() as usize),
        ),
        r is Ok ==> json_shape(*final(arena), old(arena).len() as int, *v),
        r is Ok ==> old(arena).len() < usize::MAX,
    decreases v,
{
    let ghost o = *arena;
    match v {
        JsonValue::Array(items) => {
            if items.len() == 0 {
                return Err(JsonError::EmptyDir);
            }
            let meta = match read_entry(&items[0]) {
                Some(m) => m,
                None => {
                    return Err(JsonError::BadEntry);
                },
            };
            let node = node_of_entry(meta, true);
            if arena.nodes.len() >= usize::MAX {
                return Err(JsonError::TooLarge);
            }
            let dir = arena.add_child(NodeId(parent), node);
            let ghost done = seq![(true, items@[0])];
            let ghost mut starts: Seq<int> = Seq::empty();
            proof {
                assert(child_ids(*arena, dir.0 as int) =~= starts);
                assert(starts + tree_starts(items@, 1, arena.len() as int) =~= tree_starts(items@, 1, dir.0 + 1));
                assert forall|i: int| 0 <= i < o.len() implies same_entry(
                    #[trigger] arena.nodes@[i],
                    o.nodes@[i],
                ) by {
                    if i != parent as int {
                        assert(arena.nodes@[i] == o.nodes@[i]);
                    }
                }
                assert(done[0] == (true, items@[0]));
                assert(nodes_carry(*arena, o.len() as int, done));
                assert(json_entries(*v) == done + json_list_entries(items@, 1));
            }
            let mut k: usize = 1;
            while k < items.len()
                invariant
                    o == *old(arena),
                    *v == JsonValue::Array(*items),
                    1 <= k <= items@.len(),
                    entry_fields(items@[0]) is Some,
                    arena.wf(),
                    arena.root == o.root,
                    dir.0 == o.len(),
                    dir.0 < arena.len(),
                    arena.len() == o.len() + done.len(),
                    forall|i: int|
                        0 <= i < o.len() ==> same_entry(#[trigger] arena.nodes@[i], o.nodes@[i]),
                    nodes_carry(*arena, o.len() as int, done),
                    json_entries(*v) == done + json_list_entries(items@, k as int),
                    json_tree_error(*v) == json_list_error(items@, k as int),
                    parent < o.len(),
                    forall|i: int|
                        0 <= i < o.len() && i != parent ==> (#[trigger] arena.nodes@[i]).children@
                            == o.nodes@[i].children@,
                    arena.nodes@[parent as int].children@ == o.nodes@[parent as int].children@.push(dir),
                    child_ids(*arena, dir.0 as int) == starts,
                    starts.len() == k - 1,
                    starts + tree_starts(items@, k as int, arena.len() as int) == tree_starts(items@, 1, dir.0 + 1),
                    forall|m: int|
                        1 <= m < k ==> dir.0 < #[trigger] starts[m - 1] && starts[m - 1] + json_entries(items@[m]).len()
                            <= arena.len() && json_shape(*arena, starts[m - 1], items@[m]),
                decreases items@.len() - k,
            {
                let ghost before = *arena;
                let res = add_json_subtree(arena, dir.0, &items[k]);
                proof {
                    assert(json_list_entries(items@, k as int) == json_entries(items@[k as int])
                        + json_list_entries(items@, k + 1));
                    assert forall|i: int| 0 <= i < o.len() implies same_entry(
                        #[trigger] arena.nodes@[i],
                        o.nodes@[i],
                    ) by {
                        assert(same_entry(before.nodes@[i], o.nodes@[i]));
                    }
                }
                match res {
                    Err(e) => {
                        return Err(e);
                    },
                    Ok(()) => {},
                }
                proof {
                    lemma_nodes_carry_frame(before, *arena, o.len() as int, done);
                    lemma_nodes_carry_concat(*arena, o.len() as int, done, json_entries(items@[k as int]));
                    assert(done + json_entries(items@[k as int]) + json_list_entries(items@, k + 1)
                        =~= done + (json_entries(items@[k as int]) + json_list_entries(items@, k + 1)));
                    done = done + json_entries(items@[k as int]);
                    let n = json_entries(items@[k as int]).len();
                    let b = before.len() as int;
                    assert(arena.nodes@[dir.0 as int].children@ == before.nodes@[dir.0 as int].children@.push(
                        NodeId(before.len() as usize),
                    ));
                    assert(child_ids(before, dir.0 as int) == starts);
                    let cb = before.nodes@[dir.0 as int].children@;
                    let ca = arena.nodes@[dir.0 as int].children@;
                    assert(child_ids(before, dir.0 as int).len() == cb.len());
                    assert forall|i: int| 0 <= i < ca.len() implies #[trigger] child_ids(*arena, dir.0 as int)[i]
                        == starts.push(b)[i] by {
                        if i < cb.len() {
                            assert(ca[i] == cb[i]);
                            assert(child_ids(before, dir.0 as int)[i] == cb[i].0 as int);
                        } else {
                            assert(ca[i] == NodeId(before.len() as usize));
                        }
                    }
                    assert(child_ids(*arena, dir.0 as int) =~= starts.push(b));
                    assert(tree_starts(items@, k as int, b) == seq![b] + tree_starts(items@, k + 1, b + n));
                    assert(starts.push(b) + tree_starts(items@, k + 1, arena.len() as int) =~= starts
                        + tree_starts(items@, k as int, b));
                    assert forall|m: int| 1 <= m < k + 1 implies dir.0 < #[trigger] starts.push(b)[m - 1]
                        && starts.push(b)[m - 1] + json_entries(items@[m]).len() <= arena.len() && json_shape(
                        *arena,
                        starts.push(b)[m - 1],
                        items@[m],
                    ) by {
                        if m < k {
                            assert(starts.push(b)[m - 1] == starts[m - 1]);
                            lemma_shape_frame(before, *arena, starts[m - 1], items@[m]);
                        }
                    }
                    starts = starts.push(b);
                }
                k = k + 1;
            }
            proof {
                assert(json_list_entries(items@, k as int) =~= Seq::empty());
                assert(done + Seq::<(bool, JsonValue)>::empty() =~= done);
                assert(tree_starts(items@, k as int, arena.len() as int) =~= Seq::<int>::empty());
                assert(starts + Seq::<int>::empty() =~= starts);
                assert(starts.subrange(0, starts.len() as int) =~= starts);
                lemma_list_shape_collect(*arena, items@, 1, dir.0 + 1, starts);
            }
            Ok(())
        },
        _ => {
            let e = match read_entry(v) {
                Some(e) => e,
                None => {
                    return Err(JsonError::BadEntry);
                },
            };
            let node = node_of_entry(e, false);
            if arena.nodes.len() >= usize::MAX {
                return Err(JsonError::TooLarge);
            }
            arena.add_child(NodeId(parent), node);
            proof {
                assert forall|i: int| 0 <= i < o.len() implies same_entry(
                    #[trigger] arena.nodes@[i],
                    o.nodes@[i],
                ) by {
                    if i != parent as int {
                        assert(arena.nodes@[i] == o.nodes@[i]);
                    }
                }
                assert(json_entries(*v)[0] == (false, *v));
            }
            Ok(())
        },
    }
}

/// The tree read from a root that is no directory array: a lone unnamed
/// directory, the root entry itself being dropped.
pub open spec fn placeholder_tree(a: TreeArena) -> bool {
    &&& a.len() == 1
    &&& a.nodes@[0].name@.len() == 0
    &&& a.nodes@[0].flags.bits == 1
    &&& a.nodes@[0].asize == 0
    &&& a.nodes@[0].dsize == 0
    &&& a.nodes@[0].dev == 0
    &&& a.nodes@[0].ino == 0
    &&& a.nodes@[0].nlink == 1
    &&& a.nodes@[0].extended is None
}

/// What reading the root value `v` of a JSON export gives, statistics
/// aside: for a directory array, a tree whose nodes carry the entries of
/// `v` in document order, linked as the arrays nest; for any other valid
/// entry, the placeholder tree.
pub open spec fn json_root_read(v: JsonValue, a: TreeArena) -> bool {
    &&& a.wf()
    &&& if v is Array {
        a.len() == json_entries(v).len() && nodes_carry(a, 0, json_entries(v)) && json_shape(a, 0, v)
    } else {
        placeholder_tree(a)
    }
}

/// Reads the root value of a JSON export into a new tree.
fn deserialize_root(v: &JsonValue) -> (r: Result<TreeArena, JsonError>)
    ensures
        r matches Ok(a) ==> json_tree_error(*v) is None && json_root_read(*v, a),
        r matches Err(e) ==> if e == JsonError::TooLarge {
            json_entries(*v).len() >= usize::MAX
        } else {
            json_tree_error(*v) == Some(e)
        },
        json_tree_error(*v) is Some ==> r is Err,
{
    match v {
        JsonValue::Array(items) => {
            if items.len() == 0 {
                return Err(JsonError::EmptyDir);
            }
            let meta = match read_entry(&items[0]) {
                Some(m) => m,
                None => {
                    return Err(JsonError::BadEntry);
                },
            };
            let mut arena = TreeArena::new(node_of_entry(meta, true));
            let ghost done = seq![(true, items@[0])];
            let ghost mut starts: Seq<int> = Seq::empty();
            proof {
                assert(child_ids(arena, 0) =~= starts);
                assert(starts + tree_starts(items@, 1, arena.len() as int) =~= tree_starts(items@, 1, 1));
                assert(done[0] == (true, items@[0]));
                assert(nodes_carry(arena, 0, done));
                assert(json_entries(*v) == done + json_list_entries(items@, 1));
            }
            let mut k: usize = 1;
            while k < items.len()
                invariant
                    *v == JsonValue::Array(*items),
                    1 <= k <= items@.len(),
                    entry_fields(items@[0]) is Some,
                    arena.wf(),
                    arena.len() == done.len(),
                    nodes_carry(arena, 0, done),
                    json_entries(*v) == done + json_list_entries(items@, k as int),
                    json_tree_error(*v) == json_list_error(items@, k as int),
                    child_ids(arena, 0) == starts,
                    starts.len() == k - 1,
                    starts + tree_starts(items@, k as int, arena.len() as int) == tree_starts(items@, 1, 1),
                    forall|m: int|
                        1 <= m < k ==> 0 < #[trigger] starts[m - 1] && starts[m - 1] + json_entries(items@[m]).len()
                            <= arena.len() && json_shape(arena, starts[m - 1], items@[m]),
                decreases items@.len() - k,
            {
                let ghost before = arena;
                let res = add_json_subtree(&mut arena, 0, &items[k]);
                proof {
                    assert(json_list_entries(items@, k as int) == json_entries(items@[k as int])
                        + json_list_entries(items@, k + 1));
                }
                match res {
                    Err(e) => {
                        return Err(e);
                    },
                    Ok(()) => {},
                }
                proof {
                    lemma_nodes_carry_frame(before, arena, 0, done);
                    lemma_nodes_carry_concat(arena, 0, done, json_entries(items@[k as int]));
                    assert(done + json_entries(items@[k as int]) + json_list_entries(items@, k + 1)
                        =~= done + (json_entries(items@[k as int]) + json_list_entries(items@, k + 1)));
                    done = done + json_entries(items@[k as int]);
                    let n = json_entries(items@[k as int]).len();
                    let b = before.len() as int;
                    let cb = before.nodes@[0].children@;
                    let ca = arena.nodes@[0].children@;
                    assert(child_ids(before, 0).len() == cb.len());
                    assert forall|i: int| 0 <= i < ca.len() implies #[trigger] child_ids(arena, 0)[i]
                        == starts.push(b)[i] by {
                        if i < cb.len() {
                            assert(ca[i] == cb[i]);
                            assert(child_ids(before, 0)[i] == cb[i].0 as int);
                        } else {
                            assert(ca[i] == NodeId(before.len() as usize));
                        }
                    }
                    assert(child_ids(arena, 0) =~= starts.push(b));
                    assert(tree_starts(items@, k as int, b) == seq![b] + tree_starts(items@, k + 1, b + n));
                    assert(starts.push(b) + tree_starts(items@, k + 1, arena.len() as int) =~= starts
                        + tree_starts(items@, k as int, b));
                    assert forall|m: int| 1 <= m < k + 1 implies 0 < #[trigger] starts.push(b)[m - 1]
                        && starts.push(b)[m - 1] + json_entries(items@[m]).len() <= arena.len() && json_shape(
                        arena,
                        starts.push(b)[m - 1],
                        items@[m],
                    ) by {
                        if m < k {
                            assert(starts.push(b)[m - 1] == starts[m - 1]);
                            lemma_shape_frame(before, arena, starts[m - 1], items@[m]);
                        }
                    }
                    starts = starts.push(b);
                }
                k = k + 1;
            }
            proof {
                assert(json_list_entries(items@, k as int) =~= Seq::empty());
                assert(done + Seq::<(bool, JsonValue)>::empty() =~= done);
                assert(tree_starts(items@, k as int, arena.len() as int) =~= Seq::<int>::empty());
                assert(starts + Seq::<int>::empty() =~= starts);
                assert(starts.subrange(0, starts.len() as int) =~= starts);
                lemma_list_shape_collect(arena, items@, 1, 1, starts);
            }
            Ok(arena)
        },
        _ => {
            match read_entry(v) {
                Some(_) => {},
                None => {
                    return Err(JsonError::BadEntry);
                },
            }
            assert(0u16 | 1u16 == 1u16) by (bit_vector);
            Ok(TreeArena::new(TreeNode::new_dir(String::new(), 0, 0, EntryFlags::empty(), None)))
        },
    }
}

/// The outcome of importing the JSON document `v`: it must be an array of at
/// least four elements whose first is the major version 1; its fourth
/// element is the root of the tree, read as `json_root_read` says, and the
/// statistics of the tree are then recomputed.
pub open spec fn json_import(v: JsonValue, r: Result<TreeArena, JsonError>) -> bool {
    match v {
        JsonValue::Array(top) => if top@.len() < 4 {
            r == Err::<TreeArena, JsonError>(JsonError::BadLayout)
        } else if !(top@[0] matches JsonValue::Int(m) && i64::MIN <= m <= i64::MAX) {
            r == Err::<TreeArena, JsonError>(JsonError::InvalidVersion)
        } else if top@[0] != JsonValue::Int(1) {
            r == Err::<TreeArena, JsonError>(JsonError::UnsupportedVersion)
        } else {
            let root = top@[3];
            &&& r matches Ok(a) ==> json_tree_error(root) is None && a.stats_exact() && exists|
                b: TreeArena,
            |
                json_root_read(root, b) && b.len() == a.len() && forall|i: int|
                    0 <= i < a.len() ==> (#[trigger] a.nodes@[i]).same_but_stats(b.nodes@[i])
            &&& r matches Err(e) ==> if e == JsonError::TooLarge {
                json_entries(root).len() >= usize::MAX
            } else if json_tree_error(root) is None {
                e == JsonError::StatsOverflow && exists|b: TreeArena| json_root_read(root, b) && !b.stats_fit()
            } else {
                json_tree_error(root) == Some(e)
            }
            &&& json_tree_error(root) is Some ==> r is Err
        },
        _ => r == Err::<TreeArena, JsonError>(JsonError::NotArray),
    }
}

/// Imports a parsed JSON export.
pub fn import_json_value(v: &JsonValue) -> (r: Result<TreeArena, JsonError>)
    ensures
        json_import(*v, r),
{
    let top = match v {
        JsonValue::Array(top) => top,
        _ => {
            return Err(JsonError::NotArray);
        },
    };
    if top.len() < 4 {
        return Err(JsonError::BadLayout);
    }
    let major = match &top[0] {
        JsonValue::Int(m) => if i64::MIN as i128 <= *m && *m <= i64::MAX as i128 {
            *m
        } else {
            return Err(JsonError::InvalidVersion);
        },
        _ => {
            return Err(JsonError::InvalidVersion);
        },
    };
    if major != 1 {
        return Err(JsonError::UnsupportedVersion);
    }
    let mut arena = deserialize_root(&top[3])?;
    let ghost b = arena;
    match recalculate_stats(&mut arena) {
        Err(_) => {
            assert(json_root_read(top@[3], b) && !b.stats_fit());
            return Err(JsonError::StatsOverflow);
        },
        Ok(()) => {},
    }
    proof {
        assert(json_root_read(top@[3], b) && b.len() == arena.len() && forall|i: int|
            0 <= i < arena.len() ==> (#[trigger] arena.nodes@[i]).same_but_stats(b.nodes@[i]));
    }
    Ok(arena)
}

/// Imports a JSON export: parses the bytes, then reads the document.
pub fn import_json(json_bytes: &[u8]) -> (r: Result<TreeArena, JsonError>)
    ensures
        match json_parsed(json_bytes@) {
            None => r == Err::<TreeArena, JsonError>(JsonError::Parse),
            Some(v) => json_import(v, r),
        },
{
    match parse_json(json_bytes) {
        None => Err(JsonError::Parse),
        Some(v) => import_json_value(&v),
    }
}

} // verus!
