use vstd::prelude::*;

use crate::export::json_value::{
    depth_max, json_depth, json_list_depth, json_members_depth, json_parse_depth_limit,
    is_scalar, json_all_flat, json_all_writable, json_flat, json_members_writable, json_rendered,
    json_writable, parses_back, render_json_pretty, JsonValue,
};
use crate::tree::arena::TreeArena;
use crate::tree::node::{EntryFlags, NodeId, TreeNode};

verus! {

/// The value of an object member, as the export writes it.
pub enum JsonScalar {
    Int(int),
    Bool(bool),
    Str(Seq<char>),
}

/// `v` is the scalar `s`.
pub open spec fn scalar_is(v: JsonValue, s: JsonScalar) -> bool {
    match (v, s) {
        (JsonValue::Int(i), JsonScalar::Int(j)) => i == j,
        (JsonValue::Bool(b), JsonScalar::Bool(c)) => b == c,
        (JsonValue::Str(t), JsonScalar::Str(u)) => t@ == u,
        _ => false,
    }
}

/// The members `ms` are, in order, the keys and scalars of `exp`.
pub open spec fn members_are(ms: Seq<(String, JsonValue)>, exp: Seq<(Seq<char>, JsonScalar)>) -> bool {
    &&& ms.len() == exp.len()
    &&& forall|i: int|
        0 <= i < ms.len() ==> (#[trigger] ms[i]).0@ == exp[i].0 && scalar_is(ms[i].1, exp[i].1)
}

/// A flag member, present (and true) only when the flag is set.
pub open spec fn flag_member(n: TreeNode, bit: u16, key: Seq<char>) -> Seq<(Seq<char>, JsonScalar)> {
    if EntryFlags::has(n.flags.bits, bit) {
        seq![(key, JsonScalar::Bool(true))]
    } else {
        Seq::empty()
    }
}

/// The device member of a node whose parent lies on the device
/// `parent_dev` (`None` for the root): written only where the device differs
/// from the parent's, and always for the root.
pub open spec fn dev_member(n: TreeNode, parent_dev: Option<u64>) -> Seq<(Seq<char>, JsonScalar)> {
    if parent_dev == Some(n.dev) {
        Seq::empty()
    } else {
        seq![("dev"@, JsonScalar::Int(n.dev as int))]
    }
}

/// The members written for a node whose parent lies on the device
/// `parent_dev`: name, sizes, inode and link count; the device where it
/// differs from the parent's; the extended information when present; and a
/// member for each flag set among read error, excluded, not regular, other
/// filesystem, kernel filesystem and hard link.
pub open spec fn entry_members(n: TreeNode, parent_dev: Option<u64>) -> Seq<(Seq<char>, JsonScalar)> {
    seq![
        ("name"@, JsonScalar::Str(n.name@)),
        ("asize"@, JsonScalar::Int(n.asize as int)),
        ("dsize"@, JsonScalar::Int(n.dsize as int)),
        ("ino"@, JsonScalar::Int(n.ino as int)),
        ("nlink"@, JsonScalar::Int(n.nlink as int)),
    ] + dev_member(n, parent_dev) + match n.extended {
        Some(e) => seq![
            ("uid"@, JsonScalar::Int(e.uid as int)),
            ("gid"@, JsonScalar::Int(e.gid as int)),
            ("mode"@, JsonScalar::Int(e.mode as int)),
            ("mtime"@, JsonScalar::Int(e.mtime as int)),
        ],
        None => Seq::empty(),
    } + flag_member(n, 2, "read_error"@) + flag_member(n, 8, "excluded"@) + flag_member(
        n,
        64,
        "notreg"@,
    ) + flag_member(n, 16, "othfs"@) + flag_member(n, 32, "kernfs"@) + flag_member(
        n,
        128,
        "hlnkc"@,
    )
}

/// `v` is the JSON form of the subtree of `x`, whose parent lies on the
/// device `pd` (`None` for the root): a file is its object of members; a
/// directory is an array of its object followed by the forms of its
/// children, in order.
pub open spec fn node_json(a: TreeArena, x: int, pd: Option<u64>, v: JsonValue) -> bool
    decreases a.len() - x,
{
    if 0 <= x < a.len() {
        let n = a.nodes@[x];
        if n.spec_is_dir() {
            match v {
                JsonValue::Array(items) => {
                    &&& items@.len() == a.nkids(x) + 1
                    &&& items@[0] matches JsonValue::Object(ms) && members_are(
                        ms@,
                        entry_members(n, pd),
                    )
                    &&& forall|k: int|
                        0 <= k < a.nkids(x) ==> if x < a.kid(x, k) < a.len() {
                            node_json(a, a.kid(x, k), Some(n.dev), #[trigger] items@[k + 1])
                        } else {
                            false
                        }
                },
                _ => false,
            }
        } else {
            v matches JsonValue::Object(ms) && members_are(ms@, entry_members(n, pd))
        }
    } else {
        false
    }
}

/// Pushes a member whose value is a string.
fn push_str(ms: &mut Vec<(String, JsonValue)>, key: &str, s: &String)
    ensures
        final(ms)@.len() == old(ms)@.len() + 1,
        final(ms)@.subrange(0, old(ms)@.len() as int) == old(ms)@,
        final(ms)@.last().0@ == key@,
        scalar_is(final(ms)@.last().1, JsonScalar::Str(s@)),
{
    ms.push((key.to_owned(), JsonValue::Str(s.clone())));
    assert(ms@.subrange(0, old(ms)@.len() as int) =~= old(ms)@);
}

/// Pushes a member whose value is an integer.
fn push_int(ms: &mut Vec<(String, JsonValue)>, key: &str, i: i128)
    ensures
        final(ms)@.len() == old(ms)@.len() + 1,
        final(ms)@.subrange(0, old(ms)@.len() as int) == old(ms)@,
        final(ms)@.last().0@ == key@,
        scalar_is(final(ms)@.last().1, JsonScalar::Int(i as int)),
        final(ms)@.last().1 == JsonValue::Int(i),
{
    ms.push((key.to_owned(), JsonValue::Int(i)));
    assert(ms@.subrange(0, old(ms)@.len() as int) =~= old(ms)@);
}

/// Pushes the member `key: true` when `bit` is set in `flags`.
fn push_flag(ms: &mut Vec<(String, JsonValue)>, n: &TreeNode, bit: u16, key: &str)
    ensures
        members_are(final(ms)@.subrange(old(ms)@.len() as int, final(ms)@.len() as int), flag_member(*n, bit, key@)),
        final(ms)@.subrange(0, old(ms)@.len() as int) == old(ms)@,
        final(ms)@.len() >= old(ms)@.len(),
{
    if n.flags.contains(bit) {
        ms.push((key.to_owned(), JsonValue::Bool(true)));
        let ghost tail = ms@.subrange(old(ms)@.len() as int, ms@.len() as int);
        assert(tail.len() == 1);
        assert(tail[0] == ms@.last());
    } else {
        assert(ms@.subrange(old(ms)@.len() as int, ms@.len() as int) =~= Seq::<(String, JsonValue)>::empty());
    }
    assert(ms@.subrange(0, old(ms)@.len() as int) =~= old(ms)@);
}

/// The members of `ms` from `lo` on match `exp`, and appending more members
/// keeps that.
proof fn lemma_members_concat(
    ms: Seq<(String, JsonValue)>,
    lo: int,
    mid: int,
    e1: Seq<(Seq<char>, JsonScalar)>,
    e2: Seq<(Seq<char>, JsonScalar)>,
)
    requires
        0 <= lo <= mid <= ms.len(),
        members_are(ms.subrange(lo, mid), e1),
        members_are(ms.subrange(mid, ms.len() as int), e2),
    ensures
        members_are(ms.subrange(lo, ms.len() as int), e1 + e2),
{
    let s = ms.subrange(lo, ms.len() as int);
    let e = e1 + e2;
    assert forall|i: int| 0 <= i < s.len() implies (#[trigger] s[i]).0@ == e[i].0 && scalar_is(
        s[i].1,
        e[i].1,
    ) by {
        if i < mid - lo {
            assert(s[i] == ms.subrange(lo, mid)[i]);
        } else {
            assert(s[i] == ms.subrange(mid, ms.len() as int)[i - (mid - lo)]);
        }
    }
}

/// The members of a node's object.
#[verifier::rlimit(40)]
fn entry_object(n: &TreeNode, parent_dev: Option<u64>) -> (r: Vec<(String, JsonValue)>)
    ensures
        members_are(r@, entry_members(*n, parent_dev)),
        json_members_writable(r@, 0),
{
    let mut ms: Vec<(String, JsonValue)> = Vec::new();
    push_str(&mut ms, "name", &n.name);
    push_int(&mut ms, "asize", n.asize as i128);
    push_int(&mut ms, "dsize", n.dsize as i128);
    push_int(&mut ms, "ino", n.ino as i128);
    push_int(&mut ms, "nlink", n.nlink as i128);
    let ghost base = seq![
        ("name"@, JsonScalar::Str(n.name@)),
        ("asize"@, JsonScalar::Int(n.asize as int)),
        ("dsize"@, JsonScalar::Int(n.dsize as int)),
        ("ino"@, JsonScalar::Int(n.ino as int)),
        ("nlink"@, JsonScalar::Int(n.nlink as int)),
    ];
    proof {
        assert(ms@.subrange(0, 5) =~= ms@);
        assert(members_are(ms@.subrange(0, 5), base));
    }
    let ghost e_dev = dev_member(*n, parent_dev);
    let same_dev = match parent_dev {
        Some(d) => d == n.dev,
        None => false,
    };
    if !same_dev {
        push_int(&mut ms, "dev", n.dev as i128);
    }
    proof {
        assert(members_are(ms@.subrange(5, ms@.len() as int), e_dev));
        lemma_members_concat(ms@, 0, 5, base, e_dev);
        assert(ms@.subrange(0, ms@.len() as int) =~= ms@);
    }
    let ghost m0 = ms@.len() as int;
    let ghost base_dev = base + e_dev;
    let ghost e_ext = match n.extended {
        Some(e) => seq![
            ("uid"@, JsonScalar::Int(e.uid as int)),
            ("gid"@, JsonScalar::Int(e.gid as int)),
            ("mode"@, JsonScalar::Int(e.mode as int)),
            ("mtime"@, JsonScalar::Int(e.mtime as int)),
        ],
        None => Seq::<(Seq<char>, JsonScalar)>::empty(),
    };
    match n.extended {
        Some(e) => {
            push_int(&mut ms, "uid", e.uid as i128);
            push_int(&mut ms, "gid", e.gid as i128);
            push_int(&mut ms, "mode", e.mode as i128);
            push_int(&mut ms, "mtime", e.mtime as i128);
        },
        None => {},
    }
    proof {
        assert(members_are(ms@.subrange(m0, ms@.len() as int), e_ext));
        lemma_members_concat(ms@, 0, m0, base_dev, e_ext);
        assert(ms@.subrange(0, ms@.len() as int) =~= ms@);
    }
    let ghost m1 = ms@.len() as int;
    let ghost acc1 = base_dev + e_ext;
    push_flag(&mut ms, n, EntryFlags::READ_ERROR, "read_error");
    proof {
        assert(ms@.subrange(0, m1) =~= ms@.subrange(0, m1));
        lemma_members_concat(ms@, 0, m1, acc1, flag_member(*n, 2, "read_error"@));
        assert(ms@.subrange(0, ms@.len() as int) =~= ms@);
    }
    let ghost m2 = ms@.len() as int;
    let ghost acc2 = acc1 + flag_member(*n, 2, "read_error"@);
    push_flag(&mut ms, n, EntryFlags::EXCLUDED, "excluded");
    proof {
        lemma_members_concat(ms@, 0, m2, acc2, flag_member(*n, 8, "excluded"@));
        assert(ms@.subrange(0, ms@.len() as int) =~= ms@);
    }
    let ghost m3 = ms@.len() as int;
    let ghost acc3 = acc2 + flag_member(*n, 8, "excluded"@);
    push_flag(&mut ms, n, EntryFlags::NOT_REG, "notreg");
    proof {
        lemma_members_concat(ms@, 0, m3, acc3, flag_member(*n, 64, "notreg"@));
        assert(ms@.subrange(0, ms@.len() as int) =~= ms@);
    }
    let ghost m4 = ms@.len() as int;
    let ghost acc4 = acc3 + flag_member(*n, 64, "notreg"@);
    push_flag(&mut ms, n, EntryFlags::OTHER_FS, "othfs");
    proof {
        lemma_members_concat(ms@, 0, m4, acc4, flag_member(*n, 16, "othfs"@));
        assert(ms@.subrange(0, ms@.len() as int) =~= ms@);
    }
    let ghost m5 = ms@.len() as int;
    let ghost acc5 = acc4 + flag_member(*n, 16, "othfs"@);
    push_flag(&mut ms, n, EntryFlags::KERNFS, "kernfs");
    proof {
        lemma_members_concat(ms@, 0, m5, acc5, flag_member(*n, 32, "kernfs"@));
        assert(ms@.subrange(0, ms@.len() as int) =~= ms@);
    }
    let ghost m6 = ms@.len() as int;
    let ghost acc6 = acc5 + flag_member(*n, 32, "kernfs"@);
    push_flag(&mut ms, n, EntryFlags::HARD_LINK, "hlnkc");
    proof {
        lemma_members_concat(ms@, 0, m6, acc6, flag_member(*n, 128, "hlnkc"@));
        assert(ms@.subrange(0, ms@.len() as int) =~= ms@);
        assert(acc6 + flag_member(*n, 128, "hlnkc"@) =~= entry_members(*n, parent_dev));
        lemma_members_writable(ms@, entry_members(*n, parent_dev), 0);
    }
    ms
}

/// Members that hold the scalars written for an entry are writable.
proof fn lemma_members_writable(ms: Seq<(String, JsonValue)>, exp: Seq<(Seq<char>, JsonScalar)>, i: int)
    requires
        members_are(ms, exp),
        0 <= i,
        forall|k: int|
            0 <= k < exp.len() ==> match #[trigger] exp[k].1 {
                JsonScalar::Int(j) => i64::MIN <= j <= u64::MAX,
                _ => true,
            },
    ensures
        json_members_writable(ms, i),
    decreases ms.len() - i,
{
    if i < ms.len() {
        assert(ms[i].0@ == exp[i].0 && scalar_is(ms[i].1, exp[i].1));
        let e = exp[i].1;
        match e {
            JsonScalar::Int(j) => {
                assert(i64::MIN <= j <= u64::MAX);
            },
            _ => {},
        }
        assert(json_writable(ms[i].1));
        lemma_members_writable(ms, exp, i + 1);
    }
}

/// The JSON form of the subtree of `node_id`, whose parent lies on the
/// device `parent_dev` (`None` for the root).
pub fn serialize_node(arena: &TreeArena, node_id: NodeId, parent_dev: Option<u64>) -> (r: JsonValue)
    requires
        arena.wf(),
        node_id.0 < arena.len(),
    ensures
        node_json(*arena, node_id.0 as int, parent_dev, r),
        json_writable(r),
    decreases arena.len() - node_id.0,
{
    let node = arena.get(node_id);
    let ms = entry_object(node, parent_dev);
    if node.is_dir() {
        let mut items: Vec<JsonValue> = Vec::new();
        items.push(JsonValue::Object(ms));
        let mut k: usize = 0;
        while k < node.children.len()
            invariant
                arena.wf(),
                node_id.0 < arena.len(),
                *node == arena.nodes@[node_id.0 as int],
                k <= node.children@.len(),
                items@.len() == k + 1,
                items@[0] matches JsonValue::Object(m0) && members_are(m0@, entry_members(*node, parent_dev)),
                json_writable(items@[0]),
                forall|j: int|
                    0 <= j < k ==> node_id.0 < arena.kid(node_id.0 as int, j) < arena.len()
                        && node_json(*arena, arena.kid(node_id.0 as int, j), Some(node.dev), #[trigger] items@[j + 1])
                        && json_writable(items@[j + 1]),
            decreases node.children@.len() - k,
        {
            let child = node.children[k];
            assert(arena.kid(node_id.0 as int, k as int) == child.0);
            let v = serialize_node(arena, child, Some(node.dev));
            items.push(v);
            k = k + 1;
        }
        proof {
            assert forall|j: int| 0 <= j < items@.len() implies json_writable(#[trigger] items@[j]) by {
                if j > 0 {
                    assert(items@[(j - 1) + 1] == items@[j]);
                }
            }
            lemma_all_writable(items@, 0);
        }
        JsonValue::Array(items)
    } else {
        JsonValue::Object(ms)
    }
}

/// A sequence of writable values is writable from any index on.
proof fn lemma_all_writable(s: Seq<JsonValue>, i: int)
    requires
        forall|k: int| 0 <= k < s.len() ==> json_writable(#[trigger] s[k]),
        0 <= i,
    ensures
        json_all_writable(s, i),
    decreases s.len() - i,
{
    if i < s.len() {
        lemma_all_writable(s, i + 1);
    }
}

/// The members an export writes have scalar values.
proof fn lemma_members_flat(ms: Seq<(String, JsonValue)>, exp: Seq<(Seq<char>, JsonScalar)>)
    requires
        members_are(ms, exp),
    ensures
        forall|i: int| 0 <= i < ms.len() ==> is_scalar(#[trigger] ms[i].1),
{
    assert forall|i: int| 0 <= i < ms.len() implies is_scalar(#[trigger] ms[i].1) by {
        assert(scalar_is(ms[i].1, exp[i].1));
    }
}

/// Values flat from index `i` on make a flat list from `i` on.
proof fn lemma_all_flat(s: Seq<JsonValue>, i: int)
    requires
        forall|k: int| 0 <= k < s.len() ==> json_flat(#[trigger] s[k]),
        0 <= i,
    ensures
        json_all_flat(s, i),
    decreases s.len() - i,
{
    if i < s.len() {
        lemma_all_flat(s, i + 1);
    }
}

/// The JSON form of a subtree has scalar members in all its objects.
proof fn lemma_node_flat(a: TreeArena, x: int, pd: Option<u64>, v: JsonValue)
    requires
        node_json(a, x, pd, v),
    ensures
        json_flat(v),
    decreases a.len() - x,
{
    let n = a.nodes@[x];
    if n.spec_is_dir() {
        if let JsonValue::Array(items) = v {
            assert forall|k: int| 0 <= k < items@.len() implies json_flat(#[trigger] items@[k]) by {
                if k == 0 {
                    if let JsonValue::Object(ms) = items@[0] {
                        lemma_members_flat(ms@, entry_members(n, pd));
                    }
                } else {
                    assert(items@[(k - 1) + 1] == items@[k]);
                    lemma_node_flat(a, a.kid(x, k - 1), Some(n.dev), items@[k]);
                }
            }
            lemma_all_flat(items@, 0);
        }
    } else {
        if let JsonValue::Object(ms) = v {
            lemma_members_flat(ms@, entry_members(n, pd));
        }
    }
}

/// The number of directory levels on the deepest path down from `x`: 0
/// for a file, one more than the deepest child for a directory.
pub open spec fn dir_depth(a: TreeArena, x: int) -> nat
    decreases a.len() - x, 1nat,
{
    if 0 <= x < a.len() && a.nodes@[x].spec_is_dir() {
        1 + dir_depth_from(a, x, 0)
    } else {
        0
    }
}

/// The greatest `dir_depth` among the children of `x` from the `k`-th on.
pub open spec fn dir_depth_from(a: TreeArena, x: int, k: int) -> nat
    decreases a.len() - x, 0nat, if 0 <= k < a.nkids(x) {
        (a.nkids(x) - k) as nat
    } else {
        0nat
    },
{
    if 0 <= x < a.len() && 0 <= k < a.nkids(x) && x < a.kid(x, k) < a.len() {
        depth_max(dir_depth(a, a.kid(x, k)), dir_depth_from(a, x, k + 1))
    } else {
        0
    }
}

/// Members with scalar values nest nothing.
proof fn lemma_members_depth(ms: Seq<(String, JsonValue)>, exp: Seq<(Seq<char>, JsonScalar)>, i: int)
    requires
        members_are(ms, exp),
        0 <= i,
    ensures
        json_members_depth(ms, i) == 0,
    decreases ms.len() - i,
{
    if i < ms.len() {
        assert(scalar_is(ms[i].1, exp[i].1));
        assert(json_depth(ms[i].1) == 0);
        lemma_members_depth(ms, exp, i + 1);
    }
}

/// The JSON form of the subtree of `x` is nested one deeper than the
/// directory levels below `x`.
proof fn lemma_node_depth(a: TreeArena, x: int, pd: Option<u64>, v: JsonValue)
    requires
        node_json(a, x, pd, v),
    ensures
        json_depth(v) == dir_depth(a, x) + 1,
    decreases a.len() - x, 1nat, 0nat,
{
    let n = a.nodes@[x];
    if n.spec_is_dir() {
        if let JsonValue::Array(items) = v {
            if let JsonValue::Object(ms) = items@[0] {
                lemma_members_depth(ms@, entry_members(n, pd), 0);
                assert(json_depth(items@[0]) == 1);
            }
            lemma_node_depth_list(a, x, pd, v, 0);
            assert(json_list_depth(items@, 0) == depth_max(json_depth(items@[0]), json_list_depth(items@, 1)));
            assert(dir_depth(a, x) == 1 + dir_depth_from(a, x, 0));
        }
    } else {
        if let JsonValue::Object(ms) = v {
            lemma_members_depth(ms@, entry_members(n, pd), 0);
        }
    }
}

/// The list form of `lemma_node_depth`: the children's forms from the
/// `k`-th on.
proof fn lemma_node_depth_list(a: TreeArena, x: int, pd: Option<u64>, v: JsonValue, k: int)
    requires
        node_json(a, x, pd, v),
        a.nodes@[x].spec_is_dir(),
        0 <= k <= a.nkids(x),
    ensures
        v matches JsonValue::Array(items) && json_list_depth(items@, k + 1) == (if k < a.nkids(x) {
            1 + dir_depth_from(a, x, k)
        } else {
            0
        }),
    decreases a.len() - x, 0nat, a.nkids(x) - k,
{
    if let JsonValue::Array(items) = v {
        if k < a.nkids(x) {
            assert(items@[k + 1] == items@[k + 1]);
            let c = a.kid(x, k);
            assert(node_json(a, c, Some(a.nodes@[x].dev), items@[k + 1]));
            lemma_node_depth(a, c, Some(a.nodes@[x].dev), items@[k + 1]);
            lemma_node_depth_list(a, x, pd, v, k + 1);
            assert(json_list_depth(items@, k + 1) == depth_max(json_depth(items@[k + 1]), json_list_depth(items@, k + 2)));
            assert(dir_depth_from(a, x, k) == depth_max(dir_depth(a, c), dir_depth_from(a, x, k + 1)));
            if k + 1 == a.nkids(x) {
                assert(dir_depth_from(a, x, k + 1) == 0);
            }
        } else {
            assert(json_list_depth(items@, k + 1) == 0);
        }
    }
}

/// The document written for a tree: format version 1.2, the metadata (the
/// program's name and version and the time `timestamp`), then the root,
/// which records its device.
pub open spec fn document_json(a: TreeArena, timestamp: u64, v: JsonValue) -> bool {
    v matches JsonValue::Array(top) && {
        &&& top@.len() == 4
        &&& top@[0] == JsonValue::Int(1)
        &&& top@[1] == JsonValue::Int(2)
        &&& top@[2] matches JsonValue::Object(meta) && members_are(
            meta@,
            seq![
                ("progname"@, JsonScalar::Str("rusdu"@)),
                ("progver"@, JsonScalar::Str("0.3.3"@)),
                ("timestamp"@, JsonScalar::Int(timestamp as int)),
            ],
        )
        &&& node_json(a, a.root.0 as int, None, top@[3])
    }
}

/// The pretty-printed JSON export of a tree written at `timestamp` (seconds
/// since the Unix epoch).
pub fn export_json_at(arena: &TreeArena, timestamp: u64) -> (r: Vec<u8>)
    requires
        arena.wf(),
    ensures
        exists|v: JsonValue|
            document_json(*arena, timestamp, v) && r@ == json_rendered(v) && json_depth(v) == dir_depth(
                *arena,
                0,
            ) + 2 && (json_depth(v) <= json_parse_depth_limit() ==> parses_back(r@, v)),
{
    let tree = serialize_node(arena, arena.root, None);
    proof {
        lemma_node_flat(*arena, arena.root.0 as int, None, tree);
        lemma_node_depth(*arena, arena.root.0 as int, None, tree);
    }
    let mut meta: Vec<(String, JsonValue)> = Vec::new();
    let progname = "rusdu".to_owned();
    let progver = "0.3.3".to_owned();
    push_str(&mut meta, "progname", &progname);
    push_str(&mut meta, "progver", &progver);
    push_int(&mut meta, "timestamp", timestamp as i128);
    let mut top: Vec<JsonValue> = Vec::new();
    top.push(JsonValue::Int(1));
    top.push(JsonValue::Int(2));
    let ghost meta_v = meta@;
    proof {
        assert(meta@[0] == meta@.subrange(0, 2)[0]);
        assert(meta@[1] == meta@.subrange(0, 2)[1]);
        assert(meta@.subrange(0, 2).subrange(0, 1) =~= meta@.subrange(0, 1));
        lemma_members_writable(
            meta@,
            seq![
                ("progname"@, JsonScalar::Str("rusdu"@)),
                ("progver"@, JsonScalar::Str("0.3.3"@)),
                ("timestamp"@, JsonScalar::Int(timestamp as int)),
            ],
            0,
        );
    }
    top.push(JsonValue::Object(meta));
    top.push(tree);
    let doc = JsonValue::Array(top);
    proof {
        assert(json_writable(top@[0]));
        assert(json_writable(top@[1]));
        lemma_all_writable(top@, 0);
        if let JsonValue::Object(m) = top@[2] {
            lemma_members_flat(
                m@,
                seq![
                    ("progname"@, JsonScalar::Str("rusdu"@)),
                    ("progver"@, JsonScalar::Str("0.3.3"@)),
                    ("timestamp"@, JsonScalar::Int(timestamp as int)),
                ],
            );
        }
        assert(json_flat(top@[0]));
        assert(json_flat(top@[1]));
        assert(json_flat(top@[3]));
        lemma_all_flat(top@, 0);
        if let JsonValue::Object(m) = top@[2] {
            lemma_members_depth(
                m@,
                seq![
                    ("progname"@, JsonScalar::Str("rusdu"@)),
                    ("progver"@, JsonScalar::Str("0.3.3"@)),
                    ("timestamp"@, JsonScalar::Int(timestamp as int)),
                ],
                0,
            );
        }
        assert(top@.len() == 4);
        assert(json_depth(top@[0]) == 0);
        assert(json_depth(top@[1]) == 0);
        assert(json_depth(top@[2]) == 1);
        assert(json_list_depth(top@, 4) == 0);
        assert(json_list_depth(top@, 3) == json_depth(top@[3]));
        assert(json_list_depth(top@, 2) == depth_max(1, json_depth(top@[3])));
        assert(json_list_depth(top@, 1) == json_list_depth(top@, 2));
        assert(json_list_depth(top@, 0) == json_list_depth(top@, 1));
        assert(json_depth(doc) == dir_depth(*arena, 0) + 2);
    }
    render_json_pretty(&doc)
}

/// Seconds since the Unix epoch by the system clock (0 when the clock is set
/// before the epoch), as `std::time::SystemTime::now` reports it.
#[verifier::external_body]
fn unix_now() -> u64 {
    std::time::SystemTime::now().duration_since(std::time::UNIX_EPOCH).unwrap_or_default().as_secs()
}

/// The pretty-printed JSON export of a tree, stamped with the current time.
pub fn export_json(arena: &TreeArena) -> (r: Vec<u8>)
    requires
        arena.wf(),
    ensures
        exists|t: u64, v: JsonValue|
            document_json(*arena, t, v) && r@ == json_rendered(v) && json_depth(v) == dir_depth(
                *arena,
                0,
            ) + 2 && (json_depth(v) <= json_parse_depth_limit() ==> parses_back(r@, v)),
{
    let t = unix_now();
    export_json_at(arena, t)
}

} // verus!
