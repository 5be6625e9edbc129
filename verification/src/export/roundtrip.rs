use vstd::prelude::*;

use crate::export::json_read::{
    child_ids, entry_fields, json_entries, json_import, json_list_entries, json_list_error,
    json_list_shape, json_node, json_shape, json_tree_error, member, tree_starts, JsonEntryV,
    JsonError,
};
use crate::export::json_value::{
    json_all_same, json_parsed, json_rendered, json_same, last_member, opt_scalar_same,
    json_depth, json_parse_depth_limit, parses_back, scalar_same, JsonValue,
};
use crate::export::json_write::{
    dev_member, dir_depth, document_json, entry_members, flag_member, members_are, node_json, scalar_is, JsonScalar,
};
use crate::tree::arena::TreeArena;
use crate::tree::node::{EntryFlags, TreeNode};

verus! {

/// `Some(true)` when `bit` is set in `bits`, else nothing.
pub open spec fn flag_opt(bits: u16, bit: u16) -> Option<bool> {
    if EntryFlags::has(bits, bit) {
        Some(true)
    } else {
        None
    }
}

/// The entry a JSON export writes for a node: its name, sizes, inode and
/// link count, its extended information when it has some, and its flags.
pub open spec fn entry_of_node(n: TreeNode) -> JsonEntryV {
    JsonEntryV {
        name: n.name@,
        asize: n.asize,
        dsize: n.dsize,
        ino: Some(n.ino),
        nlink: Some(n.nlink),
        uid: match n.extended {
            Some(e) => Some(e.uid),
            None => None,
        },
        gid: match n.extended {
            Some(e) => Some(e.gid),
            None => None,
        },
        mode: match n.extended {
            Some(e) => Some(e.mode),
            None => None,
        },
        mtime: match n.extended {
            Some(e) => Some(e.mtime),
            None => None,
        },
        read_error: flag_opt(n.flags.bits, 2),
        excluded: flag_opt(n.flags.bits, 8),
        notreg: flag_opt(n.flags.bits, 64),
        othfs: flag_opt(n.flags.bits, 16),
        kernfs: flag_opt(n.flags.bits, 32),
        hlnkc: flag_opt(n.flags.bits, 128),
    }
}

/// The entries `es` are, in order, those a JSON export writes for the
/// nodes `po` of `a`: directory or not, and the entry read from each.
pub open spec fn entries_carry(es: Seq<(bool, JsonValue)>, a: TreeArena, po: Seq<int>) -> bool {
    &&& es.len() == po.len()
    &&& forall|k: int|
        0 <= k < es.len() ==> (#[trigger] es[k]).0 == a.nodes@[po[k]].spec_is_dir() && entry_fields(
            es[k].1,
        ) == Some(entry_of_node(a.nodes@[po[k]]))
}

/// The value of the last of the keys and scalars `exp` named `k`.
pub open spec fn exp_last(exp: Seq<(Seq<char>, JsonScalar)>, k: Seq<char>) -> Option<JsonScalar>
    decreases exp.len(),
{
    if exp.len() == 0 {
        None
    } else if exp.last().0 == k {
        Some(exp.last().1)
    } else {
        exp_last(exp.drop_last(), k)
    }
}

/// The lengths and first characters of the member names an export writes,
/// which tell them all apart.
proof fn lemma_key_names()
    ensures
        "name"@.len() == 4 && "name"@[0] == 'n',
        "asize"@.len() == 5 && "asize"@[0] == 'a',
        "dsize"@.len() == 5 && "dsize"@[0] == 'd',
        "ino"@.len() == 3 && "ino"@[0] == 'i',
        "nlink"@.len() == 5 && "nlink"@[0] == 'n',
        "uid"@.len() == 3 && "uid"@[0] == 'u',
        "gid"@.len() == 3 && "gid"@[0] == 'g',
        "mode"@.len() == 4 && "mode"@[0] == 'm',
        "mtime"@.len() == 5 && "mtime"@[0] == 'm',
        "read_error"@.len() == 10 && "read_error"@[0] == 'r',
        "excluded"@.len() == 8 && "excluded"@[0] == 'e',
        "notreg"@.len() == 6 && "notreg"@[0] == 'n',
        "othfs"@.len() == 5 && "othfs"@[0] == 'o',
        "kernfs"@.len() == 6 && "kernfs"@[0] == 'k',
        "hlnkc"@.len() == 5 && "hlnkc"@[0] == 'h',
        "dev"@.len() == 3 && "dev"@[0] == 'd',
{
    reveal_strlit("name");
    reveal_strlit("asize");
    reveal_strlit("dsize");
    reveal_strlit("ino");
    reveal_strlit("nlink");
    reveal_strlit("uid");
    reveal_strlit("gid");
    reveal_strlit("mode");
    reveal_strlit("mtime");
    reveal_strlit("read_error");
    reveal_strlit("excluded");
    reveal_strlit("notreg");
    reveal_strlit("othfs");
    reveal_strlit("kernfs");
    reveal_strlit("hlnkc");
    reveal_strlit("dev");
}

/// The last value named `k` in a concatenation: in the second part if it
/// names `k`, else in the first.
proof fn lemma_exp_last_concat(e1: Seq<(Seq<char>, JsonScalar)>, e2: Seq<(Seq<char>, JsonScalar)>, k: Seq<char>)
    ensures
        exp_last(e1 + e2, k) == first_some(exp_last(e2, k), exp_last(e1, k)),
    decreases e2.len(),
{
    if e2.len() > 0 {
        assert((e1 + e2).drop_last() =~= e1 + e2.drop_last());
        assert((e1 + e2).last() == e2.last());
        lemma_exp_last_concat(e1, e2.drop_last(), k);
    } else {
        assert(e1 + e2 =~= e1);
    }
}

/// `a` when it is something, else `b`.
pub open spec fn first_some(a: Option<JsonScalar>, b: Option<JsonScalar>) -> Option<JsonScalar> {
    match a {
        Some(s) => Some(s),
        None => b,
    }
}

/// The last member named `k` of members written as `exp` is the last value
/// of `exp` named `k`.
proof fn lemma_members_last(ms: Seq<(String, JsonValue)>, exp: Seq<(Seq<char>, JsonScalar)>, k: Seq<char>)
    requires
        members_are(ms, exp),
    ensures
        match last_member(ms, k) {
            None => exp_last(exp, k) is None,
            Some(v) => exp_last(exp, k) matches Some(s) && scalar_is(v, s),
        },
    decreases ms.len(),
{
    if ms.len() > 0 {
        let n = ms.len() - 1;
        assert(ms[n].0@ == exp[n].0 && scalar_is(ms[n].1, exp[n].1));
        assert(members_are(ms.drop_last(), exp.drop_last())) by {
            assert forall|i: int| 0 <= i < ms.drop_last().len() implies (#[trigger] ms.drop_last()[i]).0@
                == exp.drop_last()[i].0 && scalar_is(ms.drop_last()[i].1, exp.drop_last()[i].1) by {
                assert(ms.drop_last()[i] == ms[i]);
                assert(exp.drop_last()[i] == exp[i]);
            }
        }
        lemma_members_last(ms.drop_last(), exp.drop_last(), k);
    }
}

/// The base members of a node's entry.
pub open spec fn base_members(n: TreeNode) -> Seq<(Seq<char>, JsonScalar)> {
    seq![
        ("name"@, JsonScalar::Str(n.name@)),
        ("asize"@, JsonScalar::Int(n.asize as int)),
        ("dsize"@, JsonScalar::Int(n.dsize as int)),
        ("ino"@, JsonScalar::Int(n.ino as int)),
        ("nlink"@, JsonScalar::Int(n.nlink as int)),
    ]
}

/// The extended members of a node's entry.
pub open spec fn ext_members(n: TreeNode) -> Seq<(Seq<char>, JsonScalar)> {
    match n.extended {
        Some(e) => seq![
            ("uid"@, JsonScalar::Int(e.uid as int)),
            ("gid"@, JsonScalar::Int(e.gid as int)),
            ("mode"@, JsonScalar::Int(e.mode as int)),
            ("mtime"@, JsonScalar::Int(e.mtime as int)),
        ],
        None => Seq::empty(),
    }
}

/// The last value named `k` among a node's entry members, part by part
/// from the end.
proof fn lemma_entry_chain(n: TreeNode, pd: Option<u64>, k: Seq<char>)
    ensures
        exp_last(entry_members(n, pd), k) == first_some(
            exp_last(flag_member(n, 128, "hlnkc"@), k),
            first_some(
                exp_last(flag_member(n, 32, "kernfs"@), k),
                first_some(
                    exp_last(flag_member(n, 16, "othfs"@), k),
                    first_some(
                        exp_last(flag_member(n, 64, "notreg"@), k),
                        first_some(
                            exp_last(flag_member(n, 8, "excluded"@), k),
                            first_some(
                                exp_last(flag_member(n, 2, "read_error"@), k),
                                first_some(
                                    exp_last(ext_members(n), k),
                                    first_some(exp_last(dev_member(n, pd), k), exp_last(base_members(n), k)),
                                ),
                            ),
                        ),
                    ),
                ),
            ),
        ),
{
    let s0 = base_members(n) + dev_member(n, pd);
    let s1 = s0 + ext_members(n);
    let s2 = s1 + flag_member(n, 2, "read_error"@);
    let s3 = s2 + flag_member(n, 8, "excluded"@);
    let s4 = s3 + flag_member(n, 64, "notreg"@);
    let s5 = s4 + flag_member(n, 16, "othfs"@);
    let s6 = s5 + flag_member(n, 32, "kernfs"@);
    assert(entry_members(n, pd) == s6 + flag_member(n, 128, "hlnkc"@));
    lemma_exp_last_concat(base_members(n), dev_member(n, pd), k);
    lemma_exp_last_concat(s0, ext_members(n), k);
    lemma_exp_last_concat(s1, flag_member(n, 2, "read_error"@), k);
    lemma_exp_last_concat(s2, flag_member(n, 8, "excluded"@), k);
    lemma_exp_last_concat(s3, flag_member(n, 64, "notreg"@), k);
    lemma_exp_last_concat(s4, flag_member(n, 16, "othfs"@), k);
    lemma_exp_last_concat(s5, flag_member(n, 32, "kernfs"@), k);
    lemma_exp_last_concat(s6, flag_member(n, 128, "hlnkc"@), k);
}

/// A flag member when set.
pub open spec fn flag_scalar(n: TreeNode, bit: u16) -> Option<JsonScalar> {
    if EntryFlags::has(n.flags.bits, bit) {
        Some(JsonScalar::Bool(true))
    } else {
        None
    }
}

/// What the entry members of a node give for each member name.
proof fn lemma_entry_lookup(n: TreeNode, pd: Option<u64>)
    ensures
        exp_last(entry_members(n, pd), "name"@) == Some(JsonScalar::Str(n.name@)),
        exp_last(entry_members(n, pd), "asize"@) == Some(JsonScalar::Int(n.asize as int)),
        exp_last(entry_members(n, pd), "dsize"@) == Some(JsonScalar::Int(n.dsize as int)),
        exp_last(entry_members(n, pd), "ino"@) == Some(JsonScalar::Int(n.ino as int)),
        exp_last(entry_members(n, pd), "nlink"@) == Some(JsonScalar::Int(n.nlink as int)),
        exp_last(entry_members(n, pd), "uid"@) == (match n.extended {
            Some(e) => Some(JsonScalar::Int(e.uid as int)),
            None => None::<JsonScalar>,
        }),
        exp_last(entry_members(n, pd), "gid"@) == (match n.extended {
            Some(e) => Some(JsonScalar::Int(e.gid as int)),
            None => None::<JsonScalar>,
        }),
        exp_last(entry_members(n, pd), "mode"@) == (match n.extended {
            Some(e) => Some(JsonScalar::Int(e.mode as int)),
            None => None::<JsonScalar>,
        }),
        exp_last(entry_members(n, pd), "mtime"@) == (match n.extended {
            Some(e) => Some(JsonScalar::Int(e.mtime as int)),
            None => None::<JsonScalar>,
        }),
        exp_last(entry_members(n, pd), "read_error"@) == flag_scalar(n, 2),
        exp_last(entry_members(n, pd), "excluded"@) == flag_scalar(n, 8),
        exp_last(entry_members(n, pd), "notreg"@) == flag_scalar(n, 64),
        exp_last(entry_members(n, pd), "othfs"@) == flag_scalar(n, 16),
        exp_last(entry_members(n, pd), "kernfs"@) == flag_scalar(n, 32),
        exp_last(entry_members(n, pd), "hlnkc"@) == flag_scalar(n, 128),
{
    lemma_key_names();
    reveal_with_fuel(exp_last, 6);
    lemma_entry_chain(n, pd, "name"@);
    lemma_entry_chain(n, pd, "asize"@);
    lemma_entry_chain(n, pd, "dsize"@);
    lemma_entry_chain(n, pd, "ino"@);
    lemma_entry_chain(n, pd, "nlink"@);
    lemma_entry_chain(n, pd, "uid"@);
    lemma_entry_chain(n, pd, "gid"@);
    lemma_entry_chain(n, pd, "mode"@);
    lemma_entry_chain(n, pd, "mtime"@);
    lemma_entry_chain(n, pd, "read_error"@);
    lemma_entry_chain(n, pd, "excluded"@);
    lemma_entry_chain(n, pd, "notreg"@);
    lemma_entry_chain(n, pd, "othfs"@);
    lemma_entry_chain(n, pd, "kernfs"@);
    lemma_entry_chain(n, pd, "hlnkc"@);
}

/// An object read back from what the export writes for a node gives the
/// node's entry.
#[verifier::rlimit(60)]
proof fn lemma_entry_fields_read(n: TreeNode, pd: Option<u64>, mv: Seq<(String, JsonValue)>, w: JsonValue)
    requires
        members_are(mv, entry_members(n, pd)),
        w matches JsonValue::Object(mw) && forall|k: Seq<char>| #[trigger]
            opt_scalar_same(last_member(mv, k), member(mw@, k)),
    ensures
        entry_fields(w) == Some(entry_of_node(n)),
{
    reveal(entry_fields);
    lemma_entry_lookup(n, pd);
    if let JsonValue::Object(mw) = w {
        let ms = mw@;
        lemma_members_last(mv, entry_members(n, pd), "name"@);
        lemma_members_last(mv, entry_members(n, pd), "asize"@);
        lemma_members_last(mv, entry_members(n, pd), "dsize"@);
        lemma_members_last(mv, entry_members(n, pd), "ino"@);
        lemma_members_last(mv, entry_members(n, pd), "nlink"@);
        lemma_members_last(mv, entry_members(n, pd), "uid"@);
        lemma_members_last(mv, entry_members(n, pd), "gid"@);
        lemma_members_last(mv, entry_members(n, pd), "mode"@);
        lemma_members_last(mv, entry_members(n, pd), "mtime"@);
        lemma_members_last(mv, entry_members(n, pd), "read_error"@);
        lemma_members_last(mv, entry_members(n, pd), "excluded"@);
        lemma_members_last(mv, entry_members(n, pd), "notreg"@);
        lemma_members_last(mv, entry_members(n, pd), "othfs"@);
        lemma_members_last(mv, entry_members(n, pd), "kernfs"@);
        lemma_members_last(mv, entry_members(n, pd), "hlnkc"@);
        assert(opt_scalar_same(last_member(mv, "name"@), member(ms, "name"@)));
        assert(opt_scalar_same(last_member(mv, "asize"@), member(ms, "asize"@)));
        assert(opt_scalar_same(last_member(mv, "dsize"@), member(ms, "dsize"@)));
        assert(opt_scalar_same(last_member(mv, "ino"@), member(ms, "ino"@)));
        assert(opt_scalar_same(last_member(mv, "nlink"@), member(ms, "nlink"@)));
        assert(opt_scalar_same(last_member(mv, "uid"@), member(ms, "uid"@)));
        assert(opt_scalar_same(last_member(mv, "gid"@), member(ms, "gid"@)));
        assert(opt_scalar_same(last_member(mv, "mode"@), member(ms, "mode"@)));
        assert(opt_scalar_same(last_member(mv, "mtime"@), member(ms, "mtime"@)));
        assert(opt_scalar_same(last_member(mv, "read_error"@), member(ms, "read_error"@)));
        assert(opt_scalar_same(last_member(mv, "excluded"@), member(ms, "excluded"@)));
        assert(opt_scalar_same(last_member(mv, "notreg"@), member(ms, "notreg"@)));
        assert(opt_scalar_same(last_member(mv, "othfs"@), member(ms, "othfs"@)));
        assert(opt_scalar_same(last_member(mv, "kernfs"@), member(ms, "kernfs"@)));
        assert(opt_scalar_same(last_member(mv, "hlnkc"@), member(ms, "hlnkc"@)));
        assert(member(ms, "asize"@) == Some(JsonValue::Int(n.asize as i128)));
        assert(member(ms, "dsize"@) == Some(JsonValue::Int(n.dsize as i128)));
        assert(member(ms, "ino"@) == Some(JsonValue::Int(n.ino as i128)));
        assert(member(ms, "nlink"@) == Some(JsonValue::Int(n.nlink as i128)));
    }
}

/// Pairwise same lists are the same at each index from `i` on.
proof fn lemma_same_list(s: Seq<JsonValue>, t: Seq<JsonValue>, i: int)
    requires
        json_all_same(s, t, i),
        s.len() == t.len(),
        0 <= i,
    ensures
        forall|j: int| i <= j < s.len() ==> json_same(#[trigger] s[j], t[j]),
    decreases s.len() - i,
{
    if i < s.len() {
        lemma_same_list(s, t, i + 1);
        assert(json_same(s[i], t[i]));
    }
}

/// Entries carried in two runs are carried in their concatenation.
proof fn lemma_carry_concat(
    e1: Seq<(bool, JsonValue)>,
    e2: Seq<(bool, JsonValue)>,
    a: TreeArena,
    p1: Seq<int>,
    p2: Seq<int>,
)
    requires
        entries_carry(e1, a, p1),
        entries_carry(e2, a, p2),
    ensures
        entries_carry(e1 + e2, a, p1 + p2),
{
    let e = e1 + e2;
    let p = p1 + p2;
    assert forall|k: int| 0 <= k < e.len() implies (#[trigger] e[k]).0 == a.nodes@[p[k]].spec_is_dir()
        && entry_fields(e[k].1) == Some(entry_of_node(a.nodes@[p[k]])) by {
        if k < e1.len() {
            assert(e[k] == e1[k] && p[k] == p1[k]);
        } else {
            assert(e[k] == e2[k - e1.len()] && p[k] == p2[k - e1.len()]);
        }
    }
}

/// Reading back what the export writes for the subtree of `x` finds no
/// error, an array exactly for a directory, and the entries of the nodes in
/// the order the export writes them (depth first).
proof fn lemma_export_read(a: TreeArena, x: int, pd: Option<u64>, v: JsonValue, w: JsonValue)
    requires
        a.wf(),
        node_json(a, x, pd, v),
        json_same(v, w),
    ensures
        json_tree_error(w) is None,
        (w is Array) == a.nodes@[x].spec_is_dir(),
        entries_carry(json_entries(w), a, a.walk_order(x)),
    decreases a.len() - x, 1nat, 0nat,
{
    let n = a.nodes@[x];
    if n.spec_is_dir() {
        if let JsonValue::Array(iv) = v {
            if let JsonValue::Array(iw) = w {
                assert(iv@.len() == iw@.len());
                lemma_same_list(iv@, iw@, 0);
                assert(json_same(iv@[0], iw@[0]));
                if let JsonValue::Object(mv) = iv@[0] {
                    lemma_entry_fields_read(n, pd, mv@, iw@[0]);
                }
                assert forall|j: int| 0 <= j < a.nkids(x) implies (x < a.kid(x, j) < a.len() && node_json(
                    a,
                    a.kid(x, j),
                    Some(n.dev),
                    #[trigger] iv@[j + 1],
                )) by {}
                lemma_export_read_list(a, x, iv@, iw@, 1);
                let first = seq![(true, iw@[0])];
                assert(entries_carry(first, a, seq![x]));
                lemma_carry_concat(first, json_list_entries(iw@, 1), a, seq![x], a.walk_from(x, 0));
            }
        }
    } else {
        if let JsonValue::Object(mv) = v {
            lemma_entry_fields_read(n, pd, mv@, w);
        }
        assert(entries_carry(json_entries(w), a, a.walk_order(x)));
    }
}

/// Reading back the children part of a directory's array from index `k` on.
proof fn lemma_export_read_list(a: TreeArena, x: int, iv: Seq<JsonValue>, iw: Seq<JsonValue>, k: int)
    requires
        a.wf(),
        0 <= x < a.len(),
        a.nodes@[x].spec_is_dir(),
        iv.len() == a.nkids(x) + 1,
        iw.len() == iv.len(),
        forall|j: int|
            0 <= j < a.nkids(x) ==> (x < a.kid(x, j) < a.len() && node_json(
                a,
                a.kid(x, j),
                Some(a.nodes@[x].dev),
                #[trigger] iv[j + 1],
            )),
        forall|j: int| 0 <= j < iv.len() ==> json_same(#[trigger] iv[j], iw[j]),
        1 <= k <= iv.len(),
    ensures
        json_list_error(iw, k) is None,
        entries_carry(json_list_entries(iw, k), a, a.walk_from(x, k - 1)),
    decreases a.len() - x, 0nat, iv.len() - k,
{
    if k < iv.len() {
        let c = a.kid(x, k - 1);
        assert(iv[(k - 1) + 1] == iv[k]);
        assert(node_json(a, c, Some(a.nodes@[x].dev), iv[k]));
        assert(json_same(iv[k], iw[k]));
        lemma_export_read(a, c, Some(a.nodes@[x].dev), iv[k], iw[k]);
        lemma_export_read_list(a, x, iv, iw, k + 1);
        lemma_carry_concat(
            json_entries(iw[k]),
            json_list_entries(iw, k + 1),
            a,
            a.walk_order(c),
            a.walk_from(x, k),
        );
    } else {
        assert(entries_carry(json_list_entries(iw, k), a, a.walk_from(x, k - 1)));
    }
}

/// Node `i` of the walk `po` of `a`, held at position `p + i` of `b`, is
/// linked as the node of `a` it stands for: for a directory, its `j`-th
/// child is held at a position of the walk where `po` names the `j`-th
/// child of that node; a file has no child.
pub open spec fn linked_at(b: TreeArena, p: int, a: TreeArena, po: Seq<int>, i: int) -> bool {
    if a.nodes@[po[i]].spec_is_dir() {
        &&& b.nkids(p + i) == a.nkids(po[i])
        &&& forall|j: int|
            0 <= j < a.nkids(po[i]) ==> p <= #[trigger] b.kid(p + i, j) < p + po.len() && po[b.kid(p + i, j)
                - p] == a.kid(po[i], j)
    } else {
        b.nkids(p + i) == 0
    }
}

/// Every node of the walk `po` of `a`, held from position `p` of `b` on, is
/// linked as the node of `a` it stands for.
pub open spec fn linked_like(b: TreeArena, p: int, a: TreeArena, po: Seq<int>) -> bool {
    forall|i: int| 0 <= i < po.len() ==> #[trigger] linked_at(b, p, a, po, i)
}

/// The starts `ts` of element trees laid out from `q` fall, in order, at
/// positions where the walk `s` names the children of `x` from the `k0`-th
/// on.
pub open spec fn starts_like(ts: Seq<int>, q: int, s: Seq<int>, a: TreeArena, x: int, k0: int) -> bool {
    forall|j: int|
        0 <= j < ts.len() ==> q <= #[trigger] ts[j] < q + s.len() && s[ts[j] - q] == a.kid(x, k0 + j)
}

/// Links held for a first walk stay held in a longer one.
proof fn lemma_linked_prefix(b: TreeArena, q: int, a: TreeArena, s1: Seq<int>, s2: Seq<int>)
    requires
        linked_like(b, q, a, s1),
    ensures
        forall|i: int| 0 <= i < s1.len() ==> #[trigger] linked_at(b, q, a, s1 + s2, i),
{
    let s = s1 + s2;
    assert forall|i: int| 0 <= i < s1.len() implies #[trigger] linked_at(b, q, a, s, i) by {
        assert(linked_at(b, q, a, s1, i));
        assert(s[i] == s1[i]);
        if a.nodes@[s[i]].spec_is_dir() {
            assert forall|j: int| 0 <= j < a.nkids(s[i]) implies q <= #[trigger] b.kid(q + i, j) < q
                + s.len() && s[b.kid(q + i, j) - q] == a.kid(s[i], j) by {
                assert(s[b.kid(q + i, j) - q] == s1[b.kid(q + i, j) - q]);
            }
        }
    }
}

/// Links held for a walk laid out after a first one are held in the
/// concatenation.
proof fn lemma_linked_suffix(b: TreeArena, q: int, a: TreeArena, s1: Seq<int>, s2: Seq<int>)
    requires
        linked_like(b, q + s1.len(), a, s2),
    ensures
        forall|i: int| s1.len() <= i < s1.len() + s2.len() ==> #[trigger] linked_at(b, q, a, s1 + s2, i),
{
    let s = s1 + s2;
    let m = s1.len() as int;
    assert forall|i: int| m <= i < m + s2.len() implies #[trigger] linked_at(b, q, a, s, i) by {
        let i2 = i - m;
        assert(linked_at(b, q + m, a, s2, i2));
        assert(s[i] == s2[i2]);
        assert(q + m + i2 == q + i);
        if a.nodes@[s[i]].spec_is_dir() {
            assert forall|j: int| 0 <= j < a.nkids(s[i]) implies q <= #[trigger] b.kid(q + i, j) < q
                + s.len() && s[b.kid(q + i, j) - q] == a.kid(s[i], j) by {
                assert(b.kid(q + m + i2, j) == b.kid(q + i, j));
                assert(s[b.kid(q + i, j) - q] == s2[b.kid(q + i, j) - q - m]);
            }
        }
    }
}

/// The tree read back from what the export writes for the subtree of `x`,
/// held from position `p` on, is linked as the subtree.
proof fn lemma_export_links(a: TreeArena, x: int, pd: Option<u64>, v: JsonValue, w: JsonValue, b: TreeArena, p: int)
    requires
        a.wf(),
        node_json(a, x, pd, v),
        json_same(v, w),
        json_shape(b, p, w),
    ensures
        linked_like(b, p, a, a.walk_order(x)),
    decreases a.len() - x, 1nat, 0nat,
{
    lemma_export_read(a, x, pd, v, w);
    let n = a.nodes@[x];
    let po = a.walk_order(x);
    if n.spec_is_dir() {
        if let JsonValue::Array(iv) = v {
            if let JsonValue::Array(iw) = w {
                lemma_same_list(iv@, iw@, 0);
                assert forall|j: int| 0 <= j < a.nkids(x) implies (x < a.kid(x, j) < a.len() && node_json(
                    a,
                    a.kid(x, j),
                    Some(n.dev),
                    #[trigger] iv@[j + 1],
                )) by {}
                lemma_export_links_list(a, x, iv@, iw@, b, 1, p + 1);
                let wf = a.walk_from(x, 0);
                assert(po == seq![x] + wf);
                assert(linked_at(b, p, a, po, 0)) by {
                    assert(po[0] == x);
                    assert(child_ids(b, p) == tree_starts(iw@, 1, p + 1));
                    assert(child_ids(b, p).len() == b.nkids(p));
                    assert forall|j: int| 0 <= j < a.nkids(x) implies p <= #[trigger] b.kid(p, j) < p
                        + po.len() && po[b.kid(p, j) - p] == a.kid(x, j) by {
                        assert(child_ids(b, p)[j] == b.kid(p, j));
                        assert(tree_starts(iw@, 1, p + 1)[j] == b.kid(p, j));
                        assert(po[b.kid(p, j) - p] == wf[b.kid(p, j) - p - 1]);
                    }
                }
                lemma_linked_suffix(b, p, a, seq![x], wf);
                assert forall|i: int| 0 <= i < po.len() implies #[trigger] linked_at(b, p, a, po, i) by {
                    if i > 0 {
                        assert(linked_at(b, p, a, seq![x] + wf, i));
                    }
                }
            }
        }
    } else {
        assert(po == seq![x]);
        assert(linked_at(b, p, a, po, 0));
    }
}

/// The list form of `lemma_export_links`, for the element trees of a
/// directory's array from the `k`-th on, laid out from position `q`.
proof fn lemma_export_links_list(
    a: TreeArena,
    x: int,
    iv: Seq<JsonValue>,
    iw: Seq<JsonValue>,
    b: TreeArena,
    k: int,
    q: int,
)
    requires
        a.wf(),
        0 <= x < a.len(),
        a.nodes@[x].spec_is_dir(),
        iv.len() == a.nkids(x) + 1,
        iw.len() == iv.len(),
        forall|j: int|
            0 <= j < a.nkids(x) ==> (x < a.kid(x, j) < a.len() && node_json(
                a,
                a.kid(x, j),
                Some(a.nodes@[x].dev),
                #[trigger] iv[j + 1],
            )),
        forall|j: int| 0 <= j < iv.len() ==> json_same(#[trigger] iv[j], iw[j]),
        1 <= k <= iv.len(),
        json_list_shape(b, iw, k, q),
    ensures
        linked_like(b, q, a, a.walk_from(x, k - 1)),
        tree_starts(iw, k, q).len() == iw.len() - k,
        starts_like(tree_starts(iw, k, q), q, a.walk_from(x, k - 1), a, x, k - 1),
    decreases a.len() - x, 0nat, iv.len() - k,
{
    if k < iv.len() {
        let c = a.kid(x, k - 1);
        assert(iv[(k - 1) + 1] == iv[k]);
        assert(node_json(a, c, Some(a.nodes@[x].dev), iv[k]));
        assert(json_same(iv[k], iw[k]));
        let n = json_entries(iw[k]).len() as int;
        lemma_export_links(a, c, Some(a.nodes@[x].dev), iv[k], iw[k], b, q);
        lemma_export_read(a, c, Some(a.nodes@[x].dev), iv[k], iw[k]);
        lemma_export_links_list(a, x, iv, iw, b, k + 1, q + n);
        let wo = a.walk_order(c);
        let wf2 = a.walk_from(x, k);
        let s = a.walk_from(x, k - 1);
        assert(s == wo + wf2);
        assert(wo.len() == n);
        lemma_linked_prefix(b, q, a, wo, wf2);
        lemma_linked_suffix(b, q, a, wo, wf2);
        assert forall|i: int| 0 <= i < s.len() implies #[trigger] linked_at(b, q, a, s, i) by {
            if i < wo.len() {
                assert(linked_at(b, q, a, wo + wf2, i));
            } else {
                assert(linked_at(b, q, a, wo + wf2, i));
            }
        }
        let ts = tree_starts(iw, k, q);
        let ts2 = tree_starts(iw, k + 1, q + n);
        assert(ts == seq![q] + ts2);
        assert(wo[0] == c);
        assert forall|j: int| 0 <= j < ts.len() implies q <= #[trigger] ts[j] < q + s.len() && s[ts[j] - q]
            == a.kid(x, k - 1 + j) by {
            if j == 0 {
                assert(s[0] == wo[0]);
            } else {
                assert(ts[j] == ts2[j - 1]);
                assert(q + n <= ts2[j - 1] < q + n + wf2.len() && wf2[ts2[j - 1] - (q + n)] == a.kid(
                    x,
                    k + (j - 1),
                ));
                assert(s[ts[j] - q] == wf2[ts[j] - q - n]);
            }
        }
    } else {
        assert(a.walk_from(x, k - 1) =~= Seq::<int>::empty());
        assert(tree_starts(iw, k, q) =~= Seq::<int>::empty());
    }
}

/// Exporting a tree whose root is a directory, nested no deeper than the
/// JSON parser accepts, to JSON and importing the bytes back fails only when the tree read back is too large or its
/// statistics overflow; otherwise it gives one node for each node the
/// export writes, in the order the export writes them (depth first), each a directory
/// exactly when the exported node is one and carrying the entry written for it:
/// the same name, inode, extended information and flags (those the format
/// keeps), the same sizes and link count for a file; and each node is linked
/// as the exported node: a directory's children are, in order, the nodes
/// read back for the exported node's children, and a file has none.
pub proof fn lemma_json_roundtrip(a: TreeArena, bytes: Seq<u8>, r: Result<TreeArena, JsonError>)
    requires
        a.wf(),
        a.nodes@[0].spec_is_dir(),
        dir_depth(a, 0) + 2 <= json_parse_depth_limit(),
        exists|t: u64, v: JsonValue|
            document_json(a, t, v) && bytes == json_rendered(v) && json_depth(v) == dir_depth(a, 0) + 2
                && (json_depth(v) <= json_parse_depth_limit() ==> parses_back(bytes, v)),
        match json_parsed(bytes) {
            None => r == Err::<TreeArena, JsonError>(JsonError::Parse),
            Some(w) => json_import(w, r),
        },
    ensures
        r matches Ok(b) ==> b.len() == a.walk_order(0).len() && forall|k: int|
            0 <= k < b.len() ==> json_node(
                #[trigger] b.nodes@[k],
                a.nodes@[a.walk_order(0)[k]].spec_is_dir(),
                entry_of_node(a.nodes@[a.walk_order(0)[k]]),
            ),
        r matches Ok(b) ==> linked_like(b, 0, a, a.walk_order(0)),
        r matches Err(e) ==> e == JsonError::StatsOverflow || e == JsonError::TooLarge,
{
    let (t, v) = choose|t: u64, v: JsonValue|
        document_json(a, t, v) && bytes == json_rendered(v) && json_depth(v) == dir_depth(a, 0) + 2
            && (json_depth(v) <= json_parse_depth_limit() ==> parses_back(bytes, v));
    assert(parses_back(bytes, v));
    let w = json_parsed(bytes)->0;
    if let JsonValue::Array(top) = v {
        if let JsonValue::Array(topw) = w {
            assert(top@.len() == topw@.len());
            lemma_same_list(top@, topw@, 0);
            assert(json_same(top@[0], topw@[0]));
            assert(topw@[0] == JsonValue::Int(1));
            assert(json_same(top@[3], topw@[3]));
            lemma_export_read(a, 0, None, top@[3], topw@[3]);
            let root = topw@[3];
            let es = json_entries(root);
            let po = a.walk_order(0);
            if let Ok(b) = r {
                let b2 = choose|b2: TreeArena|
                    crate::export::json_read::json_root_read(root, b2) && b2.len() == b.len() && forall|i: int|
                        0 <= i < b.len() ==> (#[trigger] b.nodes@[i]).same_but_stats(b2.nodes@[i]);
                assert forall|k: int| 0 <= k < b.len() implies json_node(
                    #[trigger] b.nodes@[k],
                    a.nodes@[po[k]].spec_is_dir(),
                    entry_of_node(a.nodes@[po[k]]),
                ) by {
                    assert(es[k].0 == a.nodes@[po[k]].spec_is_dir());
                    assert(entry_fields(es[k].1) == Some(entry_of_node(a.nodes@[po[k]])));
                    assert(json_node(b2.nodes@[0 + k], es[k].0, entry_of_node(a.nodes@[po[k]])));
                    assert(b.nodes@[k].same_but_stats(b2.nodes@[k]));
                }
                assert(json_shape(b2, 0, root));
                lemma_export_links(a, 0, None, top@[3], root, b2, 0);
                assert forall|i: int| 0 <= i < po.len() implies #[trigger] linked_at(b, 0, a, po, i) by {
                    assert(linked_at(b2, 0, a, po, i));
                    assert(b.nodes@[0 + i].same_but_stats(b2.nodes@[0 + i]));
                    assert(b.nkids(0 + i) == b2.nkids(0 + i));
                    if a.nodes@[po[i]].spec_is_dir() {
                        assert forall|j: int| 0 <= j < a.nkids(po[i]) implies 0 <= #[trigger] b.kid(0 + i, j)
                            < 0 + po.len() && po[b.kid(0 + i, j) - 0] == a.kid(po[i], j) by {
                            assert(b.kid(0 + i, j) == b2.kid(0 + i, j));
                        }
                    }
                }
            }
        }
    }
}

} // verus!
