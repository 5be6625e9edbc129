use vstd::prelude::*;

use crate::ui::state::has_prefix;
use crate::ui::text::trim_text;

verus! {

#[verifier::external_type_specification]
#[verifier::external_body]
pub struct ExGlob(globset::Glob);

#[verifier::external_type_specification]
#[verifier::external_body]
pub struct ExGlobSet(globset::GlobSet);

#[verifier::external_type_specification]
#[verifier::external_body]
pub struct ExGlobSetBuilder(globset::GlobSetBuilder);

/// Whether globset accepts `p` as a glob pattern.
pub uninterp spec fn glob_valid(p: Seq<char>) -> bool;

/// The pattern a compiled glob was made from.
pub uninterp spec fn glob_text(g: globset::Glob) -> Seq<char>;

/// The patterns added to a glob set builder, in order.
pub uninterp spec fn builder_globs(b: globset::GlobSetBuilder) -> Seq<Seq<char>>;

/// The patterns a glob set matches with, in order.
pub uninterp spec fn set_globs(s: globset::GlobSet) -> Seq<Seq<char>>;

/// Whether the glob `pattern` matches `path`, as globset matches paths.
pub uninterp spec fn glob_matches(pattern: Seq<char>, path: Seq<char>) -> bool;

/// Calls `globset::Glob::new`. Claims that it succeeds exactly on the
/// patterns named valid, and keeps the pattern it was made from.
#[verifier::external_body]
fn glob_new(p: &str) -> (r: Option<globset::Glob>)
    ensures
        r is Some <==> glob_valid(p@),
        r matches Some(g) ==> glob_text(g) == p@,
{
    globset::Glob::new(p).ok()
}

/// Calls `globset::GlobSetBuilder::new`: a builder with no pattern.
#[verifier::external_body]
fn builder_new() -> (r: globset::GlobSetBuilder)
    ensures
        builder_globs(r) == Seq::<Seq<char>>::empty(),
{
    globset::GlobSetBuilder::new()
}

/// Calls `globset::GlobSetBuilder::add`: the glob's pattern is added last.
#[verifier::external_body]
fn builder_add(b: &mut globset::GlobSetBuilder, g: globset::Glob)
    ensures
        builder_globs(*final(b)) == builder_globs(*old(b)).push(glob_text(g)),
{
    b.add(g);
}

/// Whether globset compiles a set from the patterns `pats` (in order)
/// without an error.
pub uninterp spec fn globs_build(pats: Seq<Seq<char>>) -> bool;

/// Calls `globset::GlobSetBuilder::build`. Claims that it succeeds exactly
/// when `globs_build` holds of the builder's patterns (whether the matchers
/// compile depends on the patterns alone), and that a set it builds holds
/// those patterns.
#[verifier::external_body]
fn builder_build(b: &globset::GlobSetBuilder) -> (r: Option<globset::GlobSet>)
    ensures
        r is Some <==> globs_build(builder_globs(*b)),
        r matches Some(s) ==> set_globs(s) == builder_globs(*b),
{
    b.build().ok()
}

/// Calls `globset::GlobSet::empty`: a set with no pattern.
#[verifier::external_body]
fn set_empty() -> (r: globset::GlobSet)
    ensures
        set_globs(r) == Seq::<Seq<char>>::empty(),
{
    globset::GlobSet::empty()
}

/// Calls `globset::GlobSet::is_empty`: whether the set holds no pattern.
#[verifier::external_body]
fn set_is_empty(s: &globset::GlobSet) -> (r: bool)
    ensures
        r == (set_globs(*s).len() == 0),
{
    s.is_empty()
}

/// Whether some pattern of `pats` matches `path`.
pub open spec fn any_glob_matches(pats: Seq<Seq<char>>, path: Seq<char>) -> bool {
    exists|p: Seq<char>| pats.contains(p) && glob_matches(p, path)
}

/// Calls `globset::GlobSet::is_match` on the path: whether some pattern of
/// the set matches it.
#[verifier::external_body]
fn set_is_match(s: &globset::GlobSet, path: &str) -> (r: bool)
    ensures
        r == (exists|p: Seq<char>| set_globs(*s).contains(p) && glob_matches(p, path@)),
{
    s.is_match(path)
}

/// The last component of a path, as `std::path::Path::file_name` finds it.
pub uninterp spec fn path_file_name(path: Seq<char>) -> Option<Seq<char>>;

/// Calls `Path::file_name` on the path (as text). Claims that the result is
/// `path_file_name(path)`, a function of the path alone.
#[verifier::external_body]
fn file_name_of(path: &str) -> (r: Option<String>)
    ensures
        match r {
            Some(f) => path_file_name(path@) == Some(f@),
            None => path_file_name(path@) is None,
        },
{
    std::path::Path::new(path).file_name().map(|f| f.to_string_lossy().into_owned())
}

/// The patterns of the valid ones among `pats`, in order.
pub open spec fn valid_globs(pats: Seq<Seq<char>>) -> Seq<Seq<char>>
    decreases pats.len(),
{
    if pats.len() == 0 {
        Seq::empty()
    } else if glob_valid(pats.last()) {
        valid_globs(pats.drop_last()).push(pats.last())
    } else {
        valid_globs(pats.drop_last())
    }
}

/// The patterns an exclusion file gives: each line trimmed, blank lines and
/// comments (`#`) left out.
pub open spec fn file_patterns(lines: Seq<Seq<char>>) -> Seq<Seq<char>>
    decreases lines.len(),
{
    if lines.len() == 0 {
        Seq::empty()
    } else {
        let t = crate::ui::text::str_trimmed(lines.last());
        let rest = file_patterns(lines.drop_last());
        if t.len() == 0 || t[0] == '#' {
            rest
        } else {
            rest.push(t)
        }
    }
}

/// The patterns of the exclusion file's lines, when one was read.
pub open spec fn lines_patterns(o: Option<Vec<String>>) -> Seq<Seq<char>> {
    match o {
        Some(l) => file_patterns(texts_of(l@)),
        None => Seq::empty(),
    }
}

pub open spec fn texts_of(v: Seq<String>) -> Seq<Seq<char>> {
    v.map_values(|s: String| s@)
}

/// Decides which paths a scan leaves out: those matching an exclusion
/// pattern, and, when asked, those on kernel pseudo filesystems and cache
/// directories.
pub struct Filter {
    exclude_patterns: globset::GlobSet,
    exclude_caches: bool,
    exclude_kernfs: bool,
}

/// The prefixes of paths on kernel pseudo filesystems.
pub open spec fn kernfs_prefixes() -> Seq<Seq<char>> {
    seq!["/proc/"@, "/sys/"@, "/dev/"@, "/run/"@, "/sys/fs/"@]
}

/// The 43 bytes a cache directory tag file starts with.
pub open spec fn cachedir_signature() -> Seq<u8> {
    "Signature: 8a477f597d28d172789f06886806bc55"@.map_values(|c: char| c as u8)
}

/// Whether `p` is a prefix of `path`.
pub open spec fn starts_with(path: Seq<char>, p: Seq<char>) -> bool {
    p.len() <= path.len() && path.subrange(0, p.len() as int) == p
}

/// Whether `path` starts with one of the kernel filesystem prefixes.
pub open spec fn on_kernfs(path: Seq<char>) -> bool {
    exists|i: int| 0 <= i < 5 && #[trigger] starts_with(path, kernfs_prefixes()[i])
}

/// Whether a filter with the patterns `pats` leaves `path` out: some
/// pattern matches its file name or the whole path; or kernel filesystems
/// are excluded and it lies on one.
pub open spec fn excluded_by(pats: Seq<Seq<char>>, kernfs: bool, path: Seq<char>) -> bool {
    (pats.len() > 0 && ((path_file_name(path) matches Some(f) && any_glob_matches(pats, f))
        || any_glob_matches(pats, path))) || (kernfs && on_kernfs(path))
}

/// Whether the first bytes of a tag file are the cache directory signature.
pub open spec fn tag_ok(head: Option<Vec<u8>>) -> bool {
    head matches Some(h) && h@ == cachedir_signature()
}

impl Filter {
    /// The patterns the filter excludes by.
    pub closed spec fn patterns(&self) -> Seq<Seq<char>> {
        set_globs(self.exclude_patterns)
    }

    pub closed spec fn caches(&self) -> bool {
        self.exclude_caches
    }

    pub closed spec fn kernfs(&self) -> bool {
        self.exclude_kernfs
    }

    /// A filter with the valid ones of the patterns `exclude_strs`, then of
    /// the lines of the exclusion file (when one was read). Should globset
    /// fail to build a set of them, the filter has no pattern.
    pub fn new(
        exclude_strs: &Vec<String>,
        exclude_from_lines: Option<Vec<String>>,
        exclude_caches: bool,
        exclude_kernfs: bool,
    ) -> (r: Filter)
        ensures
            r.caches() == exclude_caches,
            r.kernfs() == exclude_kernfs,
            globs_build(valid_globs(texts_of(exclude_strs@) + lines_patterns(exclude_from_lines)))
                ==> r.patterns() == valid_globs(texts_of(exclude_strs@) + lines_patterns(exclude_from_lines)),
            !globs_build(valid_globs(texts_of(exclude_strs@) + lines_patterns(exclude_from_lines)))
                ==> r.patterns().len() == 0,
    {
        let mut builder = builder_new();
        let mut all: Vec<String> = Vec::new();
        let mut i: usize = 0;
        while i < exclude_strs.len()
            invariant
                i <= exclude_strs@.len(),
                texts_of(all@) == texts_of(exclude_strs@.subrange(0, i as int)),
            decreases exclude_strs@.len() - i,
        {
            all.push(exclude_strs[i].clone());
            proof {
                assert(texts_of(exclude_strs@.subrange(0, i + 1)) =~= texts_of(exclude_strs@.subrange(0, i as int)).push(exclude_strs@[i as int]@));
                assert(texts_of(all@) =~= texts_of(exclude_strs@.subrange(0, i as int)).push(exclude_strs@[i as int]@));
            }
            i = i + 1;
        }
        assert(exclude_strs@.subrange(0, exclude_strs@.len() as int) =~= exclude_strs@);
        match exclude_from_lines {
            Some(lines) => {
                let mut j: usize = 0;
                let ghost base = texts_of(all@);
                while j < lines.len()
                    invariant
                        j <= lines@.len(),
                        texts_of(all@) == base + file_patterns(texts_of(lines@.subrange(0, j as int))),
                    decreases lines@.len() - j,
                {
                    let t = trim_text(lines[j].as_str());
                    let tc = crate::ui::text::text_chars(t.as_str());
                    proof {
                        assert(texts_of(lines@.subrange(0, j + 1)).drop_last() =~= texts_of(lines@.subrange(0, j as int)));
                        assert(texts_of(lines@.subrange(0, j + 1)).last() == lines@[j as int]@);
                    }
                    if tc.len() > 0 && tc[0] != '#' {
                        let ghost before = all@;
                        all.push(t);
                        proof {
                            assert(texts_of(all@) =~= texts_of(before).push(tc@));
                        }
                    }
                    j = j + 1;
                }
                assert(lines@.subrange(0, lines@.len() as int) =~= lines@);
            },
            None => {},
        }
        let ghost pats = texts_of(all@);
        let mut k: usize = 0;
        while k < all.len()
            invariant
                k <= all@.len(),
                pats == texts_of(all@),
                builder_globs(builder) == valid_globs(pats.subrange(0, k as int)),
            decreases all@.len() - k,
        {
            proof {
                assert(pats.subrange(0, k + 1).drop_last() =~= pats.subrange(0, k as int));
                assert(pats.subrange(0, k + 1).last() == all@[k as int]@);
            }
            match glob_new(all[k].as_str()) {
                Some(g) => {
                    builder_add(&mut builder, g);
                },
                None => {},
            }
            k = k + 1;
        }
        assert(pats.subrange(0, all@.len() as int) =~= pats);
        let set = match builder_build(&builder) {
            Some(s) => s,
            None => set_empty(),
        };
        Filter { exclude_patterns: set, exclude_caches, exclude_kernfs }
    }

    /// Whether a scan leaves the path out: when its file name or the whole
    /// path matches a pattern, or, with kernel filesystems excluded, when it
    /// lies on one.
    #[verifier::loop_isolation(false)]
    pub fn should_exclude_path(&self, path: &str) -> (r: bool)
        ensures
            r == excluded_by(self.patterns(), self.kernfs(), path@),
    {
        let empty = set_is_empty(&self.exclude_patterns);
        if empty && !self.exclude_kernfs {
            return false;
        }
        if !empty {
            match file_name_of(path) {
                Some(f) => {
                    if set_is_match(&self.exclude_patterns, f.as_str()) {
                        return true;
                    }
                },
                None => {},
            }
            if set_is_match(&self.exclude_patterns, path) {
                return true;
            }
        }
        if self.exclude_kernfs {
            let prefixes = ["/proc/", "/sys/", "/dev/", "/run/", "/sys/fs/"];
            let mut i: usize = 0;
            while i < 5
                invariant
                    i <= 5,
                    prefixes@.len() == 5,
                    forall|j: int| 0 <= j < 5 ==> #[trigger] prefixes@[j]@ == kernfs_prefixes()[j],
                    forall|j: int| 0 <= j < i ==> !#[trigger] starts_with(path@, kernfs_prefixes()[j]),
                decreases 5 - i,
            {
                if has_prefix(path, prefixes[i]) {
                    assert(prefixes@[i as int]@ == kernfs_prefixes()[i as int]);
                    assert(starts_with(path@, kernfs_prefixes()[i as int]));
                    return true;
                }
                i = i + 1;
            }
        }
        false
    }

    /// Whether the first bytes of a tag file (`None` when fewer than 43
    /// could be read) show a valid cache directory tag, cache directories
    /// being excluded.
    #[verifier::loop_isolation(false)]
    pub fn verify_cachedir_tag(&self, head: Option<Vec<u8>>) -> (r: bool)
        ensures
            r == (self.caches() && tag_ok(head)),
    {
        if !self.exclude_caches {
            return false;
        }
        match head {
            Some(h) => {
                let sig: [u8; 43] = [
                    0x53, 0x69, 0x67, 0x6e, 0x61, 0x74, 0x75, 0x72, 0x65, 0x3a, 0x20, 0x38, 0x61, 0x34, 0x37, 0x37,
                    0x66, 0x35, 0x39, 0x37, 0x64, 0x32, 0x38, 0x64, 0x31, 0x37, 0x32, 0x37, 0x38, 0x39, 0x66, 0x30,
                    0x36, 0x38, 0x38, 0x36, 0x38, 0x30, 0x36, 0x62, 0x63, 0x35, 0x35,
                ];
                proof {
                    reveal_strlit("Signature: 8a477f597d28d172789f06886806bc55");
                    assert(sig@ =~= cachedir_signature());
                }
                if h.len() != 43 {
                    return false;
                }
                let mut i: usize = 0;
                while i < 43
                    invariant
                        i <= 43,
                        h@.len() == 43,
                        sig@ == cachedir_signature(),
                        forall|j: int| 0 <= j < i ==> h@[j] == sig@[j],
                    decreases 43 - i,
                {
                    if h[i] != sig[i] {
                        assert(h@[i as int] != cachedir_signature()[i as int]);
                        return false;
                    }
                    i = i + 1;
                }
                assert(h@ =~= sig@);
                true
            },
            None => false,
        }
    }

    /// Whether a directory is a tagged cache directory to exclude, given
    /// whether its `CACHEDIR.TAG` exists and the first bytes of that file.
    pub fn has_cachedir_tag(&self, tag_exists: bool, head: Option<Vec<u8>>) -> (r: bool)
        ensures
            r == (self.caches() && tag_exists && tag_ok(head)),
    {
        if !self.exclude_caches {
            return false;
        }
        if !tag_exists {
            return false;
        }
        self.verify_cachedir_tag(head)
    }
}

} // verus!
