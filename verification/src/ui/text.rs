use vstd::prelude::*;

verus! {

/// Calls `str::chars` and collects them: the characters of `s`.
#[verifier::external_body]
pub(crate) fn text_chars(s: &str) -> (r: Vec<char>)
    ensures
        r@ == s@,
{
    s.chars().collect()
}

/// What `char::to_lowercase` yields for `c` (one or more characters).
pub uninterp spec fn char_lowercase(c: char) -> Seq<char>;

/// An ASCII character lowered: `A` to `Z` become `a` to `z`, the others
/// stay as they are.
pub open spec fn ascii_lower(c: char) -> char {
    if 65 <= (c as u32) <= 90 {
        ((c as u32) + 32) as char
    } else {
        c
    }
}

/// Calls `char::to_lowercase` and collects what it yields. Claims that the
/// result is `char_lowercase(c)`, a function of `c` alone, and that an
/// ASCII character yields its ASCII lowercase form alone (the Unicode
/// lowercase mapping of `A` to `Z` is `a` to `z`, and every other ASCII
/// character maps to itself).
#[verifier::external_body]
pub(crate) fn lower_char(c: char) -> (r: Vec<char>)
    ensures
        r@ == char_lowercase(c),
        (c as u32) < 128 ==> r@ == seq![ascii_lower(c)],
{
    c.to_lowercase().collect()
}

/// What `str::to_lowercase` returns for `s`.
pub uninterp spec fn str_lowercase(s: Seq<char>) -> Seq<char>;

/// Calls `str::to_lowercase`. Claims that the result is `str_lowercase(s)`,
/// a function of `s` alone, and that a string of ASCII characters has each
/// lowered as `ascii_lower` does.
#[verifier::external_body]
pub(crate) fn lowercase(s: &str) -> (r: String)
    ensures
        r@ == str_lowercase(s@),
        (forall|i: int| 0 <= i < s@.len() ==> (#[trigger] s@[i] as u32) < 128) ==> r@ == s@.map_values(
            |c: char| ascii_lower(c),
        ),
{
    s.to_lowercase()
}

/// `s` without its leading white space.
pub open spec fn trim_start(s: Seq<char>) -> Seq<char>
    decreases s.len(),
{
    if s.len() > 0 && white_space(s[0]) {
        trim_start(s.drop_first())
    } else {
        s
    }
}

/// `s` without its trailing white space.
pub open spec fn trim_end(s: Seq<char>) -> Seq<char>
    decreases s.len(),
{
    if s.len() > 0 && white_space(s.last()) {
        trim_end(s.drop_last())
    } else {
        s
    }
}

/// `s` without its leading and trailing white space.
pub open spec fn str_trimmed(s: Seq<char>) -> Seq<char> {
    trim_end(trim_start(s))
}

/// Calls `str::trim`, documented to return the string with its leading and
/// trailing white space (the characters with the Unicode `White_Space`
/// property) removed: claims that the result is `str_trimmed(s)`.
#[verifier::external_body]
pub(crate) fn trim_text(s: &str) -> (r: String)
    ensures
        r@ == str_trimmed(s@),
{
    s.trim().to_string()
}

/// The characters of `s`, each replaced by its lowercase form.
pub open spec fn lower_chars(s: Seq<char>) -> Seq<char>
    decreases s.len(),
{
    if s.len() == 0 {
        Seq::empty()
    } else {
        lower_chars(s.drop_last()) + char_lowercase(s.last())
    }
}

/// The characters of `s`, each replaced by its lowercase form.
pub fn lower_each(s: &Vec<char>) -> (r: Vec<char>)
    ensures
        r@ == lower_chars(s@),
{
    let mut out: Vec<char> = Vec::new();
    let mut i: usize = 0;
    while i < s.len()
        invariant
            i <= s@.len(),
            out@ == lower_chars(s@.subrange(0, i as int)),
        decreases s@.len() - i,
    {
        let l = lower_char(s[i]);
        let mut k: usize = 0;
        let ghost base = out@;
        while k < l.len()
            invariant
                k <= l@.len(),
                out@ == base + l@.subrange(0, k as int),
            decreases l@.len() - k,
        {
            out.push(l[k]);
            k = k + 1;
            assert(out@ =~= base + l@.subrange(0, k as int));
        }
        proof {
            assert(s@.subrange(0, i + 1).drop_last() =~= s@.subrange(0, i as int));
            assert(l@.subrange(0, l@.len() as int) =~= l@);
        }
        i = i + 1;
    }
    assert(s@.subrange(0, s@.len() as int) =~= s@);
    out
}

/// `q` can be found in `t` in order, not necessarily side by side.
pub open spec fn is_subsequence(q: Seq<char>, t: Seq<char>) -> bool
    decreases t.len(),
{
    if q.len() == 0 {
        true
    } else if t.len() == 0 {
        false
    } else if q[0] == t[0] {
        is_subsequence(q.drop_first(), t.drop_first())
    } else {
        is_subsequence(q, t.drop_first())
    }
}

/// Whether `q[from..]` is a subsequence of `t[start..]`, scanning greedily.
pub fn subsequence_from(q: &Vec<char>, from: usize, t: &Vec<char>, start: usize) -> (r: usize)
    requires
        from <= q@.len(),
        start <= t@.len(),
    ensures
        from <= r <= q@.len(),
        r == q@.len() <==> is_subsequence(q@.subrange(from as int, q@.len() as int), t@.subrange(start as int, t@.len() as int)),
{
    let mut i = from;
    let mut j = start;
    while i < q.len() && j < t.len()
        invariant
            from <= i <= q@.len(),
            start <= j <= t@.len(),
            is_subsequence(q@.subrange(from as int, q@.len() as int), t@.subrange(start as int, t@.len() as int))
                == is_subsequence(q@.subrange(i as int, q@.len() as int), t@.subrange(j as int, t@.len() as int)),
        decreases t@.len() - j,
    {
        let ghost qs = q@.subrange(i as int, q@.len() as int);
        let ghost ts = t@.subrange(j as int, t@.len() as int);
        proof {
            assert(qs.drop_first() =~= q@.subrange(i + 1, q@.len() as int));
            assert(ts.drop_first() =~= t@.subrange(j + 1, t@.len() as int));
            assert(qs[0] == q@[i as int]);
            assert(ts[0] == t@[j as int]);
        }
        if q[i] == t[j] {
            i = i + 1;
        }
        j = j + 1;
    }
    proof {
        if i < q@.len() {
            assert(t@.subrange(j as int, t@.len() as int).len() == 0);
            assert(q@.subrange(i as int, q@.len() as int).len() > 0);
        } else {
            assert(q@.subrange(i as int, q@.len() as int).len() == 0);
        }
    }
    i
}

/// `n` occurs in `h` as a run of adjacent characters.
pub open spec fn has_infix(h: Seq<char>, n: Seq<char>) -> bool {
    exists|i: int| 0 <= i && i + n.len() <= h.len() && #[trigger] h.subrange(i, i + n.len()) == n
}

/// Whether `n` occurs in `h` as a run of adjacent characters.
pub fn contains_chars(h: &Vec<char>, n: &Vec<char>) -> (r: bool)
    ensures
        r == has_infix(h@, n@),
{
    if n.len() > h.len() {
        return false;
    }
    let mut i: usize = 0;
    while i <= h.len() - n.len()
        invariant
            n@.len() <= h@.len(),
            i <= h@.len() - n@.len() + 1,
            forall|k: int| 0 <= k < i ==> #[trigger] h@.subrange(k, k + n@.len()) != n@,
        decreases h@.len() - n@.len() + 1 - i,
    {
        let mut j: usize = 0;
        let mut same = true;
        while j < n.len()
            invariant
                i + n.len() <= h.len(),
                j <= n@.len(),
                same == forall|m: int| 0 <= m < j ==> h@[i + m] == n@[m],
            decreases n@.len() - j,
        {
            if h[i + j] != n[j] {
                same = false;
            }
            j = j + 1;
        }
        if same {
            assert(h@.subrange(i as int, i + n@.len()) =~= n@);
            return true;
        }
        proof {
            let ghost m = choose|m: int| 0 <= m < n@.len() && h@[i + m] != n@[m];
            assert(h@.subrange(i as int, i + n@.len())[m] != n@[m]);
        }
        i = i + 1;
    }
    proof {
        assert forall|k: int| 0 <= k && k + n@.len() <= h@.len() implies #[trigger] h@.subrange(
            k,
            k + n@.len(),
        ) != n@ by {}
    }
    false
}


/// Whether `c` has the Unicode `White_Space` property.
pub open spec fn white_space(c: char) -> bool {
    let u = c as u32;
    (0x9 <= u <= 0xD) || u == 0x20 || u == 0x85 || u == 0xA0 || u == 0x1680 || (0x2000 <= u
        <= 0x200A) || u == 0x2028 || u == 0x2029 || u == 0x202F || u == 0x205F || u == 0x3000
}

/// Whether `c` has the Unicode `White_Space` property.
pub(crate) fn is_space(c: char) -> (r: bool)
    ensures
        r == white_space(c),
{
    let u = c as u32;
    (0x9 <= u && u <= 0xD) || u == 0x20 || u == 0x85 || u == 0xA0 || u == 0x1680 || (0x2000 <= u && u
        <= 0x200A) || u == 0x2028 || u == 0x2029 || u == 0x202F || u == 0x205F || u == 0x3000
}

/// The words of `s`: its longest runs of characters that are not white
/// space, in order.
pub open spec fn words_of(s: Seq<char>) -> Seq<Seq<char>> {
    words_from(s, 0, Seq::empty())
}

/// The words of `s` from index `i` on, `cur` being the part of a word
/// already met before `i`.
pub open spec fn words_from(s: Seq<char>, i: int, cur: Seq<char>) -> Seq<Seq<char>>
    decreases s.len() - i,
{
    if i >= s.len() {
        if cur.len() > 0 {
            seq![cur]
        } else {
            Seq::empty()
        }
    } else if white_space(s[i]) {
        if cur.len() > 0 {
            seq![cur] + words_from(s, i + 1, Seq::empty())
        } else {
            words_from(s, i + 1, Seq::empty())
        }
    } else {
        words_from(s, i + 1, cur.push(s[i]))
    }
}

/// The words of `s`, as `str::split_whitespace` yields them.
pub fn split_words(s: &str) -> (r: Vec<String>)
    ensures
        r@.map_values(|w: String| w@) == words_of(s@),
{
    let cs = text_chars(s);
    let mut words: Vec<String> = Vec::new();
    let mut cur = String::new();
    let mut i: usize = 0;
    while i < cs.len()
        invariant
            i <= cs@.len(),
            cs@ == s@,
            words@.map_values(|w: String| w@) + words_from(s@, i as int, cur@) == words_of(s@),
        decreases cs@.len() - i,
    {
        let ghost before = words@.map_values(|w: String| w@);
        let ghost old_cur = cur@;
        if is_space(cs[i]) {
            if cur.unicode_len() > 0 {
                let done = cur;
                cur = String::new();
                words.push(done);
                proof {
                    assert(words@.map_values(|w: String| w@) =~= before.push(done@));
                    assert(before + words_from(s@, i as int, done@) =~= before.push(done@) + words_from(s@, i + 1, Seq::empty()));
                }
            } else {
                assert(old_cur =~= Seq::<char>::empty());
                assert(words_from(s@, i as int, old_cur) == words_from(s@, i + 1, Seq::empty()));
            }
        } else {
            crate::ui::state::append_char(&mut cur, cs[i]);
            assert(words_from(s@, i as int, old_cur) == words_from(s@, i + 1, old_cur.push(s@[i as int])));
        }
        i = i + 1;
    }
    if cur.unicode_len() > 0 {
        let ghost before = words@.map_values(|w: String| w@);
        words.push(cur);
        proof {
            assert(words@.map_values(|w: String| w@) =~= before + words_from(s@, cs@.len() as int, cur@));
        }
    } else {
        proof {
            assert(words@.map_values(|w: String| w@) =~= words@.map_values(|w: String| w@) + words_from(s@, cs@.len() as int, cur@));
        }
    }
    words
}

} // verus!
