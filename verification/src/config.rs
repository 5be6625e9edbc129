//! Configuration files: each line holds options as shell words, added
//! before the options of the command line.

use vstd::prelude::*;

use crate::cli::{cli_parses, parsed_args, Args, CliError};
use crate::lexer::argv_texts;
use crate::ui::state::{append_char, append_text};
use crate::ui::text::{is_space, split_words, str_trimmed, text_chars, trim_text, white_space, words_of};

verus! {

/// Where a shell-word split stands after some characters: the words
/// finished, the word being read, and whether a double quote, a single
/// quote or a backslash escape is open.
pub type SplitState = (Seq<Seq<char>>, Seq<char>, bool, bool, bool);

/// The split state after reading `c` in the state `st`: an escaped
/// character is taken as it is; a backslash outside single quotes escapes
/// the next one; a double quote outside single quotes and a single quote
/// outside double quotes open or close their quoting; white space outside
/// quotes ends the word being read, if any; any other character is added
/// to the word.
pub open spec fn split_step(st: SplitState, c: char) -> SplitState {
    let (words, word, dq, sq, esc) = st;
    if esc {
        (words, word.push(c), dq, sq, false)
    } else if c == '\\' && !sq {
        (words, word, dq, sq, true)
    } else if c == '"' && !sq {
        (words, word, !dq, sq, esc)
    } else if c == '\'' && !dq {
        (words, word, dq, !sq, esc)
    } else if white_space(c) && !dq && !sq {
        if word.len() > 0 {
            (words.push(word), Seq::empty(), dq, sq, esc)
        } else {
            (words, word, dq, sq, esc)
        }
    } else {
        (words, word.push(c), dq, sq, esc)
    }
}

/// The split state after reading all of `s`.
pub open spec fn split_run(s: Seq<char>) -> SplitState
    decreases s.len(),
{
    if s.len() == 0 {
        (Seq::empty(), Seq::empty(), false, false, false)
    } else {
        split_step(split_run(s.drop_last()), s.last())
    }
}

/// The shell words of `s`; an error when a quote or an escape is left open.
pub open spec fn shell_split(s: Seq<char>) -> Result<Seq<Seq<char>>, ()> {
    let (words, word, dq, sq, esc) = split_run(s);
    if dq || sq || esc {
        Err(())
    } else if word.len() > 0 {
        Ok(words.push(word))
    } else {
        Ok(words)
    }
}

/// The texts of a vector of strings.
pub open spec fn texts(v: Seq<String>) -> Seq<Seq<char>> {
    v.map_values(|s: String| s@)
}

/// Splits `input` into shell words: white space separates words outside
/// quotes, quotes group, a backslash escapes the next character (not
/// inside single quotes). Fails when a quote or escape is left open.
pub fn split(input: &str) -> (r: Result<Vec<String>, ()>)
    ensures
        match r {
            Ok(v) => shell_split(input@) == Ok::<Seq<Seq<char>>, ()>(texts(v@)),
            Err(_) => shell_split(input@) is Err,
        },
{
    let cs = text_chars(input);
    let mut words: Vec<String> = Vec::new();
    let mut word = String::new();
    let mut in_double_quote = false;
    let mut in_single_quote = false;
    let mut escaped = false;
    let mut i: usize = 0;
    while i < cs.len()
        invariant
            i <= cs@.len(),
            cs@ == input@,
            split_run(cs@.subrange(0, i as int)) == (
                texts(words@),
                word@,
                in_double_quote,
                in_single_quote,
                escaped,
            ),
        decreases cs@.len() - i,
    {
        let c = cs[i];
        proof {
            assert(cs@.subrange(0, i + 1).drop_last() =~= cs@.subrange(0, i as int));
            assert(cs@.subrange(0, i + 1).last() == c);
        }
        if escaped {
            append_char(&mut word, c);
            escaped = false;
        } else if c == '\\' && !in_single_quote {
            escaped = true;
        } else if c == '"' && !in_single_quote {
            in_double_quote = !in_double_quote;
        } else if c == '\'' && !in_double_quote {
            in_single_quote = !in_single_quote;
        } else if is_space(c) && !in_double_quote && !in_single_quote {
            if word.unicode_len() > 0 {
                let done = word;
                word = String::new();
                let ghost before = words@;
                words.push(done);
                proof {
                    assert(texts(words@) =~= texts(before).push(done@));
                    assert(word@ =~= Seq::<char>::empty());
                }
            }
        } else {
            append_char(&mut word, c);
        }
        i = i + 1;
    }
    assert(cs@.subrange(0, cs@.len() as int) =~= cs@);
    if word.unicode_len() > 0 {
        let ghost before = words@;
        words.push(word);
        proof {
            assert(texts(words@) =~= texts(before).push(word@));
        }
    }
    if in_double_quote || in_single_quote || escaped {
        Err(())
    } else {
        Ok(words)
    }
}

/// The words a configuration line gives: none for a blank line or a
/// comment (`#`); else the shell words of the trimmed line, a leading `@`
/// left out, or its whitespace-separated words when the shell split fails.
pub open spec fn line_words(line: Seq<char>) -> Seq<Seq<char>> {
    let t = str_trimmed(line);
    if t.len() == 0 || t[0] == '#' {
        Seq::empty()
    } else {
        let clean = if t[0] == '@' { t.drop_first() } else { t };
        match shell_split(clean) {
            Ok(w) => w,
            Err(_) => words_of(clean),
        }
    }
}

/// `p` with a leading `~` (alone, or before `/`) replaced by the home
/// directory, when it is known.
pub open spec fn expand_tilde(p: Seq<char>, home: Option<Seq<char>>) -> Seq<char> {
    if (p.len() >= 2 && p[0] == '~' && p[1] == '/') || p == seq!['~'] {
        match home {
            Some(h) => h + p.drop_first(),
            None => p,
        }
    } else {
        p
    }
}

/// The non-empty words of `ws`, each with its tilde expanded.
pub open spec fn expanded(ws: Seq<Seq<char>>, home: Option<Seq<char>>) -> Seq<Seq<char>>
    decreases ws.len(),
{
    if ws.len() == 0 {
        Seq::empty()
    } else if ws.last().len() > 0 {
        expanded(ws.drop_last(), home).push(expand_tilde(ws.last(), home))
    } else {
        expanded(ws.drop_last(), home)
    }
}

/// The arguments the configuration lines `lines` give, in order.
pub open spec fn config_words(lines: Seq<Seq<char>>, home: Option<Seq<char>>) -> Seq<Seq<char>>
    decreases lines.len(),
{
    if lines.len() == 0 {
        Seq::empty()
    } else {
        config_words(lines.drop_last(), home) + expanded(line_words(lines.last()), home)
    }
}

/// The text of an optional string.
pub open spec fn opt_text(o: Option<String>) -> Option<Seq<char>> {
    match o {
        Some(s) => Some(s@),
        None => None,
    }
}

/// `p` with its tilde expanded.
fn expand_word(p: String, home: &Option<String>) -> (r: String)
    ensures
        r@ == expand_tilde(p@, opt_text(*home)),
{
    let cs = text_chars(p.as_str());
    let tilde = (cs.len() >= 2 && cs[0] == '~' && cs[1] == '/') || (cs.len() == 1 && cs[0] == '~');
    proof {
        if cs@.len() == 1 && cs@[0] == '~' {
            assert(cs@ =~= seq!['~']);
        }
    }
    if !tilde {
        return p;
    }
    match home {
        Some(h) => {
            let mut out = h.clone();
            let mut i: usize = 1;
            while i < cs.len()
                invariant
                    1 <= i <= cs@.len(),
                    cs@ == p@,
                    out@ == h@ + p@.subrange(1, i as int),
                decreases cs@.len() - i,
            {
                append_char(&mut out, cs[i]);
                assert(out@ =~= h@ + p@.subrange(1, i + 1));
                i = i + 1;
            }
            assert(p@.subrange(1, p@.len() as int) =~= p@.drop_first());
            out
        },
        None => p,
    }
}

/// Adds to `out` the non-empty words of `ws`, each with its tilde expanded.
fn push_expanded(out: &mut Vec<String>, ws: Vec<String>, home: &Option<String>)
    ensures
        texts(final(out)@) == texts(old(out)@) + expanded(texts(ws@), opt_text(*home)),
{
    let mut i: usize = 0;
    let ghost base = texts(out@);
    while i < ws.len()
        invariant
            i <= ws@.len(),
            texts(out@) == base + expanded(texts(ws@.subrange(0, i as int)), opt_text(*home)),
        decreases ws@.len() - i,
    {
        proof {
            assert(texts(ws@.subrange(0, i + 1)).drop_last() =~= texts(ws@.subrange(0, i as int)));
            assert(texts(ws@.subrange(0, i + 1)).last() == ws@[i as int]@);
        }
        let w = ws[i].clone();
        if w.unicode_len() > 0 {
            let e = expand_word(w, home);
            let ghost before = texts(out@);
            out.push(e);
            proof {
                assert(texts(out@) =~= before.push(e@));
            }
        }
        i = i + 1;
    }
    assert(ws@.subrange(0, ws@.len() as int) =~= ws@);
}

/// The arguments one configuration line gives, tildes expanded.
pub fn config_line_args(line: &str, home: &Option<String>) -> (r: Vec<String>)
    ensures
        texts(r@) == expanded(line_words(line@), opt_text(*home)),
{
    let t = trim_text(line);
    let tc = text_chars(t.as_str());
    let mut out: Vec<String> = Vec::new();
    if tc.len() == 0 || tc[0] == '#' {
        assert(texts(out@) =~= Seq::<Seq<char>>::empty());
        return out;
    }
    let mut clean = String::new();
    let start: usize = if tc[0] == '@' { 1 } else { 0 };
    let mut i: usize = start;
    while i < tc.len()
        invariant
            start <= i <= tc@.len(),
            clean@ == tc@.subrange(start as int, i as int),
        decreases tc@.len() - i,
    {
        append_char(&mut clean, tc[i]);
        assert(clean@ =~= tc@.subrange(start as int, i + 1));
        i = i + 1;
    }
    proof {
        if start == 1 {
            assert(clean@ =~= tc@.drop_first());
        } else {
            assert(clean@ =~= tc@);
        }
    }
    let parts = match split(clean.as_str()) {
        Ok(v) => v,
        Err(_) => split_words(clean.as_str()),
    };
    assert(texts(out@) =~= Seq::<Seq<char>>::empty());
    push_expanded(&mut out, parts, home);
    assert(texts(out@) =~= expanded(texts(parts@), opt_text(*home)));
    out
}

/// The command line a run parses once configuration lines are read: the
/// program name, the arguments of the configuration lines `config_lines`
/// in order, then the arguments `cli_args` given after the program name.
pub fn config_command_line(
    program: &str,
    config_lines: &Vec<String>,
    home: &Option<String>,
    cli_args: &Vec<String>,
) -> (r: Vec<String>)
    ensures
        texts(r@) == seq![program@] + config_words(texts(config_lines@), opt_text(*home)) + texts(
            cli_args@,
        ),
{
    let mut out: Vec<String> = Vec::new();
    out.push(program.to_string());
    let mut i: usize = 0;
    while i < config_lines.len()
        invariant
            i <= config_lines@.len(),
            texts(out@) == seq![program@] + config_words(
                texts(config_lines@.subrange(0, i as int)),
                opt_text(*home),
            ),
        decreases config_lines@.len() - i,
    {
        proof {
            assert(texts(config_lines@.subrange(0, i + 1)).drop_last() =~= texts(
                config_lines@.subrange(0, i as int),
            ));
            assert(texts(config_lines@.subrange(0, i + 1)).last() == config_lines@[i as int]@);
        }
        let ws = config_line_args(config_lines[i].as_str(), home);
        let mut j: usize = 0;
        let ghost base = texts(out@);
        while j < ws.len()
            invariant
                j <= ws@.len(),
                texts(out@) == base + texts(ws@).subrange(0, j as int),
            decreases ws@.len() - j,
        {
            let ghost before = texts(out@);
            out.push(ws[j].clone());
            assert(texts(out@) =~= before.push(ws@[j as int]@));
            assert(texts(ws@).subrange(0, j + 1) =~= texts(ws@).subrange(0, j as int).push(ws@[j as int]@));
            j = j + 1;
        }
        assert(texts(ws@).subrange(0, ws@.len() as int) =~= texts(ws@));
        i = i + 1;
    }
    assert(config_lines@.subrange(0, config_lines@.len() as int) =~= config_lines@);
    let mut k: usize = 0;
    let ghost base = texts(out@);
    while k < cli_args.len()
        invariant
            k <= cli_args@.len(),
            texts(out@) == base + texts(cli_args@).subrange(0, k as int),
        decreases cli_args@.len() - k,
    {
        let ghost before = texts(out@);
        out.push(cli_args[k].clone());
        assert(texts(out@) =~= before.push(cli_args@[k as int]@));
        assert(texts(cli_args@).subrange(0, k + 1) =~= texts(cli_args@).subrange(0, k as int).push(cli_args@[k as int]@));
        k = k + 1;
    }
    assert(texts(cli_args@).subrange(0, cli_args@.len() as int) =~= texts(cli_args@));
    out
}

/// Applies the configuration lines `config_lines` (those of the system
/// file, then those of the user's): when they give any argument, the
/// command line is parsed again with their arguments before `cli_args`;
/// `args` becomes the result, or stays as it was and the error is returned.
pub fn load_config(
    args: &mut Args,
    program: &str,
    config_lines: &Vec<String>,
    home: &Option<String>,
    cli_args: &Vec<String>,
) -> (r: Option<CliError>)
    ensures
        config_words(texts(config_lines@), opt_text(*home)).len() == 0 ==> r is None && *final(args)
            == *old(args),
        r is Some ==> *final(args) == *old(args),
        r is None && config_words(texts(config_lines@), opt_text(*home)).len() > 0 ==> parsed_args(
            *final(args),
        ),
        config_words(texts(config_lines@), opt_text(*home)).len() > 0 ==> exists|res: Result<Args, CliError>|
            cli_parses(
                seq![program@] + config_words(texts(config_lines@), opt_text(*home)) + texts(cli_args@),
                res,
            ) && match res {
                Ok(a) => r is None && *final(args) == a,
                Err(e) => r == Some(e) && *final(args) == *old(args),
            },
{
    let line = config_command_line(program, config_lines, home, cli_args);
    let ghost w = config_words(texts(config_lines@), opt_text(*home));
    proof {
        assert(texts(line@).len() == line@.len());
        assert(texts(cli_args@).len() == cli_args@.len());
        assert(line@.len() == 1 + w.len() + cli_args@.len());
    }
    let n_config = line.len() - cli_args.len();
    if n_config <= 1 {
        return None;
    }
    let mut argv: Vec<&str> = Vec::new();
    let mut i: usize = 0;
    while i < line.len()
        invariant
            i <= line@.len(),
            argv@.len() == i,
            forall|k: int| 0 <= k < i ==> (#[trigger] argv@[k])@ == line@[k]@,
        decreases line@.len() - i,
    {
        argv.push(line[i].as_str());
        i = i + 1;
    }
    proof {
        assert(argv_texts(argv@) =~= texts(line@));
    }
    let res = Args::try_parse_from(argv.as_slice());
    let ghost gres = res;
    match res {
        Ok(parsed) => {
            *args = parsed;
            None
        },
        Err(e) => Some(e),
    }
}

} // verus!

verus! {

/// Inside single quotes every character but the closing quote is taken as
/// it is: reading `t` (no single quote in it) with a single quote open adds
/// `t` to the word being read.
proof fn lemma_single_quoted_run(p: Seq<char>, t: Seq<char>, words: Seq<Seq<char>>, word: Seq<char>)
    requires
        split_run(p) == (words, word, false, true, false),
        forall|i: int| 0 <= i < t.len() ==> t[i] != '\'',
    ensures
        split_run(p + t) == (words, word + t, false, true, false),
    decreases t.len(),
{
    if t.len() > 0 {
        let t1 = t.drop_last();
        lemma_single_quoted_run(p, t1, words, word);
        assert((p + t).drop_last() =~= p + t1);
        assert((p + t).last() == t.last());
        assert(word + t1.push(t.last()) =~= word + t);
        assert(t1.push(t.last()) =~= t);
        assert((word + t1).push(t.last()) =~= word + t);
    } else {
        assert(p + t =~= p);
        assert(word + t =~= word);
    }
}

/// A single-quoted text is one word, white space and all: `'t'`, for any
/// non-empty `t` holding no single quote, splits into the one word `t`.
pub proof fn lemma_single_quoted_word(t: Seq<char>)
    requires
        t.len() > 0,
        forall|i: int| 0 <= i < t.len() ==> t[i] != '\'',
    ensures
        shell_split(seq!['\''] + t + seq!['\'']) == Ok::<Seq<Seq<char>>, ()>(seq![t]),
{
    let q = seq!['\''];
    assert(q.drop_last() =~= Seq::<char>::empty());
    assert(split_run(Seq::<char>::empty()) == (Seq::<Seq<char>>::empty(), Seq::<char>::empty(), false, false, false));
    assert(split_run(q) == (Seq::<Seq<char>>::empty(), Seq::<char>::empty(), false, true, false));
    lemma_single_quoted_run(q, t, Seq::empty(), Seq::empty());
    let s = q + t + q;
    assert(s.drop_last() =~= q + t);
    assert(s.last() == '\'');
    assert(Seq::<char>::empty() + t =~= t);
    assert(split_run(s) == (Seq::<Seq<char>>::empty(), t, false, false, false));
    assert(Seq::<Seq<char>>::empty().push(t) =~= seq![t]);
}

/// Inside double quotes every character but the closing quote and a
/// backslash is taken as it is: reading such a `t` with a double quote open
/// adds `t` to the word being read.
proof fn lemma_double_quoted_run(p: Seq<char>, t: Seq<char>, words: Seq<Seq<char>>, word: Seq<char>)
    requires
        split_run(p) == (words, word, true, false, false),
        forall|i: int| 0 <= i < t.len() ==> t[i] != '"' && t[i] != '\\',
    ensures
        split_run(p + t) == (words, word + t, true, false, false),
    decreases t.len(),
{
    if t.len() > 0 {
        let t1 = t.drop_last();
        lemma_double_quoted_run(p, t1, words, word);
        assert((p + t).drop_last() =~= p + t1);
        assert((p + t).last() == t.last());
        assert(t1.push(t.last()) =~= t);
        assert((word + t1).push(t.last()) =~= word + t);
    } else {
        assert(p + t =~= p);
        assert(word + t =~= word);
    }
}

/// A double-quoted text is one word, white space and all: `"t"`, for any
/// non-empty `t` holding no double quote and no backslash, splits into the
/// one word `t`.
pub proof fn lemma_double_quoted_word(t: Seq<char>)
    requires
        t.len() > 0,
        forall|i: int| 0 <= i < t.len() ==> t[i] != '"' && t[i] != '\\',
    ensures
        shell_split(seq!['"'] + t + seq!['"']) == Ok::<Seq<Seq<char>>, ()>(seq![t]),
{
    let q = seq!['"'];
    assert(q.drop_last() =~= Seq::<char>::empty());
    assert(split_run(Seq::<char>::empty()) == (Seq::<Seq<char>>::empty(), Seq::<char>::empty(), false, false, false));
    assert(split_run(q) == (Seq::<Seq<char>>::empty(), Seq::<char>::empty(), true, false, false));
    lemma_double_quoted_run(q, t, Seq::empty(), Seq::empty());
    let s = q + t + q;
    assert(s.drop_last() =~= q + t);
    assert(s.last() == '"');
    assert(Seq::<char>::empty() + t =~= t);
    assert(split_run(s) == (Seq::<Seq<char>>::empty(), t, false, false, false));
    assert(Seq::<Seq<char>>::empty().push(t) =~= seq![t]);
}

} // verus!
