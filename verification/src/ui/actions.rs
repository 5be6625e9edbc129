use vstd::prelude::*;

use crate::ui::keys::action_for;
use crate::ui::state::append_char;
use crate::ui::text::{has_infix, split_words, str_trimmed, text_chars, trim_text, words_of};
use crate::ui::state::append_text;

verus! {

/// The command bound to `c` before any configuration: `c` copies the path,
/// `o` opens its folder, `v` edits it.
pub open spec fn default_binding(c: char) -> Option<Seq<char>> {
    if c == 'c' {
        Some("copy"@)
    } else if c == 'o' {
        Some("open"@)
    } else if c == 'v' {
        Some("editor"@)
    } else {
        None
    }
}

/// The index of the first `=` in `s`, if any.
pub open spec fn first_eq(s: Seq<char>) -> Option<int> {
    if exists|i: int| 0 <= i < s.len() && s[i] == '=' {
        Some(choose|i: int| 0 <= i < s.len() && s[i] == '=' && forall|j: int| 0 <= j < i ==> s[j] != '=')
    } else {
        None
    }
}

/// The binding a line of the actions file gives: after trimming, a line
/// that is not blank nor a comment (`#`) and holds a `=` binds the key
/// before the first `=` (trimmed, one ASCII character) to the command after
/// it (trimmed).
pub open spec fn line_action(line: Seq<char>) -> Option<(char, Seq<char>)> {
    let t = str_trimmed(line);
    if t.len() == 0 || t[0] == '#' {
        None
    } else {
        match first_eq(t) {
            Some(pos) => {
                let key = str_trimmed(t.subrange(0, pos));
                let cmd = str_trimmed(t.subrange(pos + 1, t.len() as int));
                if key.len() == 1 && (key[0] as u32) < 128 {
                    Some((key[0], cmd))
                } else {
                    None
                }
            },
            None => None,
        }
    }
}

/// The command bound to `c` once the lines `lines` of the actions file are
/// read: the last line binding `c` wins over the earlier ones and over the
/// defaults.
pub open spec fn bound_after(lines: Seq<Seq<char>>, c: char) -> Option<Seq<char>>
    decreases lines.len(),
{
    if lines.len() == 0 {
        default_binding(c)
    } else {
        match line_action(lines.last()) {
            Some((k, cmd)) if k == c => Some(cmd),
            _ => bound_after(lines.drop_last(), c),
        }
    }
}

/// The text of a bound command, if any.
pub open spec fn opt_text(o: Option<String>) -> Option<Seq<char>> {
    match o {
        Some(s) => Some(s@),
        None => None,
    }
}

/// Looking up a key after an entry with that key is put at the first place
/// holding the key.
proof fn lemma_action_update(v: Seq<(char, String)>, i: int, e: (char, String), c: char)
    requires
        0 <= i < v.len(),
        v[i].0 == e.0,
        forall|j: int| 0 <= j < i ==> v[j].0 != e.0,
    ensures
        action_for(v.update(i, e), c) == (if c == e.0 {
            Some(e.1)
        } else {
            action_for(v, c)
        }),
    decreases i,
{
    let w = v.update(i, e);
    if i > 0 {
        assert(w.drop_first() =~= v.drop_first().update(i - 1, e));
        lemma_action_update(v.drop_first(), i - 1, e, c);
        assert(w[0] == v[0]);
    } else {
        assert(w.drop_first() =~= v.drop_first());
        assert(w[0] == e);
    }
    assert(action_for(w, c) == (if w[0].0 == c {
        Some(w[0].1)
    } else {
        action_for(w.drop_first(), c)
    }));
    assert(action_for(v, c) == (if v[0].0 == c {
        Some(v[0].1)
    } else {
        action_for(v.drop_first(), c)
    }));
}

/// Looking up a key after an entry with a new key is added at the end.
proof fn lemma_action_push(v: Seq<(char, String)>, e: (char, String), c: char)
    requires
        forall|j: int| 0 <= j < v.len() ==> v[j].0 != e.0,
    ensures
        action_for(v.push(e), c) == (if c == e.0 {
            Some(e.1)
        } else {
            action_for(v, c)
        }),
    decreases v.len(),
{
    let w = v.push(e);
    if v.len() > 0 {
        assert(w.drop_first() =~= v.drop_first().push(e));
        lemma_action_push(v.drop_first(), e, c);
        assert(w[0] == v[0]);
        assert(action_for(v, c) == (if v[0].0 == c {
            Some(v[0].1)
        } else {
            action_for(v.drop_first(), c)
        }));
    } else {
        assert(w.drop_first() =~= Seq::<(char, String)>::empty());
        assert(w[0] == e);
        assert(action_for(w.drop_first(), c) is None);
    }
    assert(action_for(w, c) == (if w[0].0 == c {
        Some(w[0].1)
    } else {
        action_for(w.drop_first(), c)
    }));
}

/// Binds `key` to `cmd`, in place of any earlier binding of `key`.
fn set_action(actions: &mut Vec<(char, String)>, key: char, cmd: String)
    ensures
        forall|c: char|
            #![trigger action_for(final(actions)@, c)]
            action_for(final(actions)@, c) == (if c == key {
                Some(cmd)
            } else {
                action_for(old(actions)@, c)
            }),
{
    let mut i: usize = 0;
    while i < actions.len()
        invariant
            i <= actions@.len(),
            actions@ == old(actions)@,
            forall|j: int| 0 <= j < i ==> actions@[j].0 != key,
        decreases actions@.len() - i,
    {
        if actions[i].0 == key {
            let ghost before = actions@;
            actions.set(i, (key, cmd));
            proof {
                assert forall|c: char| #[trigger] action_for(actions@, c) == (if c == key {
                    Some(cmd)
                } else {
                    action_for(before, c)
                }) by {
                    lemma_action_update(before, i as int, (key, cmd), c);
                }
            }
            return;
        }
        i = i + 1;
    }
    let ghost before = actions@;
    actions.push((key, cmd));
    proof {
        assert forall|c: char| #[trigger] action_for(actions@, c) == (if c == key {
            Some(cmd)
        } else {
            action_for(before, c)
        }) by {
            lemma_action_push(before, (key, cmd), c);
        }
    }
}

/// The text `s` as a `String`.
fn text_of(s: &[char]) -> (r: String)
    ensures
        r@ == s@,
{
    let mut r = String::new();
    let mut i: usize = 0;
    while i < s.len()
        invariant
            i <= s@.len(),
            r@ == s@.subrange(0, i as int),
        decreases s@.len() - i,
    {
        append_char(&mut r, s[i]);
        assert(r@ =~= s@.subrange(0, i + 1));
        i = i + 1;
    }
    assert(s@.subrange(0, s@.len() as int) =~= s@);
    r
}

/// The binding a line of the actions file gives, if any.
pub fn parse_action_line(line: &str) -> (r: Option<(char, String)>)
    ensures
        match r {
            Some((k, cmd)) => line_action(line@) == Some((k, cmd@)),
            None => line_action(line@) is None,
        },
{
    let t = trim_text(line);
    let tc = text_chars(t.as_str());
    if tc.len() == 0 || tc[0] == '#' {
        return None;
    }
    let mut pos: usize = 0;
    while pos < tc.len() && tc[pos] != '='
        invariant
            pos <= tc@.len(),
            forall|j: int| 0 <= j < pos ==> tc@[j] != '=',
        decreases tc@.len() - pos,
    {
        pos = pos + 1;
    }
    if pos == tc.len() {
        return None;
    }
    proof {
        let p = first_eq(tc@);
        assert(tc@[pos as int] == '=');
        assert(p is Some);
        let q = p->0;
        if q < pos {
            assert(tc@[q] == '=');
        }
        if q > pos {
            assert(tc@[pos as int] != '=');
        }
        assert(q == pos);
    }
    let key_text = text_of(&tc.as_slice()[0..pos]);
    let rest_text = text_of(&tc.as_slice()[pos + 1..tc.len()]);
    let key = trim_text(key_text.as_str());
    let cmd = trim_text(rest_text.as_str());
    let kc = text_chars(key.as_str());
    if kc.len() == 1 && (kc[0] as u32) < 128 {
        Some((kc[0], cmd))
    } else {
        None
    }
}

/// The custom actions by key: the defaults, then the bindings of the lines
/// of the actions file when one was read, a later binding of a key
/// replacing an earlier one.
pub fn load_custom_actions(config_lines: Option<Vec<String>>) -> (r: Vec<(char, String)>)
    ensures
        forall|c: char|
            #![trigger action_for(r@, c)]
            opt_text(action_for(r@, c)) == bound_after(
                match config_lines {
                    Some(l) => l@.map_values(|s: String| s@),
                    None => Seq::<Seq<char>>::empty(),
                },
                c,
            ),
{
    let mut actions: Vec<(char, String)> = Vec::new();
    set_action(&mut actions, 'c', "copy".to_string());
    set_action(&mut actions, 'o', "open".to_string());
    set_action(&mut actions, 'v', "editor".to_string());
    proof {
        reveal_strlit("copy");
        reveal_strlit("open");
        reveal_strlit("editor");
        assert forall|c: char| #[trigger] opt_text(action_for(actions@, c)) == default_binding(c) by {
            assert(action_for(Seq::<(char, String)>::empty(), c) is None);
        }
    }
    match config_lines {
        Some(lines) => {
            let ghost texts = lines@.map_values(|s: String| s@);
            let mut i: usize = 0;
            while i < lines.len()
                invariant
                    i <= lines@.len(),
                    texts == lines@.map_values(|s: String| s@),
                    forall|c: char|
                        #![trigger action_for(actions@, c)]
                        opt_text(action_for(actions@, c)) == bound_after(texts.subrange(0, i as int), c),
                decreases lines@.len() - i,
            {
                let ghost prev = actions@;
                proof {
                    assert(texts.subrange(0, i + 1).drop_last() =~= texts.subrange(0, i as int));
                    assert(texts.subrange(0, i + 1).last() == lines@[i as int]@);
                }
                match parse_action_line(lines[i].as_str()) {
                    Some((k, cmd)) => {
                        set_action(&mut actions, k, cmd);
                        proof {
                            assert forall|c: char| #[trigger] opt_text(action_for(actions@, c))
                                == bound_after(texts.subrange(0, i + 1), c) by {
                                if c != k {
                                    assert(action_for(actions@, c) == action_for(prev, c));
                                }
                            }
                        }
                    },
                    None => {
                        proof {
                            assert forall|c: char| #[trigger] opt_text(action_for(actions@, c))
                                == bound_after(texts.subrange(0, i + 1), c) by {
                                assert(action_for(actions@, c) == action_for(prev, c));
                            }
                        }
                    },
                }
                i = i + 1;
            }
            assert(texts.subrange(0, lines@.len() as int) =~= texts);
        },
        None => {},
    }
    actions
}

/// `s` from index `i` on, each occurrence of `pat` (met from left to
/// right, without overlap) replaced by `rep`.
pub open spec fn replaced_from(s: Seq<char>, pat: Seq<char>, rep: Seq<char>, i: int) -> Seq<char>
    decreases s.len() - i,
{
    if i < 0 || i >= s.len() || pat.len() == 0 {
        if 0 <= i < s.len() {
            s.subrange(i, s.len() as int)
        } else {
            Seq::empty()
        }
    } else if i + pat.len() <= s.len() && s.subrange(i, i + pat.len()) == pat {
        rep + replaced_from(s, pat, rep, i + pat.len())
    } else {
        seq![s[i]] + replaced_from(s, pat, rep, i + 1)
    }
}

/// `s` with each occurrence of `pat` replaced by `rep`, as `str::replace`
/// does it.
pub open spec fn replaced(s: Seq<char>, pat: Seq<char>, rep: Seq<char>) -> Seq<char> {
    replaced_from(s, pat, rep, 0)
}

/// `s` with each occurrence of the non-empty `pat` replaced by `rep`.
fn replace_text(s: &Vec<char>, pat: &Vec<char>, rep: &str) -> (r: String)
    requires
        pat@.len() > 0,
    ensures
        r@ == replaced(s@, pat@, rep@),
{
    let mut out = String::new();
    let mut i: usize = 0;
    while i < s.len()
        invariant
            i <= s@.len(),
            pat@.len() > 0,
            out@ + replaced_from(s@, pat@, rep@, i as int) == replaced(s@, pat@, rep@),
        decreases s@.len() - i,
    {
        let mut same = pat.len() <= s.len() - i;
        if same {
            let mut j: usize = 0;
            let n: usize = s.len();
            while j < pat.len()
                invariant
                    n == s@.len(),
                    i + pat@.len() <= n,
                    j <= pat@.len(),
                    same == (forall|k: int| 0 <= k < j ==> s@[i + k] == pat@[k]),
                decreases pat@.len() - j,
            {
                if s[i + j] != pat[j] {
                    same = false;
                }
                j = j + 1;
            }
            proof {
                if same {
                    assert(s@.subrange(i as int, i + pat@.len()) =~= pat@);
                } else {
                    let k = choose|k: int| 0 <= k < pat@.len() && s@[i + k] != pat@[k];
                    assert(s@.subrange(i as int, i + pat@.len())[k] != pat@[k]);
                }
            }
        }
        let ghost prev = out@;
        if same {
            append_text(&mut out, rep);
            proof {
                assert(prev + replaced_from(s@, pat@, rep@, i as int) =~= out@ + replaced_from(s@, pat@, rep@, i + pat@.len()));
            }
            i = i + pat.len();
        } else {
            append_char(&mut out, s[i]);
            proof {
                assert(prev + replaced_from(s@, pat@, rep@, i as int) =~= out@ + replaced_from(s@, pat@, rep@, i + 1));
            }
            i = i + 1;
        }
    }
    assert(out@ =~= out@ + replaced_from(s@, pat@, rep@, i as int));
    out
}

/// The shell command a custom action runs on `path`: the command with each
/// `{path}` replaced by the path when it holds one, else the command
/// followed by the path in double quotes.
pub open spec fn shell_command_text(cmd: Seq<char>, path: Seq<char>) -> Seq<char> {
    if has_infix(cmd, "{path}"@) {
        replaced(cmd, "{path}"@, path)
    } else {
        cmd + " \""@ + path + "\""@
    }
}

/// The shell command a custom action runs on `path`.
pub fn custom_shell_command(cmd: &str, path: &str) -> (r: String)
    ensures
        r@ == shell_command_text(cmd@, path@),
{
    let cs = text_chars(cmd);
    let pat = text_chars("{path}");
    proof {
        reveal_strlit("{path}");
    }
    if crate::ui::text::contains_chars(&cs, &pat) {
        replace_text(&cs, &pat, path)
    } else {
        let mut out = String::new();
        append_text(&mut out, cmd);
        append_text(&mut out, " \"");
        append_text(&mut out, path);
        append_text(&mut out, "\"");
        out
    }
}

/// The program and arguments that open `path` in the editor `editor`: the
/// first word of the editor setting is the program (the whole setting when
/// it has no word), its other words come first among the arguments, and
/// the path last.
pub fn editor_command(editor: &str, path: &str) -> (r: (String, Vec<String>))
    ensures
        ({
            let w = words_of(editor@);
            &&& r.0@ == (if w.len() == 0 { editor@ } else { w[0] })
            &&& r.1@.map_values(|a: String| a@) == (if w.len() == 0 {
                seq![path@]
            } else {
                w.drop_first().push(path@)
            })
        }),
{
    let mut parts = split_words(editor);
    let ghost w = parts@.map_values(|a: String| a@);
    let binary = if parts.len() == 0 {
        editor.to_string()
    } else {
        parts.remove(0)
    };
    parts.push(path.to_string());
    proof {
        if w.len() == 0 {
            assert(parts@.map_values(|a: String| a@) =~= seq![path@]);
        } else {
            assert(parts@.map_values(|a: String| a@) =~= w.drop_first().push(path@));
        }
    }
    (binary, parts)
}

/// The shell command that deletes `path` with the user's command `cmd`:
/// the command, then the path in single quotes, each single quote of the
/// path written `'\\''`.
pub open spec fn delete_command_text(cmd: Seq<char>, path: Seq<char>) -> Seq<char> {
    cmd + " '"@ + replaced(path, "'"@, "'\\''"@) + "'"@
}

/// The shell command that deletes `path` with the user's command `cmd`.
pub fn delete_command_line(cmd: &str, path: &str) -> (r: String)
    ensures
        r@ == delete_command_text(cmd@, path@),
{
    let pc = text_chars(path);
    let quote = text_chars("'");
    proof {
        reveal_strlit("'");
    }
    let quoted = replace_text(&pc, &quote, "'\\''");
    let mut out = String::new();
    append_text(&mut out, cmd);
    append_text(&mut out, " '");
    append_text(&mut out, quoted.as_str());
    append_text(&mut out, "'");
    out
}

} // verus!
