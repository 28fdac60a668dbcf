//! Whole `.env` files: what `ke pull` writes and what `ke push` reads.
use vstd::prelude::*;

use crate::dotenv::{
    dotenv_escape, dotenv_escape_char, dotenv_quote, dotenv_quoted, lemma_parse_dotenv_quoted,
    parse_dotenv, parse_dotenv_chars,
};
use crate::names::{is_key_char, is_key_start, is_valid_key, valid_key_chars};
use crate::text::{
    chars_of, lemma_split_concat_sep, lemma_split_no_sep, is_ws, lemma_split_nonempty, lemma_trim_noop, split, split_chars, string_of, trim,
    trim_chars, trim_end, trim_start, views,
};

verus! {

/// Index of the first `c` in `s`, as `str::split_once` finds it.
pub open spec fn find_char(s: Seq<char>, c: char) -> Option<int>
    decreases s.len(),
{
    if s.len() == 0 {
        None
    } else if s[0] == c {
        Some(0)
    } else {
        match find_char(s.drop_first(), c) {
            Some(i) => Some(i + 1),
            None => None,
        }
    }
}

/// The assignment that one line of a `.env` file makes, if any: blank
/// lines, `#` comments, lines without `=`, invalid key names and empty
/// values make none.
pub open spec fn env_entry(line: Seq<char>) -> Option<(Seq<char>, Seq<char>)> {
    let l = trim(line);
    if l.len() == 0 || l[0] == '#' {
        None
    } else {
        match find_char(l, '=') {
            None => None,
            Some(i) => {
                let key = trim(l.subrange(0, i));
                match parse_dotenv(l.subrange(i + 1, l.len() as int)) {
                    None => None,
                    Some(v) => if is_valid_key(key) && v.len() > 0 {
                        Some((key, v))
                    } else {
                        None
                    },
                }
            },
        }
    }
}

/// The assignments that the lines make, in order.
pub open spec fn env_entries(lines: Seq<Seq<char>>) -> Seq<(Seq<char>, Seq<char>)>
    decreases lines.len(),
{
    if lines.len() == 0 {
        Seq::empty()
    } else {
        let r = env_entries(lines.drop_last());
        match env_entry(lines.last()) {
            Some(e) => r.push(e),
            None => r,
        }
    }
}

/// The assignments of a `.env` file's text.
pub open spec fn parse_env(content: Seq<char>) -> Seq<(Seq<char>, Seq<char>)> {
    env_entries(split(content, '\n'))
}

/// The views of key/value pairs.
pub open spec fn pair_views(v: Seq<(String, String)>) -> Seq<(Seq<char>, Seq<char>)> {
    v.map_values(|p: (String, String)| (p.0@, p.1@))
}

/// One `KEY="value"` line, without its line ending.
pub open spec fn env_line(key: Seq<char>, value: Seq<char>) -> Seq<char> {
    key + seq!['='] + dotenv_quoted(value)
}

/// One line per assignment, each ended by a newline.
pub open spec fn env_body(entries: Seq<(Seq<char>, Seq<char>)>) -> Seq<char>
    decreases entries.len(),
{
    if entries.len() == 0 {
        Seq::empty()
    } else {
        env_body(entries.drop_last()) + env_line(entries.last().0, entries.last().1) + seq!['\n']
    }
}

/// The comment lines that head a pulled `.env.local` file.
pub open spec fn pull_header(project: Seq<char>) -> Seq<char> {
    "# "@ + project + " — pulled from Keychain\n"@ + "# WARNING: contains secrets — never commit!\n\n"@
}

/// The text of the `.env.local` file that `ke pull` writes.
pub open spec fn pull_file(project: Seq<char>, entries: Seq<(Seq<char>, Seq<char>)>) -> Seq<
    char,
> {
    pull_header(project) + env_body(entries)
}

// ─── Lemmas ───────────────────────────────────────────────────────────

proof fn lemma_env_entries_concat(x: Seq<Seq<char>>, y: Seq<Seq<char>>)
    ensures
        env_entries(x + y) == env_entries(x) + env_entries(y),
    decreases y.len(),
{
    if y.len() == 0 {
        assert(x + y =~= x);
        assert(env_entries(x) + env_entries(y) =~= env_entries(x));
    } else {
        assert((x + y).drop_last() =~= x + y.drop_last());
        lemma_env_entries_concat(x, y.drop_last());
        match env_entry(y.last()) {
            Some(e) => {
                assert(env_entries(x + y) =~= env_entries(x) + env_entries(y));
            },
            None => {
            },
        }
    }
}

proof fn lemma_entry_empty()
    ensures
        env_entry(Seq::<char>::empty()) is None,
{
    assert(trim(Seq::<char>::empty()) =~= Seq::<char>::empty());
}

proof fn lemma_parse_env_empty()
    ensures
        parse_env(Seq::<char>::empty()) == Seq::<(Seq<char>, Seq<char>)>::empty(),
{
    lemma_entry_empty();
    lemma_env_entries_single_empty();
}

proof fn lemma_env_entries_single_empty()
    ensures
        split(Seq::<char>::empty(), '\n') == seq![Seq::<char>::empty()],
        env_entries(seq![Seq::<char>::empty()]) == Seq::<(Seq<char>, Seq<char>)>::empty(),
{
    lemma_entry_empty();
    let ls = seq![Seq::<char>::empty()];
    assert(ls.drop_last() =~= Seq::<Seq<char>>::empty());
    assert(env_entries(ls.drop_last()) == Seq::<(Seq<char>, Seq<char>)>::empty());
    assert(ls.last() == Seq::<char>::empty());
}

/// Parsing text that ends a line before more text is parsing each part.
proof fn lemma_parse_env_concat(x: Seq<char>, y: Seq<char>)
    requires
        x.len() == 0 || x.last() == '\n',
    ensures
        parse_env(x + y) == parse_env(x) + parse_env(y),
{
    lemma_entry_empty();
    if x.len() == 0 {
        assert(x + y =~= y);
        lemma_parse_env_empty();
        assert(parse_env(x) + parse_env(y) =~= parse_env(y));
    } else {
        let xp = x.drop_last();
        assert(x + y =~= xp + seq!['\n'] + y);
        lemma_split_concat_sep(xp, y, '\n');
        lemma_env_entries_concat(split(xp, '\n'), split(y, '\n'));
        assert(x =~= xp + seq!['\n'] + Seq::<char>::empty());
        lemma_split_concat_sep(xp, Seq::<char>::empty(), '\n');
        let e = split(Seq::<char>::empty(), '\n');
        lemma_env_entries_single_empty();
        lemma_env_entries_concat(split(xp, '\n'), e);
        assert(x + Seq::<char>::empty() =~= x);
        assert(parse_env(x) =~= env_entries(split(xp, '\n')));
    }
}

/// One line ended by a newline parses to the assignment it makes.
proof fn lemma_parse_env_line(l: Seq<char>)
    requires
        !l.contains('\n'),
    ensures
        parse_env(l + seq!['\n']) == match env_entry(l) {
            Some(e) => seq![e],
            None => Seq::<(Seq<char>, Seq<char>)>::empty(),
        },
{
    lemma_entry_empty();
    let s = l + seq!['\n'];
    assert(s =~= l + seq!['\n'] + Seq::<char>::empty());
    lemma_split_concat_sep(l, Seq::<char>::empty(), '\n');
    lemma_split_no_sep(l, '\n');
    let ls = split(s, '\n');
    assert(ls =~= seq![l, Seq::<char>::empty()]);
    assert(ls.drop_last() =~= seq![l]);
    assert(ls.last() == Seq::<char>::empty());
    assert(env_entries(ls) == env_entries(seq![l]));
    let one = seq![l];
    assert(one.drop_last() =~= Seq::<Seq<char>>::empty());
    assert(env_entries(one.drop_last()) == Seq::<(Seq<char>, Seq<char>)>::empty());
    assert(one.last() == l);
    match env_entry(l) {
        Some(e) => {
            assert(env_entries(one) == Seq::<(Seq<char>, Seq<char>)>::empty().push(e));
            assert(env_entries(ls) =~= seq![e]);
        },
        None => {
        },
    }
}

proof fn lemma_trim_keeps_first(s: Seq<char>)
    requires
        s.len() > 0,
        !is_ws(s[0]),
    ensures
        trim(s).len() > 0,
        trim(s)[0] == s[0],
    decreases s.len(),
{
    assert(trim_start(s) == s);
    lemma_trim_end_keeps_first(s);
}

proof fn lemma_trim_end_keeps_first(s: Seq<char>)
    requires
        s.len() > 0,
        !is_ws(s[0]),
    ensures
        trim_end(s).len() > 0,
        trim_end(s)[0] == s[0],
    decreases s.len(),
{
    if is_ws(s.last()) {
        let p = s.drop_last();
        assert(p.len() > 0);
        assert(p[0] == s[0]);
        lemma_trim_end_keeps_first(p);
    }
}

proof fn lemma_find_char_after(k: Seq<char>, rest: Seq<char>, c: char)
    requires
        !k.contains(c),
    ensures
        find_char(k + seq![c] + rest, c) == Some(k.len() as int),
    decreases k.len(),
{
    let s = k + seq![c] + rest;
    if k.len() == 0 {
        assert(s[0] == c);
    } else {
        assert(s[0] == k[0]);
        assert(s.drop_first() =~= k.drop_first() + seq![c] + rest);
        assert(!k.drop_first().contains(c)) by {
            if k.drop_first().contains(c) {
                let i = choose|i: int| 0 <= i < k.drop_first().len() && k.drop_first()[i] == c;
                assert(k[i + 1] == c);
            }
        }
        lemma_find_char_after(k.drop_first(), rest, c);
    }
}

proof fn lemma_key_chars_plain(k: Seq<char>)
    requires
        is_valid_key(k),
    ensures
        !k.contains('='),
        !k.contains('\n'),
        !is_ws(k[0]),
        !is_ws(k.last()),
        trim(k) == k,
{
    assert forall|i: int| 0 <= i < k.len() implies k[i] != '=' && k[i] != '\n' && !is_ws(k[i]) by {
        if i == 0 {
            assert(is_key_start(k[0]));
        } else {
            assert(is_key_char(k[i]));
        }
    }
    lemma_trim_noop(k);
}

proof fn lemma_escape_no_newline(v: Seq<char>)
    ensures
        !dotenv_escape(v).contains('\n'),
    decreases v.len(),
{
    if v.len() > 0 {
        lemma_escape_no_newline(v.drop_first());
        let e = dotenv_escape(v);
        let h = dotenv_escape_char(v[0]);
        let r = dotenv_escape(v.drop_first());
        assert(e == h + r);
        assert(!h.contains('\n'));
        assert forall|i: int| 0 <= i < e.len() implies e[i] != '\n' by {
            if i < h.len() {
                assert(e[i] == h[i]);
            } else {
                assert(e[i] == r[i - h.len()]);
            }
        }
    }
}

/// A `KEY="value"` line makes the assignment it was written for.
proof fn lemma_env_line_entry(k: Seq<char>, v: Seq<char>)
    requires
        is_valid_key(k),
        v.len() > 0,
    ensures
        env_entry(env_line(k, v)) == Some((k, v)),
        !env_line(k, v).contains('\n'),
{
    let q = dotenv_quoted(v);
    let l = env_line(k, v);
    lemma_key_chars_plain(k);
    assert(q.last() == '"');
    assert(l.last() == '"');
    assert(l[0] == k[0]);
    lemma_trim_noop(l);
    lemma_find_char_after(k, q, '=');
    assert(l.subrange(0, k.len() as int) =~= k);
    assert(l.subrange(k.len() + 1int, l.len() as int) =~= q);
    lemma_parse_dotenv_quoted(v);
    lemma_escape_no_newline(v);
    assert forall|i: int| 0 <= i < l.len() implies l[i] != '\n' by {
        if i < k.len() {
            assert(l[i] == k[i]);
        } else if i == k.len() {
        } else if i == k.len() + 1 || i == l.len() - 1 {
        } else {
            assert(l[i] == dotenv_escape(v)[i - k.len() - 2]);
        }
    }
}

/// A comment line makes no assignment.
proof fn lemma_comment_line(l: Seq<char>)
    requires
        l.len() > 0,
        l[0] == '#',
    ensures
        env_entry(l) is None,
{
    lemma_trim_keeps_first(l);
}

proof fn lemma_parse_pull_header(project: Seq<char>)
    requires
        !project.contains('\n'),
    ensures
        parse_env(pull_header(project)) == Seq::<(Seq<char>, Seq<char>)>::empty(),
{
    reveal_strlit("# ");
    reveal_strlit(" — pulled from Keychain\n");
    reveal_strlit("# WARNING: contains secrets — never commit!\n\n");
    let l1 = "# "@ + project + " — pulled from Keychain"@;
    reveal_strlit(" — pulled from Keychain");
    let l2 = "# WARNING: contains secrets — never commit!"@;
    reveal_strlit("# WARNING: contains secrets — never commit!");
    let h = pull_header(project);
    assert(h =~= (l1 + seq!['\n']) + ((l2 + seq!['\n']) + (Seq::<char>::empty() + seq!['\n'])));
    assert(!l1.contains('\n')) by {
        assert forall|i: int| 0 <= i < l1.len() implies l1[i] != '\n' by {
            if 2 <= i < 2 + project.len() {
                assert(l1[i] == project[i - 2]);
            }
        }
    }
    assert(!l2.contains('\n'));
    assert(!Seq::<char>::empty().contains('\n'));
    lemma_parse_env_line(l1);
    lemma_parse_env_line(l2);
    lemma_parse_env_line(Seq::<char>::empty());
    lemma_comment_line(l1);
    lemma_comment_line(l2);
    lemma_entry_empty();
    lemma_parse_env_concat(l2 + seq!['\n'], Seq::<char>::empty() + seq!['\n']);
    lemma_parse_env_concat(l1 + seq!['\n'], (l2 + seq!['\n']) + (Seq::<char>::empty() + seq![
        '\n',
    ]));
    assert(parse_env(h) =~= Seq::<(Seq<char>, Seq<char>)>::empty());
}

proof fn lemma_parse_env_body(entries: Seq<(Seq<char>, Seq<char>)>)
    requires
        forall|i: int|
            0 <= i < entries.len() ==> is_valid_key(#[trigger] entries[i].0) && entries[i].1.len()
                > 0,
    ensures
        parse_env(env_body(entries)) == entries,
        env_body(entries).len() == 0 || env_body(entries).last() == '\n',
    decreases entries.len(),
{
    if entries.len() == 0 {
        lemma_parse_env_empty();
        assert(entries =~= Seq::<(Seq<char>, Seq<char>)>::empty());
    } else {
        let ep = entries.drop_last();
        assert forall|i: int| 0 <= i < ep.len() implies is_valid_key(#[trigger] ep[i].0)
            && ep[i].1.len() > 0 by {
            assert(ep[i] == entries[i]);
        }
        lemma_parse_env_body(ep);
        let (k, v) = entries.last();
        assert(is_valid_key(entries[entries.len() - 1].0));
        lemma_env_line_entry(k, v);
        let l = env_line(k, v);
        lemma_parse_env_line(l);
        assert(env_body(entries) =~= env_body(ep) + (l + seq!['\n']));
        lemma_parse_env_concat(env_body(ep), l + seq!['\n']);
        assert(entries =~= ep.push((k, v)));
        assert(parse_env(env_body(entries)) =~= entries);
    }
}

/// Pushing a pulled file reads back every secret that was pulled: the
/// assignments of `pull_file` are exactly the pulled key/value pairs, in
/// order, when every key is a valid key name and every value is non-empty.
pub proof fn lemma_pull_then_push(project: Seq<char>, entries: Seq<(Seq<char>, Seq<char>)>)
    requires
        !project.contains('\n'),
        forall|i: int|
            0 <= i < entries.len() ==> is_valid_key(#[trigger] entries[i].0) && entries[i].1.len()
                > 0,
    ensures
        parse_env(pull_file(project, entries)) == entries,
{
    lemma_parse_pull_header(project);
    lemma_parse_env_body(entries);
    reveal_strlit("# WARNING: contains secrets — never commit!\n\n");
    let h = pull_header(project);
    assert(h.last() == '\n');
    lemma_parse_env_concat(h, env_body(entries));
    assert(parse_env(pull_file(project, entries)) =~= entries);
}

// ─── Executable code ──────────────────────────────────────────────────

proof fn lemma_find_char_first(s: Seq<char>, c: char, i: int)
    requires
        0 <= i < s.len(),
        s[i] == c,
        forall|t: int| 0 <= t < i ==> s[t] != c,
    ensures
        find_char(s, c) == Some(i),
    decreases i,
{
    if i > 0 {
        lemma_find_char_first(s.drop_first(), c, i - 1);
    }
}

proof fn lemma_find_char_none(s: Seq<char>, c: char)
    requires
        forall|t: int| 0 <= t < s.len() ==> s[t] != c,
    ensures
        find_char(s, c) is None,
    decreases s.len(),
{
    if s.len() > 0 {
        lemma_find_char_none(s.drop_first(), c);
    }
}

/// Index of the first `c` in `s`.
pub fn find_char_exec(s: &Vec<char>, c: char) -> (r: Option<usize>)
    ensures
        match r {
            Some(i) => find_char(s@, c) == Some(i as int) && i < s.len(),
            None => find_char(s@, c) is None,
        },
{
    let mut i: usize = 0;
    while i < s.len()
        invariant
            i <= s.len(),
            forall|t: int| 0 <= t < i ==> s@[t] != c,
        decreases s.len() - i,
    {
        if s[i] == c {
            proof {
                lemma_find_char_first(s@, c, i as int);
            }
            return Some(i);
        }
        i += 1;
    }
    proof {
        lemma_find_char_none(s@, c);
    }
    None
}

/// The assignment that one line makes, if any.
pub fn env_entry_exec(line: &Vec<char>) -> (r: Option<(Vec<char>, Vec<char>)>)
    ensures
        match r {
            Some(p) => env_entry(line@) == Some((p.0@, p.1@)),
            None => env_entry(line@) is None,
        },
{
    let l = trim_chars(line);
    if l.len() == 0 || l[0] == '#' {
        return None;
    }
    match find_char_exec(&l, '=') {
        None => None,
        Some(i) => {
            let left = crate::text::slice_chars(&l, 0, i);
            let key = trim_chars(&left);
            let right = crate::text::slice_chars(&l, i + 1, l.len());
            match parse_dotenv_chars(&right) {
                None => None,
                Some(v) => {
                    if valid_key_chars(&key) && v.len() > 0 {
                        Some((key, v))
                    } else {
                        None
                    }
                },
            }
        },
    }
}

/// The assignments of a `.env` file, as `ke push` reads them: each line is
/// trimmed; blank lines and `#` comments are skipped; the text before the
/// first `=` (trimmed) is the key and the rest is read by
/// `parse_dotenv_value`; lines with an invalid key name, no `=` or an
/// empty value are skipped.
pub fn parse_env_file(content: &str) -> (r: Vec<(String, String)>)
    ensures
        pair_views(r@) == parse_env(content@),
{
    let c = chars_of(content);
    let lines = split_chars(&c, '\n');
    let ghost ls = views(lines@);
    let mut out: Vec<(String, String)> = Vec::new();
    let mut i: usize = 0;
    assert(ls.subrange(0, 0) =~= Seq::<Seq<char>>::empty());
    while i < lines.len()
        invariant
            i <= lines.len(),
            ls == views(lines@),
            ls == split(content@, '\n'),
            pair_views(out@) == env_entries(ls.subrange(0, i as int)),
        decreases lines.len() - i,
    {
        let ghost before = out@;
        assert(ls.subrange(0, i + 1).drop_last() =~= ls.subrange(0, i as int));
        assert(ls[i as int] == lines@[i as int]@);
        match env_entry_exec(&lines[i]) {
            Some(p) => {
                let k = string_of(&p.0);
                let v = string_of(&p.1);
                out.push((k, v));
                assert(pair_views(out@) =~= pair_views(before).push((p.0@, p.1@)));
            },
            None => {
            },
        }
        i += 1;
    }
    assert(ls.subrange(0, lines.len() as int) =~= ls);
    out
}

/// One `KEY="value"` line (without a line ending), as `ke cat` and
/// `ke pull` write it.
pub fn format_env_line(key: &str, value: &str) -> (r: String)
    ensures
        r@ == env_line(key@, value@),
{
    let mut s = String::from_str(key);
    s.append("=");
    proof {
        reveal_strlit("=");
    }
    let q = dotenv_quote(value);
    s.append(q.as_str());
    assert(s@ =~= env_line(key@, value@));
    s
}

/// The text of the `.env.local` file that `ke pull` writes for `project`.
pub fn render_pull_file(project: &str, entries: &Vec<(String, String)>) -> (r: String)
    ensures
        r@ == pull_file(project@, pair_views(entries@)),
{
    let mut s = String::from_str("# ");
    s.append(project);
    s.append(" — pulled from Keychain\n");
    s.append("# WARNING: contains secrets — never commit!\n\n");
    let ghost es = pair_views(entries@);
    let mut i: usize = 0;
    assert(es.subrange(0, 0) =~= Seq::<(Seq<char>, Seq<char>)>::empty());
    assert(s@ =~= pull_header(project@) + env_body(es.subrange(0, 0)));
    while i < entries.len()
        invariant
            i <= entries.len(),
            es == pair_views(entries@),
            s@ == pull_header(project@) + env_body(es.subrange(0, i as int)),
        decreases entries.len() - i,
    {
        let line = format_env_line(entries[i].0.as_str(), entries[i].1.as_str());
        let ghost before = s@;
        s.append(line.as_str());
        s.append("\n");
        proof {
            reveal_strlit("\n");
            let sub = es.subrange(0, i + 1);
            assert(sub.drop_last() =~= es.subrange(0, i as int));
            assert(sub.last() == es[i as int]);
            assert(es[i as int] == (entries@[i as int].0@, entries@[i as int].1@));
        }
        i += 1;
        assert(s@ =~= pull_header(project@) + env_body(es.subrange(0, i as int)));
    }
    assert(es.subrange(0, entries.len() as int) =~= es);
    s
}

} // verus!
