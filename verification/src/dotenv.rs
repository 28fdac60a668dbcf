//! Quoting of secret values for shells and `.env` files, and parsing of `.env` files.
use vstd::prelude::*;

use crate::names::{is_key_char, is_key_start, is_valid_key, valid_key_chars};
use crate::text::{
    chars_of, is_ws, lemma_split_nonempty, split, split_chars, string_of, trim, trim_chars,
    trim_end, trim_start, views,
};

verus! {

// ─── .env quoting ─────────────────────────────────────────────────────

/// How one character is written inside a double-quoted `.env` value.
pub open spec fn dotenv_escape_char(c: char) -> Seq<char> {
    if c == '\\' {
        seq!['\\', '\\']
    } else if c == '"' {
        seq!['\\', '"']
    } else if c == '\n' {
        seq!['\\', 'n']
    } else if c == '\r' {
        seq!['\\', 'r']
    } else if c == '\t' {
        seq!['\\', 't']
    } else {
        seq![c]
    }
}

/// The characters of `s`, each escaped for a double-quoted `.env` value.
pub open spec fn dotenv_escape(s: Seq<char>) -> Seq<char>
    decreases s.len(),
{
    if s.len() == 0 {
        Seq::empty()
    } else {
        dotenv_escape_char(s[0]) + dotenv_escape(s.drop_first())
    }
}

/// `s` as a double-quoted `.env` value.
pub open spec fn dotenv_quoted(s: Seq<char>) -> Seq<char> {
    seq!['"'] + dotenv_escape(s) + seq!['"']
}

/// The character that a backslash followed by `c` stands for.
pub open spec fn unescape_char(c: char) -> char {
    if c == 'n' {
        '\n'
    } else if c == 'r' {
        '\r'
    } else if c == 't' {
        '\t'
    } else {
        c
    }
}

/// The text between double quotes with its backslash escapes decoded; a
/// lone backslash at the end stands for itself.
pub open spec fn dotenv_unescape(s: Seq<char>) -> Seq<char>
    decreases s.len(),
{
    if s.len() == 0 {
        Seq::empty()
    } else if s[0] == '\\' {
        if s.len() == 1 {
            seq!['\\']
        } else {
            seq![unescape_char(s[1])] + dotenv_unescape(s.subrange(2, s.len() as int))
        }
    } else {
        seq![s[0]] + dotenv_unescape(s.drop_first())
    }
}

/// The value that a `.env` right-hand side stands for: none for an empty
/// text; the decoded inside of a double-quoted text, the inside of a
/// single-quoted text (both after trimming); otherwise the text as it is.
pub open spec fn parse_dotenv(raw: Seq<char>) -> Option<Seq<char>> {
    if raw.len() == 0 {
        None
    } else {
        let t = trim(raw);
        if t.len() >= 2 && t[0] == '"' && t.last() == '"' {
            Some(dotenv_unescape(t.subrange(1, t.len() - 1)))
        } else if t.len() >= 2 && t[0] == '\'' && t.last() == '\'' {
            Some(t.subrange(1, t.len() - 1))
        } else {
            Some(raw)
        }
    }
}

pub proof fn lemma_dotenv_escape_concat(a: Seq<char>, b: Seq<char>)
    ensures
        dotenv_escape(a + b) == dotenv_escape(a) + dotenv_escape(b),
    decreases a.len(),
{
    if a.len() == 0 {
        assert(a + b =~= b);
    } else {
        assert((a + b).drop_first() =~= a.drop_first() + b);
        lemma_dotenv_escape_concat(a.drop_first(), b);
        assert(dotenv_escape(a + b) =~= dotenv_escape(a) + dotenv_escape(b));
    }
}

proof fn lemma_dotenv_escape_single(c: char)
    ensures
        dotenv_escape(seq![c]) == dotenv_escape_char(c),
{
    let s = seq![c];
    assert(s.drop_first() =~= Seq::<char>::empty());
    assert(dotenv_escape(s.drop_first()) == Seq::<char>::empty());
    assert(dotenv_escape(s) == dotenv_escape_char(c) + dotenv_escape(s.drop_first()));
    assert(dotenv_escape_char(c) + Seq::<char>::empty() =~= dotenv_escape_char(c));
}

/// Decoding undoes escaping.
pub proof fn lemma_dotenv_unescape_escape(v: Seq<char>)
    ensures
        dotenv_unescape(dotenv_escape(v)) == v,
    decreases v.len(),
{
    if v.len() == 0 {
    } else {
        let c = v[0];
        let rest = dotenv_escape(v.drop_first());
        lemma_dotenv_unescape_escape(v.drop_first());
        let e = dotenv_escape(v);
        assert(e == dotenv_escape_char(c) + rest);
        if c == '\\' || c == '"' || c == '\n' || c == '\r' || c == '\t' {
            assert(e[0] == '\\');
            assert(e.subrange(2, e.len() as int) =~= rest);
        } else {
            assert(e.drop_first() =~= rest);
        }
        assert(dotenv_unescape(e) =~= v);
    }
}

/// The first and last characters of a double-quoted value are quotes.
proof fn lemma_dotenv_quoted_shape(v: Seq<char>)
    ensures
        dotenv_quoted(v).len() >= 2,
        dotenv_quoted(v)[0] == '"',
        dotenv_quoted(v).last() == '"',
        trim(dotenv_quoted(v)) == dotenv_quoted(v),
        dotenv_quoted(v).subrange(1, dotenv_quoted(v).len() - 1) == dotenv_escape(v),
{
    let q = dotenv_quoted(v);
    assert(q.subrange(1, q.len() - 1) =~= dotenv_escape(v));
}

/// A double-quoted value reads back as the value it was made from.
pub proof fn lemma_parse_dotenv_quoted(v: Seq<char>)
    ensures
        parse_dotenv(dotenv_quoted(v)) == Some(v),
{
    lemma_dotenv_quoted_shape(v);
    lemma_dotenv_unescape_escape(v);
}

/// Writes `value` as a double-quoted `.env` value, escaping backslashes,
/// double quotes, newlines, carriage returns and tabs.
pub fn dotenv_quote(value: &str) -> (r: String)
    ensures
        r@ == dotenv_quoted(value@),
{
    let v = chars_of(value);
    let mut out: Vec<char> = Vec::new();
    out.push('"');
    let mut i: usize = 0;
    assert(v@.subrange(0, 0) =~= Seq::<char>::empty());
    while i < v.len()
        invariant
            i <= v.len(),
            out@ == seq!['"'] + dotenv_escape(v@.subrange(0, i as int)),
        decreases v.len() - i,
    {
        let c = v[i];
        proof {
            let p = v@.subrange(0, i as int);
            assert(v@.subrange(0, i + 1) =~= p + seq![c]);
            lemma_dotenv_escape_concat(p, seq![c]);
            lemma_dotenv_escape_single(c);
        }
        if c == '\\' {
            out.push('\\');
            out.push('\\');
        } else if c == '"' {
            out.push('\\');
            out.push('"');
        } else if c == '\n' {
            out.push('\\');
            out.push('n');
        } else if c == '\r' {
            out.push('\\');
            out.push('r');
        } else if c == '\t' {
            out.push('\\');
            out.push('t');
        } else {
            out.push(c);
        }
        i += 1;
        assert(out@ =~= seq!['"'] + dotenv_escape(v@.subrange(0, i as int)));
    }
    out.push('"');
    assert(v@.subrange(0, v.len() as int) =~= v@);
    assert(out@ =~= dotenv_quoted(value@));
    string_of(&out)
}

fn unescape_exec(c: char) -> (r: char)
    ensures
        r == unescape_char(c),
{
    if c == 'n' {
        '\n'
    } else if c == 'r' {
        '\r'
    } else if c == 't' {
        '\t'
    } else {
        c
    }
}

/// Decodes the backslash escapes of the text between double quotes.
fn unescape_chars(s: &Vec<char>) -> (r: Vec<char>)
    ensures
        r@ == dotenv_unescape(s@),
{
    let n = s.len();
    let mut out: Vec<char> = Vec::new();
    let mut i: usize = 0;
    assert(s@.subrange(0, n as int) =~= s@);
    while i < n
        invariant
            n == s.len(),
            i <= n,
            out@ + dotenv_unescape(s@.subrange(i as int, n as int)) == dotenv_unescape(s@),
        decreases n - i,
    {
        let ghost rest = s@.subrange(i as int, n as int);
        let ghost before = out@;
        if s[i] == '\\' {
            if i + 1 == n {
                out.push('\\');
                i = n;
                assert(rest =~= seq!['\\']);
                assert(s@.subrange(n as int, n as int) =~= Seq::<char>::empty());
                assert(out@ + dotenv_unescape(s@.subrange(i as int, n as int)) =~= before
                    + dotenv_unescape(rest));
            } else {
                let d = unescape_exec(s[i + 1]);
                out.push(d);
                assert(rest.subrange(2, rest.len() as int) =~= s@.subrange(i + 2, n as int));
                i = i + 2;
                assert(out@ + dotenv_unescape(s@.subrange(i as int, n as int)) =~= before
                    + dotenv_unescape(rest));
            }
        } else {
            out.push(s[i]);
            assert(rest.drop_first() =~= s@.subrange(i + 1, n as int));
            i = i + 1;
            assert(out@ + dotenv_unescape(s@.subrange(i as int, n as int)) =~= before
                + dotenv_unescape(rest));
        }
    }
    assert(s@.subrange(n as int, n as int) =~= Seq::<char>::empty());
    assert(out@ + Seq::<char>::empty() =~= out@);
    out
}

/// `parse_dotenv` on a character sequence.
pub fn parse_dotenv_chars(raw: &Vec<char>) -> (r: Option<Vec<char>>)
    ensures
        match r {
            Some(v) => parse_dotenv(raw@) == Some(v@),
            None => parse_dotenv(raw@) is None,
        },
{
    if raw.len() == 0 {
        return None;
    }
    let t = trim_chars(raw);
    let n = t.len();
    if n >= 2 && t[0] == '"' && t[n - 1] == '"' {
        let inner = crate::text::slice_chars(&t, 1, n - 1);
        Some(unescape_chars(&inner))
    } else if n >= 2 && t[0] == '\'' && t[n - 1] == '\'' {
        Some(crate::text::slice_chars(&t, 1, n - 1))
    } else {
        Some(raw.clone())
    }
}

/// Reads the value of a `.env` assignment's right-hand side: `None` for an
/// empty text; a double-quoted value with its escapes decoded; a
/// single-quoted value taken literally; anything else as it stands.
pub fn parse_dotenv_value(raw: &str) -> (r: Option<String>)
    ensures
        match r {
            Some(v) => parse_dotenv(raw@) == Some(v@),
            None => parse_dotenv(raw@) is None,
        },
{
    let v = chars_of(raw);
    match parse_dotenv_chars(&v) {
        Some(p) => Some(string_of(&p)),
        None => None,
    }
}

// ─── Shell quoting ────────────────────────────────────────────────────

/// How one character is written inside a single-quoted shell word.
pub open spec fn shell_escape_char(c: char) -> Seq<char> {
    if c == '\'' {
        seq!['\'', '\\', '\'', '\'']
    } else {
        seq![c]
    }
}

/// The characters of `s`, each escaped for a single-quoted shell word.
pub open spec fn shell_escape(s: Seq<char>) -> Seq<char>
    decreases s.len(),
{
    if s.len() == 0 {
        Seq::empty()
    } else {
        shell_escape_char(s[0]) + shell_escape(s.drop_first())
    }
}

/// `s` as a single-quoted POSIX shell word.
pub open spec fn shell_quoted(s: Seq<char>) -> Seq<char> {
    seq!['\''] + shell_escape(s) + seq!['\'']
}

/// Quote removal of a POSIX shell word: inside single quotes every
/// character stands for itself up to the closing quote; outside them a
/// backslash makes the next character literal. `quoted` says whether the
/// reading starts inside single quotes.
pub open spec fn shell_read(s: Seq<char>, quoted: bool) -> Seq<char>
    decreases s.len(),
{
    if s.len() == 0 {
        Seq::empty()
    } else if quoted {
        if s[0] == '\'' {
            shell_read(s.drop_first(), false)
        } else {
            seq![s[0]] + shell_read(s.drop_first(), true)
        }
    } else if s[0] == '\'' {
        shell_read(s.drop_first(), true)
    } else if s[0] == '\\' && s.len() >= 2 {
        seq![s[1]] + shell_read(s.subrange(2, s.len() as int), false)
    } else {
        seq![s[0]] + shell_read(s.drop_first(), false)
    }
}

pub proof fn lemma_shell_escape_concat(a: Seq<char>, b: Seq<char>)
    ensures
        shell_escape(a + b) == shell_escape(a) + shell_escape(b),
    decreases a.len(),
{
    if a.len() == 0 {
        assert(a + b =~= b);
    } else {
        assert((a + b).drop_first() =~= a.drop_first() + b);
        lemma_shell_escape_concat(a.drop_first(), b);
        assert(shell_escape(a + b) =~= shell_escape(a) + shell_escape(b));
    }
}

proof fn lemma_shell_escape_single(c: char)
    ensures
        shell_escape(seq![c]) == shell_escape_char(c),
{
    let s = seq![c];
    assert(s.drop_first() =~= Seq::<char>::empty());
    assert(shell_escape(s.drop_first()) == Seq::<char>::empty());
    assert(shell_escape(s) == shell_escape_char(c) + shell_escape(s.drop_first()));
    assert(shell_escape_char(c) + Seq::<char>::empty() =~= shell_escape_char(c));
}

proof fn lemma_shell_read_escaped(v: Seq<char>)
    ensures
        shell_read(shell_escape(v) + seq!['\''], true) == v,
    decreases v.len(),
{
    let tail = seq!['\''];
    if v.len() == 0 {
        assert(shell_escape(v) + tail =~= tail);
        assert(tail.drop_first() =~= Seq::<char>::empty());
        assert(shell_read(tail, true) == shell_read(tail.drop_first(), false));
        assert(v =~= Seq::<char>::empty());
    } else {
        let c = v[0];
        let rest = shell_escape(v.drop_first()) + tail;
        lemma_shell_read_escaped(v.drop_first());
        let s = shell_escape(v) + tail;
        assert(s =~= shell_escape_char(c) + rest);
        if c == '\'' {
            assert(s[0] == '\'');
            let s1 = s.drop_first();
            assert(s1 =~= seq!['\\', '\'', '\''] + rest);
            assert(s1[0] == '\\' && s1[1] == '\'');
            let s2 = s1.subrange(2, s1.len() as int);
            assert(s2 =~= seq!['\''] + rest);
            assert(s2[0] == '\'');
            assert(s2.drop_first() =~= rest);
            assert(shell_read(s2, false) == shell_read(rest, true));
            assert(shell_read(s1, false) == seq![s1[1]] + shell_read(s2, false));
            assert(shell_read(s, true) == shell_read(s1, false));
            assert(shell_read(s, true) =~= seq!['\''] + v.drop_first());
        } else {
            assert(s[0] == c);
            assert(s.drop_first() =~= rest);
            assert(shell_read(s, true) == seq![c] + shell_read(rest, true));
        }
        assert(shell_read(s, true) =~= v);
    }
}

/// The shell reads a quoted word back as exactly the value it was made from.
pub proof fn lemma_shell_quote_reads_back(v: Seq<char>)
    ensures
        shell_read(shell_quoted(v), false) == v,
{
    let q = shell_quoted(v);
    assert(q.drop_first() =~= shell_escape(v) + seq!['\'']);
    lemma_shell_read_escaped(v);
}

/// Writes `value` as a single-quoted shell word; each `'` becomes `'\''`.
pub fn shell_quote(value: &str) -> (r: String)
    ensures
        r@ == shell_quoted(value@),
        shell_read(r@, false) == value@,
{
    let v = chars_of(value);
    let mut out: Vec<char> = Vec::new();
    out.push('\'');
    let mut i: usize = 0;
    assert(v@.subrange(0, 0) =~= Seq::<char>::empty());
    while i < v.len()
        invariant
            i <= v.len(),
            out@ == seq!['\''] + shell_escape(v@.subrange(0, i as int)),
        decreases v.len() - i,
    {
        let c = v[i];
        proof {
            let p = v@.subrange(0, i as int);
            assert(v@.subrange(0, i + 1) =~= p + seq![c]);
            lemma_shell_escape_concat(p, seq![c]);
            lemma_shell_escape_single(c);
        }
        if c == '\'' {
            out.push('\'');
            out.push('\\');
            out.push('\'');
            out.push('\'');
        } else {
            out.push(c);
        }
        i += 1;
        assert(out@ =~= seq!['\''] + shell_escape(v@.subrange(0, i as int)));
    }
    out.push('\'');
    assert(v@.subrange(0, v.len() as int) =~= v@);
    assert(out@ =~= shell_quoted(value@));
    proof {
        lemma_shell_quote_reads_back(value@);
    }
    string_of(&out)
}

} // verus!
