//! How secret values are shown: shortened ("obfuscated") for the key
//! list, and the short form remembered after a copy.
use vstd::prelude::*;

use crate::text::{chars_of, string_of};

verus! {

/// The number of bytes `c` takes in UTF-8.
pub open spec fn utf8_width(c: char) -> nat {
    let u = c as u32;
    if u < 0x80 {
        1
    } else if u < 0x800 {
        2
    } else if u < 0x10000 {
        3
    } else {
        4
    }
}

/// The number of bytes the first `n` characters of `s` take in UTF-8.
pub open spec fn prefix_width(s: Seq<char>, n: int) -> nat
    decreases n,
{
    if n <= 0 {
        0
    } else {
        prefix_width(s, n - 1) + utf8_width(s[n - 1])
    }
}

/// The length of `s` in bytes (`str::len`).
pub open spec fn byte_len(s: Seq<char>) -> nat {
    prefix_width(s, s.len() as int)
}

/// Whether the value can be shortened the way the key list shortens long
/// values: a value of more than 8 bytes is cut after its first 4 bytes and
/// before its last 4, which must fall between characters.
pub open spec fn obfuscation_defined(s: Seq<char>) -> bool {
    byte_len(s) <= 8 || ((exists|a: int| 0 <= a <= s.len() && prefix_width(s, a) == 4) && (exists|
        b: int,
    | 0 <= b <= s.len() && byte_len(s) - prefix_width(s, b) == 4))
}

/// The shortened form of a value: values of up to 8 bytes as they are;
/// longer ones as their first 4 bytes, `…`, and their last 4 bytes.
pub open spec fn obfuscated(s: Seq<char>) -> Seq<char> {
    if byte_len(s) <= 8 {
        s
    } else {
        let a = choose|a: int| 0 <= a <= s.len() && prefix_width(s, a) == 4;
        let b = choose|b: int| 0 <= b <= s.len() && byte_len(s) - prefix_width(s, b) == 4;
        s.subrange(0, a) + seq!['…'] + s.subrange(b, s.len() as int)
    }
}

/// The at most 16 first characters of a value (`chars().take(16)`).
pub open spec fn first16(s: Seq<char>) -> Seq<char> {
    if s.len() <= 16 {
        s
    } else {
        s.subrange(0, 16)
    }
}

proof fn lemma_prefix_width_mono(s: Seq<char>, a: int, b: int)
    requires
        0 <= a <= b <= s.len(),
    ensures
        prefix_width(s, a) <= prefix_width(s, b),
        a < b ==> prefix_width(s, a) < prefix_width(s, b),
    decreases b - a,
{
    if a < b {
        lemma_prefix_width_mono(s, a, b - 1);
    }
}

fn width_of(c: char) -> (w: usize)
    ensures
        w == utf8_width(c),
        1 <= w <= 4,
{
    let u = c as u32;
    if u < 0x80 {
        1
    } else if u < 0x800 {
        2
    } else if u < 0x10000 {
        3
    } else {
        4
    }
}

proof fn lemma_prefix_width_step(s: Seq<char>, i: int)
    requires
        0 <= i < s.len(),
    ensures
        prefix_width(s, i + 1) == prefix_width(s, i) + utf8_width(s[i]),
{
}

/// The shortened form of a value, for the key list.
pub fn obfuscate(value: &String) -> (r: String)
    requires
        obfuscation_defined(value@),
    ensures
        r@ == obfuscated(value@),
{
    let v = chars_of(value.as_str());
    let n = v.len();
    let ghost s = v@;
    // the byte length, counted up to 9
    let mut capped: usize = 0;
    let mut i: usize = 0;
    while i < n
        invariant
            n == v.len(),
            s == v@,
            i <= n,
            capped == if prefix_width(s, i as int) < 9 { prefix_width(s, i as int) } else { 9 },
        decreases n - i,
    {
        proof {
            lemma_prefix_width_step(s, i as int);
        }
        let w = width_of(v[i]);
        if capped < 9 {
            capped = if capped + w < 9 { capped + w } else { 9 };
        }
        i += 1;
    }
    if capped <= 8 {
        assert(byte_len(s) <= 8);
        return string_of(&v);
    }
    assert(byte_len(s) > 8);
    // the first 4 bytes end after character `a`
    let mut a: usize = 0;
    let mut head: usize = 0;
    while head < 4
        invariant
            n == v.len(),
            s == v@,
            a <= n,
            head == prefix_width(s, a as int),
            a > 0 ==> prefix_width(s, a - 1) < 4,
            byte_len(s) > 8,
        decreases n - a,
    {
        if a == n {
            assert(false);
        }
        proof {
            lemma_prefix_width_step(s, a as int);
        }
        head = head + width_of(v[a]);
        a += 1;
    }
    proof {
        let a0 = choose|a0: int| 0 <= a0 <= s.len() && prefix_width(s, a0) == 4;
        if a > 0 {
            lemma_prefix_width_step(s, a - 1);
        }
        if a0 < a {
            lemma_prefix_width_mono(s, a0, a - 1);
        } else if a0 > a {
            lemma_prefix_width_mono(s, a as int, a0);
        }
        assert(a0 == a);
    }
    // the last 4 bytes start at character `b`
    let mut b: usize = n;
    let mut tail: usize = 0;
    while tail < 4
        invariant
            n == v.len(),
            s == v@,
            b <= n,
            tail == byte_len(s) - prefix_width(s, b as int),
            b < n ==> byte_len(s) - prefix_width(s, b + 1) < 4,
            byte_len(s) > 8,
        decreases b,
    {
        if b == 0 {
            assert(false);
        }
        proof {
            lemma_prefix_width_step(s, b - 1);
        }
        b -= 1;
        tail = tail + width_of(v[b]);
    }
    proof {
        let b0 = choose|b0: int| 0 <= b0 <= s.len() && byte_len(s) - prefix_width(s, b0) == 4;
        if b < n {
            lemma_prefix_width_step(s, b as int);
        }
        if b0 > b {
            lemma_prefix_width_mono(s, b + 1, b0);
        } else if b0 < b {
            lemma_prefix_width_mono(s, b0, b as int);
        }
        assert(b0 == b);
    }
    let mut out = crate::text::slice_chars(&v, 0, a);
    out.push('…');
    let rest = crate::text::slice_chars(&v, b, n);
    let joined = crate::text::concat_chars(&out, &rest);
    string_of(&joined)
}

/// Whether the value can be shortened (see `obfuscation_defined`).
pub fn can_obfuscate(value: &String) -> (r: bool)
    ensures
        r == obfuscation_defined(value@),
{
    let v = chars_of(value.as_str());
    let n = v.len();
    let ghost s = v@;
    let mut capped: usize = 0;
    let mut i: usize = 0;
    while i < n
        invariant
            n == v.len(),
            s == v@,
            s == value@,
            i <= n,
            capped == if prefix_width(s, i as int) < 9 { prefix_width(s, i as int) } else { 9 },
        decreases n - i,
    {
        proof {
            lemma_prefix_width_step(s, i as int);
        }
        let w = width_of(v[i]);
        if capped < 9 {
            capped = if capped + w < 9 { capped + w } else { 9 };
        }
        i += 1;
    }
    if capped <= 8 {
        return true;
    }
    // is there a character boundary 4 bytes in?
    let mut a: usize = 0;
    let mut head: usize = 0;
    while head < 4
        invariant
            n == v.len(),
            s == v@,
            a <= n,
            head == prefix_width(s, a as int),
            a > 0 ==> prefix_width(s, a - 1) < 4,
            byte_len(s) > 8,
        decreases n - a,
    {
        if a == n {
            assert(false);
        }
        proof {
            lemma_prefix_width_step(s, a as int);
        }
        head = head + width_of(v[a]);
        a += 1;
    }
    let head_ok = head == 4;
    proof {
        if !head_ok {
            assert forall|a0: int| 0 <= a0 <= s.len() implies prefix_width(s, a0) != 4 by {
                if a > 0 {
                    lemma_prefix_width_step(s, a - 1);
                }
                if a0 < a {
                    lemma_prefix_width_mono(s, a0, a - 1);
                } else if a0 > a {
                    lemma_prefix_width_mono(s, a as int, a0);
                }
            }
        }
    }
    // and one 4 bytes before the end?
    let mut b: usize = n;
    let mut tail: usize = 0;
    while tail < 4
        invariant
            n == v.len(),
            s == v@,
            b <= n,
            tail == byte_len(s) - prefix_width(s, b as int),
            b < n ==> byte_len(s) - prefix_width(s, b + 1) < 4,
            byte_len(s) > 8,
        decreases b,
    {
        if b == 0 {
            assert(false);
        }
        proof {
            lemma_prefix_width_step(s, b - 1);
        }
        b -= 1;
        tail = tail + width_of(v[b]);
    }
    let tail_ok = tail == 4;
    proof {
        if !tail_ok {
            assert forall|b0: int| 0 <= b0 <= s.len() implies byte_len(s) - prefix_width(s, b0) != 4 by {
                if b < n {
                    lemma_prefix_width_step(s, b as int);
                }
                if b0 > b {
                    lemma_prefix_width_mono(s, b + 1, b0);
                } else if b0 < b {
                    lemma_prefix_width_mono(s, b0, b as int);
                }
            }
        }
    }
    head_ok && tail_ok
}

/// The at most 16 first characters of a value.
pub fn first_chars16(value: &String) -> (r: String)
    ensures
        r@ == first16(value@),
{
    let v = chars_of(value.as_str());
    if v.len() <= 16 {
        string_of(&v)
    } else {
        string_of(&crate::text::slice_chars(&v, 0, 16))
    }
}

/// What the key list shows after a key's name: its shortened value; while
/// the values are still being read and there is none yet, a dash; a key
/// with no value, "(empty)".
pub open spec fn value_label(obfuscated: Seq<char>, loading: bool) -> Seq<char> {
    if obfuscated.len() == 0 {
        if loading {
            "\u{2014}"@
        } else {
            "(empty)"@
        }
    } else {
        obfuscated
    }
}

/// The text the key list shows for a key's value.
pub fn key_value_label(obfuscated: &str, loading: bool) -> (r: String)
    ensures
        r@ == value_label(obfuscated@, loading),
{
    let v = chars_of(obfuscated);
    if v.len() == 0 {
        if loading {
            String::from_str("\u{2014}")
        } else {
            String::from_str("(empty)")
        }
    } else {
        String::from_str(obfuscated)
    }
}

/// One bullet for each byte of the value, as the add-secret dialog hides a
/// typed value.
pub open spec fn masked(s: Seq<char>) -> Seq<char> {
    Seq::new(byte_len(s), |i: int| '\u{2022}')
}

/// The typed value hidden behind bullets, one per byte.
pub fn mask(value: &str) -> (r: String)
    ensures
        r@ == masked(value@),
{
    let v = chars_of(value);
    let ghost s = v@;
    let mut out: Vec<char> = Vec::new();
    let mut i: usize = 0;
    while i < v.len()
        invariant
            s == v@,
            i <= v.len(),
            out@ =~= Seq::new(prefix_width(s, i as int), |t: int| '\u{2022}'),
        decreases v.len() - i,
    {
        let w = width_of(v[i]);
        let mut k: usize = 0;
        let ghost base = out@;
        while k < w
            invariant
                k <= w,
                base =~= Seq::new(prefix_width(s, i as int), |t: int| '\u{2022}'),
                out@ =~= base + Seq::new(k as nat, |t: int| '\u{2022}'),
            decreases w - k,
        {
            out.push('\u{2022}');
            k += 1;
        }
        proof {
            lemma_prefix_width_step(s, i as int);
        }
        i += 1;
    }
    string_of(&out)
}

/// The value line of the preview pane: the whole value; "loading..." while
/// the values are read and this one has not arrived; "(empty)" for a key
/// without a value.
pub open spec fn preview_line(full_value: Seq<char>, loading: bool) -> Seq<char> {
    if full_value.len() == 0 {
        if loading {
            "  loading..."@
        } else {
            "  (empty)"@
        }
    } else {
        "  "@ + full_value
    }
}

/// The text of the preview pane's value line.
pub fn preview_text(full_value: &str, loading: bool) -> (r: String)
    ensures
        r@ == preview_line(full_value@, loading),
{
    let v = chars_of(full_value);
    if v.len() == 0 {
        if loading {
            String::from_str("  loading...")
        } else {
            String::from_str("  (empty)")
        }
    } else {
        let mut s = String::from_str("  ");
        s.append(full_value);
        s
    }
}

} // verus!
