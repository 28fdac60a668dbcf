//! Which project names and key names the tool accepts.
use vstd::prelude::*;

use crate::text::{chars_of, contains_chars, contains_sub};

verus! {

/// Whether `c` has the Unicode `Alphabetic` or `Numeric` property, as
/// `char::is_alphanumeric` decides it.
pub uninterp spec fn unicode_alphanumeric(c: char) -> bool;

/// `char::is_alphanumeric`: true exactly for the characters that
/// `unicode_alphanumeric` names (Unicode `Alphabetic` or `Numeric`).
#[verifier::external_body]
pub(crate) fn is_alphanumeric(c: char) -> (r: bool)
    ensures
        r == unicode_alphanumeric(c),
{
    c.is_alphanumeric()
}

/// A character allowed in a project name.
/// For an ASCII character (where `char::is_alphanumeric` holds exactly for
/// the letters and digits) this is: a letter, a digit, `-` or `_`.
pub open spec fn is_project_char(c: char) -> bool {
    if (c as u32) < 0x80 {
        is_ascii_project_char(c)
    } else {
        unicode_alphanumeric(c)
    }
}

/// An ASCII letter, an ASCII digit, `-` or `_`.
pub open spec fn is_ascii_project_char(c: char) -> bool {
    ('a' <= c && c <= 'z') || ('A' <= c && c <= 'Z') || ('0' <= c && c <= '9') || c == '-' || c == '_'
}

/// The message of the first rule that `name` breaks, if any.
pub open spec fn project_name_problem(name: Seq<char>) -> Option<Seq<char>> {
    if name.len() == 0 {
        Some("project name cannot be empty"@)
    } else if name.contains('/') || name.contains('\\') || contains_sub(name, ".."@) {
        Some("project name contains invalid characters"@)
    } else if !(forall|i: int| 0 <= i < name.len() ==> is_project_char(#[trigger] name[i])) {
        Some("project name must be alphanumeric (hyphens and underscores allowed)"@)
    } else {
        None
    }
}

/// An ASCII uppercase letter.
pub open spec fn is_upper(c: char) -> bool {
    'A' <= c && c <= 'Z'
}

/// A character allowed first in a key name.
pub open spec fn is_key_start(c: char) -> bool {
    is_upper(c) || c == '_'
}

/// A character allowed after the first in a key name.
pub open spec fn is_key_char(c: char) -> bool {
    is_upper(c) || ('0' <= c && c <= '9') || c == '_'
}

/// `name` is a valid environment variable name for the tool.
pub open spec fn is_valid_key(name: Seq<char>) -> bool {
    &&& name.len() > 0
    &&& is_key_start(name[0])
    &&& forall|i: int| 1 <= i < name.len() ==> is_key_char(#[trigger] name[i])
}

/// The message of the first rule that the key name breaks, if any.
pub open spec fn key_name_problem(name: Seq<char>) -> Option<Seq<char>> {
    if name.len() == 0 {
        Some("key name cannot be empty"@)
    } else if !is_key_start(name[0]) {
        Some("key name must start with an uppercase ASCII letter or underscore"@)
    } else if !(forall|i: int| 1 <= i < name.len() ==> is_key_char(#[trigger] name[i])) {
        Some("key name must be uppercase ASCII alphanumeric or underscore"@)
    } else {
        None
    }
}

/// An accepted project name is not empty and its ASCII characters are
/// letters, digits, `-` and `_` only: it holds no `.`, no `/`, no `\\` and
/// no space, so it names a single file in the index directory.
pub proof fn lemma_accepted_project_name(name: Seq<char>)
    requires
        project_name_problem(name) is None,
    ensures
        name.len() > 0,
        forall|i: int| 0 <= i < name.len() && ((#[trigger] name[i]) as u32) < 0x80 ==> is_ascii_project_char(name[i]),
        !name.contains('.') && !name.contains('/') && !name.contains('\\') && !name.contains(' '),
{
    assert forall|i: int| 0 <= i < name.len() implies #[trigger] name[i] != '.' && name[i] != ' ' by {
        assert(is_project_char(name[i]));
    }
}

/// A valid key name is made of uppercase ASCII letters, ASCII digits and
/// underscores only, and does not start with a digit: it holds no
/// lowercase letter.
pub proof fn lemma_valid_key_characters(name: Seq<char>)
    requires
        is_valid_key(name),
    ensures
        name.len() > 0,
        !('0' <= name[0] && name[0] <= '9'),
        forall|i: int| 0 <= i < name.len() ==> ('A' <= #[trigger] name[i] && name[i] <= 'Z') || ('0'
            <= name[i] && name[i] <= '9') || name[i] == '_',
        forall|i: int| 0 <= i < name.len() ==> !('a' <= #[trigger] name[i] && name[i] <= 'z'),
{
    assert forall|i: int| 0 <= i < name.len() implies ('A' <= #[trigger] name[i] && name[i] <= 'Z') || ('0'
        <= name[i] && name[i] <= '9') || name[i] == '_' by {
        if i > 0 {
            assert(is_key_char(name[i]));
        }
    }
}

/// A key name breaks no rule exactly when it is a valid key name.
pub proof fn lemma_key_problem_valid(name: Seq<char>)
    ensures
        key_name_problem(name) is None <==> is_valid_key(name),
{
}

fn has_char(v: &Vec<char>, c: char) -> (r: bool)
    ensures
        r == v@.contains(c),
{
    let mut i: usize = 0;
    while i < v.len()
        invariant
            i <= v.len(),
            forall|t: int| 0 <= t < i ==> v@[t] != c,
        decreases v.len() - i,
    {
        if v[i] == c {
            assert(v@[i as int] == c);
            return true;
        }
        i += 1;
    }
    false
}

/// Checks a project name: non-empty, no path separators or `..`, and only
/// alphanumeric characters, hyphens and underscores.
#[verifier::loop_isolation(false)]
pub fn validate_project_name(name: &str) -> (r: Result<(), String>)
    ensures
        match r {
            Ok(()) => project_name_problem(name@) is None,
            Err(m) => project_name_problem(name@) == Some(m@),
        },
{
    let v = chars_of(name);
    if v.len() == 0 {
        return Err(String::from_str("project name cannot be empty"));
    }
    let dots = chars_of("..");
    if has_char(&v, '/') || has_char(&v, '\\') || contains_chars(&v, &dots) {
        return Err(String::from_str("project name contains invalid characters"));
    }
    let mut i: usize = 0;
    while i < v.len()
        invariant
            v@ == name@,
            i <= v.len(),
            forall|t: int| 0 <= t < i ==> is_project_char(#[trigger] v@[t]),
        decreases v.len() - i,
    {
        let c = v[i];
        let ok = if (c as u32) < 0x80 {
            ('a' <= c && c <= 'z') || ('A' <= c && c <= 'Z') || ('0' <= c && c <= '9') || c == '-'
                || c == '_'
        } else {
            is_alphanumeric(c)
        };
        if !ok {
            assert(!is_project_char(name@[i as int]));
            return Err(
                String::from_str(
                    "project name must be alphanumeric (hyphens and underscores allowed)",
                ),
            );
        }
        i += 1;
    }
    Ok(())
}

/// Whether `c` may start a key name.
pub fn key_start_char(c: char) -> (r: bool)
    ensures
        r == is_key_start(c),
{
    ('A' <= c && c <= 'Z') || c == '_'
}

/// Whether `c` may follow the first character of a key name.
pub fn key_char(c: char) -> (r: bool)
    ensures
        r == is_key_char(c),
{
    ('A' <= c && c <= 'Z') || ('0' <= c && c <= '9') || c == '_'
}

/// Whether the characters form a valid key name.
pub fn valid_key_chars(v: &Vec<char>) -> (r: bool)
    ensures
        r == is_valid_key(v@),
{
    if v.len() == 0 || !key_start_char(v[0]) {
        return false;
    }
    let mut i: usize = 1;
    while i < v.len()
        invariant
            1 <= i <= v.len(),
            forall|t: int| 1 <= t < i ==> is_key_char(#[trigger] v@[t]),
        decreases v.len() - i,
    {
        if !key_char(v[i]) {
            return false;
        }
        i += 1;
    }
    true
}

/// Checks an environment variable key name: an uppercase ASCII letter or
/// underscore, then uppercase ASCII letters, digits or underscores.
#[verifier::loop_isolation(false)]
pub fn validate_key_name(name: &str) -> (r: Result<(), String>)
    ensures
        match r {
            Ok(()) => key_name_problem(name@) is None,
            Err(m) => key_name_problem(name@) == Some(m@),
        },
        r is Ok <==> is_valid_key(name@),
{
    let v = chars_of(name);
    if v.len() == 0 {
        return Err(String::from_str("key name cannot be empty"));
    }
    if !key_start_char(v[0]) {
        return Err(String::from_str("key name must start with an uppercase ASCII letter or underscore"));
    }
    let mut i: usize = 1;
    while i < v.len()
        invariant
            v@ == name@,
            1 <= i <= v.len(),
            forall|t: int| 1 <= t < i ==> is_key_char(#[trigger] v@[t]),
        decreases v.len() - i,
    {
        if !key_char(v[i]) {
            assert(!is_key_char(name@[i as int]));
            return Err(String::from_str("key name must be uppercase ASCII alphanumeric or underscore"));
        }
        i += 1;
    }
    Ok(())
}

} // verus!
