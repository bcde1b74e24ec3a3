//! The log level, read from the `LOG_LEVEL` line of `./config/config.env`.

use vstd::prelude::*;
use crate::text::{chars_of, string_of, split_on, split_chars, char_vec_views, lemma_split_nonempty, index_of,
    find_char, take_chars, skip_chars, str_eq, to_string_of, chars_eq};
use crate::variables::{trim, trimmed_range};

verus! {

/// The text of `s` in lower case (`str::to_lowercase`).
pub uninterp spec fn lowercase_text(s: Seq<char>) -> Seq<char>;

/// `str::to_lowercase`: the lower-case form of the text by Unicode rules.
#[verifier::external_body]
pub(crate) fn to_lowercase(s: &str) -> (r: String)
    ensures
        r@ == lowercase_text(s@),
{
    s.to_lowercase()
}

/// The level used when the configuration names none.
pub const DEFAULT_LOG_LEVEL: &'static str = "info";

/// The code of a character with ASCII letters folded to lower case.
pub open spec fn ascii_lower(c: char) -> u32 {
    if 'A' <= c && c <= 'Z' {
        ((c as u32) + 32) as u32
    } else {
        c as u32
    }
}

/// Equal up to the case of ASCII letters (`eq_ignore_ascii_case`).
pub open spec fn eq_ignore_ascii_case(a: Seq<char>, b: Seq<char>) -> bool {
    a.len() == b.len() && forall|i: int| 0 <= i < a.len() ==> ascii_lower(#[trigger] a[i]) == ascii_lower(b[i])
}

/// The level a configuration line sets, if it is a `LOG_LEVEL=<level>` line
/// (the name in any ASCII case, blanks around name and level allowed,
/// comments and blank lines ignored).
pub open spec fn line_level(line: Seq<char>) -> Option<Seq<char>> {
    let l = trim(line);
    if l.len() == 0 || l[0] == '#' {
        None
    } else {
        match index_of(l, '=') {
            None => None,
            Some(i) => if eq_ignore_ascii_case(trim(l.take(i)), "LOG_LEVEL"@) && trim(l.skip(i + 1)).len() > 0 {
                Some(lowercase_text(trim(l.skip(i + 1))))
            } else {
                None
            },
        }
    }
}

/// The level of the first line that sets one, among `lines[i..]`.
pub open spec fn first_level(lines: Seq<Seq<char>>, i: int) -> Option<Seq<char>>
    decreases lines.len() - i,
{
    if i < 0 || i >= lines.len() {
        None
    } else {
        match line_level(lines[i]) {
            Some(v) => Some(v),
            None => first_level(lines, i + 1),
        }
    }
}

/// The configured level: that of the first `LOG_LEVEL` line, in lower
/// case, else `info`.
pub open spec fn configured_level(content: Seq<char>) -> Seq<char> {
    match first_level(split_on(content, '\n'), 0) {
        Some(v) => v,
        None => "info"@,
    }
}

fn ascii_lower_char(c: char) -> (r: u32)
    ensures
        r == ascii_lower(c),
{
    if 'A' <= c && c <= 'Z' {
        (c as u32) + 32
    } else {
        c as u32
    }
}

fn eq_ignore_case_chars(a: &Vec<char>, b: &str) -> (r: bool)
    ensures
        r == eq_ignore_ascii_case(a@, b@),
{
    let w = chars_of(b);
    if a.len() != w.len() {
        return false;
    }
    for i in 0..a.len()
        invariant
            w@ == b@,
            a@.len() == w@.len(),
            forall|j: int| 0 <= j < i ==> ascii_lower(#[trigger] a@[j]) == ascii_lower(w@[j]),
    {
        if ascii_lower_char(a[i]) != ascii_lower_char(w[i]) {
            return false;
        }
    }
    true
}

fn level_of_line(line: &Vec<char>) -> (r: Option<String>)
    ensures
        match line_level(line@) {
            Some(v) => r is Some && r->Some_0@ == v,
            None => r is None,
        },
{
    let l = trimmed_range(line, 0, line.len());
    assert(line@.subrange(0, line@.len() as int) =~= line@);
    if l.len() == 0 || l[0] == '#' {
        return None;
    }
    let ll = l.len();
    match find_char(&l, '=') {
        None => None,
        Some(i) => {
            assert(i < ll);
            let k0 = take_chars(&l, i);
            let key = trimmed_range(&k0, 0, k0.len());
            assert(k0@.subrange(0, k0@.len() as int) =~= k0@);
            let v0 = skip_chars(&l, i + 1);
            let value = trimmed_range(&v0, 0, v0.len());
            assert(v0@.subrange(0, v0@.len() as int) =~= v0@);
            if eq_ignore_case_chars(&key, "LOG_LEVEL") && value.len() > 0 {
                let v = string_of(&value);
                Some(to_lowercase(v.as_str()))
            } else {
                None
            }
        },
    }
}

/// The log level named by the configuration text, `info` when none is.
pub fn log_level_from_config(content: &str) -> (r: String)
    ensures
        r@ == configured_level(content@),
{
    let text = chars_of(content);
    let lines = split_chars(&text, '\n');
    let ghost lv = char_vec_views(lines@);
    let mut i: usize = 0;
    while i < lines.len()
        invariant
            i <= lines@.len(),
            lv == char_vec_views(lines@),
            lv == split_on(content@, '\n'),
            first_level(lv, 0) == first_level(lv, i as int),
        decreases lines@.len() - i,
    {
        assert(lv[i as int] == lines@[i as int]@);
        match level_of_line(&lines[i]) {
            Some(v) => {
                return v;
            },
            None => {},
        }
        i = i + 1;
    }
    proof {
        reveal_strlit("info");
    }
    to_string_of(DEFAULT_LOG_LEVEL)
}

/// The levels of the log.
#[derive(Debug, Clone, Copy, PartialEq, Eq, Structural)]
pub enum LogLevel {
    Trace,
    Debug,
    Info,
    Warn,
    Error,
}

/// The level a name stands for; an unknown name means `Info`.
pub open spec fn level_of(s: Seq<char>) -> LogLevel {
    if s == "trace"@ {
        LogLevel::Trace
    } else if s == "debug"@ {
        LogLevel::Debug
    } else if s == "info"@ {
        LogLevel::Info
    } else if s == "warn"@ {
        LogLevel::Warn
    } else if s == "error"@ {
        LogLevel::Error
    } else {
        LogLevel::Info
    }
}

/// The level a name stands for.
pub fn parse_level(s: &str) -> (r: LogLevel)
    ensures
        r == level_of(s@),
{
    if str_eq(s, "trace") {
        LogLevel::Trace
    } else if str_eq(s, "debug") {
        LogLevel::Debug
    } else if str_eq(s, "info") {
        LogLevel::Info
    } else if str_eq(s, "warn") {
        LogLevel::Warn
    } else if str_eq(s, "error") {
        LogLevel::Error
    } else {
        LogLevel::Info
    }
}

} // verus!
