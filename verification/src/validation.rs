//! Whitelist checks for ids, stored file names and dates, applied before a
//! value is joined into a file-system path.

use vstd::prelude::*;
use crate::text::{chars_of, to_string_of};
use vstd::string::StringSliceAdditionalSpecFns;
use chrono::Datelike;

verus! {

/// ASCII letter or digit.
pub open spec fn is_ascii_alnum(c: char) -> bool {
    ('a' <= c && c <= 'z') || ('A' <= c && c <= 'Z') || ('0' <= c && c <= '9')
}

pub open spec fn is_id_char(c: char) -> bool {
    is_ascii_alnum(c) || c == '_' || c == '-'
}

pub open spec fn is_filename_char(c: char) -> bool {
    is_id_char(c) || c == '.'
}

pub open spec fn all_id_chars(s: Seq<char>) -> bool {
    forall|i: int| 0 <= i < s.len() ==> is_id_char(#[trigger] s[i])
}

pub open spec fn all_filename_chars(s: Seq<char>) -> bool {
    forall|i: int| 0 <= i < s.len() ==> is_filename_char(#[trigger] s[i])
}

fn char_is_id(c: char) -> (r: bool)
    ensures
        r == is_id_char(c),
{
    ('a' <= c && c <= 'z') || ('A' <= c && c <= 'Z') || ('0' <= c && c <= '9') || c == '_' || c == '-'
}

/// Checks a record id: non-empty, at most 255 bytes, and only ASCII letters,
/// digits, `_` and `-` (so no separator, dot or traversal can appear).
pub fn validate_id(id: &str) -> (r: Result<(), String>)
    ensures
        id@.len() == 0 ==> r == Err::<(), String>(r->Err_0) && r->Err_0@ == "ID 不能为空"@,
        id@.len() != 0 && id.len() > 255 ==> r is Err && r->Err_0@ == "ID 长度超过限制（最大 255）"@,
        id@.len() != 0 && id.len() <= 255 && !all_id_chars(id@) ==> r is Err
            && r->Err_0@ == "ID 包含非法字符（只允许字母、数字、下划线、连字符）"@,
        r is Ok <==> (id@.len() != 0 && id.len() <= 255 && all_id_chars(id@)),
{
    if id.is_empty() {
        return Err(to_string_of("ID 不能为空"));
    }
    if id.len() > 255 {
        return Err(to_string_of("ID 长度超过限制（最大 255）"));
    }
    let v = chars_of(id);
    for i in 0..v.len()
        invariant
            v@ == id@,
            id@.len() != 0,
            id.len() <= 255,
            forall|j: int| 0 <= j < i ==> is_id_char(#[trigger] v@[j]),
    {
        if !char_is_id(v[i]) {
            return Err(to_string_of("ID 包含非法字符（只允许字母、数字、下划线、连字符）"));
        }
    }
    Ok(())
}

/// Whether `s` holds the two-character sequence `..`.
pub open spec fn has_dot_dot(s: Seq<char>) -> bool {
    exists|i: int| 0 <= i && i + 1 < s.len() && s[i] == '.' && #[trigger] s[i + 1] == '.'
}

/// Whether `s` holds a path separator, a NUL or `..`.
pub open spec fn has_path_chars(s: Seq<char>) -> bool {
    s.contains('/') || s.contains('\\') || s.contains('\0') || has_dot_dot(s)
}

/// The text after the last `.` of `s` (all of `s` when there is none).
pub open spec fn extension(s: Seq<char>) -> Seq<char>
    decreases s.len(),
{
    if s.len() == 0 {
        s
    } else if s.last() == '.' {
        Seq::empty()
    } else {
        extension(s.drop_last()).push(s.last())
    }
}

pub open spec fn allowed_extension(e: Seq<char>) -> bool {
    e == "toml"@ || e == "js"@ || e == "json"@ || e == "md"@
}

/// Whether the name has an extension (a `.`) and it is one of `toml`, `js`,
/// `json`, `md`.
pub open spec fn has_allowed_extension(s: Seq<char>) -> bool {
    s.contains('.') && allowed_extension(extension(s))
}

fn extension_of(v: &Vec<char>) -> (r: Vec<char>)
    ensures
        r@ == extension(v@),
{
    let mut start: usize = v.len();
    assert(v@.take(start as int) =~= v@);
    assert(v@.subrange(start as int, v@.len() as int) =~= Seq::<char>::empty());
    while start > 0 && v[start - 1] != '.'
        invariant
            start <= v@.len(),
            extension(v@) == extension(v@.take(start as int)) + v@.subrange(start as int, v@.len() as int),
        decreases start,
    {
        assert(v@.take(start as int).drop_last() =~= v@.take(start - 1));
        assert(v@.subrange(start - 1, v@.len() as int) =~= seq![v@[start - 1]] + v@.subrange(start as int, v@.len() as int));
        start = start - 1;
    }
    if start > 0 {
        assert(v@.take(start as int).last() == '.');
    }
    assert(extension(v@.take(start as int)) =~= Seq::<char>::empty());
    let mut r: Vec<char> = Vec::new();
    let mut i = start;
    while i < v.len()
        invariant
            start <= i <= v@.len(),
            r@ == v@.subrange(start as int, i as int),
        decreases v@.len() - i,
    {
        r.push(v[i]);
        assert(v@.subrange(start as int, i + 1) =~= v@.subrange(start as int, i as int).push(v@[i as int]));
        i = i + 1;
    }
    assert(extension(v@) =~= r@);
    r
}

fn is_allowed_ext(e: &Vec<char>) -> (r: bool)
    ensures
        r == allowed_extension(e@),
{
    let toml = chars_of("toml");
    let js = chars_of("js");
    let json = chars_of("json");
    let md = chars_of("md");
    crate::text::chars_eq(e, &toml) || crate::text::chars_eq(e, &js) || crate::text::chars_eq(e, &json)
        || crate::text::chars_eq(e, &md)
}

/// Checks a stored file name: non-empty, at most 255 bytes, no separator,
/// NUL or `..`, an extension (after a `.`) among `toml`, `js`, `json`, `md`, and only
/// ASCII letters, digits, `_`, `-` and `.`.
pub fn validate_filename(name: &str) -> (r: Result<(), String>)
    ensures
        name@.len() == 0 ==> r is Err && r->Err_0@ == "文件名不能为空"@,
        name@.len() != 0 && name.len() > 255 ==> r is Err
            && r->Err_0@ == "文件名长度超过限制（最大 255）"@,
        name@.len() != 0 && name.len() <= 255 && has_path_chars(name@) ==> r is Err
            && r->Err_0@ == "文件名包含非法路径字符"@,
        name@.len() != 0 && name.len() <= 255 && !has_path_chars(name@)
            && !has_allowed_extension(name@) ==> r is Err
            && r->Err_0@ == "不支持的文件扩展名（仅允许: [\"toml\", \"js\", \"json\", \"md\"]）"@,
        name@.len() != 0 && name.len() <= 255 && !has_path_chars(name@)
            && has_allowed_extension(name@) && !all_filename_chars(name@) ==> r is Err
            && r->Err_0@ == "文件名包含非法字符"@,
        r is Ok <==> (name@.len() != 0 && name.len() <= 255 && !has_path_chars(name@)
            && has_allowed_extension(name@) && all_filename_chars(name@)),
{
    if name.is_empty() {
        return Err(to_string_of("文件名不能为空"));
    }
    if name.len() > 255 {
        return Err(to_string_of("文件名长度超过限制（最大 255）"));
    }
    let v = chars_of(name);
    let mut i: usize = 0;
    while i < v.len()
        invariant
            v@ == name@,
            0 <= i <= v@.len(),
            forall|j: int| 0 <= j < i ==> v@[j] != '/' && v@[j] != '\\' && v@[j] != '\0',
            forall|j: int| 0 <= j < i && j + 1 < v@.len() ==> !(v@[j] == '.' && #[trigger] v@[j + 1] == '.'),
            name@.len() != 0,
            name.len() <= 255,
        decreases v@.len() - i,
    {
        let c = v[i];
        if c == '/' || c == '\\' || c == '\0' || (c == '.' && i + 1 < v.len() && v[i + 1] == '.') {
            proof {
                if c == '.' && i + 1 < v.len() && v@[i + 1] == '.' {
                    assert(v@[i as int] == '.' && v@[i + 1] == '.');
                } else {
                    assert(v@[i as int] == c);
                }
            }
            return Err(to_string_of("文件名包含非法路径字符"));
        }
        i = i + 1;
    }
    assert(!has_path_chars(name@)) by {
        if name@.contains('/') {
            let k = choose|k: int| 0 <= k < name@.len() && name@[k] == '/';
        }
        if name@.contains('\\') {
            let k = choose|k: int| 0 <= k < name@.len() && name@[k] == '\\';
        }
        if name@.contains('\0') {
            let k = choose|k: int| 0 <= k < name@.len() && name@[k] == '\0';
        }
    }
    let ext = extension_of(&v);
    if !crate::text::contains_char(&v, '.') || !is_allowed_ext(&ext) {
        return Err(to_string_of("不支持的文件扩展名（仅允许: [\"toml\", \"js\", \"json\", \"md\"]）"));
    }
    for k in 0..v.len()
        invariant
            v@ == name@,
            name@.len() != 0,
            name.len() <= 255,
            !has_path_chars(name@),
            has_allowed_extension(name@),
            forall|j: int| 0 <= j < k ==> is_filename_char(#[trigger] v@[j]),
    {
        if !(char_is_id(v[k]) || v[k] == '.') {
            return Err(to_string_of("文件名包含非法字符"));
        }
    }
    Ok(())
}

pub open spec fn is_digit(c: char) -> bool {
    '0' <= c && c <= '9'
}

pub open spec fn digit_val(c: char) -> int {
    (c as int) - ('0' as int)
}

/// `YYYY-MM-DD` shape: ten characters, `-` at positions 4 and 7, digits elsewhere.
pub open spec fn date_shape(s: Seq<char>) -> bool {
    &&& s.len() == 10
    &&& s[4] == '-'
    &&& s[7] == '-'
    &&& forall|i: int| 0 <= i < 10 && i != 4 && i != 7 ==> is_digit(#[trigger] s[i])
}

pub open spec fn date_year(s: Seq<char>) -> int {
    digit_val(s[0]) * 1000 + digit_val(s[1]) * 100 + digit_val(s[2]) * 10 + digit_val(s[3])
}

pub open spec fn date_month(s: Seq<char>) -> int {
    digit_val(s[5]) * 10 + digit_val(s[6])
}

pub open spec fn date_day(s: Seq<char>) -> int {
    digit_val(s[8]) * 10 + digit_val(s[9])
}

pub open spec fn is_leap_year(y: int) -> bool {
    y % 4 == 0 && (y % 100 != 0 || y % 400 == 0)
}

pub open spec fn days_in_month(y: int, m: int) -> int {
    if m == 2 {
        if is_leap_year(y) { 29 } else { 28 }
    } else if m == 4 || m == 6 || m == 9 || m == 11 {
        30
    } else {
        31
    }
}

/// A real date of the proleptic Gregorian calendar.
pub open spec fn valid_ymd(y: int, m: int, d: int) -> bool {
    1 <= m <= 12 && 1 <= d <= days_in_month(y, m)
}

/// Parses `YYYY-MM-DD` text with `chrono::NaiveDate::parse_from_str(.., "%Y-%m-%d")`
/// and gives the year. For text of that shape chrono reads four year digits,
/// two month digits and two day digits and accepts exactly the real calendar dates.
#[verifier::external_body]
fn parse_date_year(date: &str) -> (r: Option<i32>)
    requires
        date_shape(date@),
    ensures
        r == (if valid_ymd(date_year(date@), date_month(date@), date_day(date@)) {
            Some(date_year(date@) as i32)
        } else {
            None
        }),
{
    match chrono::NaiveDate::parse_from_str(date, "%Y-%m-%d") {
        Ok(d) => Some(d.year()),
        Err(_) => None,
    }
}

fn has_date_shape(v: &Vec<char>) -> (r: bool)
    ensures
        r == date_shape(v@),
{
    if v.len() != 10 || v[4] != '-' || v[7] != '-' {
        return false;
    }
    for i in 0..10
        invariant
            v@.len() == 10,
            forall|j: int| 0 <= j < i && j != 4 && j != 7 ==> is_digit(#[trigger] v@[j]),
    {
        if i != 4 && i != 7 && !('0' <= v[i] && v[i] <= '9') {
            return false;
        }
    }
    true
}

/// Checks a `YYYY-MM-DD` date: exactly that shape, a real calendar date,
/// and a year from 1900 to 2100.
pub fn validate_date_format(date: &str) -> (r: Result<(), String>)
    ensures
        (date.len() != 10 || !date_shape(date@)) ==> r is Err && r->Err_0@ == "日期格式无效（要求 YYYY-MM-DD）"@,
        date.len() == 10 && date_shape(date@) && !valid_ymd(date_year(date@), date_month(date@), date_day(date@))
            ==> r is Err && r->Err_0@ == "日期无效"@,
        date.len() == 10 && date_shape(date@) && valid_ymd(date_year(date@), date_month(date@), date_day(date@))
            && !(1900 <= date_year(date@) <= 2100) ==> r is Err && r->Err_0@ == "年份超出有效范围（1900-2100）"@,
        r is Ok <==> (date.len() == 10 && date_shape(date@)
            && valid_ymd(date_year(date@), date_month(date@), date_day(date@))
            && 1900 <= date_year(date@) <= 2100),
{
    if date.len() != 10 {
        return Err(to_string_of("日期格式无效（要求 YYYY-MM-DD）"));
    }
    let v = chars_of(date);
    if !has_date_shape(&v) {
        return Err(to_string_of("日期格式无效（要求 YYYY-MM-DD）"));
    }
    let year = match parse_date_year(date) {
        Some(y) => y,
        None => {
            return Err(to_string_of("日期无效"));
        },
    };
    assert(0 <= date_year(date@) <= 9999) by {
        assert(is_digit(date@[0]) && is_digit(date@[1]) && is_digit(date@[2]) && is_digit(date@[3]));
    }
    if !(1900 <= year && year <= 2100) {
        return Err(to_string_of("年份超出有效范围（1900-2100）"));
    }
    Ok(())
}

} // verus!
