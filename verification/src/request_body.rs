//! The body of an outgoing request: multipart form data, URL-encoded
//! forms, a binary file or raw text, with its content type.

use vstd::prelude::*;
use vstd::utf8::encode_utf8;
use crate::models::{FormField, FormFieldView, FileInfo, opt_form_views, form_views};
use crate::text::{chars_of, string_of, str_eq, append_chars};

verus! {

// ---------------------------------------------------------------- outside calls

/// A random number from the thread-local generator (`rand::random::<u64>`).
/// Nothing is claimed of the value.
#[verifier::external_body]
fn random_u64() -> (r: u64) {
    rand::random::<u64>()
}

/// Whether a byte is left as it is by percent-encoding: an ASCII letter or
/// digit, or one of `-`, `.`, `_`, `~`.
pub open spec fn is_unreserved(b: u8) -> bool {
    (48 <= b && b <= 57) || (65 <= b && b <= 90) || (97 <= b && b <= 122) || b == 45 || b == 46 || b == 95
        || b == 126
}

/// Upper-case hexadecimal digit of `d` (`0..16`).
pub open spec fn hex_upper(d: int) -> char {
    if d == 0 { '0' } else if d == 1 { '1' } else if d == 2 { '2' } else if d == 3 { '3' }
    else if d == 4 { '4' } else if d == 5 { '5' } else if d == 6 { '6' } else if d == 7 { '7' }
    else if d == 8 { '8' } else if d == 9 { '9' } else if d == 10 { 'A' } else if d == 11 { 'B' }
    else if d == 12 { 'C' } else if d == 13 { 'D' } else if d == 14 { 'E' } else { 'F' }
}

/// One byte percent-encoded.
pub open spec fn percent_byte(b: u8) -> Seq<char> {
    if is_unreserved(b) {
        seq![b as char]
    } else {
        seq!['%', hex_upper((b / 16) as int), hex_upper((b % 16) as int)]
    }
}

/// Bytes percent-encoded one by one.
pub open spec fn percent_encode(bytes: Seq<u8>) -> Seq<char>
    decreases bytes.len(),
{
    if bytes.len() == 0 {
        Seq::empty()
    } else {
        percent_encode(bytes.drop_last()) + percent_byte(bytes.last())
    }
}

/// Percent-encodes the UTF-8 bytes of `s` (`urlencoding::encode`): every
/// byte but ASCII letters, digits and `-._~` becomes `%` and two upper-case
/// hexadecimal digits.
#[verifier::external_body]
pub(crate) fn url_encode(s: &str) -> (r: String)
    ensures
        r@ == percent_encode(encode_utf8(s@)),
{
    urlencoding::encode(s).into_owned()
}

// ---------------------------------------------------------------- files

/// What reading a file attached to the request gave.
#[derive(Debug)]
pub enum FileRead {
    /// No file at that path.
    Missing,
    /// The file's bytes.
    Bytes(Vec<u8>),
    /// The file exists but could not be read; the text of the error.
    Failed(String),
}

pub enum FileReadView {
    Missing,
    Bytes(Seq<u8>),
    Failed(Seq<char>),
}

impl View for FileRead {
    type V = FileReadView;

    open spec fn view(&self) -> FileReadView {
        match self {
            FileRead::Missing => FileReadView::Missing,
            FileRead::Bytes(b) => FileReadView::Bytes(b@),
            FileRead::Failed(e) => FileReadView::Failed(e@),
        }
    }
}

/// What was read at `path`: the first entry for that path, a missing file
/// when there is none.
pub open spec fn lookup_file(table: Seq<(String, FileRead)>, path: Seq<char>) -> FileReadView
    decreases table.len(),
{
    if table.len() == 0 {
        FileReadView::Missing
    } else if table[0].0@ == path {
        table[0].1@
    } else {
        lookup_file(table.drop_first(), path)
    }
}

fn find_file<'a>(table: &'a Vec<(String, FileRead)>, path: &str) -> (r: Option<&'a FileRead>)
    ensures
        match r {
            Some(f) => f@ == lookup_file(table@, path@),
            None => lookup_file(table@, path@) is Missing,
        },
{
    let mut i: usize = 0;
    assert(table@.skip(0) =~= table@);
    while i < table.len()
        invariant
            i <= table@.len(),
            lookup_file(table@, path@) == lookup_file(table@.skip(i as int), path@),
        decreases table@.len() - i,
    {
        assert(table@.skip(i as int)[0] == table@[i as int]);
        assert(table@.skip(i as int).drop_first() =~= table@.skip(i + 1));
        if str_eq(table[i].0.as_str(), path) {
            return Some(&table[i].1);
        }
        i = i + 1;
    }
    None
}

// ---------------------------------------------------------------- bytes

pub open spec fn prepend_ok(p: Seq<u8>, r: Result<Seq<u8>, Seq<char>>) -> Result<Seq<u8>, Seq<char>> {
    match r {
        Ok(x) => Ok(p + x),
        Err(e) => Err(e),
    }
}

/// Appends the UTF-8 bytes of `s`.
fn push_str_bytes(buf: &mut Vec<u8>, s: &str)
    ensures
        final(buf)@ == old(buf)@ + encode_utf8(s@),
{
    let b = s.as_bytes();
    let n = b.len();
    for i in 0..n
        invariant
            n == b@.len(),
            b@ == encode_utf8(s@),
            buf@ == old(buf)@ + b@.take(i as int),
    {
        buf.push(b[i]);
        assert(b@.take(i + 1) =~= b@.take(i as int).push(b@[i as int]));
    }
    assert(b@.take(n as int) =~= b@);
}

/// Appends the UTF-8 bytes of the characters `v`.
fn push_chars_bytes(buf: &mut Vec<u8>, v: &Vec<char>)
    ensures
        final(buf)@ == old(buf)@ + encode_utf8(v@),
{
    let s = string_of(v);
    push_str_bytes(buf, s.as_str());
}

/// Appends raw bytes.
fn push_bytes(buf: &mut Vec<u8>, b: &Vec<u8>)
    ensures
        final(buf)@ == old(buf)@ + b@,
{
    for i in 0..b.len()
        invariant
            buf@ == old(buf)@ + b@.take(i as int),
    {
        buf.push(b[i]);
        assert(b@.take(i + 1) =~= b@.take(i as int).push(b@[i as int]));
    }
    assert(b@.take(b@.len() as int) =~= b@);
}

proof fn lemma_prepend_ok_assoc(a: Seq<u8>, b: Seq<u8>, r: Result<Seq<u8>, Seq<char>>)
    ensures
        prepend_ok(a, prepend_ok(b, r)) == prepend_ok(a + b, r),
{
    if let Ok(x) = r {
        assert(a + (b + x) =~= (a + b) + x);
    }
}

// ---------------------------------------------------------------- multipart

/// The opening line of a part: `--`, the boundary, CRLF.
pub open spec fn part_open(boundary: Seq<char>) -> Seq<u8> {
    encode_utf8("--"@ + boundary + "\r\n"@)
}

/// A text field as a part of a multipart body.
pub open spec fn text_part(boundary: Seq<char>, key: Seq<char>, value: Seq<char>) -> Seq<u8> {
    part_open(boundary)
        + encode_utf8("Content-Disposition: form-data; name=\""@ + key + "\"\r\n\r\n"@)
        + encode_utf8(value)
        + encode_utf8("\r\n"@)
}

/// A file as a part of a multipart body.
pub open spec fn file_part(boundary: Seq<char>, key: Seq<char>, name: Seq<char>, content: Seq<u8>) -> Seq<u8> {
    part_open(boundary)
        + encode_utf8("Content-Disposition: form-data; name=\""@ + key + "\"; filename=\""@ + name + "\"\r\n"@)
        + encode_utf8("Content-Type: application/octet-stream\r\n\r\n"@)
        + content
        + encode_utf8("\r\n"@)
}

/// The parts of the files `files[j..]` of a file field: missing files are
/// left out; a file that cannot be read stops the body with an error.
pub open spec fn file_parts_from(
    boundary: Seq<char>,
    key: Seq<char>,
    files: Seq<FileInfo>,
    j: int,
    table: Seq<(String, FileRead)>,
) -> Result<Seq<u8>, Seq<char>>
    decreases files.len() - j,
{
    if j < 0 || j >= files.len() {
        Ok(Seq::empty())
    } else {
        match lookup_file(table, files[j].path@) {
            FileReadView::Missing => file_parts_from(boundary, key, files, j + 1, table),
            FileReadView::Failed(e) => Err("读取文件失败: "@ + e),
            FileReadView::Bytes(c) => prepend_ok(
                file_part(boundary, key, files[j].name@, c),
                file_parts_from(boundary, key, files, j + 1, table),
            ),
        }
    }
}

/// The parts of one field: none for a disabled field or one without a key;
/// a text part for a `text` field; the parts of its files for a `file`
/// field; none for any other kind.
pub open spec fn field_parts(boundary: Seq<char>, f: FormFieldView, table: Seq<(String, FileRead)>) -> Result<Seq<u8>, Seq<char>> {
    if !f.enabled || f.key@.len() == 0 {
        Ok(Seq::empty())
    } else if f.field_type@ == "text"@ {
        Ok(text_part(boundary, f.key@, f.value@))
    } else if f.field_type@ == "file"@ {
        match f.files {
            Some(fl) => file_parts_from(boundary, f.key@, fl, 0, table),
            None => Ok(Seq::empty()),
        }
    } else {
        Ok(Seq::empty())
    }
}

/// The parts of the fields `fs[i..]`, in order.
pub open spec fn form_parts_from(boundary: Seq<char>, fs: Seq<FormFieldView>, i: int, table: Seq<(String, FileRead)>) -> Result<Seq<u8>, Seq<char>>
    decreases fs.len() - i,
{
    if i < 0 || i >= fs.len() {
        Ok(Seq::empty())
    } else {
        match field_parts(boundary, fs[i], table) {
            Err(e) => Err(e),
            Ok(p) => prepend_ok(p, form_parts_from(boundary, fs, i + 1, table)),
        }
    }
}

fn part_open_bytes(buf: &mut Vec<u8>, boundary: &Vec<char>)
    ensures
        final(buf)@ == old(buf)@ + part_open(boundary@),
{
    let mut v = chars_of("--");
    append_chars(&mut v, boundary);
    append_chars(&mut v, &chars_of("\r\n"));
    push_chars_bytes(buf, &v);
}

fn text_part_bytes(boundary: &Vec<char>, key: &str, value: &str) -> (r: Vec<u8>)
    ensures
        r@ == text_part(boundary@, key@, value@),
{
    let mut buf: Vec<u8> = Vec::new();
    part_open_bytes(&mut buf, boundary);
    let mut v = chars_of("Content-Disposition: form-data; name=\"");
    append_chars(&mut v, &chars_of(key));
    append_chars(&mut v, &chars_of("\"\r\n\r\n"));
    push_chars_bytes(&mut buf, &v);
    push_str_bytes(&mut buf, value);
    push_str_bytes(&mut buf, "\r\n");
    assert(buf@ =~= text_part(boundary@, key@, value@));
    buf
}

fn file_part_bytes(boundary: &Vec<char>, key: &str, name: &str, content: &Vec<u8>) -> (r: Vec<u8>)
    ensures
        r@ == file_part(boundary@, key@, name@, content@),
{
    let mut buf: Vec<u8> = Vec::new();
    part_open_bytes(&mut buf, boundary);
    let mut v = chars_of("Content-Disposition: form-data; name=\"");
    append_chars(&mut v, &chars_of(key));
    append_chars(&mut v, &chars_of("\"; filename=\""));
    append_chars(&mut v, &chars_of(name));
    append_chars(&mut v, &chars_of("\"\r\n"));
    push_chars_bytes(&mut buf, &v);
    push_str_bytes(&mut buf, "Content-Type: application/octet-stream\r\n\r\n");
    push_bytes(&mut buf, content);
    push_str_bytes(&mut buf, "\r\n");
    assert(buf@ =~= file_part(boundary@, key@, name@, content@));
    buf
}

fn file_parts_bytes(boundary: &Vec<char>, key: &str, files: &Vec<FileInfo>, table: &Vec<(String, FileRead)>) -> (r: Result<Vec<u8>, String>)
    ensures
        match file_parts_from(boundary@, key@, files@, 0, table@) {
            Ok(b) => r is Ok && r->Ok_0@ == b,
            Err(e) => r is Err && r->Err_0@ == e,
        },
{
    let mut buf: Vec<u8> = Vec::new();
    let mut j: usize = 0;
    while j < files.len()
        invariant
            j <= files@.len(),
            file_parts_from(boundary@, key@, files@, 0, table@)
                == prepend_ok(buf@, file_parts_from(boundary@, key@, files@, j as int, table@)),
        decreases files@.len() - j,
    {
        let ghost before = buf@;
        match find_file(table, files[j].path.as_str()) {
            None => {},
            Some(FileRead::Missing) => {},
            Some(FileRead::Failed(e)) => {
                return Err(crate::text::concat2("读取文件失败: ", e.as_str()));
            },
            Some(FileRead::Bytes(c)) => {
                let p = file_part_bytes(boundary, key, files[j].name.as_str(), c);
                push_bytes(&mut buf, &p);
                proof {
                    lemma_prepend_ok_assoc(before, p@, file_parts_from(boundary@, key@, files@, j + 1, table@));
                }
            },
        }
        j = j + 1;
    }
    assert(buf@ + Seq::<u8>::empty() =~= buf@);
    Ok(buf)
}

fn field_parts_bytes(boundary: &Vec<char>, f: &FormField, table: &Vec<(String, FileRead)>) -> (r: Result<Vec<u8>, String>)
    ensures
        match field_parts(boundary@, f@, table@) {
            Ok(b) => r is Ok && r->Ok_0@ == b,
            Err(e) => r is Err && r->Err_0@ == e,
        },
{
    if !f.enabled || f.key.as_str().is_empty() {
        return Ok(Vec::new());
    }
    if str_eq(f.field_type.as_str(), "text") {
        Ok(text_part_bytes(boundary, f.key.as_str(), f.value.as_str()))
    } else if str_eq(f.field_type.as_str(), "file") {
        match &f.files {
            Some(fl) => file_parts_bytes(boundary, f.key.as_str(), fl, table),
            None => Ok(Vec::new()),
        }
    } else {
        Ok(Vec::new())
    }
}

fn form_parts_bytes(boundary: &Vec<char>, fields: &Vec<FormField>, table: &Vec<(String, FileRead)>) -> (r: Result<Vec<u8>, String>)
    ensures
        match form_parts_from(boundary@, form_views(fields@), 0, table@) {
            Ok(b) => r is Ok && r->Ok_0@ == b,
            Err(e) => r is Err && r->Err_0@ == e,
        },
{
    let ghost fv = form_views(fields@);
    let mut buf: Vec<u8> = Vec::new();
    let mut i: usize = 0;
    while i < fields.len()
        invariant
            i <= fields@.len(),
            fv == form_views(fields@),
            form_parts_from(boundary@, fv, 0, table@) == prepend_ok(buf@, form_parts_from(boundary@, fv, i as int, table@)),
        decreases fields@.len() - i,
    {
        let ghost before = buf@;
        assert(fv[i as int] == fields@[i as int]@);
        match field_parts_bytes(boundary, &fields[i], table) {
            Err(e) => {
                return Err(e);
            },
            Ok(p) => {
                push_bytes(&mut buf, &p);
                proof {
                    lemma_prepend_ok_assoc(before, p@, form_parts_from(boundary@, fv, i + 1, table@));
                }
            },
        }
        i = i + 1;
    }
    assert(buf@ + Seq::<u8>::empty() =~= buf@);
    Ok(buf)
}

proof fn lemma_parts_same_tail(b: Seq<char>, s1: Seq<FormFieldView>, k1: int, s2: Seq<FormFieldView>, k2: int, table: Seq<(String, FileRead)>)
    requires
        0 <= k1 <= s1.len(),
        0 <= k2 <= s2.len(),
        s1.skip(k1) == s2.skip(k2),
    ensures
        form_parts_from(b, s1, k1, table) == form_parts_from(b, s2, k2, table),
    decreases s1.len() - k1,
{
    assert(s1.skip(k1).len() == s1.len() - k1);
    assert(s2.skip(k2).len() == s2.len() - k2);
    assert(s1.skip(k1).len() == s2.skip(k2).len());
    if k1 < s1.len() {
        assert(s1[k1] == s1.skip(k1)[0]);
        assert(s2[k2] == s2.skip(k2)[0]);
        assert(s1.skip(k1 + 1) =~= s1.skip(k1).drop_first());
        assert(s2.skip(k2 + 1) =~= s2.skip(k2).drop_first());
        lemma_parts_same_tail(b, s1, k1 + 1, s2, k2 + 1, table);
    }
}

proof fn lemma_parts_without_at(b: Seq<char>, a: Seq<FormFieldView>, f: FormFieldView, rest: Seq<FormFieldView>, table: Seq<(String, FileRead)>, i: int)
    requires
        !f.enabled || f.key@.len() == 0,
        0 <= i <= a.len(),
    ensures
        form_parts_from(b, a.push(f) + rest, i, table) == form_parts_from(b, a + rest, i, table),
    decreases a.len() - i,
{
    let s1 = a.push(f) + rest;
    let s2 = a + rest;
    if i < a.len() {
        assert(s1[i] == s2[i]);
        lemma_parts_without_at(b, a, f, rest, table, i + 1);
    } else {
        assert(s1[i] == f);
        assert(s1.skip(i + 1) =~= s2.skip(i));
        lemma_parts_same_tail(b, s1, i + 1, s2, i, table);
        let r = form_parts_from(b, s2, i, table);
        if let Ok(x) = r {
            assert(Seq::<u8>::empty() + x =~= x);
        }
    }
}

/// A disabled form field, or one without a key, adds nothing to a
/// multipart body: the parts of the fields are those of the same fields
/// with that one left out, whatever its kind, value or files.
pub proof fn lemma_disabled_field_adds_nothing(
    boundary: Seq<char>,
    before: Seq<FormFieldView>,
    f: FormFieldView,
    after: Seq<FormFieldView>,
    table: Seq<(String, FileRead)>,
)
    requires
        !f.enabled || f.key@.len() == 0,
    ensures
        form_parts_from(boundary, before.push(f) + after, 0, table) == form_parts_from(boundary, before + after, 0, table),
{
    lemma_parts_without_at(boundary, before, f, after, table, 0);
}

/// The same for the whole body: a `form-data` body is the one built with
/// the disabled field left out.
pub proof fn lemma_disabled_field_not_sent(
    body: Option<Seq<char>>,
    before: Seq<FormFieldView>,
    f: FormFieldView,
    after: Seq<FormFieldView>,
    table: Seq<(String, FileRead)>,
    nonce: u64,
)
    requires
        !f.enabled || f.key@.len() == 0,
    ensures
        request_body_spec(Some("form-data"@), body, Some(before.push(f) + after), table, nonce)
            == request_body_spec(Some("form-data"@), body, Some(before + after), table, nonce),
{
    lemma_parts_without_at(boundary_text(nonce), before, f, after, table, 0);
}

/// The parts of `first` followed by those of `then`: the first error met
/// stops the body.
pub open spec fn parts_then(first: Result<Seq<u8>, Seq<char>>, then: Result<Seq<u8>, Seq<char>>) -> Result<Seq<u8>, Seq<char>> {
    match first {
        Err(e) => Err(e),
        Ok(p) => prepend_ok(p, then),
    }
}

proof fn lemma_parts_concat_at(b: Seq<char>, x: Seq<FormFieldView>, y: Seq<FormFieldView>, table: Seq<(String, FileRead)>, i: int)
    requires
        0 <= i <= x.len(),
    ensures
        form_parts_from(b, x + y, i, table) == parts_then(form_parts_from(b, x, i, table), form_parts_from(b, y, 0, table)),
    decreases x.len() - i,
{
    let s = x + y;
    if i < x.len() {
        assert(s[i] == x[i]);
        lemma_parts_concat_at(b, x, y, table, i + 1);
        if let Ok(p) = field_parts(b, x[i], table) {
            if let Ok(q) = form_parts_from(b, x, i + 1, table) {
                lemma_prepend_ok_assoc(p, q, form_parts_from(b, y, 0, table));
            }
        }
    } else {
        assert(s.skip(i) =~= y.skip(0));
        lemma_parts_same_tail(b, s, i, y, 0, table);
        if let Ok(z) = form_parts_from(b, y, 0, table) {
            assert(Seq::<u8>::empty() + z =~= z);
        }
    }
}

/// The fields are sent in their order: the body of `x` followed by `y` is
/// the parts of `x` followed by the parts of `y`, the first error stopping
/// it.
pub proof fn lemma_parts_in_order(b: Seq<char>, x: Seq<FormFieldView>, y: Seq<FormFieldView>, table: Seq<(String, FileRead)>)
    ensures
        form_parts_from(b, x + y, 0, table) == parts_then(form_parts_from(b, x, 0, table), form_parts_from(b, y, 0, table)),
{
    lemma_parts_concat_at(b, x, y, table, 0);
}

/// An enabled text field with a key is sent as one text part under its
/// key, holding its value.
pub proof fn lemma_text_field_part(b: Seq<char>, f: FormFieldView, table: Seq<(String, FileRead)>)
    requires
        f.enabled,
        f.key@.len() > 0,
        f.field_type@ == "text"@,
    ensures
        form_parts_from(b, seq![f], 0, table) == Ok::<Seq<u8>, Seq<char>>(text_part(b, f.key@, f.value@)),
{
    let t = text_part(b, f.key@, f.value@);
    assert(form_parts_from(b, seq![f], 1, table) == Ok::<Seq<u8>, Seq<char>>(Seq::empty()));
    assert(t + Seq::<u8>::empty() =~= t);
}

// ---------------------------------------------------------------- boundary

/// Lower-case hexadecimal digit of `d` (`0..16`).
pub open spec fn hex_lower(d: int) -> char {
    if d == 0 { '0' } else if d == 1 { '1' } else if d == 2 { '2' } else if d == 3 { '3' }
    else if d == 4 { '4' } else if d == 5 { '5' } else if d == 6 { '6' } else if d == 7 { '7' }
    else if d == 8 { '8' } else if d == 9 { '9' } else if d == 10 { 'a' } else if d == 11 { 'b' }
    else if d == 12 { 'c' } else if d == 13 { 'd' } else if d == 14 { 'e' } else { 'f' }
}

/// The last `k` hexadecimal digits of `n`, most significant first
/// (`{:0k$x}` for `n < 16^k`).
pub open spec fn hex_digits(n: nat, k: nat) -> Seq<char>
    decreases k,
{
    if k == 0 {
        Seq::empty()
    } else {
        hex_digits(n / 16, (k - 1) as nat).push(hex_lower((n % 16) as int))
    }
}

/// The multipart boundary made from `nonce`: `----FmTester` and the nonce
/// as sixteen hexadecimal digits.
pub open spec fn boundary_text(nonce: u64) -> Seq<char> {
    "----FmTester"@ + hex_digits(nonce as nat, 16)
}

fn hex_lower_char(d: u64) -> (c: char)
    requires
        d < 16,
    ensures
        c == hex_lower(d as int),
{
    if d == 0 { '0' } else if d == 1 { '1' } else if d == 2 { '2' } else if d == 3 { '3' }
    else if d == 4 { '4' } else if d == 5 { '5' } else if d == 6 { '6' } else if d == 7 { '7' }
    else if d == 8 { '8' } else if d == 9 { '9' } else if d == 10 { 'a' } else if d == 11 { 'b' }
    else if d == 12 { 'c' } else if d == 13 { 'd' } else if d == 14 { 'e' } else { 'f' }
}

fn hex_chars(n: u64, k: u64) -> (r: Vec<char>)
    ensures
        r@ == hex_digits(n as nat, k as nat),
    decreases k,
{
    if k == 0 {
        Vec::new()
    } else {
        let mut r = hex_chars(n / 16, k - 1);
        r.push(hex_lower_char(n % 16));
        r
    }
}

fn boundary_chars(nonce: u64) -> (r: Vec<char>)
    ensures
        r@ == boundary_text(nonce),
{
    let mut r = chars_of("----FmTester");
    let h = hex_chars(nonce, 16);
    append_chars(&mut r, &h);
    r
}

// ---------------------------------------------------------------- url-encoded

/// The `key=value` pairs of the enabled fields with a key, both sides
/// percent-encoded.
pub open spec fn url_pairs(fs: Seq<FormFieldView>) -> Seq<Seq<char>>
    decreases fs.len(),
{
    if fs.len() == 0 {
        Seq::empty()
    } else {
        let f = fs.last();
        if f.enabled && f.key@.len() > 0 {
            url_pairs(fs.drop_last()).push(
                percent_encode(encode_utf8(f.key@)) + seq!['='] + percent_encode(encode_utf8(f.value@)),
            )
        } else {
            url_pairs(fs.drop_last())
        }
    }
}

/// Pieces joined with `&` between them.
pub open spec fn join_amp(pieces: Seq<Seq<char>>) -> Seq<char>
    decreases pieces.len(),
{
    if pieces.len() == 0 {
        Seq::empty()
    } else if pieces.len() == 1 {
        pieces[0]
    } else {
        join_amp(pieces.drop_last()) + seq!['&'] + pieces.last()
    }
}

fn url_encoded_body(fields: &Vec<FormField>) -> (r: Vec<char>)
    ensures
        r@ == join_amp(url_pairs(form_views(fields@))),
{
    let ghost fv = form_views(fields@);
    let mut out: Vec<char> = Vec::new();
    let mut count: usize = 0;
    let mut i: usize = 0;
    assert(fv.take(0) =~= Seq::<FormFieldView>::empty());
    while i < fields.len()
        invariant
            i <= fields@.len(),
            fv == form_views(fields@),
            count as int == url_pairs(fv.take(i as int)).len(),
            count <= i,
            out@ == join_amp(url_pairs(fv.take(i as int))),
        decreases fields@.len() - i,
    {
        assert(fv.take(i + 1).drop_last() =~= fv.take(i as int));
        assert(fv.take(i + 1).last() == fields@[i as int]@);
        let f = &fields[i];
        if f.enabled && !f.key.as_str().is_empty() {
            let k = url_encode(f.key.as_str());
            let v = url_encode(f.value.as_str());
            let mut piece = chars_of(k.as_str());
            piece.push('=');
            append_chars(&mut piece, &chars_of(v.as_str()));
            let ghost prev = url_pairs(fv.take(i as int));
            assert(piece@ =~= percent_encode(encode_utf8(f.key@)) + seq!['='] + percent_encode(encode_utf8(f.value@)));
            assert(url_pairs(fv.take(i + 1)) == prev.push(piece@));
            if count > 0 {
                out.push('&');
            }
            append_chars(&mut out, &piece);
            count = count + 1;
            proof {
                let now = prev.push(piece@);
                assert(now.drop_last() =~= prev);
                if prev.len() == 0 {
                    assert(out@ =~= now[0]);
                } else {
                    assert(out@ =~= join_amp(prev) + seq!['&'] + now.last());
                }
            }
        }
        i = i + 1;
    }
    assert(fv.take(fields@.len() as int) =~= fv);
    out
}

// ---------------------------------------------------------------- binary

/// The bytes of the first enabled `file` field whose first file exists;
/// none when there is no such field; an error when that file cannot be
/// read.
pub open spec fn binary_from(fs: Seq<FormFieldView>, i: int, table: Seq<(String, FileRead)>) -> Result<Option<Seq<u8>>, Seq<char>>
    decreases fs.len() - i,
{
    if i < 0 || i >= fs.len() {
        Ok(None)
    } else {
        let f = fs[i];
        if f.enabled && f.field_type@ == "file"@ && f.files is Some && f.files->Some_0.len() > 0 {
            match lookup_file(table, f.files->Some_0[0].path@) {
                FileReadView::Missing => binary_from(fs, i + 1, table),
                FileReadView::Failed(e) => Err("读取文件失败: "@ + e),
                FileReadView::Bytes(c) => Ok(Some(c)),
            }
        } else {
            binary_from(fs, i + 1, table)
        }
    }
}

fn binary_body(fields: &Vec<FormField>, table: &Vec<(String, FileRead)>) -> (r: Result<Option<Vec<u8>>, String>)
    ensures
        match binary_from(form_views(fields@), 0, table@) {
            Ok(None) => r is Ok && r->Ok_0 is None,
            Ok(Some(b)) => r is Ok && r->Ok_0 is Some && r->Ok_0->Some_0@ == b,
            Err(e) => r is Err && r->Err_0@ == e,
        },
{
    let ghost fv = form_views(fields@);
    let mut i: usize = 0;
    while i < fields.len()
        invariant
            i <= fields@.len(),
            fv == form_views(fields@),
            binary_from(fv, 0, table@) == binary_from(fv, i as int, table@),
        decreases fields@.len() - i,
    {
        let f = &fields[i];
        assert(fv[i as int] == f@);
        if f.enabled && str_eq(f.field_type.as_str(), "file") {
            match &f.files {
                Some(fl) => {
                    if fl.len() > 0 {
                        match find_file(table, fl[0].path.as_str()) {
                            None => {},
                            Some(FileRead::Missing) => {},
                            Some(FileRead::Failed(e)) => {
                                return Err(crate::text::concat2("读取文件失败: ", e.as_str()));
                            },
                            Some(FileRead::Bytes(c)) => {
                                let mut out: Vec<u8> = Vec::new();
                                push_bytes(&mut out, c);
                                return Ok(Some(out));
                            },
                        }
                    }
                },
                None => {},
            }
        }
        i = i + 1;
    }
    Ok(None)
}

// ---------------------------------------------------------------- the body

/// A built request body and the content type it calls for.
#[derive(Debug)]
pub struct BuiltBody {
    pub body: Option<Vec<u8>>,
    pub content_type: Option<String>,
}

pub open spec fn opt_bytes(o: Option<Vec<u8>>) -> Option<Seq<u8>> {
    match o {
        Some(b) => Some(b@),
        None => None,
    }
}

pub open spec fn opt_text(o: Option<String>) -> Option<Seq<char>> {
    match o {
        Some(s) => Some(s@),
        None => None,
    }
}

pub open spec fn opt_str_view(o: Option<&str>) -> Option<Seq<char>> {
    match o {
        Some(s) => Some(s@),
        None => None,
    }
}

/// The body and content type for a body kind (`raw` when none is given):
/// `form-data` gives a multipart body closed by `--boundary--`;
/// `x-www-form-urlencoded` the `&`-joined pairs; `binary` the bytes of the
/// first usable file; any other kind the raw text unless it is empty. The
/// three form kinds give nothing without form fields.
pub open spec fn request_body_spec(
    body_type: Option<Seq<char>>,
    body: Option<Seq<char>>,
    fields: Option<Seq<FormFieldView>>,
    table: Seq<(String, FileRead)>,
    nonce: u64,
) -> Result<(Option<Seq<u8>>, Option<Seq<char>>), Seq<char>> {
    let actual = match body_type {
        Some(t) => t,
        None => "raw"@,
    };
    if actual == "form-data"@ {
        match fields {
            None => Ok((None, None)),
            Some(fs) => {
                let b = boundary_text(nonce);
                match form_parts_from(b, fs, 0, table) {
                    Err(e) => Err(e),
                    Ok(p) => Ok((
                        Some(p + encode_utf8("--"@ + b + "--\r\n"@)),
                        Some("multipart/form-data; boundary="@ + b),
                    )),
                }
            },
        }
    } else if actual == "x-www-form-urlencoded"@ {
        match fields {
            None => Ok((None, None)),
            Some(fs) => Ok((Some(encode_utf8(join_amp(url_pairs(fs)))), Some("application/x-www-form-urlencoded"@))),
        }
    } else if actual == "binary"@ {
        match fields {
            None => Ok((None, None)),
            Some(fs) => match binary_from(fs, 0, table) {
                Err(e) => Err(e),
                Ok(None) => Ok((None, None)),
                Ok(Some(c)) => Ok((Some(c), Some("application/octet-stream"@))),
            },
        }
    } else {
        match body {
            Some(b) => if b.len() > 0 {
                Ok((Some(encode_utf8(b)), None))
            } else {
                Ok((None, None))
            },
            None => Ok((None, None)),
        }
    }
}

/// Whether a built result is the one specified.
pub open spec fn body_result_is(r: Result<BuiltBody, String>, s: Result<(Option<Seq<u8>>, Option<Seq<char>>), Seq<char>>) -> bool {
    match s {
        Ok((b, ct)) => r is Ok && opt_bytes(r->Ok_0.body) == b && opt_text(r->Ok_0.content_type) == ct,
        Err(e) => r is Err && r->Err_0@ == e,
    }
}

fn none_body() -> (r: BuiltBody)
    ensures
        r.body is None && r.content_type is None,
{
    BuiltBody { body: None, content_type: None }
}

/// Builds the body of a request with the multipart boundary made from
/// `nonce`. `files` holds what was read at each attached file's path.
pub fn assemble_request_body(
    body_type: Option<&str>,
    body: Option<&str>,
    form_fields: Option<Vec<FormField>>,
    files: &Vec<(String, FileRead)>,
    nonce: u64,
) -> (r: Result<BuiltBody, String>)
    ensures
        body_result_is(r, request_body_spec(opt_str_view(body_type), opt_str_view(body), opt_form_views(form_fields), files@, nonce)),
{
    let actual: &str = match body_type {
        Some(t) => t,
        None => "raw",
    };
    if str_eq(actual, "form-data") {
        match form_fields {
            None => Ok(none_body()),
            Some(fields) => {
                let b = boundary_chars(nonce);
                match form_parts_bytes(&b, &fields, files) {
                    Err(e) => Err(e),
                    Ok(mut buf) => {
                        let mut close = chars_of("--");
                        append_chars(&mut close, &b);
                        append_chars(&mut close, &chars_of("--\r\n"));
                        push_chars_bytes(&mut buf, &close);
                        let mut ct = chars_of("multipart/form-data; boundary=");
                        append_chars(&mut ct, &b);
                        assert(close@ =~= "--"@ + b@ + "--\r\n"@);
                        Ok(BuiltBody { body: Some(buf), content_type: Some(string_of(&ct)) })
                    },
                }
            },
        }
    } else if str_eq(actual, "x-www-form-urlencoded") {
        match form_fields {
            None => Ok(none_body()),
            Some(fields) => {
                let text = url_encoded_body(&fields);
                let mut buf: Vec<u8> = Vec::new();
                push_chars_bytes(&mut buf, &text);
                assert(buf@ =~= encode_utf8(text@));
                Ok(BuiltBody {
                    body: Some(buf),
                    content_type: Some(crate::text::to_string_of("application/x-www-form-urlencoded")),
                })
            },
        }
    } else if str_eq(actual, "binary") {
        match form_fields {
            None => Ok(none_body()),
            Some(fields) => match binary_body(&fields, files) {
                Err(e) => Err(e),
                Ok(None) => Ok(none_body()),
                Ok(Some(c)) => Ok(BuiltBody {
                    body: Some(c),
                    content_type: Some(crate::text::to_string_of("application/octet-stream")),
                }),
            },
        }
    } else {
        match body {
            Some(b) => {
                if !b.is_empty() {
                    let mut buf: Vec<u8> = Vec::new();
                    push_str_bytes(&mut buf, b);
                    assert(buf@ =~= encode_utf8(b@));
                    Ok(BuiltBody { body: Some(buf), content_type: None })
                } else {
                    Ok(none_body())
                }
            },
            None => Ok(none_body()),
        }
    }
}

/// Builds the body of a request, drawing a fresh random multipart boundary.
pub fn build_request_body(
    body_type: Option<&str>,
    body: Option<&str>,
    form_fields: Option<Vec<FormField>>,
    files: &Vec<(String, FileRead)>,
) -> (r: Result<BuiltBody, String>)
    ensures
        exists|nonce: u64|
            #[trigger] body_result_is(r, request_body_spec(opt_str_view(body_type), opt_str_view(body), opt_form_views(form_fields), files@, nonce)),
{
    let nonce = random_u64();
    let r = assemble_request_body(body_type, body, form_fields, files, nonce);
    assert(body_result_is(r, request_body_spec(opt_str_view(body_type), opt_str_view(body), opt_form_views(form_fields), files@, nonce)));
    r
}

/// The paths of the files attached to the fields, field after field.
pub open spec fn field_paths(fs: Seq<FormField>) -> Seq<String>
    decreases fs.len(),
{
    if fs.len() == 0 {
        Seq::empty()
    } else {
        field_paths(fs.drop_last()) + match fs.last().files {
            Some(fl) => fl@.map_values(|f: FileInfo| f.path),
            None => Seq::empty(),
        }
    }
}

/// The paths of all files attached to the form fields, in order: what to
/// read before building a `form-data` or `binary` body.
pub fn attached_file_paths(form_fields: &Option<Vec<FormField>>) -> (r: Vec<String>)
    ensures
        r@ == match form_fields {
            Some(f) => field_paths(f@),
            None => Seq::empty(),
        },
{
    let mut r: Vec<String> = Vec::new();
    match form_fields {
        None => {
            assert(r@ =~= Seq::<String>::empty());
        },
        Some(fields) => {
            for i in 0..fields.len()
                invariant
                    r@ == field_paths(fields@.take(i as int)),
            {
                assert(fields@.take(i + 1).drop_last() =~= fields@.take(i as int));
                assert(fields@.take(i + 1).last() == fields@[i as int]);
                let ghost base = r@;
                match &fields[i].files {
                    None => {
                        assert(base + Seq::<String>::empty() =~= base);
                    },
                    Some(fl) => {
                        for j in 0..fl.len()
                            invariant
                                r@ == base + fl@.take(j as int).map_values(|f: FileInfo| f.path),
                        {
                            let ghost before = r@;
                            r.push(fl[j].path.clone());
                            assert(fl@.take(j + 1).map_values(|f: FileInfo| f.path) =~= fl@.take(j as int).map_values(
                                |f: FileInfo| f.path,
                            ).push(fl@[j as int].path));
                            assert(r@ =~= base + fl@.take(j + 1).map_values(|f: FileInfo| f.path));
                        }
                        assert(fl@.take(fl@.len() as int) =~= fl@);
                    },
                }
                assert(r@ =~= field_paths(fields@.take(i + 1)));
            }
            assert(fields@.take(fields@.len() as int) =~= fields@);
        },
    }
    r
}

} // verus!
