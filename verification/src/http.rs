//! `Set-Cookie` parsing and shell quoting for copied commands.

use vstd::prelude::*;
use crate::models::Cookie;
use crate::text::{chars_eq, chars_of, string_of, char_vec_views, split_on, split_chars, lemma_split_nonempty, index_of,
    find_char, has_prefix, starts_with_chars, skip_chars, take_chars, to_string_of, append_chars, contains_char};
use crate::validation::{is_digit, digit_val};
use crate::variables::{trim, trimmed_range, replace_all, replace_chars, trim_start, trim_end};
use crate::text::is_ws;
use crate::ids::{is_rfc3339_text, local_now_rfc3339};

verus! {

// ---------------------------------------------------------------- numbers

/// The value of a run of decimal digits.
pub open spec fn digits_value(s: Seq<char>) -> nat
    decreases s.len(),
{
    if s.len() == 0 {
        0
    } else {
        (digits_value(s.drop_last()) * 10 + digit_val(s.last())) as nat
    }
}

pub open spec fn all_digits(s: Seq<char>) -> bool {
    forall|i: int| 0 <= i < s.len() ==> is_digit(#[trigger] s[i])
}

/// `u64::from_str`: an optional `+`, then one or more ASCII digits whose
/// value fits in 64 bits.
pub open spec fn parse_u64_spec(s: Seq<char>) -> Option<u64> {
    let d = if s.len() > 0 && s[0] == '+' { s.drop_first() } else { s };
    if d.len() > 0 && all_digits(d) && digits_value(d) <= u64::MAX {
        Some(digits_value(d) as u64)
    } else {
        None
    }
}

proof fn lemma_digits_prefix_le(s: Seq<char>, i: int)
    requires
        0 <= i <= s.len(),
        all_digits(s),
    ensures
        digits_value(s.take(i)) <= digits_value(s),
    decreases s.len() - i,
{
    if i < s.len() {
        lemma_digits_prefix_le(s, i + 1);
        assert(s.take(i + 1).drop_last() =~= s.take(i));
        assert(is_digit(s[i]));
    } else {
        assert(s.take(i) =~= s);
    }
}

/// Parses a decimal `u64` as `str::parse::<u64>` does, `None` on failure.
pub fn parse_u64(v: &Vec<char>) -> (r: Option<u64>)
    ensures
        r == parse_u64_spec(v@),
{
    let start: usize = if v.len() > 0 && v[0] == '+' { 1 } else { 0 };
    let ghost d = if v@.len() > 0 && v@[0] == '+' { v@.drop_first() } else { v@ };
    assert(d =~= v@.skip(start as int));
    if start >= v.len() {
        return None;
    }
    let mut acc: u64 = 0;
    let mut i = start;
    assert(d.take(0) =~= Seq::<char>::empty());
    while i < v.len()
        invariant
            start <= i <= v@.len(),
            d == v@.skip(start as int),
            d == (if v@.len() > 0 && v@[0] == '+' { v@.drop_first() } else { v@ }),
            forall|m: int| 0 <= m < i - start ==> is_digit(#[trigger] d[m]),
            acc as nat == digits_value(d.take(i - start)),
        decreases v@.len() - i,
    {
        let c = v[i];
        assert(d[i - start] == c);
        if !('0' <= c && c <= '9') {
            assert(!is_digit(d[i - start]));
            return None;
        }
        let dv = (c as u32 - '0' as u32) as u64;
        assert(d.take(i - start + 1).drop_last() =~= d.take(i - start));
        assert(d.take(i - start + 1).last() == c);
        assert(digits_value(d.take(i - start + 1)) == acc * 10 + dv);
        proof {
            if all_digits(d) {
                lemma_digits_prefix_le(d, i - start + 1);
            }
        }
        match acc.checked_mul(10) {
            None => {
                return None;
            },
            Some(x) => match x.checked_add(dv) {
                None => {
                    return None;
                },
                Some(y) => {
                    acc = y;
                },
            },
        }
        i = i + 1;
    }
    assert(d.take(d.len() as int) =~= d);
    Some(acc)
}

// ---------------------------------------------------------------- cookies

/// The attributes of a `Set-Cookie` line that follow the name and value.
pub struct CookieAttrs {
    pub domain: Seq<char>,
    pub path: Seq<char>,
    pub secure: bool,
    pub http_only: bool,
    pub expires: Option<Seq<char>>,
    pub max_age: Option<u64>,
}

/// A domain without one leading dot.
pub open spec fn strip_dot(d: Seq<char>) -> Seq<char> {
    if d.len() > 0 && d[0] == '.' {
        d.drop_first()
    } else {
        d
    }
}

/// The effect of one trimmed attribute `p`; the last of repeated
/// attributes wins, and unknown attributes are ignored.
pub open spec fn apply_attr(a: CookieAttrs, p: Seq<char>) -> CookieAttrs {
    if has_prefix(p, "Domain="@) {
        CookieAttrs { domain: strip_dot(p.skip("Domain="@.len() as int)), ..a }
    } else if has_prefix(p, "Path="@) {
        CookieAttrs { path: p.skip("Path="@.len() as int), ..a }
    } else if p == "Secure"@ {
        CookieAttrs { secure: true, ..a }
    } else if p == "HttpOnly"@ {
        CookieAttrs { http_only: true, ..a }
    } else if has_prefix(p, "Expires="@) {
        CookieAttrs { expires: Some(p.skip("Expires="@.len() as int)), ..a }
    } else if has_prefix(p, "Max-Age="@) {
        CookieAttrs { max_age: parse_u64_spec(p.skip("Max-Age="@.len() as int)), ..a }
    } else {
        a
    }
}

/// A `Domain=` attribute sets the domain to its value, changed only by
/// removing one leading dot: a value that does not start with `.` is kept
/// whole, and `.` followed by `w` gives `w`. No other attribute changes.
pub proof fn lemma_domain_attr(a: CookieAttrs, v: Seq<char>)
    ensures
        (v.len() == 0 || v[0] != '.') ==> apply_attr(a, "Domain="@ + v) == (CookieAttrs { domain: v, ..a }),
        apply_attr(a, "Domain="@ + seq!['.'] + v) == (CookieAttrs { domain: v, ..a }),
{
    reveal_strlit("Domain=");
    let p = "Domain="@ + v;
    assert(p.take(7) =~= "Domain="@);
    assert(p.skip(7) =~= v);
    assert(has_prefix(p, "Domain="@));
    let q = "Domain="@ + seq!['.'] + v;
    assert(q.take(7) =~= "Domain="@);
    assert(q.skip(7) =~= seq!['.'] + v);
    assert(has_prefix(q, "Domain="@));
    assert((seq!['.'] + v).drop_first() =~= v);
}

/// `Path=`, `Expires=`, `Secure` and `HttpOnly` set their own attribute
/// and no other: a path or an expiry is the value as written.
pub proof fn lemma_other_attrs(a: CookieAttrs, v: Seq<char>)
    ensures
        apply_attr(a, "Path="@ + v) == (CookieAttrs { path: v, ..a }),
        apply_attr(a, "Expires="@ + v) == (CookieAttrs { expires: Some(v), ..a }),
        apply_attr(a, "Secure"@) == (CookieAttrs { secure: true, ..a }),
        apply_attr(a, "HttpOnly"@) == (CookieAttrs { http_only: true, ..a }),
{
    reveal_strlit("Domain=");
    reveal_strlit("Path=");
    reveal_strlit("Expires=");
    reveal_strlit("Secure");
    reveal_strlit("HttpOnly");
    let p = "Path="@ + v;
    assert(p.take(5) =~= "Path="@);
    assert(p.skip(5) =~= v);
    if 7 <= p.len() {
        assert(p.take(7)[0] != "Domain="@[0]);
    }
    assert(!has_prefix(p, "Domain="@));
    let e = "Expires="@ + v;
    assert(e.take(8) =~= "Expires="@);
    assert(e.skip(8) =~= v);
    assert(e.take(7)[0] != "Domain="@[0]);
    assert(!has_prefix(e, "Domain="@));
    assert(e.take(5)[0] != "Path="@[0]);
    assert(!has_prefix(e, "Path="@));
    assert(e.len() >= 8);
    assert("Secure"@.len() == 6 && "HttpOnly"@.len() == 8);
    assert(e[0] == 'E');
    assert("HttpOnly"@[0] == 'H');
    assert(!has_prefix("Secure"@, "Domain="@));
    assert("Secure"@.take(5)[0] != "Path="@[0]);
    assert(!has_prefix("Secure"@, "Path="@));
    assert(!has_prefix("HttpOnly"@, "Domain="@));
    assert("HttpOnly"@.take(5)[0] != "Path="@[0]);
    assert(!has_prefix("HttpOnly"@, "Path="@));
    assert("HttpOnly"@ != "Secure"@);
}

proof fn lemma_split_whole(t: Seq<char>, sep: char)
    requires
        !t.contains(sep),
    ensures
        split_on(t, sep) == seq![t],
    decreases t.len(),
{
    if t.len() > 0 {
        assert(!t.drop_last().contains(sep)) by {
            if t.drop_last().contains(sep) {
                let k = choose|k: int| 0 <= k < t.drop_last().len() && t.drop_last()[k] == sep;
                assert(t[k] == sep);
            }
        }
        lemma_split_whole(t.drop_last(), sep);
        assert(t.last() == t[t.len() - 1]);
        assert(t.drop_last().push(t.last()) =~= t);
    } else {
        assert(t =~= Seq::<char>::empty());
    }
}

proof fn lemma_split_join(x: Seq<char>, sep: char, y: Seq<char>)
    ensures
        split_on(x + seq![sep] + y, sep) == split_on(x, sep) + split_on(y, sep),
    decreases y.len(),
{
    let t = x + seq![sep] + y;
    if y.len() == 0 {
        assert(t.drop_last() =~= x);
        assert(split_on(y, sep) =~= seq![Seq::<char>::empty()]);
        assert(split_on(x, sep).push(Seq::<char>::empty()) =~= split_on(x, sep) + seq![Seq::<char>::empty()]);
    } else {
        assert(t.drop_last() =~= x + seq![sep] + y.drop_last());
        assert(t.last() == y.last());
        lemma_split_join(x, sep, y.drop_last());
        lemma_split_nonempty(y.drop_last(), sep);
        lemma_split_nonempty(x, sep);
        let a = split_on(x, sep);
        let r = split_on(y.drop_last(), sep);
        if y.last() == sep {
            assert((a + r).push(Seq::<char>::empty()) =~= a + r.push(Seq::<char>::empty()));
        } else {
            assert((a + r).last() == r.last());
            assert((a + r).update((a + r).len() - 1, (a + r).last().push(y.last()))
                =~= a + r.update(r.len() - 1, r.last().push(y.last())));
        }
    }
}

/// A `Set-Cookie` line `name=value; Domain=v` gives the cookie the domain
/// `v` exactly when `v` does not start with a dot: only a leading dot is
/// ever removed from a domain.
pub proof fn lemma_cookie_domain(first: Seq<char>, v: Seq<char>, default_domain: Seq<char>)
    requires
        !first.contains(';'),
        !v.contains(';'),
        v.len() > 0,
        !is_ws(v.last()),
        v[0] != '.',
    ensures
        cookie_attrs(first + "; Domain="@ + v, default_domain).domain == v,
{
    reveal_strlit("; Domain=");
    reveal_strlit("Domain=");
    let y = " Domain="@ + v;
    reveal_strlit(" Domain=");
    assert(first + "; Domain="@ + v =~= first + seq![';'] + y);
    assert(!y.contains(';')) by {
        if y.contains(';') {
            let k = choose|k: int| 0 <= k < y.len() && y[k] == ';';
            if k >= 8 {
                assert(v[k - 8] == ';');
            }
        }
    }
    lemma_split_join(first, ';', y);
    lemma_split_whole(first, ';');
    lemma_split_whole(y, ';');
    let parts = split_on(first + seq![';'] + y, ';');
    assert(parts =~= seq![first, y]);
    let z = "Domain="@ + v;
    assert(y.drop_first() =~= z);
    assert(is_ws(y[0]));
    assert(!is_ws(z[0]));
    assert(trim_start(z) == z);
    assert(trim_start(y) == z);
    assert(z.last() == v.last());
    assert(trim_end(z) == z);
    assert(trim(parts[1]) == z);
    lemma_domain_attr(attrs_upto(parts, 1, default_domain), v);
}

/// The attributes after the pieces `1..k` of a `;`-split line: the domain
/// defaults to `default_domain`, the path to `/`.
pub open spec fn attrs_upto(parts: Seq<Seq<char>>, k: int, default_domain: Seq<char>) -> CookieAttrs
    decreases k,
{
    if k <= 1 {
        CookieAttrs {
            domain: default_domain,
            path: "/"@,
            secure: false,
            http_only: false,
            expires: None,
            max_age: None,
        }
    } else {
        apply_attr(attrs_upto(parts, k - 1, default_domain), trim(parts[k - 1]))
    }
}

/// The attributes of a whole `Set-Cookie` line.
pub open spec fn cookie_attrs(line: Seq<char>, default_domain: Seq<char>) -> CookieAttrs {
    let parts = split_on(line, ';');
    attrs_upto(parts, parts.len() as int, default_domain)
}

/// Name and value: the first piece split at its first `=`, both empty when
/// it has none.
pub open spec fn cookie_name_value(line: Seq<char>) -> (Seq<char>, Seq<char>) {
    let first = split_on(line, ';')[0];
    match index_of(first, '=') {
        Some(i) => (first.take(i), first.skip(i + 1)),
        None => (Seq::empty(), Seq::empty()),
    }
}

pub open spec fn opt_chars(o: Option<Vec<char>>) -> Option<Seq<char>> {
    match o {
        Some(v) => Some(v@),
        None => None,
    }
}

pub open spec fn opt_text(o: Option<String>) -> Option<Seq<char>> {
    match o {
        Some(v) => Some(v@),
        None => None,
    }
}

struct CookieState {
    domain: Vec<char>,
    path: Vec<char>,
    secure: bool,
    http_only: bool,
    expires: Option<Vec<char>>,
    max_age: Option<u64>,
}

impl CookieState {
    spec fn attrs(&self) -> CookieAttrs {
        CookieAttrs {
            domain: self.domain@,
            path: self.path@,
            secure: self.secure,
            http_only: self.http_only,
            expires: opt_chars(self.expires),
            max_age: self.max_age,
        }
    }
}

fn apply_cookie_attr(st: &mut CookieState, p: &Vec<char>)
    ensures
        final(st).attrs() == apply_attr(old(st).attrs(), p@),
{
    if starts_with_chars(p, "Domain=") {
        let n = chars_of("Domain=");
        let d = skip_chars(p, n.len());
        if d.len() > 0 && d[0] == '.' {
            st.domain = skip_chars(&d, 1);
            assert(st.domain@ =~= d@.drop_first());
        } else {
            st.domain = d;
        }
    } else if starts_with_chars(p, "Path=") {
        let n = chars_of("Path=");
        st.path = skip_chars(p, n.len());
    } else if chars_eq(p, &chars_of("Secure")) {
        st.secure = true;
    } else if chars_eq(p, &chars_of("HttpOnly")) {
        st.http_only = true;
    } else if starts_with_chars(p, "Expires=") {
        let n = chars_of("Expires=");
        st.expires = Some(skip_chars(p, n.len()));
    } else if starts_with_chars(p, "Max-Age=") {
        let n = chars_of("Max-Age=");
        let rest = skip_chars(p, n.len());
        st.max_age = parse_u64(&rest);
    }
}

/// Parses a `Set-Cookie` header value. The name and value come from the
/// first `;`-piece split at its first `=`; each later piece is trimmed and
/// read as `Domain=` (one leading dot dropped), `Path=`, `Secure`,
/// `HttpOnly`, `Expires=` or `Max-Age=` (a `u64`, else none). The cookie is
/// stamped with the local time of the call.
pub fn parse_set_cookie(cookie_str: &str, default_domain: &str) -> (r: Result<Cookie, String>)
    ensures
        r is Ok,
        r->Ok_0.name@ == cookie_name_value(cookie_str@).0,
        r->Ok_0.value@ == cookie_name_value(cookie_str@).1,
        r->Ok_0.domain@ == cookie_attrs(cookie_str@, default_domain@).domain,
        r->Ok_0.path@ == cookie_attrs(cookie_str@, default_domain@).path,
        r->Ok_0.secure == cookie_attrs(cookie_str@, default_domain@).secure,
        r->Ok_0.http_only == cookie_attrs(cookie_str@, default_domain@).http_only,
        opt_text(r->Ok_0.expires) == cookie_attrs(cookie_str@, default_domain@).expires,
        r->Ok_0.max_age == cookie_attrs(cookie_str@, default_domain@).max_age,
        is_rfc3339_text(r->Ok_0.created_at@),
{
    let line = chars_of(cookie_str);
    let parts = split_chars(&line, ';');
    let ghost pv = char_vec_views(parts@);
    proof {
        lemma_split_nonempty(line@, ';');
    }
    let first = &parts[0];
    assert(pv[0] == first@);
    assert(pv == split_on(cookie_str@, ';'));
    let flen = first.len();
    let found = find_char(first, '=');
    let mut name: Vec<char> = Vec::new();
    let mut value: Vec<char> = Vec::new();
    match found {
        Some(i) => {
            assert(i < flen);
            assert(index_of(first@, '=') == Some(i as int));
            name = take_chars(first, i);
            value = skip_chars(first, i + 1);
        },
        None => {
            assert(index_of(first@, '=') is None);
        },
    }
    assert(name@ =~= cookie_name_value(cookie_str@).0);
    assert(value@ =~= cookie_name_value(cookie_str@).1);
    let mut st = CookieState {
        domain: chars_of(default_domain),
        path: chars_of("/"),
        secure: false,
        http_only: false,
        expires: None,
        max_age: None,
    };
    assert(st.attrs() == attrs_upto(pv, 1, default_domain@));
    let mut k: usize = 1;
    while k < parts.len()
        invariant
            1 <= k <= parts@.len(),
            pv == char_vec_views(parts@),
            pv == split_on(cookie_str@, ';'),
            st.attrs() == attrs_upto(pv, k as int, default_domain@),
        decreases parts@.len() - k,
    {
        let p = trimmed_range(&parts[k], 0, parts[k].len());
        assert(parts@[k as int]@.subrange(0, parts@[k as int]@.len() as int) =~= pv[k as int]);
        apply_cookie_attr(&mut st, &p);
        k = k + 1;
    }
    let expires = match st.expires {
        Some(e) => Some(string_of(&e)),
        None => None,
    };
    Ok(Cookie {
        name: string_of(&name),
        value: string_of(&value),
        domain: string_of(&st.domain),
        path: string_of(&st.path),
        expires,
        max_age: st.max_age,
        secure: st.secure,
        http_only: st.http_only,
        created_at: local_now_rfc3339(),
    })
}

// ---------------------------------------------------------------- shell quoting

/// Characters that make a word need quotes in a POSIX shell here.
pub open spec fn needs_quotes(s: Seq<char>) -> bool {
    s.contains(' ') || s.contains('&') || s.contains('|') || s.contains('<') || s.contains('>') || s.contains('$')
}

/// POSIX quoting: a word with a `'` is put in single quotes with each `'`
/// written as `'"'"'`; a word with a space or one of `&|<>$` is put in
/// single quotes; any other word is left as it is.
pub open spec fn shell_escape_spec(s: Seq<char>) -> Seq<char> {
    if s.contains('\'') {
        seq!['\''] + replace_all(s, seq!['\''], "'\"'\"'"@) + seq!['\'']
    } else if needs_quotes(s) {
        seq!['\''] + s + seq!['\'']
    } else {
        s
    }
}

/// Quotes a word for a POSIX shell command line.
pub fn shell_escape(s: &str) -> (r: String)
    ensures
        r@ == shell_escape_spec(s@),
{
    let v = chars_of(s);
    if contains_char(&v, '\'') {
        let mut pat: Vec<char> = Vec::new();
        pat.push('\'');
        assert(pat@ =~= seq!['\'']);
        let rep = chars_of("'\"'\"'");
        let body = replace_chars(&v, &pat, &rep);
        let mut out: Vec<char> = Vec::new();
        out.push('\'');
        append_chars(&mut out, &body);
        out.push('\'');
        assert(out@ =~= shell_escape_spec(s@));
        string_of(&out)
    } else if contains_char(&v, ' ') || contains_char(&v, '&') || contains_char(&v, '|') || contains_char(&v, '<')
        || contains_char(&v, '>') || contains_char(&v, '$') {
        let mut out: Vec<char> = Vec::new();
        out.push('\'');
        append_chars(&mut out, &v);
        out.push('\'');
        assert(out@ =~= shell_escape_spec(s@));
        string_of(&out)
    } else {
        string_of(&v)
    }
}

} // verus!
