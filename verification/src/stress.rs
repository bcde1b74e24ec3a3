//! Load tests: how one request of a run is prepared from the test's
//! configuration, its variables and the stored cookies.

use vstd::prelude::*;
use crate::models::{Cookie, Header, Variable, FormField, FormFieldView, form_views};
use crate::text::{chars_of, string_of, append_chars, str_eq, to_string_of, concat2, has_prefix, starts_with_chars,
    string_views};
use crate::variables::{subst_upto, substitute};
use crate::logging::{lowercase_text, to_lowercase};
use crate::http_client::{parse_url, url_parts_of};
use crate::script_session::{PostScriptResult, ScriptTestResult};

verus! {

// ---------------------------------------------------------------- outside calls

/// The text of `s` in upper case (`str::to_uppercase`).
pub uninterp spec fn uppercase_text(s: Seq<char>) -> Seq<char>;

/// `str::to_uppercase`: the upper-case form of the text by Unicode rules.
#[verifier::external_body]
pub(crate) fn to_uppercase(s: &str) -> (r: String)
    ensures
        r@ == uppercase_text(s@),
{
    s.to_uppercase()
}

/// The host of a URL as `url::Url::parse` reads it; empty when the text
/// does not parse or names no host.
pub open spec fn url_host_or_empty(s: Seq<char>) -> Seq<char> {
    match url_parts_of(s) {
        Ok(p) => match p.1 {
            Some(h) => h,
            None => Seq::empty(),
        },
        Err(_) => Seq::empty(),
    }
}

// ---------------------------------------------------------------- cookies

/// A domain without its leading dots.
pub open spec fn trim_leading_dots(s: Seq<char>) -> Seq<char>
    decreases s.len(),
{
    if s.len() > 0 && s[0] == '.' {
        trim_leading_dots(s.drop_first())
    } else {
        s
    }
}

/// RFC 6265 domain matching: the host, in lower case, is the cookie's
/// domain (without leading dots, in lower case) or ends with `.` and that
/// domain; never for an empty domain or host.
pub open spec fn cookie_matches(domain: Seq<char>, host: Seq<char>) -> bool {
    let d = trim_leading_dots(domain);
    if d.len() == 0 || host.len() == 0 {
        false
    } else {
        let h = lowercase_text(host);
        let dl = lowercase_text(d);
        h == dl || crate::scripts::has_suffix(h, seq!['.'] + dl)
    }
}

fn ends_with_chars(v: &Vec<char>, w: &Vec<char>) -> (b: bool)
    ensures
        b == crate::scripts::has_suffix(v@, w@),
{
    if w.len() > v.len() {
        return false;
    }
    let off = v.len() - w.len();
    let vl = v.len();
    for k in 0..w.len()
        invariant
            vl == v@.len(),
            off == v@.len() - w@.len(),
            forall|m: int| 0 <= m < k ==> v@[off + m] == w@[m],
    {
        if v[off + k] != w[k] {
            assert(v@.skip(off as int)[k as int] == v@[off + k]);
            return false;
        }
    }
    assert(v@.skip(off as int) =~= w@);
    true
}

/// Whether a stored cookie goes with a request to `host`.
pub fn cookie_matches_domain(cookie: &Cookie, host: &str) -> (r: bool)
    ensures
        r == cookie_matches(cookie.domain@, host@),
{
    let v = chars_of(cookie.domain.as_str());
    let mut i: usize = 0;
    assert(v@.skip(0) =~= v@);
    while i < v.len() && v[i] == '.'
        invariant
            i <= v@.len(),
            trim_leading_dots(v@) == trim_leading_dots(v@.skip(i as int)),
        decreases v@.len() - i,
    {
        assert(v@.skip(i as int).drop_first() =~= v@.skip(i + 1));
        i = i + 1;
    }
    let d = crate::text::skip_chars(&v, i);
    if d.len() == 0 || host.is_empty() {
        return false;
    }
    let h = to_lowercase(host);
    let dl = to_lowercase(string_of(&d).as_str());
    let hc = chars_of(h.as_str());
    let dc = chars_of(dl.as_str());
    if crate::text::chars_eq(&hc, &dc) {
        return true;
    }
    let mut suffix: Vec<char> = Vec::new();
    suffix.push('.');
    append_chars(&mut suffix, &dc);
    assert(suffix@ =~= seq!['.'] + dc@);
    ends_with_chars(&hc, &suffix)
}

/// The `Cookie` header for a host: `name=value` of the matching cookies,
/// in order, joined by `; `; none when no cookie matches.
pub open spec fn cookie_pairs(cookies: Seq<Cookie>, host: Seq<char>) -> Seq<Seq<char>>
    decreases cookies.len(),
{
    if cookies.len() == 0 {
        Seq::empty()
    } else {
        let c = cookies.last();
        let rest = cookie_pairs(cookies.drop_last(), host);
        if cookie_matches(c.domain@, host) {
            rest.push(c.name@ + seq!['='] + c.value@)
        } else {
            rest
        }
    }
}

/// Pieces joined with `; `.
pub open spec fn join_semi(pieces: Seq<Seq<char>>) -> Seq<char>
    decreases pieces.len(),
{
    if pieces.len() == 0 {
        Seq::empty()
    } else if pieces.len() == 1 {
        pieces[0]
    } else {
        join_semi(pieces.drop_last()) + "; "@ + pieces.last()
    }
}

/// The `Cookie` header for a request to `host`.
pub fn cookie_header(cookies: &Vec<Cookie>, host: &str) -> (r: Option<String>)
    ensures
        cookie_pairs(cookies@, host@).len() == 0 ==> r is None,
        cookie_pairs(cookies@, host@).len() > 0 ==> (r is Some && r->Some_0@ == join_semi(cookie_pairs(cookies@, host@))),
{
    let mut out: Vec<char> = Vec::new();
    let mut count: usize = 0;
    let mut i: usize = 0;
    assert(cookies@.take(0) =~= Seq::<Cookie>::empty());
    while i < cookies.len()
        invariant
            i <= cookies@.len(),
            count as int == cookie_pairs(cookies@.take(i as int), host@).len(),
            count <= i,
            out@ == join_semi(cookie_pairs(cookies@.take(i as int), host@)),
        decreases cookies@.len() - i,
    {
        assert(cookies@.take(i + 1).drop_last() =~= cookies@.take(i as int));
        assert(cookies@.take(i + 1).last() == cookies@[i as int]);
        let c = &cookies[i];
        if cookie_matches_domain(c, host) {
            let mut piece = chars_of(c.name.as_str());
            piece.push('=');
            append_chars(&mut piece, &chars_of(c.value.as_str()));
            let ghost prev = cookie_pairs(cookies@.take(i as int), host@);
            assert(piece@ =~= c.name@ + seq!['='] + c.value@);
            if count > 0 {
                append_chars(&mut out, &chars_of("; "));
            }
            append_chars(&mut out, &piece);
            count = count + 1;
            proof {
                let now = prev.push(piece@);
                assert(now.drop_last() =~= prev);
                if prev.len() == 0 {
                    assert(out@ =~= now[0]);
                } else {
                    assert(out@ =~= join_semi(prev) + "; "@ + now.last());
                }
            }
        }
        i = i + 1;
    }
    assert(cookies@.take(cookies@.len() as int) =~= cookies@);
    if count == 0 {
        None
    } else {
        Some(string_of(&out))
    }
}

// ---------------------------------------------------------------- variables

/// Variables after setting `key` to `value`: the entry for the key is
/// changed in place, or the pair added at the end.
pub open spec fn set_var(vs: Seq<(String, String)>, key: String, value: String) -> Seq<(String, String)> {
    if exists|i: int| 0 <= i < vs.len() && #[trigger] vs[i].0@ == key@ {
        let i = choose|i: int| 0 <= i < vs.len() && #[trigger] vs[i].0@ == key@ && forall|j: int|
            0 <= j < i ==> vs[j].0@ != key@;
        vs.update(i, (vs[i].0, value))
    } else {
        vs.push((key, value))
    }
}

/// The run's variables with the enabled, named collection variables set
/// over them, in order.
pub open spec fn merged_vars(base: Seq<(String, String)>, coll: Seq<Variable>) -> Seq<(String, String)>
    decreases coll.len(),
{
    if coll.len() == 0 {
        base
    } else {
        let v = coll.last();
        let m = merged_vars(base, coll.drop_last());
        if v.enabled && v.key@.len() > 0 {
            set_var(m, v.key, v.value)
        } else {
            m
        }
    }
}

fn set_variable(vs: &mut Vec<(String, String)>, key: &String, value: &String)
    ensures
        final(vs)@ == set_var(old(vs)@, *key, *value),
{
    let mut i: usize = 0;
    while i < vs.len()
        invariant
            i <= vs@.len(),
            vs@ == old(vs)@,
            forall|j: int| 0 <= j < i ==> vs@[j].0@ != key@,
        decreases vs@.len() - i,
    {
        if str_eq(vs[i].0.as_str(), key.as_str()) {
            let k = vs[i].0.clone();
            proof {
                let w = choose|w: int| 0 <= w < vs@.len() && #[trigger] vs@[w].0@ == key@ && forall|j: int|
                    0 <= j < w ==> vs@[j].0@ != key@;
                assert(vs@[i as int].0@ == key@);
                if w < i {
                    assert(vs@[w].0@ != key@);
                } else if w > i {
                    assert(vs@[i as int].0@ != key@);
                }
            }
            vs.set(i, (k, value.clone()));
            return;
        }
        i = i + 1;
    }
    vs.push((key.clone(), value.clone()));
}

/// The variables of one request of the run.
pub fn merge_variables(base: &Vec<(String, String)>, coll: &Option<Vec<Variable>>) -> (r: Vec<(String, String)>)
    ensures
        r@ == (match coll {
            Some(c) => merged_vars(base@, c@),
            None => base@,
        }),
{
    let mut vs: Vec<(String, String)> = Vec::new();
    for i in 0..base.len()
        invariant
            vs@ == base@.take(i as int),
    {
        vs.push((base[i].0.clone(), base[i].1.clone()));
        assert(base@.take(i + 1) =~= base@.take(i as int).push(base@[i as int]));
    }
    assert(base@.take(base@.len() as int) =~= base@);
    match coll {
        None => vs,
        Some(c) => {
            for k in 0..c.len()
                invariant
                    vs@ == merged_vars(base@, c@.take(k as int)),
            {
                assert(c@.take(k + 1).drop_last() =~= c@.take(k as int));
                assert(c@.take(k + 1).last() == c@[k as int]);
                if c[k].enabled && !c[k].key.as_str().is_empty() {
                    set_variable(&mut vs, &c[k].key, &c[k].value);
                }
            }
            assert(c@.take(c@.len() as int) =~= c@);
            vs
        },
    }
}

// ---------------------------------------------------------------- the request

/// The body of a prepared request.
#[derive(Debug)]
pub enum StressBody {
    /// No body.
    Empty,
    Text(String),
    /// Multipart text fields, name and value.
    Form(Vec<(String, String)>),
}

/// One request of a run, ready to send.
#[derive(Debug)]
pub struct PreparedRequest {
    pub method: String,
    pub url: String,
    pub cookie: Option<String>,
    pub headers: Vec<(String, String)>,
    pub body: StressBody,
}

/// What a load test sends.
#[derive(Debug)]
pub struct StressRequestConfig {
    pub method: String,
    pub url: String,
    pub headers: Vec<Header>,
    pub body: Option<String>,
    pub body_type: Option<String>,
    pub form_fields: Option<Vec<FormField>>,
    pub collection_variables: Option<Vec<Variable>>,
}

pub open spec fn is_sendable_method(m: Seq<char>) -> bool {
    m == "GET"@ || m == "POST"@ || m == "PUT"@ || m == "DELETE"@ || m == "PATCH"@ || m == "HEAD"@ || m == "OPTIONS"@
}

/// The headers sent: the enabled ones with their values substituted, except
/// `Content-Type` (in any case) for multipart bodies.
pub open spec fn sent_headers(hs: Seq<Header>, vars: Seq<(String, String)>, skip_ct: bool) -> Seq<(Seq<char>, Seq<char>)>
    decreases hs.len(),
{
    if hs.len() == 0 {
        Seq::empty()
    } else {
        let h = hs.last();
        let rest = sent_headers(hs.drop_last(), vars, skip_ct);
        if h.enabled && !(skip_ct && lowercase_text(h.key@) == "content-type"@) {
            rest.push((h.key@, subst_upto(h.value@, vars, vars.len() as int)))
        } else {
            rest
        }
    }
}

/// The multipart text fields: enabled, named, of kind `text`, values
/// substituted.
pub open spec fn form_texts(fs: Seq<FormFieldView>, vars: Seq<(String, String)>) -> Seq<(Seq<char>, Seq<char>)>
    decreases fs.len(),
{
    if fs.len() == 0 {
        Seq::empty()
    } else {
        let f = fs.last();
        let rest = form_texts(fs.drop_last(), vars);
        if f.enabled && f.key@.len() > 0 && f.field_type@ == "text"@ {
            rest.push((f.key@, subst_upto(f.value@, vars, vars.len() as int)))
        } else {
            rest
        }
    }
}

/// The multipart text fields of a load-test request carry their values
/// with `{{name}}` references substituted exactly as the URL, the headers
/// and a raw body are: the fields sent with variables `vars` are the
/// fields sent without variables, in the same order and under the same
/// keys, each value run through the same substitution.
pub proof fn lemma_form_texts_substituted(fs: Seq<FormFieldView>, vars: Seq<(String, String)>)
    ensures
        form_texts(fs, vars).len() == form_texts(fs, Seq::empty()).len(),
        forall|k: int| 0 <= k < form_texts(fs, vars).len() ==> (#[trigger] form_texts(fs, vars)[k]).0
            == form_texts(fs, Seq::empty())[k].0 && form_texts(fs, vars)[k].1
            == subst_upto(form_texts(fs, Seq::empty())[k].1, vars, vars.len() as int),
    decreases fs.len(),
{
    if fs.len() > 0 {
        lemma_form_texts_substituted(fs.drop_last(), vars);
        let f = fs.last();
        assert(subst_upto(f.value@, Seq::<(String, String)>::empty(), 0) == f.value@);
    }
}

proof fn lemma_form_texts_concat(x: Seq<FormFieldView>, y: Seq<FormFieldView>, vars: Seq<(String, String)>)
    ensures
        form_texts(x + y, vars) == form_texts(x, vars) + form_texts(y, vars),
    decreases y.len(),
{
    if y.len() == 0 {
        assert(x + y =~= x);
        assert(form_texts(x, vars) + Seq::<(Seq<char>, Seq<char>)>::empty() =~= form_texts(x, vars));
    } else {
        assert((x + y).drop_last() =~= x + y.drop_last());
        assert((x + y).last() == y.last());
        lemma_form_texts_concat(x, y.drop_last(), vars);
        let a = form_texts(x, vars);
        let r = form_texts(y.drop_last(), vars);
        let f = y.last();
        assert((a + r).push((f.key@, subst_upto(f.value@, vars, vars.len() as int)))
            =~= a + r.push((f.key@, subst_upto(f.value@, vars, vars.len() as int))));
    }
}

/// A load-test multipart body holds one text pair per enabled, named text
/// field, in the order of the fields, with its value substituted as the
/// URL is; every other field (disabled, without a key, or a file) is left
/// out.
pub proof fn lemma_form_texts_fields(a: Seq<FormFieldView>, f: FormFieldView, b: Seq<FormFieldView>, vars: Seq<(String, String)>)
    ensures
        (f.enabled && f.key@.len() > 0 && f.field_type@ == "text"@) ==> form_texts(a.push(f) + b, vars)
            == form_texts(a, vars) + seq![(f.key@, subst_upto(f.value@, vars, vars.len() as int))] + form_texts(b, vars),
        !(f.enabled && f.key@.len() > 0 && f.field_type@ == "text"@) ==> form_texts(a.push(f) + b, vars)
            == form_texts(a, vars) + form_texts(b, vars),
{
    lemma_form_texts_concat(a.push(f), b, vars);
    assert(a.push(f).drop_last() =~= a);
    assert(form_texts(a, vars).push((f.key@, subst_upto(f.value@, vars, vars.len() as int)))
        =~= form_texts(a, vars) + seq![(f.key@, subst_upto(f.value@, vars, vars.len() as int))]);
}

pub open spec fn pair_views(s: Seq<(String, String)>) -> Seq<(Seq<char>, Seq<char>)> {
    s.map_values(|p: (String, String)| (p.0@, p.1@))
}

fn subst_text(text: &str, vars: &Vec<(String, String)>) -> (r: String)
    ensures
        r@ == subst_upto(text@, vars@, vars@.len() as int),
{
    let t = chars_of(text);
    string_of(&substitute(&t, vars))
}

fn headers_to_send(hs: &Vec<Header>, vars: &Vec<(String, String)>, skip_ct: bool) -> (r: Vec<(String, String)>)
    ensures
        pair_views(r@) == sent_headers(hs@, vars@, skip_ct),
{
    let mut r: Vec<(String, String)> = Vec::new();
    for i in 0..hs.len()
        invariant
            pair_views(r@) == sent_headers(hs@.take(i as int), vars@, skip_ct),
    {
        assert(hs@.take(i + 1).drop_last() =~= hs@.take(i as int));
        assert(hs@.take(i + 1).last() == hs@[i as int]);
        let h = &hs[i];
        if h.enabled {
            let skip = skip_ct && str_eq(to_lowercase(h.key.as_str()).as_str(), "content-type");
            if !skip {
                let ghost before = r@;
                r.push((h.key.clone(), subst_text(h.value.as_str(), vars)));
                assert(pair_views(r@) =~= pair_views(before).push((h.key@, subst_upto(h.value@, vars@, vars@.len() as int))));
            }
        }
    }
    assert(hs@.take(hs@.len() as int) =~= hs@);
    r
}

fn form_fields_to_send(fs: &Vec<FormField>, vars: &Vec<(String, String)>) -> (r: Vec<(String, String)>)
    ensures
        pair_views(r@) == form_texts(form_views(fs@), vars@),
{
    let ghost fv = form_views(fs@);
    let mut r: Vec<(String, String)> = Vec::new();
    for i in 0..fs.len()
        invariant
            fv == form_views(fs@),
            pair_views(r@) == form_texts(fv.take(i as int), vars@),
    {
        assert(fv.take(i + 1).drop_last() =~= fv.take(i as int));
        assert(fv.take(i + 1).last() == fs@[i as int]@);
        let f = &fs[i];
        if f.enabled && !f.key.as_str().is_empty() && str_eq(f.field_type.as_str(), "text") {
            let ghost before = r@;
            r.push((f.key.clone(), subst_text(f.value.as_str(), vars)));
            assert(pair_views(r@) =~= pair_views(before).push((f.key@, subst_upto(f.value@, vars@, vars@.len() as int))));
        }
    }
    assert(fv.take(fs@.len() as int) =~= fv);
    r
}

/// Prepares one request of a run, or says why it cannot be sent: the URL,
/// once its variables are substituted, must start with `http://` or
/// `https://`, and the method must be a known one.
pub fn prepare_stress_request(
    config: &StressRequestConfig,
    variables: &Vec<(String, String)>,
    cookies: &Vec<Cookie>,
) -> (r: Result<PreparedRequest, String>)
    ensures
        ({
            let vars = match config.collection_variables {
                Some(c) => merged_vars(variables@, c@),
                None => variables@,
            };
            let url = subst_upto(config.url@, vars, vars.len() as int);
            let method = uppercase_text(config.method@);
            if !(has_prefix(url, "http://"@) || has_prefix(url, "https://"@)) {
                r is Err && r->Err_0@ == "URL 无效"@
            } else if !is_sendable_method(method) {
                r is Err && r->Err_0@ == "不支持的 HTTP 方法"@
            } else {
                let host = url_host_or_empty(url);
                let body_type = match config.body_type {
                    Some(t) => t@,
                    None => "raw"@,
                };
                let multipart = body_type == "form-data"@;
                r is Ok && r->Ok_0.method@ == method && r->Ok_0.url@ == url
                    && (cookie_pairs(cookies@, host).len() == 0 ==> r->Ok_0.cookie is None)
                    && (cookie_pairs(cookies@, host).len() > 0 ==> (r->Ok_0.cookie is Some
                        && r->Ok_0.cookie->Some_0@ == join_semi(cookie_pairs(cookies@, host))))
                    && pair_views(r->Ok_0.headers@) == sent_headers(config.headers@, vars, multipart)
                    && (if config.method@ == "GET"@ || config.method@ == "HEAD"@ {
                        r->Ok_0.body is Empty
                    } else if multipart {
                        match config.form_fields {
                            Some(fs) => r->Ok_0.body matches StressBody::Form(f) && pair_views(f@) == form_texts(form_views(fs@), vars),
                            None => r->Ok_0.body is Empty,
                        }
                    } else {
                        match config.body {
                            Some(b) => r->Ok_0.body matches StressBody::Text(t) && t@ == subst_upto(b@, vars, vars.len() as int),
                            None => r->Ok_0.body is Empty,
                        }
                    })
            }
        }),
{
    let vars = merge_variables(variables, &config.collection_variables);
    let url = subst_text(config.url.as_str(), &vars);
    let uc = chars_of(url.as_str());
    if !(starts_with_chars(&uc, "http://") || starts_with_chars(&uc, "https://")) {
        return Err(to_string_of("URL 无效"));
    }
    let method = to_uppercase(config.method.as_str());
    let m = method.as_str();
    if !(str_eq(m, "GET") || str_eq(m, "POST") || str_eq(m, "PUT") || str_eq(m, "DELETE") || str_eq(m, "PATCH")
        || str_eq(m, "HEAD") || str_eq(m, "OPTIONS")) {
        return Err(to_string_of("不支持的 HTTP 方法"));
    }
    proof {
        reveal_strlit("");
    }
    let host = match parse_url(url.as_str()) {
        Ok(p) => match p.host {
            Some(h) => h,
            None => {
                let e = to_string_of("");
                assert(e@ =~= Seq::<char>::empty());
                e
            },
        },
        Err(_) => {
            let e = to_string_of("");
            assert(e@ =~= Seq::<char>::empty());
            e
        },
    };
    let cookie = cookie_header(cookies, host.as_str());
    let multipart = match &config.body_type {
        Some(t) => str_eq(t.as_str(), "form-data"),
        None => str_eq("raw", "form-data"),
    };
    let headers = headers_to_send(&config.headers, &vars, multipart);
    let body = if str_eq(config.method.as_str(), "GET") || str_eq(config.method.as_str(), "HEAD") {
        StressBody::Empty
    } else if multipart {
        match &config.form_fields {
            Some(fs) => StressBody::Form(form_fields_to_send(fs, &vars)),
            None => StressBody::Empty,
        }
    } else {
        match &config.body {
            Some(b) => StressBody::Text(subst_text(b.as_str(), &vars)),
            None => StressBody::Empty,
        }
    };
    Ok(PreparedRequest { method, url, cookie, headers, body })
}

// ---------------------------------------------------------------- the outcome of one request

/// The pieces joined with `sep` between them.
pub open spec fn join_with(pieces: Seq<Seq<char>>, sep: Seq<char>) -> Seq<char>
    decreases pieces.len(),
{
    if pieces.len() == 0 {
        Seq::empty()
    } else if pieces.len() == 1 {
        pieces[0]
    } else {
        join_with(pieces.drop_last(), sep) + sep + pieces.last()
    }
}

/// The names of the failed assertions, in order.
pub open spec fn failed_names(tests: Seq<ScriptTestResult>) -> Seq<Seq<char>>
    decreases tests.len(),
{
    if tests.len() == 0 {
        Seq::empty()
    } else if !tests.last().passed {
        failed_names(tests.drop_last()).push(tests.last().name@)
    } else {
        failed_names(tests.drop_last())
    }
}

fn failed_list(tests: &Vec<ScriptTestResult>) -> (r: Vec<char>)
    ensures
        r@ == join_with(failed_names(tests@), ", "@),
{
    let mut out: Vec<char> = Vec::new();
    let mut count: usize = 0;
    for i in 0..tests.len()
        invariant
            count as int == failed_names(tests@.take(i as int)).len(),
            count <= i,
            out@ == join_with(failed_names(tests@.take(i as int)), ", "@),
    {
        assert(tests@.take(i + 1).drop_last() =~= tests@.take(i as int));
        assert(tests@.take(i + 1).last() == tests@[i as int]);
        if !tests[i].passed {
            let ghost prev = failed_names(tests@.take(i as int));
            if count > 0 {
                append_chars(&mut out, &chars_of(", "));
            }
            append_chars(&mut out, &chars_of(tests[i].name.as_str()));
            proof {
                let now = prev.push(tests@[i as int].name@);
                assert(now.drop_last() =~= prev);
                if count == 0 {
                    assert(prev.len() == 0);
                    assert(out@ =~= join_with(now, ", "@));
                }
            }
            count = count + 1;
        }
    }
    assert(tests@.take(tests@.len() as int) =~= tests@);
    out
}

/// Whether one request of a load test counts as a success, and the error
/// recorded for it. With post-request scripts, success is every script
/// running and every assertion passing; the error names the failed
/// assertions, else the script error. Without them, a status from 200 to
/// 399 is a success.
pub fn judge_response(status: u16, post: Option<PostScriptResult>) -> (r: (bool, Option<String>))
    ensures
        match post {
            None => r.0 == (200 <= status < 400) && r.1 is None,
            Some(p) => if p.success && p.all_tests_passed {
                r.0 && r.1 is None
            } else {
                !r.0 && r.1 is Some && r.1->Some_0@ == (if !p.all_tests_passed {
                    "断言失败: "@ + join_with(failed_names(p.test_results@), ", "@)
                } else {
                    match p.error {
                        Some(e) => "脚本执行失败: "@ + e@,
                        None => "后置脚本执行异常"@,
                    }
                })
            },
        },
{
    match post {
        None => (200 <= status && status < 400, None),
        Some(p) => {
            if p.success && p.all_tests_passed {
                (true, None)
            } else if !p.all_tests_passed {
                let mut v = chars_of("断言失败: ");
                append_chars(&mut v, &failed_list(&p.test_results));
                (false, Some(string_of(&v)))
            } else {
                match &p.error {
                    Some(e) => (false, Some(concat2("脚本执行失败: ", e.as_str()))),
                    None => (false, Some(to_string_of("后置脚本执行异常"))),
                }
            }
        },
    }
}

/// The error of a request that got no response.
pub fn send_error_text(timed_out: bool, message: &str) -> (r: String)
    ensures
        r@ == (if timed_out { "请求超时"@ } else { message@ }),
{
    if timed_out {
        to_string_of("请求超时")
    } else {
        to_string_of(message)
    }
}

} // verus!
