//! What a running script sees through the `fm` object: the request it may
//! change, the response, the environment and collection variables, its log
//! lines and its assertions; and the result handed back when it ends.

use vstd::prelude::*;
use crate::models::{Header, Param};
use crate::script_vars::{VarStore, map_of, pair_texts, names_distinct};
use crate::logging::{lowercase_text, to_lowercase};
use crate::script_runtime::{JsRuntimeExecutor, base_url, url_path, join_url};
use crate::text::{str_eq, to_string_of, all_ws, is_blank, chars_of, string_of, append_chars, dec_chars, dec_digits};
use crate::history::clone_pairs;

verus! {

// ---------------------------------------------------------------- records

/// The request as a script sees it.
#[derive(Debug)]
pub struct ScriptRequestContext {
    pub url: String,
    pub method: String,
    pub headers: Vec<Header>,
    pub params: Vec<Param>,
    pub body: Option<String>,
}

fn clone_headers(v: &Vec<Header>) -> (r: Vec<Header>)
    ensures
        r@ == v@,
{
    let mut r: Vec<Header> = Vec::new();
    for i in 0..v.len()
        invariant
            r@ == v@.take(i as int),
    {
        r.push(v[i].clone());
        assert(v@.take(i + 1) =~= v@.take(i as int).push(v@[i as int]));
    }
    assert(v@.take(v@.len() as int) =~= v@);
    r
}

fn clone_params(v: &Vec<Param>) -> (r: Vec<Param>)
    ensures
        r@ == v@,
{
    let mut r: Vec<Param> = Vec::new();
    for i in 0..v.len()
        invariant
            r@ == v@.take(i as int),
    {
        r.push(v[i].clone());
        assert(v@.take(i + 1) =~= v@.take(i as int).push(v@[i as int]));
    }
    assert(v@.take(v@.len() as int) =~= v@);
    r
}

impl Clone for ScriptRequestContext {
    fn clone(&self) -> (r: Self)
        ensures
            r.url == self.url && r.method == self.method && r.body == self.body,
            r.headers@ == self.headers@ && r.params@ == self.params@,
    {
        ScriptRequestContext {
            url: self.url.clone(),
            method: self.method.clone(),
            headers: clone_headers(&self.headers),
            params: clone_params(&self.params),
            body: match &self.body {
                Some(b) => Some(b.clone()),
                None => None,
            },
        }
    }
}

/// The response as a post-request script sees it.
#[derive(Debug)]
pub struct ScriptResponseContext {
    pub status: u16,
    pub status_text: String,
    pub headers: Vec<(String, String)>,
    pub body: String,
    pub time: u64,
    pub size: u64,
}

/// A line a script logged.
#[derive(Debug)]
pub struct ScriptLog {
    pub level: String,
    pub message: String,
    pub source: String,
}

/// The outcome of one `fm.assert`.
#[derive(Debug)]
pub struct ScriptTestResult {
    pub name: String,
    pub passed: bool,
    pub error: Option<String>,
}

// ---------------------------------------------------------------- names in any case

/// Two names that read the same in lower case.
pub open spec fn same_name(a: Seq<char>, b: Seq<char>) -> bool {
    lowercase_text(a) == lowercase_text(b)
}

/// The first header from `i` on named `key` in any case.
pub open spec fn header_pos(hs: Seq<Header>, key: Seq<char>, i: int) -> Option<int>
    decreases hs.len() - i,
{
    if i < 0 || i >= hs.len() {
        None
    } else if same_name(hs[i].key@, key) {
        Some(i)
    } else {
        header_pos(hs, key, i + 1)
    }
}

/// The first parameter from `i` on named `key` in any case.
pub open spec fn param_pos(ps: Seq<Param>, key: Seq<char>, i: int) -> Option<int>
    decreases ps.len() - i,
{
    if i < 0 || i >= ps.len() {
        None
    } else if same_name(ps[i].key@, key) {
        Some(i)
    } else {
        param_pos(ps, key, i + 1)
    }
}

proof fn lemma_header_pos(hs: Seq<Header>, key: Seq<char>, i: int)
    requires
        0 <= i,
    ensures
        match header_pos(hs, key, i) {
            Some(k) => i <= k < hs.len() && same_name(hs[k].key@, key)
                && forall|j: int| i <= j < k ==> !same_name(#[trigger] hs[j].key@, key),
            None => forall|j: int| i <= j < hs.len() ==> !same_name(#[trigger] hs[j].key@, key),
        },
    decreases hs.len() - i,
{
    if i < hs.len() && !same_name(hs[i].key@, key) {
        lemma_header_pos(hs, key, i + 1);
    }
}

proof fn lemma_header_pos_at(hs: Seq<Header>, key: Seq<char>, k: int, i: int)
    requires
        0 <= i <= k < hs.len(),
        same_name(hs[k].key@, key),
        forall|j: int| 0 <= j < k ==> !same_name(#[trigger] hs[j].key@, key),
    ensures
        header_pos(hs, key, i) == Some(k),
    decreases k - i,
{
    if i < k {
        lemma_header_pos_at(hs, key, k, i + 1);
    }
}

proof fn lemma_param_pos(ps: Seq<Param>, key: Seq<char>, i: int)
    requires
        0 <= i,
    ensures
        match param_pos(ps, key, i) {
            Some(k) => i <= k < ps.len() && same_name(ps[k].key@, key)
                && forall|j: int| i <= j < k ==> !same_name(#[trigger] ps[j].key@, key),
            None => forall|j: int| i <= j < ps.len() ==> !same_name(#[trigger] ps[j].key@, key),
        },
    decreases ps.len() - i,
{
    if i < ps.len() && !same_name(ps[i].key@, key) {
        lemma_param_pos(ps, key, i + 1);
    }
}

proof fn lemma_param_pos_at(ps: Seq<Param>, key: Seq<char>, k: int, i: int)
    requires
        0 <= i <= k < ps.len(),
        same_name(ps[k].key@, key),
        forall|j: int| 0 <= j < k ==> !same_name(#[trigger] ps[j].key@, key),
    ensures
        param_pos(ps, key, i) == Some(k),
    decreases k - i,
{
    if i < k {
        lemma_param_pos_at(ps, key, k, i + 1);
    }
}

fn find_header(hs: &Vec<Header>, key: &str) -> (r: Option<usize>)
    ensures
        match r {
            Some(k) => header_pos(hs@, key@, 0) == Some(k as int) && k < hs@.len(),
            None => header_pos(hs@, key@, 0) is None,
        },
{
    let lower = to_lowercase(key);
    let mut i: usize = 0;
    while i < hs.len()
        invariant
            i <= hs@.len(),
            lower@ == lowercase_text(key@),
            header_pos(hs@, key@, 0) == header_pos(hs@, key@, i as int),
        decreases hs@.len() - i,
    {
        let k = to_lowercase(hs[i].key.as_str());
        if str_eq(k.as_str(), lower.as_str()) {
            return Some(i);
        }
        i = i + 1;
    }
    None
}

fn find_param(ps: &Vec<Param>, key: &str) -> (r: Option<usize>)
    ensures
        match r {
            Some(k) => param_pos(ps@, key@, 0) == Some(k as int) && k < ps@.len(),
            None => param_pos(ps@, key@, 0) is None,
        },
{
    let lower = to_lowercase(key);
    let mut i: usize = 0;
    while i < ps.len()
        invariant
            i <= ps@.len(),
            lower@ == lowercase_text(key@),
            param_pos(ps@, key@, 0) == param_pos(ps@, key@, i as int),
        decreases ps@.len() - i,
    {
        let k = to_lowercase(ps[i].key.as_str());
        if str_eq(k.as_str(), lower.as_str()) {
            return Some(i);
        }
        i = i + 1;
    }
    None
}

/// The enabled pairs of a list, in order.
pub open spec fn enabled_header_texts(hs: Seq<Header>) -> Seq<(Seq<char>, Seq<char>)>
    decreases hs.len(),
{
    if hs.len() == 0 {
        Seq::empty()
    } else if hs.last().enabled {
        enabled_header_texts(hs.drop_last()).push((hs.last().key@, hs.last().value@))
    } else {
        enabled_header_texts(hs.drop_last())
    }
}

pub open spec fn enabled_param_texts(ps: Seq<Param>) -> Seq<(Seq<char>, Seq<char>)>
    decreases ps.len(),
{
    if ps.len() == 0 {
        Seq::empty()
    } else if ps.last().enabled {
        enabled_param_texts(ps.drop_last()).push((ps.last().key@, ps.last().value@))
    } else {
        enabled_param_texts(ps.drop_last())
    }
}

/// The header after `fm.request.setHeader`.
pub open spec fn set_header_spec(hs: Seq<Header>, key: String, value: String) -> Seq<Header> {
    match header_pos(hs, key@, 0) {
        Some(k) => hs.update(k, Header { value: value, ..hs[k] }),
        None => hs.push(Header { key: key, value: value, enabled: true, description: None }),
    }
}

/// The parameters after `fm.request.setParam`.
pub open spec fn set_param_spec(ps: Seq<Param>, key: String, value: String) -> Seq<Param> {
    match param_pos(ps, key@, 0) {
        Some(k) => ps.update(k, Param { value: value, ..ps[k] }),
        None => ps.push(Param { key: key, value: value, enabled: true, description: None }),
    }
}

impl ScriptRequestContext {
    /// `fm.request.getHeader`: the value of the first header with that name
    /// in any case.
    pub fn get_header(&self, key: &str) -> (r: Option<String>)
        ensures
            match header_pos(self.headers@, key@, 0) {
                Some(k) => r == Some(self.headers@[k].value),
                None => r is None,
            },
    {
        match find_header(&self.headers, key) {
            Some(k) => Some(self.headers[k].value.clone()),
            None => None,
        }
    }

    /// `fm.request.setHeader`: the first header with that name in any case
    /// takes the value; with none, an enabled header is added.
    pub fn set_header(&mut self, key: String, value: String)
        ensures
            final(self).headers@ == set_header_spec(old(self).headers@, key, value),
            final(self).url == old(self).url && final(self).method == old(self).method,
            final(self).params == old(self).params && final(self).body == old(self).body,
    {
        match find_header(&self.headers, key.as_str()) {
            Some(k) => {
                let h = Header {
                    key: self.headers[k].key.clone(),
                    value,
                    enabled: self.headers[k].enabled,
                    description: self.headers[k].description.clone(),
                };
                self.headers.set(k, h);
            },
            None => {
                self.headers.push(Header { key, value, enabled: true, description: None });
            },
        }
    }

    /// `fm.request.removeHeader`: drops every header with that name in any
    /// case.
    pub fn remove_header(&mut self, key: &str)
        ensures
            final(self).headers@ == old(self).headers@.filter(|h: Header| !same_name(h.key@, key@)),
            final(self).url == old(self).url && final(self).method == old(self).method,
            final(self).params == old(self).params && final(self).body == old(self).body,
    {
        let ghost pred = |h: Header| !same_name(h.key@, key@);
        let lower = to_lowercase(key);
        let mut kept: Vec<Header> = Vec::new();
        let ghost hs = self.headers@;
        assert(hs.take(0).filter(pred) =~= Seq::<Header>::empty()) by {
            reveal_with_fuel(Seq::<_>::filter, 1);
        }
        for i in 0..self.headers.len()
            invariant
                hs == self.headers@,
                lower@ == lowercase_text(key@),
                pred == (|h: Header| !same_name(h.key@, key@)),
                kept@ == hs.take(i as int).filter(pred),
        {
            assert(hs.take(i + 1).drop_last() =~= hs.take(i as int));
            assert(hs.take(i + 1).filter(pred) == (if pred(hs[i as int]) {
                hs.take(i as int).filter(pred).push(hs[i as int])
            } else {
                hs.take(i as int).filter(pred)
            })) by {
                reveal_with_fuel(Seq::<_>::filter, 1);
            }
            let k = to_lowercase(self.headers[i].key.as_str());
            if !str_eq(k.as_str(), lower.as_str()) {
                kept.push(self.headers[i].clone());
            }
        }
        assert(hs.take(hs.len() as int) =~= hs);
        self.headers = kept;
    }

    /// `fm.request.getHeaders`: the enabled headers as name and value, in
    /// order.
    pub fn enabled_headers(&self) -> (r: Vec<(String, String)>)
        ensures
            pair_texts(r@) == enabled_header_texts(self.headers@),
    {
        let mut r: Vec<(String, String)> = Vec::new();
        for i in 0..self.headers.len()
            invariant
                pair_texts(r@) == enabled_header_texts(self.headers@.take(i as int)),
        {
            assert(self.headers@.take(i + 1).drop_last() =~= self.headers@.take(i as int));
            assert(self.headers@.take(i + 1).last() == self.headers@[i as int]);
            if self.headers[i].enabled {
                let ghost before = r@;
                r.push((self.headers[i].key.clone(), self.headers[i].value.clone()));
                assert(pair_texts(r@) =~= pair_texts(before).push((self.headers@[i as int].key@, self.headers@[i as int].value@)));
            }
        }
        assert(self.headers@.take(self.headers@.len() as int) =~= self.headers@);
        r
    }

    /// `fm.request.getParam`: the value of the first parameter with that
    /// name in any case.
    pub fn get_param(&self, key: &str) -> (r: Option<String>)
        ensures
            match param_pos(self.params@, key@, 0) {
                Some(k) => r == Some(self.params@[k].value),
                None => r is None,
            },
    {
        match find_param(&self.params, key) {
            Some(k) => Some(self.params[k].value.clone()),
            None => None,
        }
    }

    /// `fm.request.setParam`: the first parameter with that name in any
    /// case takes the value; with none, an enabled parameter is added.
    pub fn set_param(&mut self, key: String, value: String)
        ensures
            final(self).params@ == set_param_spec(old(self).params@, key, value),
            final(self).url == old(self).url && final(self).method == old(self).method,
            final(self).headers == old(self).headers && final(self).body == old(self).body,
    {
        match find_param(&self.params, key.as_str()) {
            Some(k) => {
                let p = Param {
                    key: self.params[k].key.clone(),
                    value,
                    enabled: self.params[k].enabled,
                    description: self.params[k].description.clone(),
                };
                self.params.set(k, p);
            },
            None => {
                self.params.push(Param { key, value, enabled: true, description: None });
            },
        }
    }

    /// `fm.request.removeParam`: drops every parameter with that name in any
    /// case.
    pub fn remove_param(&mut self, key: &str)
        ensures
            final(self).params@ == old(self).params@.filter(|p: Param| !same_name(p.key@, key@)),
            final(self).url == old(self).url && final(self).method == old(self).method,
            final(self).headers == old(self).headers && final(self).body == old(self).body,
    {
        let ghost pred = |p: Param| !same_name(p.key@, key@);
        let lower = to_lowercase(key);
        let mut kept: Vec<Param> = Vec::new();
        let ghost ps = self.params@;
        assert(ps.take(0).filter(pred) =~= Seq::<Param>::empty()) by {
            reveal_with_fuel(Seq::<_>::filter, 1);
        }
        for i in 0..self.params.len()
            invariant
                ps == self.params@,
                lower@ == lowercase_text(key@),
                pred == (|p: Param| !same_name(p.key@, key@)),
                kept@ == ps.take(i as int).filter(pred),
        {
            assert(ps.take(i + 1).drop_last() =~= ps.take(i as int));
            assert(ps.take(i + 1).filter(pred) == (if pred(ps[i as int]) {
                ps.take(i as int).filter(pred).push(ps[i as int])
            } else {
                ps.take(i as int).filter(pred)
            })) by {
                reveal_with_fuel(Seq::<_>::filter, 1);
            }
            let k = to_lowercase(self.params[i].key.as_str());
            if !str_eq(k.as_str(), lower.as_str()) {
                kept.push(self.params[i].clone());
            }
        }
        assert(ps.take(ps.len() as int) =~= ps);
        self.params = kept;
    }

    /// `fm.request.getParams`: the enabled parameters as name and value, in
    /// order.
    pub fn enabled_params(&self) -> (r: Vec<(String, String)>)
        ensures
            pair_texts(r@) == enabled_param_texts(self.params@),
    {
        let mut r: Vec<(String, String)> = Vec::new();
        for i in 0..self.params.len()
            invariant
                pair_texts(r@) == enabled_param_texts(self.params@.take(i as int)),
        {
            assert(self.params@.take(i + 1).drop_last() =~= self.params@.take(i as int));
            assert(self.params@.take(i + 1).last() == self.params@[i as int]);
            if self.params[i].enabled {
                let ghost before = r@;
                r.push((self.params[i].key.clone(), self.params[i].value.clone()));
                assert(pair_texts(r@) =~= pair_texts(before).push((self.params@[i as int].key@, self.params@[i as int].value@)));
            }
        }
        assert(self.params@.take(self.params@.len() as int) =~= self.params@);
        r
    }

    /// `fm.request.setBaseUrl`: the new base before the current path.
    pub fn set_base_url(&mut self, base: &str)
        ensures
            final(self).url@ == join_url(base@, url_path(old(self).url@)),
            final(self).method == old(self).method && final(self).headers == old(self).headers,
            final(self).params == old(self).params && final(self).body == old(self).body,
    {
        let path = JsRuntimeExecutor::extract_path(self.url.as_str());
        self.url = JsRuntimeExecutor::build_url(base, path.as_str());
    }

    /// `fm.request.setPath`: the current base before the new path.
    pub fn set_path(&mut self, path: &str)
        ensures
            final(self).url@ == join_url(base_url(old(self).url@), path@),
            final(self).method == old(self).method && final(self).headers == old(self).headers,
            final(self).params == old(self).params && final(self).body == old(self).body,
    {
        let base = JsRuntimeExecutor::extract_base_url(self.url.as_str());
        self.url = JsRuntimeExecutor::build_url(base.as_str(), path);
    }
}

// ---------------------------------------------------------------- laws of the request

/// After `setHeader`, `getHeader` with the same name reads the value set.
pub proof fn lemma_header_read_after_set(hs: Seq<Header>, key: String, value: String)
    ensures
        ({
            let after = set_header_spec(hs, key, value);
            header_pos(after, key@, 0) matches Some(k) && after[k].value == value
        }),
{
    lemma_header_pos(hs, key@, 0);
    let after = set_header_spec(hs, key, value);
    match header_pos(hs, key@, 0) {
        Some(k) => {
            assert forall|j: int| 0 <= j < k implies !same_name(#[trigger] after[j].key@, key@) by {
                assert(after[j] == hs[j]);
            }
            lemma_header_pos_at(after, key@, k, 0);
        },
        None => {
            let k = hs.len() as int;
            assert forall|j: int| 0 <= j < k implies !same_name(#[trigger] after[j].key@, key@) by {
                assert(after[j] == hs[j]);
            }
            lemma_header_pos_at(after, key@, k, 0);
        },
    }
}

/// After `removeHeader`, `getHeader` with the same name (in any case)
/// finds nothing.
pub proof fn lemma_header_gone_after_remove(hs: Seq<Header>, key: Seq<char>)
    ensures
        header_pos(hs.filter(|h: Header| !same_name(h.key@, key)), key, 0) is None,
{
    let pred = |h: Header| !same_name(h.key@, key);
    let f = hs.filter(pred);
    lemma_header_pos(f, key, 0);
    if header_pos(f, key, 0) is Some {
        let k = header_pos(f, key, 0)->Some_0;
        broadcast use vstd::seq_lib::group_filter_ensures;
        assert(f.contains(f[k]));
        assert(pred(f[k]));
    }
}

/// After `setParam`, `getParam` with the same name reads the value set.
pub proof fn lemma_param_read_after_set(ps: Seq<Param>, key: String, value: String)
    ensures
        ({
            let after = set_param_spec(ps, key, value);
            param_pos(after, key@, 0) matches Some(k) && after[k].value == value
        }),
{
    lemma_param_pos(ps, key@, 0);
    let after = set_param_spec(ps, key, value);
    match param_pos(ps, key@, 0) {
        Some(k) => {
            assert forall|j: int| 0 <= j < k implies !same_name(#[trigger] after[j].key@, key@) by {
                assert(after[j] == ps[j]);
            }
            lemma_param_pos_at(after, key@, k, 0);
        },
        None => {
            let k = ps.len() as int;
            assert forall|j: int| 0 <= j < k implies !same_name(#[trigger] after[j].key@, key@) by {
                assert(after[j] == ps[j]);
            }
            lemma_param_pos_at(after, key@, k, 0);
        },
    }
}

// ---------------------------------------------------------------- the run

/// What a script is run with.
#[derive(Debug)]
pub struct ScriptExecutionContext {
    pub environment_variables: Vec<(String, String)>,
    pub target_environment_id: Option<String>,
    pub collection_variables: Vec<(String, String)>,
    /// The variables of each collection, by collection id.
    pub all_collection_variables: Vec<(String, Vec<(String, String)>)>,
    pub target_collection_id: Option<String>,
    pub parent_collection_id: Option<String>,
    pub is_api_script: bool,
    pub request: ScriptRequestContext,
    pub response: Option<ScriptResponseContext>,
}

/// What a run of a script hands back.
#[derive(Debug)]
pub struct ScriptExecutionResult {
    pub success: bool,
    pub modified_environment_vars: Vec<(String, String)>,
    pub modified_target_environment_vars: Option<Vec<(String, String)>>,
    pub target_environment_id: Option<String>,
    pub modified_collection_vars: Vec<(String, String)>,
    pub modified_target_collection_vars: Option<Vec<(String, String)>>,
    pub target_collection_id: Option<String>,
    pub modified_request: Option<ScriptRequestContext>,
    pub test_results: Vec<ScriptTestResult>,
    pub logs: Vec<ScriptLog>,
    pub error: Option<String>,
    pub error_source: Option<String>,
}

/// The variables listed for collection `id` (the first entry with it).
pub open spec fn collection_vars_of(all: Seq<(String, Vec<(String, String)>)>, id: Seq<char>) -> Option<Seq<(String, String)>>
    decreases all.len(),
{
    if all.len() == 0 {
        None
    } else if all[0].0@ == id {
        Some(all[0].1@)
    } else {
        collection_vars_of(all.drop_first(), id)
    }
}

/// The collection whose variables a script changes: a request's script
/// works on its parent collection, a collection's script on itself.
pub open spec fn script_collection_id(c: ScriptExecutionContext) -> Option<String> {
    if c.is_api_script {
        c.parent_collection_id
    } else {
        c.target_collection_id
    }
}

/// The starting variables of that collection; none without one.
pub open spec fn start_collection_vars(c: ScriptExecutionContext) -> Map<Seq<char>, Seq<char>> {
    match script_collection_id(c) {
        Some(id) => match collection_vars_of(c.all_collection_variables@, id@) {
            Some(vs) => map_of(pair_texts(vs)),
            None => Map::empty(),
        },
        None => Map::empty(),
    }
}

fn find_collection_vars(all: &Vec<(String, Vec<(String, String)>)>, id: &str) -> (r: Option<Vec<(String, String)>>)
    ensures
        match collection_vars_of(all@, id@) {
            Some(vs) => r is Some && r->Some_0@ == vs,
            None => r is None,
        },
{
    let mut i: usize = 0;
    assert(all@.skip(0) =~= all@);
    while i < all.len()
        invariant
            i <= all@.len(),
            collection_vars_of(all@, id@) == collection_vars_of(all@.skip(i as int), id@),
        decreases all@.len() - i,
    {
        let ghost rest = all@.skip(i as int);
        assert(rest[0] == all@[i as int]);
        assert(rest.drop_first() =~= all@.skip(i + 1));
        if str_eq(all[i].0.as_str(), id) {
            return Some(clone_pairs(&all[i].1));
        }
        i = i + 1;
    }
    assert(all@.skip(i as int) =~= Seq::<(String, Vec<(String, String)>)>::empty());
    None
}

/// The state of one run of a script: the variables as the script changed
/// them, the request, the response, and what the script logged and
/// asserted.
pub struct ScriptSession {
    /// All environment variables; `fm.environment.get` reads these.
    pub env_vars: VarStore,
    /// The variables of the environment the script belongs to.
    pub target_env_vars: VarStore,
    pub target_environment_id: Option<String>,
    /// All collection variables; `fm.collection.get` reads these.
    pub coll_vars: VarStore,
    /// The variables of the collection the script works on.
    pub target_coll_vars: VarStore,
    pub target_collection_id: Option<String>,
    pub request: ScriptRequestContext,
    pub response: Option<ScriptResponseContext>,
    pub logs: Vec<ScriptLog>,
    pub test_results: Vec<ScriptTestResult>,
    pub source: String,
}

/// The line `fm.log` records.
pub open spec fn log_line_ok(l: ScriptLog, message: Option<String>, source: String) -> bool {
    &&& l.level@ == "log"@
    &&& l.message@ == match message {
        Some(m) => m@,
        None => "null"@,
    }
    &&& l.source == source
}

/// The result `fm.assert` records.
pub open spec fn assertion_ok(t: ScriptTestResult, condition: bool, message: Option<String>) -> bool {
    let name = match message {
        Some(m) => m@,
        None => "断言检查"@,
    };
    &&& t.name@ == name
    &&& t.passed == condition
    &&& (if condition { t.error is None } else { t.error is Some && t.error->Some_0@ == name })
}

impl ScriptSession {
    /// The state at the start of a run.
    pub fn start(context: ScriptExecutionContext, source: String) -> (r: Self)
        ensures
            r.env_vars@ == map_of(pair_texts(context.environment_variables@)),
            r.target_env_vars@ == (if context.target_environment_id is Some {
                map_of(pair_texts(context.environment_variables@))
            } else {
                Map::<Seq<char>, Seq<char>>::empty()
            }),
            r.target_environment_id == context.target_environment_id,
            r.coll_vars@ == map_of(pair_texts(context.collection_variables@)),
            r.target_collection_id == script_collection_id(context),
            r.target_coll_vars@ == start_collection_vars(context),
            r.request == context.request,
            r.response == context.response,
            r.logs@.len() == 0,
            r.test_results@.len() == 0,
            r.source == source,
    {
        let env_vars = VarStore::from_pairs(&context.environment_variables);
        let target_env_vars = if context.target_environment_id.is_some() {
            VarStore::from_pairs(&context.environment_variables)
        } else {
            VarStore::new()
        };
        let coll_vars = VarStore::from_pairs(&context.collection_variables);
        let target_collection_id = if context.is_api_script {
            context.parent_collection_id
        } else {
            context.target_collection_id
        };
        let target_coll_vars = match &target_collection_id {
            Some(id) => match find_collection_vars(&context.all_collection_variables, id.as_str()) {
                Some(vs) => VarStore::from_pairs(&vs),
                None => VarStore::new(),
            },
            None => VarStore::new(),
        };
        ScriptSession {
            env_vars,
            target_env_vars,
            target_environment_id: context.target_environment_id,
            coll_vars,
            target_coll_vars,
            target_collection_id,
            request: context.request,
            response: context.response,
            logs: Vec::new(),
            test_results: Vec::new(),
            source,
        }
    }

    /// `fm.environment.get`.
    pub fn env_get(&self, key: &str) -> (r: Option<String>)
        ensures
            match r {
                Some(v) => self.env_vars@.dom().contains(key@) && self.env_vars@[key@] == v@,
                None => !self.env_vars@.dom().contains(key@),
            },
    {
        self.env_vars.get(key)
    }

    /// `fm.environment.set`: into all variables, and into the script's own
    /// environment when it has one.
    pub fn env_set(&mut self, key: String, value: String)
        ensures
            final(self).env_vars@ == old(self).env_vars@.insert(key@, value@),
            final(self).target_env_vars@ == (if old(self).target_environment_id is Some {
                old(self).target_env_vars@.insert(key@, value@)
            } else {
                old(self).target_env_vars@
            }),
            final(self).target_environment_id == old(self).target_environment_id,
            final(self).coll_vars == old(self).coll_vars && final(self).target_coll_vars == old(self).target_coll_vars,
            final(self).target_collection_id == old(self).target_collection_id,
            final(self).request == old(self).request && final(self).response == old(self).response,
            final(self).logs == old(self).logs && final(self).test_results == old(self).test_results,
            final(self).source == old(self).source,
    {
        if self.target_environment_id.is_some() {
            self.target_env_vars.set(key.clone(), value.clone());
        }
        self.env_vars.set(key, value);
    }

    /// `fm.environment.remove`: from all variables, and from the script's own
    /// environment when it has one.
    pub fn env_remove(&mut self, key: &str)
        ensures
            final(self).env_vars@ == old(self).env_vars@.remove(key@),
            final(self).target_env_vars@ == (if old(self).target_environment_id is Some {
                old(self).target_env_vars@.remove(key@)
            } else {
                old(self).target_env_vars@
            }),
            final(self).target_environment_id == old(self).target_environment_id,
            final(self).coll_vars == old(self).coll_vars && final(self).target_coll_vars == old(self).target_coll_vars,
            final(self).target_collection_id == old(self).target_collection_id,
            final(self).request == old(self).request && final(self).response == old(self).response,
            final(self).logs == old(self).logs && final(self).test_results == old(self).test_results,
            final(self).source == old(self).source,
    {
        self.env_vars.remove(key);
        if self.target_environment_id.is_some() {
            self.target_env_vars.remove(key);
        }
    }

    /// `fm.collection.get`.
    pub fn coll_get(&self, key: &str) -> (r: Option<String>)
        ensures
            match r {
                Some(v) => self.coll_vars@.dom().contains(key@) && self.coll_vars@[key@] == v@,
                None => !self.coll_vars@.dom().contains(key@),
            },
    {
        self.coll_vars.get(key)
    }

    /// `fm.collection.set`: into all variables, and into the collection the
    /// script works on when there is one.
    pub fn coll_set(&mut self, key: String, value: String)
        ensures
            final(self).coll_vars@ == old(self).coll_vars@.insert(key@, value@),
            final(self).target_coll_vars@ == (if old(self).target_collection_id is Some {
                old(self).target_coll_vars@.insert(key@, value@)
            } else {
                old(self).target_coll_vars@
            }),
            final(self).target_collection_id == old(self).target_collection_id,
            final(self).env_vars == old(self).env_vars && final(self).target_env_vars == old(self).target_env_vars,
            final(self).target_environment_id == old(self).target_environment_id,
            final(self).request == old(self).request && final(self).response == old(self).response,
            final(self).logs == old(self).logs && final(self).test_results == old(self).test_results,
            final(self).source == old(self).source,
    {
        if self.target_collection_id.is_some() {
            self.target_coll_vars.set(key.clone(), value.clone());
        }
        self.coll_vars.set(key, value);
    }

    /// `fm.collection.remove`: from all variables, and from the collection
    /// the script works on when there is one.
    pub fn coll_remove(&mut self, key: &str)
        ensures
            final(self).coll_vars@ == old(self).coll_vars@.remove(key@),
            final(self).target_coll_vars@ == (if old(self).target_collection_id is Some {
                old(self).target_coll_vars@.remove(key@)
            } else {
                old(self).target_coll_vars@
            }),
            final(self).target_collection_id == old(self).target_collection_id,
            final(self).env_vars == old(self).env_vars && final(self).target_env_vars == old(self).target_env_vars,
            final(self).target_environment_id == old(self).target_environment_id,
            final(self).request == old(self).request && final(self).response == old(self).response,
            final(self).logs == old(self).logs && final(self).test_results == old(self).test_results,
            final(self).source == old(self).source,
    {
        self.coll_vars.remove(key);
        if self.target_collection_id.is_some() {
            self.target_coll_vars.remove(key);
        }
    }

    /// `fm.log`: a line at level `log`, `null` when the script passed
    /// nothing.
    pub fn log(&mut self, message: Option<String>)
        ensures
            final(self).logs@.len() == old(self).logs@.len() + 1,
            final(self).logs@.drop_last() == old(self).logs@,
            log_line_ok(final(self).logs@.last(), message, old(self).source),
            final(self).test_results == old(self).test_results && final(self).request == old(self).request,
            final(self).env_vars == old(self).env_vars && final(self).coll_vars == old(self).coll_vars,
            final(self).target_env_vars == old(self).target_env_vars && final(self).target_coll_vars == old(self).target_coll_vars,
            final(self).source == old(self).source,
    {
        let text = match message {
            Some(m) => m,
            None => to_string_of("null"),
        };
        let line = ScriptLog { level: to_string_of("log"), message: text, source: self.source.clone() };
        let ghost before = self.logs@;
        self.logs.push(line);
        assert(self.logs@.drop_last() =~= before);
    }

    /// `fm.assert`: recorded when the script runs after a response (the
    /// name defaults to `断言检查`, the error repeats it when the condition
    /// fails); ignored before the request is sent.
    pub fn check(&mut self, condition: bool, message: Option<String>)
        ensures
            old(self).response is Some ==> {
                &&& final(self).test_results@.len() == old(self).test_results@.len() + 1
                &&& final(self).test_results@.drop_last() == old(self).test_results@
                &&& assertion_ok(final(self).test_results@.last(), condition, message)
            },
            old(self).response is None ==> final(self).test_results == old(self).test_results,
            final(self).logs == old(self).logs && final(self).request == old(self).request,
            final(self).env_vars == old(self).env_vars && final(self).coll_vars == old(self).coll_vars,
            final(self).target_env_vars == old(self).target_env_vars && final(self).target_coll_vars == old(self).target_coll_vars,
            final(self).source == old(self).source,
    {
        if self.response.is_none() {
            return;
        }
        let name = match message {
            Some(m) => m,
            None => to_string_of("断言检查"),
        };
        let error = if condition {
            None
        } else {
            Some(name.clone())
        };
        let ghost before = self.test_results@;
        self.test_results.push(ScriptTestResult { name, passed: condition, error });
        assert(self.test_results@.drop_last() =~= before);
    }

    /// The result of the run: successful when no error ended it, the error
    /// then naming the script's source.
    pub fn finish(self, error: Option<String>) -> (r: ScriptExecutionResult)
        ensures
            r.success == (error is None),
            map_of(pair_texts(r.modified_environment_vars@)) == self.env_vars@,
            r.modified_target_environment_vars matches Some(t) && map_of(pair_texts(t@)) == self.target_env_vars@,
            r.target_environment_id == self.target_environment_id,
            map_of(pair_texts(r.modified_collection_vars@)) == self.coll_vars@,
            r.modified_target_collection_vars matches Some(t) && map_of(pair_texts(t@)) == self.target_coll_vars@,
            r.target_collection_id == self.target_collection_id,
            r.modified_request == Some(self.request),
            r.test_results == self.test_results,
            r.logs == self.logs,
            r.error == error,
            r.error_source == (if error is Some { Some(self.source) } else { None::<String> }),
    {
        let error_source = if error.is_some() {
            Some(self.source)
        } else {
            None
        };
        ScriptExecutionResult {
            success: error.is_none(),
            modified_environment_vars: self.env_vars.pairs(),
            modified_target_environment_vars: Some(self.target_env_vars.pairs()),
            target_environment_id: self.target_environment_id,
            modified_collection_vars: self.coll_vars.pairs(),
            modified_target_collection_vars: Some(self.target_coll_vars.pairs()),
            target_collection_id: self.target_collection_id,
            modified_request: Some(self.request),
            test_results: self.test_results,
            logs: self.logs,
            error,
            error_source,
        }
    }
}

/// The result of a script with nothing but whitespace, which is not run:
/// everything as it came in.
pub fn blank_script_result(context: &ScriptExecutionContext) -> (r: ScriptExecutionResult)
    ensures
        r.success,
        r.modified_environment_vars@ == context.environment_variables@,
        r.modified_target_environment_vars is None,
        r.target_environment_id == context.target_environment_id,
        r.modified_collection_vars@ == context.collection_variables@,
        r.modified_target_collection_vars is None,
        r.target_collection_id == context.target_collection_id,
        r.modified_request matches Some(q) && q.url == context.request.url && q.method == context.request.method
            && q.headers@ == context.request.headers@ && q.params@ == context.request.params@
            && q.body == context.request.body,
        r.test_results@.len() == 0 && r.logs@.len() == 0,
        r.error is None && r.error_source is None,
{
    ScriptExecutionResult {
        success: true,
        modified_environment_vars: clone_pairs(&context.environment_variables),
        modified_target_environment_vars: None,
        target_environment_id: match &context.target_environment_id {
            Some(t) => Some(t.clone()),
            None => None,
        },
        modified_collection_vars: clone_pairs(&context.collection_variables),
        modified_target_collection_vars: None,
        target_collection_id: match &context.target_collection_id {
            Some(t) => Some(t.clone()),
            None => None,
        },
        modified_request: Some(context.request.clone()),
        test_results: Vec::new(),
        logs: Vec::new(),
        error: None,
        error_source: None,
    }
}

// ---------------------------------------------------------------- laws of the run

/// After `fm.environment.set`, `fm.environment.get` of the same name reads
/// the value set; after `fm.environment.remove`, it reads nothing.
pub proof fn lemma_env_read_after_write(vars: Map<Seq<char>, Seq<char>>, key: Seq<char>, value: Seq<char>)
    ensures
        vars.insert(key, value).dom().contains(key) && vars.insert(key, value)[key] == value,
        !vars.remove(key).dom().contains(key),
        forall|other: Seq<char>| other != key ==> #[trigger] vars.insert(key, value).dom().contains(other)
            == vars.dom().contains(other),
{
}

// ---------------------------------------------------------------- texts of a run

/// The code run for a script: wrapped in a function, with `getJson` on the
/// response after a request.
pub open spec fn wrapped_code(code: Seq<char>, has_response: bool) -> Seq<char> {
    if has_response {
        "(function() { fm.response.getJson = function() { try { return JSON.parse(fm.response._rawBody); } catch(e) { return null; } }; "@
            + code + "; })()"@
    } else {
        "(function() { "@ + code + " })()"@
    }
}

/// Wraps a script for running.
pub fn wrap_script(code: &str, has_response: bool) -> (r: String)
    ensures
        r@ == wrapped_code(code@, has_response),
{
    if has_response {
        let mut v = chars_of(
            "(function() { fm.response.getJson = function() { try { return JSON.parse(fm.response._rawBody); } catch(e) { return null; } }; ",
        );
        append_chars(&mut v, &chars_of(code));
        append_chars(&mut v, &chars_of("; })()"));
        string_of(&v)
    } else {
        let mut v = chars_of("(function() { ");
        append_chars(&mut v, &chars_of(code));
        append_chars(&mut v, &chars_of(" })()"));
        string_of(&v)
    }
}

/// What a thrown `Error` reads as: its message (or a note that it has
/// none), then its stack on the next line when there is one.
pub fn exception_detail(message: Option<String>, stack: Option<String>) -> (r: String)
    ensures
        ({
            let m = match message {
                Some(x) => x@,
                None => "(无消息的 Error 对象)"@,
            };
            r@ == match stack {
                Some(s) => if s@.len() > 0 { m + seq!['\n'] + s@ } else { m },
                None => m,
            }
        }),
{
    let m = match message {
        Some(x) => x,
        None => to_string_of("(无消息的 Error 对象)"),
    };
    match stack {
        Some(s) => {
            if s.as_str().is_empty() {
                m
            } else {
                let mut v = chars_of(m.as_str());
                v.push('\n');
                append_chars(&mut v, &chars_of(s.as_str()));
                string_of(&v)
            }
        },
        None => m,
    }
}

/// The error of a script that threw.
pub fn script_error_text(source: &str, detail: &str) -> (r: String)
    ensures
        r@ == "Script error in "@ + source@ + ": "@ + detail@,
{
    let mut v = chars_of("Script error in ");
    append_chars(&mut v, &chars_of(source));
    append_chars(&mut v, &chars_of(": "));
    append_chars(&mut v, &chars_of(detail));
    string_of(&v)
}

/// How long the caller waits for a run in all: the CPU limit and five
/// more seconds, saturating.
pub fn outer_timeout_ms(cpu_timeout_ms: u64) -> (r: u64)
    ensures
        r == (if cpu_timeout_ms + 5000 <= u64::MAX { (cpu_timeout_ms + 5000) as u64 } else { u64::MAX }),
{
    cpu_timeout_ms.saturating_add(5000)
}

/// The error of a run that outlived the wait.
pub fn timeout_text(timeout_ms: u64, source: &str) -> (r: String)
    ensures
        r@ == "Script execution timed out after "@ + dec_digits(timeout_ms as nat) + " ms in "@ + source@,
{
    let mut v = chars_of("Script execution timed out after ");
    append_chars(&mut v, &dec_chars(timeout_ms));
    append_chars(&mut v, &chars_of(" ms in "));
    append_chars(&mut v, &chars_of(source));
    string_of(&v)
}

/// How long `fm.sleep(ms)` sleeps: nothing for zero or less, at most five
/// minutes.
pub fn sleep_ms(ms: i32) -> (r: u64)
    ensures
        r == (if ms <= 0 { 0 } else if ms <= 300_000 { ms as u64 } else { 300_000 }),
{
    if ms <= 0 {
        0
    } else if ms <= 300_000 {
        ms as u64
    } else {
        300_000
    }
}

// ---------------------------------------------------------------- the response

/// The value of the first pair named exactly `key`.
pub open spec fn pair_value(s: Seq<(String, String)>, key: Seq<char>) -> Option<Seq<char>>
    decreases s.len(),
{
    if s.len() == 0 {
        None
    } else if s[0].0@ == key {
        Some(s[0].1@)
    } else {
        pair_value(s.drop_first(), key)
    }
}

fn find_pair(s: &Vec<(String, String)>, key: &str) -> (r: Option<String>)
    ensures
        match pair_value(s@, key@) {
            Some(v) => r is Some && r->Some_0@ == v,
            None => r is None,
        },
{
    let mut i: usize = 0;
    assert(s@.skip(0) =~= s@);
    while i < s.len()
        invariant
            i <= s@.len(),
            pair_value(s@, key@) == pair_value(s@.skip(i as int), key@),
        decreases s@.len() - i,
    {
        let ghost rest = s@.skip(i as int);
        assert(rest[0] == s@[i as int]);
        assert(rest.drop_first() =~= s@.skip(i + 1));
        if str_eq(s[i].0.as_str(), key) {
            return Some(s[i].1.clone());
        }
        i = i + 1;
    }
    assert(s@.skip(i as int) =~= Seq::<(String, String)>::empty());
    None
}

impl ScriptResponseContext {
    /// `fm.response.getHeader`: the header named as the key in lower case,
    /// else the one named exactly as the key.
    pub fn get_header(&self, key: &str) -> (r: Option<String>)
        ensures
            match pair_value(self.headers@, lowercase_text(key@)) {
                Some(v) => r is Some && r->Some_0@ == v,
                None => match pair_value(self.headers@, key@) {
                    Some(v) => r is Some && r->Some_0@ == v,
                    None => r is None,
                },
            },
    {
        let lower = to_lowercase(key);
        match find_pair(&self.headers, lower.as_str()) {
            Some(v) => Some(v),
            None => find_pair(&self.headers, key),
        }
    }
}

// ---------------------------------------------------------------- chains of post-request scripts

impl Clone for ScriptResponseContext {
    fn clone(&self) -> (r: Self)
        ensures
            r.status == self.status && r.status_text == self.status_text && r.headers@ == self.headers@
                && r.body == self.body && r.time == self.time && r.size == self.size,
    {
        ScriptResponseContext {
            status: self.status,
            status_text: self.status_text.clone(),
            headers: clone_pairs(&self.headers),
            body: self.body.clone(),
            time: self.time,
            size: self.size,
        }
    }
}

/// The response handed to the post-request scripts of a load test: no
/// status text, the size in bytes of the body.
pub fn post_script_response(status: u16, body: &str, headers: &Vec<(String, String)>, time_ms: u64) -> (r: ScriptResponseContext)
    ensures
        r.status == status && r.status_text@ == ""@ && r.headers@ == headers@ && r.body@ == body@ && r.time == time_ms,
        r.size == vstd::utf8::encode_utf8(body@).len(),
{
    ScriptResponseContext {
        status,
        status_text: to_string_of(""),
        headers: clone_pairs(headers),
        body: to_string_of(body),
        time: time_ms,
        size: body.as_bytes().len() as u64,
    }
}

/// What a chain of post-request scripts gives: whether all ran, whether
/// every assertion passed, the assertions, and the error that stopped it.
#[derive(Debug)]
pub struct PostScriptResult {
    pub success: bool,
    pub all_tests_passed: bool,
    pub test_results: Vec<ScriptTestResult>,
    pub error: Option<String>,
}

/// The outcome of one script of a chain: its result, or why it could not
/// run.
pub type ScriptOutcome = Result<ScriptExecutionResult, String>;

/// A chain of post-request scripts under way: the variables each script
/// passes to the next, the assertions so far, and whether an error stopped
/// it.
pub struct PostScriptChain {
    pub env_vars: Vec<(String, String)>,
    pub coll_vars: Vec<(String, String)>,
    pub test_results: Vec<ScriptTestResult>,
    pub stopped: bool,
    pub error: Option<String>,
}

impl PostScriptChain {
    /// The chain before its first script: the request's variables, no
    /// collection variables.
    pub fn new(variables: Vec<(String, String)>) -> (r: Self)
        ensures
            r.env_vars == variables && r.coll_vars@.len() == 0 && r.test_results@.len() == 0,
            !r.stopped && r.error is None,
    {
        PostScriptChain { env_vars: variables, coll_vars: Vec::new(), test_results: Vec::new(), stopped: false, error: None }
    }

    /// What the next script runs with: the variables so far, no collection
    /// of its own, the request and the response.
    pub fn context(&self, request: &ScriptRequestContext, response: &ScriptResponseContext) -> (r: ScriptExecutionContext)
        ensures
            r.environment_variables@ == self.env_vars@ && r.collection_variables@ == self.coll_vars@,
            r.all_collection_variables@.len() == 0,
            r.target_environment_id is None && r.target_collection_id is None && r.parent_collection_id is None,
            !r.is_api_script,
            r.request.url == request.url && r.request.method == request.method && r.request.headers@ == request.headers@
                && r.request.params@ == request.params@ && r.request.body == request.body,
            r.response matches Some(p) && p.status == response.status && p.status_text == response.status_text
                && p.headers@ == response.headers@ && p.body == response.body && p.time == response.time
                && p.size == response.size,
    {
        ScriptExecutionContext {
            environment_variables: clone_pairs(&self.env_vars),
            target_environment_id: None,
            collection_variables: clone_pairs(&self.coll_vars),
            all_collection_variables: Vec::new(),
            target_collection_id: None,
            parent_collection_id: None,
            is_api_script: false,
            request: request.clone(),
            response: Some(response.clone()),
        }
    }

    /// Takes in the outcome of the next script: its assertions are kept; a
    /// failed script or one that could not run stops the chain with its
    /// error; a successful one hands its variables on.
    pub fn record(&mut self, outcome: ScriptOutcome)
        requires
            !old(self).stopped,
        ensures
            match outcome {
                Ok(res) => {
                    &&& final(self).test_results@ == old(self).test_results@ + res.test_results@
                    &&& if res.success {
                        !final(self).stopped && final(self).env_vars == res.modified_environment_vars
                            && final(self).coll_vars == res.modified_collection_vars && final(self).error == old(self).error
                    } else {
                        final(self).stopped && final(self).error == res.error
                            && final(self).env_vars == old(self).env_vars && final(self).coll_vars == old(self).coll_vars
                    }
                },
                Err(e) => final(self).stopped && final(self).error == Some(e)
                    && final(self).test_results == old(self).test_results
                    && final(self).env_vars == old(self).env_vars && final(self).coll_vars == old(self).coll_vars,
            },
    {
        match outcome {
            Ok(res) => {
                let mut tests = res.test_results;
                self.test_results.append(&mut tests);
                if !res.success {
                    self.stopped = true;
                    self.error = res.error;
                } else {
                    self.env_vars = res.modified_environment_vars;
                    self.coll_vars = res.modified_collection_vars;
                }
            },
            Err(e) => {
                self.stopped = true;
                self.error = Some(e);
            },
        }
    }

    /// The result of the chain.
    pub fn finish(self) -> (r: PostScriptResult)
        ensures
            r.success == !self.stopped,
            r.all_tests_passed == (forall|i: int| 0 <= i < self.test_results@.len() ==> #[trigger] self.test_results@[i].passed),
            r.test_results == self.test_results,
            r.error == self.error,
    {
        let mut all = true;
        for i in 0..self.test_results.len()
            invariant
                all == (forall|j: int| 0 <= j < i ==> #[trigger] self.test_results@[j].passed),
        {
            if !self.test_results[i].passed {
                all = false;
            }
        }
        PostScriptResult { success: !self.stopped, all_tests_passed: all, test_results: self.test_results, error: self.error }
    }
}

} // verus!
