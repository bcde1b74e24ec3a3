//! Pre- and post-request scripts: where a script belongs, the name of its
//! file, the order in which a chain of scripts runs, and the records that
//! index them.

use vstd::prelude::*;
use crate::text::{all_ws, is_blank, to_string_of, str_eq, chars_of, string_of, append_chars, index_of, index_from,
    find_char};

verus! {

/// Whether a script runs before or after the request.
#[derive(Debug, Clone, Copy, PartialEq, Eq, Structural)]
pub enum ScriptKind {
    Pre,
    Post,
}

/// What a script is attached to.
#[derive(Debug, Clone, Copy, PartialEq, Eq, Structural)]
pub enum ScriptTargetType {
    Workspace,
    Environment,
    Collection,
    Api,
}

/// A script to run, with the label of where it comes from.
#[derive(Debug)]
pub struct ScriptInfo {
    pub content: String,
    pub source: String,
}

/// The record that indexes a stored script.
#[derive(Debug)]
pub struct ScriptIndexEntry {
    pub target_type: ScriptTargetType,
    pub target_id: Option<String>,
    pub script_kind: ScriptKind,
    pub file: String,
}

/// The stored word of a target type.
pub open spec fn target_type_text(t: ScriptTargetType) -> Seq<char> {
    match t {
        ScriptTargetType::Api => "api"@,
        ScriptTargetType::Collection => "collection"@,
        ScriptTargetType::Workspace => "workspace"@,
        ScriptTargetType::Environment => "environment"@,
    }
}

/// The stored word of a script kind.
pub open spec fn kind_text(k: ScriptKind) -> Seq<char> {
    match k {
        ScriptKind::Pre => "pre"@,
        ScriptKind::Post => "post"@,
    }
}

/// The target type stored as `s`, if `s` is one of the four words.
pub open spec fn target_type_of(s: Seq<char>) -> Option<ScriptTargetType> {
    if s == "api"@ {
        Some(ScriptTargetType::Api)
    } else if s == "collection"@ {
        Some(ScriptTargetType::Collection)
    } else if s == "workspace"@ {
        Some(ScriptTargetType::Workspace)
    } else if s == "environment"@ {
        Some(ScriptTargetType::Environment)
    } else {
        None
    }
}

/// The script kind stored as `s`, if `s` is `pre` or `post`.
pub open spec fn kind_of(s: Seq<char>) -> Option<ScriptKind> {
    if s == "pre"@ {
        Some(ScriptKind::Pre)
    } else if s == "post"@ {
        Some(ScriptKind::Post)
    } else {
        None
    }
}

/// The file name of a script: `workspace_<kind>.js`, or
/// `<type>_<id>_<kind>.js` with `unknown` standing for a missing id.
pub open spec fn script_filename(t: ScriptTargetType, target_id: Option<Seq<char>>, k: ScriptKind) -> Seq<char> {
    let id = match target_id {
        Some(i) => i,
        None => "unknown"@,
    };
    match t {
        ScriptTargetType::Workspace => "workspace_"@ + kind_text(k) + ".js"@,
        _ => target_type_text(t) + "_"@ + id + "_"@ + kind_text(k) + ".js"@,
    }
}

pub open spec fn opt_str(o: Option<&str>) -> Option<Seq<char>> {
    match o {
        Some(s) => Some(s@),
        None => None,
    }
}

fn kind_word(k: ScriptKind) -> (r: &'static str)
    ensures
        r@ == kind_text(k),
{
    match k {
        ScriptKind::Pre => "pre",
        ScriptKind::Post => "post",
    }
}

fn target_word(t: ScriptTargetType) -> (r: &'static str)
    ensures
        r@ == target_type_text(t),
{
    match t {
        ScriptTargetType::Api => "api",
        ScriptTargetType::Collection => "collection",
        ScriptTargetType::Workspace => "workspace",
        ScriptTargetType::Environment => "environment",
    }
}

/// Naming of script files.
pub struct ScriptDomainService;

impl ScriptDomainService {
    /// The file name of the script of `script_kind` attached to a target.
    pub fn generate_script_filename(target_type: ScriptTargetType, target_id: Option<&str>, script_kind: ScriptKind) -> (r: String)
        ensures
            r@ == script_filename(target_type, opt_str(target_id), script_kind),
    {
        let kind_str = kind_word(script_kind);
        let id: &str = match target_id {
            Some(i) => i,
            None => "unknown",
        };
        match target_type {
            ScriptTargetType::Workspace => {
                let mut v = chars_of("workspace_");
                append_chars(&mut v, &chars_of(kind_str));
                append_chars(&mut v, &chars_of(".js"));
                string_of(&v)
            },
            _ => {
                let mut v = chars_of(target_word(target_type));
                append_chars(&mut v, &chars_of("_"));
                append_chars(&mut v, &chars_of(id));
                append_chars(&mut v, &chars_of("_"));
                append_chars(&mut v, &chars_of(kind_str));
                append_chars(&mut v, &chars_of(".js"));
                string_of(&v)
            },
        }
    }
}

/// The label of where a script comes from: the target type's word, or for
/// a collection `collection:` followed by its name, else its id, else
/// `unknown`.
pub open spec fn source_identifier(t: ScriptTargetType, target_id: Option<Seq<char>>, target_name: Option<Seq<char>>) -> Seq<char> {
    match t {
        ScriptTargetType::Collection => "collection:"@ + match target_name {
            Some(n) => n,
            None => match target_id {
                Some(i) => i,
                None => "unknown"@,
            },
        },
        _ => target_type_text(t),
    }
}

/// Rules for running chains of scripts.
pub struct ScriptExecutionDomainService;

impl ScriptExecutionDomainService {
    /// The order in which a chain runs: pre-request scripts as given
    /// (workspace, environment, collections from the root, request),
    /// post-request scripts in reverse.
    pub fn order_script_chain(scripts: Vec<ScriptInfo>, kind: ScriptKind) -> (r: Vec<ScriptInfo>)
        ensures
            r@ == (if kind == ScriptKind::Post { scripts@.reverse() } else { scripts@ }),
    {
        if kind == ScriptKind::Post {
            let ghost orig = scripts@;
            let mut rest = scripts;
            let mut out: Vec<ScriptInfo> = Vec::new();
            while rest.len() > 0
                invariant
                    out@ + rest@.reverse() == orig.reverse(),
                decreases rest@.len(),
            {
                let ghost before = rest@;
                let x = rest.pop();
                match x {
                    Some(item) => {
                        assert(before.reverse() =~= seq![item] + rest@.reverse());
                        assert(out@.push(item) + rest@.reverse() =~= out@ + before.reverse());
                        out.push(item);
                    },
                    None => {},
                }
            }
            assert(rest@.reverse() =~= Seq::<ScriptInfo>::empty());
            assert(out@ + rest@.reverse() =~= out@);
            out
        } else {
            scripts
        }
    }

    /// A script with nothing but whitespace is empty.
    pub fn is_empty_script(content: &str) -> (r: bool)
        ensures
            r == all_ws(content@),
    {
        is_blank(content)
    }

    /// The label of where a script comes from.
    pub fn generate_source_identifier(target_type: ScriptTargetType, target_id: Option<&str>, target_name: Option<&str>) -> (r: String)
        ensures
            r@ == source_identifier(target_type, opt_str(target_id), opt_str(target_name)),
    {
        match target_type {
            ScriptTargetType::Collection => {
                let tail: &str = match target_name {
                    Some(n) => n,
                    None => match target_id {
                        Some(i) => i,
                        None => "unknown",
                    },
                };
                let mut v = chars_of("collection:");
                append_chars(&mut v, &chars_of(tail));
                string_of(&v)
            },
            _ => to_string_of(target_word(target_type)),
        }
    }
}

// ---------------------------------------------------------------- stored records

/// Index of the last `c` in `t`.
pub open spec fn last_index_of(t: Seq<char>, c: char) -> Option<int>
    decreases t.len(),
{
    if t.len() == 0 {
        None
    } else if t.last() == c {
        Some(t.len() - 1)
    } else {
        last_index_of(t.drop_last(), c)
    }
}

/// Whether `t` ends with `suf`.
pub open spec fn has_suffix(t: Seq<char>, suf: Seq<char>) -> bool {
    suf.len() <= t.len() && t.skip(t.len() - suf.len()) == suf
}

/// Target type, target id and kind read back from a script file name: the
/// type is the text before the first `_`; of the rest, without a final
/// `.js`, the kind is the text after the last `_` and the id the text
/// before it (no id when there is no `_`). The error says what could not be
/// read.
pub open spec fn meta_from_filename(f: Seq<char>) -> Result<(ScriptTargetType, Option<Seq<char>>, ScriptKind), Seq<char>> {
    match index_of(f, '_') {
        None => Err("无法从文件名推断脚本元数据: "@ + f),
        Some(i) => {
            let tts = f.take(i);
            let rest = f.skip(i + 1);
            match target_type_of(tts) {
                None => Err("无效的 target_type: "@ + tts),
                Some(tt) => {
                    let ks = if has_suffix(rest, ".js"@) { rest.take(rest.len() - ".js"@.len()) } else { rest };
                    let tid = match last_index_of(ks, '_') {
                        Some(j) => Some(ks.take(j)),
                        None => None,
                    };
                    let kstr = match last_index_of(ks, '_') {
                        Some(j) => ks.skip(j + 1),
                        None => ks,
                    };
                    match kind_of(kstr) {
                        None => Err("无效的 script_kind: "@ + kstr),
                        Some(k) => Ok((tt, tid, k)),
                    }
                },
            }
        },
    }
}

/// The key under which a script's content is kept: `<type>_<id>_<kind>`,
/// or `<type>_<kind>` without an id.
pub open spec fn content_key_text(t: ScriptTargetType, target_id: Option<Seq<char>>, k: ScriptKind) -> Seq<char> {
    match target_id {
        Some(i) => target_type_text(t) + "_"@ + i + "_"@ + kind_text(k),
        None => target_type_text(t) + "_"@ + kind_text(k),
    }
}

pub open spec fn opt_string_view(o: Option<String>) -> Option<Seq<char>> {
    match o {
        Some(s) => Some(s@),
        None => None,
    }
}

fn find_last_char(v: &Vec<char>, c: char) -> (r: Option<usize>)
    ensures
        match r {
            Some(j) => last_index_of(v@, c) == Some(j as int) && j < v@.len(),
            None => last_index_of(v@, c) is None,
        },
{
    let mut n = v.len();
    assert(v@.take(n as int) =~= v@);
    while n > 0
        invariant
            n <= v@.len(),
            last_index_of(v@, c) == last_index_of(v@.take(n as int), c),
        decreases n,
    {
        assert(v@.take(n as int).last() == v@[n - 1]);
        assert(v@.take(n as int).drop_last() =~= v@.take(n - 1));
        if v[n - 1] == c {
            return Some(n - 1);
        }
        n = n - 1;
    }
    None
}

fn ends_with_chars(v: &Vec<char>, suf: &str) -> (b: bool)
    ensures
        b == has_suffix(v@, suf@),
{
    let w = chars_of(suf);
    if w.len() > v.len() {
        return false;
    }
    let vl = v.len();
    let off = vl - w.len();
    for k in 0..w.len()
        invariant
            vl == v@.len(),
            w@ == suf@,
            off == v@.len() - w@.len(),
            forall|m: int| 0 <= m < k ==> v@[off + m] == w@[m],
    {
        if v[off + k] != w[k] {
            assert(v@.skip(off as int)[k as int] == v@[off + k]);
            return false;
        }
    }
    assert(v@.skip(off as int) =~= w@);
    true
}

fn text_of_opt(o: &Option<Vec<char>>) -> (r: Option<String>)
    ensures
        opt_string_view(r) == (match o {
            Some(v) => Some(v@),
            None => None::<Seq<char>>,
        }),
{
    match o {
        Some(v) => Some(string_of(v)),
        None => None,
    }
}

/// The script store of a local workspace, kept in its SQLite database.
pub struct SqliteScriptRepository;

impl SqliteScriptRepository {
    pub fn new() -> (r: Self) {
        SqliteScriptRepository
    }

    /// The stored word of a target type.
    pub fn target_type_to_str(tt: &ScriptTargetType) -> (r: &'static str)
        ensures
            r@ == target_type_text(*tt),
    {
        target_word(*tt)
    }

    /// The target type stored as `s`.
    pub fn str_to_target_type(s: &str) -> (r: Option<ScriptTargetType>)
        ensures
            r == target_type_of(s@),
    {
        if str_eq(s, "api") {
            Some(ScriptTargetType::Api)
        } else if str_eq(s, "collection") {
            Some(ScriptTargetType::Collection)
        } else if str_eq(s, "workspace") {
            Some(ScriptTargetType::Workspace)
        } else if str_eq(s, "environment") {
            Some(ScriptTargetType::Environment)
        } else {
            None
        }
    }

    /// The stored word of a script kind.
    pub fn kind_to_str(k: &ScriptKind) -> (r: &'static str)
        ensures
            r@ == kind_text(*k),
    {
        kind_word(*k)
    }

    /// The script kind stored as `s`.
    pub fn str_to_kind(s: &str) -> (r: Option<ScriptKind>)
        ensures
            r == kind_of(s@),
    {
        if str_eq(s, "pre") {
            Some(ScriptKind::Pre)
        } else if str_eq(s, "post") {
            Some(ScriptKind::Post)
        } else {
            None
        }
    }

    /// An index record from the stored words; an unknown word is an error.
    pub fn raw_to_entry(target_type_str: String, target_id: Option<String>, script_kind_str: String, filename: String) -> (r: Result<ScriptIndexEntry, String>)
        ensures
            match (target_type_of(target_type_str@), kind_of(script_kind_str@)) {
                (None, _) => r is Err && r->Err_0@ == "无效的脚本目标类型: "@ + target_type_str@,
                (Some(_), None) => r is Err && r->Err_0@ == "无效的脚本类型: "@ + script_kind_str@,
                (Some(t), Some(k)) => r is Ok && r->Ok_0.target_type == t && r->Ok_0.script_kind == k
                    && r->Ok_0.target_id == target_id && r->Ok_0.file == filename,
            },
    {
        let target_type = match Self::str_to_target_type(target_type_str.as_str()) {
            Some(t) => t,
            None => {
                return Err(crate::text::concat2("无效的脚本目标类型: ", target_type_str.as_str()));
            },
        };
        let script_kind = match Self::str_to_kind(script_kind_str.as_str()) {
            Some(k) => k,
            None => {
                return Err(crate::text::concat2("无效的脚本类型: ", script_kind_str.as_str()));
            },
        };
        Ok(ScriptIndexEntry { target_type, target_id, script_kind, file: filename })
    }

    /// The key under which an entry's content is kept.
    pub fn content_key(entry: &ScriptIndexEntry) -> (r: String)
        ensures
            r@ == content_key_text(entry.target_type, opt_string_view(entry.target_id), entry.script_kind),
    {
        let mut v = chars_of(target_word(entry.target_type));
        append_chars(&mut v, &chars_of("_"));
        match &entry.target_id {
            Some(tid) => {
                append_chars(&mut v, &chars_of(tid.as_str()));
                append_chars(&mut v, &chars_of("_"));
            },
            None => {},
        }
        append_chars(&mut v, &chars_of(kind_word(entry.script_kind)));
        proof {
            reveal_strlit("_");
        }
        assert(v@ =~= content_key_text(entry.target_type, opt_string_view(entry.target_id), entry.script_kind));
        string_of(&v)
    }

    /// The id of a stored script: `script_` and its content key.
    pub fn generate_id(entry: &ScriptIndexEntry) -> (r: String)
        ensures
            r@ == "script_"@ + content_key_text(entry.target_type, opt_string_view(entry.target_id), entry.script_kind),
    {
        let key = Self::content_key(entry);
        crate::text::concat2("script_", key.as_str())
    }

    /// The index record of a script file stored without one, read back from
    /// its name.
    pub fn entry_from_filename(filename: &str) -> (r: Result<ScriptIndexEntry, String>)
        ensures
            match meta_from_filename(filename@) {
                Ok((t, tid, k)) => r is Ok && r->Ok_0.target_type == t && opt_string_view(r->Ok_0.target_id) == tid
                    && r->Ok_0.script_kind == k && r->Ok_0.file@ == filename@,
                Err(e) => r is Err && r->Err_0@ == e,
            },
    {
        let f = chars_of(filename);
        let flen = f.len();
        let i = match find_char(&f, '_') {
            Some(i) => i,
            None => {
                return Err(crate::text::concat2("无法从文件名推断脚本元数据: ", filename));
            },
        };
        let tts = crate::text::take_chars(&f, i);
        let tts_s = string_of(&tts);
        let target_type = match Self::str_to_target_type(tts_s.as_str()) {
            Some(t) => t,
            None => {
                return Err(crate::text::concat2("无效的 target_type: ", tts_s.as_str()));
            },
        };
        assert(i < flen);
        let rest = crate::text::skip_chars(&f, i + 1);
        let ks = if ends_with_chars(&rest, ".js") {
            let n = chars_of(".js");
            crate::text::take_chars(&rest, rest.len() - n.len())
        } else {
            rest
        };
        let (tid, kstr) = match find_last_char(&ks, '_') {
            Some(j) => (Some(crate::text::take_chars(&ks, j)), crate::text::skip_chars(&ks, j + 1)),
            None => (None, ks),
        };
        let kstr_s = string_of(&kstr);
        let script_kind = match Self::str_to_kind(kstr_s.as_str()) {
            Some(k) => k,
            None => {
                return Err(crate::text::concat2("无效的 script_kind: ", kstr_s.as_str()));
            },
        };
        Ok(ScriptIndexEntry {
            target_type,
            target_id: text_of_opt(&tid),
            script_kind,
            file: to_string_of(filename),
        })
    }
}

// ---------------------------------------------------------------- laws

/// Every target type is read back from its stored word.
pub proof fn lemma_target_type_text_roundtrip(t: ScriptTargetType)
    ensures
        target_type_of(target_type_text(t)) == Some(t),
{
    reveal_strlit("api");
    reveal_strlit("collection");
    reveal_strlit("workspace");
    reveal_strlit("environment");
    assert("api"@.len() == 3 && "collection"@.len() == 10);
    assert("workspace"@.len() == 9 && "environment"@.len() == 11);
}

/// Every script kind is read back from its stored word.
pub proof fn lemma_kind_text_roundtrip(k: ScriptKind)
    ensures
        kind_of(kind_text(k)) == Some(k),
{
    reveal_strlit("pre");
    reveal_strlit("post");
    assert("pre"@.len() == 3 && "post"@.len() == 4);
}

/// Running the post-request ordering twice gives the chain back.
pub proof fn lemma_post_order_involutive(s: Seq<ScriptInfo>)
    ensures
        s.reverse().reverse() == s,
{
    assert(s.reverse().reverse() =~= s);
}

proof fn lemma_index_from_at(t: Seq<char>, c: char, i: int, p: int)
    requires
        0 <= i <= p < t.len(),
        t[p] == c,
        forall|m: int| i <= m < p ==> t[m] != c,
    ensures
        index_from(t, c, i) == Some(p),
    decreases p - i,
{
    if i < p {
        lemma_index_from_at(t, c, i + 1, p);
    }
}

proof fn lemma_first_underscore(a: Seq<char>, b: Seq<char>)
    requires
        !a.contains('_'),
    ensures
        index_of(a + seq!['_'] + b, '_') == Some(a.len() as int),
{
    let t = a + seq!['_'] + b;
    assert forall|m: int| 0 <= m < a.len() implies t[m] != '_' by {
        assert(t[m] == a[m]);
    }
    lemma_index_from_at(t, '_', 0, a.len() as int);
}

proof fn lemma_last_underscore(a: Seq<char>, b: Seq<char>)
    requires
        !b.contains('_'),
    ensures
        last_index_of(a + seq!['_'] + b, '_') == Some(a.len() as int),
    decreases b.len(),
{
    let t = a + seq!['_'] + b;
    if b.len() == 0 {
        assert(t.last() == '_');
    } else {
        assert(t.last() == b.last());
        assert(!(b.last() == '_')) by {
            assert(b[b.len() - 1] == b.last());
        }
        assert(t.drop_last() =~= a + seq!['_'] + b.drop_last());
        assert(!b.drop_last().contains('_')) by {
            if b.drop_last().contains('_') {
                let m = choose|m: int| 0 <= m < b.drop_last().len() && b.drop_last()[m] == '_';
                assert(b[m] == '_');
            }
        }
        lemma_last_underscore(a, b.drop_last());
    }
}

proof fn lemma_word_facts()
    ensures
        !"api"@.contains('_'),
        !"collection"@.contains('_'),
        !"workspace"@.contains('_'),
        !"environment"@.contains('_'),
        !"pre"@.contains('_'),
        !"post"@.contains('_'),
        "workspace_"@ == "workspace"@ + seq!['_'],
        "_"@ == seq!['_'],
        ".js"@.len() == 3,
{
    reveal_strlit("api");
    reveal_strlit("collection");
    reveal_strlit("workspace");
    reveal_strlit("environment");
    reveal_strlit("pre");
    reveal_strlit("post");
    reveal_strlit("workspace_");
    reveal_strlit("_");
    reveal_strlit(".js");
    assert("workspace_"@ =~= "workspace"@ + seq!['_']);
    assert("_"@ =~= seq!['_']);
}

/// A script file name reads back as the target type, id and kind it was
/// made from; a workspace script has no id, and a missing id reads back as
/// `unknown`.
pub proof fn lemma_filename_roundtrip(t: ScriptTargetType, target_id: Option<Seq<char>>, k: ScriptKind)
    ensures
        meta_from_filename(script_filename(t, target_id, k)) == Ok::<(ScriptTargetType, Option<Seq<char>>, ScriptKind), Seq<char>>((
            t,
            if t == ScriptTargetType::Workspace {
                None
            } else {
                Some(match target_id {
                    Some(i) => i,
                    None => "unknown"@,
                })
            },
            k,
        )),
{
    lemma_word_facts();
    lemma_target_type_text_roundtrip(t);
    lemma_kind_text_roundtrip(k);
    let id = match target_id {
        Some(i) => i,
        None => "unknown"@,
    };
    let tt = target_type_text(t);
    let kt = kind_text(k);
    let f = script_filename(t, target_id, k);
    let js = ".js"@;
    if t == ScriptTargetType::Workspace {
        assert(f =~= tt + seq!['_'] + (kt + js));
        lemma_first_underscore(tt, kt + js);
        assert(f.take(tt.len() as int) =~= tt);
        let rest = f.skip(tt.len() as int + 1);
        assert(rest =~= kt + js);
        assert(rest.skip(rest.len() - 3) =~= js);
        let ks = rest.take(rest.len() - 3);
        assert(ks =~= kt);
        assert(last_index_of(ks, '_') is None) by {
            lemma_no_underscore_last(ks);
        }
    } else {
        assert(f =~= tt + seq!['_'] + (id + seq!['_'] + kt + js));
        lemma_first_underscore(tt, id + seq!['_'] + kt + js);
        assert(f.take(tt.len() as int) =~= tt);
        let rest = f.skip(tt.len() as int + 1);
        assert(rest =~= id + seq!['_'] + kt + js);
        assert(rest.skip(rest.len() - 3) =~= js);
        let ks = rest.take(rest.len() - 3);
        assert(ks =~= id + seq!['_'] + kt);
        lemma_last_underscore(id, kt);
        assert(ks.take(id.len() as int) =~= id);
        assert(ks.skip(id.len() as int + 1) =~= kt);
    }
}

proof fn lemma_no_underscore_last(s: Seq<char>)
    requires
        !s.contains('_'),
    ensures
        last_index_of(s, '_') is None,
    decreases s.len(),
{
    if s.len() > 0 {
        assert(s[s.len() - 1] == s.last());
        assert(!s.drop_last().contains('_')) by {
            if s.drop_last().contains('_') {
                let m = choose|m: int| 0 <= m < s.drop_last().len() && s.drop_last()[m] == '_';
                assert(s[m] == '_');
            }
        }
        lemma_no_underscore_last(s.drop_last());
    }
}

} // verus!
