//! Backups of workspaces in a git repository: safe file names, the names
//! of backup files and the timestamps read back from them, and the newest
//! first listing.

use vstd::prelude::*;
use vstd::multiset::Multiset;
use crate::text::{chars_of, string_of, append_chars, is_ws, char_is_ws, has_prefix, to_string_of};
use crate::variables::{trim, trimmed_range, lex_lt, chars_lt, lemma_lex_irreflexive, lemma_lex_transitive,
    lemma_lex_total};
use crate::validation::is_digit;

verus! {

broadcast use vstd::seq_lib::group_to_multiset_ensures;

/// Characters that cannot stand in a file name on common systems.
pub open spec fn is_unsafe_char(c: char) -> bool {
    c == '<' || c == '>' || c == ':' || c == '"' || c == '/' || c == '\\' || c == '|' || c == '?' || c == '*'
}

/// Trailing dots removed.
pub open spec fn trim_end_dots(s: Seq<char>) -> Seq<char>
    decreases s.len(),
{
    if s.len() > 0 && s.last() == '.' {
        trim_end_dots(s.drop_last())
    } else {
        s
    }
}

/// A workspace name made safe as a file name: unsafe characters become
/// `_`, surrounding whitespace and trailing dots go, and an empty result
/// becomes `workspace`.
pub open spec fn safe_file_name(name: Seq<char>) -> Seq<char> {
    let mapped = name.map_values(|c: char| if is_unsafe_char(c) { '_' } else { c });
    let s = trim_end_dots(trim(mapped));
    if s.len() == 0 {
        "workspace"@
    } else {
        s
    }
}

/// Makes a workspace name safe as a file name.
pub fn sanitize_filename(name: &str) -> (r: String)
    ensures
        r@ == safe_file_name(name@),
{
    let v = chars_of(name);
    let mut mapped: Vec<char> = Vec::new();
    for i in 0..v.len()
        invariant
            mapped@ == v@.take(i as int).map_values(|c: char| if is_unsafe_char(c) { '_' } else { c }),
    {
        let c = v[i];
        let d = if c == '<' || c == '>' || c == ':' || c == '"' || c == '/' || c == '\\' || c == '|' || c == '?'
            || c == '*' {
            '_'
        } else {
            c
        };
        mapped.push(d);
        assert(v@.take(i + 1).map_values(|c: char| if is_unsafe_char(c) { '_' } else { c }) =~= v@.take(
            i as int,
        ).map_values(|c: char| if is_unsafe_char(c) { '_' } else { c }).push(d));
    }
    assert(v@.take(v@.len() as int) =~= v@);
    let t = trimmed_range(&mapped, 0, mapped.len());
    assert(mapped@.subrange(0, mapped@.len() as int) =~= mapped@);
    let mut n = t.len();
    assert(t@.take(n as int) =~= t@);
    while n > 0 && t[n - 1] == '.'
        invariant
            n <= t@.len(),
            trim_end_dots(t@) == trim_end_dots(t@.take(n as int)),
        decreases n,
    {
        assert(t@.take(n as int).drop_last() =~= t@.take(n - 1));
        n = n - 1;
    }
    if n == 0 {
        return to_string_of("workspace");
    }
    let out = crate::text::take_chars(&t, n);
    string_of(&out)
}

// ---------------------------------------------------------------- names

/// A backup timestamp `YYYYMMDD_HHMMSS`: eight digits, `_`, six digits.
pub open spec fn is_backup_stamp(s: Seq<char>) -> bool {
    &&& s.len() == 15
    &&& s[8] == '_'
    &&& forall|i: int| 0 <= i < 15 && i != 8 ==> is_digit(#[trigger] s[i])
}

/// Where a workspace's backups live in the repository:
/// `workspaces/<safe name>`.
pub open spec fn backup_dir_text(ws_name: Seq<char>) -> Seq<char> {
    "workspaces/"@ + safe_file_name(ws_name)
}

/// The file of a backup: `<safe name>_<timestamp>.json`.
pub open spec fn backup_file_text(ws_name: Seq<char>, stamp: Seq<char>) -> Seq<char> {
    safe_file_name(ws_name) + seq!['_'] + stamp + ".json"@
}

/// The timestamp of a backup file: the `YYYYMMDD_HHMMSS` just before a
/// final `.json`, or nothing (empty) when the name does not end so.
pub open spec fn stamp_of(file_name: Seq<char>) -> Seq<char> {
    if file_name.len() >= 20 && file_name.skip(file_name.len() - 5) == ".json"@ && is_backup_stamp(
        file_name.subrange(file_name.len() - 20, file_name.len() - 5),
    ) {
        file_name.subrange(file_name.len() - 20, file_name.len() - 5)
    } else {
        Seq::empty()
    }
}

/// The directory of a workspace's backups.
pub fn backup_dir(ws_name: &str) -> (r: String)
    ensures
        r@ == backup_dir_text(ws_name@),
{
    let safe = sanitize_filename(ws_name);
    crate::text::concat2("workspaces/", safe.as_str())
}

/// The file name of a backup made at `stamp`.
pub fn backup_file_name(ws_name: &str, stamp: &str) -> (r: String)
    ensures
        r@ == backup_file_text(ws_name@, stamp@),
{
    let safe = sanitize_filename(ws_name);
    let mut v = chars_of(safe.as_str());
    v.push('_');
    append_chars(&mut v, &chars_of(stamp));
    append_chars(&mut v, &chars_of(".json"));
    assert(v@ =~= backup_file_text(ws_name@, stamp@));
    string_of(&v)
}

/// The commit message of a backup.
pub fn backup_message(ws_name: &str, stamp: &str) -> (r: String)
    ensures
        r@ == "backup: "@ + ws_name@ + " ("@ + stamp@ + ")"@,
{
    let mut v = chars_of("backup: ");
    append_chars(&mut v, &chars_of(ws_name));
    append_chars(&mut v, &chars_of(" ("));
    append_chars(&mut v, &chars_of(stamp));
    append_chars(&mut v, &chars_of(")"));
    string_of(&v)
}

/// The timestamp of a backup file name.
pub fn backup_stamp(file_name: &str) -> (r: String)
    ensures
        r@ == stamp_of(file_name@),
{
    let v = chars_of(file_name);
    let n = v.len();
    proof {
        reveal_strlit("");
    }
    if n < 20 {
        return to_string_of("");
    }
    let tail = crate::text::skip_chars(&v, n - 5);
    if !crate::text::chars_eq(&tail, &chars_of(".json")) {
        return to_string_of("");
    }
    let mut ok = v[n - 12] == '_';
    let mut k: usize = 0;
    while k < 15
        invariant
            n == v@.len(),
            n >= 20,
            k <= 15,
            ok <==> (v@[n - 12] == '_' && forall|i: int| 0 <= i < k && i != 8 ==> is_digit(#[trigger] v@[n - 20 + i])),
        decreases 15 - k,
    {
        if k != 8 {
            let c = v[n - 20 + k];
            if !('0' <= c && c <= '9') {
                ok = false;
            }
        }
        k = k + 1;
    }
    let s = crate::text::skip_chars(&crate::text::take_chars(&v, n - 5), n - 20);
    assert(s@ =~= v@.subrange(n - 20, n - 5));
    assert(s@.len() == 15);
    assert(s@[8] == v@[n - 12]);
    assert(forall|i: int| 0 <= i < 15 ==> s@[i] == #[trigger] v@[n - 20 + i]);
    proof {
        if ok {
            assert forall|i: int| 0 <= i < 15 && i != 8 implies is_digit(#[trigger] s@[i]) by {
                assert(s@[i] == v@[n - 20 + i]);
            }
        } else if v@[n - 12] == '_' {
            let i = choose|i: int| 0 <= i < 15 && i != 8 && !is_digit(#[trigger] v@[n - 20 + i]);
            assert(!is_digit(s@[i]));
        }
    }
    if ok {
        string_of(&s)
    } else {
        to_string_of("")
    }
}

/// The timestamp of a backup's file name is the one it was named with.
pub proof fn lemma_stamp_roundtrip(ws_name: Seq<char>, stamp: Seq<char>)
    requires
        is_backup_stamp(stamp),
    ensures
        stamp_of(backup_file_text(ws_name, stamp)) == stamp,
{
    reveal_strlit(".json");
    let f = backup_file_text(ws_name, stamp);
    let n = f.len();
    assert(f.skip(n - 5) =~= ".json"@);
    assert(f.subrange(n - 20, n - 5) =~= stamp);
}

// ---------------------------------------------------------------- listing

/// A backup file in the repository.
#[derive(Debug)]
pub struct GitBackupFile {
    pub workspace_name: String,
    pub file_name: String,
    pub timestamp: String,
    pub size: u64,
}

pub open spec fn file_key(f: GitBackupFile) -> (Seq<char>, Seq<char>, Seq<char>, u64) {
    (f.workspace_name@, f.file_name@, f.timestamp@, f.size)
}

pub open spec fn file_keys(s: Seq<GitBackupFile>) -> Seq<(Seq<char>, Seq<char>, Seq<char>, u64)> {
    s.map_values(|f: GitBackupFile| file_key(f))
}

/// Newest first: no timestamp comes before a later one.
pub open spec fn newest_first(s: Seq<GitBackupFile>) -> bool {
    forall|i: int, j: int| 0 <= i < j < s.len() ==> !lex_lt(#[trigger] s[i].timestamp@, #[trigger] s[j].timestamp@)
}

/// `f` placed before the first backup strictly older than it, so after all
/// that are at least as new.
pub open spec fn insert_newest(
    s: Seq<(Seq<char>, Seq<char>, Seq<char>, u64)>,
    f: (Seq<char>, Seq<char>, Seq<char>, u64),
) -> Seq<(Seq<char>, Seq<char>, Seq<char>, u64)>
    decreases s.len(),
{
    if s.len() == 0 {
        seq![f]
    } else if lex_lt(s[0].2, f.2) {
        seq![f] + s
    } else {
        seq![s[0]] + insert_newest(s.drop_first(), f)
    }
}

/// The backups newest first by timestamp, those with equal timestamps in
/// their first order: each in turn placed after all at least as new.
pub open spec fn sorted_newest(s: Seq<(Seq<char>, Seq<char>, Seq<char>, u64)>) -> Seq<(Seq<char>, Seq<char>, Seq<char>, u64)>
    decreases s.len(),
{
    if s.len() == 0 {
        Seq::empty()
    } else {
        insert_newest(sorted_newest(s.drop_last()), s.last())
    }
}

proof fn lemma_insert_newest_at(s: Seq<(Seq<char>, Seq<char>, Seq<char>, u64)>, f: (Seq<char>, Seq<char>, Seq<char>, u64), p: int)
    requires
        0 <= p <= s.len(),
        forall|i: int| 0 <= i < p ==> !lex_lt(#[trigger] s[i].2, f.2),
        p < s.len() ==> lex_lt(s[p].2, f.2),
    ensures
        insert_newest(s, f) == s.insert(p, f),
    decreases s.len(),
{
    if s.len() == 0 {
        assert(s.insert(0, f) =~= seq![f]);
    } else if p == 0 {
        assert(s.insert(0, f) =~= seq![f] + s);
    } else {
        let t = s.drop_first();
        assert forall|i: int| 0 <= i < p - 1 implies !lex_lt(#[trigger] t[i].2, f.2) by {
            assert(t[i] == s[i + 1]);
        }
        assert(!lex_lt(s[0].2, f.2));
        lemma_insert_newest_at(t, f, p - 1);
        assert(s.insert(p, f) =~= seq![s[0]] + t.insert(p - 1, f));
    }
}

/// Orders backups newest first (by timestamp text, descending), keeping the
/// order of equal timestamps.
pub fn sort_newest_first(files: Vec<GitBackupFile>) -> (r: Vec<GitBackupFile>)
    ensures
        file_keys(r@) == sorted_newest(file_keys(files@)),
        newest_first(r@),
        file_keys(r@).to_multiset() == file_keys(files@).to_multiset(),
{
    let ghost orig = files@;
    let mut out: Vec<GitBackupFile> = Vec::new();
    let mut rest = files;
    let mut taken: Vec<GitBackupFile> = Vec::new();
    while rest.len() > 0
        invariant
            file_keys(rest@).to_multiset().add(file_keys(taken@).to_multiset()) == file_keys(orig).to_multiset(),
            rest@ == orig.take(rest@.len() as int),
            rest@.len() <= orig.len(),
            taken@.len() == orig.len() - rest@.len(),
            forall|j: int| 0 <= j < taken@.len() ==> #[trigger] taken@[j] == orig[orig.len() - 1 - j],
        decreases rest@.len(),
    {
        let ghost before_rest = rest@;
        let ghost before_taken = taken@;
        let x = rest.pop();
        match x {
            Some(f) => {
                assert(before_rest =~= rest@.push(f));
                assert(file_keys(before_rest) =~= file_keys(rest@).push(file_key(f)));
                assert(file_keys(taken@.push(f)) =~= file_keys(before_taken).push(file_key(f)));
                taken.push(f);
            },
            None => {},
        }
    }
    assert(file_keys(rest@) =~= Seq::empty());
    while taken.len() > 0
        invariant
            newest_first(out@),
            file_keys(taken@).to_multiset().add(file_keys(out@).to_multiset()) == file_keys(orig).to_multiset(),
            taken@.len() <= orig.len(),
            forall|j: int| 0 <= j < taken@.len() ==> #[trigger] taken@[j] == orig[orig.len() - 1 - j],
            file_keys(out@) == sorted_newest(file_keys(orig.take(orig.len() - taken@.len()))),
        decreases taken@.len(),
    {
        let ghost before_taken = taken@;
        let ghost before_out = out@;
        let x = taken.pop();
        match x {
            Some(f) => {
                assert(before_taken =~= taken@.push(f));
                assert(file_keys(before_taken) =~= file_keys(taken@).push(file_key(f)));
                let mut p: usize = 0;
                while p < out.len() && !chars_lt(&chars_of(out[p].timestamp.as_str()), &chars_of(f.timestamp.as_str()))
                    invariant
                        p <= out@.len(),
                        out@ == before_out,
                        forall|i: int| 0 <= i < p ==> !lex_lt(#[trigger] out@[i].timestamp@, f.timestamp@),
                    decreases out@.len() - p,
                {
                    p = p + 1;
                }
                let ghost fk = file_key(f);
                let ghost fts = f.timestamp@;
                out.insert(p, f);
                proof {
                    let o = out@;
                    assert(o =~= before_out.insert(p as int, o[p as int]));
                    if p < before_out.len() {
                        assert(lex_lt(before_out[p as int].timestamp@, fts));
                    }
                    assert forall|i: int, j: int| 0 <= i < j < o.len() implies !lex_lt(
                        #[trigger] o[i].timestamp@,
                        #[trigger] o[j].timestamp@,
                    ) by {
                        if j < p {
                            assert(o[i] == before_out[i] && o[j] == before_out[j]);
                        } else if j == p {
                            assert(o[i] == before_out[i]);
                        } else if i < p {
                            assert(o[i] == before_out[i] && o[j] == before_out[j - 1]);
                            if lex_lt(o[i].timestamp@, o[j].timestamp@) {
                                lemma_lex_transitive(before_out[p as int].timestamp@, before_out[i].timestamp@, o[j].timestamp@);
                                if lex_lt(before_out[p as int].timestamp@, o[j].timestamp@) {
                                    lemma_lex_total_or_eq(o[j].timestamp@, before_out[p as int].timestamp@);
                                }
                            }
                        } else if i == p {
                            assert(o[j] == before_out[j - 1]);
                            assert(!lex_lt(before_out[p as int].timestamp@, before_out[j - 1].timestamp@) || j - 1 == p);
                            if lex_lt(fts, o[j].timestamp@) {
                                if j - 1 > p {
                                    assert(!lex_lt(before_out[p as int].timestamp@, before_out[j - 1].timestamp@));
                                    lemma_lex_total_or_eq(before_out[p as int].timestamp@, before_out[j - 1].timestamp@);
                                    if before_out[p as int].timestamp@ == before_out[j - 1].timestamp@ {
                                        lemma_lex_transitive(fts, before_out[j - 1].timestamp@, fts);
                                        lemma_lex_irreflexive(fts);
                                    } else {
                                        lemma_lex_transitive(before_out[j - 1].timestamp@, before_out[p as int].timestamp@, fts);
                                        lemma_lex_transitive(fts, before_out[j - 1].timestamp@, fts);
                                        lemma_lex_irreflexive(fts);
                                    }
                                } else {
                                    lemma_lex_transitive(fts, before_out[p as int].timestamp@, fts);
                                    lemma_lex_irreflexive(fts);
                                }
                            }
                        } else {
                            assert(o[i] == before_out[i - 1] && o[j] == before_out[j - 1]);
                        }
                    }
                    let k = orig.len() - before_taken.len();
                    assert(before_taken[before_taken.len() - 1] == orig[k]);
                    let ks = file_keys(before_out);
                    assert forall|i: int| 0 <= i < p implies !lex_lt(#[trigger] ks[i].2, fk.2) by {
                        assert(ks[i].2 == before_out[i].timestamp@);
                    }
                    lemma_insert_newest_at(ks, fk, p as int);
                    assert(file_keys(o) =~= ks.insert(p as int, fk));
                    let tk = file_keys(orig.take(k + 1));
                    assert(tk.drop_last() =~= file_keys(orig.take(k)));
                    assert(tk.last() == fk);
                    assert(file_keys(o).remove(p as int) =~= file_keys(before_out));
                    assert(file_keys(o)[p as int] == fk);
                    assert(file_keys(o).to_multiset().remove(fk) == file_keys(before_out).to_multiset());
                    assert(file_keys(o).to_multiset().count(fk) > 0) by {
                        assert(file_keys(o).contains(fk));
                    }
                    assert(file_keys(o).to_multiset() =~= file_keys(before_out).to_multiset().insert(fk));
                }
            },
            None => {},
        }
    }
    assert(file_keys(taken@) =~= Seq::empty());
    out
}

proof fn lemma_lex_total_or_eq(a: Seq<char>, b: Seq<char>)
    ensures
        a == b || lex_lt(a, b) || lex_lt(b, a),
{
    if a != b {
        lemma_lex_total(a, b);
    }
}

// ---------------------------------------------------------------- the repository's tree

/// Whether a file name ends in `.json`.
pub open spec fn is_json_name(f: Seq<char>) -> bool {
    f.len() >= 5 && f.skip(f.len() - 5) == ".json"@
}

/// The backups of one workspace directory: its files ending in `.json`,
/// with the timestamp read from each name.
pub open spec fn dir_files(ws: Seq<char>, files: Seq<(String, u64)>) -> Seq<(Seq<char>, Seq<char>, Seq<char>, u64)>
    decreases files.len(),
{
    if files.len() == 0 {
        Seq::empty()
    } else {
        let rest = dir_files(ws, files.drop_last());
        let (f, size) = files.last();
        if is_json_name(f@) {
            rest.push((ws, f@, stamp_of(f@), size))
        } else {
            rest
        }
    }
}

/// The backups of all workspace directories, directory after directory.
pub open spec fn listed_files(dirs: Seq<(String, Vec<(String, u64)>)>) -> Seq<(Seq<char>, Seq<char>, Seq<char>, u64)>
    decreases dirs.len(),
{
    if dirs.len() == 0 {
        Seq::empty()
    } else {
        listed_files(dirs.drop_last()) + dir_files(dirs.last().0@, dirs.last().1@)
    }
}

fn ends_with_json(f: &str) -> (r: bool)
    ensures
        r == is_json_name(f@),
{
    let v = chars_of(f);
    if v.len() < 5 {
        return false;
    }
    let tail = crate::text::skip_chars(&v, v.len() - 5);
    crate::text::chars_eq(&tail, &chars_of(".json"))
}

/// The backup files found under the workspace directories of the
/// repository (each directory's name with its files and their sizes).
pub fn backup_files_of(dirs: &Vec<(String, Vec<(String, u64)>)>) -> (r: Vec<GitBackupFile>)
    ensures
        file_keys(r@) == listed_files(dirs@),
{
    let mut out: Vec<GitBackupFile> = Vec::new();
    for d in 0..dirs.len()
        invariant
            file_keys(out@) == listed_files(dirs@.take(d as int)),
    {
        assert(dirs@.take(d + 1).drop_last() =~= dirs@.take(d as int));
        assert(dirs@.take(d + 1).last() == dirs@[d as int]);
        let ghost base = file_keys(out@);
        let ws = &dirs[d].0;
        let files = &dirs[d].1;
        assert(Seq::<(Seq<char>, Seq<char>, Seq<char>, u64)>::empty() =~= dir_files(ws@, files@.take(0)));
        assert(base + dir_files(ws@, files@.take(0)) =~= base);
        for i in 0..files.len()
            invariant
                file_keys(out@) == base + dir_files(ws@, files@.take(i as int)),
        {
            assert(files@.take(i + 1).drop_last() =~= files@.take(i as int));
            assert(files@.take(i + 1).last() == files@[i as int]);
            let name = &files[i].0;
            if ends_with_json(name.as_str()) {
                let f = GitBackupFile {
                    workspace_name: ws.clone(),
                    file_name: name.clone(),
                    timestamp: backup_stamp(name.as_str()),
                    size: files[i].1,
                };
                let ghost before = out@;
                out.push(f);
                assert(file_keys(out@) =~= file_keys(before).push(file_key(f)));
                assert(base + dir_files(ws@, files@.take(i + 1)) =~= (base + dir_files(ws@, files@.take(i as int))).push(
                    file_key(f),
                ));
            }
        }
        assert(files@.take(files@.len() as int) =~= files@);
        assert(file_keys(out@) =~= listed_files(dirs@.take(d + 1)));
    }
    assert(dirs@.take(dirs@.len() as int) =~= dirs@);
    out
}

/// `list_backups` once the tree is read: every backup, newest first.
pub fn list_backup_files(dirs: &Vec<(String, Vec<(String, u64)>)>) -> (r: Vec<GitBackupFile>)
    ensures
        file_keys(r@) == sorted_newest(listed_files(dirs@)),
        newest_first(r@),
        file_keys(r@).to_multiset() == listed_files(dirs@).to_multiset(),
{
    sort_newest_first(backup_files_of(dirs))
}

/// The commit message of a deleted backup.
pub fn delete_message(ws_name: &str, file_name: &str) -> (r: String)
    ensures
        r@ == "delete: "@ + ws_name@ + "/"@ + file_name@,
{
    let mut v = chars_of("delete: ");
    append_chars(&mut v, &chars_of(ws_name));
    append_chars(&mut v, &chars_of("/"));
    append_chars(&mut v, &chars_of(file_name));
    string_of(&v)
}

/// `s` with the prefix `p` removed as many times as it leads.
pub open spec fn strip_leading(s: Seq<char>, p: Seq<char>) -> Seq<char>
    decreases s.len(),
{
    if p.len() > 0 && has_prefix(s, p) {
        strip_leading(s.skip(p.len() as int), p)
    } else {
        s
    }
}

/// The branches among a remote's references: those under `refs/heads/`,
/// with that prefix removed (as often as it leads), in order.
pub open spec fn branch_list(refs: Seq<String>) -> Seq<Seq<char>>
    decreases refs.len(),
{
    if refs.len() == 0 {
        Seq::empty()
    } else if has_prefix(refs.last()@, "refs/heads/"@) {
        branch_list(refs.drop_last()).push(strip_leading(refs.last()@, "refs/heads/"@))
    } else {
        branch_list(refs.drop_last())
    }
}

fn strip_heads(s: &str) -> (r: String)
    ensures
        r@ == strip_leading(s@, "refs/heads/"@),
{
    let p = chars_of("refs/heads/");
    proof {
        reveal_strlit("refs/heads/");
    }
    let mut v = chars_of(s);
    while crate::text::starts_with_chars(&v, "refs/heads/")
        invariant
            p@ == "refs/heads/"@,
            p@.len() == 11,
            strip_leading(s@, "refs/heads/"@) == strip_leading(v@, "refs/heads/"@),
        decreases v@.len(),
    {
        v = crate::text::skip_chars(&v, p.len());
    }
    string_of(&v)
}

/// The branch names of a remote (`test_connection`).
pub fn remote_branch_names(refs: &Vec<String>) -> (r: Vec<String>)
    ensures
        crate::text::string_views(r@) == branch_list(refs@),
{
    let mut out: Vec<String> = Vec::new();
    for i in 0..refs.len()
        invariant
            crate::text::string_views(out@) == branch_list(refs@.take(i as int)),
    {
        assert(refs@.take(i + 1).drop_last() =~= refs@.take(i as int));
        assert(refs@.take(i + 1).last() == refs@[i as int]);
        let v = chars_of(refs[i].as_str());
        if crate::text::starts_with_chars(&v, "refs/heads/") {
            let b = strip_heads(refs[i].as_str());
            let ghost before = crate::text::string_views(out@);
            out.push(b);
            assert(crate::text::string_views(out@) =~= before.push(b@));
        }
    }
    assert(refs@.take(refs@.len() as int) =~= refs@);
    out
}

} // verus!
