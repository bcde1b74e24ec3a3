//! `{{name}}` variable references: finding them, substituting values, and
//! reporting the names that no variable defines.

use vstd::prelude::*;
use crate::models::ReplaceResult;
use crate::text::{char_vec_views, is_ws, char_is_ws, chars_of, string_of, chars_eq, append_chars};

verus! {

// ---------------------------------------------------------------- trimming

pub open spec fn trim_start(s: Seq<char>) -> Seq<char>
    decreases s.len(),
{
    if s.len() > 0 && is_ws(s[0]) {
        trim_start(s.drop_first())
    } else {
        s
    }
}

pub open spec fn trim_end(s: Seq<char>) -> Seq<char>
    decreases s.len(),
{
    if s.len() > 0 && is_ws(s.last()) {
        trim_end(s.drop_last())
    } else {
        s
    }
}

/// `str::trim`: leading and trailing whitespace removed.
pub open spec fn trim(s: Seq<char>) -> Seq<char> {
    trim_end(trim_start(s))
}

/// The characters of `v[lo..hi]` without leading and trailing whitespace.
pub fn trimmed_range(v: &Vec<char>, lo: usize, hi: usize) -> (r: Vec<char>)
    requires
        lo <= hi <= v@.len(),
    ensures
        r@ == trim(v@.subrange(lo as int, hi as int)),
{
    let mut a = lo;
    while a < hi && char_is_ws(v[a])
        invariant
            lo <= a <= hi <= v@.len(),
            trim_start(v@.subrange(lo as int, hi as int)) == trim_start(v@.subrange(a as int, hi as int)),
        decreases hi - a,
    {
        assert(v@.subrange(a as int, hi as int).drop_first() =~= v@.subrange(a + 1, hi as int));
        a = a + 1;
    }
    let mut b = hi;
    while b > a && char_is_ws(v[b - 1])
        invariant
            lo <= a <= b <= hi <= v@.len(),
            trim(v@.subrange(lo as int, hi as int)) == trim_end(v@.subrange(a as int, b as int)),
        decreases b - a,
    {
        assert(v@.subrange(a as int, b as int).drop_last() =~= v@.subrange(a as int, b - 1));
        b = b - 1;
    }
    let mut r: Vec<char> = Vec::new();
    let mut i = a;
    while i < b
        invariant
            a <= i <= b <= v@.len(),
            r@ == v@.subrange(a as int, i as int),
        decreases b - i,
    {
        r.push(v[i]);
        assert(v@.subrange(a as int, i + 1) =~= v@.subrange(a as int, i as int).push(v@[i as int]));
        i = i + 1;
    }
    r
}


// ---------------------------------------------------------------- references

/// Index of the first `}` at or after `k`, or the length when there is none.
pub open spec fn close_at(t: Seq<char>, k: int) -> int
    decreases t.len() - k,
{
    if k >= t.len() {
        t.len() as int
    } else if t[k] == '}' {
        k
    } else {
        close_at(t, k + 1)
    }
}

/// Whether a reference `{{name}}` starts at `i`: two opening braces, one or
/// more characters other than `}`, two closing braces.
pub open spec fn ref_at(t: Seq<char>, i: int) -> bool {
    let j = close_at(t, i + 2);
    &&& 0 <= i && i + 1 < t.len()
    &&& t[i] == '{' && t[i + 1] == '{'
    &&& j > i + 2
    &&& j + 1 < t.len()
    &&& t[j + 1] == '}'
}

/// The trimmed names of the references found from `i` on, scanning left to
/// right, leftmost first and without overlap.
pub open spec fn refs_from(t: Seq<char>, i: int) -> Seq<Seq<char>>
    decreases t.len() - i,
{
    if i < 0 || i >= t.len() {
        Seq::empty()
    } else if ref_at(t, i) {
        let j = close_at(t, i + 2);
        seq![trim(t.subrange(i + 2, j))] + refs_from(t, j + 2)
    } else {
        refs_from(t, i + 1)
    }
}

/// The trimmed names of all references in `t`, in order of appearance.
pub open spec fn var_refs(t: Seq<char>) -> Seq<Seq<char>> {
    refs_from(t, 0)
}

proof fn lemma_close_at_ge(t: Seq<char>, k: int)
    requires
        0 <= k,
    ensures
        k <= close_at(t, k) || k > t.len(),
        close_at(t, k) <= t.len() || k > t.len(),
    decreases t.len() - k,
{
    if k < t.len() && t[k] != '}' {
        lemma_close_at_ge(t, k + 1);
    }
}

fn find_close(v: &Vec<char>, k: usize) -> (j: usize)
    requires
        k <= v@.len(),
    ensures
        j == close_at(v@, k as int),
        k <= j <= v@.len(),
{
    let mut j = k;
    while j < v.len() && v[j] != '}'
        invariant
            k <= j <= v@.len(),
            close_at(v@, k as int) == close_at(v@, j as int),
        decreases v@.len() - j,
    {
        j = j + 1;
    }
    j
}

/// The trimmed names of the `{{name}}` references in `v`, in order.
pub fn variable_refs(v: &Vec<char>) -> (r: Vec<Vec<char>>)
    ensures
        char_vec_views(r@) == var_refs(v@),
{
    let mut r: Vec<Vec<char>> = Vec::new();
    let mut i: usize = 0;
    while i < v.len()
        invariant
            i <= v@.len(),
            char_vec_views(r@) + refs_from(v@, i as int) == refs_from(v@, 0),
        decreases v@.len() - i,
    {
        if i + 1 < v.len() && v[i] == '{' && v[i + 1] == '{' {
            let j = find_close(v, i + 2);
            if j > i + 2 && j < v.len() - 1 && v[j + 1] == '}' {
                let name = trimmed_range(v, i + 2, j);
                let ghost before = char_vec_views(r@);
                assert(ref_at(v@, i as int));
                r.push(name);
                assert(char_vec_views(r@) =~= before.push(trim(v@.subrange(i + 2, j as int))));
                assert(char_vec_views(r@) + refs_from(v@, j + 2) =~= before + refs_from(v@, i as int));
                i = j + 2;
                continue;
            }
        }
        assert(!ref_at(v@, i as int));
        i = i + 1;
    }
    assert(char_vec_views(r@) + refs_from(v@, i as int) =~= char_vec_views(r@));
    r
}

// ---------------------------------------------------------------- ordering

/// The order of `String`: lexicographic over the characters (UTF-8 keeps
/// the order of code points, so byte order and character order agree).
pub open spec fn lex_lt(a: Seq<char>, b: Seq<char>) -> bool
    decreases a.len(),
{
    if a.len() == 0 {
        b.len() > 0
    } else if b.len() == 0 {
        false
    } else if a[0] < b[0] {
        true
    } else if a[0] == b[0] {
        lex_lt(a.drop_first(), b.drop_first())
    } else {
        false
    }
}

/// Ascending, with no element twice.
pub open spec fn strictly_sorted(u: Seq<Seq<char>>) -> bool {
    forall|i: int, j: int| 0 <= i < j < u.len() ==> lex_lt(#[trigger] u[i], #[trigger] u[j])
}

pub proof fn lemma_lex_irreflexive(a: Seq<char>)
    ensures
        !lex_lt(a, a),
    decreases a.len(),
{
    if a.len() > 0 {
        lemma_lex_irreflexive(a.drop_first());
    }
}

pub proof fn lemma_lex_transitive(a: Seq<char>, b: Seq<char>, c: Seq<char>)
    requires
        lex_lt(a, b),
        lex_lt(b, c),
    ensures
        lex_lt(a, c),
    decreases a.len(),
{
    if a.len() > 0 && b.len() > 0 && c.len() > 0 && a[0] == b[0] && b[0] == c[0] {
        lemma_lex_transitive(a.drop_first(), b.drop_first(), c.drop_first());
    }
}

pub proof fn lemma_lex_total(a: Seq<char>, b: Seq<char>)
    requires
        a != b,
    ensures
        lex_lt(a, b) || lex_lt(b, a),
    decreases a.len(),
{
    if a.len() == 0 || b.len() == 0 {
        if a.len() == 0 && b.len() == 0 {
            assert(a =~= b);
        }
    } else if a[0] == b[0] {
        if a.drop_first() =~= b.drop_first() {
            assert forall|i: int| 0 <= i < a.len() implies a[i] == b[i] by {
                if i > 0 {
                    assert(a[i] == a.drop_first()[i - 1]);
                    assert(b[i] == b.drop_first()[i - 1]);
                }
            }
            assert(a =~= b);
        } else {
            lemma_lex_total(a.drop_first(), b.drop_first());
        }
    }
}

/// Whether `a` comes before `b` in the order of `String`.
pub fn chars_lt(a: &Vec<char>, b: &Vec<char>) -> (r: bool)
    ensures
        r == lex_lt(a@, b@),
{
    let mut i: usize = 0;
    assert(a@.skip(0) =~= a@);
    assert(b@.skip(0) =~= b@);
    while i < a.len() && i < b.len()
        invariant
            i <= a@.len(),
            i <= b@.len(),
            lex_lt(a@, b@) == lex_lt(a@.skip(i as int), b@.skip(i as int)),
        decreases a@.len() - i,
    {
        let x = a[i];
        let y = b[i];
        assert(a@.skip(i as int)[0] == x && b@.skip(i as int)[0] == y);
        if x < y {
            return true;
        }
        if x != y {
            return false;
        }
        assert(a@.skip(i as int).drop_first() =~= a@.skip(i + 1));
        assert(b@.skip(i as int).drop_first() =~= b@.skip(i + 1));
        i = i + 1;
    }
    i < b.len()
}

/// Inserts `n` into the ascending list `u` unless it is there already.
pub fn insert_sorted(u: &mut Vec<Vec<char>>, n: Vec<char>)
    requires
        strictly_sorted(char_vec_views(old(u)@)),
    ensures
        strictly_sorted(char_vec_views(final(u)@)),
        forall|m: Seq<char>| #[trigger] char_vec_views(final(u)@).contains(m)
            <==> (char_vec_views(old(u)@).contains(m) || m == n@),
{
    let ghost old_v = char_vec_views(u@);
    let mut p: usize = 0;
    while p < u.len() && chars_lt(&u[p], &n)
        invariant
            p <= u@.len(),
            old_v == char_vec_views(u@),
            forall|k: int| 0 <= k < p ==> lex_lt(#[trigger] old_v[k], n@),
        decreases u@.len() - p,
    {
        p = p + 1;
    }
    if p < u.len() && chars_eq(&u[p], &n) {
        assert(old_v[p as int] == n@);
        return;
    }
    proof {
        if p < old_v.len() {
            lemma_lex_total(old_v[p as int], n@);
        }
    }
    u.insert(p, n);
    let ghost new_v = char_vec_views(u@);
    assert(new_v =~= old_v.subrange(0, p as int).push(n@) + old_v.subrange(p as int, old_v.len() as int));
    assert forall|i: int, j: int| 0 <= i < j < new_v.len() implies lex_lt(#[trigger] new_v[i], #[trigger] new_v[j]) by {
        if j < p {
        } else if j == p {
        } else if i < p {
            lemma_lex_transitive(new_v[i], n@, old_v[p as int]);
            if j - 1 > p {
                lemma_lex_transitive(new_v[i], old_v[p as int], new_v[j]);
            }
        } else if i == p {
            if j - 1 > p {
                lemma_lex_transitive(n@, old_v[p as int], new_v[j]);
            }
        } else {
        }
    }
    assert forall|m: Seq<char>| #[trigger] new_v.contains(m) <==> (old_v.contains(m) || m == n@) by {
        if new_v.contains(m) {
            let k = choose|k: int| 0 <= k < new_v.len() && new_v[k] == m;
            if k < p {
                assert(old_v[k] == m);
            } else if k > p {
                assert(old_v[k - 1] == m);
            }
        }
        if old_v.contains(m) {
            let k = choose|k: int| 0 <= k < old_v.len() && old_v[k] == m;
            if k < p {
                assert(new_v[k] == m);
            } else {
                assert(new_v[k + 1] == m);
            }
        }
        if m == n@ {
            assert(new_v[p as int] == m);
        }
    }
}

// ---------------------------------------------------------------- substitution

/// `str::replace`: every occurrence of `pat` found scanning from `i` to the
/// right, without overlap, replaced by `rep`.
pub open spec fn replace_scan(s: Seq<char>, pat: Seq<char>, rep: Seq<char>, i: int) -> Seq<char>
    decreases s.len() - i,
{
    if i < 0 || i >= s.len() {
        Seq::empty()
    } else if pat.len() > 0 && i + pat.len() <= s.len() && s.subrange(i, i + pat.len()) == pat {
        rep + replace_scan(s, pat, rep, i + pat.len())
    } else {
        seq![s[i]] + replace_scan(s, pat, rep, i + 1)
    }
}

pub open spec fn replace_all(s: Seq<char>, pat: Seq<char>, rep: Seq<char>) -> Seq<char> {
    replace_scan(s, pat, rep, 0)
}

/// Whether `pat` occurs in `s` at `j`.
pub open spec fn occurs(s: Seq<char>, pat: Seq<char>, j: int) -> bool {
    0 <= j && j + pat.len() <= s.len() && s.subrange(j, j + pat.len()) == pat
}

proof fn lemma_scan_absent(s: Seq<char>, pat: Seq<char>, rep: Seq<char>, i: int)
    requires
        0 <= i <= s.len(),
        forall|j: int| i <= j ==> !occurs(s, pat, j),
    ensures
        replace_scan(s, pat, rep, i) == s.skip(i),
    decreases s.len() - i,
{
    if i < s.len() {
        assert(!occurs(s, pat, i));
        lemma_scan_absent(s, pat, rep, i + 1);
        assert(s.skip(i) =~= seq![s[i]] + s.skip(i + 1));
    } else {
        assert(s.skip(i) =~= Seq::<char>::empty());
    }
}

/// Text in which `pat` never occurs comes out unchanged.
pub proof fn lemma_replace_absent(s: Seq<char>, pat: Seq<char>, rep: Seq<char>)
    requires
        forall|j: int| !occurs(s, pat, j),
    ensures
        replace_all(s, pat, rep) == s,
{
    lemma_scan_absent(s, pat, rep, 0);
    assert(s.skip(0) =~= s);
}

proof fn lemma_scan_prefix(s: Seq<char>, pat: Seq<char>, rep: Seq<char>, k: int, i: int)
    requires
        0 <= i <= k <= s.len(),
        forall|j: int| i <= j < k ==> !occurs(s, pat, j),
    ensures
        replace_scan(s, pat, rep, i) == s.subrange(i, k) + replace_scan(s, pat, rep, k),
    decreases k - i,
{
    if i < k {
        assert(!occurs(s, pat, i));
        lemma_scan_prefix(s, pat, rep, k, i + 1);
        assert(s.subrange(i, k) =~= seq![s[i]] + s.subrange(i + 1, k));
    } else {
        assert(s.subrange(i, k) =~= Seq::<char>::empty());
    }
}

proof fn lemma_scan_shift(x: Seq<char>, y: Seq<char>, pat: Seq<char>, rep: Seq<char>, j: int)
    requires
        0 <= j,
    ensures
        replace_scan(x + y, pat, rep, x.len() + j) == replace_scan(y, pat, rep, j),
    decreases y.len() - j,
{
    let s = x + y;
    if j < y.len() {
        assert(s[x.len() + j] == y[j]);
        if j + pat.len() <= y.len() {
            assert(s.subrange(x.len() + j, x.len() + j + pat.len()) =~= y.subrange(j, j + pat.len()));
        }
        if pat.len() > 0 && j + pat.len() <= y.len() && y.subrange(j, j + pat.len()) == pat {
            lemma_scan_shift(x, y, pat, rep, j + pat.len());
        } else {
            lemma_scan_shift(x, y, pat, rep, j + 1);
        }
    }
}

/// Replacing goes on after the first occurrence: `a`, up to the first
/// occurrence of `pat`, is kept, that occurrence becomes `rep`, and what
/// follows it is replaced in the same way, so that every occurrence is
/// replaced, not only the first.
pub proof fn lemma_replace_first(a: Seq<char>, pat: Seq<char>, rep: Seq<char>, b: Seq<char>)
    requires
        pat.len() > 0,
        forall|j: int| 0 <= j < a.len() ==> !occurs(a + pat + b, pat, j),
    ensures
        replace_all(a + pat + b, pat, rep) == a + rep + replace_all(b, pat, rep),
{
    let s = a + pat + b;
    lemma_scan_prefix(s, pat, rep, a.len() as int, 0);
    assert(s.subrange(0, a.len() as int) =~= a);
    assert(s.subrange(a.len() as int, (a.len() + pat.len()) as int) =~= pat);
    assert(s == (a + pat) + b);
    lemma_scan_shift(a + pat, b, pat, rep, 0);
    assert(replace_scan(s, pat, rep, a.len() as int) == rep + replace_scan(s, pat, rep, (a.len() + pat.len()) as int));
}

/// The text `{{key}}`.
pub open spec fn var_pattern(key: Seq<char>) -> Seq<char> {
    seq!['{', '{'] + key + seq!['}', '}']
}

/// The text after replacing `{{key}}` by its value for the first `k`
/// variables, one variable after the other.
pub open spec fn subst_upto(s: Seq<char>, vars: Seq<(String, String)>, k: int) -> Seq<char>
    decreases k,
{
    if k <= 0 {
        s
    } else {
        replace_all(subst_upto(s, vars, k - 1), var_pattern(vars[k - 1].0@), vars[k - 1].1@)
    }
}

/// Substituting one variable `key = value` replaces the first `{{key}}`
/// of the text by `value`, keeps what comes before it, and goes on
/// substituting in what follows it: every `{{key}}` is replaced, not only
/// the first.
pub proof fn lemma_subst_one_variable(a: Seq<char>, key: String, value: String, b: Seq<char>)
    requires
        forall|j: int| 0 <= j < a.len() ==> !occurs(a + ("{{"@ + key@ + "}}"@) + b, "{{"@ + key@ + "}}"@, j),
    ensures
        subst_upto(a + ("{{"@ + key@ + "}}"@) + b, seq![(key, value)], 1)
            == a + value@ + subst_upto(b, seq![(key, value)], 1),
{
    reveal_strlit("{{");
    reveal_strlit("}}");
    let pat = "{{"@ + key@ + "}}"@;
    assert(var_pattern(key@) =~= pat);
    let vars = seq![(key, value)];
    assert(vars[0].0@ == key@);
    assert(subst_upto(a + pat + b, vars, 0) == a + pat + b);
    assert(subst_upto(b, vars, 0) == b);
    lemma_replace_first(a, pat, value@, b);
}

/// Whether some variable is named `n`.
pub open spec fn defines(vars: Seq<(String, String)>, n: Seq<char>) -> bool {
    exists|k: int| 0 <= k < vars.len() && #[trigger] vars[k].0@ == n
}

/// Whether `pat` occurs in `s` at `i`.
fn occurs_at(s: &Vec<char>, i: usize, pat: &Vec<char>) -> (b: bool)
    requires
        i <= s@.len(),
    ensures
        b == (i + pat@.len() <= s@.len() && s@.subrange(i as int, i + pat@.len()) == pat@),
{
    if pat.len() > s.len() - i {
        return false;
    }
    let n = s.len();
    let mut k: usize = 0;
    while k < pat.len()
        invariant
            n == s@.len(),
            i + pat@.len() <= s@.len(),
            k <= pat@.len(),
            forall|m: int| 0 <= m < k ==> s@[i + m] == pat@[m],
        decreases pat@.len() - k,
    {
        if s[i + k] != pat[k] {
            assert(s@.subrange(i as int, i + pat@.len())[k as int] == s@[i + k]);
            return false;
        }
        k = k + 1;
    }
    assert(s@.subrange(i as int, i + pat@.len()) =~= pat@);
    true
}

/// Every occurrence of `pat` in `s`, left to right and without overlap,
/// replaced by `rep`.
pub fn replace_chars(s: &Vec<char>, pat: &Vec<char>, rep: &Vec<char>) -> (r: Vec<char>)
    requires
        pat@.len() > 0,
    ensures
        r@ == replace_all(s@, pat@, rep@),
{
    let mut out: Vec<char> = Vec::new();
    let mut i: usize = 0;
    while i < s.len()
        invariant
            pat@.len() > 0,
            i <= s@.len(),
            out@ + replace_scan(s@, pat@, rep@, i as int) == replace_scan(s@, pat@, rep@, 0),
        decreases s@.len() - i,
    {
        let ghost before = out@;
        if occurs_at(s, i, pat) {
            append_chars(&mut out, rep);
            assert(before + replace_scan(s@, pat@, rep@, i as int)
                =~= out@ + replace_scan(s@, pat@, rep@, i + pat@.len()));
            i = i + pat.len();
        } else {
            out.push(s[i]);
            assert(before + replace_scan(s@, pat@, rep@, i as int)
                =~= out@ + replace_scan(s@, pat@, rep@, i + 1));
            i = i + 1;
        }
    }
    assert(out@ + replace_scan(s@, pat@, rep@, i as int) =~= out@);
    out
}

/// Whether some variable is named `n`.
pub fn has_variable(vars: &Vec<(String, String)>, n: &Vec<char>) -> (b: bool)
    ensures
        b == defines(vars@, n@),
{
    for k in 0..vars.len()
        invariant
            forall|m: int| 0 <= m < k ==> vars@[m].0@ != n@,
    {
        let key = chars_of(vars[k].0.as_str());
        if chars_eq(&key, n) {
            assert(vars@[k as int].0@ == n@);
            return true;
        }
    }
    false
}

/// The pattern `{{key}}` as characters.
fn pattern_of(key: &str) -> (r: Vec<char>)
    ensures
        r@ == var_pattern(key@),
{
    let mut r: Vec<char> = Vec::new();
    r.push('{');
    r.push('{');
    let k = chars_of(key);
    append_chars(&mut r, &k);
    r.push('}');
    r.push('}');
    assert(r@ =~= var_pattern(key@));
    r
}

/// Replaces `{{key}}` by the value of each variable in turn, in the order of
/// `vars`.
pub fn substitute(text: &Vec<char>, vars: &Vec<(String, String)>) -> (r: Vec<char>)
    ensures
        r@ == subst_upto(text@, vars@, vars@.len() as int),
{
    let mut cur: Vec<char> = Vec::new();
    append_chars(&mut cur, text);
    assert(cur@ =~= text@);
    for k in 0..vars.len()
        invariant
            cur@ == subst_upto(text@, vars@, k as int),
    {
        let pat = pattern_of(vars[k].0.as_str());
        let rep = chars_of(vars[k].1.as_str());
        cur = replace_chars(&cur, &pat, &rep);
    }
    cur
}

/// The names among `refs` that no variable defines, ascending and without
/// repeats.
pub fn undefined_names(refs: &Vec<Vec<char>>, vars: &Vec<(String, String)>) -> (u: Vec<Vec<char>>)
    ensures
        strictly_sorted(char_vec_views(u@)),
        forall|m: Seq<char>| #[trigger] char_vec_views(u@).contains(m)
            <==> (char_vec_views(refs@).contains(m) && !defines(vars@, m)),
{
    let mut u: Vec<Vec<char>> = Vec::new();
    let ghost rv = char_vec_views(refs@);
    for k in 0..refs.len()
        invariant
            rv == char_vec_views(refs@),
            strictly_sorted(char_vec_views(u@)),
            forall|m: Seq<char>| #[trigger] char_vec_views(u@).contains(m)
                <==> (rv.take(k as int).contains(m) && !defines(vars@, m)),
    {
        let ghost before = char_vec_views(u@);
        let ghost name = rv[k as int];
        assert(name == refs@[k as int]@);
        if !has_variable(vars, &refs[k]) {
            let n = clone_chars(&refs[k]);
            insert_sorted(&mut u, n);
        }
        assert forall|m: Seq<char>| #[trigger] char_vec_views(u@).contains(m)
            <==> (rv.take(k + 1).contains(m) && !defines(vars@, m)) by {
            lemma_take_contains(rv, k as int, m);
            assert(before.contains(m) <==> (rv.take(k as int).contains(m) && !defines(vars@, m)));
        }
    }
    assert(rv.take(refs@.len() as int) =~= rv);
    u
}

proof fn lemma_take_contains(s: Seq<Seq<char>>, k: int, m: Seq<char>)
    requires
        0 <= k < s.len(),
    ensures
        s.take(k + 1).contains(m) <==> (s.take(k).contains(m) || m == s[k]),
{
    if s.take(k + 1).contains(m) && m != s[k] {
        let j = choose|j: int| 0 <= j < k + 1 && #[trigger] s.take(k + 1)[j] == m;
        assert(j != k);
        assert(s.take(k)[j] == m);
    }
    if s.take(k).contains(m) {
        let j = choose|j: int| 0 <= j < k && #[trigger] s.take(k)[j] == m;
        assert(s.take(k + 1)[j] == m);
    }
    if m == s[k] {
        assert(s.take(k + 1)[k] == m);
    }
}

fn clone_chars(v: &Vec<char>) -> (r: Vec<char>)
    ensures
        r@ == v@,
{
    let mut r: Vec<char> = Vec::new();
    append_chars(&mut r, v);
    assert(r@ =~= v@);
    r
}

// ---------------------------------------------------------------- laws

/// Whether `{{` occurs in `s`.
pub open spec fn has_open_braces(s: Seq<char>) -> bool {
    exists|i: int| 0 <= i && i + 1 < s.len() && #[trigger] s[i] == '{' && s[i + 1] == '{'
}

proof fn lemma_scan_without_braces(s: Seq<char>, key: Seq<char>, rep: Seq<char>, i: int)
    requires
        !has_open_braces(s),
        0 <= i <= s.len(),
    ensures
        replace_scan(s, var_pattern(key), rep, i) == s.skip(i),
    decreases s.len() - i,
{
    let pat = var_pattern(key);
    if i < s.len() {
        if i + pat.len() <= s.len() && s.subrange(i, i + pat.len()) == pat {
            assert(s.subrange(i, i + pat.len())[0] == s[i]);
            assert(s.subrange(i, i + pat.len())[1] == s[i + 1]);
            assert(pat[0] == '{' && pat[1] == '{');
            assert(false);
        }
        lemma_scan_without_braces(s, key, rep, i + 1);
        assert(seq![s[i]] + s.skip(i + 1) =~= s.skip(i));
    } else {
        assert(s.skip(i) =~= Seq::<char>::empty());
    }
}

/// A text without `{{` comes out of the substitution unchanged, whatever
/// the variables.
pub proof fn lemma_no_braces_unchanged(s: Seq<char>, vars: Seq<(String, String)>, k: int)
    requires
        !has_open_braces(s),
    ensures
        subst_upto(s, vars, k) == s,
    decreases k,
{
    if k > 0 {
        lemma_no_braces_unchanged(s, vars, k - 1);
        lemma_scan_without_braces(s, vars[k - 1].0@, vars[k - 1].1@, 0);
        assert(s.skip(0) =~= s);
    }
}

proof fn lemma_refs_without_braces(s: Seq<char>, i: int)
    requires
        !has_open_braces(s),
        0 <= i,
    ensures
        refs_from(s, i).len() == 0,
    decreases s.len() - i,
{
    if i < s.len() {
        assert(!ref_at(s, i));
        lemma_refs_without_braces(s, i + 1);
    }
}

/// A text without `{{` references no variable.
pub proof fn lemma_no_braces_no_refs(s: Seq<char>)
    requires
        !has_open_braces(s),
    ensures
        var_refs(s).len() == 0,
{
    lemma_refs_without_braces(s, 0);
}

} // verus!
