//! Character-level helpers shared by the library.

use vstd::prelude::*;

verus! {

/// Unicode `White_Space`, the set that `char::is_whitespace` and `str::trim` use.
pub open spec fn is_ws(c: char) -> bool {
    ||| ('\u{9}' <= c && c <= '\u{d}')
    ||| c == ' '
    ||| c == '\u{85}'
    ||| c == '\u{a0}'
    ||| c == '\u{1680}'
    ||| ('\u{2000}' <= c && c <= '\u{200a}')
    ||| c == '\u{2028}'
    ||| c == '\u{2029}'
    ||| c == '\u{202f}'
    ||| c == '\u{205f}'
    ||| c == '\u{3000}'
}

/// Whether every character is whitespace (so the trimmed text is empty).
pub open spec fn all_ws(s: Seq<char>) -> bool {
    forall|i: int| 0 <= i < s.len() ==> is_ws(#[trigger] s[i])
}

pub fn char_is_ws(c: char) -> (r: bool)
    ensures
        r == is_ws(c),
{
    ('\u{9}' <= c && c <= '\u{d}') || c == ' ' || c == '\u{85}' || c == '\u{a0}' || c
        == '\u{1680}' || ('\u{2000}' <= c && c <= '\u{200a}') || c == '\u{2028}' || c
        == '\u{2029}' || c == '\u{202f}' || c == '\u{205f}' || c == '\u{3000}'
}

/// The characters of a string slice, in order.
pub fn chars_of(s: &str) -> (r: Vec<char>)
    ensures
        r@ == s@,
{
    let mut r: Vec<char> = Vec::new();
    for c in it: s.chars()
        invariant
            r@ == it.seq().take(it.index() as int),
            it.seq() == s@,
    {
        r.push(c);
    }
    r
}

/// Whether two string slices hold the same characters.
pub fn str_eq(a: &str, b: &str) -> (r: bool)
    ensures
        r == (a@ == b@),
{
    let x = chars_of(a);
    let y = chars_of(b);
    chars_eq(&x, &y)
}

/// Whether two character vectors are equal.
pub fn chars_eq(x: &Vec<char>, y: &Vec<char>) -> (r: bool)
    ensures
        r == (x@ == y@),
{
    if x.len() != y.len() {
        return false;
    }
    for i in 0..x.len()
        invariant
            x@.len() == y@.len(),
            forall|j: int| 0 <= j < i ==> x@[j] == y@[j],
    {
        if x[i] != y[i] {
            return false;
        }
    }
    assert(x@ =~= y@);
    true
}

/// Builds a `String` from its characters (`FromIterator<char>` for `String`).
#[verifier::external_body]
pub(crate) fn string_of(v: &Vec<char>) -> (r: String)
    ensures
        r@ == v@,
{
    v.iter().collect()
}

/// The texts of a list of strings.
pub open spec fn string_views(s: Seq<String>) -> Seq<Seq<char>> {
    s.map_values(|x: String| x@)
}

/// Whether the text is empty once trimmed (`s.trim().is_empty()`).
pub fn is_blank(s: &str) -> (r: bool)
    ensures
        r == all_ws(s@),
{
    let v = chars_of(s);
    for i in 0..v.len()
        invariant
            v@ == s@,
            forall|j: int| 0 <= j < i ==> is_ws(#[trigger] v@[j]),
    {
        if !char_is_ws(v[i]) {
            return false;
        }
    }
    true
}

/// `a` followed by `b`.
pub fn concat2(a: &str, b: &str) -> (r: String)
    ensures
        r@ == a@ + b@,
{
    let mut v = chars_of(a);
    let w = chars_of(b);
    append_chars(&mut v, &w);
    string_of(&v)
}

/// `a`, `b` and `c` in a row.
pub fn concat3(a: &str, b: &str, c: &str) -> (r: String)
    ensures
        r@ == a@ + b@ + c@,
{
    let mut v = chars_of(a);
    let w = chars_of(b);
    append_chars(&mut v, &w);
    let x = chars_of(c);
    append_chars(&mut v, &x);
    string_of(&v)
}

/// Appends the characters of `w` to `v`.
pub fn append_chars(v: &mut Vec<char>, w: &Vec<char>)
    ensures
        final(v)@ == old(v)@ + w@,
{
    for i in 0..w.len()
        invariant
            v@ == old(v)@ + w@.take(i as int),
    {
        v.push(w[i]);
        assert(w@.take(i + 1) =~= w@.take(i as int).push(w@[i as int]));
    }
    assert(w@.take(w@.len() as int) =~= w@);
}

/// The text as a fresh `String`.
pub fn to_string_of(s: &str) -> (r: String)
    ensures
        r@ == s@,
{
    let v = chars_of(s);
    string_of(&v)
}

/// The decimal digits of `n`, most significant first, with no leading zero.
pub open spec fn dec_digits(n: nat) -> Seq<char>
    decreases n,
{
    if n < 10 {
        seq![digit_char(n)]
    } else {
        dec_digits(n / 10).push(digit_char(n % 10))
    }
}

pub open spec fn digit_char(d: nat) -> char {
    if d == 0 { '0' }
    else if d == 1 { '1' }
    else if d == 2 { '2' }
    else if d == 3 { '3' }
    else if d == 4 { '4' }
    else if d == 5 { '5' }
    else if d == 6 { '6' }
    else if d == 7 { '7' }
    else if d == 8 { '8' }
    else { '9' }
}

fn exec_digit_char(d: u64) -> (c: char)
    requires
        d < 10,
    ensures
        c == digit_char(d as nat),
{
    if d == 0 { '0' }
    else if d == 1 { '1' }
    else if d == 2 { '2' }
    else if d == 3 { '3' }
    else if d == 4 { '4' }
    else if d == 5 { '5' }
    else if d == 6 { '6' }
    else if d == 7 { '7' }
    else if d == 8 { '8' }
    else { '9' }
}

/// The decimal representation of `n` (as `n.to_string()` writes it).
pub fn dec_chars(n: u64) -> (r: Vec<char>)
    ensures
        r@ == dec_digits(n as nat),
    decreases n,
{
    if n < 10 {
        let mut r: Vec<char> = Vec::new();
        r.push(exec_digit_char(n));
        r
    } else {
        let mut r = dec_chars(n / 10);
        r.push(exec_digit_char(n % 10));
        r
    }
}

/// `str::split` on one character: the pieces between separators, in order
/// (one piece more than there are separators).
pub open spec fn split_on(t: Seq<char>, sep: char) -> Seq<Seq<char>>
    decreases t.len(),
{
    if t.len() == 0 {
        seq![Seq::<char>::empty()]
    } else {
        let r = split_on(t.drop_last(), sep);
        if t.last() == sep {
            r.push(Seq::<char>::empty())
        } else {
            r.update(r.len() - 1, r.last().push(t.last()))
        }
    }
}

pub proof fn lemma_split_nonempty(t: Seq<char>, sep: char)
    ensures
        split_on(t, sep).len() >= 1,
    decreases t.len(),
{
    if t.len() > 0 {
        lemma_split_nonempty(t.drop_last(), sep);
    }
}

/// The views of a list of character vectors.
pub open spec fn char_vec_views(s: Seq<Vec<char>>) -> Seq<Seq<char>> {
    s.map_values(|x: Vec<char>| x@)
}

/// The pieces of `v` between occurrences of `sep`.
pub fn split_chars(v: &Vec<char>, sep: char) -> (parts: Vec<Vec<char>>)
    ensures
        char_vec_views(parts@) == split_on(v@, sep),
{
    let mut parts: Vec<Vec<char>> = Vec::new();
    let mut cur: Vec<char> = Vec::new();
    assert(v@.take(0) =~= Seq::<char>::empty());
    assert(char_vec_views(parts@).push(cur@) =~= split_on(v@.take(0), sep));
    for i in 0..v.len()
        invariant
            char_vec_views(parts@).push(cur@) == split_on(v@.take(i as int), sep),
    {
        proof {
            lemma_split_nonempty(v@.take(i as int), sep);
        }
        assert(v@.take(i + 1).drop_last() =~= v@.take(i as int));
        assert(v@.take(i + 1).last() == v@[i as int]);
        let ghost before = char_vec_views(parts@);
        if v[i] == sep {
            parts.push(cur);
            cur = Vec::new();
            assert(char_vec_views(parts@).push(cur@) =~= before.push(split_on(v@.take(i as int), sep).last()).push(Seq::<char>::empty()));
        } else {
            cur.push(v[i]);
            assert(char_vec_views(parts@).push(cur@) =~= split_on(v@.take(i + 1), sep));
        }
    }
    assert(v@.take(v@.len() as int) =~= v@);
    parts.push(cur);
    parts
}

/// Index of the first `c` in `t` at or after `i`.
pub open spec fn index_from(t: Seq<char>, c: char, i: int) -> Option<int>
    decreases t.len() - i,
{
    if i < 0 || i >= t.len() {
        None
    } else if t[i] == c {
        Some(i)
    } else {
        index_from(t, c, i + 1)
    }
}

/// A found index lies at or after the start and holds `c`.
pub proof fn lemma_index_from_bound(t: Seq<char>, c: char, i: int)
    requires
        0 <= i,
    ensures
        index_from(t, c, i) matches Some(k) ==> i <= k < t.len() && t[k] == c,
    decreases t.len() - i,
{
    if i < t.len() && t[i] != c {
        lemma_index_from_bound(t, c, i + 1);
    }
}

/// Index of the first `c` in `t`.
pub open spec fn index_of(t: Seq<char>, c: char) -> Option<int> {
    index_from(t, c, 0)
}

pub fn find_char(v: &Vec<char>, c: char) -> (r: Option<usize>)
    ensures
        match r {
            Some(i) => index_of(v@, c) == Some(i as int) && i < v@.len(),
            None => index_of(v@, c) is None,
        },
{
    let mut i: usize = 0;
    while i < v.len()
        invariant
            i <= v@.len(),
            index_of(v@, c) == index_from(v@, c, i as int),
        decreases v@.len() - i,
    {
        if v[i] == c {
            return Some(i);
        }
        i = i + 1;
    }
    None
}

/// Whether `t` begins with `pre`.
pub open spec fn has_prefix(t: Seq<char>, pre: Seq<char>) -> bool {
    pre.len() <= t.len() && t.take(pre.len() as int) == pre
}

pub fn starts_with_chars(v: &Vec<char>, pre: &str) -> (b: bool)
    ensures
        b == has_prefix(v@, pre@),
{
    let p = chars_of(pre);
    if p.len() > v.len() {
        return false;
    }
    for k in 0..p.len()
        invariant
            p@ == pre@,
            p@.len() <= v@.len(),
            forall|m: int| 0 <= m < k ==> v@[m] == p@[m],
    {
        if v[k] != p[k] {
            assert(v@.take(p@.len() as int)[k as int] == v@[k as int]);
            return false;
        }
    }
    assert(v@.take(p@.len() as int) =~= p@);
    true
}

/// The characters of `v` from index `n` on.
pub fn skip_chars(v: &Vec<char>, n: usize) -> (r: Vec<char>)
    requires
        n <= v@.len(),
    ensures
        r@ == v@.skip(n as int),
{
    let mut r: Vec<char> = Vec::new();
    let mut i = n;
    while i < v.len()
        invariant
            n <= i <= v@.len(),
            r@ == v@.subrange(n as int, i as int),
        decreases v@.len() - i,
    {
        r.push(v[i]);
        assert(v@.subrange(n as int, i + 1) =~= v@.subrange(n as int, i as int).push(v@[i as int]));
        i = i + 1;
    }
    assert(v@.subrange(n as int, v@.len() as int) =~= v@.skip(n as int));
    r
}

/// The first `n` characters of `v`.
pub fn take_chars(v: &Vec<char>, n: usize) -> (r: Vec<char>)
    requires
        n <= v@.len(),
    ensures
        r@ == v@.take(n as int),
{
    let mut r: Vec<char> = Vec::new();
    for i in 0..n
        invariant
            n <= v@.len(),
            r@ == v@.take(i as int),
    {
        r.push(v[i]);
        assert(v@.take(i + 1) =~= v@.take(i as int).push(v@[i as int]));
    }
    r
}

/// Whether `c` occurs in `v`.
pub fn contains_char(v: &Vec<char>, c: char) -> (b: bool)
    ensures
        b == v@.contains(c),
{
    for i in 0..v.len()
        invariant
            forall|m: int| 0 <= m < i ==> v@[m] != c,
    {
        if v[i] == c {
            assert(v@[i as int] == c);
            return true;
        }
    }
    false
}

/// A copy of a list of strings.
pub fn clone_strings(v: &Vec<String>) -> (r: Vec<String>)
    ensures
        r@ == v@,
{
    let mut r: Vec<String> = Vec::new();
    for i in 0..v.len()
        invariant
            r@ == v@.take(i as int),
    {
        r.push(v[i].clone());
        assert(v@.take(i + 1) =~= v@.take(i as int).push(v@[i as int]));
    }
    assert(v@.take(v@.len() as int) =~= v@);
    r
}

} // verus!
