//! Helpers behind the `fm` object of request scripts: splitting and
//! rebuilding a request URL, hexadecimal digests, HMAC-MD5 and random
//! UUIDs.

use vstd::prelude::*;
use crate::request_body::hex_lower;
use crate::text::{chars_of, string_of, append_chars, take_chars, skip_chars, index_from, has_prefix};

verus! {

// ---------------------------------------------------------------- sandbox

/// Limits of the script sandbox.
#[derive(Debug)]
pub struct SandboxConfig {
    /// Memory limit in bytes.
    pub memory_limit: usize,
    /// CPU time limit in milliseconds; 0 turns it off.
    pub cpu_timeout_ms: u64,
}

impl Default for SandboxConfig {
    /// 10 MiB of memory and five minutes of CPU time.
    fn default() -> (r: Self)
        ensures
            r.memory_limit == 10 * 1024 * 1024,
            r.cpu_timeout_ms == 300_000,
    {
        SandboxConfig { memory_limit: 10 * 1024 * 1024, cpu_timeout_ms: 300_000 }
    }
}

// ---------------------------------------------------------------- URL parts

/// Index of the first occurrence of `pat` in `t` at or after `i`.
pub open spec fn find_from(t: Seq<char>, pat: Seq<char>, i: int) -> Option<int>
    decreases t.len() + 1 - i,
{
    if i < 0 || i + pat.len() > t.len() {
        None
    } else if t.subrange(i, i + pat.len()) == pat {
        Some(i)
    } else {
        find_from(t, pat, i + 1)
    }
}

/// The slash-free tail search: the text up to the first `/` at or after
/// `from`, or all of `u` when there is none.
pub open spec fn cut_at_slash(u: Seq<char>, from: int) -> Seq<char> {
    match index_from(u, '/', from) {
        Some(p) => u.take(p),
        None => u,
    }
}

/// The scheme and host of a URL as the scripts see it: up to the first `/`
/// after `://`; for a URL without `://`, up to its first `/` (or up to the
/// `/` after a leading `host//`); empty for a path (leading `/`).
pub open spec fn base_url(u: Seq<char>) -> Seq<char> {
    if u.len() == 0 {
        Seq::empty()
    } else {
        match find_from(u, "://"@, 0) {
            Some(s) => cut_at_slash(u, s + 3),
            None => if u[0] == '/' {
                Seq::empty()
            } else {
                match index_from(u, '/', 0) {
                    Some(i) => if i > 0 && i + 1 < u.len() && u[i + 1] == '/' {
                        cut_at_slash(u, i + 2)
                    } else if i > 0 {
                        u.take(i)
                    } else {
                        u
                    },
                    None => u,
                }
            },
        }
    }
}

/// The path of a URL: what follows its base, `/` when nothing does; the
/// whole text when there is no base.
pub open spec fn url_path(u: Seq<char>) -> Seq<char> {
    if u.len() == 0 {
        Seq::empty()
    } else {
        let b = base_url(u);
        if b.len() == 0 {
            u
        } else if u.skip(b.len() as int).len() == 0 {
            seq!['/']
        } else {
            u.skip(b.len() as int)
        }
    }
}

/// A URL from a base and a path, with one `/` between them.
pub open spec fn join_url(base: Seq<char>, path: Seq<char>) -> Seq<char> {
    if base.len() == 0 {
        path
    } else if path.len() == 0 {
        base
    } else if path[0] == '/' {
        base + path
    } else {
        base + seq!['/'] + path
    }
}

fn find_str_from(v: &Vec<char>, pat: &Vec<char>, start: usize) -> (r: Option<usize>)
    requires
        start <= v@.len(),
    ensures
        match r {
            Some(i) => find_from(v@, pat@, start as int) == Some(i as int) && i + pat@.len() <= v@.len(),
            None => find_from(v@, pat@, start as int) is None,
        },
{
    let n = v.len();
    let m = pat.len();
    if m > n {
        return None;
    }
    let mut i = start;
    while i <= n - m
        invariant
            n == v@.len(),
            m == pat@.len(),
            m <= n,
            start <= i,
            find_from(v@, pat@, start as int) == find_from(v@, pat@, i as int),
        decreases n - i,
    {
        let mut k: usize = 0;
        let mut same = true;
        while k < m
            invariant
                n == v@.len(),
                m == pat@.len(),
                i + m <= n,
                k <= m,
                same <==> forall|j: int| 0 <= j < k ==> v@[i + j] == pat@[j],
            decreases m - k,
        {
            if v[i + k] != pat[k] {
                same = false;
            }
            k = k + 1;
        }
        if same {
            assert(v@.subrange(i as int, i + m) =~= pat@);
            return Some(i);
        }
        proof {
            let j = choose|j: int| 0 <= j < m && v@[i + j] != pat@[j];
            assert(v@.subrange(i as int, i + m)[j] != pat@[j]);
        }
        i = i + 1;
    }
    None
}

fn find_char_from(v: &Vec<char>, c: char, start: usize) -> (r: Option<usize>)
    requires
        start <= v@.len(),
    ensures
        match r {
            Some(i) => index_from(v@, c, start as int) == Some(i as int) && i < v@.len(),
            None => index_from(v@, c, start as int) is None,
        },
{
    let mut i = start;
    while i < v.len()
        invariant
            start <= i <= v@.len(),
            index_from(v@, c, start as int) == index_from(v@, c, i as int),
        decreases v@.len() - i,
    {
        if v[i] == c {
            return Some(i);
        }
        i = i + 1;
    }
    None
}

fn cut_at_slash_chars(u: &Vec<char>, from: usize) -> (r: Vec<char>)
    requires
        from <= u@.len(),
    ensures
        r@ == cut_at_slash(u@, from as int),
{
    match find_char_from(u, '/', from) {
        Some(p) => take_chars(u, p),
        None => take_chars(u, u.len()),
    }
}

fn base_url_chars(u: &Vec<char>) -> (r: Vec<char>)
    ensures
        r@ == base_url(u@),
{
    assert(u@.take(u@.len() as int) =~= u@);
    if u.len() == 0 {
        return Vec::new();
    }
    let sep = chars_of("://");
    proof {
        reveal_strlit("://");
    }
    assert(sep@.len() == 3);
    match find_str_from(u, &sep, 0) {
        Some(s) => {
            return cut_at_slash_chars(u, s + 3);
        },
        None => {},
    }
    if u[0] == '/' {
        return Vec::new();
    }
    match find_char_from(u, '/', 0) {
        Some(i) => {
            if i > 0 && i + 1 < u.len() && u[i + 1] == '/' {
                cut_at_slash_chars(u, i + 2)
            } else if i > 0 {
                take_chars(u, i)
            } else {
                take_chars(u, u.len())
            }
        },
        None => take_chars(u, u.len()),
    }
}

fn path_chars(u: &Vec<char>) -> (r: Vec<char>)
    ensures
        r@ == url_path(u@),
{
    if u.len() == 0 {
        return Vec::new();
    }
    let b = base_url_chars(u);
    if b.len() == 0 {
        return take_chars(u, u.len());
    }
    proof {
        lemma_base_is_prefix(u@);
    }
    let p = skip_chars(u, b.len());
    if p.len() == 0 {
        let mut s: Vec<char> = Vec::new();
        s.push('/');
        assert(s@ =~= seq!['/']);
        s
    } else {
        p
    }
}

proof fn lemma_cut_is_prefix(u: Seq<char>, from: int)
    requires
        0 <= from,
    ensures
        cut_at_slash(u, from).len() <= u.len(),
        cut_at_slash(u, from) == u.take(cut_at_slash(u, from).len() as int),
{
    crate::text::lemma_index_from_bound(u, '/', from);
    assert(u.take(u.len() as int) =~= u);
}

/// The base of a URL is a prefix of it.
pub proof fn lemma_base_is_prefix(u: Seq<char>)
    ensures
        base_url(u).len() <= u.len(),
        base_url(u) == u.take(base_url(u).len() as int),
{
    assert(u.take(u.len() as int) =~= u);
    assert(u.take(0) =~= Seq::<char>::empty());
    if u.len() > 0 {
        match find_from(u, "://"@, 0) {
            Some(s) => {
                lemma_find_from_bound(u, "://"@, 0);
                lemma_cut_is_prefix(u, s + 3);
            },
            None => {
                crate::text::lemma_index_from_bound(u, '/', 0);
                if u[0] != '/' {
                    match index_from(u, '/', 0) {
                        Some(i) => {
                            if i > 0 && i + 1 < u.len() && u[i + 1] == '/' {
                                lemma_cut_is_prefix(u, i + 2);
                            }
                        },
                        None => {},
                    }
                }
            },
        }
    }
}

proof fn lemma_find_from_bound(t: Seq<char>, pat: Seq<char>, i: int)
    requires
        0 <= i,
    ensures
        find_from(t, pat, i) matches Some(k) ==> i <= k && k + pat.len() <= t.len(),
    decreases t.len() + 1 - i,
{
    if i + pat.len() <= t.len() && t.subrange(i, i + pat.len()) != pat {
        lemma_find_from_bound(t, pat, i + 1);
    }
}

/// The request URL helpers of the script API.
pub struct JsRuntimeExecutor;

impl JsRuntimeExecutor {
    /// The scheme and host part of a URL (`fm.request.getBaseUrl`).
    pub fn extract_base_url(url: &str) -> (r: String)
        ensures
            r@ == base_url(url@),
    {
        let u = chars_of(url);
        string_of(&base_url_chars(&u))
    }

    /// The path part of a URL (`fm.request.getPath`).
    pub fn extract_path(url: &str) -> (r: String)
        ensures
            r@ == url_path(url@),
    {
        let u = chars_of(url);
        string_of(&path_chars(&u))
    }

    /// A URL from a base and a path (`setBaseUrl`, `setPath`).
    pub fn build_url(base: &str, path: &str) -> (r: String)
        ensures
            r@ == join_url(base@, path@),
    {
        let b = chars_of(base);
        let p = chars_of(path);
        if b.len() == 0 {
            return string_of(&p);
        }
        if p.len() == 0 {
            return string_of(&b);
        }
        let mut out = b;
        if p[0] != '/' {
            out.push('/');
        }
        append_chars(&mut out, &p);
        string_of(&out)
    }
}

/// Rebuilding a URL from its base and its path gives it back, with a `/`
/// added when it had a base and nothing after it.
pub proof fn lemma_url_rebuild(u: Seq<char>)
    ensures
        join_url(base_url(u), url_path(u)) == (if base_url(u).len() > 0 && base_url(u).len() == u.len() {
            u.push('/')
        } else {
            u
        }),
{
    lemma_base_is_prefix(u);
    let b = base_url(u);
    if u.len() > 0 && b.len() > 0 {
        let rest = u.skip(b.len() as int);
        assert(u =~= b + rest);
        if rest.len() == 0 {
            assert(b =~= u);
        } else if rest[0] == '/' {
        } else {
            assert(false) by {
                lemma_base_then_slash(u);
            }
        }
    }
}

/// What follows a non-empty base starts with `/`.
proof fn lemma_base_then_slash(u: Seq<char>)
    requires
        base_url(u).len() > 0,
        base_url(u).len() < u.len(),
    ensures
        u[base_url(u).len() as int] == '/',
{
    match find_from(u, "://"@, 0) {
        Some(s) => {
            lemma_find_from_bound(u, "://"@, 0);
            crate::text::lemma_index_from_bound(u, '/', s + 3);
        },
        None => {
            crate::text::lemma_index_from_bound(u, '/', 0);
            match index_from(u, '/', 0) {
                Some(i) => {
                    if i > 0 && i + 1 < u.len() && u[i + 1] == '/' {
                        crate::text::lemma_index_from_bound(u, '/', i + 2);
                    }
                },
                None => {},
            }
        },
    }
}

// ---------------------------------------------------------------- digests

/// Two lower-case hexadecimal digits per byte (`{:02x}`).
pub open spec fn hex_text(bytes: Seq<u8>) -> Seq<char>
    decreases bytes.len(),
{
    if bytes.len() == 0 {
        Seq::empty()
    } else {
        hex_text(bytes.drop_last()) + seq![hex_lower((bytes.last() / 16) as int), hex_lower((bytes.last() % 16) as int)]
    }
}

fn hex_digit(d: u8) -> (c: char)
    requires
        d < 16,
    ensures
        c == hex_lower(d as int),
{
    if d == 0 { '0' } else if d == 1 { '1' } else if d == 2 { '2' } else if d == 3 { '3' }
    else if d == 4 { '4' } else if d == 5 { '5' } else if d == 6 { '6' } else if d == 7 { '7' }
    else if d == 8 { '8' } else if d == 9 { '9' } else if d == 10 { 'a' } else if d == 11 { 'b' }
    else if d == 12 { 'c' } else if d == 13 { 'd' } else if d == 14 { 'e' } else { 'f' }
}

fn hex_chars_of(bytes: &[u8]) -> (r: Vec<char>)
    ensures
        r@ == hex_text(bytes@),
{
    let mut r: Vec<char> = Vec::new();
    for i in 0..bytes.len()
        invariant
            r@ == hex_text(bytes@.take(i as int)),
    {
        let b = bytes[i];
        r.push(hex_digit(b / 16));
        r.push(hex_digit(b % 16));
        assert(bytes@.take(i + 1).drop_last() =~= bytes@.take(i as int));
        assert(bytes@.take(i + 1).last() == b);
        assert(r@ =~= hex_text(bytes@.take(i + 1)));
    }
    assert(bytes@.take(bytes@.len() as int) =~= bytes@);
    r
}

/// Bytes as lower-case hexadecimal text.
pub fn hex_encode(bytes: &[u8]) -> (r: String)
    ensures
        r@ == hex_text(bytes@),
{
    string_of(&hex_chars_of(bytes))
}

/// The MD5 digest of a byte string.
pub uninterp spec fn md5_digest(data: Seq<u8>) -> Seq<u8>;

/// `md5::compute`: the MD5 digest of `data`, sixteen bytes.
#[verifier::external_body]
fn md5_of(data: &[u8]) -> (r: Vec<u8>)
    ensures
        r@ == md5_digest(data@),
        r@.len() == 16,
{
    md5::compute(data).0.to_vec()
}

/// The MD5 digest of the UTF-8 bytes of a text, in hexadecimal
/// (`fm.crypto.md5`).
pub fn md5_hex(input: &str) -> (r: String)
    ensures
        r@ == hex_text(md5_digest(vstd::utf8::encode_utf8(input@))),
{
    let d = md5_of(input.as_bytes());
    hex_encode(d.as_slice())
}

/// `n` zero bytes.
pub open spec fn zeros(n: nat) -> Seq<u8> {
    Seq::new(n, |i: int| 0u8)
}

/// The HMAC key block: the key, or its digest when longer than the 64-byte
/// block, padded with zeros to 64 bytes.
pub open spec fn hmac_key_block(key: Seq<u8>) -> Seq<u8> {
    if key.len() > 64 {
        md5_digest(key) + zeros(48)
    } else {
        key + zeros((64 - key.len()) as nat)
    }
}

/// Every byte of `k` xor-ed with `pad`.
pub open spec fn xor_all(k: Seq<u8>, pad: u8) -> Seq<u8> {
    k.map_values(|b: u8| b ^ pad)
}

/// HMAC (RFC 2104) over MD5: `H((K ^ opad) || H((K ^ ipad) || data))`.
pub open spec fn hmac_md5_spec(key: Seq<u8>, data: Seq<u8>) -> Seq<u8> {
    let k = hmac_key_block(key);
    md5_digest(xor_all(k, 0x5c) + md5_digest(xor_all(k, 0x36) + data))
}

fn xor_bytes(k: &Vec<u8>, pad: u8) -> (r: Vec<u8>)
    ensures
        r@ == xor_all(k@, pad),
{
    let mut r: Vec<u8> = Vec::new();
    for i in 0..k.len()
        invariant
            r@ == xor_all(k@.take(i as int), pad),
    {
        r.push(k[i] ^ pad);
        assert(xor_all(k@.take(i + 1), pad) =~= xor_all(k@.take(i as int), pad).push(k@[i as int] ^ pad));
    }
    assert(k@.take(k@.len() as int) =~= k@);
    r
}

fn zero_fill(v: &mut Vec<u8>, n: usize)
    ensures
        final(v)@ == old(v)@ + zeros(n as nat),
{
    for i in 0..n
        invariant
            v@ == old(v)@ + zeros(i as nat),
    {
        v.push(0u8);
        assert(old(v)@ + zeros((i + 1) as nat) =~= (old(v)@ + zeros(i as nat)).push(0u8));
    }
}

fn push_all(v: &mut Vec<u8>, w: &[u8])
    ensures
        final(v)@ == old(v)@ + w@,
{
    for i in 0..w.len()
        invariant
            v@ == old(v)@ + w@.take(i as int),
    {
        v.push(w[i]);
        assert(w@.take(i + 1) =~= w@.take(i as int).push(w@[i as int]));
    }
    assert(w@.take(w@.len() as int) =~= w@);
}

/// HMAC-MD5 of `data` under `key`.
pub fn hmac_md5(key: &[u8], data: &[u8]) -> (r: Vec<u8>)
    ensures
        r@ == hmac_md5_spec(key@, data@),
        r@.len() == 16,
{
    let mut block: Vec<u8> = Vec::new();
    if key.len() > 64 {
        let h = md5_of(key);
        push_all(&mut block, h.as_slice());
        zero_fill(&mut block, 48);
    } else {
        push_all(&mut block, key);
        zero_fill(&mut block, 64 - key.len());
    }
    assert(block@ == hmac_key_block(key@));
    let mut inner = xor_bytes(&block, 0x36);
    push_all(&mut inner, data);
    let inner_hash = md5_of(inner.as_slice());
    let mut outer = xor_bytes(&block, 0x5c);
    push_all(&mut outer, inner_hash.as_slice());
    md5_of(outer.as_slice())
}

// ---------------------------------------------------------------- UUID

/// Sixteen random bytes from the thread-local generator
/// (`rand::thread_rng().fill`). Nothing is claimed of them but their number.
#[verifier::external_body]
fn random_16_bytes() -> (r: Vec<u8>)
    ensures
        r@.len() == 16,
{
    let mut bytes = [0u8; 16];
    rand::Rng::fill(&mut rand::thread_rng(), &mut bytes);
    bytes.to_vec()
}

/// The bytes of a version-4 UUID made from sixteen random bytes: the high
/// nibble of byte 6 set to `4`, the two high bits of byte 8 set to `10`.
pub open spec fn uuid_v4_bytes(b: Seq<u8>) -> Seq<u8> {
    b.update(6, (b[6] & 0x0f) | 0x40).update(8, (b[8] & 0x3f) | 0x80)
}

/// The text of a UUID: 32 hexadecimal digits grouped 8-4-4-4-12.
pub open spec fn uuid_text(b: Seq<u8>) -> Seq<char> {
    hex_text(b.subrange(0, 4)) + seq!['-'] + hex_text(b.subrange(4, 6)) + seq!['-'] + hex_text(b.subrange(6, 8))
        + seq!['-'] + hex_text(b.subrange(8, 10)) + seq!['-'] + hex_text(b.subrange(10, 16))
}

/// The UUID text of sixteen given bytes, with the version and variant bits
/// set.
pub fn uuid_v4_from_bytes(bytes: &Vec<u8>) -> (r: String)
    requires
        bytes@.len() == 16,
    ensures
        r@ == uuid_text(uuid_v4_bytes(bytes@)),
{
    let mut b = Vec::new();
    push_all(&mut b, bytes.as_slice());
    let b6 = (b[6] & 0x0f) | 0x40;
    b.set(6, b6);
    let b8 = (b[8] & 0x3f) | 0x80;
    b.set(8, b8);
    assert(b@ =~= uuid_v4_bytes(bytes@));
    let mut out = hex_chars_of(slice_range(&b, 0, 4));
    out.push('-');
    append_chars(&mut out, &hex_chars_of(slice_range(&b, 4, 6)));
    out.push('-');
    append_chars(&mut out, &hex_chars_of(slice_range(&b, 6, 8)));
    out.push('-');
    append_chars(&mut out, &hex_chars_of(slice_range(&b, 8, 10)));
    out.push('-');
    append_chars(&mut out, &hex_chars_of(slice_range(&b, 10, 16)));
    assert(out@ =~= uuid_text(b@));
    string_of(&out)
}

fn slice_range(v: &Vec<u8>, i: usize, j: usize) -> (r: &[u8])
    requires
        i <= j <= v@.len(),
    ensures
        r@ == v@.subrange(i as int, j as int),
{
    vstd::slice::slice_subrange(v.as_slice(), i, j)
}

/// A random version-4 UUID (`fm.uuid`).
pub fn generate_uuid_v4() -> (r: String)
    ensures
        exists|b: Seq<u8>| b.len() == 16 && #[trigger] uuid_text(uuid_v4_bytes(b)) == r@,
{
    let bytes = random_16_bytes();
    let r = uuid_v4_from_bytes(&bytes);
    assert(uuid_text(uuid_v4_bytes(bytes@)) == r@);
    r
}

/// A generated UUID is of version 4 and of the RFC 4122 variant: the
/// fifteenth character is `4` and the twentieth one of `8`, `9`, `a`, `b`.
pub proof fn lemma_uuid_v4_marks(b: Seq<u8>)
    requires
        b.len() == 16,
    ensures
        uuid_text(uuid_v4_bytes(b)).len() == 36,
        uuid_text(uuid_v4_bytes(b))[14] == '4',
        uuid_text(uuid_v4_bytes(b))[19] == '8' || uuid_text(uuid_v4_bytes(b))[19] == '9'
            || uuid_text(uuid_v4_bytes(b))[19] == 'a' || uuid_text(uuid_v4_bytes(b))[19] == 'b',
{
    let u = uuid_v4_bytes(b);
    let x6 = b[6];
    let x8 = b[8];
    assert(((x6 & 0x0f) | 0x40) / 16 == 4) by (bit_vector);
    assert(((x8 & 0x3f) | 0x80) / 16 >= 8 && ((x8 & 0x3f) | 0x80) / 16 <= 11) by (bit_vector);
    reveal_with_fuel(hex_text, 7);
    assert(u.subrange(6, 8) =~= seq![u[6], u[7]]);
    assert(u.subrange(8, 10) =~= seq![u[8], u[9]]);
    assert(seq![u[6], u[7]].drop_last() =~= seq![u[6]]);
    assert(seq![u[6]].drop_last() =~= Seq::<u8>::empty());
    assert(seq![u[8], u[9]].drop_last() =~= seq![u[8]]);
    assert(seq![u[8]].drop_last() =~= Seq::<u8>::empty());
}

} // verus!
