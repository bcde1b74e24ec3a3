//! Secrets at rest: AES-256-GCM with a random nonce, stored as
//! `base64(nonce):base64(ciphertext)`.

use vstd::prelude::*;
use vstd::utf8::{encode_utf8, decode_utf8, valid_utf8, encode_utf8_valid_utf8, encode_utf8_decode_utf8};
use crate::text::{chars_of, string_of, split_on, split_chars, char_vec_views, lemma_split_nonempty, append_chars,
    to_string_of, concat2};

verus! {

// ---------------------------------------------------------------- outside calls

/// The character of the standard base64 alphabet for the six bits `v`.
pub open spec fn base64_digit(v: int) -> char {
    seq![
        'A', 'B', 'C', 'D', 'E', 'F', 'G', 'H', 'I', 'J', 'K', 'L', 'M', 'N', 'O', 'P', 'Q', 'R', 'S', 'T', 'U', 'V',
        'W', 'X', 'Y', 'Z', 'a', 'b', 'c', 'd', 'e', 'f', 'g', 'h', 'i', 'j', 'k', 'l', 'm', 'n', 'o', 'p', 'q', 'r',
        's', 't', 'u', 'v', 'w', 'x', 'y', 'z', '0', '1', '2', '3', '4', '5', '6', '7', '8', '9', '+', '/',
    ][v]
}

/// The text that standard base64 (with padding) makes of `bytes`: each
/// group of three bytes becomes four characters of six bits each, most
/// significant first; a last group of one or two bytes is filled out with
/// zero bits and padded with `=` to four characters.
pub open spec fn base64_text(bytes: Seq<u8>) -> Seq<char>
    decreases bytes.len(),
{
    if bytes.len() == 0 {
        Seq::empty()
    } else if bytes.len() == 1 {
        let a = bytes[0] as int;
        seq![base64_digit(a / 4), base64_digit((a % 4) * 16), '=', '=']
    } else if bytes.len() == 2 {
        let a = bytes[0] as int;
        let b = bytes[1] as int;
        seq![base64_digit(a / 4), base64_digit((a % 4) * 16 + b / 16), base64_digit((b % 16) * 4), '=']
    } else {
        let a = bytes[0] as int;
        let b = bytes[1] as int;
        let c = bytes[2] as int;
        seq![base64_digit(a / 4), base64_digit((a % 4) * 16 + b / 16), base64_digit((b % 16) * 4 + c / 64), base64_digit(c % 64)]
            + base64_text(bytes.skip(3))
    }
}

/// The text of the error that standard base64 decoding reports for `s`.
pub uninterp spec fn base64_error_text(s: Seq<char>) -> Seq<char>;

/// The AES-256-GCM ciphertext (with its tag) of `plain` under `key` and
/// `nonce`.
pub uninterp spec fn aes_gcm_seal(key: Seq<u8>, nonce: Seq<u8>, plain: Seq<u8>) -> Seq<u8>;

/// The plaintext that AES-256-GCM authenticates and decrypts from `cipher`
/// under `key` and `nonce`; none when authentication fails.
pub uninterp spec fn aes_gcm_open(key: Seq<u8>, nonce: Seq<u8>, cipher: Seq<u8>) -> Option<Seq<u8>>;

/// The text of the error `String::from_utf8` reports for `bytes`.
pub uninterp spec fn utf8_error_text(bytes: Seq<u8>) -> Seq<char>;

/// The largest plaintext AES-GCM accepts, in bytes.
pub open spec fn aes_gcm_p_max() -> int {
    0x10_0000_0000
}

/// A character of the standard base64 alphabet or its padding.
pub open spec fn is_base64_char(c: char) -> bool {
    ('A' <= c && c <= 'Z') || ('a' <= c && c <= 'z') || ('0' <= c && c <= '9') || c == '+' || c == '/' || c == '='
}

/// Whether the base64 text of `n` bytes fits in memory.
pub open spec fn base64_fits(n: int) -> bool {
    4 * ((n + 2) / 3) <= usize::MAX
}

/// `STANDARD.encode` of base64: the padded standard base64 text of
/// `bytes`, made of the alphabet `A-Z a-z 0-9 + /` and `=`.
#[verifier::external_body]
pub(crate) fn base64_encode(bytes: &[u8]) -> (r: String)
    requires
        base64_fits(bytes@.len() as int),
    ensures
        r@ == base64_text(bytes@),
        forall|i: int| 0 <= i < r@.len() ==> is_base64_char(#[trigger] r@[i]),
{
    base64::Engine::encode(&base64::engine::general_purpose::STANDARD, bytes)
}

/// `STANDARD.decode` of base64. Padding must be canonical and trailing bits
/// zero, so it gives back exactly the bytes whose encoding `s` is, and
/// fails on any other text; the error is its message.
#[verifier::external_body]
pub(crate) fn base64_decode(s: &str) -> (r: Result<Vec<u8>, String>)
    ensures
        match r {
            Ok(v) => base64_text(v@) == s@,
            Err(e) => e@ == base64_error_text(s@),
        },
        forall|b: Seq<u8>| #[trigger] base64_text(b) == s@ ==> (r is Ok && r->Ok_0@ == b),
        s@.contains(':') ==> r is Err,
{
    base64::Engine::decode(&base64::engine::general_purpose::STANDARD, s).map_err(|e| e.to_string())
}

/// `Aes256Gcm::encrypt` with an empty associated text: the ciphertext with
/// its 16-byte tag; fails only when the plaintext is longer than `P_MAX`
/// (2^36 bytes).
#[verifier::external_body]
fn aes_gcm_encrypt(key: &[u8; 32], nonce: &[u8], plain: &[u8]) -> (r: Option<Vec<u8>>)
    requires
        nonce@.len() == 12,
    ensures
        r is Some <==> plain@.len() <= aes_gcm_p_max(),
        r matches Some(c) ==> c@ == aes_gcm_seal(key@, nonce@, plain@) && c@.len() == plain@.len() + 16,
{
    let cipher = <aes_gcm::Aes256Gcm as aes_gcm::aead::KeyInit>::new(key.into());
    aes_gcm::aead::Aead::encrypt(&cipher, aes_gcm::Nonce::from_slice(nonce), plain).ok()
}

/// `Aes256Gcm::decrypt` with an empty associated text: the authenticated
/// plaintext, or none. What was sealed under the same key and nonce opens
/// to the plaintext that was sealed.
#[verifier::external_body]
fn aes_gcm_decrypt(key: &[u8; 32], nonce: &[u8], cipher: &[u8]) -> (r: Option<Vec<u8>>)
    requires
        nonce@.len() == 12,
    ensures
        match r {
            Some(p) => aes_gcm_open(key@, nonce@, cipher@) == Some(p@),
            None => aes_gcm_open(key@, nonce@, cipher@) is None,
        },
        forall|p: Seq<u8>|
            p.len() <= aes_gcm_p_max() && cipher@ == #[trigger] aes_gcm_seal(key@, nonce@, p) ==> (r is Some && r->Some_0@ == p),
{
    let c = <aes_gcm::Aes256Gcm as aes_gcm::aead::KeyInit>::new(key.into());
    aes_gcm::aead::Aead::decrypt(&c, aes_gcm::Nonce::from_slice(nonce), cipher).ok()
}

/// Twelve random bytes from the thread-local generator
/// (`RngCore::fill_bytes`). Nothing is claimed of them but their number.
#[verifier::external_body]
fn random_nonce() -> (r: Vec<u8>)
    ensures
        r@.len() == 12,
{
    let mut n = [0u8; 12];
    rand::RngCore::fill_bytes(&mut rand::thread_rng(), &mut n);
    n.to_vec()
}

/// `String::from_utf8`: the text whose UTF-8 encoding `bytes` is, or the
/// error message when they are not valid UTF-8.
#[verifier::external_body]
pub(crate) fn string_from_utf8(bytes: Vec<u8>) -> (r: Result<String, String>)
    ensures
        r is Ok <==> valid_utf8(bytes@),
        match r {
            Ok(s) => s@ == decode_utf8(bytes@),
            Err(e) => e@ == utf8_error_text(bytes@),
        },
{
    String::from_utf8(bytes).map_err(|e| e.to_string())
}

// ---------------------------------------------------------------- the format

/// The stored form of `plain` sealed under `key` with `nonce`.
pub open spec fn sealed_text(key: Seq<u8>, nonce: Seq<u8>, plain: Seq<char>) -> Seq<char> {
    base64_text(nonce) + seq![':'] + base64_text(aes_gcm_seal(key, nonce, encode_utf8(plain)))
}

/// The bytes whose base64 text is `s`, if any.
pub open spec fn base64_bytes(s: Seq<char>) -> Option<Seq<u8>> {
    if exists|b: Seq<u8>| #[trigger] base64_text(b) == s {
        Some(choose|b: Seq<u8>| #[trigger] base64_text(b) == s)
    } else {
        None
    }
}

/// Reading a stored secret: two `:`-separated base64 parts, a 12-byte
/// nonce, an authentic ciphertext and UTF-8 plaintext; each failure has its
/// message.
pub open spec fn decrypt_spec(key: Seq<u8>, text: Seq<char>) -> Result<Seq<char>, Seq<char>> {
    let parts = split_on(text, ':');
    if parts.len() != 2 {
        Err("无效的加密数据格式"@)
    } else {
        match base64_bytes(parts[0]) {
            None => Err("Nonce Base64 解码失败: "@ + base64_error_text(parts[0])),
            Some(n) => match base64_bytes(parts[1]) {
                None => Err("密文 Base64 解码失败: "@ + base64_error_text(parts[1])),
                Some(c) => if n.len() != 12 {
                    Err("Nonce 长度错误"@)
                } else {
                    match aes_gcm_open(key, n, c) {
                        None => Err("解密失败: aead::Error"@),
                        Some(m) => if valid_utf8(m) {
                            Ok(decode_utf8(m))
                        } else {
                            Err("UTF-8 转换失败: "@ + utf8_error_text(m))
                        },
                    }
                },
            },
        }
    }
}

/// Whether `t` holds no `:`.
pub open spec fn colon_free(t: Seq<char>) -> bool {
    !t.contains(':')
}

/// Encrypting and decrypting text.
pub trait EncryptionService {
    fn encrypt(&self, plain_text: &str) -> Result<String, String>
        requires
            base64_fits(encode_utf8(plain_text@).len() as int + 16),
    ;

    fn decrypt(&self, encrypted: &str) -> Result<String, String>;
}

/// AES-256-GCM under a 32-byte key.
pub struct AesGcmEncryptionService {
    key: [u8; 32],
}

impl AesGcmEncryptionService {
    /// The service for a key (read or created by the caller).
    pub fn new(key: [u8; 32]) -> (s: Self)
        ensures
            s.key() == key@,
    {
        AesGcmEncryptionService { key }
    }

    /// The key.
    pub closed spec fn key(&self) -> Seq<u8> {
        self.key@
    }
}

proof fn lemma_split_colon_free(t: Seq<char>)
    requires
        colon_free(t),
    ensures
        split_on(t, ':') == seq![t],
    decreases t.len(),
{
    if t.len() > 0 {
        assert(colon_free(t.drop_last())) by {
            if t.drop_last().contains(':') {
                let i = choose|i: int| 0 <= i < t.drop_last().len() && t.drop_last()[i] == ':';
                assert(t[i] == ':');
            }
        }
        lemma_split_colon_free(t.drop_last());
        assert(t.last() != ':') by {
            assert(t[t.len() - 1] == t.last());
        }
        assert(t.drop_last().push(t.last()) =~= t);
        assert(split_on(t, ':') =~= seq![t]);
    } else {
        assert(t =~= Seq::<char>::empty());
    }
}

proof fn lemma_split_append_free(x: Seq<char>, y: Seq<char>)
    requires
        colon_free(y),
    ensures
        split_on(x + y, ':') == split_on(x, ':').update(split_on(x, ':').len() - 1, split_on(x, ':').last() + y),
    decreases y.len(),
{
    lemma_split_nonempty(x, ':');
    if y.len() == 0 {
        assert(x + y =~= x);
        assert(split_on(x, ':').last() + y =~= split_on(x, ':').last());
        assert(split_on(x, ':').update(split_on(x, ':').len() - 1, split_on(x, ':').last()) =~= split_on(x, ':'));
    } else {
        assert(colon_free(y.drop_last())) by {
            if y.drop_last().contains(':') {
                let i = choose|i: int| 0 <= i < y.drop_last().len() && y.drop_last()[i] == ':';
                assert(y[i] == ':');
            }
        }
        lemma_split_append_free(x, y.drop_last());
        assert((x + y).drop_last() =~= x + y.drop_last());
        assert((x + y).last() == y.last());
        assert(y.last() != ':') by {
            assert(y[y.len() - 1] == y.last());
        }
        assert(y.drop_last().push(y.last()) =~= y);
        let s = split_on(x, ':');
        assert((s.last() + y.drop_last()).push(y.last()) =~= s.last() + y);
        assert(split_on(x + y, ':') =~= s.update(s.len() - 1, s.last() + y));
    }
}

/// A text `a:b` with no other colon splits into `a` and `b`.
proof fn lemma_split_pair(a: Seq<char>, b: Seq<char>)
    requires
        colon_free(a),
        colon_free(b),
    ensures
        split_on(a + seq![':'] + b, ':') == seq![a, b],
{
    lemma_split_colon_free(a);
    let ac = a + seq![':'];
    assert(ac.drop_last() =~= a);
    assert(ac.last() == ':');
    assert(split_on(ac, ':') == seq![a].push(Seq::<char>::empty()));
    lemma_split_append_free(ac, b);
    assert(Seq::<char>::empty() + b =~= b);
    assert(split_on(ac + b, ':') =~= seq![a, b]);
}

proof fn lemma_base64_colon_free(r: Seq<char>)
    requires
        forall|i: int| 0 <= i < r.len() ==> is_base64_char(#[trigger] r[i]),
    ensures
        colon_free(r),
{
    if r.contains(':') {
        let i = choose|i: int| 0 <= i < r.len() && r[i] == ':';
        assert(is_base64_char(r[i]));
    }
}

fn bytes_of(s: &str) -> (r: Vec<u8>)
    ensures
        r@ == encode_utf8(s@),
{
    let b = s.as_bytes();
    let mut r: Vec<u8> = Vec::new();
    for i in 0..b.len()
        invariant
            b@ == encode_utf8(s@),
            r@ == b@.take(i as int),
    {
        r.push(b[i]);
        assert(b@.take(i + 1) =~= b@.take(i as int).push(b@[i as int]));
    }
    assert(b@.take(b@.len() as int) =~= b@);
    r
}

impl EncryptionService for AesGcmEncryptionService {
    /// Seals the UTF-8 bytes of the text under a fresh random nonce.
    fn encrypt(&self, plain_text: &str) -> (r: Result<String, String>)
        ensures
            r is Ok <==> encode_utf8(plain_text@).len() <= aes_gcm_p_max(),
            r matches Err(e) ==> e@ == "加密失败: aead::Error"@,
            r matches Ok(t) ==> exists|n: Seq<u8>|
                n.len() == 12 && #[trigger] sealed_text(self.key(), n, plain_text@) == t@ && colon_free(base64_text(n))
                    && colon_free(base64_text(aes_gcm_seal(self.key(), n, encode_utf8(plain_text@)))),
    {
        let nonce = random_nonce();
        let plain = bytes_of(plain_text);
        match aes_gcm_encrypt(&self.key, nonce.as_slice(), plain.as_slice()) {
            None => Err(to_string_of("加密失败: aead::Error")),
            Some(c) => {
                let a = base64_encode(nonce.as_slice());
                let b = base64_encode(c.as_slice());
                proof {
                    lemma_base64_colon_free(a@);
                    lemma_base64_colon_free(b@);
                }
                let mut v = chars_of(a.as_str());
                v.push(':');
                append_chars(&mut v, &chars_of(b.as_str()));
                let t = string_of(&v);
                assert(sealed_text(self.key(), nonce@, plain_text@) == t@);
                Ok(t)
            },
        }
    }

    /// Opens a stored secret.
    fn decrypt(&self, encrypted: &str) -> (r: Result<String, String>)
        ensures
            match decrypt_spec(self.key(), encrypted@) {
                Ok(p) => r is Ok && r->Ok_0@ == p,
                Err(e) => r is Err && r->Err_0@ == e,
            },
            forall|n: Seq<u8>, p: Seq<char>|
                n.len() == 12 && encode_utf8(p).len() <= aes_gcm_p_max() && colon_free(base64_text(n))
                    && colon_free(base64_text(aes_gcm_seal(self.key(), n, encode_utf8(p))))
                    && #[trigger] sealed_text(self.key(), n, p) == encrypted@ ==> (r is Ok && r->Ok_0@ == p),
    {
        let text = chars_of(encrypted);
        let parts = split_chars(&text, ':');
        let ghost pv = char_vec_views(parts@);
        proof {
            lemma_split_nonempty(text@, ':');
        }
        if parts.len() != 2 {
            proof {
                assert forall|n: Seq<u8>, p: Seq<char>|
                    n.len() == 12 && encode_utf8(p).len() <= aes_gcm_p_max() && colon_free(base64_text(n))
                        && colon_free(base64_text(aes_gcm_seal(self.key(), n, encode_utf8(p))))
                        && #[trigger] sealed_text(self.key(), n, p) == encrypted@ implies false by {
                    lemma_split_pair(base64_text(n), base64_text(aes_gcm_seal(self.key(), n, encode_utf8(p))));
                }
            }
            return Err(to_string_of("无效的加密数据格式"));
        }
        assert(pv[0] == parts@[0]@ && pv[1] == parts@[1]@);
        let s0 = string_of(&parts[0]);
        let s1 = string_of(&parts[1]);
        let d0 = base64_decode(s0.as_str());
        let d1 = base64_decode(s1.as_str());
        let r = match d0 {
            Err(e) => Err(concat2("Nonce Base64 解码失败: ", e.as_str())),
            Ok(nonce) => match d1 {
                Err(e) => Err(concat2("密文 Base64 解码失败: ", e.as_str())),
                Ok(cipher) => {
                    if nonce.len() != 12 {
                        Err(to_string_of("Nonce 长度错误"))
                    } else {
                        match aes_gcm_decrypt(&self.key, nonce.as_slice(), cipher.as_slice()) {
                            None => Err(to_string_of("解密失败: aead::Error")),
                            Some(m) => match string_from_utf8(m) {
                                Ok(s) => Ok(s),
                                Err(e) => Err(concat2("UTF-8 转换失败: ", e.as_str())),
                            },
                        }
                    }
                },
            },
        };
        proof {
            assert forall|n: Seq<u8>, p: Seq<char>|
                n.len() == 12 && encode_utf8(p).len() <= aes_gcm_p_max() && colon_free(base64_text(n))
                    && colon_free(base64_text(aes_gcm_seal(self.key(), n, encode_utf8(p))))
                    && #[trigger] sealed_text(self.key(), n, p) == encrypted@ implies (r is Ok && r->Ok_0@ == p) by {
                let c = aes_gcm_seal(self.key(), n, encode_utf8(p));
                lemma_split_pair(base64_text(n), base64_text(c));
                assert(s0@ == base64_text(n));
                assert(s1@ == base64_text(c));
                encode_utf8_valid_utf8(p);
                encode_utf8_decode_utf8(p);
            }
        }
        r
    }
}

} // verus!
