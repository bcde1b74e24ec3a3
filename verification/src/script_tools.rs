//! The utilities of the `fm` object: SHA-256 and HMAC digests, base64 and
//! URL coding of text, and random strings and integers.

use vstd::prelude::*;
use vstd::utf8::{encode_utf8, decode_utf8, valid_utf8};
use crate::script_runtime::{hex_text, hex_encode, hmac_md5, hmac_md5_spec, zeros, xor_all};
use crate::encryption::{base64_text, base64_error_text, base64_bytes, base64_fits, base64_encode, base64_decode,
    string_from_utf8, utf8_error_text};
use crate::request_body::{percent_encode, url_encode};
use crate::logging::{lowercase_text, to_lowercase};
use crate::text::{str_eq, chars_of, string_of, append_chars, to_string_of, concat2};
use crate::stress::{uppercase_text, to_uppercase};

verus! {

// ---------------------------------------------------------------- digests

/// The SHA-256 digest of a byte string.
pub uninterp spec fn sha256_digest(data: Seq<u8>) -> Seq<u8>;

/// `Sha256::digest`: the SHA-256 digest of `data`, 32 bytes.
#[verifier::external_body]
fn sha256_of(data: &[u8]) -> (r: Vec<u8>)
    ensures
        r@ == sha256_digest(data@),
        r@.len() == 32,
{
    <sha2::Sha256 as sha2::Digest>::digest(data).to_vec()
}

/// The HMAC key block for SHA-256: the key, or its digest when longer than
/// the 64-byte block, padded with zeros to 64 bytes.
pub open spec fn sha256_key_block(key: Seq<u8>) -> Seq<u8> {
    if key.len() > 64 {
        sha256_digest(key) + zeros(32)
    } else {
        key + zeros((64 - key.len()) as nat)
    }
}

/// HMAC (RFC 2104) over SHA-256: `H((K ^ opad) || H((K ^ ipad) || data))`.
pub open spec fn hmac_sha256_spec(key: Seq<u8>, data: Seq<u8>) -> Seq<u8> {
    let k = sha256_key_block(key);
    sha256_digest(xor_all(k, 0x5c) + sha256_digest(xor_all(k, 0x36) + data))
}

/// `Hmac::<Sha256>` keyed with `key`, fed `data`, finalized: the RFC 2104
/// construction over SHA-256 with its 64-byte block (a longer key is
/// hashed first). Keying never fails for HMAC, whatever the key's length.
#[verifier::external_body]
fn hmac_sha256_of(key: &[u8], data: &[u8]) -> (r: Vec<u8>)
    ensures
        r@ == hmac_sha256_spec(key@, data@),
        r@.len() == 32,
{
    let mut mac = <hmac::Hmac<sha2::Sha256> as hmac::Mac>::new_from_slice(key).expect("HMAC takes a key of any length");
    hmac::Mac::update(&mut mac, data);
    hmac::Mac::finalize(mac).into_bytes().to_vec()
}

/// `fm.crypto.sha256`: the SHA-256 digest of the UTF-8 bytes of a text, in
/// hexadecimal.
pub fn sha256_hex(input: &str) -> (r: String)
    ensures
        r@ == hex_text(sha256_digest(encode_utf8(input@))),
{
    let d = sha256_of(input.as_bytes());
    hex_encode(d.as_slice())
}

/// The text `fm.crypto.hmac(algo, key, data)` gives: the hexadecimal HMAC
/// for `md5` or `sha256` (in any case), else a note naming the algorithm.
pub open spec fn hmac_text(algo: Seq<char>, key: Seq<char>, data: Seq<char>) -> Seq<char> {
    let a = lowercase_text(algo);
    if a == "md5"@ {
        hex_text(hmac_md5_spec(encode_utf8(key), encode_utf8(data)))
    } else if a == "sha256"@ {
        hex_text(hmac_sha256_spec(encode_utf8(key), encode_utf8(data)))
    } else {
        "Unsupported algorithm: "@ + algo
    }
}

/// `fm.crypto.hmac`.
pub fn crypto_hmac(algo: &str, key: &str, data: &str) -> (r: String)
    ensures
        r@ == hmac_text(algo@, key@, data@),
{
    let a = to_lowercase(algo);
    if str_eq(a.as_str(), "md5") {
        let d = hmac_md5(key.as_bytes(), data.as_bytes());
        hex_encode(d.as_slice())
    } else if str_eq(a.as_str(), "sha256") {
        let d = hmac_sha256_of(key.as_bytes(), data.as_bytes());
        hex_encode(d.as_slice())
    } else {
        concat2("Unsupported algorithm: ", algo)
    }
}

// ---------------------------------------------------------------- base64

/// The text of `bytes` read as UTF-8, each invalid sequence replaced by
/// U+FFFD.
pub uninterp spec fn lossy_text(bytes: Seq<u8>) -> Seq<char>;

/// `String::from_utf8_lossy`: valid UTF-8 reads as its text; invalid
/// sequences become U+FFFD (what they become is left to the name).
#[verifier::external_body]
pub(crate) fn utf8_lossy(bytes: &[u8]) -> (r: String)
    ensures
        r@ == lossy_text(bytes@),
        valid_utf8(bytes@) ==> r@ == decode_utf8(bytes@),
{
    String::from_utf8_lossy(bytes).into_owned()
}

/// `fm.base64.encode`: the standard base64 text of the UTF-8 bytes.
pub fn base64_encode_text(input: &str) -> (r: String)
    requires
        base64_fits(encode_utf8(input@).len() as int),
    ensures
        r@ == base64_text(encode_utf8(input@)),
{
    base64_encode(input.as_bytes())
}

/// `fm.base64.decode`: the decoded bytes read as UTF-8 (invalid sequences
/// replaced), or the decoding error.
pub fn base64_decode_text(input: &str) -> (r: String)
    ensures
        match base64_bytes(input@) {
            Some(b) => r@ == lossy_text(b),
            None => r@ == "Base64 decode error: "@ + base64_error_text(input@),
        },
{
    match base64_decode(input) {
        Ok(v) => {
            assert(base64_bytes(input@) == Some(v@));
            utf8_lossy(v.as_slice())
        },
        Err(e) => {
            assert(base64_bytes(input@) is None) by {
                if exists|b: Seq<u8>| #[trigger] base64_text(b) == input@ {
                    let b = choose|b: Seq<u8>| #[trigger] base64_text(b) == input@;
                    assert(base64_text(b) == input@);
                }
            }
            concat2("Base64 decode error: ", e.as_str())
        },
    }
}

// ---------------------------------------------------------------- URLs

/// `fm.url.encode`: the UTF-8 bytes percent-encoded.
pub fn url_encode_text(input: &str) -> (r: String)
    ensures
        r@ == percent_encode(encode_utf8(input@)),
{
    url_encode(input)
}

/// The value of a hexadecimal digit byte, if it is one.
pub open spec fn hex_value(b: u8) -> Option<u8> {
    if 48 <= b <= 57 {
        Some((b - 48) as u8)
    } else if 65 <= b <= 70 {
        Some((b - 55) as u8)
    } else if 97 <= b <= 102 {
        Some((b - 87) as u8)
    } else {
        None
    }
}

/// Percent-decoding: `%` and two hexadecimal digits become that byte;
/// every other byte, `+` and a `%` not so followed among them, stays.
pub open spec fn percent_decoded(b: Seq<u8>) -> Seq<u8>
    decreases b.len(),
{
    if b.len() == 0 {
        Seq::empty()
    } else if b[0] == 37 && b.len() >= 3 && hex_value(b[1]) is Some && hex_value(b[2]) is Some {
        seq![(hex_value(b[1])->Some_0 * 16 + hex_value(b[2])->Some_0) as u8] + percent_decoded(b.skip(3))
    } else {
        seq![b[0]] + percent_decoded(b.skip(1))
    }
}

/// `urlencoding::decode_binary`: the bytes percent-decoded.
#[verifier::external_body]
fn percent_decode(data: &[u8]) -> (r: Vec<u8>)
    ensures
        r@ == percent_decoded(data@),
{
    urlencoding::decode_binary(data).into_owned()
}

/// `fm.url.decode`: the percent-decoded text, or the error when the bytes
/// are not UTF-8.
pub fn url_decode_text(input: &str) -> (r: String)
    ensures
        ({
            let d = percent_decoded(encode_utf8(input@));
            if valid_utf8(d) {
                r@ == decode_utf8(d)
            } else {
                r@ == "URL decode error: "@ + utf8_error_text(d)
            }
        }),
{
    let d = percent_decode(input.as_bytes());
    match string_from_utf8(d) {
        Ok(s) => s,
        Err(e) => concat2("URL decode error: ", e.as_str()),
    }
}

// ---------------------------------------------------------------- random values

/// A random index below `n` (`Rng::gen_range(0..n)`); nothing more is
/// claimed of it.
#[verifier::external_body]
fn random_below(n: usize) -> (r: usize)
    requires
        n > 0,
    ensures
        r < n,
{
    rand::Rng::gen_range(&mut rand::thread_rng(), 0..n)
}

/// A random integer in `min..=max` (`Rng::gen_range`); nothing more is
/// claimed of it.
#[verifier::external_body]
fn random_in(min: i64, max: i64) -> (r: i64)
    requires
        min <= max,
    ensures
        min <= r <= max,
{
    rand::Rng::gen_range(&mut rand::thread_rng(), min..=max)
}

/// The characters `fm.random.string` draws from by default.
pub const DEFAULT_CHARSET: &'static str = "abcdefghijklmnopqrstuvwxyzABCDEFGHIJKLMNOPQRSTUVWXYZ0123456789";

/// Every character of `s` is ASCII.
pub open spec fn is_ascii_text(s: Seq<char>) -> bool {
    forall|i: int| 0 <= i < s.len() ==> (#[trigger] s[i] as u32) < 128
}

/// `fm.random.int`: a random integer from `min` to `max`, both included.
pub fn random_int(min: i64, max: i64) -> (r: i64)
    requires
        min <= max,
    ensures
        min <= r <= max,
{
    random_in(min, max)
}

/// The default charset is ASCII.
proof fn lemma_default_charset_ascii()
    ensures
        is_ascii_text(DEFAULT_CHARSET@),
{
    reveal_strlit("abcdefghijklmnopqrstuvwxyzABCDEFGHIJKLMNOPQRSTUVWXYZ0123456789");
    let cs = DEFAULT_CHARSET@;
    assert(cs =~= seq!['a', 'b', 'c', 'd', 'e', 'f', 'g', 'h', 'i', 'j', 'k', 'l', 'm', 'n', 'o', 'p', 'q', 'r', 's', 't', 'u',
        'v', 'w', 'x', 'y', 'z', 'A', 'B', 'C', 'D', 'E', 'F', 'G', 'H', 'I', 'J', 'K', 'L', 'M', 'N', 'O', 'P', 'Q', 'R',
        'S', 'T', 'U', 'V', 'W', 'X', 'Y', 'Z', '0', '1', '2', '3', '4', '5', '6', '7', '8', '9']);
    assert forall|i: int| 0 <= i < cs.len() implies (#[trigger] cs[i] as u32) < 128 by {
        assert('0' <= cs[i] <= 'z');
    }
}

/// An ASCII text takes one byte per character in UTF-8.
proof fn lemma_ascii_byte_len(cs: Seq<char>)
    requires
        is_ascii_text(cs),
    ensures
        vstd::utf8::encode_utf8(cs).len() == cs.len(),
    decreases cs.len(),
{
    if cs.len() > 0 {
        assert(is_ascii_text(cs.drop_first())) by {
            assert forall|i: int| 0 <= i < cs.drop_first().len() implies (#[trigger] cs.drop_first()[i] as u32) < 128 by {
                assert(cs.drop_first()[i] == cs[i + 1]);
            }
        }
        lemma_ascii_byte_len(cs.drop_first());
        assert((cs[0] as u32) < 128);
        assert(vstd::utf8::encode_scalar(cs[0] as u32).len() == 1);
    }
}

/// `fm.random.string`: `length` characters (none when it is not positive)
/// drawn from the charset, letters and digits by default. Each draw picks a
/// position below the charset's length in bytes; a position past its last
/// character (possible only for a charset that is not ASCII) gives `None`,
/// where no character can be taken.
pub fn random_string(length: i32, charset: Option<String>) -> (r: Option<String>)
    requires
        charset matches Some(c) ==> (length > 0 ==> c@.len() > 0),
    ensures
        match r {
            Some(s) => s@.len() == (if length > 0 { length as int } else { 0 })
                && forall|i: int| 0 <= i < s@.len() ==> (match charset {
                    Some(c) => c@,
                    None => DEFAULT_CHARSET@,
                }).contains(#[trigger] s@[i]),
            None => charset matches Some(c) && !is_ascii_text(c@),
        },
        (charset matches Some(c) ==> is_ascii_text(c@)) ==> r is Some,
{
    proof {
        reveal_strlit("abcdefghijklmnopqrstuvwxyzABCDEFGHIJKLMNOPQRSTUVWXYZ0123456789");
    }
    let text: &str = match &charset {
        Some(c) => c.as_str(),
        None => DEFAULT_CHARSET,
    };
    let chars = chars_of(text);
    let byte_len = text.as_bytes().len();
    let ghost cs = chars@;
    let ghost ascii = match charset {
        Some(c) => is_ascii_text(c@),
        None => true,
    };
    proof {
        lemma_default_charset_ascii();
        assert(cs == match charset {
            Some(c) => c@,
            None => DEFAULT_CHARSET@,
        });
        assert(byte_len == vstd::utf8::encode_utf8(cs).len());
        if ascii {
            lemma_ascii_byte_len(cs);
        }
        if cs.len() > 0 {
            assert(vstd::utf8::encode_utf8(cs).len() > 0);
        }
    }
    let n: usize = if length > 0 { length as usize } else { 0 };
    let mut out: Vec<char> = Vec::new();
    for i in 0..n
        invariant
            cs == chars@,
            n > 0 ==> chars@.len() > 0,
            n > 0 ==> byte_len > 0,
            ascii ==> byte_len == chars@.len(),
            ascii == (match charset {
                Some(c) => is_ascii_text(c@),
                None => true,
            }),
            out@.len() == i,
            forall|j: int| 0 <= j < out@.len() ==> cs.contains(#[trigger] out@[j]),
    {
        let k = random_below(byte_len);
        if k >= chars.len() {
            return None;
        }
        out.push(chars[k]);
        assert(cs.contains(cs[k as int]));
    }
    Some(string_of(&out))
}

// ---------------------------------------------------------------- fm.sendRequest

/// How `fm.sendRequest` sends a request.
#[derive(Debug)]
pub struct ScriptRequestPlan {
    pub url: String,
    pub method: String,
    pub headers: Vec<(String, String)>,
    pub body: Option<String>,
}

/// The headers whose values are text, in order.
pub open spec fn text_headers(hs: Seq<(String, Option<String>)>) -> Seq<(Seq<char>, Seq<char>)>
    decreases hs.len(),
{
    if hs.len() == 0 {
        Seq::empty()
    } else {
        match hs.last().1 {
            Some(v) => text_headers(hs.drop_last()).push((hs.last().0@, v@)),
            None => text_headers(hs.drop_last()),
        }
    }
}

/// The request `fm.sendRequest` makes from the options the script passed
/// (read from their JSON: the `url`, `method` and `body` that are text, and
/// each header with its value when that is text): the method defaults to
/// `GET` and goes to upper case; a missing or empty URL is refused.
pub fn plan_send_request(
    url: Option<String>,
    method: Option<String>,
    headers: Vec<(String, Option<String>)>,
    body: Option<String>,
) -> (r: Result<ScriptRequestPlan, String>)
    ensures
        ({
            let u = match url {
                Some(x) => x@,
                None => Seq::<char>::empty(),
            };
            if u.len() == 0 {
                r matches Err(e) && e@ == "Missing url"@
            } else {
                r matches Ok(p) && p.url@ == u && p.method@ == uppercase_text(match method {
                    Some(m) => m@,
                    None => "GET"@,
                }) && p.headers@.map_values(|h: (String, String)| (h.0@, h.1@)) == text_headers(headers@)
                    && p.body == body
            }
        }),
{
    let u = match url {
        Some(x) => x,
        None => to_string_of(""),
    };
    let m = match &method {
        Some(x) => to_uppercase(x.as_str()),
        None => to_uppercase("GET"),
    };
    proof {
        reveal_strlit("");
    }
    if u.as_str().is_empty() {
        return Err(to_string_of("Missing url"));
    }
    let mut hs: Vec<(String, String)> = Vec::new();
    for i in 0..headers.len()
        invariant
            hs@.map_values(|h: (String, String)| (h.0@, h.1@)) == text_headers(headers@.take(i as int)),
    {
        assert(headers@.take(i + 1).drop_last() =~= headers@.take(i as int));
        assert(headers@.take(i + 1).last() == headers@[i as int]);
        match &headers[i].1 {
            Some(v) => {
                let ghost before = hs@;
                hs.push((headers[i].0.clone(), v.clone()));
                assert(hs@.map_values(|h: (String, String)| (h.0@, h.1@)) =~= before.map_values(
                    |h: (String, String)| (h.0@, h.1@),
                ).push((headers@[i as int].0@, v@)));
            },
            None => {},
        }
    }
    assert(headers@.take(headers@.len() as int) =~= headers@);
    Ok(ScriptRequestPlan { url: u, method: m, headers: hs, body })
}

} // verus!
