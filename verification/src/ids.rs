//! Identifiers and timestamps for new records.

use vstd::prelude::*;
use crate::text::{chars_of, dec_chars, dec_digits, string_of, append_chars};

verus! {

/// Milliseconds since the Unix epoch by the system clock (`chrono::Utc::now`).
/// Nothing is claimed of the value: it is the time of the call.
#[verifier::external_body]
fn clock_millis() -> (r: i64) {
    chrono::Utc::now().timestamp_millis()
}

/// A random number from the thread-local generator (`rand::random::<u32>`).
/// Nothing is claimed of the value.
#[verifier::external_body]
fn random_u32() -> (r: u32) {
    rand::random::<u32>()
}

pub open spec fn ascii_digit(c: char) -> bool {
    '0' <= c && c <= '9'
}

/// The shape of the RFC 3339 text chrono writes for a local time: a date
/// ending `-MM-DD`, then `T`, the time `HH:MM:SS` (perhaps followed by a
/// fraction of a second), and the offset from UTC as `+HH:MM` or `-HH:MM`.
pub open spec fn is_rfc3339_text(s: Seq<char>) -> bool {
    &&& s.len() >= 6
    &&& (s[s.len() - 6] == '+' || s[s.len() - 6] == '-')
    &&& ascii_digit(s[s.len() - 5]) && ascii_digit(s[s.len() - 4])
    &&& s[s.len() - 3] == ':'
    &&& ascii_digit(s[s.len() - 2]) && ascii_digit(s[s.len() - 1])
    &&& exists|t: int|
        #![trigger s[t]]
        6 <= t && t + 9 <= s.len() - 6 && s[t] == 'T'
            && s[t - 6] == '-' && ascii_digit(s[t - 5]) && ascii_digit(s[t - 4])
            && s[t - 3] == '-' && ascii_digit(s[t - 2]) && ascii_digit(s[t - 1])
            && ascii_digit(s[t + 1]) && ascii_digit(s[t + 2]) && s[t + 3] == ':'
            && ascii_digit(s[t + 4]) && ascii_digit(s[t + 5]) && s[t + 6] == ':'
            && ascii_digit(s[t + 7]) && ascii_digit(s[t + 8])
}

/// The local time as RFC 3339 text (`chrono::Local::now().to_rfc3339()`).
/// Claimed: only the shape of the text (chrono's `write_rfc3339` with a
/// numeric offset); which time it shows depends on the clock and time zone.
#[verifier::external_body]
pub(crate) fn local_now_rfc3339() -> (r: String)
    ensures
        is_rfc3339_text(r@),
{
    chrono::Local::now().to_rfc3339()
}

/// The shape of a local time written `%Y-%m-%d %H:%M:%S`: a year, then
/// `-MM-DD HH:MM:SS`.
pub open spec fn is_date_time_text(s: Seq<char>) -> bool {
    let n = s.len();
    &&& n >= 15
    &&& s[n - 15] == '-' && ascii_digit(s[n - 14]) && ascii_digit(s[n - 13])
    &&& s[n - 12] == '-' && ascii_digit(s[n - 11]) && ascii_digit(s[n - 10])
    &&& s[n - 9] == ' ' && ascii_digit(s[n - 8]) && ascii_digit(s[n - 7])
    &&& s[n - 6] == ':' && ascii_digit(s[n - 5]) && ascii_digit(s[n - 4])
    &&& s[n - 3] == ':' && ascii_digit(s[n - 2]) && ascii_digit(s[n - 1])
}

/// The local time as `YYYY-MM-DD HH:MM:SS` (`chrono::Local::now().format(..)`).
/// Claimed: only the shape of the text (`%m`, `%d`, `%H`, `%M`, `%S` are two
/// zero-padded digits each); which time it shows depends on the clock and
/// time zone.
#[verifier::external_body]
pub(crate) fn local_now_seconds() -> (r: String)
    ensures
        is_date_time_text(r@),
{
    chrono::Local::now().format("%Y-%m-%d %H:%M:%S").to_string()
}

/// A whole number in decimal, with `-` before a negative one.
pub open spec fn signed_digits(t: int) -> Seq<char> {
    if t < 0 {
        seq!['-'] + dec_digits((-t) as nat)
    } else {
        dec_digits(t as nat)
    }
}

/// The text of an id: the prefix, `_`, a timestamp, `_`, a random number.
pub open spec fn id_text(prefix: Seq<char>, t: int, n: nat) -> Seq<char> {
    prefix + seq!['_'] + signed_digits(t) + seq!['_'] + dec_digits(n)
}

/// Whether `s` is an id made with `prefix`.
pub open spec fn is_id_with_prefix(s: Seq<char>, prefix: Seq<char>) -> bool {
    exists|t: int, n: nat| s == id_text(prefix, t, n)
}

/// A fresh id: `prefix`, `_`, the clock in milliseconds since the epoch
/// (negative before it), `_`, a random number.
pub fn generate_id(prefix: &str) -> (r: String)
    ensures
        is_id_with_prefix(r@, prefix@),
{
    let t = clock_millis();
    let n = random_u32();
    let mut v = chars_of(prefix);
    v.push('_');
    if t < 0 {
        v.push('-');
        let m: u64 = (0 - (t as i128)) as u64;
        append_chars(&mut v, &dec_chars(m));
    } else {
        append_chars(&mut v, &dec_chars(t as u64));
    }
    v.push('_');
    let e = dec_chars(n as u64);
    append_chars(&mut v, &e);
    assert(v@ == id_text(prefix@, t as int, n as nat));
    string_of(&v)
}

} // verus!
