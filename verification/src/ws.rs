//! WebSocket sessions: the URL with its query parameters, the headers sent
//! on connecting, and what each incoming or outgoing frame amounts to.

use vstd::prelude::*;
use crate::text::{chars_of, string_of, append_chars, contains_char, to_string_of, concat2, all_ws, is_blank,
    dec_chars, dec_digits};
use crate::request_body::{percent_encode, url_encode};
use crate::encryption::{base64_text, base64_error_text, base64_encode, base64_decode, base64_fits};
use vstd::utf8::encode_utf8;

verus! {

/// A query parameter of a WebSocket URL.
#[derive(Debug)]
pub struct WsParam {
    pub key: String,
    pub value: String,
    pub enabled: bool,
}

/// A header sent on connecting.
#[derive(Debug)]
pub struct WsHeader {
    pub key: String,
    pub value: String,
    pub enabled: bool,
}

/// The `key=value` pairs of the enabled parameters, percent-encoded.
pub open spec fn ws_query_pairs(ps: Seq<WsParam>) -> Seq<Seq<char>>
    decreases ps.len(),
{
    if ps.len() == 0 {
        Seq::empty()
    } else if ps.last().enabled {
        ws_query_pairs(ps.drop_last()).push(
            percent_encode(encode_utf8(ps.last().key@)) + seq!['='] + percent_encode(encode_utf8(ps.last().value@)),
        )
    } else {
        ws_query_pairs(ps.drop_last())
    }
}

/// The URL with the enabled parameters as its query: joined with `&`, after
/// `?`, or after `&` when the URL has a query already.
pub open spec fn ws_url_text(url: Seq<char>, ps: Seq<WsParam>) -> Seq<char> {
    let pairs = ws_query_pairs(ps);
    if pairs.len() == 0 {
        url
    } else if url.contains('?') {
        url + seq!['&'] + crate::request_body::join_amp(pairs)
    } else {
        url + seq!['?'] + crate::request_body::join_amp(pairs)
    }
}

/// The URL to connect to.
pub fn build_url_with_params(url: &str, params: Vec<WsParam>) -> (r: Result<String, String>)
    ensures
        r is Ok,
        r->Ok_0@ == ws_url_text(url@, params@),
{
    let mut q: Vec<char> = Vec::new();
    let mut count: usize = 0;
    let mut i: usize = 0;
    assert(params@.take(0) =~= Seq::<WsParam>::empty());
    while i < params.len()
        invariant
            i <= params@.len(),
            count as int == ws_query_pairs(params@.take(i as int)).len(),
            count <= i,
            q@ == crate::request_body::join_amp(ws_query_pairs(params@.take(i as int))),
        decreases params@.len() - i,
    {
        assert(params@.take(i + 1).drop_last() =~= params@.take(i as int));
        assert(params@.take(i + 1).last() == params@[i as int]);
        let p = &params[i];
        if p.enabled {
            let mut piece = chars_of(url_encode(p.key.as_str()).as_str());
            piece.push('=');
            append_chars(&mut piece, &chars_of(url_encode(p.value.as_str()).as_str()));
            let ghost prev = ws_query_pairs(params@.take(i as int));
            assert(piece@ =~= percent_encode(encode_utf8(p.key@)) + seq!['='] + percent_encode(encode_utf8(p.value@)));
            assert(ws_query_pairs(params@.take(i + 1)) == prev.push(piece@));
            if count > 0 {
                q.push('&');
            }
            append_chars(&mut q, &piece);
            count = count + 1;
            proof {
                let now = prev.push(piece@);
                assert(now.drop_last() =~= prev);
                if prev.len() == 0 {
                    assert(q@ =~= now[0]);
                } else {
                    assert(q@ =~= crate::request_body::join_amp(prev) + seq!['&'] + now.last());
                }
            }
        }
        i = i + 1;
    }
    assert(params@.take(params@.len() as int) =~= params@);
    if count == 0 {
        return Ok(to_string_of(url));
    }
    let mut out = chars_of(url);
    if contains_char(&out, '?') {
        out.push('&');
    } else {
        out.push('?');
    }
    append_chars(&mut out, &q);
    Ok(string_of(&out))
}

/// The headers to add on connecting: the enabled ones with a non-blank
/// name, in order.
pub fn ws_header_pairs(headers: &Vec<WsHeader>) -> (r: Vec<(String, String)>)
    ensures
        r@.map_values(|p: (String, String)| (p.0@, p.1@)) == headers@.filter(
            |h: WsHeader| h.enabled && !all_ws(h.key@),
        ).map_values(|h: WsHeader| (h.key@, h.value@)),
{
    let ghost pred = |h: WsHeader| h.enabled && !all_ws(h.key@);
    let mut r: Vec<(String, String)> = Vec::new();
    assert(headers@.take(0).filter(pred) =~= Seq::<WsHeader>::empty()) by {
        reveal_with_fuel(Seq::<_>::filter, 1);
    }
    for i in 0..headers.len()
        invariant
            pred == (|h: WsHeader| h.enabled && !all_ws(h.key@)),
            r@.map_values(|p: (String, String)| (p.0@, p.1@))
                == headers@.take(i as int).filter(pred).map_values(|h: WsHeader| (h.key@, h.value@)),
    {
        assert(headers@.take(i + 1).drop_last() =~= headers@.take(i as int));
        assert(headers@.take(i + 1).filter(pred) == (if pred(headers@[i as int]) {
            headers@.take(i as int).filter(pred).push(headers@[i as int])
        } else {
            headers@.take(i as int).filter(pred)
        })) by {
            reveal_with_fuel(Seq::<_>::filter, 1);
        }
        if headers[i].enabled && !is_blank(headers[i].key.as_str()) {
            let ghost before = r@;
            r.push((headers[i].key.clone(), headers[i].value.clone()));
            assert(r@.map_values(|p: (String, String)| (p.0@, p.1@)) =~= before.map_values(
                |p: (String, String)| (p.0@, p.1@),
            ).push((headers@[i as int].key@, headers@[i as int].value@)));
            assert(headers@.take(i as int).filter(pred).push(headers@[i as int]).map_values(
                |h: WsHeader| (h.key@, h.value@),
            ) =~= headers@.take(i as int).filter(pred).map_values(|h: WsHeader| (h.key@, h.value@)).push(
                (headers@[i as int].key@, headers@[i as int].value@),
            ));
        }
    }
    assert(headers@.take(headers@.len() as int) =~= headers@);
    r
}

// ---------------------------------------------------------------- frames

/// What arrived on the connection.
#[derive(Debug)]
pub enum WsIncoming {
    Text(String),
    Binary(Vec<u8>),
    /// A ping of so many bytes.
    Ping(u64),
    /// A pong of so many bytes.
    Pong(u64),
    /// A close frame, with its code and reason when it has them.
    Close(Option<(u16, String)>),
    /// A raw frame.
    Frame,
    /// An error of the connection, with its message.
    Error(String),
}

/// What to do about an incoming frame: a message to show (its content and
/// kind), whether the connection is now closed or broken (with the error),
/// and whether to stop reading.
#[derive(Debug)]
pub struct WsReaction {
    pub message: Option<(String, String)>,
    pub disconnected: bool,
    pub error: Option<String>,
    pub stop: bool,
}

pub open spec fn bytes_note(kind: Seq<char>, n: u64) -> Seq<char> {
    "收到 "@ + kind + ": "@ + dec_digits(n as nat) + " bytes"@
}

pub open spec fn close_note(frame: Option<(u16, String)>) -> Seq<char> {
    match frame {
        Some((code, reason)) => "连接已关闭: "@ + reason@ + " (code: "@ + dec_digits(code as nat) + ")"@,
        None => "连接已关闭"@,
    }
}

/// The reaction to each kind of frame: text shows as text; binary shows as
/// its base64 text; pings and pongs show a note of their size; a close
/// frame closes, shows a note and stops; an error breaks the connection and
/// stops; raw frames are ignored.
pub open spec fn reaction_spec(m: WsIncoming) -> (Option<(Seq<char>, Seq<char>)>, bool, Option<Seq<char>>, bool) {
    match m {
        WsIncoming::Text(t) => (Some((t@, "text"@)), false, None, false),
        WsIncoming::Binary(d) => (Some((base64_text(d@), "binary"@)), false, None, false),
        WsIncoming::Ping(n) => (Some((bytes_note("Ping"@, n), "text"@)), false, None, false),
        WsIncoming::Pong(n) => (Some((bytes_note("Pong"@, n), "text"@)), false, None, false),
        WsIncoming::Close(f) => (Some((close_note(f), "text"@)), true, None, true),
        WsIncoming::Frame => (None, false, None, false),
        WsIncoming::Error(e) => (None, false, Some("消息接收错误: "@ + e@), true),
    }
}

pub open spec fn reaction_view(r: WsReaction) -> (Option<(Seq<char>, Seq<char>)>, bool, Option<Seq<char>>, bool) {
    (
        match r.message {
            Some((c, k)) => Some((c@, k@)),
            None => None,
        },
        r.disconnected,
        match r.error {
            Some(e) => Some(e@),
            None => None,
        },
        r.stop,
    )
}

fn note(kind: &str, n: u64) -> (r: String)
    ensures
        r@ == bytes_note(kind@, n),
{
    let mut v = chars_of("收到 ");
    append_chars(&mut v, &chars_of(kind));
    append_chars(&mut v, &chars_of(": "));
    append_chars(&mut v, &dec_chars(n));
    append_chars(&mut v, &chars_of(" bytes"));
    string_of(&v)
}

/// Decides what an incoming frame amounts to.
pub fn react_to_message(m: WsIncoming) -> (r: WsReaction)
    requires
        m matches WsIncoming::Binary(d) ==> base64_fits(d@.len() as int),
    ensures
        reaction_view(r) == reaction_spec(m),
{
    match m {
        WsIncoming::Text(t) => WsReaction {
            message: Some((t, to_string_of("text"))),
            disconnected: false,
            error: None,
            stop: false,
        },
        WsIncoming::Binary(d) => WsReaction {
            message: Some((base64_encode(d.as_slice()), to_string_of("binary"))),
            disconnected: false,
            error: None,
            stop: false,
        },
        WsIncoming::Ping(n) => WsReaction {
            message: Some((note("Ping", n), to_string_of("text"))),
            disconnected: false,
            error: None,
            stop: false,
        },
        WsIncoming::Pong(n) => WsReaction {
            message: Some((note("Pong", n), to_string_of("text"))),
            disconnected: false,
            error: None,
            stop: false,
        },
        WsIncoming::Close(f) => {
            let text = match &f {
                Some((code, reason)) => {
                    let mut v = chars_of("连接已关闭: ");
                    append_chars(&mut v, &chars_of(reason.as_str()));
                    append_chars(&mut v, &chars_of(" (code: "));
                    append_chars(&mut v, &dec_chars(*code as u64));
                    append_chars(&mut v, &chars_of(")"));
                    string_of(&v)
                },
                None => to_string_of("连接已关闭"),
            };
            WsReaction { message: Some((text, to_string_of("text"))), disconnected: true, error: None, stop: true }
        },
        WsIncoming::Frame => WsReaction { message: None, disconnected: false, error: None, stop: false },
        WsIncoming::Error(e) => WsReaction {
            message: None,
            disconnected: false,
            error: Some(concat2("消息接收错误: ", e.as_str())),
            stop: true,
        },
    }
}

/// A frame to send.
#[derive(Debug)]
pub enum WsOutgoing {
    Text(String),
    Binary(Vec<u8>),
}

/// The frame for a message: for `binary`, the bytes its base64 content
/// decodes to (or the decoding error); otherwise the text.
pub fn outgoing_frame(content: &str, message_type: &str) -> (r: Result<WsOutgoing, String>)
    ensures
        message_type@ == "binary"@ ==> match r {
            Ok(WsOutgoing::Binary(b)) => base64_text(b@) == content@,
            Ok(WsOutgoing::Text(_)) => false,
            Err(e) => e@ == "Base64 解码失败: "@ + base64_error_text(content@) && forall|b: Seq<u8>|
                base64_text(b) != content@,
        },
        message_type@ != "binary"@ ==> (r matches Ok(WsOutgoing::Text(t)) && t@ == content@),
{
    if crate::text::str_eq(message_type, "binary") {
        match base64_decode(content) {
            Ok(b) => Ok(WsOutgoing::Binary(b)),
            Err(e) => Err(concat2("Base64 解码失败: ", e.as_str())),
        }
    } else {
        Ok(WsOutgoing::Text(to_string_of(content)))
    }
}

} // verus!
