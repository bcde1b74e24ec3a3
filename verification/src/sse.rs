//! Server-sent events: the line protocol of an event stream, fed chunk by
//! chunk, and the events it completes.

use vstd::prelude::*;
use crate::text::{lemma_index_from_bound, chars_of, string_of, find_char, index_of, take_chars, skip_chars, chars_eq, char_vec_views,
    append_chars, string_views};
use crate::variables::{trim, trimmed_range};
use crate::models::Header;
use crate::http::opt_text;
use crate::http_client::{sendable_headers, pair_views, request_header_pairs};
use crate::logging::{lowercase_text, to_lowercase};
use crate::stress::{uppercase_text, to_uppercase};
use crate::text::{str_eq, to_string_of, is_ws, index_from};
use crate::variables::{trim_start, trim_end};

verus! {

/// A completed event.
#[derive(Debug)]
pub struct SseEventData {
    pub id: Option<String>,
    pub event: Option<String>,
    pub data: String,
}

/// The fields gathered for the event being read.
pub struct SseFields {
    pub id: Option<Seq<char>>,
    pub event: Option<Seq<char>>,
    pub data: Seq<Seq<char>>,
}

/// A completed event, as text.
pub struct SseEventView {
    pub id: Option<Seq<char>>,
    pub event: Option<Seq<char>>,
    pub data: Seq<char>,
}

pub open spec fn no_fields() -> SseFields {
    SseFields { id: None, event: None, data: Seq::empty() }
}

/// Lines joined with `\n` between them.
pub open spec fn join_lines(lines: Seq<Seq<char>>) -> Seq<char>
    decreases lines.len(),
{
    if lines.len() == 0 {
        Seq::empty()
    } else if lines.len() == 1 {
        lines[0]
    } else {
        join_lines(lines.drop_last()) + seq!['\n'] + lines.last()
    }
}

/// The value of a `name:value` line: what follows the colon, without one
/// leading space.
pub open spec fn field_value(l: Seq<char>, colon: int) -> Seq<char> {
    let v = l.skip(colon + 1);
    if v.len() > 0 && v[0] == ' ' {
        v.drop_first()
    } else {
        v
    }
}

/// One line of the stream (trimmed): a blank line ends the event when it
/// has data (its type defaults to `message`); `id:`, `event:` and `data:`
/// set the id, set the type and add a data line; other named fields and
/// comments (`:` first) are ignored; a line without a colon is a data line.
pub open spec fn sse_line(st: SseFields, line: Seq<char>) -> (SseFields, Option<SseEventView>) {
    let l = trim(line);
    if l.len() == 0 {
        if st.data.len() > 0 {
            (no_fields(), Some(SseEventView {
                id: st.id,
                event: match st.event {
                    Some(e) => Some(e),
                    None => Some("message"@),
                },
                data: join_lines(st.data),
            }))
        } else {
            (st, None)
        }
    } else {
        match index_of(l, ':') {
            Some(c) => {
                let name = l.take(c);
                let v = field_value(l, c);
                if name == "id"@ {
                    (SseFields { id: Some(v), ..st }, None)
                } else if name == "event"@ {
                    (SseFields { event: Some(v), ..st }, None)
                } else if name == "data"@ {
                    (SseFields { data: st.data.push(v), ..st }, None)
                } else {
                    (st, None)
                }
            },
            None => (SseFields { data: st.data.push(l), ..st }, None),
        }
    }
}

/// Every complete line of `buf` read in turn: the fields after them, the
/// text after the last `\n`, and the events completed, in order.
pub open spec fn sse_drain(st: SseFields, buf: Seq<char>) -> (SseFields, Seq<char>, Seq<SseEventView>)
    decreases buf.len(),
{
    match index_of(buf, '\n') {
        None => (st, buf, Seq::empty()),
        Some(i) => {
            proof {
                lemma_index_from_bound(buf, '\n', 0);
            }
            let (st1, ev) = sse_line(st, buf.take(i));
            let (st2, rest, evs) = sse_drain(st1, buf.skip(i + 1));
            let first = match ev {
                Some(e) => seq![e],
                None => Seq::empty(),
            };
            (st2, rest, first + evs)
        },
    }
}

impl SseEventData {
    pub open spec fn view_of(&self) -> SseEventView {
        SseEventView { id: opt_text(self.id), event: opt_text(self.event), data: self.data@ }
    }
}

pub open spec fn event_views(s: Seq<SseEventData>) -> Seq<SseEventView> {
    s.map_values(|e: SseEventData| e.view_of())
}

/// The reader of one event stream: the text not yet ended by a newline and
/// the fields of the event being read.
pub struct SseParser {
    buffer: Vec<char>,
    id: Option<Vec<char>>,
    event: Option<Vec<char>>,
    data: Vec<Vec<char>>,
}

pub open spec fn opt_chars(o: Option<Vec<char>>) -> Option<Seq<char>> {
    match o {
        Some(v) => Some(v@),
        None => None,
    }
}

impl SseParser {
    pub closed spec fn fields(&self) -> SseFields {
        SseFields { id: opt_chars(self.id), event: opt_chars(self.event), data: char_vec_views(self.data@) }
    }

    /// The text received after the last newline.
    pub closed spec fn pending(&self) -> Seq<char> {
        self.buffer@
    }

    /// A reader at the start of a stream.
    pub fn new() -> (p: Self)
        ensures
            p.fields() == no_fields(),
            p.pending() == Seq::<char>::empty(),
    {
        let p = SseParser { buffer: Vec::new(), id: None, event: None, data: Vec::new() };
        assert(char_vec_views(p.data@) =~= Seq::<Seq<char>>::empty());
        p
    }

    fn join_data(&self) -> (r: Vec<char>)
        ensures
            r@ == join_lines(char_vec_views(self.data@)),
    {
        let ghost dv = char_vec_views(self.data@);
        let mut r: Vec<char> = Vec::new();
        for k in 0..self.data.len()
            invariant
                dv == char_vec_views(self.data@),
                r@ == join_lines(dv.take(k as int)),
        {
            assert(dv.take(k + 1).drop_last() =~= dv.take(k as int));
            assert(dv.take(k + 1).last() == self.data@[k as int]@);
            if k > 0 {
                r.push('\n');
            } else {
                assert(r@ =~= Seq::<char>::empty());
            }
            append_chars(&mut r, &self.data[k]);
            if k == 0 {
                assert(r@ =~= dv.take(1)[0]);
            }
        }
        assert(dv.take(self.data@.len() as int) =~= dv);
        r
    }

    /// Reads one line.
    fn take_line(&mut self, line: &Vec<char>) -> (r: Option<SseEventData>)
        ensures
            final(self).fields() == sse_line(old(self).fields(), line@).0,
            final(self).pending() == old(self).pending(),
            match sse_line(old(self).fields(), line@).1 {
                Some(e) => r is Some && r->Some_0.view_of() == e,
                None => r is None,
            },
    {
        let l = trimmed_range(line, 0, line.len());
        assert(line@.subrange(0, line@.len() as int) =~= line@);
        if l.len() == 0 {
            if self.data.len() > 0 {
                let data = self.join_data();
                let event = match &self.event {
                    Some(e) => string_of(e),
                    None => crate::text::to_string_of("message"),
                };
                let id = match &self.id {
                    Some(i) => Some(string_of(i)),
                    None => None,
                };
                let ev = SseEventData { id, event: Some(event), data: string_of(&data) };
                self.id = None;
                self.event = None;
                self.data = Vec::new();
                assert(char_vec_views(self.data@) =~= Seq::<Seq<char>>::empty());
                return Some(ev);
            }
            return None;
        }
        let ghost before = char_vec_views(self.data@);
        match find_char(&l, ':') {
            Some(c) => {
                let name = take_chars(&l, c);
                let v0 = skip_chars(&l, c + 1);
                let v = if v0.len() > 0 && v0[0] == ' ' {
                    let w = skip_chars(&v0, 1);
                    assert(w@ =~= v0@.drop_first());
                    w
                } else {
                    v0
                };
                if chars_eq(&name, &chars_of("id")) {
                    self.id = Some(v);
                } else if chars_eq(&name, &chars_of("event")) {
                    self.event = Some(v);
                } else if chars_eq(&name, &chars_of("data")) {
                    self.data.push(v);
                    assert(char_vec_views(self.data@) =~= before.push(field_value(l@, c as int)));
                }
            },
            None => {
                self.data.push(l);
                assert(char_vec_views(self.data@) =~= before.push(trim(line@)));
            },
        }
        None
    }

    /// Feeds a chunk of received text; returns the events that it
    /// completes, in order.
    pub fn feed(&mut self, chunk: &str) -> (r: Vec<SseEventData>)
        ensures
            final(self).fields() == sse_drain(old(self).fields(), old(self).pending() + chunk@).0,
            final(self).pending() == sse_drain(old(self).fields(), old(self).pending() + chunk@).1,
            event_views(r@) == sse_drain(old(self).fields(), old(self).pending() + chunk@).2,
    {
        let c = chars_of(chunk);
        append_chars(&mut self.buffer, &c);
        let mut out: Vec<SseEventData> = Vec::new();
        let ghost start = sse_drain(old(self).fields(), old(self).pending() + chunk@);
        assert(self.buffer@ == old(self).pending() + chunk@);
        loop
            invariant
                ({
                    let d = sse_drain(self.fields(), self.buffer@);
                    start == (d.0, d.1, event_views(out@) + d.2)
                }),
            ensures
                start.0 == self.fields(),
                start.1 == self.buffer@,
                start.2 == event_views(out@),
            decreases self.buffer@.len(),
        {
            let ghost st0 = self.fields();
            let ghost buf0 = self.buffer@;
            let ghost outv = event_views(out@);
            let blen = self.buffer.len();
            match find_char(&self.buffer, '\n') {
                None => {
                    assert(sse_drain(st0, buf0) == (st0, buf0, Seq::<SseEventView>::empty()));
                    assert(event_views(out@) + Seq::<SseEventView>::empty() =~= event_views(out@));
                    assert(start.0 == self.fields());
                    assert(start.1 == self.buffer@);
                    assert(start.2 == event_views(out@));
                    break;
                },
                Some(i) => {
                    proof {
                        lemma_index_from_bound(buf0, '\n', 0);
                    }
                    assert(i < blen);
                    let line = take_chars(&self.buffer, i);
                    let rest = skip_chars(&self.buffer, i + 1);
                    self.buffer = rest;
                    let ev = self.take_line(&line);
                    let ghost evs_here = match sse_line(st0, buf0.take(i as int)).1 {
                        Some(e) => seq![e],
                        None => Seq::<SseEventView>::empty(),
                    };
                    match ev {
                        Some(e) => {
                            out.push(e);
                            assert(event_views(out@) =~= outv.push(e.view_of()));
                        },
                        None => {},
                    }
                    assert(event_views(out@) =~= outv + evs_here);
                    let ghost d = sse_drain(self.fields(), self.buffer@);
                    assert(outv + (evs_here + d.2) =~= event_views(out@) + d.2);
                },
            }
        }
        out
    }
}

proof fn lemma_index_of_append(a: Seq<char>, b: Seq<char>, c: char, i: int)
    requires
        0 <= i,
        crate::text::index_from(a, c, i) is Some,
    ensures
        crate::text::index_from(a + b, c, i) == crate::text::index_from(a, c, i),
    decreases a.len() - i,
{
    lemma_index_from_bound(a, c, i);
    if i < a.len() && a[i] != c {
        lemma_index_of_append(a, b, c, i + 1);
    }
}

proof fn lemma_first_at(t: Seq<char>, c: char, i: int, k: int)
    requires
        0 <= i <= k < t.len(),
        t[k] == c,
        forall|j: int| i <= j < k ==> t[j] != c,
    ensures
        index_from(t, c, i) == Some(k),
    decreases k - i,
{
    if i < k {
        lemma_first_at(t, c, i + 1, k);
    }
}

/// A `data:` line adds its value to the event's data as it stands: all
/// that follows the colon and the one space after it, colons included
/// (the line is trimmed, so the value ends with a non-blank character).
/// The id and the type are left as they were, and no event ends.
pub proof fn lemma_data_line(st: SseFields, v: Seq<char>)
    requires
        v.len() > 0,
        !is_ws(v.last()),
    ensures
        sse_line(st, "data: "@ + v) == ((SseFields { data: st.data.push(v), ..st }, None::<SseEventView>)),
{
    reveal_strlit("data: ");
    reveal_strlit("data");
    reveal_strlit("id");
    reveal_strlit("event");
    let line = "data: "@ + v;
    assert(line[0] == 'd');
    assert(!is_ws('d'));
    assert(trim_start(line) == line);
    assert(line.last() == v.last());
    assert(trim_end(line) == line);
    assert(trim(line) == line);
    lemma_first_at(line, ':', 0, 4);
    assert(index_of(line, ':') == Some(4int));
    assert(line.take(4) =~= "data"@);
    assert(line.take(4) != "id"@);
    assert(line.take(4) != "event"@);
    assert(line.skip(5) =~= seq![' '] + v);
    assert((seq![' '] + v).drop_first() =~= v);
    assert(field_value(line, 4) == v);
}

/// A named line `n: v` sets the field it names to `v` as it stands, all
/// that follows the colon and its one space, colons included: `id` sets
/// the id, `event` the type, `data` adds a data line; any other name
/// changes nothing. No event ends on such a line.
pub proof fn lemma_field_line(st: SseFields, n: Seq<char>, v: Seq<char>)
    requires
        n.len() > 0,
        !n.contains(':'),
        !is_ws(n[0]),
        v.len() > 0,
        !is_ws(v.last()),
    ensures
        sse_line(st, n + ": "@ + v).1 is None,
        n == "id"@ ==> sse_line(st, n + ": "@ + v).0 == (SseFields { id: Some(v), ..st }),
        n == "event"@ ==> sse_line(st, n + ": "@ + v).0 == (SseFields { event: Some(v), ..st }),
        n == "data"@ ==> sse_line(st, n + ": "@ + v).0 == (SseFields { data: st.data.push(v), ..st }),
        (n != "id"@ && n != "event"@ && n != "data"@) ==> sse_line(st, n + ": "@ + v).0 == st,
{
    reveal_strlit(": ");
    reveal_strlit("id");
    reveal_strlit("event");
    reveal_strlit("data");
    let line = n + ": "@ + v;
    let c = n.len() as int;
    assert(line[0] == n[0]);
    assert(trim_start(line) == line);
    assert(line.last() == v.last());
    assert(trim_end(line) == line);
    assert forall|j: int| 0 <= j < c implies line[j] != ':' by {
        assert(line[j] == n[j]);
        if n[j] == ':' {
            assert(n.contains(':'));
        }
    }
    assert(line[c] == ':');
    lemma_first_at(line, ':', 0, c);
    assert(line.take(c) =~= n);
    assert(line.skip(c + 1) =~= seq![' '] + v);
    assert((seq![' '] + v).drop_first() =~= v);
    assert(field_value(line, c) == v);
}

/// Without a space after the colon nothing is removed: `n:v` sets the
/// field it names to `v` whole.
pub proof fn lemma_field_line_tight(st: SseFields, n: Seq<char>, v: Seq<char>)
    requires
        n.len() > 0,
        !n.contains(':'),
        !is_ws(n[0]),
        v.len() > 0,
        v[0] != ' ',
        !is_ws(v.last()),
    ensures
        sse_line(st, n + ":"@ + v).1 is None,
        n == "id"@ ==> sse_line(st, n + ":"@ + v).0 == (SseFields { id: Some(v), ..st }),
        n == "event"@ ==> sse_line(st, n + ":"@ + v).0 == (SseFields { event: Some(v), ..st }),
        n == "data"@ ==> sse_line(st, n + ":"@ + v).0 == (SseFields { data: st.data.push(v), ..st }),
        (n != "id"@ && n != "event"@ && n != "data"@) ==> sse_line(st, n + ":"@ + v).0 == st,
{
    reveal_strlit(":");
    reveal_strlit("id");
    reveal_strlit("event");
    reveal_strlit("data");
    let line = n + ":"@ + v;
    let c = n.len() as int;
    assert(line[0] == n[0]);
    assert(trim_start(line) == line);
    assert(line.last() == v.last());
    assert(trim_end(line) == line);
    assert forall|j: int| 0 <= j < c implies line[j] != ':' by {
        assert(line[j] == n[j]);
        if n[j] == ':' {
            assert(n.contains(':'));
        }
    }
    assert(line[c] == ':');
    lemma_first_at(line, ':', 0, c);
    assert(line.take(c) =~= n);
    assert(line.skip(c + 1) =~= v);
    assert(field_value(line, c) == v);
}

/// A `data:` line and a blank line make one event of type `message` whose
/// data is the line's value, colons included, and nothing is left over.
pub proof fn lemma_data_event(v: Seq<char>)
    requires
        v.len() > 0,
        !is_ws(v.last()),
        !v.contains('\n'),
    ensures
        sse_drain(no_fields(), "data: "@ + v + "\n\n"@) == ((no_fields(), Seq::<char>::empty(),
            seq![SseEventView { id: None, event: Some("message"@), data: v }])),
{
    reveal_strlit("data: ");
    reveal_strlit("\n\n");
    let line = "data: "@ + v;
    let buf = line + "\n\n"@;
    let k = line.len() as int;
    assert forall|j: int| 0 <= j < k implies buf[j] != '\n' by {
        if j >= 6 {
            assert(buf[j] == v[j - 6]);
            if buf[j] == '\n' {
                assert(v.contains('\n'));
            }
        } else {
            assert(buf[j] == line[j]);
        }
    }
    assert(buf[k] == '\n');
    lemma_first_at(buf, '\n', 0, k);
    assert(buf.take(k) =~= line);
    lemma_data_line(no_fields(), v);
    let st1 = SseFields { data: no_fields().data.push(v), ..no_fields() };
    let tail = buf.skip(k + 1);
    assert(tail =~= seq!['\n']);
    lemma_first_at(tail, '\n', 0, 0);
    assert(tail.take(0) =~= Seq::<char>::empty());
    assert(trim(Seq::<char>::empty()) == Seq::<char>::empty());
    assert(st1.data =~= seq![v]);
    assert(join_lines(st1.data) == v);
    let ev = SseEventView { id: None, event: Some("message"@), data: v };
    assert(sse_line(st1, tail.take(0)) == (no_fields(), Some(ev)));
    let last = tail.skip(1);
    assert(last =~= Seq::<char>::empty());
    assert(index_of(last, '\n') is None);
    assert(sse_drain(no_fields(), last) == (no_fields(), Seq::<char>::empty(), Seq::<SseEventView>::empty()));
    assert(sse_drain(st1, tail) == (no_fields(), Seq::<char>::empty(), seq![ev] + Seq::<SseEventView>::empty()));
    assert(seq![ev] + Seq::<SseEventView>::empty() =~= seq![ev]);
    assert(Seq::<SseEventView>::empty() + seq![ev] =~= seq![ev]);
}

/// How a stream is cut into chunks does not matter: reading `a` and then
/// `b` leaves the same fields and pending text, and completes the same
/// events in the same order, as reading `a + b` at once.
pub proof fn lemma_sse_chunking(st: SseFields, a: Seq<char>, b: Seq<char>)
    ensures
        ({
            let first = sse_drain(st, a);
            let second = sse_drain(first.0, first.1 + b);
            let whole = sse_drain(st, a + b);
            whole.0 == second.0 && whole.1 == second.1 && whole.2 == first.2 + second.2
        }),
    decreases a.len(),
{
    lemma_index_from_bound(a, '\n', 0);
    match index_of(a, '\n') {
        None => {
            assert(sse_drain(st, a).2 + sse_drain(st, a + b).2 =~= sse_drain(st, a + b).2);
        },
        Some(i) => {
            lemma_index_of_append(a, b, '\n', 0);
            assert((a + b).take(i) =~= a.take(i));
            assert((a + b).skip(i + 1) =~= a.skip(i + 1) + b);
            let (st1, ev) = sse_line(st, a.take(i));
            lemma_sse_chunking(st1, a.skip(i + 1), b);
            let head: Seq<SseEventView> = match ev {
                Some(e) => seq![e],
                None => Seq::empty(),
            };
            let rest_first = sse_drain(st1, a.skip(i + 1));
            let second = sse_drain(rest_first.0, rest_first.1 + b);
            assert(head + (rest_first.2 + second.2) =~= (head + rest_first.2) + second.2);
        },
    }
}

// ---------------------------------------------------------------- opening a stream

/// How a stream is requested: POST or GET, the headers in the order they
/// are set, and the body.
#[derive(Debug)]
pub struct SseRequestPlan {
    pub post: bool,
    pub headers: Vec<(String, String)>,
    pub body: Option<String>,
}

/// Whether any header, enabled or not, is named `Content-Type` in any case.
pub open spec fn names_content_type(hs: Seq<Header>) -> bool {
    exists|i: int| 0 <= i < hs.len() && lowercase_text(#[trigger] hs[i].key@) == "content-type"@
}

/// The headers of a stream request: with a body and no `Content-Type`
/// among the headers, `Content-Type: application/json` first; then the
/// enabled headers with a non-blank name; then `Last-Event-ID` when a
/// stream is resumed.
pub open spec fn sse_headers_spec(hs: Seq<Header>, has_body: bool, last_event_id: Option<Seq<char>>) -> Seq<(Seq<char>, Seq<char>)> {
    let ct: Seq<(Seq<char>, Seq<char>)> = if has_body && !names_content_type(hs) {
        seq![("Content-Type"@, "application/json"@)]
    } else {
        Seq::empty()
    };
    let last: Seq<(Seq<char>, Seq<char>)> = match last_event_id {
        Some(id) => seq![("Last-Event-ID"@, id)],
        None => Seq::empty(),
    };
    ct + sendable_headers(hs) + last
}

fn any_content_type(headers: &Vec<Header>) -> (r: bool)
    ensures
        r == names_content_type(headers@),
{
    for i in 0..headers.len()
        invariant
            forall|j: int| 0 <= j < i ==> lowercase_text(#[trigger] headers@[j].key@) != "content-type"@,
    {
        let k = to_lowercase(headers[i].key.as_str());
        if str_eq(k.as_str(), "content-type") {
            return true;
        }
    }
    false
}

/// The request that opens a stream: POST when the method reads `POST` in
/// upper case, GET otherwise.
pub fn plan_sse_request(method: &str, headers: &Vec<Header>, body: Option<String>, last_event_id: Option<String>) -> (r: SseRequestPlan)
    ensures
        r.post == (uppercase_text(method@) == "POST"@),
        pair_views(r.headers@) == sse_headers_spec(headers@, body is Some, opt_text(last_event_id)),
        r.body == body,
{
    let upper = to_uppercase(method);
    let post = str_eq(upper.as_str(), "POST");
    let mut out: Vec<(String, String)> = Vec::new();
    if body.is_some() && !any_content_type(headers) {
        out.push((to_string_of("Content-Type"), to_string_of("application/json")));
    }
    let ghost first = pair_views(out@);
    let custom = request_header_pairs(headers);
    let ghost mid = pair_views(custom@);
    let mut i: usize = 0;
    while i < custom.len()
        invariant
            i <= custom.len(),
            pair_views(out@) == first + mid.take(i as int),
            mid == pair_views(custom@),
        decreases custom.len() - i,
    {
        let p = (custom[i].0.clone(), custom[i].1.clone());
        let ghost before = out@;
        out.push(p);
        assert(pair_views(out@) =~= pair_views(before).push(mid[i as int]));
        assert(mid.take(i + 1) =~= mid.take(i as int).push(mid[i as int]));
        i = i + 1;
    }
    assert(mid.take(custom.len() as int) =~= mid);
    match &last_event_id {
        Some(id) => {
            let ghost before = out@;
            out.push((to_string_of("Last-Event-ID"), id.clone()));
            assert(pair_views(out@) =~= pair_views(before).push(("Last-Event-ID"@, id@)));
        },
        None => {},
    }
    let ghost ct: Seq<(Seq<char>, Seq<char>)> = if body is Some && !names_content_type(headers@) {
        seq![("Content-Type"@, "application/json"@)]
    } else {
        Seq::empty()
    };
    assert(first =~= ct);
    let ghost last: Seq<(Seq<char>, Seq<char>)> = match opt_text(last_event_id) {
        Some(id) => seq![("Last-Event-ID"@, id)],
        None => Seq::empty(),
    };
    assert(pair_views(out@) =~= ct + sendable_headers(headers@) + last);
    SseRequestPlan { post, headers: out, body }
}

// ---------------------------------------------------------------- the client's stop signal

/// The client of event streams: whether the stream under way was told to
/// stop.
pub struct SseClientService {
    cancelled: bool,
}

impl SseClientService {
    pub closed spec fn cancelled(&self) -> bool {
        self.cancelled
    }

    /// A client with no stop requested.
    pub fn new() -> (r: Self)
        ensures
            !r.cancelled(),
    {
        SseClientService { cancelled: false }
    }

    /// A stream starts: an earlier stop request no longer counts.
    pub fn begin_stream(&mut self)
        ensures
            !final(self).cancelled(),
    {
        self.cancelled = false;
    }

    /// `stop_sse`: the stream under way stops at its next chunk.
    pub fn stop_sse(&mut self)
        ensures
            final(self).cancelled(),
    {
        self.cancelled = true;
    }

    /// Whether a stop was requested since the stream began.
    pub fn is_cancelled(&self) -> (r: bool)
        ensures
            r == self.cancelled(),
    {
        self.cancelled
    }

    /// A chunk of the stream arrived. When a stop was requested since the
    /// stream began, the stream ends here: nothing of the chunk is read, no
    /// event is handed on and the reader is left as it was. Otherwise the
    /// chunk is read and the events it completes are handed on.
    pub fn on_chunk(&self, parser: &mut SseParser, chunk: &str) -> (r: ChunkStep)
        ensures
            self.cancelled() ==> r is Stopped && final(parser).fields() == old(parser).fields()
                && final(parser).pending() == old(parser).pending(),
            !self.cancelled() ==> (r matches ChunkStep::Events(es)
                && event_views(es@) == sse_drain(old(parser).fields(), old(parser).pending() + chunk@).2
                && final(parser).fields() == sse_drain(old(parser).fields(), old(parser).pending() + chunk@).0
                && final(parser).pending() == sse_drain(old(parser).fields(), old(parser).pending() + chunk@).1),
    {
        if self.cancelled {
            ChunkStep::Stopped
        } else {
            ChunkStep::Events(parser.feed(chunk))
        }
    }
}

/// What a stream does with an arrived chunk.
#[derive(Debug)]
pub enum ChunkStep {
    /// A stop was requested: the stream ends.
    Stopped,
    /// The events the chunk completed, in order.
    Events(Vec<SseEventData>),
}

} // verus!
