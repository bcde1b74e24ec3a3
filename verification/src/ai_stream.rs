//! Replies of an OpenAI-style chat API: the `data:` lines of a streamed
//! reply, the text and tool calls gathered from its deltas, and the
//! endpoints and content of plain replies.

use vstd::prelude::*;
use crate::text::{chars_of, string_of, find_char, index_of, take_chars, skip_chars, chars_eq, char_vec_views,
    append_chars, string_views, has_prefix, starts_with_chars, lemma_index_from_bound, to_string_of, all_ws, is_blank};
use crate::variables::{trim, trimmed_range};
use crate::models::Header;

verus! {

// ---------------------------------------------------------------- lines

/// The payload of a trimmed line of a streamed reply: what follows
/// `data: `, except for the end marker `data: [DONE]`.
pub open spec fn data_payload(line: Seq<char>) -> Option<Seq<char>> {
    let l = trim(line);
    if l.len() == 0 || l == "data: [DONE]"@ {
        None
    } else if has_prefix(l, "data: "@) {
        Some(l.skip("data: "@.len() as int))
    } else {
        None
    }
}

/// The payloads of the complete lines of `buf`, in order, and the text after
/// the last newline.
pub open spec fn data_drain(buf: Seq<char>) -> (Seq<Seq<char>>, Seq<char>)
    decreases buf.len(),
{
    match index_of(buf, '\n') {
        None => (Seq::empty(), buf),
        Some(i) => {
            proof {
                lemma_index_from_bound(buf, '\n', 0);
            }
            let (rest_payloads, rest) = data_drain(buf.skip(i + 1));
            let first = match data_payload(buf.take(i)) {
                Some(p) => seq![p],
                None => Seq::empty(),
            };
            (first + rest_payloads, rest)
        },
    }
}

/// The reader of a streamed reply: the text not yet ended by a newline.
pub struct DataLineReader {
    buffer: Vec<char>,
}

impl DataLineReader {
    pub closed spec fn pending(&self) -> Seq<char> {
        self.buffer@
    }

    pub fn new() -> (r: Self)
        ensures
            r.pending() == Seq::<char>::empty(),
    {
        DataLineReader { buffer: Vec::new() }
    }

    fn payload(line: &Vec<char>) -> (r: Option<Vec<char>>)
        ensures
            match data_payload(line@) {
                Some(p) => r is Some && r->Some_0@ == p,
                None => r is None,
            },
    {
        let l = trimmed_range(line, 0, line.len());
        assert(line@.subrange(0, line@.len() as int) =~= line@);
        if l.len() == 0 || chars_eq(&l, &chars_of("data: [DONE]")) {
            return None;
        }
        if starts_with_chars(&l, "data: ") {
            let n = chars_of("data: ");
            Some(skip_chars(&l, n.len()))
        } else {
            None
        }
    }

    /// Feeds a chunk of the reply; returns the payloads of the lines it
    /// completes, in order.
    pub fn feed(&mut self, chunk: &str) -> (r: Vec<String>)
        ensures
            final(self).pending() == data_drain(old(self).pending() + chunk@).1,
            string_views(r@) == data_drain(old(self).pending() + chunk@).0,
    {
        append_chars(&mut self.buffer, &chars_of(chunk));
        let ghost start = data_drain(old(self).pending() + chunk@);
        let mut out: Vec<String> = Vec::new();
        loop
            invariant
                ({
                    let d = data_drain(self.buffer@);
                    start == (string_views(out@) + d.0, d.1)
                }),
            ensures
                start.0 == string_views(out@),
                start.1 == self.buffer@,
            decreases self.buffer@.len(),
        {
            let ghost buf0 = self.buffer@;
            let ghost outv = string_views(out@);
            let blen = self.buffer.len();
            match find_char(&self.buffer, '\n') {
                None => {
                    assert(data_drain(buf0) == (Seq::<Seq<char>>::empty(), buf0));
                    assert(outv + Seq::<Seq<char>>::empty() =~= outv);
                    break;
                },
                Some(i) => {
                    proof {
                        lemma_index_from_bound(buf0, '\n', 0);
                    }
                    assert(i < blen);
                    let line = take_chars(&self.buffer, i);
                    self.buffer = skip_chars(&self.buffer, i + 1);
                    let p = Self::payload(&line);
                    let ghost here = match data_payload(buf0.take(i as int)) {
                        Some(q) => seq![q],
                        None => Seq::<Seq<char>>::empty(),
                    };
                    match p {
                        Some(v) => {
                            out.push(string_of(&v));
                        },
                        None => {},
                    }
                    assert(string_views(out@) =~= outv + here);
                    let ghost d = data_drain(self.buffer@);
                    assert(outv + (here + d.0) =~= string_views(out@) + d.0);
                },
            }
        }
        out
    }
}

// ---------------------------------------------------------------- deltas

/// One piece of a tool call in a streamed delta.
#[derive(Debug)]
pub struct ToolCallDelta {
    pub index: u32,
    pub id: Option<String>,
    pub tool_type: Option<String>,
    pub name: Option<String>,
    pub arguments: String,
}

/// The delta of one choice of a streamed reply.
#[derive(Debug)]
pub struct ChoiceDelta {
    pub content: Option<String>,
    pub tool_calls: Option<Vec<ToolCallDelta>>,
    pub finish_reason: Option<String>,
}

/// A complete tool call.
#[derive(Debug)]
pub struct ToolCall {
    pub id: String,
    pub tool_type: String,
    pub name: String,
    pub arguments: String,
}

/// What a streamed reply comes to.
#[derive(Debug)]
pub struct StreamResult {
    pub content: String,
    pub tool_calls: Vec<ToolCall>,
    pub finish_reason: Option<String>,
}

/// The pieces of one tool call gathered so far.
pub struct CallAcc {
    pub id: Option<Seq<char>>,
    pub tool_type: Option<Seq<char>>,
    pub name: Option<Seq<char>>,
    pub arguments: Seq<char>,
}

pub open spec fn empty_acc() -> CallAcc {
    CallAcc { id: None, tool_type: None, name: None, arguments: Seq::empty() }
}

pub open spec fn opt_view(o: Option<String>) -> Option<Seq<char>> {
    match o {
        Some(s) => Some(s@),
        None => None,
    }
}

/// A piece added to a gathered call: given fields replace, arguments
/// append.
pub open spec fn merge_piece(a: CallAcc, d: ToolCallDelta) -> CallAcc {
    CallAcc {
        id: if d.id is Some { opt_view(d.id) } else { a.id },
        tool_type: if d.tool_type is Some { opt_view(d.tool_type) } else { a.tool_type },
        name: if d.name is Some { opt_view(d.name) } else { a.name },
        arguments: a.arguments + d.arguments@,
    }
}

/// Where index `k` stands in the gathered calls, which are kept by
/// increasing index: the number of calls with a smaller index.
pub open spec fn slot_of(calls: Seq<(u32, CallAcc)>, k: u32) -> int
    decreases calls.len(),
{
    if calls.len() == 0 {
        0
    } else if calls.last().0 < k {
        calls.len() as int
    } else {
        slot_of(calls.drop_last(), k)
    }
}

/// The gathered calls after one piece: the call with the piece's index is
/// updated, or a new one is put in its place by index.
pub open spec fn add_piece(calls: Seq<(u32, CallAcc)>, d: ToolCallDelta) -> Seq<(u32, CallAcc)> {
    let p = slot_of(calls, d.index);
    if p < calls.len() && calls[p].0 == d.index {
        calls.update(p, (d.index, merge_piece(calls[p].1, d)))
    } else {
        calls.insert(p, (d.index, merge_piece(empty_acc(), d)))
    }
}

pub open spec fn add_pieces(calls: Seq<(u32, CallAcc)>, ds: Seq<ToolCallDelta>) -> Seq<(u32, CallAcc)>
    decreases ds.len(),
{
    if ds.len() == 0 {
        calls
    } else {
        add_piece(add_pieces(calls, ds.drop_last()), ds.last())
    }
}

/// Indices strictly increasing.
pub open spec fn by_index(calls: Seq<(u32, CallAcc)>) -> bool {
    forall|i: int, j: int| 0 <= i < j < calls.len() ==> calls[i].0 < calls[j].0
}

/// The complete calls, by increasing index: those with an id and a name;
/// the type defaults to `function`.
pub open spec fn complete_calls(calls: Seq<(u32, CallAcc)>) -> Seq<(Seq<char>, Seq<char>, Seq<char>, Seq<char>)>
    decreases calls.len(),
{
    if calls.len() == 0 {
        Seq::empty()
    } else {
        let a = calls.last().1;
        let rest = complete_calls(calls.drop_last());
        if a.id is Some && a.name is Some {
            rest.push((
                a.id->Some_0,
                match a.tool_type {
                    Some(t) => t,
                    None => "function"@,
                },
                a.name->Some_0,
                a.arguments,
            ))
        } else {
            rest
        }
    }
}

struct AccEntry {
    index: u32,
    id: Option<String>,
    tool_type: Option<String>,
    name: Option<String>,
    arguments: Vec<char>,
}

impl AccEntry {
    spec fn view_of(&self) -> (u32, CallAcc) {
        (self.index, CallAcc {
            id: opt_view(self.id),
            tool_type: opt_view(self.tool_type),
            name: opt_view(self.name),
            arguments: self.arguments@,
        })
    }
}

spec fn entry_views(s: Seq<AccEntry>) -> Seq<(u32, CallAcc)> {
    s.map_values(|e: AccEntry| e.view_of())
}

fn clone_opt(o: &Option<String>) -> (r: Option<String>)
    ensures
        r == *o,
{
    match o {
        Some(s) => Some(s.clone()),
        None => None,
    }
}

/// What a streamed reply has given so far: its text, its finish reason and
/// the tool calls being gathered.
pub struct StreamAccumulator {
    content: Vec<char>,
    finish_reason: Option<String>,
    calls: Vec<AccEntry>,
}

impl StreamAccumulator {
    pub closed spec fn content(&self) -> Seq<char> {
        self.content@
    }

    pub closed spec fn finish_reason(&self) -> Option<Seq<char>> {
        opt_view(self.finish_reason)
    }

    pub closed spec fn calls(&self) -> Seq<(u32, CallAcc)> {
        entry_views(self.calls@)
    }

    pub fn new() -> (r: Self)
        ensures
            r.content() == Seq::<char>::empty(),
            r.finish_reason() is None,
            r.calls() == Seq::<(u32, CallAcc)>::empty(),
    {
        let r = StreamAccumulator { content: Vec::new(), finish_reason: None, calls: Vec::new() };
        assert(entry_views(r.calls@) =~= Seq::<(u32, CallAcc)>::empty());
        r
    }

    fn find_slot(&self, k: u32) -> (p: usize)
        ensures
            p as int == slot_of(self.calls(), k),
            p <= self.calls@.len(),
    {
        let mut n = self.calls.len();
        assert(entry_views(self.calls@).take(n as int) =~= entry_views(self.calls@));
        while n > 0
            invariant
                n <= self.calls@.len(),
                slot_of(self.calls(), k) == slot_of(entry_views(self.calls@).take(n as int), k),
            decreases n,
        {
            let ghost t = entry_views(self.calls@).take(n as int);
            assert(t.last() == self.calls@[n - 1].view_of());
            assert(t.drop_last() =~= entry_views(self.calls@).take(n - 1));
            if self.calls[n - 1].index < k {
                return n;
            }
            n = n - 1;
        }
        0
    }

    fn add_call_piece(&mut self, d: &ToolCallDelta)
        ensures
            final(self).calls() == add_piece(old(self).calls(), *d),
            final(self).content() == old(self).content(),
            final(self).finish_reason() == old(self).finish_reason(),
    {
        let p = self.find_slot(d.index);
        let ghost cv = self.calls();
        if p < self.calls.len() && self.calls[p].index == d.index {
            let mut e = self.calls.remove(p);
            if d.id.is_some() {
                e.id = clone_opt(&d.id);
            }
            if d.tool_type.is_some() {
                e.tool_type = clone_opt(&d.tool_type);
            }
            if d.name.is_some() {
                e.name = clone_opt(&d.name);
            }
            append_chars(&mut e.arguments, &chars_of(d.arguments.as_str()));
            self.calls.insert(p, e);
            assert(entry_views(self.calls@) =~= cv.update(p as int, (d.index, merge_piece(cv[p as int].1, *d))));
        } else {
            let e = AccEntry {
                index: d.index,
                id: clone_opt(&d.id),
                tool_type: clone_opt(&d.tool_type),
                name: clone_opt(&d.name),
                arguments: chars_of(d.arguments.as_str()),
            };
            assert(e.arguments@ =~= Seq::<char>::empty() + d.arguments@);
            self.calls.insert(p, e);
            assert(entry_views(self.calls@) =~= cv.insert(p as int, (d.index, merge_piece(empty_acc(), *d))));
        }
    }

    /// Takes in the delta of one choice: its text is appended, its
    /// tool-call pieces gathered by index, and its finish reason kept.
    pub fn apply_choice(&mut self, delta: &ChoiceDelta)
        ensures
            final(self).content() == old(self).content() + (match delta.content {
                Some(c) => c@,
                None => Seq::<char>::empty(),
            }),
            final(self).calls() == (match delta.tool_calls {
                Some(ds) => add_pieces(old(self).calls(), ds@),
                None => old(self).calls(),
            }),
            final(self).finish_reason() == (match delta.finish_reason {
                Some(f) => Some(f@),
                None => old(self).finish_reason(),
            }),
    {
        match &delta.content {
            Some(c) => {
                append_chars(&mut self.content, &chars_of(c.as_str()));
            },
            None => {
                assert(self.content@ + Seq::<char>::empty() =~= self.content@);
            },
        }
        match &delta.tool_calls {
            Some(ds) => {
                let ghost c0 = self.calls();
                let ghost content0 = self.content@;
                let ghost fr0 = self.finish_reason();
                let mut k: usize = 0;
                assert(ds@.take(0) =~= Seq::<ToolCallDelta>::empty());
                while k < ds.len()
                    invariant
                        k <= ds@.len(),
                        self.calls() == add_pieces(c0, ds@.take(k as int)),
                        self.content@ == content0,
                        self.finish_reason() == fr0,
                    decreases ds@.len() - k,
                {
                    assert(ds@.take(k + 1).drop_last() =~= ds@.take(k as int));
                    assert(ds@.take(k + 1).last() == ds@[k as int]);
                    self.add_call_piece(&ds[k]);
                    k = k + 1;
                }
                assert(ds@.take(ds@.len() as int) =~= ds@);
            },
            None => {},
        }
        match &delta.finish_reason {
            Some(f) => {
                self.finish_reason = Some(f.clone());
            },
            None => {},
        }
    }

    /// What the reply came to: its text, the complete tool calls by
    /// increasing index, and the last finish reason given.
    pub fn finish(self) -> (r: StreamResult)
        ensures
            r.content@ == self.content(),
            opt_view(r.finish_reason) == self.finish_reason(),
            r.tool_calls@.map_values(|t: ToolCall| (t.id@, t.tool_type@, t.name@, t.arguments@))
                == complete_calls(self.calls()),
    {
        let ghost cv = self.calls();
        let mut calls: Vec<ToolCall> = Vec::new();
        let mut k: usize = 0;
        while k < self.calls.len()
            invariant
                k <= self.calls@.len(),
                cv == entry_views(self.calls@),
                calls@.map_values(|t: ToolCall| (t.id@, t.tool_type@, t.name@, t.arguments@))
                    == complete_calls(cv.take(k as int)),
            decreases self.calls@.len() - k,
        {
            let e = &self.calls[k];
            assert(cv.take(k + 1).drop_last() =~= cv.take(k as int));
            assert(cv.take(k + 1).last() == e.view_of());
            let ghost before = calls@.map_values(|t: ToolCall| (t.id@, t.tool_type@, t.name@, t.arguments@));
            match (&e.id, &e.name) {
                (Some(id), Some(name)) => {
                    let tt = match &e.tool_type {
                        Some(t) => t.clone(),
                        None => to_string_of("function"),
                    };
                    let call = ToolCall { id: id.clone(), tool_type: tt, name: name.clone(), arguments: string_of(&e.arguments) };
                    calls.push(call);
                    assert(calls@.map_values(|t: ToolCall| (t.id@, t.tool_type@, t.name@, t.arguments@))
                        =~= before.push((call.id@, call.tool_type@, call.name@, call.arguments@)));
                },
                _ => {},
            }
            k = k + 1;
        }
        assert(cv.take(self.calls@.len() as int) =~= cv);
        StreamResult { content: string_of(&self.content), tool_calls: calls, finish_reason: self.finish_reason }
    }
}

proof fn lemma_slot_of(calls: Seq<(u32, CallAcc)>, k: u32)
    requires
        by_index(calls),
    ensures
        0 <= slot_of(calls, k) <= calls.len(),
        forall|i: int| 0 <= i < slot_of(calls, k) ==> calls[i].0 < k,
        forall|i: int| slot_of(calls, k) <= i < calls.len() ==> calls[i].0 >= k,
    decreases calls.len(),
{
    if calls.len() > 0 {
        let init = calls.drop_last();
        assert(by_index(init));
        lemma_slot_of(init, k);
        if calls.last().0 >= k {
            assert forall|i: int| 0 <= i < slot_of(calls, k) implies calls[i].0 < k by {
                assert(calls[i] == init[i]);
            }
            assert forall|i: int| slot_of(calls, k) <= i < calls.len() implies calls[i].0 >= k by {
                if i < calls.len() - 1 {
                    assert(calls[i] == init[i]);
                }
            }
        } else {
            assert forall|i: int| 0 <= i < calls.len() implies calls[i].0 < k by {
                if i < calls.len() - 1 {
                    assert(calls[i].0 < calls[calls.len() - 1].0);
                }
            }
        }
    }
}

/// The gathered tool calls stay ordered by increasing index, with no index
/// twice, whatever pieces arrive.
pub proof fn lemma_add_piece_keeps_order(calls: Seq<(u32, CallAcc)>, d: ToolCallDelta)
    requires
        by_index(calls),
    ensures
        by_index(add_piece(calls, d)),
{
    lemma_slot_of(calls, d.index);
    let p = slot_of(calls, d.index);
    let r = add_piece(calls, d);
    if p < calls.len() && calls[p].0 == d.index {
        assert forall|i: int, j: int| 0 <= i < j < r.len() implies r[i].0 < r[j].0 by {
            assert(r[i].0 == calls[i].0 && r[j].0 == calls[j].0);
        }
    } else {
        assert forall|i: int, j: int| 0 <= i < j < r.len() implies r[i].0 < r[j].0 by {
            if j < p {
                assert(r[i] == calls[i] && r[j] == calls[j]);
            } else if j == p {
                assert(r[i] == calls[i]);
            } else if i < p {
                assert(r[i] == calls[i] && r[j] == calls[j - 1]);
            } else if i == p {
                assert(r[j] == calls[j - 1]);
            } else {
                assert(r[i] == calls[i - 1] && r[j] == calls[j - 1]);
            }
        }
    }
}

// ---------------------------------------------------------------- requests

/// The endpoint without its trailing slashes.
pub open spec fn trim_end_slashes(s: Seq<char>) -> Seq<char>
    decreases s.len(),
{
    if s.len() > 0 && s.last() == '/' {
        trim_end_slashes(s.drop_last())
    } else {
        s
    }
}

fn endpoint_with(endpoint: &str, tail: &str) -> (r: String)
    ensures
        r@ == trim_end_slashes(endpoint@) + tail@,
{
    let v = chars_of(endpoint);
    let mut n = v.len();
    assert(v@.take(n as int) =~= v@);
    while n > 0 && v[n - 1] == '/'
        invariant
            n <= v@.len(),
            trim_end_slashes(v@) == trim_end_slashes(v@.take(n as int)),
        decreases n,
    {
        assert(v@.take(n as int).drop_last() =~= v@.take(n - 1));
        n = n - 1;
    }
    let mut out = take_chars(&v, n);
    append_chars(&mut out, &chars_of(tail));
    string_of(&out)
}

/// The URL that lists the models of an endpoint.
pub fn models_url(endpoint: &str) -> (r: String)
    ensures
        r@ == trim_end_slashes(endpoint@) + "/models"@,
{
    endpoint_with(endpoint, "/models")
}

/// The URL of chat completions at an endpoint.
pub fn completions_url(endpoint: &str) -> (r: String)
    ensures
        r@ == trim_end_slashes(endpoint@) + "/chat/completions"@,
{
    endpoint_with(endpoint, "/chat/completions")
}

/// The `Authorization` value for an API key.
pub fn bearer_value(api_key: &str) -> (r: String)
    ensures
        r@ == "Bearer "@ + api_key@,
{
    crate::text::concat2("Bearer ", api_key)
}

/// The headers sent with an API request: the enabled custom ones, in
/// order.
pub fn enabled_header_pairs(headers: &Option<Vec<Header>>) -> (r: Vec<(String, String)>)
    ensures
        r@.map_values(|p: (String, String)| (p.0@, p.1@)) == (match headers {
            Some(h) => h@.filter(|x: Header| x.enabled).map_values(|x: Header| (x.key@, x.value@)),
            None => Seq::empty(),
        }),
{
    let mut r: Vec<(String, String)> = Vec::new();
    match headers {
        None => {
            assert(r@.map_values(|p: (String, String)| (p.0@, p.1@)) =~= Seq::<(Seq<char>, Seq<char>)>::empty());
        },
        Some(h) => {
            let ghost pred = |x: Header| x.enabled;
            assert(h@.take(0).filter(pred) =~= Seq::<Header>::empty()) by {
                reveal_with_fuel(Seq::<_>::filter, 1);
            }
            for i in 0..h.len()
                invariant
                    pred == (|x: Header| x.enabled),
                    r@.map_values(|p: (String, String)| (p.0@, p.1@))
                        == h@.take(i as int).filter(pred).map_values(|x: Header| (x.key@, x.value@)),
            {
                assert(h@.take(i + 1).drop_last() =~= h@.take(i as int));
                assert(h@.take(i + 1).filter(pred) == (if pred(h@[i as int]) {
                    h@.take(i as int).filter(pred).push(h@[i as int])
                } else {
                    h@.take(i as int).filter(pred)
                })) by {
                    reveal_with_fuel(Seq::<_>::filter, 1);
                }
                if h[i].enabled {
                    let ghost before = r@;
                    r.push((h[i].key.clone(), h[i].value.clone()));
                    assert(r@.map_values(|p: (String, String)| (p.0@, p.1@)) =~= before.map_values(
                        |p: (String, String)| (p.0@, p.1@),
                    ).push((h@[i as int].key@, h@[i as int].value@)));
                    assert(h@.take(i as int).filter(pred).push(h@[i as int]).map_values(|x: Header| (x.key@, x.value@))
                        =~= h@.take(i as int).filter(pred).map_values(|x: Header| (x.key@, x.value@)).push(
                        (h@[i as int].key@, h@[i as int].value@),
                    ));
                }
            }
            assert(h@.take(h@.len() as int) =~= h@);
        },
    }
    r
}

/// The text of a plain reply: the content of its first choice, unless
/// missing or blank.
pub fn first_reply_content(choices: Vec<Option<String>>) -> (r: Result<String, String>)
    ensures
        (choices@.len() > 0 && choices@[0] is Some && !all_ws(choices@[0]->Some_0@)) ==> (r is Ok && r->Ok_0
            == choices@[0]->Some_0),
        !(choices@.len() > 0 && choices@[0] is Some && !all_ws(choices@[0]->Some_0@)) ==> (r is Err && r->Err_0@
            == "AI 返回空内容"@),
{
    let mut rest = choices;
    if rest.len() > 0 {
        let first = rest.remove(0);
        match first {
            Some(c) => {
                if !is_blank(c.as_str()) {
                    return Ok(c);
                }
            },
            None => {},
        }
    }
    Err(to_string_of("AI 返回空内容"))
}

/// The AI HTTP client (its requests are made by the application layer).
pub struct ReqwestAiHttpClientService;

impl ReqwestAiHttpClientService {
    pub fn new() -> (r: Self) {
        ReqwestAiHttpClientService
    }
}

/// The AI HTTP client.
pub fn get_ai_http_client() -> (r: ReqwestAiHttpClientService) {
    ReqwestAiHttpClientService::new()
}

} // verus!
