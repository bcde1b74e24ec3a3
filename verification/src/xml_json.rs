//! `fm.xml.parse`: the events of an XML reader turned into a JSON tree.
//! Each element becomes an object holding its attributes under
//! `@attributes`, its trimmed text under `#text` and its children under
//! their names, repeated names gathering into an array. The tree is kept in
//! an arena of nodes; the caller serialises it.

use vstd::prelude::*;
use quick_xml::events::BytesStart;
use quick_xml::events::Event as Q;
use crate::xml_json::XmlEvent::{Start, Empty, Text, End, Eof, Other, Error};
use crate::text::{chars_of, string_of, str_eq, to_string_of, concat2};
use crate::variables::{trim, trimmed_range};

verus! {

// ---------------------------------------------------------------- events

/// A start or empty tag: its local name, and its text (name and
/// attributes) with the length in bytes of its name.
#[derive(Debug)]
pub struct XmlTag {
    pub name: String,
    pub content: String,
    pub name_len: usize,
}

/// One event of the reader.
#[derive(Debug)]
pub enum XmlEvent {
    Start(XmlTag),
    Empty(XmlTag),
    Text(String),
    End(String),
    Eof,
    Error(String),
    /// A comment, CDATA, declaration, processing instruction or doctype.
    Other,
}

/// An event as text.
pub enum XmlEventView {
    Start(Seq<char>, Seq<char>, nat),
    Empty(Seq<char>, Seq<char>, nat),
    Text(Seq<char>),
    End(Seq<char>),
    Eof,
    Error(Seq<char>),
    Other,
}

pub open spec fn attr_texts(s: Seq<(String, String)>) -> Seq<(Seq<char>, Seq<char>)> {
    s.map_values(|p: (String, String)| (p.0@, p.1@))
}

impl View for XmlEvent {
    type V = XmlEventView;

    open spec fn view(&self) -> XmlEventView {
        match self {
            XmlEvent::Start(t) => XmlEventView::Start(t.name@, t.content@, t.name_len as nat),
            XmlEvent::Empty(t) => XmlEventView::Empty(t.name@, t.content@, t.name_len as nat),
            XmlEvent::Text(s) => XmlEventView::Text(s@),
            XmlEvent::End(s) => XmlEventView::End(s@),
            XmlEvent::Eof => XmlEventView::Eof,
            XmlEvent::Error(s) => XmlEventView::Error(s@),
            XmlEvent::Other => XmlEventView::Other,
        }
    }
}

/// The event a fresh `quick_xml` reader of `xml`, trimming text, yields at
/// its read number `k` (from 0).
pub uninterp spec fn xml_event_at(xml: Seq<char>, k: nat) -> XmlEventView;

#[verifier::external_type_specification]
#[verifier::external_body]
#[verifier::reject_recursive_types(R)]
pub struct ExXmlReader<R>(quick_xml::Reader<R>);

/// A reader of XML events over a text, and how many it has read.
pub struct XmlTokens<'a> {
    reader: quick_xml::Reader<&'a [u8]>,
    source: Ghost<Seq<char>>,
    read: Ghost<int>,
}

impl<'a> XmlTokens<'a> {
    pub closed spec fn source(&self) -> Seq<char> {
        self.source@
    }

    pub closed spec fn read(&self) -> int {
        self.read@
    }
}

/// `Reader::from_str` with `trim_text(true)`: a reader at the start of the
/// text that drops whitespace around text.
#[verifier::external_body]
fn open_tokens<'a>(xml: &'a str) -> (r: XmlTokens<'a>)
    ensures
        r.source() == xml@,
        r.read() == 0,
{
    let mut reader = quick_xml::Reader::from_str(xml);
    reader.trim_text(true);
    XmlTokens { reader, source: Ghost(xml@), read: Ghost(0) }
}

/// `Reader::read_event`, read as plain values: tag names by their local
/// names, a tag's text and a text event as their raw bytes read as UTF-8
/// with `String::from_utf8_lossy` (invalid sequences replaced). A tag's
/// name is a prefix of its text (`BytesStart::wrap(content, name_end)` with
/// `name_end <= content.len()` in the reader's `emit_start`), and the lossy
/// text is no shorter in bytes than the bytes it was read from, so the
/// name's length in bytes is at most the text's.
#[verifier::external_body]
fn next_token(t: &mut XmlTokens) -> (r: XmlEvent)
    ensures
        final(t).source() == old(t).source(),
        final(t).read() == old(t).read() + 1,
        r@ == xml_event_at(old(t).source(), old(t).read() as nat),
        r matches XmlEvent::Start(g) ==> g.name_len <= vstd::utf8::encode_utf8(g.content@).len(),
        r matches XmlEvent::Empty(g) ==> g.name_len <= vstd::utf8::encode_utf8(g.content@).len(),
{
    t.read = Ghost(t.read@ + 1);
    let text = |b: &_| String::from_utf8_lossy(b).into_owned();
    let tag = |e: BytesStart| XmlTag { name: text(e.local_name().as_ref()), content: text(&e), name_len: e.name().0.len() };
    match t.reader.read_event() {
        Ok(Q::Start(e)) => Start(tag(e)),
        Ok(Q::Empty(e)) => Empty(tag(e)),
        Ok(Q::Text(x)) => Text(text(&x)),
        Ok(Q::End(e)) => End(text(e.local_name().as_ref())),
        Ok(Q::Eof) => Eof,
        Err(e) => Error(e.to_string()),
        _ => Other,
    }
}

/// The attributes `quick_xml` reads from a tag's text after its name:
/// local names and raw values, in order, those that fail to parse left out.
pub uninterp spec fn xml_attributes_of(content: Seq<char>, pos: nat) -> Seq<(Seq<char>, Seq<char>)>;

/// `Attributes::new(content, pos)`, the iterator `BytesStart::attributes`
/// makes, read as plain values. Its first step slices the text's bytes from
/// `pos`, so `pos` must lie within them.
#[verifier::external_body]
fn tag_attributes(content: &str, pos: usize) -> (r: Vec<(String, String)>)
    requires
        pos <= vstd::utf8::encode_utf8(content@).len(),
    ensures
        attr_texts(r@) == xml_attributes_of(content@, pos as nat),
{
    let text = |b: &[u8]| String::from_utf8_lossy(b).into_owned();
    quick_xml::events::attributes::Attributes::new(content, pos).flatten()
        .map(|a| (text(a.key.local_name().as_ref()), text(&a.value))).collect()
}

// ---------------------------------------------------------------- the tree

/// A node of the JSON tree; children are named by their index in the
/// arena.
#[derive(Debug)]
pub enum JsonNode {
    Str(String),
    Arr(Vec<usize>),
    Obj(Vec<(String, usize)>),
}

/// A node as text and indices.
pub enum NodeView {
    Str(Seq<char>),
    Arr(Seq<int>),
    Obj(Seq<(Seq<char>, int)>),
}

pub open spec fn index_texts(v: Seq<usize>) -> Seq<int> {
    v.map_values(|i: usize| i as int)
}

pub open spec fn field_texts(v: Seq<(String, usize)>) -> Seq<(Seq<char>, int)> {
    v.map_values(|p: (String, usize)| (p.0@, p.1 as int))
}

impl View for JsonNode {
    type V = NodeView;

    open spec fn view(&self) -> NodeView {
        match self {
            JsonNode::Str(s) => NodeView::Str(s@),
            JsonNode::Arr(v) => NodeView::Arr(index_texts(v@)),
            JsonNode::Obj(f) => NodeView::Obj(field_texts(f@)),
        }
    }
}

pub open spec fn node_views(v: Seq<JsonNode>) -> Seq<NodeView> {
    v.map_values(|n: JsonNode| n@)
}

/// The JSON tree of a document: the arena of nodes and the root, none for
/// `null`.
#[derive(Debug)]
pub struct XmlJson {
    pub nodes: Vec<JsonNode>,
    pub root: Option<usize>,
}

// ---------------------------------------------------------------- the machine, as a specification

/// The state of the conversion: the nodes made so far, the open elements
/// (name and node), the text last read, and the root.
pub struct XState {
    pub nodes: Seq<NodeView>,
    pub stack: Seq<(Seq<char>, int)>,
    pub text: Seq<char>,
    pub root: Option<int>,
}

pub open spec fn start_state() -> XState {
    XState { nodes: Seq::empty(), stack: Seq::empty(), text: Seq::empty(), root: None }
}

/// The first field from `i` on named `key`.
pub open spec fn field_pos(fields: Seq<(Seq<char>, int)>, key: Seq<char>, i: int) -> Option<int>
    decreases fields.len() - i,
{
    if i < 0 || i >= fields.len() {
        None
    } else if fields[i].0 == key {
        Some(i)
    } else {
        field_pos(fields, key, i + 1)
    }
}

/// A map insertion: the field named `key` takes `v`, or it is added.
pub open spec fn obj_insert(fields: Seq<(Seq<char>, int)>, key: Seq<char>, v: int) -> Seq<(Seq<char>, int)> {
    match field_pos(fields, key, 0) {
        Some(j) => fields.update(j, (key, v)),
        None => fields.push((key, v)),
    }
}

pub open spec fn obj_fields(n: NodeView) -> Seq<(Seq<char>, int)> {
    match n {
        NodeView::Obj(f) => f,
        _ => Seq::empty(),
    }
}

/// The attributes gathered as a map, each value a new text node.
pub open spec fn attrs_into(nodes: Seq<NodeView>, attrs: Seq<(Seq<char>, Seq<char>)>) -> (Seq<NodeView>, Seq<(Seq<char>, int)>)
    decreases attrs.len(),
{
    if attrs.len() == 0 {
        (nodes, Seq::empty())
    } else {
        let (ns, fs) = attrs_into(nodes, attrs.drop_last());
        (ns.push(NodeView::Str(attrs.last().1)), obj_insert(fs, attrs.last().0, ns.len() as int))
    }
}

/// An element opens: a new object, with its attributes when it has any,
/// on top of the open elements; the text is cleared.
pub open spec fn open_tag(st: XState, name: Seq<char>, attrs: Seq<(Seq<char>, Seq<char>)>) -> XState {
    let (ns, fs) = attrs_into(st.nodes, attrs);
    let (ns2, own): (Seq<NodeView>, Seq<(Seq<char>, int)>) = if attrs.len() > 0 {
        (ns.push(NodeView::Obj(fs)), seq![("@attributes"@, ns.len() as int)])
    } else {
        (ns, Seq::empty())
    };
    XState { nodes: ns2.push(NodeView::Obj(own)), stack: st.stack.push((name, ns2.len() as int)), text: Seq::empty(), root: st.root }
}

/// A finished element `n` named `tag` goes into the open parent (a second
/// child of the same name turns the entry into an array), or becomes the
/// root as `{tag: n}` when no element is open.
pub open spec fn attach(st: XState, tag: Seq<char>, n: int) -> XState {
    if st.stack.len() == 0 {
        XState { nodes: st.nodes.push(NodeView::Obj(seq![(tag, n)])), root: Some(st.nodes.len() as int), ..st }
    } else {
        let p = st.stack.last().1;
        let fields = obj_fields(st.nodes[p]);
        match field_pos(fields, tag, 0) {
            Some(j) => {
                let c = fields[j].1;
                match st.nodes[c] {
                    NodeView::Arr(items) => XState { nodes: st.nodes.update(c, NodeView::Arr(items.push(n))), ..st },
                    _ => XState {
                        nodes: st.nodes.push(NodeView::Arr(seq![c, n])).update(
                            p,
                            NodeView::Obj(fields.update(j, (tag, st.nodes.len() as int))),
                        ),
                        ..st
                    },
                }
            },
            None => XState { nodes: st.nodes.update(p, NodeView::Obj(fields.push((tag, n)))), ..st },
        }
    }
}

/// The element just opened closes at once.
pub open spec fn close_last(st: XState) -> XState {
    attach(XState { stack: st.stack.drop_last(), ..st }, st.stack.last().0, st.stack.last().1)
}

/// An end tag: the innermost open element closes; when its name matches,
/// it takes the trimmed text (if any) under `#text` and goes to its parent;
/// otherwise it is dropped. The text is cleared.
pub open spec fn end_tag(st: XState, name: Seq<char>) -> XState {
    if st.stack.len() == 0 {
        XState { text: Seq::empty(), ..st }
    } else {
        let (tag, n) = st.stack.last();
        let st1 = XState { stack: st.stack.drop_last(), ..st };
        if tag != name {
            XState { text: Seq::empty(), ..st1 }
        } else {
            let t = trim(st.text);
            let st2 = if t.len() > 0 {
                XState {
                    nodes: st1.nodes.push(NodeView::Str(t)).update(
                        n,
                        NodeView::Obj(obj_insert(obj_fields(st1.nodes[n]), "#text"@, st1.nodes.len() as int)),
                    ),
                    ..st1
                }
            } else {
                st1
            };
            XState { text: Seq::empty(), ..attach(st2, tag, n) }
        }
    }
}

/// The conversion from read number `k` on, with `fuel` more reads after
/// this one allowed: an end or an error stops it; a start (or empty) tag
/// opens an element and the next event is read with it, closing the
/// element when that is an empty tag.
pub open spec fn xml_run(x: Seq<char>, k: nat, st: XState, fuel: nat) -> Result<XState, Seq<char>>
    decreases fuel,
{
    match xml_event_at(x, k) {
        XmlEventView::Eof => Ok(st),
        XmlEventView::Error(e) => Err("XML parse error: "@ + e),
        ev => {
            let (k2, st2): (nat, XState) = match ev {
                XmlEventView::Start(name, content, pos) | XmlEventView::Empty(name, content, pos) => {
                    let opened = open_tag(st, name, xml_attributes_of(content, pos));
                    if xml_event_at(x, k + 1) is Empty {
                        (k + 2, close_last(opened))
                    } else {
                        (k + 2, opened)
                    }
                },
                XmlEventView::Text(t) => (k + 1, XState { text: t, ..st }),
                XmlEventView::End(name) => (k + 1, end_tag(st, name)),
                _ => (k + 1, st),
            };
            if fuel == 0 {
                Ok(st2)
            } else {
                xml_run(x, k2, st2, (fuel - 1) as nat)
            }
        },
    }
}

// ---------------------------------------------------------------- the machine

pub open spec fn opt_index(o: Option<usize>) -> Option<int> {
    match o {
        Some(i) => Some(i as int),
        None => None,
    }
}

/// The conversion under way.
struct TreeBuilder {
    nodes: Vec<JsonNode>,
    stack: Vec<(String, usize)>,
    text: String,
    root: Option<usize>,
}

impl TreeBuilder {
    spec fn state(&self) -> XState {
        XState { nodes: node_views(self.nodes@), stack: field_texts(self.stack@), text: self.text@, root: opt_index(self.root) }
    }

    /// Every index held by the open elements and by the objects names a
    /// node.
    spec fn wf(&self) -> bool {
        &&& forall|i: int| 0 <= i < self.stack@.len() ==> (#[trigger] self.stack@[i]).1 < self.nodes@.len()
        &&& forall|k: int| 0 <= k < self.nodes@.len() ==> fields_in(#[trigger] self.nodes@[k], self.nodes@.len() as int)
    }
}

/// The fields of an object name nodes below `n`.
spec fn fields_in(node: JsonNode, n: int) -> bool {
    match node {
        JsonNode::Obj(f) => forall|j: int| 0 <= j < f@.len() ==> (#[trigger] f@[j]).1 < n,
        _ => true,
    }
}

proof fn lemma_fields_in_grow(node: JsonNode, n: int, m: int)
    requires
        fields_in(node, n),
        n <= m,
    ensures
        fields_in(node, m),
{
}

fn clone_fields(f: &Vec<(String, usize)>) -> (r: Vec<(String, usize)>)
    ensures
        r@ == f@,
{
    let mut r: Vec<(String, usize)> = Vec::new();
    for i in 0..f.len()
        invariant
            r@ == f@.take(i as int),
    {
        r.push((f[i].0.clone(), f[i].1));
        assert(f@.take(i + 1) =~= f@.take(i as int).push(f@[i as int]));
    }
    assert(f@.take(f@.len() as int) =~= f@);
    r
}

fn clone_items(v: &Vec<usize>) -> (r: Vec<usize>)
    ensures
        r@ == v@,
{
    let mut r: Vec<usize> = Vec::new();
    for i in 0..v.len()
        invariant
            r@ == v@.take(i as int),
    {
        r.push(v[i]);
        assert(v@.take(i + 1) =~= v@.take(i as int).push(v@[i as int]));
    }
    assert(v@.take(v@.len() as int) =~= v@);
    r
}

fn find_field(f: &Vec<(String, usize)>, key: &str) -> (r: Option<usize>)
    ensures
        match r {
            Some(j) => field_pos(field_texts(f@), key@, 0) == Some(j as int) && j < f@.len(),
            None => field_pos(field_texts(f@), key@, 0) is None,
        },
{
    let ghost ft = field_texts(f@);
    let mut i: usize = 0;
    while i < f.len()
        invariant
            i <= f@.len(),
            ft == field_texts(f@),
            field_pos(ft, key@, 0) == field_pos(ft, key@, i as int),
        decreases f@.len() - i,
    {
        assert(ft[i as int].0 == f@[i as int].0@);
        if str_eq(f[i].0.as_str(), key) {
            return Some(i);
        }
        i = i + 1;
    }
    None
}

fn insert_field(f: &mut Vec<(String, usize)>, key: String, v: usize)
    ensures
        field_texts(final(f)@) == obj_insert(field_texts(old(f)@), key@, v as int),
        forall|j: int| 0 <= j < final(f)@.len() ==> (#[trigger] final(f)@[j]).1 == v || old(f)@.contains(final(f)@[j]),
{
    let ghost before = f@;
    match find_field(f, key.as_str()) {
        Some(j) => {
            f.set(j, (key, v));
            proof {
                assert(field_texts(f@) =~= field_texts(before).update(j as int, (key@, v as int)));
                assert forall|i: int| 0 <= i < f@.len() implies (#[trigger] f@[i]).1 == v || before.contains(f@[i]) by {
                    if i != j {
                        assert(f@[i] == before[i]);
                    }
                }
            }
        },
        None => {
            f.push((key, v));
            proof {
                assert(field_texts(f@) =~= field_texts(before).push((key@, v as int)));
                assert forall|i: int| 0 <= i < f@.len() implies (#[trigger] f@[i]).1 == v || before.contains(f@[i]) by {
                    if i < before.len() {
                        assert(f@[i] == before[i]);
                    }
                }
            }
        },
    }
}

fn fields_of(n: &JsonNode) -> (r: Vec<(String, usize)>)
    ensures
        field_texts(r@) == obj_fields(n@),
        match n {
            JsonNode::Obj(f) => r@ == f@,
            _ => r@.len() == 0,
        },
{
    match n {
        JsonNode::Obj(f) => clone_fields(f),
        _ => {
            let r: Vec<(String, usize)> = Vec::new();
            assert(field_texts(r@) =~= Seq::<(Seq<char>, int)>::empty());
            r
        },
    }
}

impl TreeBuilder {
    fn push_node(&mut self, n: JsonNode) -> (idx: usize)
        requires
            old(self).wf(),
            fields_in(n, old(self).nodes@.len() as int),
        ensures
            final(self).wf(),
            idx == old(self).nodes@.len(),
            final(self).nodes@ == old(self).nodes@.push(n),
            final(self).stack@ == old(self).stack@ && final(self).text == old(self).text && final(self).root == old(self).root,
            final(self).state() == (XState { nodes: old(self).state().nodes.push(n@), ..old(self).state() }),
    {
        let idx = self.nodes.len();
        let ghost before = self.nodes@;
        self.nodes.push(n);
        proof {
            assert forall|k: int| 0 <= k < self.nodes@.len() implies fields_in(#[trigger] self.nodes@[k], self.nodes@.len() as int) by {
                if k < before.len() {
                    assert(self.nodes@[k] == before[k]);
                    lemma_fields_in_grow(before[k], before.len() as int, self.nodes@.len() as int);
                }
            }
            assert(node_views(self.nodes@) =~= node_views(before).push(n@));
        }
        idx
    }

    fn set_node(&mut self, i: usize, n: JsonNode)
        requires
            old(self).wf(),
            i < old(self).nodes@.len(),
            fields_in(n, old(self).nodes@.len() as int),
        ensures
            final(self).wf(),
            final(self).nodes@ == old(self).nodes@.update(i as int, n),
            final(self).stack@ == old(self).stack@ && final(self).text == old(self).text && final(self).root == old(self).root,
            final(self).state() == (XState { nodes: old(self).state().nodes.update(i as int, n@), ..old(self).state() }),
    {
        let ghost before = self.nodes@;
        self.nodes.set(i, n);
        proof {
            assert forall|k: int| 0 <= k < self.nodes@.len() implies fields_in(#[trigger] self.nodes@[k], self.nodes@.len() as int) by {
                if k != i {
                    assert(self.nodes@[k] == before[k]);
                }
            }
            assert(node_views(self.nodes@) =~= node_views(before).update(i as int, n@));
        }
    }

    fn attach(&mut self, tag: String, n: usize)
        requires
            old(self).wf(),
            n < old(self).nodes@.len(),
        ensures
            final(self).wf(),
            final(self).state() == attach(old(self).state(), tag@, n as int),
    {
        let ghost st = self.state();
        if self.stack.len() == 0 {
            let mut f: Vec<(String, usize)> = Vec::new();
            f.push((tag, n));
            let ghost len = self.nodes@.len();
            let w = self.push_node(JsonNode::Obj(f));
            self.root = Some(w);
            proof {
                assert(field_texts(f@) =~= seq![(tag@, n as int)]);
            }
        } else {
            let top = self.stack.len() - 1;
            let p = self.stack[top].1;
            assert(field_texts(self.stack@)[top as int] == (self.stack@[top as int].0@, p as int));
            assert(st.stack.last().1 == p);
            assert(node_views(self.nodes@)[p as int] == self.nodes@[p as int]@);
            let fields = fields_of(&self.nodes[p]);
            assert(fields_in(self.nodes@[p as int], self.nodes@.len() as int));
            assert(forall|j: int| 0 <= j < fields@.len() ==> (#[trigger] fields@[j]).1 < self.nodes@.len());
            match find_field(&fields, tag.as_str()) {
                Some(j) => {
                    let c = fields[j].1;
                    assert(field_texts(fields@)[j as int].1 == c as int);
                    assert(node_views(self.nodes@)[c as int] == self.nodes@[c as int]@);
                    let items = match &self.nodes[c] {
                        JsonNode::Arr(v) => Some(clone_items(v)),
                        _ => None,
                    };
                    match items {
                        Some(v) => {
                            let mut v = v;
                            let ghost vb = v@;
                            v.push(n);
                            proof {
                                assert(index_texts(v@) =~= index_texts(vb).push(n as int));
                            }
                            self.set_node(c, JsonNode::Arr(v));
                        },
                        None => {
                            let mut v: Vec<usize> = Vec::new();
                            v.push(c);
                            v.push(n);
                            let ghost len = self.nodes@.len();
                            let a = self.push_node(JsonNode::Arr(v));
                            proof {
                                assert(index_texts(v@) =~= seq![c as int, n as int]);
                            }
                            let mut f2 = fields;
                            let ghost fb = f2@;
                            f2.set(j, (tag, a));
                            proof {
                                assert(field_texts(f2@) =~= field_texts(fb).update(j as int, (tag@, a as int)));
                                assert forall|q: int| 0 <= q < f2@.len() implies (#[trigger] f2@[q]).1 < self.nodes@.len() by {
                                    if q != j {
                                        assert(f2@[q] == fb[q]);
                                    }
                                }
                            }
                            self.set_node(p, JsonNode::Obj(f2));
                        },
                    }
                },
                None => {
                    let mut f2 = fields;
                    let ghost fb = f2@;
                    f2.push((tag, n));
                    proof {
                        assert(field_texts(f2@) =~= field_texts(fb).push((tag@, n as int)));
                        assert forall|q: int| 0 <= q < f2@.len() implies (#[trigger] f2@[q]).1 < self.nodes@.len() by {
                            if q < fb.len() {
                                assert(f2@[q] == fb[q]);
                            }
                        }
                    }
                    self.set_node(p, JsonNode::Obj(f2));
                },
            }
        }
    }
}

impl TreeBuilder {
    fn open_tag(&mut self, name: String, attributes: Vec<(String, String)>)
        requires
            old(self).wf(),
        ensures
            final(self).wf(),
            final(self).state() == open_tag(old(self).state(), name@, attr_texts(attributes@)),
    {
        let ghost st = self.state();
        let ghost attrs = attr_texts(attributes@);
        let mut afields: Vec<(String, usize)> = Vec::new();
        assert(attrs.take(0) =~= Seq::<(Seq<char>, Seq<char>)>::empty());
        assert(field_texts(afields@) =~= Seq::<(Seq<char>, int)>::empty());
        for i in 0..attributes.len()
            invariant
                self.wf(),
                attrs == attr_texts(attributes@),
                (self.state().nodes, field_texts(afields@)) == attrs_into(st.nodes, attrs.take(i as int)),
                self.stack@ == old(self).stack@ && self.text == old(self).text && self.root == old(self).root,
                self.state() == (XState { nodes: self.state().nodes, ..st }),
                forall|j: int| 0 <= j < afields@.len() ==> (#[trigger] afields@[j]).1 < self.nodes@.len(),
        {
            assert(attrs.take(i + 1).drop_last() =~= attrs.take(i as int));
            assert(attrs.take(i + 1).last() == (attributes@[i as int].0@, attributes@[i as int].1@));
            let ghost fb = afields@;
            let ghost len = self.nodes@.len();
            let idx = self.push_node(JsonNode::Str(attributes[i].1.clone()));
            insert_field(&mut afields, attributes[i].0.clone(), idx);
            proof {
                assert forall|j: int| 0 <= j < afields@.len() implies (#[trigger] afields@[j]).1 < self.nodes@.len() by {
                    if afields@[j].1 != idx {
                        let q = choose|q: int| 0 <= q < fb.len() && fb[q] == afields@[j];
                        assert(fb[q].1 < len);
                    }
                }
            }
        }
        assert(attrs.take(attributes@.len() as int) =~= attrs);
        let mut own: Vec<(String, usize)> = Vec::new();
        if attributes.len() > 0 {
            let a = self.push_node(JsonNode::Obj(afields));
            own.push((to_string_of("@attributes"), a));
            assert(field_texts(own@) =~= seq![("@attributes"@, a as int)]);
        } else {
            assert(field_texts(own@) =~= Seq::<(Seq<char>, int)>::empty());
        }
        let n = self.push_node(JsonNode::Obj(own));
        let ghost sb = self.stack@;
        self.stack.push((name, n));
        self.text = to_string_of("");
        proof {
            reveal_strlit("");
            assert(field_texts(self.stack@) =~= field_texts(sb).push((name@, n as int)));
            assert forall|i: int| 0 <= i < self.stack@.len() implies (#[trigger] self.stack@[i]).1 < self.nodes@.len() by {
                if i < sb.len() {
                    assert(self.stack@[i] == sb[i]);
                }
            }
            assert(self.text@ =~= Seq::<char>::empty());
        }
    }

    fn close_last(&mut self)
        requires
            old(self).wf(),
            old(self).stack@.len() > 0,
        ensures
            final(self).wf(),
            final(self).state() == close_last(old(self).state()),
    {
        let ghost st = self.state();
        let ghost sb = self.stack@;
        let last = self.stack.pop();
        let (tag, n) = match last {
            Some(e) => e,
            None => {
                return;
            },
        };
        proof {
            assert(field_texts(self.stack@) =~= field_texts(sb).drop_last());
            assert(st.stack.last() == (tag@, n as int));
            assert(sb[sb.len() - 1] == (tag, n));
            assert forall|i: int| 0 <= i < self.stack@.len() implies (#[trigger] self.stack@[i]).1 < self.nodes@.len() by {
                assert(self.stack@[i] == sb[i]);
            }
        }
        self.attach(tag, n);
    }

    fn end_tag(&mut self, name: &str)
        requires
            old(self).wf(),
        ensures
            final(self).wf(),
            final(self).state() == end_tag(old(self).state(), name@),
    {
        let ghost st = self.state();
        let ghost sb = self.stack@;
        proof {
            reveal_strlit("");
        }
        if self.stack.len() == 0 {
            self.text = to_string_of("");
            assert(self.text@ =~= Seq::<char>::empty());
            assert(field_texts(self.stack@) =~= st.stack);
            assert(self.state() == end_tag(st, name@));
        } else {
            let last = self.stack.pop();
            let (tag, n) = match last {
                Some(e) => e,
                None => {
                    return;
                },
            };
            proof {
                assert(field_texts(self.stack@) =~= field_texts(sb).drop_last());
                assert(st.stack.last() == (tag@, n as int));
                assert(sb[sb.len() - 1] == (tag, n));
                assert forall|i: int| 0 <= i < self.stack@.len() implies (#[trigger] self.stack@[i]).1 < self.nodes@.len() by {
                    assert(self.stack@[i] == sb[i]);
                }
            }
            let ghost st1 = XState { stack: st.stack.drop_last(), ..st };
            assert(self.state() == st1);
            if !str_eq(tag.as_str(), name) {
                self.text = to_string_of("");
                assert(self.text@ =~= Seq::<char>::empty());
                assert(self.state() == end_tag(st, name@));
            } else {
                let tv = chars_of(self.text.as_str());
                let t = trimmed_range(&tv, 0, tv.len());
                assert(tv@.subrange(0, tv@.len() as int) =~= st.text);
                if t.len() > 0 {
                    assert(node_views(self.nodes@)[n as int] == self.nodes@[n as int]@);
                    let mut f = fields_of(&self.nodes[n]);
                    assert(fields_in(self.nodes@[n as int], self.nodes@.len() as int));
                    let s = self.push_node(JsonNode::Str(string_of(&t)));
                    let ghost fb = f@;
                    insert_field(&mut f, to_string_of("#text"), s);
                    proof {
                        assert forall|j: int| 0 <= j < f@.len() implies (#[trigger] f@[j]).1 < self.nodes@.len() by {
                            if f@[j].1 != s {
                                let q = choose|q: int| 0 <= q < fb.len() && fb[q] == f@[j];
                                assert(fb[q].1 < self.nodes@.len() - 1);
                            }
                        }
                    }
                    self.set_node(n, JsonNode::Obj(f));
                }
                let ghost st2 = self.state();
                assert(st2 == (if trim(st.text).len() > 0 {
                    XState {
                        nodes: st1.nodes.push(NodeView::Str(trim(st.text))).update(
                            n as int,
                            NodeView::Obj(obj_insert(obj_fields(st1.nodes[n as int]), "#text"@, st1.nodes.len() as int)),
                        ),
                        ..st1
                    }
                } else {
                    st1
                }));
                self.attach(tag, n);
                self.text = to_string_of("");
                assert(self.text@ =~= Seq::<char>::empty());
                assert(self.state() == end_tag(st, name@));
            }
        }
    }
}

/// `fm.xml.parse` before serialisation: the JSON tree the events of the
/// reader give, or the reader's error as `XML parse error: ...`. The reader
/// is asked for at most one event per byte of the text, and one more.
pub fn xml_to_json_tree(xml: &str) -> (r: Result<XmlJson, String>)
    ensures
        match xml_run(xml@, 0, start_state(), vstd::utf8::encode_utf8(xml@).len()) {
            Ok(st) => r matches Ok(j) && node_views(j.nodes@) == st.nodes && opt_index(j.root) == st.root,
            Err(e) => r matches Err(m) && m@ == e,
        },
{
    let mut tokens = open_tokens(xml);
    let mut b = TreeBuilder { nodes: Vec::new(), stack: Vec::new(), text: to_string_of(""), root: None };
    proof {
        reveal_strlit("");
        assert(b.state() == start_state()) by {
            assert(node_views(b.nodes@) =~= Seq::<NodeView>::empty());
            assert(field_texts(b.stack@) =~= Seq::<(Seq<char>, int)>::empty());
            assert(b.text@ =~= Seq::<char>::empty());
        }
    }
    let mut fuel: usize = xml.as_bytes().len();
    let ghost total: nat = vstd::utf8::encode_utf8(xml@).len();
    loop
        invariant
            b.wf(),
            tokens.source() == xml@,
            total == vstd::utf8::encode_utf8(xml@).len(),
            tokens.read() >= 0,
            xml_run(xml@, 0, start_state(), total) == xml_run(xml@, tokens.read() as nat, b.state(), fuel as nat),
        decreases fuel,
    {
        let ghost k = tokens.read() as nat;
        let ghost st = b.state();
        let ev = next_token(&mut tokens);
        let ghost evv = ev@;
        match ev {
            XmlEvent::Eof => {
                assert(xml_run(xml@, k, st, fuel as nat) == Ok::<XState, Seq<char>>(st));
                return Ok(XmlJson { nodes: b.nodes, root: b.root });
            },
            XmlEvent::Error(e) => {
                assert(xml_run(xml@, k, st, fuel as nat) == Err::<XState, Seq<char>>("XML parse error: "@ + e@));
                return Err(concat2("XML parse error: ", e.as_str()));
            },
            XmlEvent::Start(t) => {
                let attributes = tag_attributes(t.content.as_str(), t.name_len);
                b.open_tag(t.name, attributes);
                let look = next_token(&mut tokens);
                match look {
                    XmlEvent::Empty(_) => {
                        b.close_last();
                    },
                    _ => {},
                }
            },
            XmlEvent::Empty(t) => {
                let attributes = tag_attributes(t.content.as_str(), t.name_len);
                b.open_tag(t.name, attributes);
                let look = next_token(&mut tokens);
                match look {
                    XmlEvent::Empty(_) => {
                        b.close_last();
                    },
                    _ => {},
                }
            },
            XmlEvent::Text(t) => {
                b.text = t;
            },
            XmlEvent::End(name) => {
                b.end_tag(name.as_str());
            },
            XmlEvent::Other => {},
        }
        assert(xml_run(xml@, k, st, fuel as nat) == (if fuel == 0 {
            Ok::<XState, Seq<char>>(b.state())
        } else {
            xml_run(xml@, tokens.read() as nat, b.state(), (fuel - 1) as nat)
        }));
        if fuel == 0 {
            return Ok(XmlJson { nodes: b.nodes, root: b.root });
        }
        fuel = fuel - 1;
    }
}

} // verus!
