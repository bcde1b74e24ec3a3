//! `fm.schema.validate`: a JSON text checked against a JSON Schema text, and
//! the answer written as JSON text, as serde_json writes it (keys in order,
//! strings escaped).

use vstd::prelude::*;
use crate::text::{chars_of, string_of, append_chars, string_views};

verus! {

/// What serde_json makes of `text` read as a JSON value: a value, or the
/// text of its error.
pub uninterp spec fn json_parse_of(text: Seq<char>) -> Result<(), Seq<char>>;

/// What jsonschema makes of the JSON value `schema` compiled as a schema:
/// a schema, or the text of its error.
pub uninterp spec fn schema_compile_of(schema: Seq<char>) -> Result<(), Seq<char>>;

/// The messages of the errors jsonschema finds in the value `data` under
/// the compiled `schema`, in the order it reports them.
pub uninterp spec fn schema_errors_of(data: Seq<char>, schema: Seq<char>) -> Seq<Seq<char>>;

/// serde_json: `from_str::<Value>`. Claimed: the outcome is the named one.
#[verifier::external_body]
fn json_parse_check(text: &str) -> (r: Result<(), String>)
    ensures
        match r {
            Ok(u) => json_parse_of(text@) == Ok::<(), Seq<char>>(u),
            Err(e) => json_parse_of(text@) == Err::<(), Seq<char>>(e@),
        },
{
    serde_json::from_str::<serde_json::Value>(text).map(|_| ()).map_err(|e| e.to_string())
}

/// jsonschema: `JSONSchema::compile` of the value read from `schema`.
/// Claimed: the outcome is the named one.
#[verifier::external_body]
fn schema_compile_check(schema: &str) -> (r: Result<(), String>)
    requires
        json_parse_of(schema@) is Ok,
    ensures
        match r {
            Ok(u) => schema_compile_of(schema@) == Ok::<(), Seq<char>>(u),
            Err(e) => schema_compile_of(schema@) == Err::<(), Seq<char>>(e@),
        },
{
    let value: serde_json::Value = serde_json::from_str(schema).map_err(|e| e.to_string())?;
    jsonschema::JSONSchema::compile(&value).map(|_| ()).map_err(|e| e.to_string())
}

/// jsonschema: `validate` of the value read from `data` under the schema
/// compiled from `schema`, each error written with `to_string`. Claimed: the
/// messages are the named ones (none exactly when `validate` gives `Ok`).
#[verifier::external_body]
fn schema_errors(data: &str, schema: &str) -> (r: Vec<String>)
    requires
        json_parse_of(data@) is Ok,
        json_parse_of(schema@) is Ok,
        schema_compile_of(schema@) is Ok,
    ensures
        string_views(r@) == schema_errors_of(data@, schema@),
{
    let (Ok(d), Ok(s)) = (serde_json::from_str(data), serde_json::from_str(schema)) else { return Vec::new() };
    let Ok(compiled) = jsonschema::JSONSchema::compile(&s) else { return Vec::new() };
    let messages = match compiled.validate(&d) {
        Ok(()) => Vec::new(),
        Err(errors) => errors.map(|e| e.to_string()).collect(),
    };
    messages
}

// ---------------------------------------------------------------- JSON text

/// The lowercase hexadecimal digit of `d`.
pub open spec fn hex_digit_spec(d: int) -> char {
    seq!['0', '1', '2', '3', '4', '5', '6', '7', '8', '9', 'a', 'b', 'c', 'd', 'e', 'f'][d]
}

/// How serde_json writes a character inside a string: `"` and `\` behind a
/// backslash, the control characters backspace, tab, newline, form feed and
/// carriage return as `\b`, `\t`, `\n`, `\f`, `\r`, the other control
/// characters below U+0020 as `\u00XX` (lowercase hex), any other as it is.
pub open spec fn escape_char(c: char) -> Seq<char> {
    if c == '"' {
        seq!['\\', '"']
    } else if c == '\\' {
        seq!['\\', '\\']
    } else if c == '\u{8}' {
        seq!['\\', 'b']
    } else if c == '\t' {
        seq!['\\', 't']
    } else if c == '\n' {
        seq!['\\', 'n']
    } else if c == '\u{c}' {
        seq!['\\', 'f']
    } else if c == '\r' {
        seq!['\\', 'r']
    } else if (c as u32) < 0x20 {
        seq!['\\', 'u', '0', '0', hex_digit_spec((c as u32) as int / 16), hex_digit_spec((c as u32) as int % 16)]
    } else {
        seq![c]
    }
}

/// A text escaped character by character.
pub open spec fn escape_text(s: Seq<char>) -> Seq<char>
    decreases s.len(),
{
    if s.len() == 0 {
        Seq::empty()
    } else {
        escape_text(s.drop_last()) + escape_char(s.last())
    }
}

/// A JSON string literal of `s`.
pub open spec fn json_string(s: Seq<char>) -> Seq<char> {
    seq!['"'] + escape_text(s) + seq!['"']
}

/// The JSON strings of `ms`, separated by commas.
pub open spec fn json_string_list(ms: Seq<Seq<char>>) -> Seq<char>
    decreases ms.len(),
{
    if ms.len() == 0 {
        Seq::empty()
    } else if ms.len() == 1 {
        json_string(ms[0])
    } else {
        json_string_list(ms.drop_last()) + seq![','] + json_string(ms.last())
    }
}

/// What checking gave.
#[derive(Debug)]
pub enum SchemaOutcome {
    /// The data is not JSON; the parser's message.
    BadData(String),
    /// The schema is not JSON; the parser's message.
    BadSchema(String),
    /// The schema does not compile; the compiler's message.
    CompileError(String),
    /// The messages of the errors found; none when the data is valid.
    Checked(Vec<String>),
}

pub enum SchemaOutcomeView {
    BadData(Seq<char>),
    BadSchema(Seq<char>),
    CompileError(Seq<char>),
    Checked(Seq<Seq<char>>),
}

impl View for SchemaOutcome {
    type V = SchemaOutcomeView;

    open spec fn view(&self) -> SchemaOutcomeView {
        match self {
            SchemaOutcome::BadData(e) => SchemaOutcomeView::BadData(e@),
            SchemaOutcome::BadSchema(e) => SchemaOutcomeView::BadSchema(e@),
            SchemaOutcome::CompileError(e) => SchemaOutcomeView::CompileError(e@),
            SchemaOutcome::Checked(ms) => SchemaOutcomeView::Checked(string_views(ms@)),
        }
    }
}

/// The outcome for `data` and `schema`: the data is read first, then the
/// schema, then the schema is compiled, then the data is checked.
pub open spec fn schema_outcome(data: Seq<char>, schema: Seq<char>) -> SchemaOutcomeView {
    match json_parse_of(data) {
        Err(e) => SchemaOutcomeView::BadData(e),
        Ok(_) => match json_parse_of(schema) {
            Err(e) => SchemaOutcomeView::BadSchema(e),
            Ok(_) => match schema_compile_of(schema) {
                Err(e) => SchemaOutcomeView::CompileError(e),
                Ok(_) => SchemaOutcomeView::Checked(schema_errors_of(data, schema)),
            },
        },
    }
}

pub open spec fn error_answer(m: Seq<char>) -> Seq<char> {
    "{\"error\":"@ + json_string(m) + ",\"valid\":false}"@
}

/// The answer as JSON text: `{"valid":true}` when no error was found,
/// `{"errors":[...],"valid":false}` with the messages otherwise, and
/// `{"error":"...","valid":false}` when the data or schema cannot be used.
pub open spec fn answer_text(o: SchemaOutcomeView) -> Seq<char> {
    match o {
        SchemaOutcomeView::BadData(e) => error_answer("Invalid data JSON: "@ + e),
        SchemaOutcomeView::BadSchema(e) => error_answer("Invalid schema JSON: "@ + e),
        SchemaOutcomeView::CompileError(e) => error_answer("Schema compile error: "@ + e),
        SchemaOutcomeView::Checked(ms) => if ms.len() == 0 {
            "{\"valid\":true}"@
        } else {
            "{\"errors\":["@ + json_string_list(ms) + "],\"valid\":false}"@
        },
    }
}

fn hex_digit(d: u32) -> (c: char)
    requires
        d < 16,
    ensures
        c == hex_digit_spec(d as int),
{
    if d == 0 { '0' } else if d == 1 { '1' } else if d == 2 { '2' } else if d == 3 { '3' }
    else if d == 4 { '4' } else if d == 5 { '5' } else if d == 6 { '6' } else if d == 7 { '7' }
    else if d == 8 { '8' } else if d == 9 { '9' } else if d == 10 { 'a' } else if d == 11 { 'b' }
    else if d == 12 { 'c' } else if d == 13 { 'd' } else if d == 14 { 'e' } else { 'f' }
}

fn push_escaped_char(out: &mut Vec<char>, c: char)
    ensures
        final(out)@ == old(out)@ + escape_char(c),
{
    let ghost before = out@;
    if c == '"' {
        out.push('\\');
        out.push('"');
    } else if c == '\\' {
        out.push('\\');
        out.push('\\');
    } else if c == '\u{8}' {
        out.push('\\');
        out.push('b');
    } else if c == '\t' {
        out.push('\\');
        out.push('t');
    } else if c == '\n' {
        out.push('\\');
        out.push('n');
    } else if c == '\u{c}' {
        out.push('\\');
        out.push('f');
    } else if c == '\r' {
        out.push('\\');
        out.push('r');
    } else if (c as u32) < 0x20 {
        let n = c as u32;
        out.push('\\');
        out.push('u');
        out.push('0');
        out.push('0');
        out.push(hex_digit(n / 16));
        out.push(hex_digit(n % 16));
    } else {
        out.push(c);
    }
    assert(out@ =~= before + escape_char(c));
}

fn push_json_string(out: &mut Vec<char>, s: &str)
    ensures
        final(out)@ == old(out)@ + json_string(s@),
{
    let ghost before = out@;
    let v = chars_of(s);
    out.push('"');
    for i in 0..v.len()
        invariant
            v@ == s@,
            out@ == before + seq!['"'] + escape_text(v@.take(i as int)),
    {
        let ghost mid = out@;
        push_escaped_char(out, v[i]);
        assert(v@.take(i + 1).drop_last() =~= v@.take(i as int));
        assert(v@.take(i + 1).last() == v@[i as int]);
        assert(out@ =~= before + seq!['"'] + escape_text(v@.take(i + 1)));
    }
    assert(v@.take(v@.len() as int) =~= v@);
    out.push('"');
    assert(out@ =~= before + json_string(s@));
}

fn error_answer_text(prefix: &str, e: &str) -> (r: String)
    ensures
        r@ == error_answer(prefix@ + e@),
{
    let mut msg = chars_of(prefix);
    append_chars(&mut msg, &chars_of(e));
    let m = string_of(&msg);
    let mut out = chars_of("{\"error\":");
    push_json_string(&mut out, m.as_str());
    append_chars(&mut out, &chars_of(",\"valid\":false}"));
    string_of(&out)
}

/// Writes the answer for an outcome.
pub fn render_schema_answer(o: &SchemaOutcome) -> (r: String)
    ensures
        r@ == answer_text(o@),
{
    match o {
        SchemaOutcome::BadData(e) => error_answer_text("Invalid data JSON: ", e.as_str()),
        SchemaOutcome::BadSchema(e) => error_answer_text("Invalid schema JSON: ", e.as_str()),
        SchemaOutcome::CompileError(e) => error_answer_text("Schema compile error: ", e.as_str()),
        SchemaOutcome::Checked(ms) => {
            if ms.len() == 0 {
                return string_of(&chars_of("{\"valid\":true}"));
            }
            let ghost mv = string_views(ms@);
            let mut out = chars_of("{\"errors\":[");
            let ghost start = out@;
            for i in 0..ms.len()
                invariant
                    mv == string_views(ms@),
                    mv.len() > 0,
                    start == "{\"errors\":["@,
                    out@ == start + json_string_list(mv.take(i as int)),
            {
                let ghost before = out@;
                if i > 0 {
                    out.push(',');
                }
                push_json_string(&mut out, ms[i].as_str());
                assert(mv[i as int] == ms@[i as int]@);
                assert(mv.take(i + 1).drop_last() =~= mv.take(i as int));
                assert(mv.take(i + 1).last() == mv[i as int]);
                if i == 0 {
                    assert(mv.take(1) =~= seq![mv[0]]);
                    assert(out@ =~= start + json_string_list(mv.take(i + 1)));
                } else {
                    assert(out@ =~= start + json_string_list(mv.take(i + 1)));
                }
            }
            assert(mv.take(mv.len() as int) =~= mv);
            append_chars(&mut out, &chars_of("],\"valid\":false}"));
            string_of(&out)
        },
    }
}

/// What checking `data` against `schema` gives.
pub fn check_json_schema(data: &str, schema: &str) -> (r: SchemaOutcome)
    ensures
        r@ == schema_outcome(data@, schema@),
{
    match json_parse_check(data) {
        Err(e) => SchemaOutcome::BadData(e),
        Ok(()) => match json_parse_check(schema) {
            Err(e) => SchemaOutcome::BadSchema(e),
            Ok(()) => match schema_compile_check(schema) {
                Err(e) => SchemaOutcome::CompileError(e),
                Ok(()) => SchemaOutcome::Checked(schema_errors(data, schema)),
            },
        },
    }
}

/// `fm.schema.validate`: the answer, as JSON text, for `data` checked
/// against `schema`.
pub fn jsonschema_validate(data: &str, schema: &str) -> (r: String)
    ensures
        r@ == answer_text(schema_outcome(data@, schema@)),
{
    let o = check_json_schema(data, schema);
    render_schema_answer(&o)
}

} // verus!
