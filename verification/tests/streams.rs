use fm_tester::ai_stream::{
    completions_url, first_reply_content, models_url, ChoiceDelta, DataLineReader, StreamAccumulator, ToolCallDelta,
};
use fm_tester::sse::SseParser;

#[test]
fn sse_events_across_chunks() {
    let mut p = SseParser::new();
    assert!(p.feed("id: 1\nevent: tick\nda").is_empty());
    let evs = p.feed("ta: a\ndata:b\n\n: comment\nplain line\n\n");
    assert_eq!(evs.len(), 2);
    assert_eq!(evs[0].id.as_deref(), Some("1"));
    assert_eq!(evs[0].event.as_deref(), Some("tick"));
    assert_eq!(evs[0].data, "a\nb");
    assert_eq!(evs[1].id, None);
    assert_eq!(evs[1].event.as_deref(), Some("message"));
    assert_eq!(evs[1].data, "plain line");
    assert!(p.feed("\n\n").is_empty());
}

#[test]
fn sse_chunking_does_not_matter() {
    let text = "event: a\ndata: x\n\ndata: y\r\n\r\nretry: 5\ndata: z\n\n";
    let mut whole = SseParser::new();
    let all: Vec<String> = whole.feed(text).into_iter().map(|e| e.data).collect();
    let mut piecewise = SseParser::new();
    let mut got = Vec::new();
    for ch in text.chars() {
        got.extend(piecewise.feed(&ch.to_string()).into_iter().map(|e| e.data));
    }
    assert_eq!(all, vec!["x", "y", "z"]);
    assert_eq!(all, got);
}

#[test]
fn data_lines_of_a_streamed_reply() {
    let mut r = DataLineReader::new();
    assert!(r.feed("data: {\"a\":1}").is_empty());
    let p = r.feed("\n\ndata: [DONE]\nevent: x\n  data: two  \n");
    assert_eq!(p, vec!["{\"a\":1}".to_string(), "two".to_string()]);
}

fn piece(index: u32, id: Option<&str>, name: Option<&str>, args: &str) -> ToolCallDelta {
    ToolCallDelta {
        index,
        id: id.map(|s| s.to_string()),
        tool_type: None,
        name: name.map(|s| s.to_string()),
        arguments: args.to_string(),
    }
}

#[test]
fn tool_calls_are_gathered_by_index() {
    let mut acc = StreamAccumulator::new();
    acc.apply_choice(&ChoiceDelta { content: Some("Hel".to_string()), tool_calls: None, finish_reason: None });
    acc.apply_choice(&ChoiceDelta {
        content: Some("lo".to_string()),
        tool_calls: Some(vec![piece(1, Some("c2"), Some("search_apis"), "{\"q\""), piece(0, Some("c1"), Some("get_api_detail"), "")]),
        finish_reason: None,
    });
    acc.apply_choice(&ChoiceDelta {
        content: None,
        tool_calls: Some(vec![piece(1, None, None, ":\"x\"}"), piece(5, None, Some("orphan"), "{}")]),
        finish_reason: Some("tool_calls".to_string()),
    });
    let r = acc.finish();
    assert_eq!(r.content, "Hello");
    assert_eq!(r.finish_reason.as_deref(), Some("tool_calls"));
    assert_eq!(r.tool_calls.len(), 2);
    assert_eq!(r.tool_calls[0].id, "c1");
    assert_eq!(r.tool_calls[0].tool_type, "function");
    assert_eq!(r.tool_calls[1].name, "search_apis");
    assert_eq!(r.tool_calls[1].arguments, "{\"q\":\"x\"}");
}

#[test]
fn endpoints_and_plain_replies() {
    assert_eq!(models_url("https://api.x.com/v1//"), "https://api.x.com/v1/models");
    assert_eq!(completions_url("https://api.x.com/v1"), "https://api.x.com/v1/chat/completions");
    assert_eq!(first_reply_content(vec![Some(" ok ".to_string())]).unwrap(), " ok ");
    assert_eq!(first_reply_content(vec![Some("  ".to_string()), Some("x".to_string())]).unwrap_err(), "AI 返回空内容");
    assert_eq!(first_reply_content(vec![]).unwrap_err(), "AI 返回空内容");
}

#[test]
fn stream_stop_signal() {
    let mut c = fm_tester::sse::SseClientService::new();
    assert!(!c.is_cancelled());
    c.stop_sse();
    assert!(c.is_cancelled());
    c.begin_stream();
    assert!(!c.is_cancelled());
}

#[test]
fn stopped_stream_reads_no_more() {
    let mut c = fm_tester::sse::SseClientService::new();
    c.begin_stream();
    let mut p = SseParser::new();
    match c.on_chunk(&mut p, "data: one\n\ndata: tw") {
        fm_tester::sse::ChunkStep::Events(es) => assert_eq!(es.len(), 1),
        fm_tester::sse::ChunkStep::Stopped => panic!("not stopped yet"),
    }
    c.stop_sse();
    assert!(matches!(c.on_chunk(&mut p, "o\n\n"), fm_tester::sse::ChunkStep::Stopped));
    // A new stream starts afresh; the half-read event was left as it was.
    c.begin_stream();
    match c.on_chunk(&mut p, "o\n\n") {
        fm_tester::sse::ChunkStep::Events(es) => assert_eq!(es[0].data, "two"),
        fm_tester::sse::ChunkStep::Stopped => panic!("a new stream was stopped"),
    }
}
