use fm_tester::xml_json::{xml_to_json_tree, JsonNode, XmlJson};

fn render_node(t: &XmlJson, i: usize) -> String {
    match &t.nodes[i] {
        JsonNode::Str(s) => format!("{:?}", s),
        JsonNode::Arr(v) => format!("[{}]", v.iter().map(|&c| render_node(t, c)).collect::<Vec<_>>().join(",")),
        JsonNode::Obj(f) => format!(
            "{{{}}}",
            f.iter().map(|(k, c)| format!("{:?}:{}", k, render_node(t, *c))).collect::<Vec<_>>().join(",")
        ),
    }
}

fn render(xml: &str) -> String {
    match xml_to_json_tree(xml) {
        Ok(t) => match t.root {
            Some(r) => render_node(&t, r),
            None => "null".to_string(),
        },
        Err(e) => format!("error: {}", e),
    }
}

#[test]
fn elements_with_text_children_and_attributes() {
    assert_eq!(render("<r>x<a>1</a>y</r>"), r##"{"r":{"a":{},"#text":"y"}}"##);
    assert_eq!(render("<r>x<a>1</a><a>2</a></r>"), r#"{"r":{"a":[{},{}]}}"#);
    assert_eq!(
        render(r#"<r id="7">x<a k="v">1</a></r>"#),
        r#"{"r":{"@attributes":{"id":"7"},"a":{"@attributes":{"k":"v"}}}}"#
    );
}

#[test]
fn the_event_after_a_start_tag_is_read_with_it() {
    assert_eq!(render("<root>text</root>"), r#"{"root":{}}"#);
    assert_eq!(render("<a/>"), "null");
    assert_eq!(render("<r><x/><a>1</a></r>"), r#"{"a":{}}"#);
    assert_eq!(render("<r><a>1</a></r>"), "null");
}

#[test]
fn reader_errors() {
    assert!(render("</b>").starts_with("error: XML parse error: "));
    assert_eq!(render(""), "null");
}
