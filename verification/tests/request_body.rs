use fm_tester::models::{FileInfo, FormField};
use fm_tester::request_body::{assemble_request_body, build_request_body, FileRead};

fn field(key: &str, value: &str, kind: &str, files: Option<Vec<&str>>) -> FormField {
    FormField {
        key: key.to_string(),
        value: value.to_string(),
        field_type: kind.to_string(),
        enabled: true,
        files: files.map(|v| v.into_iter().map(|p| FileInfo { path: p.to_string(), name: format!("{}.bin", p) }).collect()),
    }
}

#[test]
fn raw_and_empty_bodies() {
    let b = assemble_request_body(None, Some("{\"a\":1}"), None, &vec![], 0).unwrap();
    assert_eq!(b.body.unwrap(), b"{\"a\":1}".to_vec());
    assert!(b.content_type.is_none());
    let b = assemble_request_body(Some("json"), Some(""), None, &vec![], 0).unwrap();
    assert!(b.body.is_none());
    let b = assemble_request_body(Some("form-data"), Some("x"), None, &vec![], 0).unwrap();
    assert!(b.body.is_none() && b.content_type.is_none());
}

#[test]
fn urlencoded_body() {
    let mut off = field("skip", "1", "text", None);
    off.enabled = false;
    let fields = vec![field("a b", "c&d", "text", None), off, field("", "x", "text", None), field("k", "中", "text", None)];
    let b = assemble_request_body(Some("x-www-form-urlencoded"), None, Some(fields), &vec![], 0).unwrap();
    assert_eq!(String::from_utf8(b.body.unwrap()).unwrap(), "a%20b=c%26d&k=%E4%B8%AD");
    assert_eq!(b.content_type.as_deref(), Some("application/x-www-form-urlencoded"));
}

#[test]
fn multipart_body() {
    let fields = vec![field("t", "v", "text", None), field("f", "", "file", Some(vec!["p1", "gone"]))];
    let files = vec![("p1".to_string(), FileRead::Bytes(vec![1, 2])), ("gone".to_string(), FileRead::Missing)];
    let b = assemble_request_body(Some("form-data"), None, Some(fields), &files, 0xab).unwrap();
    let boundary = "----FmTester00000000000000ab";
    assert_eq!(b.content_type.unwrap(), format!("multipart/form-data; boundary={}", boundary));
    let mut expected = Vec::new();
    expected.extend_from_slice(format!("--{}\r\nContent-Disposition: form-data; name=\"t\"\r\n\r\nv\r\n", boundary).as_bytes());
    expected.extend_from_slice(
        format!("--{}\r\nContent-Disposition: form-data; name=\"f\"; filename=\"p1.bin\"\r\nContent-Type: application/octet-stream\r\n\r\n", boundary)
            .as_bytes(),
    );
    expected.extend_from_slice(&[1, 2]);
    expected.extend_from_slice(b"\r\n");
    expected.extend_from_slice(format!("--{}--\r\n", boundary).as_bytes());
    assert_eq!(b.body.unwrap(), expected);
}

#[test]
fn multipart_read_error_and_random_boundary() {
    let fields = vec![field("f", "", "file", Some(vec!["bad"]))];
    let files = vec![("bad".to_string(), FileRead::Failed("denied".to_string()))];
    let e = assemble_request_body(Some("form-data"), None, Some(fields), &files, 1).unwrap_err();
    assert_eq!(e, "读取文件失败: denied");
    let b = build_request_body(Some("form-data"), None, Some(vec![]), &vec![]).unwrap();
    let ct = b.content_type.unwrap();
    assert!(ct.starts_with("multipart/form-data; boundary=----FmTester"));
    assert_eq!(ct.len(), "multipart/form-data; boundary=----FmTester".len() + 16);
}

#[test]
fn binary_body_takes_first_existing_file() {
    let fields = vec![field("a", "", "file", Some(vec!["missing"])), field("b", "", "file", Some(vec!["here", "other"]))];
    let files = vec![("missing".to_string(), FileRead::Missing), ("here".to_string(), FileRead::Bytes(vec![7]))];
    let b = assemble_request_body(Some("binary"), None, Some(fields), &files, 0).unwrap();
    assert_eq!(b.body.unwrap(), vec![7]);
    assert_eq!(b.content_type.as_deref(), Some("application/octet-stream"));
    let b = assemble_request_body(Some("binary"), None, Some(vec![]), &vec![], 0).unwrap();
    assert!(b.body.is_none());
}
