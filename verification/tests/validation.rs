use fm_tester::validation::{validate_date_format, validate_filename, validate_id};

#[test]
fn test_validate_id_valid() {
    assert!(validate_id("abc123").is_ok());
    assert!(validate_id("test_id").is_ok());
    assert!(validate_id("test-id").is_ok());
    assert!(validate_id("ABC_123-xyz").is_ok());
}

#[test]
fn test_validate_id_empty() {
    assert!(validate_id("").is_err());
    assert!(validate_id("").unwrap_err().contains("ID 不能为空"));
}

#[test]
fn test_validate_id_too_long() {
    let long_id = "a".repeat(256);
    assert!(validate_id(&long_id).is_err());
    assert!(validate_id(&long_id).unwrap_err().contains("长度超过限制"));
}

#[test]
fn test_validate_id_path_traversal() {
    assert!(validate_id("../etc/passwd").is_err());
    assert!(validate_id("test/../file").is_err());
    assert!(validate_id("test\\file").is_err());
    assert!(validate_id("test/file").is_err());
    assert!(validate_id("test\0file").is_err());
}

#[test]
fn test_validate_id_invalid_chars() {
    assert!(validate_id("test@file").is_err());
    assert!(validate_id("test file").is_err());
    assert!(validate_id("test.file").is_err());
    assert!(validate_id("test#file").is_err());
}

#[test]
fn test_validate_date_format_valid() {
    assert!(validate_date_format("2024-01-01").is_ok());
    assert!(validate_date_format("2024-12-31").is_ok());
    assert!(validate_date_format("2000-02-29").is_ok());
}

#[test]
fn test_validate_date_format_invalid_format() {
    assert!(validate_date_format("2024/01/01").is_err());
    assert!(validate_date_format("01-01-2024").is_err());
    assert!(validate_date_format("2024-1-1").is_err());
    assert!(validate_date_format("2024-01-01 00:00:00").is_err());
}

#[test]
fn test_validate_date_format_invalid_range() {
    assert!(validate_date_format("2024-13-01").is_err());
    assert!(validate_date_format("2024-01-32").is_err());
    assert!(validate_date_format("2024-00-01").is_err());
    assert!(validate_date_format("1899-01-01").is_err());
    assert!(validate_date_format("2101-01-01").is_err());
}

#[test]
fn test_validate_filename_valid() {
    assert!(validate_filename("test.toml").is_ok());
    assert!(validate_filename("test.js").is_ok());
    assert!(validate_filename("test.json").is_ok());
    assert!(validate_filename("test.md").is_ok());
    assert!(validate_filename("test_file-123.toml").is_ok());
}

#[test]
fn test_validate_filename_empty() {
    assert!(validate_filename("").is_err());
    assert!(validate_filename("").unwrap_err().contains("文件名不能为空"));
}

#[test]
fn test_validate_filename_too_long() {
    let long_name = format!("{}.toml", "a".repeat(251));
    assert!(validate_filename(&long_name).is_err());
    assert!(validate_filename(&long_name).unwrap_err().contains("长度超过限制"));
}

#[test]
fn test_validate_filename_path_traversal() {
    assert!(validate_filename("../test.toml").is_err());
    assert!(validate_filename("test/../file.toml").is_err());
    assert!(validate_filename("test\\file.toml").is_err());
    assert!(validate_filename("test/file.toml").is_err());
    assert!(validate_filename("test\0file.toml").is_err());
}

#[test]
fn test_validate_filename_invalid_extension() {
    assert!(validate_filename("test.txt").is_err());
    assert!(validate_filename("test.exe").is_err());
    assert!(validate_filename("test").is_err());
    assert!(validate_filename("test.").is_err());
}

#[test]
fn test_validate_filename_invalid_chars() {
    assert!(validate_filename("test@file.toml").is_err());
    assert!(validate_filename("test file.toml").is_err());
    assert!(validate_filename("test#file.toml").is_err());
}

#[test]
fn validate_date_format_accepts_leap_day_only_in_leap_years() {
    assert!(validate_date_format("2024-02-29").is_ok());
    assert!(validate_date_format("2023-02-29").is_err());
    assert!(validate_date_format("1900-02-29").is_err());
    assert!(validate_date_format("2023-04-31").is_err());
    assert!(validate_date_format("1900-01-01").is_ok());
    assert!(validate_date_format("2100-12-31").is_ok());
}

#[test]
fn filename_needs_an_extension() {
    for bare in ["js", "md", "toml", "json", "readme"] {
        assert_eq!(validate_filename(bare).unwrap_err(), "不支持的文件扩展名（仅允许: [\"toml\", \"js\", \"json\", \"md\"]）");
    }
    assert!(validate_filename(".js").is_ok());
    assert!(validate_filename("a.b.md").is_ok());
}
