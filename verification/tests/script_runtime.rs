use fm_tester::script_runtime::{generate_uuid_v4, hex_encode, hmac_md5, md5_hex, JsRuntimeExecutor as J, SandboxConfig};

#[test]
fn url_parts() {
    assert_eq!(J::extract_base_url("https://api.x.com/v1/users?id=1"), "https://api.x.com");
    assert_eq!(J::extract_path("https://api.x.com/v1/users?id=1"), "/v1/users?id=1");
    assert_eq!(J::extract_base_url("https://api.x.com"), "https://api.x.com");
    assert_eq!(J::extract_path("https://api.x.com"), "/");
    assert_eq!(J::extract_base_url("/only/path"), "");
    assert_eq!(J::extract_path("/only/path"), "/only/path");
    assert_eq!(J::extract_base_url("localhost:8080/api"), "localhost:8080");
    assert_eq!(J::extract_base_url("host//x/y"), "host//x");
    assert_eq!(J::extract_base_url(""), "");
    assert_eq!(J::build_url("https://h", "a/b"), "https://h/a/b");
    assert_eq!(J::build_url("https://h", "/a"), "https://h/a");
    assert_eq!(J::build_url("", "/a"), "/a");
    assert_eq!(J::build_url("https://h", ""), "https://h");
}

#[test]
fn url_rebuilds_from_its_parts() {
    for u in ["https://api.x.com/v1/users", "/p", "host/x", "https://h"] {
        let rebuilt = J::build_url(&J::extract_base_url(u), &J::extract_path(u));
        if u == "https://h" {
            assert_eq!(rebuilt, "https://h/");
        } else {
            assert_eq!(rebuilt, u);
        }
    }
}

#[test]
fn digests() {
    assert_eq!(hex_encode(&[0, 15, 255]), "000fff");
    assert_eq!(md5_hex(""), "d41d8cd98f00b204e9800998ecf8427e");
    assert_eq!(md5_hex("abc"), "900150983cd24fb0d6963f7d28e17f72");
    let mac = hmac_md5(b"key", b"The quick brown fox jumps over the lazy dog");
    assert_eq!(hex_encode(&mac), "80070713463e7749b90c2dc24911e275");
    let long_key = [0xaau8; 80];
    let mac = hmac_md5(&long_key, b"Test Using Larger Than Block-Size Key - Hash Key First");
    assert_eq!(hex_encode(&mac), "6b1ab7fe4bd7bf8f0b62e6ce61b9d0cd");
}

#[test]
fn uuids_are_version_4() {
    let a = generate_uuid_v4();
    let b = generate_uuid_v4();
    assert_ne!(a, b);
    assert_eq!(a.len(), 36);
    assert_eq!(&a[14..15], "4");
    assert!(matches!(&a[19..20], "8" | "9" | "a" | "b"));
    assert_eq!(a.matches('-').count(), 4);
}

#[test]
fn sandbox_defaults() {
    let c = SandboxConfig::default();
    assert_eq!(c.memory_limit, 10 * 1024 * 1024);
    assert_eq!(c.cpu_timeout_ms, 300_000);
}
