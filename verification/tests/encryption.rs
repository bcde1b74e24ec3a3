use fm_tester::encryption::{AesGcmEncryptionService, EncryptionService};

fn service() -> AesGcmEncryptionService {
    let mut key = [0u8; 32];
    for (i, b) in key.iter_mut().enumerate() {
        *b = (i as u8).wrapping_mul(7).wrapping_add(3);
    }
    AesGcmEncryptionService::new(key)
}

#[test]
fn test_encrypt_decrypt() {
    let service = service();
    let plain = "test_secret_password";
    let encrypted = service.encrypt(plain).unwrap();
    assert!(encrypted.contains(':'));
    let decrypted = service.decrypt(&encrypted).unwrap();
    assert_eq!(plain, decrypted);
    let encrypted2 = service.encrypt(plain).unwrap();
    assert_ne!(encrypted, encrypted2);
    let decrypted2 = service.decrypt(&encrypted2).unwrap();
    assert_eq!(plain, decrypted2);
}

#[test]
fn test_invalid_format() {
    let service = service();
    let result = service.decrypt("invalid_format");
    assert!(result.is_err());
    let result = service.decrypt("only_ciphertext");
    assert!(result.is_err());
}

#[test]
fn decrypt_reports_each_failure() {
    let service = service();
    assert_eq!(service.decrypt("a:b:c").unwrap_err(), "无效的加密数据格式");
    assert!(service.decrypt("!!!:AAAA").unwrap_err().starts_with("Nonce Base64 解码失败: "));
    assert!(service.decrypt("AAAA:***").unwrap_err().starts_with("密文 Base64 解码失败: "));
    assert_eq!(service.decrypt("AAAA:AAAA").unwrap_err(), "Nonce 长度错误");
    assert_eq!(service.decrypt("AAAAAAAAAAAAAAAA:AAAAAAAAAAAAAAAAAAAAAA==").unwrap_err(), "解密失败: aead::Error");
}

#[test]
fn encrypt_roundtrips_unicode_and_empty_text() {
    let service = service();
    for plain in ["", "密码 🔑", "a:b"] {
        let e = service.encrypt(plain).unwrap();
        assert_eq!(e.matches(':').count(), 1);
        assert_eq!(service.decrypt(&e).unwrap(), plain);
    }
}

#[test]
fn ciphertext_under_another_key_does_not_open() {
    let e = service().encrypt("secret").unwrap();
    let other = AesGcmEncryptionService::new([9u8; 32]);
    assert_eq!(other.decrypt(&e).unwrap_err(), "解密失败: aead::Error");
}
