use aes_gcm::aead::{Aead, KeyInit};
use omniclip::encryption::aes::EncryptionManager;
use omniclip::encryption::codec::{
    base64_char_to_u6, base64_decode, base64_encode, hex_char_to_u4, hex_decode, hex_encode,
};
use omniclip::encryption::digest::hash_content;

#[test]
fn test_content_hash_consistency() {
    let content = "Hello World";
    let hash1 = hash_content(content);
    let hash2 = hash_content(content);
    assert_eq!(hash1, hash2);
}

#[test]
fn test_content_hash_uniqueness() {
    let hash1 = hash_content("Hello World");
    let hash2 = hash_content("Hello World!");
    assert_ne!(hash1, hash2);
}

#[test]
fn hash_is_lowercase_hex_sha256() {
    assert_eq!(
        hash_content("Hello World"),
        "a591a6d40bf420404a011733cfb7b190d62c65bf0bcda32b57b277d9ad9f146e"
    );
    assert_eq!(
        hash_content(""),
        "e3b0c44298fc1c149afbf4c8996fb92427ae41e4649b934ca495991b7852b855"
    );
}

#[test]
fn hex_encode_writes_two_lowercase_digits_per_byte() {
    assert_eq!(hex_encode(&[0x00, 0xab, 0xff, 0x10]), "00abff10");
    assert_eq!(hex_encode(&[]), "");
}

#[test]
fn hex_decode_reads_both_cases() {
    assert_eq!(hex_decode("00abFF10"), Ok(vec![0x00, 0xab, 0xff, 0x10]));
    assert_eq!(hex_decode(""), Ok(vec![]));
}

#[test]
fn hex_decode_errors() {
    assert_eq!(hex_decode("abc"), Err("Invalid hex string".to_string()));
    assert_eq!(hex_decode("0g"), Err("Invalid hex char: g".to_string()));
    assert_eq!(hex_char_to_u4(b'7'), Ok(7));
    assert_eq!(hex_char_to_u4(b'c'), Ok(12));
    assert_eq!(hex_char_to_u4(b'D'), Ok(13));
    assert_eq!(hex_char_to_u4(b'z'), Err("Invalid hex char: z".to_string()));
}

#[test]
fn hex_round_trip() {
    let data: Vec<u8> = (0..=255u8).collect();
    assert_eq!(hex_decode(&hex_encode(&data)), Ok(data));
}

#[test]
fn base64_encode_pads_short_groups() {
    assert_eq!(base64_encode(b"Man"), "TWFu");
    assert_eq!(base64_encode(b"Ma"), "TWE=");
    assert_eq!(base64_encode(b"M"), "TQ==");
    assert_eq!(base64_encode(b"hello"), "aGVsbG8=");
    assert_eq!(base64_encode(b""), "");
}

#[test]
fn base64_decode_inverts_encode() {
    assert_eq!(base64_decode("TWFu"), Ok(b"Man".to_vec()));
    assert_eq!(base64_decode("TWE="), Ok(b"Ma".to_vec()));
    assert_eq!(base64_decode("TQ=="), Ok(b"M".to_vec()));
    assert_eq!(base64_decode("aGVsbG8="), Ok(b"hello".to_vec()));
    assert_eq!(base64_decode(&base64_encode(&[0x00, 0x01])), Ok(vec![0x00, 0x01]));
    let data: Vec<u8> = (0..=255u8).rev().collect();
    for n in 0..data.len() {
        assert_eq!(base64_decode(&base64_encode(&data[..n])), Ok(data[..n].to_vec()));
    }
}

#[test]
fn base64_decode_errors() {
    assert_eq!(base64_decode("T"), Err("Invalid base64".to_string()));
    assert_eq!(base64_decode("TW!u"), Err("Invalid base64 char: !".to_string()));
    assert_eq!(base64_char_to_u6(b'A'), Ok(0));
    assert_eq!(base64_char_to_u6(b'z'), Ok(51));
    assert_eq!(base64_char_to_u6(b'9'), Ok(61));
    assert_eq!(base64_char_to_u6(b'+'), Ok(62));
    assert_eq!(base64_char_to_u6(b'/'), Ok(63));
    assert_eq!(base64_char_to_u6(b'-'), Err("Invalid base64 char: -".to_string()));
}

fn manager(byte: u8) -> EncryptionManager {
    EncryptionManager::from_key([byte; 32], "/tmp/omniclip".to_string())
}

#[test]
fn encrypt_then_decrypt_gives_the_text_back() {
    let m = manager(7);
    for text in ["hello", "", "你好，世界", "line\nbreak"] {
        let sealed = m.encrypt_string(text).unwrap();
        assert_eq!(sealed.len(), 2 * (12 + text.len() + 16));
        assert_eq!(m.decrypt_string(&sealed), Ok(text.to_string()));
    }
}

#[test]
fn encryption_with_a_fixed_nonce_is_deterministic() {
    let m = manager(1);
    let nonce = [3u8; 12];
    let a = m.encrypt_string_with_nonce("abc", &nonce).unwrap();
    let b = m.encrypt_string_with_nonce("abc", &nonce).unwrap();
    assert_eq!(a, b);
    assert!(a.starts_with("030303030303030303030303"));
    assert_ne!(a, m.encrypt_string_with_nonce("abd", &nonce).unwrap());
}

#[test]
fn decrypt_errors() {
    let m = manager(7);
    assert_eq!(m.decrypt_string("xyz"), Err("Invalid hex string".to_string()));
    assert_eq!(m.decrypt_string("00ff"), Err("Invalid encrypted data".to_string()));
    let sealed = m.encrypt_string("secret").unwrap();
    assert_eq!(manager(8).decrypt_string(&sealed), Err("aead::Error".to_string()));
}

#[test]
fn reencrypt_moves_a_text_to_the_new_key() {
    let old = manager(1);
    let new_key = [2u8; 32];
    let sealed = old.encrypt_string("moved").unwrap();
    let resealed = old.reencrypt_with_new_password(&sealed, &new_key).unwrap();
    assert_eq!(manager(2).decrypt_string(&resealed), Ok("moved".to_string()));
    assert!(old.reencrypt_with_new_password("zz", &new_key).is_err());
}

#[test]
fn export_encryption_uses_base64() {
    let m = manager(4);
    let blob = m.encrypt_data_for_export_with_nonce(b"{}", &[0u8; 12]).unwrap();
    assert_eq!(blob.len(), 4 * ((12 + 2 + 16 + 2) / 3));
    assert!(blob.starts_with("AAAAAAAAAAAAAAAA"));
    assert_eq!(m.decrypt_data_for_import("AAAA"), Err("Invalid encrypted import data".to_string()));
    assert_eq!(m.decrypt_data_for_import("A"), Err("Invalid base64".to_string()));
}

#[test]
fn an_export_imports_again() {
    let m = manager(4);
    let data = b"{\"records\":[]}";
    let blob = m.encrypt_data_for_export_with_nonce(data, &[9u8; 12]).unwrap();
    assert_eq!(m.decrypt_data_for_import(&blob), Ok(data.to_vec()));
    let blob = m.encrypt_data_for_export(b"any bytes \x00\xff").unwrap();
    assert_eq!(m.decrypt_data_for_import(&blob), Ok(b"any bytes \x00\xff".to_vec()));
    assert_eq!(manager(5).decrypt_data_for_import(&blob), Err("aead::Error".to_string()));
}

#[test]
fn salt_must_be_sixteen_bytes() {
    assert_eq!(EncryptionManager::salt_from_bytes(&[5u8; 16]), Ok([5u8; 16]));
    assert_eq!(EncryptionManager::salt_from_bytes(&[5u8; 15]), Err("Invalid salt file".to_string()));
    assert_eq!(EncryptionManager::generate_salt().len(), 16);
}

#[test]
fn key_derivation_depends_on_every_input() {
    let salt = [1u8; 16];
    let k1 = EncryptionManager::derive_key_with_salt(&salt, "machine", None);
    let k2 = EncryptionManager::derive_key_with_salt(&salt, "machine", None);
    assert_eq!(k1, k2);
    assert_ne!(k1, EncryptionManager::derive_key_with_salt(&salt, "machine", Some("pw")));
    assert_ne!(k1, EncryptionManager::derive_key_with_salt(&[2u8; 16], "machine", None));
    assert_eq!(
        k1,
        EncryptionManager::derive_key_with_salt(&salt, "machine", Some("omniclip-local-default"))
    );
}

#[test]
fn machine_fingerprint_trims_or_falls_back() {
    assert_eq!(EncryptionManager::machine_fingerprint(Some("  abc123\n")), "abc123");
    assert_eq!(EncryptionManager::machine_fingerprint(None), "omniclip-fallback-fingerprint");
}

#[test]
fn manager_keeps_its_directory() {
    assert_eq!(manager(0).data_dir(), "/tmp/omniclip");
}

#[test]
fn fingerprint_from_command_output() {
    let wmic = "UUID  \r\n4C4C4544-0042-3510-8052-B4C04F333232  \r\n\r\n";
    assert_eq!(
        EncryptionManager::fingerprint_from_wmic(wmic),
        Some("4C4C4544-0042-3510-8052-B4C04F333232".to_string())
    );
    assert_eq!(EncryptionManager::fingerprint_from_wmic("UUID\r\n\r\n"), None);
    assert_eq!(EncryptionManager::fingerprint_from_wmic(""), None);
    let ioreg = "+-o Mac  <class IOPlatformExpertDevice>\n  {\n    \"IOPlatformUUID\" = \"A1B2C3\"\n  }\n";
    assert_eq!(EncryptionManager::fingerprint_from_ioreg(ioreg), Some("A1B2C3".to_string()));
    assert_eq!(EncryptionManager::fingerprint_from_ioreg("\"IOPlatformUUID\" = x\n"), None);
    assert_eq!(EncryptionManager::fingerprint_from_ioreg("nothing here"), None);
}

#[test]
fn decrypted_bytes_must_be_utf8() {
    let key = [7u8; 32];
    let cipher = aes_gcm::Aes256Gcm::new(&key.into());
    let nonce = [1u8; 12];
    let sealed = cipher.encrypt(aes_gcm::Nonce::from_slice(&nonce), &[0xffu8, 0x41][..]).unwrap();
    let mut blob = nonce.to_vec();
    blob.extend_from_slice(&sealed);
    let text = hex_encode(&blob);
    assert_eq!(
        manager(7).decrypt_string(&text),
        Err("invalid utf-8 sequence of 1 bytes from index 0".to_string())
    );
}
