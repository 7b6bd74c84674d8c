use base64::Engine;
use git_switcher::{Profile, Error, TokenCrypto};
use sha2::Digest;

fn profile() -> Profile {
    Profile {
        name: "Hong".to_string(),
        email: "hong@company.com".to_string(),
        signingkey: None,
        ssh_key: None,
        github_username: Some("hong".to_string()),
        encrypted_pat: None,
    }
}

#[test]
fn build_key_is_sha256_of_build_info_and_secret() {
    let key = TokenCrypto::get_build_key();
    let expected = sha2::Sha256::digest(b"git-switcher0.1.0src/utils/crypto.rs17git-switcher-secret");
    assert_eq!(key.len(), 32);
    assert_eq!(key, expected.to_vec());
}

#[test]
fn encrypt_then_decrypt_gives_token_back() {
    let token = "SECRET-REDACTED";
    let enc = TokenCrypto::encrypt_token(token).unwrap();
    assert_ne!(enc, token);
    assert_eq!(TokenCrypto::decrypt_token(&enc).unwrap(), token);
}

#[test]
fn encrypt_with_nonce_lays_out_nonce_then_ciphertext() {
    let nonce = [7u8; 12];
    let token = "ghp_secret";
    let enc = TokenCrypto::encrypt_token_with_nonce(token, &nonce).unwrap();
    let raw = base64::engine::general_purpose::STANDARD.decode(&enc).unwrap();
    assert_eq!(&raw[..12], &nonce);
    assert_eq!(raw.len(), 12 + token.len() + 16);
    assert_ne!(&raw[12..12 + token.len()], token.as_bytes());
    assert_eq!(TokenCrypto::encrypt_token_with_nonce(token, &nonce).unwrap(), enc);
    assert_eq!(TokenCrypto::decrypt_token(&enc).unwrap(), token);
}

#[test]
fn encrypt_with_nonce_of_unicode_token() {
    let nonce = [1u8; 12];
    let enc = TokenCrypto::encrypt_token_with_nonce("토큰-🔑", &nonce).unwrap();
    assert_eq!(TokenCrypto::decrypt_token(&enc).unwrap(), "토큰-🔑");
}

fn other_message(r: Result<String, Error>) -> String {
    match r {
        Err(Error::Other(m)) => m,
        _ => panic!("expected an Other error"),
    }
}

#[test]
fn decrypt_rejects_non_base64() {
    let m = other_message(TokenCrypto::decrypt_token("not base64 !!"));
    let detail = base64::engine::general_purpose::STANDARD
        .decode("not base64 !!")
        .unwrap_err()
        .to_string();
    assert_eq!(m, format!("토큰 디코딩 실패: {}", detail));
}

#[test]
fn decrypt_of_empty_text_is_a_format_error() {
    let m = other_message(TokenCrypto::decrypt_token(""));
    assert_eq!(m, "잘못된 암호화 데이터 형식");
}

#[test]
fn decrypt_decoded_rejects_short_data() {
    let m = other_message(TokenCrypto::decrypt_decoded(&[0u8; 11]));
    assert_eq!(m, "잘못된 암호화 데이터 형식");
}

#[test]
fn decrypt_decoded_rejects_wrong_tag() {
    let m = other_message(TokenCrypto::decrypt_decoded(&[0u8; 40]));
    assert_eq!(m, "토큰 복호화 실패: aead::Error");
}

#[test]
fn decrypt_decoded_of_sealed_bytes_gives_token() {
    let enc = TokenCrypto::encrypt_token_with_nonce("ghp_xyz", &[9u8; 12]).unwrap();
    let raw = base64::engine::general_purpose::STANDARD.decode(&enc).unwrap();
    assert_eq!(TokenCrypto::decrypt_decoded(&raw).unwrap(), "ghp_xyz");
}

#[test]
fn encode_sealed_is_standard_base64_of_both_parts() {
    assert_eq!(TokenCrypto::encode_sealed(b"Ma", b"n"), "TWFu");
    assert_eq!(TokenCrypto::encode_sealed(b"", b"f"), "Zg==");
    assert_eq!(TokenCrypto::encode_sealed(b"fo", b""), "Zm8=");
    assert_eq!(TokenCrypto::encode_sealed(b"foo", b"bar"), "Zm9vYmFy");
    assert_eq!(TokenCrypto::encode_sealed(b"", b""), "");
}

#[test]
fn encrypted_token_decodes_to_nonce_and_longer_ciphertext() {
    let token = "ghp_abcdefgh1234";
    let enc = TokenCrypto::encrypt_token(token).unwrap();
    let raw = base64::engine::general_purpose::STANDARD.decode(&enc).unwrap();
    assert_eq!(raw.len(), 12 + token.len() + 16);
    assert!(enc.len() > token.len());
}

#[test]
fn decrypt_rejects_short_data() {
    let short = base64::engine::general_purpose::STANDARD.encode([1u8, 2, 3, 4, 5]);
    let m = other_message(TokenCrypto::decrypt_token(&short));
    assert_eq!(m, "잘못된 암호화 데이터 형식");
}

#[test]
fn decrypt_rejects_tampered_ciphertext() {
    let enc = TokenCrypto::encrypt_token_with_nonce("ghp_secret", &[3u8; 12]).unwrap();
    let mut raw = base64::engine::general_purpose::STANDARD.decode(&enc).unwrap();
    raw[13] ^= 0x01;
    let tampered = base64::engine::general_purpose::STANDARD.encode(&raw);
    let m = other_message(TokenCrypto::decrypt_token(&tampered));
    assert_eq!(m, "토큰 복호화 실패: aead::Error");
}

#[test]
fn validate_github_pat_accepts_github_prefixes() {
    for t in ["ghp_x", "gho_x", "ghu_x", "ghs_x", "ghr_x", "github_pat_x"] {
        assert!(TokenCrypto::validate_github_pat(t), "{}", t);
    }
    for t in ["", "ghp", "gh_x", "xghp_x", "GHP_x", "github_x"] {
        assert!(!TokenCrypto::validate_github_pat(t), "{}", t);
    }
}

#[test]
fn mask_token_keeps_four_bytes_at_each_end() {
    assert_eq!(TokenCrypto::mask_token("ghp_abcdefgh1234"), "ghp_***1234");
    assert_eq!(TokenCrypto::mask_token("123456789"), "1234***6789");
}

#[test]
fn mask_token_hides_short_tokens_entirely() {
    assert_eq!(TokenCrypto::mask_token(""), "");
    assert_eq!(TokenCrypto::mask_token("abc"), "***");
    assert_eq!(TokenCrypto::mask_token("12345678"), "********");
    assert_eq!(TokenCrypto::mask_token("한"), "***");
}

#[test]
fn can_mask_checks_character_boundaries() {
    assert!(TokenCrypto::can_mask("ghp_abcdefgh1234"));
    assert!(TokenCrypto::can_mask("한글"));
    assert!(!TokenCrypto::can_mask("ab한글한글cd"));
    assert!(TokenCrypto::can_mask("a한b한"));
    assert_eq!(TokenCrypto::mask_token("a한b한"), "********");
    assert!(TokenCrypto::can_mask("a한b한c"));
    assert_eq!(TokenCrypto::mask_token("a한b한c"), "a한***한c");
}

#[test]
fn set_then_get_decrypted_pat() {
    let mut p = profile();
    assert!(p.get_decrypted_pat().unwrap().is_none());
    assert!(p.get_masked_pat_checked().is_none());
    p.set_encrypted_pat("ghp_abcdefgh1234").unwrap();
    assert!(p.has_pat());
    assert_eq!(p.get_decrypted_pat().unwrap().as_deref(), Some("ghp_abcdefgh1234"));
    assert_eq!(p.get_masked_pat().as_deref(), Some("ghp_***1234"));
    assert_eq!(p.get_masked_pat_checked().as_deref(), Some("ghp_***1234"));
    assert_eq!(p.name, "Hong");
    let stored = p.encrypted_pat.clone().unwrap();
    assert_ne!(stored, "ghp_abcdefgh1234");
    let raw = base64::engine::general_purpose::STANDARD.decode(&stored).unwrap();
    assert_eq!(raw.len(), 12 + "ghp_abcdefgh1234".len() + 16);
}

#[test]
fn masked_pat_of_undecryptable_token_is_none() {
    let mut p = profile();
    p.encrypted_pat = Some("garbage".to_string());
    assert!(p.get_decrypted_pat().is_err());
    assert!(p.get_masked_pat().is_none());
    assert!(p.get_masked_pat_checked().is_none());
}

#[test]
fn checked_mask_refuses_tokens_that_would_be_cut() {
    let mut p = profile();
    p.set_encrypted_pat("ab한글한글cd").unwrap();
    assert!(p.get_masked_pat_checked().is_none());
}

#[test]
fn masks_agree_when_length_and_ends_agree() {
    assert_eq!(TokenCrypto::mask_token("ghp_aaaa1234"), TokenCrypto::mask_token("ghp_bbbb1234"));
    assert_eq!(TokenCrypto::mask_token("abcdefgh"), TokenCrypto::mask_token("zyxwvuts"));
    assert_ne!(TokenCrypto::mask_token("ghp_aaaa1234"), TokenCrypto::mask_token("ghp_aaaa1235"));
}
