//! Encryption, decryption, format checking and masking of access tokens.
//!
//! A stored token is the standard base64 text of a 12-byte nonce followed by
//! the AES-256-GCM ciphertext of the token's UTF-8 bytes, under a key derived
//! with SHA-256 from fixed text.
use vstd::prelude::*;
use vstd::string::*;
use vstd::utf8::*;

use aes_gcm::aead::{Aead, AeadCore, KeyInit, OsRng};
use aes_gcm::{Aes256Gcm, Key, Nonce};
use sha2::Digest;

use crate::b64::{
    base64_decode, base64_decode_error, base64_decode_standard, base64_encode,
    base64_encode_standard, lemma_base64_encode_len,
    lemma_base64_round_trip,
};
use crate::config::Profile;
use crate::error::Error;
use crate::text::{starts_with, str_starts_with};

verus! {

broadcast use vstd::utf8::group_utf8_lib;

/// The SHA-256 digest of `data`.
pub uninterp spec fn sha256(data: Seq<u8>) -> Seq<u8>;

/// The AES-256-GCM ciphertext, tag included, of `plaintext` under `key` and
/// `nonce`, with no associated data.
pub uninterp spec fn aes256gcm_seal(key: Seq<u8>, nonce: Seq<u8>, plaintext: Seq<u8>) -> Seq<u8>;

/// The AES-256-GCM decryption of `ciphertext` under `key` and `nonce`, with no
/// associated data; nothing when the ciphertext does not authenticate.
pub uninterp spec fn aes256gcm_open(key: Seq<u8>, nonce: Seq<u8>, ciphertext: Seq<u8>) -> Option<
    Seq<u8>,
>;

/// The text of the error that `String::from_utf8` gives for `bytes`.
pub uninterp spec fn utf8_error_text(bytes: Seq<u8>) -> Seq<char>;

/// The longest plaintext that AES-GCM accepts, in bytes.
pub open spec fn aes_gcm_max_plaintext() -> int {
    0x10_0000_0000
}

/// The length of a nonce, in bytes.
pub open spec fn nonce_len() -> int {
    12
}

/// The text of every error of the AES-GCM cipher.
pub open spec fn aead_error_text() -> Seq<char> {
    "aead::Error"@
}

/// Calls `sha2::Sha256::digest`, which returns the 32-byte SHA-256 digest of
/// `data`.
#[verifier::external_body]
fn sha256_digest(data: &[u8]) -> (d: Vec<u8>)
    ensures
        d@ == sha256(data@),
        d@.len() == 32,
{
    sha2::Sha256::digest(data).to_vec()
}

/// Calls `Aes256Gcm::generate_nonce` with the operating system's random number
/// generator, which fills 12 bytes with random values.
#[verifier::external_body]
fn random_nonce() -> (n: Vec<u8>)
    ensures
        n@.len() == nonce_len(),
{
    Aes256Gcm::generate_nonce(&mut OsRng).to_vec()
}

/// Calls `Aead::encrypt` of an `Aes256Gcm` made from `key` (`KeyInit::new`).
/// It fails, with the text `aead::Error`, exactly when the plaintext is longer
/// than `P_MAX`; its ciphertext is 16 bytes longer than the plaintext and
/// decrypts back to it.
#[verifier::external_body]
fn aes256gcm_encrypt(key: &[u8], nonce: &[u8], plaintext: &[u8]) -> (r: Result<Vec<u8>, String>)
    requires
        key@.len() == 32,
        nonce@.len() == nonce_len(),
    ensures
        r is Ok <==> plaintext@.len() <= aes_gcm_max_plaintext(),
        r matches Ok(c) ==> c@ == aes256gcm_seal(key@, nonce@, plaintext@) && c@.len()
            == plaintext@.len() + 16 && aes256gcm_open(key@, nonce@, c@) == Some(plaintext@),
        r matches Err(m) ==> m@ == aead_error_text(),
{
    match Aes256Gcm::new(Key::<Aes256Gcm>::from_slice(key)).encrypt(Nonce::from_slice(nonce), plaintext) {
        Ok(c) => Ok(c),
        Err(e) => Err(e.to_string()),
    }
}

/// Calls `Aead::decrypt` of an `Aes256Gcm` made from `key` (`KeyInit::new`).
/// It fails, with the text `aead::Error`, when the ciphertext does not
/// authenticate.
#[verifier::external_body]
fn aes256gcm_decrypt(key: &[u8], nonce: &[u8], ciphertext: &[u8]) -> (r: Result<Vec<u8>, String>)
    requires
        key@.len() == 32,
        nonce@.len() == nonce_len(),
    ensures
        r is Ok <==> aes256gcm_open(key@, nonce@, ciphertext@) is Some,
        r matches Ok(p) ==> aes256gcm_open(key@, nonce@, ciphertext@) == Some(p@),
        r matches Err(m) ==> m@ == aead_error_text(),
{
    match Aes256Gcm::new(Key::<Aes256Gcm>::from_slice(key)).decrypt(Nonce::from_slice(nonce), ciphertext) {
        Ok(p) => Ok(p),
        Err(e) => Err(e.to_string()),
    }
}

/// Calls `String::from_utf8`, which fails exactly when the bytes are not UTF-8
/// and otherwise holds the characters they encode.
#[verifier::external_body]
fn string_from_utf8(bytes: Vec<u8>) -> (r: Result<String, String>)
    ensures
        r is Ok <==> valid_utf8(bytes@),
        r matches Ok(s) ==> s@ == decode_utf8(bytes@),
        r matches Err(m) ==> m@ == utf8_error_text(bytes@),
{
    match String::from_utf8(bytes) {
        Ok(s) => Ok(s),
        Err(e) => Err(e.to_string()),
    }
}

/// The fixed text from which the encryption key is derived, together with a
/// fixed secret; every build derives the same key from it.
pub open spec fn build_info() -> Seq<char> {
    "git-switcher0.1.0src/utils/crypto.rs17"@
}

/// The encryption key: the SHA-256 digest of the UTF-8 bytes of the build
/// information followed by those of a fixed secret.
pub open spec fn build_key() -> Seq<u8> {
    sha256(encode_utf8(build_info()) + encode_utf8("git-switcher-secret"@))
}

/// `a` followed by `b`.
fn concat_bytes(a: &[u8], b: &[u8]) -> (r: Vec<u8>)
    ensures
        r@ == a@ + b@,
{
    let mut r: Vec<u8> = Vec::new();
    let mut i: usize = 0;
    while i < a.len()
        invariant
            i <= a@.len(),
            r@ == a@.take(i as int),
        decreases a@.len() - i,
    {
        r.push(a[i]);
        i += 1;
        assert(r@ =~= a@.take(i as int));
    }
    let mut j: usize = 0;
    assert(a@.take(a@.len() as int) =~= a@);
    while j < b.len()
        invariant
            j <= b@.len(),
            r@ == a@ + b@.take(j as int),
        decreases b@.len() - j,
    {
        r.push(b[j]);
        j += 1;
        assert(r@ =~= a@ + b@.take(j as int));
    }
    assert(b@.take(b@.len() as int) =~= b@);
    r
}

/// The bytes of `v` from `from` up to `to`.
fn byte_range(v: &[u8], from: usize, to: usize) -> (r: Vec<u8>)
    requires
        from <= to <= v@.len(),
    ensures
        r@ == v@.subrange(from as int, to as int),
{
    let mut r: Vec<u8> = Vec::new();
    let mut i = from;
    while i < to
        invariant
            from <= i <= to,
            to <= v@.len(),
            r@ == v@.subrange(from as int, i as int),
        decreases to - i,
    {
        r.push(v[i]);
        i += 1;
        assert(r@ =~= v@.subrange(from as int, i as int));
    }
    r
}

/// `prefix` followed by `rest`.
fn text_with_prefix(prefix: &str, rest: &str) -> (r: String)
    ensures
        r@ == prefix@ + rest@,
{
    let mut r = prefix.to_owned();
    r.append(rest);
    r
}

/// The ciphertext of `token` under `nonce`.
pub open spec fn sealed_bytes(token: Seq<char>, nonce: Seq<u8>) -> Seq<u8> {
    aes256gcm_seal(build_key(), nonce, encode_utf8(token))
}

/// The stored form of `token` under `nonce`: the base64 text of the nonce
/// followed by the ciphertext.
pub open spec fn sealed_token(token: Seq<char>, nonce: Seq<u8>) -> Seq<char> {
    base64_encode(nonce + sealed_bytes(token, nonce))
}

/// The message of an encryption failure.
pub open spec fn encrypt_error_message() -> Seq<char> {
    "토큰 암호화 실패: "@ + aead_error_text()
}

/// What decrypting the decoded bytes `data` gives: the token, or the message
/// of the failure.
pub open spec fn decrypt_decoded_outcome(data: Seq<u8>) -> Result<Seq<char>, Seq<char>> {
    if data.len() < nonce_len() {
        Err("잘못된 암호화 데이터 형식"@)
    } else {
        match aes256gcm_open(build_key(), data.take(nonce_len()), data.skip(nonce_len())) {
            None => Err("토큰 복호화 실패: "@ + aead_error_text()),
            Some(plain) => if valid_utf8(plain) {
                Ok(decode_utf8(plain))
            } else {
                Err("토큰 문자열 변환 실패: "@ + utf8_error_text(plain))
            },
        }
    }
}

/// What decrypting the stored text `enc` gives: the token, or the message of
/// the failure.
pub open spec fn decrypt_outcome(enc: Seq<char>) -> Result<Seq<char>, Seq<char>> {
    match base64_decode(enc) {
        None => Err("토큰 디코딩 실패: "@ + base64_decode_error(enc)),
        Some(data) => decrypt_decoded_outcome(data),
    }
}

/// The stored text of a token is longer than the token: it never holds the
/// token in the clear.
pub proof fn lemma_sealed_token_longer(token: Seq<char>, nonce: Seq<u8>)
    requires
        nonce.len() == nonce_len(),
        sealed_bytes(token, nonce).len() == encode_utf8(token).len() + 16,
    ensures
        sealed_token(token, nonce).len() > token.len(),
        sealed_token(token, nonce) != token,
{
    lemma_encode_utf8_len(token);
    lemma_base64_encode_len(nonce + sealed_bytes(token, nonce));
}

/// A UTF-8 encoding has at least one byte per character.
proof fn lemma_encode_utf8_len(t: Seq<char>)
    ensures
        encode_utf8(t).len() >= t.len(),
    decreases t.len(),
{
    if t.len() > 0 {
        lemma_encode_utf8_len(t.drop_first());
    }
}

/// The number of bytes in the UTF-8 encoding of `t`.
pub open spec fn byte_len(t: Seq<char>) -> int {
    encode_utf8(t).len() as int
}

/// Masking `t` does not cut a character: it is at most 8 bytes long, or its
/// first and last 4 bytes end and start at character boundaries.
pub open spec fn maskable(t: Seq<char>) -> bool {
    let b = encode_utf8(t);
    b.len() <= 8 || (is_char_boundary(b, 4) && is_char_boundary(b, b.len() - 4))
}

/// `t` masked: one `*` per byte when it is at most 8 bytes long, otherwise its
/// first 4 bytes, `***` and its last 4 bytes.
pub open spec fn masked(t: Seq<char>) -> Seq<char> {
    let b = encode_utf8(t);
    if b.len() <= 8 {
        Seq::new(b.len(), |i: int| '*')
    } else {
        decode_utf8(b.subrange(0, 4)) + "***"@ + decode_utf8(b.subrange(b.len() - 4, b.len() as int))
    }
}

/// A mask shows nothing of a token but its length in bytes and, above 8
/// bytes, its first and last 4 bytes: tokens that agree on those get the
/// same mask.
pub proof fn lemma_mask_reveals_only_ends(t1: Seq<char>, t2: Seq<char>)
    requires
        byte_len(t1) == byte_len(t2),
        byte_len(t1) > 8 ==> {
            let b1 = encode_utf8(t1);
            let b2 = encode_utf8(t2);
            &&& b1.subrange(0, 4) == b2.subrange(0, 4)
            &&& b1.subrange(b1.len() - 4, b1.len() as int) == b2.subrange(
                b2.len() - 4,
                b2.len() as int,
            )
        },
    ensures
        masked(t1) == masked(t2),
{
    assert(masked(t1) =~= masked(t2));
}

/// The token prefixes that GitHub issues.
pub open spec fn has_github_pat_prefix(t: Seq<char>) -> bool {
    ||| starts_with(t, "ghp_"@)
    ||| starts_with(t, "gho_"@)
    ||| starts_with(t, "ghu_"@)
    ||| starts_with(t, "ghs_"@)
    ||| starts_with(t, "ghr_"@)
    ||| starts_with(t, "github_pat_"@)
}

/// The UTF-8 encoding of two texts one after the other is their encodings
/// one after the other.
proof fn lemma_encode_utf8_concat(a: Seq<char>, b: Seq<char>)
    ensures
        encode_utf8(a + b) == encode_utf8(a) + encode_utf8(b),
    decreases a.len(),
{
    if a.len() == 0 {
        assert(a + b =~= b);
        assert(encode_utf8(a) + encode_utf8(b) =~= encode_utf8(b));
    } else {
        assert((a + b)[0] == a[0]);
        assert((a + b).drop_first() =~= a.drop_first() + b);
        lemma_encode_utf8_concat(a.drop_first(), b);
        assert(encode_scalar(a[0] as u32) + (encode_utf8(a.drop_first()) + encode_utf8(b))
            =~= encode_scalar(a[0] as u32) + encode_utf8(a.drop_first()) + encode_utf8(b));
    }
}

/// The mask of a token of at most 8 bytes is one `*` per byte; that of a
/// longer token, whatever its length, is its first 4 bytes, `***` and its
/// last 4 bytes.
pub proof fn lemma_mask_shape(t: Seq<char>)
    requires
        maskable(t),
    ensures
        byte_len(t) <= 8 ==> masked(t).len() == byte_len(t) && forall|i: int|
            0 <= i < masked(t).len() ==> masked(t)[i] == '*',
        byte_len(t) > 8 ==> encode_utf8(masked(t)) == encode_utf8(t).take(4) + encode_utf8(
            "***"@,
        ) + encode_utf8(t).skip(byte_len(t) - 4),
{
    let b = encode_utf8(t);
    let n = b.len() as int;
    if n > 8 {
        valid_utf8_split(b, 4);
        valid_utf8_split(b, n - 4);
        let b1 = b.subrange(0, 4);
        let b2 = b.subrange(n - 4, n);
        decode_utf8_encode_utf8(b1);
        decode_utf8_encode_utf8(b2);
        let d1 = decode_utf8(b1);
        let d2 = decode_utf8(b2);
        lemma_encode_utf8_concat(d1, "***"@);
        lemma_encode_utf8_concat(d1 + "***"@, d2);
        assert(b1 =~= b.take(4));
        assert(b2 =~= b.skip(n - 4));
    }
}

/// Whether a token is accepted depends only on how it begins: each of
/// `ghp_`, `gho_`, `ghu_`, `ghs_`, `ghr_` and `github_pat_` followed by
/// anything at all is accepted, an accepted token stays accepted whatever
/// follows it, and every accepted token is one of those prefixes followed by
/// the rest of it.
pub proof fn lemma_github_pat_prefix_only(t: Seq<char>, rest: Seq<char>)
    ensures
        has_github_pat_prefix("ghp_"@ + rest),
        has_github_pat_prefix("gho_"@ + rest),
        has_github_pat_prefix("ghu_"@ + rest),
        has_github_pat_prefix("ghs_"@ + rest),
        has_github_pat_prefix("ghr_"@ + rest),
        has_github_pat_prefix("github_pat_"@ + rest),
        has_github_pat_prefix(t) ==> has_github_pat_prefix(t + rest),
        has_github_pat_prefix(t) ==> {
            ||| t == "ghp_"@ + t.skip(4)
            ||| t == "gho_"@ + t.skip(4)
            ||| t == "ghu_"@ + t.skip(4)
            ||| t == "ghs_"@ + t.skip(4)
            ||| t == "ghr_"@ + t.skip(4)
            ||| t == "github_pat_"@ + t.skip(11)
        },
{
    reveal_strlit("ghp_");
    reveal_strlit("gho_");
    reveal_strlit("ghu_");
    reveal_strlit("ghs_");
    reveal_strlit("ghr_");
    reveal_strlit("github_pat_");
    assert(("ghp_"@ + rest).subrange(0, 4) =~= "ghp_"@);
    assert(("gho_"@ + rest).subrange(0, 4) =~= "gho_"@);
    assert(("ghu_"@ + rest).subrange(0, 4) =~= "ghu_"@);
    assert(("ghs_"@ + rest).subrange(0, 4) =~= "ghs_"@);
    assert(("ghr_"@ + rest).subrange(0, 4) =~= "ghr_"@);
    assert(("github_pat_"@ + rest).subrange(0, 11) =~= "github_pat_"@);
    if has_github_pat_prefix(t) {
        let k: int = if starts_with(t, "github_pat_"@) { 11 } else { 4 };
        assert((t + rest).subrange(0, k) =~= t.subrange(0, k));
        assert(t =~= t.subrange(0, k) + t.skip(k));
    }
}

/// Key derivation, encryption, decryption, format check and masking of tokens.
pub struct TokenCrypto;

impl TokenCrypto {
    /// The encryption key.
    pub fn get_build_key() -> (key: Vec<u8>)
        ensures
            key@ == build_key(),
            key@.len() == 32,
    {
        let info = "git-switcher0.1.0src/utils/crypto.rs17";
        let secret = "git-switcher-secret";
        let material = concat_bytes(info.as_bytes(), secret.as_bytes());
        sha256_digest(material.as_slice())
    }

    /// The stored text of `nonce` followed by `ciphertext`.
    pub fn encode_sealed(nonce: &[u8], ciphertext: &[u8]) -> (s: String)
        ensures
            s@ == base64_encode(nonce@ + ciphertext@),
            base64_decode(s@) == Some(nonce@ + ciphertext@),
    {
        let data = concat_bytes(nonce, ciphertext);
        proof {
            lemma_base64_round_trip(data@);
        }
        base64_encode_standard(data.as_slice())
    }

    /// `token` encrypted under `nonce` and encoded for storage.
    pub fn encrypt_token_with_nonce(token: &str, nonce: &[u8]) -> (r: Result<String, Error>)
        requires
            nonce@.len() == nonce_len(),
        ensures
            r is Ok <==> byte_len(token@) <= aes_gcm_max_plaintext(),
            match r {
                Ok(s) => {
                    &&& s@ == sealed_token(token@, nonce@)
                    &&& sealed_bytes(token@, nonce@).len() == byte_len(token@) + 16
                    &&& base64_decode(s@) == Some(nonce@ + sealed_bytes(token@, nonce@))
                    &&& decrypt_outcome(s@) == Ok::<Seq<char>, Seq<char>>(token@)
                },
                Err(e) => e matches Error::Other(m) && m@ == encrypt_error_message(),
            },
    {
        let key = Self::get_build_key();
        let plain = token.as_bytes();
        match aes256gcm_encrypt(key.as_slice(), nonce, plain) {
            Err(detail) => Err(Error::Other(text_with_prefix("토큰 암호화 실패: ", detail.as_str()))),
            Ok(ct) => {
                let s = Self::encode_sealed(nonce, ct.as_slice());
                proof {
                    let data = nonce@ + ct@;
                    assert(data.take(nonce_len()) =~= nonce@);
                    assert(data.skip(nonce_len()) =~= ct@);
                }
                Ok(s)
            },
        }
    }

    /// `token` encrypted under a fresh random nonce and encoded for storage.
    pub fn encrypt_token(token: &str) -> (r: Result<String, Error>)
        ensures
            r is Ok <==> byte_len(token@) <= aes_gcm_max_plaintext(),
            match r {
                Ok(s) => {
                    &&& exists|n: Seq<u8>|
                        {
                            &&& n.len() == nonce_len()
                            &&& s@ == #[trigger] sealed_token(token@, n)
                            &&& sealed_bytes(token@, n).len() == byte_len(token@) + 16
                            &&& base64_decode(s@) == Some(n + sealed_bytes(token@, n))
                        }
                    &&& decrypt_outcome(s@) == Ok::<Seq<char>, Seq<char>>(token@)
                },
                Err(e) => e matches Error::Other(m) && m@ == encrypt_error_message(),
            },
    {
        let nonce = random_nonce();
        Self::encrypt_token_with_nonce(token, nonce.as_slice())
    }

    /// The token held by `data`: a 12-byte nonce followed by the ciphertext.
    pub fn decrypt_decoded(data: &[u8]) -> (r: Result<String, Error>)
        ensures
            match r {
                Ok(s) => decrypt_decoded_outcome(data@) == Ok::<Seq<char>, Seq<char>>(s@),
                Err(e) => e matches Error::Other(m) && decrypt_decoded_outcome(data@) == Err::<
                    Seq<char>,
                    Seq<char>,
                >(m@),
            },
    {
        let key = Self::get_build_key();
        if data.len() < 12 {
            return Err(Error::Other("잘못된 암호화 데이터 형식".to_owned()));
        }
        let nonce = byte_range(data, 0, 12);
        let ciphertext = byte_range(data, 12, data.len());
        assert(nonce@ =~= data@.take(nonce_len()));
        assert(ciphertext@ =~= data@.skip(nonce_len()));
        let plain = match aes256gcm_decrypt(key.as_slice(), nonce.as_slice(), ciphertext.as_slice()) {
            Ok(p) => p,
            Err(detail) => {
                return Err(Error::Other(text_with_prefix("토큰 복호화 실패: ", detail.as_str())));
            },
        };
        match string_from_utf8(plain) {
            Ok(s) => Ok(s),
            Err(detail) => Err(Error::Other(text_with_prefix("토큰 문자열 변환 실패: ", detail.as_str()))),
        }
    }

    /// The token that the stored text `encrypted_token` holds.
    pub fn decrypt_token(encrypted_token: &str) -> (r: Result<String, Error>)
        ensures
            match r {
                Ok(s) => decrypt_outcome(encrypted_token@) == Ok::<Seq<char>, Seq<char>>(s@),
                Err(e) => e matches Error::Other(m) && decrypt_outcome(encrypted_token@) == Err::<
                    Seq<char>,
                    Seq<char>,
                >(m@),
            },
    {
        match base64_decode_standard(encrypted_token) {
            Ok(data) => {
                proof {
                    lemma_base64_round_trip(data@);
                }
                Self::decrypt_decoded(data.as_slice())
            },
            Err(detail) => Err(Error::Other(text_with_prefix("토큰 디코딩 실패: ", detail.as_str()))),
        }
    }

    /// Whether `token` has the prefix of a GitHub personal access token.
    pub fn validate_github_pat(token: &str) -> (r: bool)
        ensures
            r == has_github_pat_prefix(token@),
    {
        str_starts_with(token, "ghp_") || str_starts_with(token, "gho_") || str_starts_with(
            token,
            "ghu_",
        ) || str_starts_with(token, "ghs_") || str_starts_with(token, "ghr_") || str_starts_with(
            token,
            "github_pat_",
        )
    }

    /// Whether `token` can be masked without cutting a character.
    pub fn can_mask(token: &str) -> (r: bool)
        ensures
            r == maskable(token@),
    {
        let n = token.as_bytes().len();
        n <= 8 || (token.is_char_boundary(4) && token.is_char_boundary(n - 4))
    }

    /// `token` with all but its first and last 4 bytes hidden, or wholly
    /// hidden when it is at most 8 bytes long.
    pub fn mask_token(token: &str) -> (m: String)
        requires
            maskable(token@),
        ensures
            m@ == masked(token@),
    {
        let n = token.as_bytes().len();
        proof {
            reveal_strlit("***");
        }
        if n <= 8 {
            let mut m = String::new();
            let mut i: usize = 0;
            while i < n
                invariant
                    i <= n,
                    m@ == Seq::new(i as nat, |k: int| '*'),
                decreases n - i,
            {
                proof {
                    reveal_strlit("*");
                }
                m.append("*");
                i += 1;
                assert(m@ =~= Seq::new(i as nat, |k: int| '*'));
            }
            m
        } else {
            let (head, _) = token.split_at(4);
            let (_, tail) = token.split_at(n - 4);
            let mut m = head.to_owned();
            m.append("***");
            m.append(tail);
            m
        }
    }
}


impl Profile {
    /// The stored token, decrypted.
    pub fn get_decrypted_pat(&self) -> (r: Result<Option<String>, Error>)
        ensures
            match self.encrypted_pat {
                None => r matches Ok(None),
                Some(enc) => match r {
                    Ok(Some(s)) => decrypt_outcome(enc@) == Ok::<Seq<char>, Seq<char>>(s@),
                    Ok(None) => false,
                    Err(e) => e matches Error::Other(m) && decrypt_outcome(enc@) == Err::<
                        Seq<char>,
                        Seq<char>,
                    >(m@),
                },
            },
    {
        match &self.encrypted_pat {
            Some(enc) => {
                let t = TokenCrypto::decrypt_token(enc.as_str())?;
                Ok(Some(t))
            },
            None => Ok(None),
        }
    }

    /// Encrypts `pat` and stores it; on failure the profile is unchanged.
    pub fn set_encrypted_pat(&mut self, pat: &str) -> (r: Result<(), Error>)
        ensures
            r is Ok <==> byte_len(pat@) <= aes_gcm_max_plaintext(),
            match r {
                Ok(()) => {
                    &&& final(self).encrypted_pat matches Some(s) && {
                        &&& decrypt_outcome(s@) == Ok::<Seq<char>, Seq<char>>(pat@)
                        &&& s@ != pat@
                        &&& exists|n: Seq<u8>|
                            {
                                &&& n.len() == nonce_len()
                                &&& s@ == #[trigger] sealed_token(pat@, n)
                                &&& sealed_bytes(pat@, n).len() == byte_len(pat@) + 16
                                &&& base64_decode(s@) == Some(n + sealed_bytes(pat@, n))
                            }
                    }
                    &&& final(self).name == old(self).name
                    &&& final(self).email == old(self).email
                    &&& final(self).signingkey == old(self).signingkey
                    &&& final(self).ssh_key == old(self).ssh_key
                    &&& final(self).github_username == old(self).github_username
                },
                Err(e) => *final(self) == *old(self) && (e matches Error::Other(m) && m@
                    == encrypt_error_message()),
            },
    {
        let encrypted = TokenCrypto::encrypt_token(pat)?;
        proof {
            let n = choose|n: Seq<u8>|
                {
                    &&& n.len() == nonce_len()
                    &&& encrypted@ == #[trigger] sealed_token(pat@, n)
                    &&& sealed_bytes(pat@, n).len() == byte_len(pat@) + 16
                    &&& base64_decode(encrypted@) == Some(n + sealed_bytes(pat@, n))
                };
            lemma_sealed_token_longer(pat@, n);
        }
        self.encrypted_pat = Some(encrypted);
        Ok(())
    }

    /// The stored token, decrypted and masked; nothing when there is none or
    /// it does not decrypt.
    pub fn get_masked_pat(&self) -> (r: Option<String>)
        requires
            self.encrypted_pat matches Some(enc) ==> (decrypt_outcome(enc@) matches Ok(t)
                ==> maskable(t)),
        ensures
            match self.encrypted_pat {
                Some(enc) => match decrypt_outcome(enc@) {
                    Ok(t) => r matches Some(m) && m@ == masked(t),
                    Err(_) => r is None,
                },
                None => r is None,
            },
    {
        if let Ok(Some(pat)) = self.get_decrypted_pat() {
            Some(TokenCrypto::mask_token(pat.as_str()))
        } else {
            None
        }
    }

    /// The stored token, decrypted and masked; nothing when there is none, it
    /// does not decrypt, or masking it would cut a character.
    pub fn get_masked_pat_checked(&self) -> (r: Option<String>)
        ensures
            match self.encrypted_pat {
                Some(enc) => match decrypt_outcome(enc@) {
                    Ok(t) => if maskable(t) {
                        r matches Some(m) && m@ == masked(t)
                    } else {
                        r is None
                    },
                    Err(_) => r is None,
                },
                None => r is None,
            },
    {
        match self.get_decrypted_pat() {
            Ok(Some(pat)) => {
                if TokenCrypto::can_mask(pat.as_str()) {
                    self.get_masked_pat()
                } else {
                    None
                }
            },
            _ => None,
        }
    }
}

} // verus!
