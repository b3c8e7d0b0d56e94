//! Encryption of stored and exported data with AES-256-GCM under a key
//! derived by PBKDF2-HMAC-SHA256. A stored value is the hexadecimal of a
//! random 12-byte nonce followed by the ciphertext; exported data is the
//! same pair in base64.
use vstd::prelude::*;
use vstd::string::StringSliceAdditionalSpecFns;
use vstd::utf8::*;
use aes_gcm::aead::{Aead, KeyInit};
use aes_gcm::{Aes256Gcm, Nonce};
use rand::RngCore;
use crate::encryption::codec::{
    base64_decode,
    base64_decode_spec,
    base64_encode,
    base64_encode_spec,
    hex_decode,
    hex_decode_spec,
    hex_encode,
    hex_encode_spec,
    lemma_base64_round_trip,
    lemma_hex_round_trip,
};
use crate::text::{
    chars_of, first_line_with, first_line_with_exec, lines, lines_exec, owned, push_all,
    split_piece, split_piece_exec, string_from_chars, trim, trim_exec,
};

verus! {

broadcast use {vstd::string::group_string_axioms, vstd::utf8::encode_utf8_valid_utf8, vstd::utf8::encode_utf8_decode_utf8};

/// The largest plaintext, in bytes, that AES-GCM accepts (2^36).
pub open spec fn aes_gcm_max_plaintext() -> nat {
    0x10_0000_0000
}

/// The AES-256-GCM ciphertext (with its 16-byte tag) of `plaintext` under
/// `key` and `nonce`, with no associated data, as `aes_gcm` computes it.
pub uninterp spec fn aes256_gcm_seal(key: Seq<u8>, nonce: Seq<u8>, plaintext: Seq<u8>) -> Seq<u8>;

/// What AES-256-GCM decryption of `ciphertext` under `key` and `nonce`
/// gives, with no associated data: the plaintext, or `None` when the tag
/// does not match.
pub uninterp spec fn aes256_gcm_open(key: Seq<u8>, nonce: Seq<u8>, ciphertext: Seq<u8>) -> Option<Seq<u8>>;

/// The 32-byte PBKDF2-HMAC-SHA256 key for `password` and `salt` after
/// `rounds` iterations, as `pbkdf2::pbkdf2_hmac::<Sha256>` computes it.
pub uninterp spec fn pbkdf2_hmac_sha256(password: Seq<u8>, salt: Seq<u8>, rounds: u32) -> Seq<u8>;

/// The message of the error that `String::from_utf8` gives for `bytes`.
pub uninterp spec fn utf8_error_text(bytes: Seq<u8>) -> Seq<char>;

/// `Aes256Gcm::new` with `key`, then `Aead::encrypt` of `plaintext` under
/// `nonce`. The contract claims what the `aes-gcm` source shows: the call
/// fails exactly when the plaintext is longer than 2^36 bytes, with the
/// error whose text is `aead::Error`; otherwise the ciphertext is 16 bytes
/// longer than the plaintext and is a function of key, nonce and plaintext.
#[verifier::external_body]
fn aes_gcm_encrypt(key: &[u8; 32], nonce: &[u8], plaintext: &[u8]) -> (r: Result<Vec<u8>, String>)
    requires
        nonce@.len() == 12,
    ensures
        r is Ok <==> plaintext@.len() <= aes_gcm_max_plaintext(),
        r matches Ok(c) ==> c@ == aes256_gcm_seal(key@, nonce@, plaintext@) && c@.len() == plaintext@.len() + 16,
        r matches Err(e) ==> e@ == "aead::Error"@,
{
    let cipher = Aes256Gcm::new(key.into());
    cipher.encrypt(Nonce::from_slice(nonce), plaintext).map_err(|e| e.to_string())
}

/// `Aes256Gcm::new` with `key`, then `Aead::decrypt` of `ciphertext` under
/// `nonce`. The contract claims that the result is a function of key, nonce
/// and ciphertext, with the error text `aead::Error`, and that a
/// ciphertext that this key and nonce made from a plaintext decrypts to that
/// plaintext: the `aes-gcm` source recomputes the same tag and inverts the
/// same keystream.
#[verifier::external_body]
fn aes_gcm_decrypt(key: &[u8; 32], nonce: &[u8], ciphertext: &[u8]) -> (r: Result<Vec<u8>, String>)
    requires
        nonce@.len() == 12,
    ensures
        r matches Ok(p) ==> aes256_gcm_open(key@, nonce@, ciphertext@) == Some(p@),
        r matches Err(e) ==> aes256_gcm_open(key@, nonce@, ciphertext@) is None && e@ == "aead::Error"@,
        forall|p: Seq<u8>| #![trigger aes256_gcm_seal(key@, nonce@, p)] (p.len() <= aes_gcm_max_plaintext() && ciphertext@ == aes256_gcm_seal(key@, nonce@, p)) ==> (r is Ok && r->Ok_0@ == p),
{
    let cipher = Aes256Gcm::new(key.into());
    cipher.decrypt(Nonce::from_slice(nonce), ciphertext).map_err(|e| e.to_string())
}

/// `rand::thread_rng().fill_bytes` on `n` bytes. Nothing is claimed of the
/// bytes but their number.
#[verifier::external_body]
fn random_bytes(n: usize) -> (v: Vec<u8>)
    ensures
        v@.len() == n,
{
    let mut v = vec![0u8; n];
    rand::thread_rng().fill_bytes(&mut v);
    v
}

/// `pbkdf2::pbkdf2_hmac::<Sha256>` filling 32 bytes. The contract claims
/// that the key is a function of password, salt and round count.
#[verifier::external_body]
fn pbkdf2_sha256_32(password: &[u8], salt: &[u8], rounds: u32) -> (k: [u8; 32])
    ensures
        k@ == pbkdf2_hmac_sha256(password@, salt@, rounds),
{
    let mut key = [0u8; 32];
    pbkdf2::pbkdf2_hmac::<sha2::Sha256>(password, salt, rounds, &mut key);
    key
}

/// `String::from_utf8`, with the error turned into its message. The
/// contract claims what the documentation says: the call succeeds exactly
/// on valid UTF-8 and then holds the decoded characters.
#[verifier::external_body]
pub(crate) fn string_from_utf8(bytes: Vec<u8>) -> (r: Result<String, String>)
    ensures
        r matches Ok(s) ==> valid_utf8(bytes@) && s@ == decode_utf8(bytes@),
        r matches Err(e) ==> !valid_utf8(bytes@) && e@ == utf8_error_text(bytes@),
{
    String::from_utf8(bytes).map_err(|e| e.to_string())
}

/// The password that is used when none is given.
pub open spec fn default_password() -> Seq<char> {
    "omniclip-local-default"@
}

/// The text from which the key is derived: the machine fingerprint, `::`,
/// and the master password or the default one.
pub open spec fn key_material(fingerprint: Seq<char>, master_password: Option<Seq<char>>) -> Seq<char> {
    fingerprint + "::"@ + match master_password {
        Some(p) => p,
        None => default_password(),
    }
}

/// The number of PBKDF2 rounds.
pub open spec fn key_rounds() -> u32 {
    100_000
}

/// Bytes `i..i + n` of `v`, copied.
fn copy_range(v: &[u8], i: usize, n: usize) -> (r: Vec<u8>)
    requires
        i + n <= v.len(),
    ensures
        r@ == v@.subrange(i as int, i + n),
{
    let mut r: Vec<u8> = Vec::new();
    let mut k: usize = 0;
    while k < n
        invariant
            i + n <= v.len(),
            k <= n,
            r@ == v@.subrange(i as int, i + k),
        decreases n - k,
    {
        r.push(v[i + k]);
        k = k + 1;
        assert(r@ =~= v@.subrange(i as int, i + k));
    }
    r
}

/// What `decrypt_string` returns for the UTF-8 bytes `text` of its input.
pub open spec fn decrypt_string_spec(key: Seq<u8>, text: Seq<u8>) -> Result<Seq<char>, Seq<char>> {
    match hex_decode_spec(text) {
        Err(e) => Err(e),
        Ok(data) => if data.len() < 12 {
            Err("Invalid encrypted data"@)
        } else {
            match aes256_gcm_open(key, data.subrange(0, 12), data.subrange(12, data.len() as int)) {
                None => Err("aead::Error"@),
                Some(p) => if valid_utf8(p) {
                    Ok(decode_utf8(p))
                } else {
                    Err(utf8_error_text(p))
                },
            }
        },
    }
}

/// What `decrypt_data_for_import` returns for the UTF-8 bytes `text` of its
/// input.
pub open spec fn decrypt_import_spec(key: Seq<u8>, text: Seq<u8>) -> Result<Seq<u8>, Seq<char>> {
    match base64_decode_spec(text) {
        Err(e) => Err(e),
        Ok(data) => if data.len() < 12 {
            Err("Invalid encrypted import data"@)
        } else {
            match aes256_gcm_open(key, data.subrange(0, 12), data.subrange(12, data.len() as int)) {
                None => Err("aead::Error"@),
                Some(p) => Ok(p),
            }
        },
    }
}

/// A stored value: the hexadecimal of `nonce` followed by the ciphertext of
/// `text` under `key`.
pub open spec fn sealed_text(key: Seq<u8>, nonce: Seq<u8>, text: Seq<char>) -> Seq<char> {
    hex_encode_spec(nonce + aes256_gcm_seal(key, nonce, encode_utf8(text)))
}

/// An exported value: the base64 of `nonce` followed by the ciphertext of
/// `data` under `key`.
pub open spec fn sealed_data(key: Seq<u8>, nonce: Seq<u8>, data: Seq<u8>) -> Seq<char> {
    base64_encode_spec(nonce + aes256_gcm_seal(key, nonce, data))
}

/// An optional text by its characters.
pub open spec fn opt_text(o: Option<String>) -> Option<Seq<char>> {
    match o {
        Some(s) => Some(s@),
        None => None,
    }
}

/// The fingerprint in the output of `wmic csproduct get UUID`.
pub open spec fn wmic_fingerprint(out: Seq<char>) -> Option<Seq<char>> {
    let ls = lines(out);
    let t = if ls.len() > 1 { trim(ls[1]) } else { seq![] };
    if t.len() > 0 {
        Some(t)
    } else {
        None
    }
}

/// The fingerprint in the output of `ioreg -rd1 -c IOPlatformExpertDevice`.
pub open spec fn ioreg_fingerprint(out: Seq<char>) -> Option<Seq<char>> {
    let ls = lines(out);
    let i = first_line_with(ls, "IOPlatformUUID"@);
    if i < ls.len() {
        split_piece(ls[i], '"', 3)
    } else {
        None
    }
}

/// Encrypts and decrypts the application's data with one AES-256-GCM key.
pub struct EncryptionManager {
    key: [u8; 32],
    data_dir: String,
}

impl View for EncryptionManager {
    type V = Seq<u8>;

    /// The key.
    closed spec fn view(&self) -> Seq<u8> {
        self.key@
    }
}

impl EncryptionManager {
    /// A manager that uses `key` and keeps its files in `data_dir`.
    pub fn from_key(key: [u8; 32], data_dir: String) -> (m: Self)
        ensures
            m@ == key@,
            m.data_dir_view() == data_dir@,
    {
        EncryptionManager { key, data_dir }
    }

    /// The directory that holds the salt file.
    pub closed spec fn data_dir_view(&self) -> Seq<char> {
        self.data_dir@
    }

    /// The directory that holds the salt file.
    pub fn data_dir(&self) -> (d: &str)
        ensures
            d@ == self.data_dir_view(),
    {
        self.data_dir.as_str()
    }

    /// The salt kept in the salt file: exactly 16 bytes, or the error that
    /// the file is invalid.
    pub fn salt_from_bytes(bytes: &[u8]) -> (r: Result<[u8; 16], String>)
        ensures
            match r {
                Ok(s) => bytes@.len() == 16 && s@ == bytes@,
                Err(e) => bytes@.len() != 16 && e@ == "Invalid salt file"@,
            },
    {
        if bytes.len() != 16 {
            return Err(owned("Invalid salt file"));
        }
        let mut arr = [0u8; 16];
        let mut i: usize = 0;
        while i < 16
            invariant
                bytes@.len() == 16,
                i <= 16,
                forall|k: int| 0 <= k < i ==> arr@[k] == bytes@[k],
            decreases 16 - i,
        {
            arr[i] = bytes[i];
            i = i + 1;
        }
        assert(arr@ =~= bytes@);
        Ok(arr)
    }

    /// A fresh random salt for a new salt file.
    pub fn generate_salt() -> (s: [u8; 16]) {
        let v = random_bytes(16);
        let mut arr = [0u8; 16];
        let mut i: usize = 0;
        while i < 16
            invariant
                v@.len() == 16,
                i <= 16,
            decreases 16 - i,
        {
            arr[i] = v[i];
            i = i + 1;
        }
        arr
    }

    /// The machine fingerprint from the machine id the system keeps (the
    /// contents of `/etc/machine-id`, where it could be read): that text
    /// trimmed, or a fixed fallback where there is none.
    pub fn machine_fingerprint(machine_id: Option<&str>) -> (f: String)
        ensures
            f@ == match machine_id {
                Some(m) => trim(m@),
                None => "omniclip-fallback-fingerprint"@,
            },
    {
        match machine_id {
            Some(m) => {
                let t = trim_exec(&chars_of(m));
                string_from_chars(&t)
            },
            None => owned("omniclip-fallback-fingerprint"),
        }
    }

    /// The machine fingerprint in the output of `wmic csproduct get UUID`:
    /// its second line, trimmed, where that is not empty.
    pub fn fingerprint_from_wmic(stdout: &str) -> (f: Option<String>)
        ensures
            opt_text(f) == wmic_fingerprint(stdout@),
    {
        let ls = lines_exec(&chars_of(stdout));
        let line = if ls.len() > 1 { trim_exec(&ls[1]) } else { Vec::new() };
        if line.len() > 0 {
            Some(string_from_chars(&line))
        } else {
            None
        }
    }

    /// The machine fingerprint in the output of
    /// `ioreg -rd1 -c IOPlatformExpertDevice`: on the first line that
    /// mentions `IOPlatformUUID`, the fourth piece between double quotes.
    pub fn fingerprint_from_ioreg(stdout: &str) -> (f: Option<String>)
        ensures
            opt_text(f) == ioreg_fingerprint(stdout@),
    {
        let ls = lines_exec(&chars_of(stdout));
        let i = first_line_with_exec(&ls, &chars_of("IOPlatformUUID"));
        if i < ls.len() {
            split_piece_exec(&ls[i], '"', 3)
        } else {
            None
        }
    }

    /// The key derived from the salt, the machine fingerprint and the master
    /// password (or the default password): PBKDF2-HMAC-SHA256 with 100,000
    /// rounds over `fingerprint::password`.
    pub fn derive_key_with_salt(salt: &[u8; 16], fingerprint: &str, master_password: Option<&str>) -> (k: [u8; 32])
        ensures
            k@ == pbkdf2_hmac_sha256(
                encode_utf8(key_material(fingerprint@, match master_password {
                    Some(p) => Some(p@),
                    None => None,
                })),
                salt@,
                key_rounds(),
            ),
    {
        let mut input = owned(fingerprint);
        push_all(&mut input, "::");
        match master_password {
            Some(p) => push_all(&mut input, p),
            None => push_all(&mut input, "omniclip-local-default"),
        }
        pbkdf2_sha256_32(input.as_str().as_bytes(), salt.as_slice(), 100_000)
    }

    /// `plaintext` encrypted under `nonce`, as the hexadecimal of the nonce
    /// followed by the ciphertext; an error only for a plaintext over 2^36
    /// bytes.
    pub fn encrypt_string_with_nonce(&self, plaintext: &str, nonce: &[u8]) -> (r: Result<String, String>)
        requires
            nonce@.len() == 12,
        ensures
            match r {
                Ok(s) => s@ == sealed_text(self@, nonce@, plaintext@)
                    && plaintext.spec_bytes().len() <= aes_gcm_max_plaintext()
                    && s@.len() == 2 * (28 + plaintext.spec_bytes().len()),
                Err(e) => plaintext.spec_bytes().len() > aes_gcm_max_plaintext() && e@ == "aead::Error"@,
            },
    {
        let ct = aes_gcm_encrypt(&self.key, nonce, plaintext.as_bytes())?;
        let mut blob = copy_range(nonce, 0, nonce.len());
        assert(blob@ =~= nonce@);
        let mut ct = ct;
        blob.append(&mut ct);
        Ok(hex_encode(blob.as_slice()))
    }

    /// `plaintext` encrypted under a fresh random nonce, as the hexadecimal of
    /// the nonce followed by the ciphertext; an error only for a plaintext
    /// over 2^36 bytes.
    pub fn encrypt_string(&self, plaintext: &str) -> (r: Result<String, String>)
        ensures
            r is Ok <==> plaintext.spec_bytes().len() <= aes_gcm_max_plaintext(),
            r matches Ok(s) ==> exists|n: Seq<u8>| n.len() == 12 && s@ == #[trigger] sealed_text(self@, n, plaintext@),
            r matches Ok(s) ==> s@.len() == 2 * (28 + plaintext.spec_bytes().len()),
            r matches Err(e) ==> e@ == "aead::Error"@,
    {
        let nonce = random_bytes(12);
        self.encrypt_string_with_nonce(plaintext, nonce.as_slice())
    }

    /// The text that `encrypted` holds: its hexadecimal decoded, the first 12
    /// bytes taken as nonce and the rest decrypted, the result read as UTF-8.
    /// A value that `encrypt_string` made with this key decrypts to the
    /// text it sealed.
    pub fn decrypt_string(&self, encrypted: &str) -> (r: Result<String, String>)
        ensures
            match r {
                Ok(s) => decrypt_string_spec(self@, encrypted.spec_bytes()) == Ok::<Seq<char>, Seq<char>>(s@),
                Err(e) => decrypt_string_spec(self@, encrypted.spec_bytes()) == Err::<Seq<char>, Seq<char>>(e@),
            },
            forall|n: Seq<u8>, p: Seq<char>|
                n.len() == 12 && encode_utf8(p).len() <= aes_gcm_max_plaintext() && encrypted@
                    == #[trigger] sealed_text(self@, n, p) ==> (r matches Ok(s) && s@ == p),
    {
        let r = self.decrypt_string_inner(encrypted);
        proof {
            assert forall|n: Seq<u8>, p: Seq<char>|
                n.len() == 12 && encode_utf8(p).len() <= aes_gcm_max_plaintext() && encrypted@
                    == #[trigger] sealed_text(self@, n, p) implies (r matches Ok(s) && s@ == p) by {
                let ct = aes256_gcm_seal(self@, n, encode_utf8(p));
                lemma_hex_round_trip(n + ct);
                assert((n + ct).subrange(0, 12) =~= n);
                assert((n + ct).subrange(12, (n + ct).len() as int) =~= ct);
            }
        }
        r
    }

    fn decrypt_string_inner(&self, encrypted: &str) -> (r: Result<String, String>)
        ensures
            match r {
                Ok(s) => decrypt_string_spec(self@, encrypted.spec_bytes()) == Ok::<Seq<char>, Seq<char>>(s@),
                Err(e) => decrypt_string_spec(self@, encrypted.spec_bytes()) == Err::<Seq<char>, Seq<char>>(e@),
            },
            forall|n: Seq<u8>, p: Seq<u8>|
                n.len() == 12 && p.len() <= aes_gcm_max_plaintext()
                    && hex_decode_spec(encrypted.spec_bytes()) == Ok::<Seq<u8>, Seq<char>>(n + #[trigger] aes256_gcm_seal(self@, n, p))
                    && valid_utf8(p)
                    ==> (r matches Ok(s) && s@ == decode_utf8(p)),
    {
        let data = hex_decode(encrypted)?;
        if data.len() < 12 {
            let r: Result<String, String> = Err(owned("Invalid encrypted data"));
            proof {
                assert forall|n: Seq<u8>, p: Seq<u8>|
                    n.len() == 12 && p.len() <= aes_gcm_max_plaintext()
                        && hex_decode_spec(encrypted.spec_bytes()) == Ok::<Seq<u8>, Seq<char>>(n + #[trigger] aes256_gcm_seal(self@, n, p))
                        && valid_utf8(p)
                    implies (r matches Ok(s) && s@ == decode_utf8(p)) by {
                    assert(data@ == n + aes256_gcm_seal(self@, n, p));
                }
            }
            return r;
        }
        let nonce = copy_range(data.as_slice(), 0, 12);
        let ct = copy_range(data.as_slice(), 12, data.len() - 12);
        assert(ct@ =~= data@.subrange(12, data@.len() as int));
        let plain = match aes_gcm_decrypt(&self.key, nonce.as_slice(), ct.as_slice()) {
            Ok(p) => p,
            Err(e) => {
                proof {
                    assert forall|n: Seq<u8>, p: Seq<u8>|
                        n.len() == 12 && p.len() <= aes_gcm_max_plaintext()
                            && hex_decode_spec(encrypted.spec_bytes()) == Ok::<Seq<u8>, Seq<char>>(n + #[trigger] aes256_gcm_seal(self@, n, p))
                            && valid_utf8(p)
                        implies false by {
                        let c = aes256_gcm_seal(self@, n, p);
                        assert(data@ == n + c);
                        assert(nonce@ =~= n);
                        assert(ct@ =~= c);
                    }
                }
                return Err(e);
            },
        };
        let r = string_from_utf8(plain);
        proof {
            assert forall|n: Seq<u8>, p: Seq<u8>|
                n.len() == 12 && p.len() <= aes_gcm_max_plaintext()
                    && hex_decode_spec(encrypted.spec_bytes()) == Ok::<Seq<u8>, Seq<char>>(n + #[trigger] aes256_gcm_seal(self@, n, p))
                    && valid_utf8(p)
                implies (r matches Ok(s) && s@ == decode_utf8(p)) by {
                let c = aes256_gcm_seal(self@, n, p);
                        assert(data@ == n + c);
                assert(nonce@ =~= n);
                assert(ct@ =~= c);
            }
        }
        r
    }

    /// `data` encrypted under `nonce` for export, as the base64 of the nonce
    /// followed by the ciphertext; an error only for data over 2^36 bytes.
    pub fn encrypt_data_for_export_with_nonce(&self, data: &[u8], nonce: &[u8]) -> (r: Result<String, String>)
        requires
            nonce@.len() == 12,
        ensures
            match r {
                Ok(s) => s@ == sealed_data(self@, nonce@, data@) && data@.len() <= aes_gcm_max_plaintext(),
                Err(e) => data@.len() > aes_gcm_max_plaintext() && e@ == "aead::Error"@,
            },
    {
        let ct = aes_gcm_encrypt(&self.key, nonce, data)?;
        let mut blob = copy_range(nonce, 0, nonce.len());
        assert(blob@ =~= nonce@);
        let mut ct = ct;
        blob.append(&mut ct);
        Ok(base64_encode(blob.as_slice()))
    }

    /// `data` encrypted under a fresh random nonce for export, as the base64
    /// of the nonce followed by the ciphertext.
    pub fn encrypt_data_for_export(&self, data: &[u8]) -> (r: Result<String, String>)
        ensures
            r is Ok <==> data@.len() <= aes_gcm_max_plaintext(),
            r matches Ok(s) ==> exists|n: Seq<u8>| n.len() == 12 && s@ == #[trigger] sealed_data(self@, n, data@),
            r matches Err(e) ==> e@ == "aead::Error"@,
    {
        let nonce = random_bytes(12);
        self.encrypt_data_for_export_with_nonce(data, nonce.as_slice())
    }

    /// The bytes that an exported value holds: its base64 decoded, the first
    /// 12 bytes taken as nonce and the rest decrypted. A value that
    /// `encrypt_data_for_export` made with this key comes back whole.
    pub fn decrypt_data_for_import(&self, encrypted_b64: &str) -> (r: Result<Vec<u8>, String>)
        ensures
            match r {
                Ok(v) => decrypt_import_spec(self@, encrypted_b64.spec_bytes()) == Ok::<Seq<u8>, Seq<char>>(v@),
                Err(e) => decrypt_import_spec(self@, encrypted_b64.spec_bytes()) == Err::<Seq<u8>, Seq<char>>(e@),
            },
            forall|n: Seq<u8>, d: Seq<u8>|
                n.len() == 12 && d.len() <= aes_gcm_max_plaintext() && encrypted_b64@
                    == #[trigger] sealed_data(self@, n, d)
                    ==> (r matches Ok(v) && v@ == d),
    {
        let data = match base64_decode(encrypted_b64) {
            Ok(d) => d,
            Err(e) => {
                proof {
                    assert forall|n: Seq<u8>, d: Seq<u8>|
                        n.len() == 12 && d.len() <= aes_gcm_max_plaintext() && encrypted_b64@
                            == #[trigger] sealed_data(self@, n, d)
                                implies false by {
                        lemma_base64_round_trip(n + aes256_gcm_seal(self@, n, d));
                    }
                }
                return Err(e);
            },
        };
        if data.len() < 12 {
            let r: Result<Vec<u8>, String> = Err(owned("Invalid encrypted import data"));
            proof {
                assert forall|n: Seq<u8>, d: Seq<u8>|
                    n.len() == 12 && d.len() <= aes_gcm_max_plaintext() && encrypted_b64@
                        == #[trigger] sealed_data(self@, n, d)
                        implies (r matches Ok(v) && v@ == d) by {
                    lemma_base64_round_trip(n + aes256_gcm_seal(self@, n, d));
                }
            }
            return r;
        }
        let nonce = copy_range(data.as_slice(), 0, 12);
        let ct = copy_range(data.as_slice(), 12, data.len() - 12);
        assert(ct@ =~= data@.subrange(12, data@.len() as int));
        let r = aes_gcm_decrypt(&self.key, nonce.as_slice(), ct.as_slice());
        proof {
            assert forall|n: Seq<u8>, d: Seq<u8>|
                n.len() == 12 && d.len() <= aes_gcm_max_plaintext() && encrypted_b64@
                    == #[trigger] sealed_data(self@, n, d)
                implies (r matches Ok(v) && v@ == d) by {
                let c = aes256_gcm_seal(self@, n, d);
                lemma_base64_round_trip(n + c);
                assert(data@ == n + c);
                assert(nonce@ =~= n);
                assert(ct@ =~= c);
            }
        }
        r
    }

    /// The value `old_encrypted` decrypted with this manager's key and
    /// encrypted again under `new_key` and `nonce`.
    pub fn reencrypt_with_nonce(&self, old_encrypted: &str, new_key: &[u8; 32], nonce: &[u8]) -> (r: Result<String, String>)
        requires
            nonce@.len() == 12,
        ensures
            match decrypt_string_spec(self@, old_encrypted.spec_bytes()) {
                Err(e) => r matches Err(f) && f@ == e,
                Ok(p) => if encode_utf8(p).len() <= aes_gcm_max_plaintext() {
                    r matches Ok(s) && s@ == sealed_text(new_key@, nonce@, p)
                } else {
                    r matches Err(f) && f@ == "aead::Error"@
                },
            },
    {
        let decrypted = self.decrypt_string(old_encrypted)?;
        let other = EncryptionManager { key: *new_key, data_dir: String::new() };
        other.encrypt_string_with_nonce(decrypted.as_str(), nonce)
    }

    /// The value `old_encrypted` decrypted with this manager's key and
    /// encrypted again under `new_key` with a fresh random nonce: it then
    /// decrypts under `new_key` to what it decrypted to under the old key.
    pub fn reencrypt_with_new_password(&self, old_encrypted: &str, new_key: &[u8; 32]) -> (r: Result<String, String>)
        ensures
            match decrypt_string_spec(self@, old_encrypted.spec_bytes()) {
                Err(e) => r matches Err(f) && f@ == e,
                Ok(p) => if encode_utf8(p).len() <= aes_gcm_max_plaintext() {
                    r matches Ok(s) && exists|n: Seq<u8>| n.len() == 12 && s@ == #[trigger] sealed_text(new_key@, n, p)
                } else {
                    r matches Err(f) && f@ == "aead::Error"@
                },
            },
    {
        let nonce = random_bytes(12);
        let r = self.reencrypt_with_nonce(old_encrypted, new_key, nonce.as_slice());
        proof {
            if let Ok(p) = decrypt_string_spec(self@, old_encrypted.spec_bytes()) {
                if encode_utf8(p).len() <= aes_gcm_max_plaintext() {
                    assert(sealed_text(new_key@, nonce@, p) == sealed_text(new_key@, nonce@, p));
                }
            }
        }
        r
    }
}

} // verus!
