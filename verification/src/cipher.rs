//! The secret cipher: AES-256-GCM under a key of 32 random bytes. A secret
//! is stored as the base64 text of a nonce of 12 bytes followed by the
//! ciphertext and its tag.

use vstd::prelude::*;
use vstd::slice::{slice_subrange, slice_to_vec};
use vstd::utf8::{decode_utf8, encode_utf8, valid_utf8};
use vstd::utf8::{encode_utf8_decode_utf8, encode_utf8_valid_utf8};
use aes_gcm::aead::{Aead, KeyInit};
use aes_gcm::{Aes256Gcm, Key, Nonce};
use base64::engine::general_purpose::STANDARD;
use base64::Engine;
use rand::RngCore;
use crate::error::CipherError;
use crate::text::{append_bytes, decode_strict};

verus! {

/// The length of a key, in bytes.
pub const KEY_LEN: usize = 32;

/// The length of a nonce, in bytes.
pub const NONCE_LEN: usize = 12;

/// The length of the tag that authenticates a ciphertext, in bytes.
pub const TAG_LEN: usize = 16;

/// The ciphertext and tag that AES-256-GCM makes of a plaintext under a
/// key of 32 bytes and a nonce of 12, with no associated data.
pub uninterp spec fn aes_gcm_seal(key: Seq<u8>, nonce: Seq<u8>, plaintext: Seq<u8>) -> Seq<u8>;

/// The plaintext that AES-256-GCM recovers from a ciphertext and tag under
/// a key of 32 bytes and a nonce of 12, with no associated data; nothing
/// where the tag does not authenticate them.
pub uninterp spec fn aes_gcm_open(key: Seq<u8>, nonce: Seq<u8>, sealed: Seq<u8>) -> Option<Seq<u8>>;

/// The standard base64 text of `data`, with padding.
pub uninterp spec fn base64_encode(data: Seq<u8>) -> Seq<u8>;

/// The bytes that `text` stands for as standard base64 with padding;
/// nothing where it is no such text.
pub uninterp spec fn base64_decode(text: Seq<u8>) -> Option<Seq<u8>>;

/// The error of AES-GCM.
#[verifier::external_type_specification]
#[verifier::external_body]
pub struct ExAeadError(aes_gcm::Error);

/// The error of a base64 decoding.
#[verifier::external_type_specification]
#[verifier::external_body]
pub struct ExDecodeError(base64::DecodeError);

/// The longest plaintext that is encrypted: the limit of AES-GCM, 2^36
/// bytes, or less where the stored text of a longer one could not be
/// addressed on this machine.
pub open spec fn max_plaintext_len() -> int {
    if usize::MAX / 2 - 28 < 0x10_0000_0000 {
        usize::MAX / 2 - 28
    } else {
        0x10_0000_0000
    }
}

/// `Aes256Gcm::encrypt`, on a cipher made of the key by `Aes256Gcm::new`
/// and `Key::from_slice`, with the nonce taken by `Nonce::from_slice`.
/// For a plaintext within the limit of AES-GCM the call succeeds; its
/// result is the plaintext's ciphertext followed by 16 bytes of tag, it is
/// a function of key, nonce and plaintext, and decrypting it under the
/// same key and nonce gives the plaintext back.
#[verifier::external_body]
fn seal(key: &[u8], nonce: &[u8], plaintext: &[u8]) -> (sealed: Result<Vec<u8>, aes_gcm::Error>)
    requires
        key@.len() == KEY_LEN,
        nonce@.len() == NONCE_LEN,
        plaintext@.len() <= max_plaintext_len(),
    ensures
        sealed is Ok,
        sealed matches Ok(bytes) ==> {
            &&& bytes@ == aes_gcm_seal(key@, nonce@, plaintext@)
            &&& bytes@.len() == plaintext@.len() + TAG_LEN
            &&& aes_gcm_open(key@, nonce@, bytes@) == Some(plaintext@)
        },
{
    Aes256Gcm::new(Key::<Aes256Gcm>::from_slice(key)).encrypt(Nonce::from_slice(nonce), plaintext)
}

/// `Aes256Gcm::decrypt`, on a cipher made of the key by `Aes256Gcm::new`
/// and `Key::from_slice`, with the nonce taken by `Nonce::from_slice`.
/// The result is a function of key, nonce and input: the plaintext, or an
/// error where the input does not authenticate.
#[verifier::external_body]
fn open(key: &[u8], nonce: &[u8], sealed: &[u8]) -> (opened: Result<Vec<u8>, aes_gcm::Error>)
    requires
        key@.len() == KEY_LEN,
        nonce@.len() == NONCE_LEN,
    ensures
        match opened {
            Ok(bytes) => aes_gcm_open(key@, nonce@, sealed@) == Some(bytes@),
            Err(_) => aes_gcm_open(key@, nonce@, sealed@) is None,
        },
{
    Aes256Gcm::new(Key::<Aes256Gcm>::from_slice(key)).decrypt(Nonce::from_slice(nonce), sealed)
}

/// `STANDARD.encode`, with the text handed out as bytes. The result is a
/// function of the input, and decoding it gives the input back. The call
/// panics where the length of the text overflows, which the bound on the
/// input excludes.
#[verifier::external_body]
fn to_base64(data: &[u8]) -> (text: Vec<u8>)
    requires
        data@.len() / 3 * 4 + 4 <= usize::MAX,
    ensures
        text@ == base64_encode(data@),
        base64_decode(text@) == Some(data@),
{
    STANDARD.encode(data).into_bytes()
}

/// `STANDARD.decode`. The result is a function of the input: the bytes
/// that it stands for, or an error where it is not standard base64 with
/// padding.
#[verifier::external_body]
fn from_base64(text: &[u8]) -> (data: Result<Vec<u8>, base64::DecodeError>)
    ensures
        match data {
            Ok(bytes) => base64_decode(text@) == Some(bytes@),
            Err(_) => base64_decode(text@) is None,
        },
{
    STANDARD.decode(text)
}

/// `fill_bytes` of the generator that `rand::rng()` hands out, on a fresh
/// buffer of `count` bytes. Nothing is known of the bytes but their
/// number. The call panics where the operating system gives no entropy.
#[verifier::external_body]
fn random_bytes(count: usize) -> (bytes: Vec<u8>)
    ensures
        bytes@.len() == count,
{
    let mut bytes = vec![0u8; count];
    rand::rng().fill_bytes(&mut bytes);
    bytes
}

/// The stored text of a plaintext under `key` and `nonce`.
pub open spec fn sealed_blob(key: Seq<u8>, nonce: Seq<u8>, plaintext: Seq<u8>) -> Seq<u8> {
    base64_encode(nonce + aes_gcm_seal(key, nonce, plaintext))
}

/// What decrypting the stored text `blob` under `key` gives. A blob that
/// is not base64, or decodes to less than a nonce, is `InvalidCiphertext`;
/// one whose ciphertext does not authenticate under its nonce is
/// `DecryptionFailed`; one whose plaintext is not UTF-8 is
/// `EncodingError`.
pub open spec fn opened_blob(key: Seq<u8>, blob: Seq<u8>) -> Result<Seq<char>, CipherError> {
    match base64_decode(blob) {
        None => Err(CipherError::InvalidCiphertext),
        Some(raw) => if raw.len() < NONCE_LEN {
            Err(CipherError::InvalidCiphertext)
        } else {
            match aes_gcm_open(key, raw.take(NONCE_LEN as int), raw.skip(NONCE_LEN as int)) {
                None => Err(CipherError::DecryptionFailed),
                Some(plaintext) => if valid_utf8(plaintext) {
                    Ok(decode_utf8(plaintext))
                } else {
                    Err(CipherError::EncodingError)
                },
            }
        },
    }
}

/// Whether `blob` is what encrypting `plaintext` under `key` and `nonce`
/// hands out: the stored text of the plaintext, which decodes to the nonce
/// followed by the ciphertext and decrypts to the plaintext. The
/// ciphertext is as long as the bytes of the plaintext and has the tag of
/// 16 bytes behind it.
pub open spec fn is_sealed_with(key: Seq<u8>, nonce: Seq<u8>, plaintext: Seq<char>, blob: Seq<u8>) -> bool {
    &&& nonce.len() == NONCE_LEN
    &&& encode_utf8(plaintext).len() <= max_plaintext_len()
    &&& aes_gcm_seal(key, nonce, encode_utf8(plaintext)).len() == encode_utf8(plaintext).len()
        + TAG_LEN
    &&& blob == sealed_blob(key, nonce, encode_utf8(plaintext))
    &&& base64_decode(blob) == Some(nonce + aes_gcm_seal(key, nonce, encode_utf8(plaintext)))
    &&& opened_blob(key, blob) == Ok::<Seq<char>, CipherError>(plaintext)
}

/// Whether `blob` is what encrypting `plaintext` under `key` hands out,
/// under some nonce.
pub open spec fn is_sealed(key: Seq<u8>, plaintext: Seq<char>, blob: Seq<u8>) -> bool {
    exists|nonce: Seq<u8>| #[trigger] is_sealed_with(key, nonce, plaintext, blob)
}

/// Encryptions under one key with nonces that differ give stored texts
/// that differ, whatever is encrypted.
pub proof fn lemma_nonces_tell_blobs_apart(
    key: Seq<u8>,
    first_nonce: Seq<u8>,
    first_plaintext: Seq<char>,
    first: Seq<u8>,
    second_nonce: Seq<u8>,
    second_plaintext: Seq<char>,
    second: Seq<u8>,
)
    requires
        is_sealed_with(key, first_nonce, first_plaintext, first),
        is_sealed_with(key, second_nonce, second_plaintext, second),
        first_nonce != second_nonce,
    ensures
        first != second,
{
    let a = first_nonce + aes_gcm_seal(key, first_nonce, encode_utf8(first_plaintext));
    let b = second_nonce + aes_gcm_seal(key, second_nonce, encode_utf8(second_plaintext));
    if first == second {
        assert(a == b);
        assert(a.take(NONCE_LEN as int) =~= first_nonce);
        assert(b.take(NONCE_LEN as int) =~= second_nonce);
    }
}

/// A stored text that was sealed decrypts to its plaintext, and to no
/// other.
pub proof fn lemma_sealed_opens(key: Seq<u8>, plaintext: Seq<char>, blob: Seq<u8>)
    requires
        is_sealed(key, plaintext, blob),
    ensures
        opened_blob(key, blob) == Ok::<Seq<char>, CipherError>(plaintext),
{
}

/// A stored text that was sealed is base64 of as many bytes as the nonce,
/// the bytes of the plaintext and the tag have together.
pub proof fn lemma_sealed_length(key: Seq<u8>, plaintext: Seq<char>, blob: Seq<u8>)
    requires
        is_sealed(key, plaintext, blob),
    ensures
        base64_decode(blob) matches Some(raw) && raw.len() == NONCE_LEN + encode_utf8(
            plaintext,
        ).len() + TAG_LEN,
{
    let nonce = choose|nonce: Seq<u8>| #[trigger] is_sealed_with(key, nonce, plaintext, blob);
    assert(is_sealed_with(key, nonce, plaintext, blob));
}

/// Decryption hands out a text only for a stored text whose ciphertext
/// authenticates under the nonce that stands before it, and then the text
/// is what the authenticated plaintext encodes.
pub proof fn lemma_text_only_if_authentic(key: Seq<u8>, blob: Seq<u8>, text: Seq<char>)
    requires
        opened_blob(key, blob) == Ok::<Seq<char>, CipherError>(text),
    ensures
        base64_decode(blob) matches Some(raw) && raw.len() >= NONCE_LEN && (aes_gcm_open(
            key,
            raw.take(NONCE_LEN as int),
            raw.skip(NONCE_LEN as int),
        ) matches Some(plaintext) && valid_utf8(plaintext) && decode_utf8(plaintext) == text),
{
}

/// A key for the cipher: 32 random bytes.
///
/// # Panics
///
/// Panics where the operating system gives the random generator no
/// entropy.
pub fn fresh_key() -> (key: Vec<u8>)
    ensures
        key@.len() == KEY_LEN,
{
    random_bytes(KEY_LEN)
}

/// A nonce for one encryption: 12 random bytes.
///
/// # Panics
///
/// Panics where the operating system gives the random generator no
/// entropy.
pub fn fresh_nonce() -> (nonce: Vec<u8>)
    ensures
        nonce@.len() == NONCE_LEN,
{
    random_bytes(NONCE_LEN)
}

/// The cipher with its key.
pub struct SecretCipher {
    key: Vec<u8>,
}

impl SecretCipher {
    /// The key of the cipher.
    pub closed spec fn key(&self) -> Seq<u8> {
        self.key@
    }

    /// The key has the length that AES-256 asks for. Every cipher that
    /// this module hands out is well formed.
    pub open spec fn wf(&self) -> bool {
        self.key().len() == KEY_LEN
    }

    /// The cipher under `key`. Bytes that are not a key, because they
    /// are not 32, are a `KeyIoError`.
    pub fn from_key(key: Vec<u8>) -> (cipher: Result<SecretCipher, CipherError>)
        ensures
            match cipher {
                Ok(c) => key@.len() == KEY_LEN && c.key() == key@ && c.wf(),
                Err(e) => key@.len() != KEY_LEN && e == CipherError::KeyIoError,
            },
    {
        if key.len() == KEY_LEN {
            Ok(SecretCipher { key })
        } else {
            Err(CipherError::KeyIoError)
        }
    }

    /// Tells whether a plaintext of `len` bytes is within the limit.
    fn within_limit(len: usize) -> (ok: bool)
        ensures
            ok == (len <= max_plaintext_len()),
    {
        let machine: usize = usize::MAX / 2 - 28;
        len <= machine && (len as u64) <= 0x10_0000_0000u64
    }

    /// Encrypts `plaintext` under the given nonce. The result is the
    /// stored text: base64 of the nonce followed by the ciphertext. It
    /// fails, with `EncryptionFailed`, exactly where the nonce is not of
    /// 12 bytes or the plaintext is longer than the limit.
    ///
    /// A nonce must never be used twice with one key: `encrypt` draws a
    /// fresh one for each call.
    pub fn encrypt_with_nonce(&self, nonce: &[u8], plaintext: &str) -> (blob: Result<
        Vec<u8>,
        CipherError,
    >)
        requires
            self.wf(),
        ensures
            match blob {
                Ok(text) => is_sealed_with(self.key(), nonce@, plaintext@, text@),
                Err(e) => e == CipherError::EncryptionFailed && (nonce@.len() != NONCE_LEN
                    || encode_utf8(plaintext@).len() > max_plaintext_len()),
            },
    {
        let bytes = plaintext.as_bytes();
        if nonce.len() != NONCE_LEN || !Self::within_limit(bytes.len()) {
            return Err(CipherError::EncryptionFailed);
        }
        match seal(self.key.as_slice(), nonce, bytes) {
            Err(_) => Err(CipherError::EncryptionFailed),
            Ok(sealed) => {
                let mut combined = slice_to_vec(nonce);
                append_bytes(&mut combined, sealed.as_slice());
                let text = to_base64(combined.as_slice());
                proof {
                    assert(combined@.take(NONCE_LEN as int) =~= nonce@);
                    assert(combined@.skip(NONCE_LEN as int) =~= sealed@);
                    encode_utf8_valid_utf8(plaintext@);
                    encode_utf8_decode_utf8(plaintext@);
                }
                Ok(text)
            },
        }
    }

    /// Encrypts `plaintext` under a fresh random nonce. The result
    /// decrypts to the plaintext under this cipher. It fails, with
    /// `EncryptionFailed`, exactly where the plaintext is longer than the
    /// limit.
    ///
    /// # Panics
    ///
    /// Panics where the operating system gives the random generator no
    /// entropy for the nonce.
    pub fn encrypt(&self, plaintext: &str) -> (blob: Result<Vec<u8>, CipherError>)
        requires
            self.wf(),
        ensures
            match blob {
                Ok(text) => is_sealed(self.key(), plaintext@, text@) && opened_blob(
                    self.key(),
                    text@,
                ) == Ok::<Seq<char>, CipherError>(plaintext@),
                Err(e) => e == CipherError::EncryptionFailed && encode_utf8(plaintext@).len()
                    > max_plaintext_len(),
            },
    {
        let nonce = fresh_nonce();
        let blob = self.encrypt_with_nonce(nonce.as_slice(), plaintext);
        proof {
            if blob is Ok {
                assert(is_sealed_with(self.key(), nonce@, plaintext@, blob->Ok_0@));
            }
        }
        blob
    }

    /// Decrypts a stored text. The result is what `opened_blob` says of
    /// it: the plaintext, or the error that tells what is wrong with the
    /// blob.
    pub fn decrypt(&self, blob: &[u8]) -> (plaintext: Result<String, CipherError>)
        requires
            self.wf(),
        ensures
            match plaintext {
                Ok(text) => opened_blob(self.key(), blob@) == Ok::<Seq<char>, CipherError>(text@),
                Err(e) => opened_blob(self.key(), blob@) == Err::<Seq<char>, CipherError>(e),
            },
    {
        let raw = match from_base64(blob) {
            Ok(raw) => raw,
            Err(_) => {
                return Err(CipherError::InvalidCiphertext);
            },
        };
        if raw.len() < NONCE_LEN {
            return Err(CipherError::InvalidCiphertext);
        }
        let nonce = slice_subrange(raw.as_slice(), 0, NONCE_LEN);
        let sealed = slice_subrange(raw.as_slice(), NONCE_LEN, raw.len());
        let bytes = match open(self.key.as_slice(), nonce, sealed) {
            Ok(bytes) => bytes,
            Err(_) => {
                return Err(CipherError::DecryptionFailed);
            },
        };
        match decode_strict(bytes) {
            Ok(text) => Ok(text),
            Err(_) => Err(CipherError::EncodingError),
        }
    }
}

/// What is to be done before the cipher can be used.
#[derive(Clone, Copy, Debug, PartialEq, Eq, Structural)]
pub enum InitStep {
    /// Nothing: the cipher has its key.
    Ready,
    /// Read the key file and adopt what it holds.
    ReadKeyFile,
    /// Draw a fresh key, write it to the key file, then adopt it.
    CreateKeyFile,
}

/// The place of the one cipher of a process. It starts empty, takes the
/// first key that is adopted, and keeps it.
pub struct CipherSlot {
    cipher: Option<SecretCipher>,
}

impl CipherSlot {
    /// The key of the cipher, once one was adopted.
    pub closed spec fn key(&self) -> Option<Seq<u8>> {
        match self.cipher {
            Some(cipher) => Some(cipher.key()),
            None => None,
        }
    }

    /// The key, if there is one, has the length that AES-256 asks for.
    /// Every slot that this module hands out is well formed.
    pub open spec fn wf(&self) -> bool {
        self.key() matches Some(key) ==> key.len() == KEY_LEN
    }

    /// A slot without a cipher.
    pub fn new() -> (slot: CipherSlot)
        ensures
            slot.key() is None,
            slot.wf(),
    {
        CipherSlot { cipher: None }
    }

    /// Tells whether the cipher has its key.
    pub fn is_ready(&self) -> (ready: bool)
        ensures
            ready == self.key().is_some(),
    {
        self.cipher.is_some()
    }

    /// What is to be done before the cipher can be used: nothing once it
    /// has its key; else the key file is read where it exists, and made
    /// where it does not.
    pub fn init_step(&self, key_file_exists: bool) -> (step: InitStep)
        ensures
            step == (if self.key() is Some {
                InitStep::Ready
            } else if key_file_exists {
                InitStep::ReadKeyFile
            } else {
                InitStep::CreateKeyFile
            }),
    {
        if self.cipher.is_some() {
            InitStep::Ready
        } else if key_file_exists {
            InitStep::ReadKeyFile
        } else {
            InitStep::CreateKeyFile
        }
    }

    /// Adopts `key` as the key of the cipher. A slot that has a key keeps
    /// it: the call changes nothing and succeeds. Bytes that are not a
    /// key are a `KeyIoError` and leave the slot empty.
    pub fn adopt(&mut self, key: Vec<u8>) -> (done: Result<(), CipherError>)
        requires
            old(self).wf(),
        ensures
            final(self).wf(),
            old(self).key() is Some ==> done is Ok && final(self).key() == old(self).key(),
            old(self).key() is None && key@.len() == KEY_LEN ==> done is Ok && final(self).key()
                == Some(key@),
            old(self).key() is None && key@.len() != KEY_LEN ==> done == Err::<(), CipherError>(
                CipherError::KeyIoError,
            ) && final(self).key() is None,
    {
        if self.cipher.is_some() {
            return Ok(());
        }
        match SecretCipher::from_key(key) {
            Ok(cipher) => {
                self.cipher = Some(cipher);
                Ok(())
            },
            Err(e) => Err(e),
        }
    }

    /// The cipher, once it has its key.
    pub fn cipher(&self) -> (cipher: Option<&SecretCipher>)
        requires
            self.wf(),
        ensures
            match cipher {
                Some(c) => self.key() == Some(c.key()) && c.wf(),
                None => self.key() is None,
            },
    {
        self.cipher.as_ref()
    }
}

} // verus!
