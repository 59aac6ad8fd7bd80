//! The master key and authenticated encryption of secret values.

use crate::text::trimmed;
use base64::Engine;
use chacha20poly1305::aead::{Aead, KeyInit};
use rand::RngCore;
use vstd::prelude::*;
use vstd::utf8::{decode_utf8, encode_utf8, valid_utf8};

verus! {

/// Bytes in a key.
pub const KEY_LEN: usize = 32;

/// Bytes in a nonce.
pub const NONCE_LEN: usize = 12;

/// The most bytes that one nonce encrypts: 64 for each block that the cipher's 32-bit
/// counter reaches after the block that makes the authentication key.
pub const SEAL_LIMIT: u64 = 274877906816;

/// A buffer of bytes that `zeroize` wipes when it is dropped.
#[verifier::external_body]
#[derive(Debug)]
pub struct WipedBytes {
    inner: zeroize::Zeroizing<Vec<u8>>,
}

/// The bytes in a wiped-on-drop buffer.
pub uninterp spec fn held_bytes(buffer: WipedBytes) -> Seq<u8>;

/// Moves bytes into a wiped-on-drop buffer (`zeroize::Zeroizing::new`), which then holds them.
#[verifier::external_body]
fn guard(bytes: Vec<u8>) -> (r: WipedBytes)
    ensures
        held_bytes(r) == bytes@,
{
    WipedBytes { inner: zeroize::Zeroizing::new(bytes) }
}

/// The bytes of a wiped-on-drop buffer, through the `Deref` of `zeroize::Zeroizing`.
#[verifier::external_body]
fn exposed(buffer: &WipedBytes) -> (r: &Vec<u8>)
    ensures
        r@ == held_bytes(*buffer),
{
    &buffer.inner
}

/// Draws bytes from the thread's random generator (`rand::RngCore::fill_bytes` on
/// `rand::thread_rng`). Any bytes may come out.
#[verifier::external_body]
pub(crate) fn random_bytes(len: usize) -> (r: Vec<u8>)
    ensures
        r@.len() == len,
{
    let mut bytes = vec![0_u8; len];
    rand::thread_rng().fill_bytes(&mut bytes);
    bytes
}

/// The standard Base64 text of bytes, as the `base64` crate writes it.
pub uninterp spec fn base64_text(bytes: Seq<u8>) -> Seq<char>;

/// What the `base64` crate reads in a standard Base64 text: the bytes, or its message.
pub uninterp spec fn base64_read(text: Seq<char>) -> Result<Seq<u8>, Seq<char>>;

/// A reading that succeeded with the given bytes.
pub open spec fn decoded(bytes: Seq<u8>) -> Result<Seq<u8>, Seq<char>> {
    Ok(bytes)
}

/// The letters of standard Base64 texts.
pub open spec fn base64_letter(c: char) -> bool {
    ||| 'A' <= c <= 'Z'
    ||| 'a' <= c <= 'z'
    ||| '0' <= c <= '9'
    ||| c == '+'
    ||| c == '/'
    ||| c == '='
}

/// The length of the Base64 text of a number of bytes: four letters for each three bytes
/// begun.
pub open spec fn base64_len(count: nat) -> nat {
    (count + 2) / 3 * 4
}

/// Encodes bytes with the standard engine of the `base64` crate (`Engine::encode`), whose
/// own decoder gives the bytes back. The text has four letters of the standard alphabet for
/// each three bytes begun, and has to fit in memory.
#[verifier::external_body]
pub(crate) fn encode_base64(bytes: &Vec<u8>) -> (r: String)
    requires
        base64_len(bytes@.len()) <= isize::MAX,
    ensures
        r@ == base64_text(bytes@),
        base64_read(r@) == decoded(bytes@),
        r@.len() == base64_len(bytes@.len()),
        forall|i: int| 0 <= i < r@.len() ==> base64_letter(#[trigger] r@[i]),
{
    base64::engine::general_purpose::STANDARD.encode(bytes)
}

/// A text of Base64 letters has nothing to trim.
pub proof fn lemma_letters_stay(text: Seq<char>)
    requires
        forall|i: int| 0 <= i < text.len() ==> base64_letter(#[trigger] text[i]),
    ensures
        trimmed(text) == text,
{
    if text.len() > 0 {
        assert(base64_letter(text[0]));
        assert(base64_letter(text[text.len() - 1]));
    }
}

/// Decodes a text with the standard engine of the `base64` crate (`Engine::decode`); the
/// error is the decoder's message.
#[verifier::external_body]
pub(crate) fn decode_base64(text: &str) -> (r: Result<Vec<u8>, String>)
    ensures
        match r {
            Ok(bytes) => (base64_read(text@) matches Ok(read) && read == bytes@),
            Err(message) => (base64_read(text@) matches Err(said) && said == message@),
        },
{
    base64::engine::general_purpose::STANDARD.decode(text).map_err(|err| err.to_string())
}

/// What ChaCha20-Poly1305 makes of a plaintext under a key and a nonce.
pub uninterp spec fn sealed(key: Seq<u8>, nonce: Seq<u8>, plaintext: Seq<u8>) -> Seq<u8>;

/// The plaintext that ChaCha20-Poly1305 opens a ciphertext to, when the ciphertext is
/// authentic.
pub uninterp spec fn opened(key: Seq<u8>, nonce: Seq<u8>, ciphertext: Seq<u8>) -> Option<Seq<u8>>;

/// Encrypts with `chacha20poly1305`'s `ChaCha20Poly1305` (`Aead::encrypt`). Within the
/// length limit it succeeds, adds a tag of 16 bytes, and what it makes opens again under the
/// same key and nonce.
#[verifier::external_body]
fn seal(key: &Vec<u8>, nonce: &Vec<u8>, plaintext: &[u8]) -> (r: Option<Vec<u8>>)
    requires
        key@.len() == KEY_LEN,
        nonce@.len() == NONCE_LEN,
        plaintext@.len() <= SEAL_LIMIT,
    ensures
        match r {
            Some(ciphertext) => {
                &&& ciphertext@ == sealed(key@, nonce@, plaintext@)
                &&& ciphertext@.len() == plaintext@.len() + 16
                &&& opened(key@, nonce@, ciphertext@) == Some(plaintext@)
            },
            None => false,
        },
{
    let cipher = chacha20poly1305::ChaCha20Poly1305::new(chacha20poly1305::Key::from_slice(key));
    cipher.encrypt(chacha20poly1305::Nonce::from_slice(nonce), plaintext).ok()
}

/// Decrypts with `chacha20poly1305`'s `ChaCha20Poly1305` (`Aead::decrypt`).
#[verifier::external_body]
fn open(key: &Vec<u8>, nonce: &[u8], ciphertext: &[u8]) -> (r: Option<Vec<u8>>)
    requires
        key@.len() == KEY_LEN,
        nonce@.len() == NONCE_LEN,
        ciphertext@.len() <= SEAL_LIMIT + 16,
    ensures
        match r {
            Some(plaintext) => opened(key@, nonce@, ciphertext@) == Some(plaintext@),
            None => opened(key@, nonce@, ciphertext@) is None,
        },
{
    let cipher = chacha20poly1305::ChaCha20Poly1305::new(chacha20poly1305::Key::from_slice(key));
    cipher.decrypt(chacha20poly1305::Nonce::from_slice(nonce), ciphertext).ok()
}

/// Turns bytes into text with `String::from_utf8`, which succeeds exactly on UTF-8.
#[verifier::external_body]
fn utf8_text(bytes: Vec<u8>) -> (r: Option<String>)
    ensures
        match r {
            Some(text) => valid_utf8(bytes@) && text@ == decode_utf8(bytes@),
            None => !valid_utf8(bytes@),
        },
{
    String::from_utf8(bytes).ok()
}

/// What can go wrong with keys and encrypted values.
#[derive(Debug, Clone, PartialEq, Eq)]
pub enum CryptoError {
    /// A value could not be encrypted.
    Encrypt,
    /// A value could not be decrypted.
    Decrypt,
    /// A key has the wrong length.
    InvalidKey,
    /// A nonce has the wrong length.
    InvalidNonce,
    /// There is no configuration directory.
    ConfigDir,
    /// The system keyring failed.
    Keyring(String),
    /// Reading or writing a file failed.
    Io(String),
    /// A JSON text could not be read or written.
    Json(String),
    /// A Base64 text could not be read.
    Base64(String),
}

/// `CryptoError` with its texts as character sequences.
pub enum CryptoErrorView {
    Encrypt,
    Decrypt,
    InvalidKey,
    InvalidNonce,
    ConfigDir,
    Keyring(Seq<char>),
    Io(Seq<char>),
    Json(Seq<char>),
    Base64(Seq<char>),
}

impl View for CryptoError {
    type V = CryptoErrorView;

    open spec fn view(&self) -> CryptoErrorView {
        match *self {
            CryptoError::Encrypt => CryptoErrorView::Encrypt,
            CryptoError::Decrypt => CryptoErrorView::Decrypt,
            CryptoError::InvalidKey => CryptoErrorView::InvalidKey,
            CryptoError::InvalidNonce => CryptoErrorView::InvalidNonce,
            CryptoError::ConfigDir => CryptoErrorView::ConfigDir,
            CryptoError::Keyring(text) => CryptoErrorView::Keyring(text@),
            CryptoError::Io(text) => CryptoErrorView::Io(text@),
            CryptoError::Json(text) => CryptoErrorView::Json(text@),
            CryptoError::Base64(text) => CryptoErrorView::Base64(text@),
        }
    }
}

impl CryptoErrorView {
    /// The error as a sentence.
    pub open spec fn message(self) -> Seq<char> {
        match self {
            CryptoErrorView::Encrypt => "failed to encrypt secret value"@,
            CryptoErrorView::Decrypt => "failed to decrypt secret value"@,
            CryptoErrorView::InvalidKey => "invalid encryption key"@,
            CryptoErrorView::InvalidNonce => "invalid nonce"@,
            CryptoErrorView::ConfigDir => "could not resolve envctl config directory"@,
            CryptoErrorView::Keyring(text) => "keyring error: "@ + text,
            CryptoErrorView::Io(text) => "io error: "@ + text,
            CryptoErrorView::Json(text) => "json error: "@ + text,
            CryptoErrorView::Base64(text) => "base64 error: "@ + text,
        }
    }
}

impl CryptoError {
    /// The error as a sentence.
    pub fn message(&self) -> (r: String)
        ensures
            r@ == self@.message(),
    {
        match self {
            CryptoError::Encrypt => "failed to encrypt secret value".to_owned(),
            CryptoError::Decrypt => "failed to decrypt secret value".to_owned(),
            CryptoError::InvalidKey => "invalid encryption key".to_owned(),
            CryptoError::InvalidNonce => "invalid nonce".to_owned(),
            CryptoError::ConfigDir => "could not resolve envctl config directory".to_owned(),
            CryptoError::Keyring(text) => "keyring error: ".to_owned().concat(text.as_str()),
            CryptoError::Io(text) => "io error: ".to_owned().concat(text.as_str()),
            CryptoError::Json(text) => "json error: ".to_owned().concat(text.as_str()),
            CryptoError::Base64(text) => "base64 error: ".to_owned().concat(text.as_str()),
        }
    }
}

/// A key of 256 bits that is wiped from memory when it is dropped.
#[derive(Debug)]
pub struct MasterKey {
    bytes: WipedBytes,
}

impl Clone for MasterKey {
    fn clone(&self) -> (r: MasterKey)
        ensures
            r@ == self@,
    {
        proof {
            use_type_invariant(self);
        }
        MasterKey { bytes: guard(exposed(&self.bytes).clone()) }
    }
}

impl View for MasterKey {
    type V = Seq<u8>;

    closed spec fn view(&self) -> Seq<u8> {
        held_bytes(self.bytes)
    }
}

/// The key that a Base64 text stands for, or why it stands for none.
pub open spec fn key_of_base64(text: Seq<char>) -> Result<Seq<u8>, CryptoErrorView> {
    match base64_read(text) {
        Err(message) => Err(CryptoErrorView::Base64(message)),
        Ok(bytes) => if bytes.len() == KEY_LEN {
            Ok(bytes)
        } else {
            Err(CryptoErrorView::InvalidKey)
        },
    }
}

impl MasterKey {
    #[verifier::type_invariant]
    spec fn valid(self) -> bool {
        held_bytes(self.bytes).len() == KEY_LEN
    }

    /// Draws a random key.
    pub fn generate() -> (r: MasterKey)
        ensures
            r@.len() == KEY_LEN,
    {
        MasterKey { bytes: guard(random_bytes(KEY_LEN)) }
    }

    /// The key made of the given bytes, when there are as many as a key has.
    pub fn from_bytes(bytes: Vec<u8>) -> (r: Result<MasterKey, CryptoError>)
        ensures
            match r {
                Ok(key) => bytes@.len() == KEY_LEN && key@ == bytes@,
                Err(error) => bytes@.len() != KEY_LEN && error@ == CryptoErrorView::InvalidKey,
            },
    {
        if bytes.len() != KEY_LEN {
            return Err(CryptoError::InvalidKey);
        }
        Ok(MasterKey { bytes: guard(bytes) })
    }

    /// The key as Base64 text, from which `from_base64` makes the same key.
    pub fn to_base64(&self) -> (r: String)
        ensures
            r@ == base64_text(self@),
            key_of_base64(r@) == Ok::<Seq<u8>, CryptoErrorView>(self@),
            trimmed(r@) == r@,
    {
        proof {
            use_type_invariant(self);
        }
        let text = encode_base64(exposed(&self.bytes));
        proof {
            lemma_letters_stay(text@);
        }
        text
    }

    /// The key that a Base64 text stands for.
    pub fn from_base64(value: &str) -> (r: Result<MasterKey, CryptoError>)
        ensures
            match r {
                Ok(key) => key_of_base64(value@) == Ok::<Seq<u8>, CryptoErrorView>(key@),
                Err(error) => key_of_base64(value@) == Err::<Seq<u8>, CryptoErrorView>(error@),
            },
    {
        match decode_base64(value) {
            Ok(bytes) => MasterKey::from_bytes(bytes),
            Err(message) => Err(CryptoError::Base64(message)),
        }
    }

    /// The bytes of the key.
    pub fn bytes(&self) -> (r: &Vec<u8>)
        ensures
            r@ == self@,
            r@.len() == KEY_LEN,
    {
        proof {
            use_type_invariant(self);
        }
        exposed(&self.bytes)
    }
}

/// A ciphertext with the nonce that it was made under.
#[derive(Debug, Clone, PartialEq, Eq)]
pub struct EncryptedValue {
    pub ciphertext: Vec<u8>,
    pub nonce: Vec<u8>,
}

/// Whether a text is short enough to be encrypted under one nonce.
pub open spec fn sealable(text: Seq<char>) -> bool {
    encode_utf8(text).len() <= SEAL_LIMIT
}

/// The ciphertext of a text.
pub open spec fn sealed_text(key: Seq<u8>, nonce: Seq<u8>, text: Seq<char>) -> Seq<u8> {
    sealed(key, nonce, encode_utf8(text))
}

/// The text that a ciphertext opens to, or why it does not open.
pub open spec fn opened_text(
    key: Seq<u8>,
    nonce: Seq<u8>,
    ciphertext: Seq<u8>,
) -> Result<Seq<char>, CryptoErrorView> {
    if nonce.len() != NONCE_LEN {
        Err(CryptoErrorView::InvalidNonce)
    } else if ciphertext.len() > SEAL_LIMIT + 16 {
        Err(CryptoErrorView::Decrypt)
    } else {
        match opened(key, nonce, ciphertext) {
            Some(plaintext) if valid_utf8(plaintext) => Ok(decode_utf8(plaintext)),
            _ => Err(CryptoErrorView::Decrypt),
        }
    }
}

/// Whether a ciphertext and its nonce stand for a text: they open to it under the key.
pub open spec fn stands_for(
    key: Seq<u8>,
    nonce: Seq<u8>,
    ciphertext: Seq<u8>,
    text: Seq<char>,
) -> bool {
    opened_text(key, nonce, ciphertext) == Ok::<Seq<char>, CryptoErrorView>(text)
}

/// Encrypts a text under a given nonce.
pub fn encrypt_with_nonce(key: &MasterKey, plaintext: &str, nonce: Vec<u8>) -> (r: Result<
    EncryptedValue,
    CryptoError,
>)
    requires
        nonce@.len() == NONCE_LEN,
    ensures
        match r {
            Ok(value) => {
                &&& sealable(plaintext@)
                &&& value.nonce@ == nonce@
                &&& value.ciphertext@ == sealed_text(key@, nonce@, plaintext@)
                &&& value.ciphertext@.len() == encode_utf8(plaintext@).len() + 16
                &&& stands_for(key@, value.nonce@, value.ciphertext@, plaintext@)
            },
            Err(error) => !sealable(plaintext@) && error@ == CryptoErrorView::Encrypt,
        },
{
    broadcast use vstd::utf8::group_utf8_lib;

    let bytes = plaintext.as_bytes();
    if bytes.len() as u64 > SEAL_LIMIT {
        return Err(CryptoError::Encrypt);
    }
    match seal(key.bytes(), &nonce, bytes) {
        Some(ciphertext) => Ok(EncryptedValue { ciphertext, nonce }),
        None => Err(CryptoError::Encrypt),
    }
}

/// Encrypts a text under a fresh random nonce.
pub fn encrypt_value(key: &MasterKey, plaintext: &str) -> (r: Result<EncryptedValue, CryptoError>)
    ensures
        match r {
            Ok(value) => {
                &&& sealable(plaintext@)
                &&& value.nonce@.len() == NONCE_LEN
                &&& value.ciphertext@ == sealed_text(key@, value.nonce@, plaintext@)
                &&& value.ciphertext@.len() == encode_utf8(plaintext@).len() + 16
                &&& stands_for(key@, value.nonce@, value.ciphertext@, plaintext@)
            },
            Err(error) => !sealable(plaintext@) && error@ == CryptoErrorView::Encrypt,
        },
{
    encrypt_with_nonce(key, plaintext, random_bytes(NONCE_LEN))
}

/// Decrypts a ciphertext to the text that it stands for.
pub fn decrypt_value(key: &MasterKey, ciphertext: &[u8], nonce: &[u8]) -> (r: Result<
    String,
    CryptoError,
>)
    ensures
        match r {
            Ok(text) => stands_for(key@, nonce@, ciphertext@, text@),
            Err(error) => opened_text(key@, nonce@, ciphertext@) == Err::<
                Seq<char>,
                CryptoErrorView,
            >(error@),
        },
{
    if nonce.len() != NONCE_LEN {
        return Err(CryptoError::InvalidNonce);
    }
    if ciphertext.len() as u64 > SEAL_LIMIT + 16 {
        return Err(CryptoError::Decrypt);
    }
    match open(key.bytes(), nonce, ciphertext) {
        Some(plaintext) => match utf8_text(plaintext) {
            Some(text) => Ok(text),
            None => Err(CryptoError::Decrypt),
        },
        None => Err(CryptoError::Decrypt),
    }
}

} // verus!
