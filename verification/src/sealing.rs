//! What keys, ciphertexts and sealed bundles are taken for, and when they are refused.

use crate::crypto::{
    base64_read, base64_text, key_of_base64, opened, opened_text, sealable, sealed, sealed_text,
    CryptoErrorView, SEAL_LIMIT,
};
use crate::keys::{KeyEventView, KeySearchView, KeyStage, KeyStepView};
use crate::sync::{
    bundle_opened, bundle_sealed, device_in, sync_key_in, unquoted, EncryptedBundleView,
    SyncErrorView,
};
use crate::text::{first_at, lemma_place, occurs_in, place, stands_at, trimmed};
use crate::told::law_trimming;
use vstd::prelude::*;
use vstd::utf8::{decode_utf8, encode_utf8, valid_utf8};

verus! {

/// A text is a key where it is Base64 of 32 bytes, and nowhere else: the master key as it
/// stands, the key of a bundle with white space around it.
pub proof fn law_keys_have_their_length(text: Seq<char>, key: Seq<u8>)
    ensures
        key_of_base64(text) == Ok::<Seq<u8>, CryptoErrorView>(key) <==> base64_read(text) == Ok::<
            Seq<u8>,
            Seq<char>,
        >(key) && key.len() == 32,
        base64_read(text) is Ok && key_of_base64(text) is Err ==> key_of_base64(text) == Err::<
            Seq<u8>,
            CryptoErrorView,
        >(CryptoErrorView::InvalidKey),
        base64_read(text) matches Err(message) ==> key_of_base64(text) == Err::<
            Seq<u8>,
            CryptoErrorView,
        >(CryptoErrorView::Base64(message)),
        sync_key_in(text) == sync_key_in(trimmed(text)),
        sync_key_in(trimmed(text)) == Ok::<Seq<u8>, SyncErrorView>(key) <==> base64_read(
            trimmed(text),
        ) == Ok::<Seq<u8>, Seq<char>>(key) && key.len() == 32,
        base64_read(trimmed(text)) is Err ==> sync_key_in(text) == Err::<Seq<u8>, SyncErrorView>(
            SyncErrorView::KeyNotBase64,
        ),
        base64_read(trimmed(text)) matches Ok(bytes) ==> (bytes.len() != 32 ==> sync_key_in(text)
            == Err::<Seq<u8>, SyncErrorView>(SyncErrorView::KeyLength)),
{
    law_trimming(text);
}

/// A ciphertext opens to a text where its nonce has 12 bytes and what the cipher gives is UTF-8
/// of the text. A nonce of another length is told as such, and everything else is a failure to
/// decrypt.
pub proof fn law_opened_texts(
    key: Seq<u8>,
    nonce: Seq<u8>,
    ciphertext: Seq<u8>,
    text: Seq<char>,
)
    requires
        ciphertext.len() <= SEAL_LIMIT + 16,
    ensures
        nonce.len() != 12 ==> opened_text(key, nonce, ciphertext) == Err::<
            Seq<char>,
            CryptoErrorView,
        >(CryptoErrorView::InvalidNonce),
        nonce.len() == 12 && opened(key, nonce, ciphertext) == Some(encode_utf8(text))
            ==> opened_text(key, nonce, ciphertext) == Ok::<Seq<char>, CryptoErrorView>(text),
        opened_text(key, nonce, ciphertext) == Ok::<Seq<char>, CryptoErrorView>(text)
            ==> nonce.len() == 12 && (opened(key, nonce, ciphertext) matches Some(bytes)
            && valid_utf8(bytes) && decode_utf8(bytes) == text),
        nonce.len() == 12 && opened(key, nonce, ciphertext) is None ==> opened_text(
            key,
            nonce,
            ciphertext,
        ) == Err::<Seq<char>, CryptoErrorView>(CryptoErrorView::Decrypt),
        sealed_text(key, nonce, text) == sealed(key, nonce, encode_utf8(text)),
{
    broadcast use vstd::utf8::group_utf8_lib;

}

/// A bundle is sealed under a key of 32 bytes only; it has the first version, the nonce that was
/// drawn and the ciphertext of the whole text, both as Base64.
pub proof fn law_sealed_bundles(key: Seq<u8>, nonce: Seq<u8>, body: Seq<char>)
    ensures
        key.len() != 32 ==> bundle_sealed(key, nonce, body) == Err::<
            EncryptedBundleView,
            SyncErrorView,
        >(SyncErrorView::Crypto(CryptoErrorView::InvalidKey)),
        bundle_sealed(key, nonce, body) matches Ok(bundle) ==> {
            &&& key.len() == 32
            &&& sealable(body)
            &&& bundle.version == 1
            &&& bundle.nonce == base64_text(nonce)
            &&& bundle.ciphertext == base64_text(sealed(key, nonce, encode_utf8(body)))
        },
        key.len() == 32 && encode_utf8(body).len() <= 1000000000 ==> bundle_sealed(
            key,
            nonce,
            body,
        ) is Ok,
{
}

/// A sealed bundle of another version is refused by its version, whatever else it holds, and a
/// key of another length by its length. Otherwise it opens to what its ciphertext opens to under
/// its nonce.
pub proof fn law_opened_bundles(key: Seq<u8>, bundle: EncryptedBundleView, text: Seq<char>)
    ensures
        bundle.version != 1 ==> bundle_opened(key, bundle) == Err::<Seq<char>, SyncErrorView>(
            SyncErrorView::Version(bundle.version),
        ),
        bundle.version == 1 && key.len() != 32 ==> bundle_opened(key, bundle) == Err::<
            Seq<char>,
            SyncErrorView,
        >(SyncErrorView::Crypto(CryptoErrorView::InvalidKey)),
        bundle_opened(key, bundle) == Ok::<Seq<char>, SyncErrorView>(text) <==> {
            &&& bundle.version == 1
            &&& key.len() == 32
            &&& base64_read(bundle.nonce) is Ok
            &&& base64_read(bundle.ciphertext) is Ok
            &&& opened_text(
                key,
                base64_read(bundle.nonce)->Ok_0,
                base64_read(bundle.ciphertext)->Ok_0,
            ) == Ok::<Seq<char>, CryptoErrorView>(text)
        },
{
}

/// The search for the key goes on where the keyring gives no key, and a failure of the key file,
/// or of a note, ends it with that failure. An answer to something else than what was asked
/// leaves it where it is.
pub proof fn law_search_failures(search: KeySearchView, error: CryptoErrorView, found: bool)
    ensures
        ({
            let unread = search.after(KeyEventView::Text(Err(error)));
            let unwritten = search.after(KeyEventView::Written(Err(error)));
            let ended = KeyStepView::Done(Err::<Seq<u8>, CryptoErrorView>(error));
            &&& search.stage == KeyStage::ReadKeyring ==> unread == KeyStepView::Next(
                KeySearchView { stage: KeyStage::LookForFile, spare: search.spare },
            )
            &&& search.stage == KeyStage::ReadFile ==> unread == ended
            &&& search.stage == KeyStage::WriteKeyring ==> unwritten == KeyStepView::Next(
                KeySearchView { stage: KeyStage::WriteFile, spare: search.spare },
            )
            &&& search.stage == KeyStage::WriteFile || search.stage == KeyStage::NoteKeyring
                || search.stage == KeyStage::NoteFile ==> unwritten == ended
            &&& search.stage != KeyStage::ReadKeyring && search.stage != KeyStage::ReadFile
                ==> unread == KeyStepView::Next(search)
            &&& search.stage != KeyStage::LookForFile ==> search.after(KeyEventView::Found(found))
                == KeyStepView::Next(search)
        }),
{
}

/// A device file without the name of the identity has none, and an identity that is read stands
/// in the file, holds no quotation mark and has one behind it.
pub proof fn law_device_identities(text: Seq<char>)
    ensures
        !occurs_in("\"id\""@, trimmed(text)) ==> device_in(text) == Err::<Seq<char>, SyncErrorView>(
            SyncErrorView::MissingId,
        ),
        device_in(text) == device_in(trimmed(text)),
        device_in(text) matches Ok(id) ==> {
            &&& !id.contains('"')
            &&& occurs_in("\"id\""@, trimmed(text))
        },
{
    law_trimming(text);
    let body = trimmed(text);
    lemma_place("\"id\""@, body, 0);
    if let Ok(id) = device_in(text) {
        let start = place("\"id\""@, body)->0;
        assert(first_at("\"id\""@, body, start));
        let tail = body.skip(start + 4);
        let colon = place(seq![':'], tail)->0;
        let value = unquoted(trimmed(tail.skip(colon + 1)));
        let end = place(seq!['"'], value)->0;
        assert(first_at(seq!['"'], value, end));
        if id.contains('"') {
            let k = choose|k: int| 0 <= k < id.len() && id[k] == '"';
            assert(value.subrange(k, k + 1) =~= seq!['"']);
            assert(stands_at(seq!['"'], value, k));
        }
    }
}

} // verus!
