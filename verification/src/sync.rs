//! What devices exchange: key files, device identities, pairing tickets and sealed bundles.

use crate::crypto::{
    base64_len, base64_letter, base64_read, base64_text, decode_base64, decrypt_value,
    encode_base64, encrypt_with_nonce, lemma_letters_stay, opened_text, random_bytes, sealable,
    sealed_text, CryptoError, CryptoErrorView, MasterKey, KEY_LEN, NONCE_LEN,
};
use crate::ids::{id_of_text, id_text, new_id, read_id, write_id, Id};
use crate::order::{
    collected, lemma_collected, lemma_collected_prefix, lemma_views_push, views,
};
use crate::registry::{list_view, result_view};
use crate::tables::{SyncOperation, SyncOperationView};
use crate::text::{
    chars_of, decimal, decimal_text, find_chars, first_at, lemma_place, place, slice_of, stands_at,
    text_of, trim_chars, trimmed, trimmed_end, trimmed_start,
};
use crate::time::{time_of_text, Timestamp};
use vstd::prelude::*;
use vstd::slice::slice_to_vec;
use vstd::utf8::encode_utf8;

verus! {

/// Who a device is.
#[derive(Debug, Clone, PartialEq, Eq)]
pub struct DeviceIdentity {
    pub id: String,
}

/// What a device shows to one that is to join.
#[derive(Debug, Clone, PartialEq, Eq)]
pub struct PairingTicket {
    pub device_id: String,
    pub code: String,
}

/// An operation as texts.
#[derive(Debug, Clone, PartialEq, Eq)]
pub struct WireOperation {
    pub id: String,
    pub kind: String,
    pub payload: String,
    pub created_at: String,
}

/// `WireOperation` with its texts as character sequences.
pub struct WireOperationView {
    pub id: Seq<char>,
    pub kind: Seq<char>,
    pub payload: Seq<char>,
    pub created_at: Seq<char>,
}

impl View for WireOperation {
    type V = WireOperationView;

    open spec fn view(&self) -> WireOperationView {
        WireOperationView {
            id: self.id@,
            kind: self.kind@,
            payload: self.payload@,
            created_at: self.created_at@,
        }
    }
}

/// The operations of a device.
#[derive(Debug, Clone, PartialEq, Eq)]
pub struct SyncBundle {
    pub version: u32,
    pub device_id: String,
    pub operations: Vec<WireOperation>,
}

/// A bundle under its key, as texts.
#[derive(Debug, PartialEq, Eq)]
pub struct EncryptedBundle {
    pub version: u32,
    pub nonce: String,
    pub ciphertext: String,
}

/// `EncryptedBundle` with its texts as character sequences.
pub struct EncryptedBundleView {
    pub version: u32,
    pub nonce: Seq<char>,
    pub ciphertext: Seq<char>,
}

impl View for EncryptedBundle {
    type V = EncryptedBundleView;

    open spec fn view(&self) -> EncryptedBundleView {
        EncryptedBundleView {
            version: self.version,
            nonce: self.nonce@,
            ciphertext: self.ciphertext@,
        }
    }
}

/// Why something of another device cannot be used.
#[derive(Debug, PartialEq, Eq)]
pub enum SyncError {
    KeyNotBase64,
    KeyLength,
    Version(u32),
    Base64(String),
    Crypto(CryptoError),
    MissingId,
    InvalidDevice,
    InvalidTimestamp(String),
    InvalidId(String),
}

/// `SyncError` with its texts as character sequences.
pub enum SyncErrorView {
    KeyNotBase64,
    KeyLength,
    Version(u32),
    Base64(Seq<char>),
    Crypto(CryptoErrorView),
    MissingId,
    InvalidDevice,
    InvalidTimestamp(Seq<char>),
    InvalidId(Seq<char>),
}

impl View for SyncError {
    type V = SyncErrorView;

    open spec fn view(&self) -> SyncErrorView {
        match *self {
            SyncError::KeyNotBase64 => SyncErrorView::KeyNotBase64,
            SyncError::KeyLength => SyncErrorView::KeyLength,
            SyncError::Version(version) => SyncErrorView::Version(version),
            SyncError::Base64(detail) => SyncErrorView::Base64(detail@),
            SyncError::Crypto(error) => SyncErrorView::Crypto(error@),
            SyncError::MissingId => SyncErrorView::MissingId,
            SyncError::InvalidDevice => SyncErrorView::InvalidDevice,
            SyncError::InvalidTimestamp(text) => SyncErrorView::InvalidTimestamp(text@),
            SyncError::InvalidId(text) => SyncErrorView::InvalidId(text@),
        }
    }
}

impl SyncErrorView {
    /// What the user reads.
    pub open spec fn message(self) -> Seq<char> {
        match self {
            SyncErrorView::KeyNotBase64 => "sync key file is not valid base64"@,
            SyncErrorView::KeyLength => "sync key must be 32 bytes"@,
            SyncErrorView::Version(version) => "unsupported sync bundle version "@ + decimal_text(
                version as nat,
            ),
            SyncErrorView::Base64(detail) => detail,
            SyncErrorView::Crypto(error) => error.message(),
            SyncErrorView::MissingId => "device identity file is missing id"@,
            SyncErrorView::InvalidDevice => "device identity file is invalid"@,
            SyncErrorView::InvalidTimestamp(text) => "invalid operation timestamp "@ + text,
            SyncErrorView::InvalidId(text) => "invalid operation id "@ + text,
        }
    }
}

impl SyncError {
    /// What the user reads.
    pub fn message(&self) -> (r: String)
        ensures
            r@ == self@.message(),
    {
        match self {
            SyncError::KeyNotBase64 => "sync key file is not valid base64".to_owned(),
            SyncError::KeyLength => "sync key must be 32 bytes".to_owned(),
            SyncError::Version(version) => "unsupported sync bundle version ".to_owned().concat(
                decimal(*version as usize).as_str(),
            ),
            SyncError::Base64(detail) => detail.clone(),
            SyncError::Crypto(error) => error.message(),
            SyncError::MissingId => "device identity file is missing id".to_owned(),
            SyncError::InvalidDevice => "device identity file is invalid".to_owned(),
            SyncError::InvalidTimestamp(text) => "invalid operation timestamp ".to_owned().concat(
                text.as_str(),
            ),
            SyncError::InvalidId(text) => "invalid operation id ".to_owned().concat(text.as_str()),
        }
    }
}

/// The key that the text of a key file stands for.
pub open spec fn sync_key_in(text: Seq<char>) -> Result<Seq<u8>, SyncErrorView> {
    match base64_read(trimmed(text)) {
        Err(_) => Err(SyncErrorView::KeyNotBase64),
        Ok(key) => if key.len() == KEY_LEN {
            Ok(key)
        } else {
            Err(SyncErrorView::KeyLength)
        },
    }
}

/// Makes the text of a new key file. It stands for a key.
pub fn new_key_text() -> (r: String)
    ensures
        exists|key: Seq<u8>| #[trigger]
            key.len() == KEY_LEN && r@ == base64_text(key) && sync_key_in(r@) == Ok::<
                Seq<u8>,
                SyncErrorView,
            >(key),
{
    let key = random_bytes(KEY_LEN);
    let text = encode_base64(&key);
    proof {
        lemma_letters_stay(text@);
        assert(key@.len() == KEY_LEN);
    }
    text
}

/// Reads the text of a key file.
pub fn parse_key_text(text: &str) -> (r: Result<Vec<u8>, SyncError>)
    ensures
        match r {
            Ok(key) => sync_key_in(text@) == Ok::<Seq<u8>, SyncErrorView>(key@),
            Err(error) => sync_key_in(text@) == Err::<Seq<u8>, SyncErrorView>(error@),
        },
{
    match decode_base64(crate::text::trim(text).as_str()) {
        Err(_) => Err(SyncError::KeyNotBase64),
        Ok(key) => if key.len() == KEY_LEN {
            Ok(key)
        } else {
            Err(SyncError::KeyLength)
        },
    }
}

/// Whether a ciphertext's Base64 text fits in memory.
pub open spec fn encodable(length: nat) -> bool {
    base64_len(length) <= isize::MAX
}

/// The sealed form of a bundle's text under a key and a nonce.
pub open spec fn bundle_sealed(key: Seq<u8>, nonce: Seq<u8>, body: Seq<char>) -> Result<
    EncryptedBundleView,
    SyncErrorView,
> {
    if key.len() != KEY_LEN {
        Err(SyncErrorView::Crypto(CryptoErrorView::InvalidKey))
    } else if !sealable(body) || !encodable(encode_utf8(body).len() + 16) {
        Err(SyncErrorView::Crypto(CryptoErrorView::Encrypt))
    } else {
        Ok(
            EncryptedBundleView {
                version: 1,
                nonce: base64_text(nonce),
                ciphertext: base64_text(sealed_text(key, nonce, body)),
            },
        )
    }
}

/// The bytes that a Base64 text of a bundle stands for.
pub open spec fn bundle_bytes(text: Seq<char>) -> Result<Seq<u8>, SyncErrorView> {
    match base64_read(text) {
        Ok(bytes) => Ok(bytes),
        Err(message) => Err(SyncErrorView::Base64(message)),
    }
}

/// The text that a sealed bundle opens to under a key.
pub open spec fn bundle_opened(key: Seq<u8>, bundle: EncryptedBundleView) -> Result<
    Seq<char>,
    SyncErrorView,
> {
    if bundle.version != 1 {
        Err(SyncErrorView::Version(bundle.version))
    } else if key.len() != KEY_LEN {
        Err(SyncErrorView::Crypto(CryptoErrorView::InvalidKey))
    } else {
        match (bundle_bytes(bundle.nonce), bundle_bytes(bundle.ciphertext)) {
            (Err(error), _) => Err(error),
            (_, Err(error)) => Err(error),
            (Ok(nonce), Ok(ciphertext)) => match opened_text(key, nonce, ciphertext) {
                Ok(text) => Ok(text),
                Err(error) => Err(SyncErrorView::Crypto(error)),
            },
        }
    }
}

/// Whether a text holds letters of Base64 only.
pub open spec fn letters_only(text: Seq<char>) -> bool {
    forall|i: int| 0 <= i < text.len() ==> base64_letter(#[trigger] text[i])
}

fn fits(length: usize) -> (r: bool)
    ensures
        r == encodable(length as nat),
{
    let groups: usize = length / 3 + if length % 3 == 0 {
        0
    } else {
        1
    };
    let most: usize = isize::MAX as usize / 4;
    proof {
        assert(groups == (length + 2) / 3);
        assert(base64_len(length as nat) == groups * 4);
    }
    groups <= most
}

/// Seals the text of a bundle under a given nonce. Opening gives the text back; the sealed form
/// holds letters of Base64 only.
pub fn seal_bundle_with(key: &[u8], body: &str, nonce: Vec<u8>) -> (r: Result<
    EncryptedBundle,
    SyncError,
>)
    requires
        nonce@.len() == NONCE_LEN,
    ensures
        result_view(r) == bundle_sealed(key@, nonce@, body@),
        r matches Ok(bundle) ==> bundle_opened(key@, bundle@) == Ok::<Seq<char>, SyncErrorView>(
            body@,
        ),
        r matches Ok(bundle) ==> letters_only(bundle.nonce@) && letters_only(bundle.ciphertext@),
{
    let master_key = match MasterKey::from_bytes(slice_to_vec(key)) {
        Ok(key) => key,
        Err(error) => return Err(SyncError::Crypto(error)),
    };
    let encrypted = match encrypt_with_nonce(&master_key, body, nonce) {
        Ok(encrypted) => encrypted,
        Err(error) => return Err(SyncError::Crypto(error)),
    };
    if !fits(encrypted.ciphertext.len()) {
        return Err(SyncError::Crypto(CryptoError::Encrypt));
    }
    Ok(
        EncryptedBundle {
            version: 1,
            nonce: encode_base64(&encrypted.nonce),
            ciphertext: encode_base64(&encrypted.ciphertext),
        },
    )
}

/// Seals the text of a bundle under a random nonce. Opening gives the text back; the sealed form
/// holds letters of Base64 only.
pub fn seal_bundle(key: &[u8], body: &str) -> (r: Result<EncryptedBundle, SyncError>)
    ensures
        exists|nonce: Seq<u8>| #[trigger]
            nonce.len() == NONCE_LEN && result_view(r) == bundle_sealed(key@, nonce, body@),
        r matches Ok(bundle) ==> bundle_opened(key@, bundle@) == Ok::<Seq<char>, SyncErrorView>(
            body@,
        ),
        r matches Ok(bundle) ==> letters_only(bundle.nonce@) && letters_only(bundle.ciphertext@),
{
    let nonce = random_bytes(NONCE_LEN);
    assert(nonce@.len() == NONCE_LEN);
    seal_bundle_with(key, body, nonce)
}

/// Opens a sealed bundle.
pub fn open_bundle(key: &[u8], bundle: &EncryptedBundle) -> (r: Result<String, SyncError>)
    ensures
        result_view(r) == bundle_opened(key@, bundle@),
{
    if bundle.version != 1 {
        return Err(SyncError::Version(bundle.version));
    }
    let master_key = match MasterKey::from_bytes(slice_to_vec(key)) {
        Ok(key) => key,
        Err(error) => return Err(SyncError::Crypto(error)),
    };
    let nonce = match decode_base64(bundle.nonce.as_str()) {
        Ok(bytes) => bytes,
        Err(message) => return Err(SyncError::Base64(message)),
    };
    let ciphertext = match decode_base64(bundle.ciphertext.as_str()) {
        Ok(bytes) => bytes,
        Err(message) => return Err(SyncError::Base64(message)),
    };
    match decrypt_value(&master_key, ciphertext.as_slice(), nonce.as_slice()) {
        Ok(text) => Ok(text),
        Err(error) => Err(SyncError::Crypto(error)),
    }
}

/// An operation as texts.
pub open spec fn wire_of(operation: SyncOperationView) -> WireOperationView {
    WireOperationView {
        id: id_text(operation.id),
        kind: operation.kind,
        payload: operation.payload,
        created_at: operation.created_at.rfc3339(),
    }
}

/// The operation that texts stand for.
pub open spec fn operation_of(wire: WireOperationView) -> Result<SyncOperationView, SyncErrorView> {
    match (time_of_text(wire.created_at), id_of_text(wire.id)) {
        (None, _) => Err(SyncErrorView::InvalidTimestamp(wire.created_at)),
        (_, None) => Err(SyncErrorView::InvalidId(wire.id)),
        (Some(created_at), Some(id)) => Ok(
            SyncOperationView { id, kind: wire.kind, payload: wire.payload, created_at },
        ),
    }
}

/// Writes an operation as texts. An operation of a year of four digits is read back.
pub fn operation_to_wire(operation: &SyncOperation) -> (r: WireOperation)
    ensures
        r@ == wire_of(operation@),
        operation@.created_at.four_digit_year() ==> operation_of(r@) == Ok::<
            SyncOperationView,
            SyncErrorView,
        >(operation@),
{
    WireOperation {
        id: write_id(operation.id),
        kind: operation.kind.clone(),
        payload: operation.payload.clone(),
        created_at: operation.created_at.to_rfc3339(),
    }
}

/// Reads an operation from texts.
pub fn wire_to_operation(wire: &WireOperation) -> (r: Result<SyncOperation, SyncError>)
    ensures
        result_view(r) == operation_of(wire@),
{
    let created_at = match Timestamp::parse(wire.created_at.as_str()) {
        Some(time) => time,
        None => return Err(SyncError::InvalidTimestamp(wire.created_at.clone())),
    };
    let id: Id = match read_id(wire.id.as_str()) {
        Some(id) => id,
        None => return Err(SyncError::InvalidId(wire.id.clone())),
    };
    Ok(
        SyncOperation { id, kind: wire.kind.clone(), payload: wire.payload.clone(), created_at },
    )
}

/// Whether operations are of years of four digits.
pub open spec fn ordinary_operations(operations: Seq<SyncOperationView>) -> bool {
    forall|i: int|
        0 <= i < operations.len() ==> (#[trigger] operations[i]).created_at.four_digit_year()
}

/// The operations of a bundle; the first that cannot be read decides.
pub open spec fn bundle_operations(operations: Seq<WireOperationView>) -> Result<
    Seq<SyncOperationView>,
    SyncErrorView,
> {
    collected(operations, |wire: WireOperationView| operation_of(wire))
}

/// Puts the operations of a device into a bundle, from which they are read back.
pub fn make_bundle(device_id: String, operations: &Vec<SyncOperation>) -> (r: SyncBundle)
    ensures
        r.version == 1,
        r.device_id@ == device_id@,
        views(r.operations@) == views(operations@).map_values(|o: SyncOperationView| wire_of(o)),
        ordinary_operations(views(operations@)) ==> bundle_operations(views(r.operations@)) == Ok::<
            Seq<SyncOperationView>,
            SyncErrorView,
        >(views(operations@)),
{
    let ghost all = views(operations@);
    let mut out: Vec<WireOperation> = Vec::new();
    let mut i: usize = 0;
    while i < operations.len()
        invariant
            i <= operations.len(),
            out.len() == i,
            forall|j: int| 0 <= j < i ==> (#[trigger] out@[j])@ == wire_of(views(operations@)[j]),
            forall|j: int|
                0 <= j < i && (#[trigger] views(operations@)[j]).created_at.four_digit_year()
                    ==> operation_of(out@[j]@) == Ok::<SyncOperationView, SyncErrorView>(
                    views(operations@)[j],
                ),
        decreases operations.len() - i,
    {
        assert(views(operations@)[i as int] == operations@[i as int]@);
        out.push(operation_to_wire(&operations[i]));
        i = i + 1;
    }
    proof {
        let written = views(out@);
        let step = |wire: WireOperationView| operation_of(wire);
        assert(written =~= all.map_values(|o: SyncOperationView| wire_of(o)));
        if ordinary_operations(all) {
            assert forall|j: int| 0 <= j < written.len() implies step(#[trigger] written[j]) == Ok::<
                SyncOperationView,
                SyncErrorView,
            >(all[j]) by {
                assert(all[j].created_at.four_digit_year());
            }
            lemma_collected(written, step);
            let results = collected(written, step)->Ok_0;
            assert forall|j: int| 0 <= j < written.len() implies results[j] == all[j] by {
                assert(step(written[j]) == Ok::<SyncOperationView, SyncErrorView>(results[j]));
            }
            assert(results =~= all);
        }
    }
    SyncBundle { version: 1, device_id, operations: out }
}

/// Reads the operations of a bundle.
pub fn read_operations(bundle: &SyncBundle) -> (r: Result<Vec<SyncOperation>, SyncError>)
    ensures
        list_view(r) == bundle_operations(views(bundle.operations@)),
{
    let rows = &bundle.operations;
    let ghost all = views(rows@);
    let ghost step = |wire: WireOperationView| operation_of(wire);
    let mut out: Vec<SyncOperation> = Vec::new();
    let mut i: usize = 0;
    assert(views(out@) =~= Seq::empty());
    while i < rows.len()
        invariant
            i <= rows@.len(),
            all == views(rows@),
            all == views(bundle.operations@),
            step == (|wire: WireOperationView| operation_of(wire)),
            collected(all.take(i as int), step) == Ok::<Seq<SyncOperationView>, SyncErrorView>(
                views(out@),
            ),
        decreases rows@.len() - i,
    {
        proof {
            assert(all.take(i + 1).drop_last() =~= all.take(i as int));
            assert(all.take(i + 1).last() == rows@[i as int]@);
        }
        match wire_to_operation(&rows[i]) {
            Ok(operation) => {
                proof {
                    lemma_views_push(out@, operation);
                }
                out.push(operation);
            },
            Err(error) => {
                proof {
                    lemma_collected_prefix(all, i + 1, step);
                }
                return Err(error);
            },
        }
        i = i + 1;
    }
    assert(all.take(i as int) =~= all);
    Ok(out)
}

/// The text of a device file.
pub open spec fn device_text(id: Seq<char>) -> Seq<char> {
    "{\"id\":\""@ + id + "\"}\n"@
}

/// A text without its leading quotation marks.
pub open spec fn unquoted(text: Seq<char>) -> Seq<char>
    decreases text.len(),
{
    if text.len() > 0 && text[0] == '"' {
        unquoted(text.drop_first())
    } else {
        text
    }
}

/// The identity in the text of a device file: what stands in quotation marks after the first
/// colon after the first `"id"`.
pub open spec fn device_in(text: Seq<char>) -> Result<Seq<char>, SyncErrorView> {
    let body = trimmed(text);
    match place("\"id\""@, body) {
        None => Err(SyncErrorView::MissingId),
        Some(start) => {
            let tail = body.skip(start + 4);
            match place(seq![':'], tail) {
                None => Err(SyncErrorView::InvalidDevice),
                Some(colon) => {
                    let value = unquoted(trimmed(tail.skip(colon + 1)));
                    match place(seq!['"'], value) {
                        None => Err(SyncErrorView::InvalidDevice),
                        Some(end) => Ok(value.take(end)),
                    }
                },
            }
        },
    }
}

fn unquote(chars: &Vec<char>) -> (r: Vec<char>)
    ensures
        r@ == unquoted(chars@),
{
    let mut i: usize = 0;
    assert(chars@.skip(0) =~= chars@);
    while i < chars.len() && chars[i] == '"'
        invariant
            i <= chars.len(),
            unquoted(chars@.skip(i as int)) == unquoted(chars@),
        decreases chars.len() - i,
    {
        assert(chars@.skip(i as int).drop_first() =~= chars@.skip(i + 1));
        i = i + 1;
    }
    let rest = slice_of(chars, i, chars.len());
    assert(rest@ =~= chars@.skip(i as int));
    rest
}

/// Reads the text of a device file.
pub fn parse_device(text: &str) -> (r: Result<DeviceIdentity, SyncError>)
    ensures
        match r {
            Ok(identity) => device_in(text@) == Ok::<Seq<char>, SyncErrorView>(identity.id@),
            Err(error) => device_in(text@) == Err::<Seq<char>, SyncErrorView>(error@),
        },
{
    proof {
        reveal_strlit("\"id\"");
    }
    let body = trim_chars(&chars_of(text));
    let mark = chars_of("\"id\"");
    assert(mark@.len() == 4);
    let start: usize = match find_chars(&mark, &body) {
        Some(start) => start,
        None => return Err(SyncError::MissingId),
    };
    assert(stands_at(mark@, body@, start as int));
    assert(start + 4 <= body.len());
    let tail = slice_of(&body, start + 4, body.len());
    assert(tail@ =~= body@.skip(start + 4));
    let colon_mark: Vec<char> = vec![':'];
    assert(colon_mark@ =~= seq![':']);
    let colon: usize = match find_chars(&colon_mark, &tail) {
        Some(colon) => colon,
        None => return Err(SyncError::InvalidDevice),
    };
    let after = slice_of(&tail, colon + 1, tail.len());
    assert(after@ =~= tail@.skip(colon + 1));
    let value = unquote(&trim_chars(&after));
    let quote: Vec<char> = vec!['"'];
    assert(quote@ =~= seq!['"']);
    let end: usize = match find_chars(&quote, &value) {
        Some(end) => end,
        None => return Err(SyncError::InvalidDevice),
    };
    let id = slice_of(&value, 0, end);
    assert(id@ =~= value@.take(end as int));
    Ok(DeviceIdentity { id: text_of(&id) })
}

/// The text of the file for a device.
pub fn device_file(identity: &DeviceIdentity) -> (r: String)
    ensures
        r@ == device_text(identity.id@),
{
    let mut out = "{\"id\":\"".to_owned();
    out.append(identity.id.as_str());
    out.append("\"}\n");
    out
}

/// Makes the identity of a new device from a random identifier.
pub fn new_device() -> (r: DeviceIdentity)
    ensures
        exists|id: Id| r.id@ == #[trigger] id_text(id),
{
    let id: Id = new_id();
    DeviceIdentity { id: write_id(id) }
}

/// Makes a pairing ticket for a device with a random code of eight bytes.
pub fn create_pairing_ticket(device_id: &str) -> (r: PairingTicket)
    ensures
        r.device_id@ == device_id@,
        exists|bytes: Seq<u8>| #[trigger] bytes.len() == 8 && r.code@ == base64_text(bytes),
        r.code@.len() == 12,
{
    let bytes = random_bytes(8);
    assert(bytes@.len() == 8);
    PairingTicket { device_id: device_id.to_owned(), code: encode_base64(&bytes) }
}

/// An identity without quotation marks is read back from its device file.
pub proof fn law_device_file_is_read_back(id: Seq<char>)
    requires
        id.len() > 0,
        forall|i: int| 0 <= i < id.len() ==> id[i] != '"',
    ensures
        device_in(device_text(id)) == Ok::<Seq<char>, SyncErrorView>(id),
{
    reveal_strlit("{\"id\":\"");
    reveal_strlit("\"}\n");
    reveal_strlit("\"id\"");
    let text = device_text(id);
    let n = id.len();
    let mark = "\"id\""@;
    let body = text.drop_last();
    assert(text.len() == n + 10);
    assert(text[0] == '{');
    assert(text.last() == '\n');
    assert(body.last() == '}');
    assert(trimmed_start(text) == text);
    assert(trimmed_end(text) == trimmed_end(body));
    assert(trimmed(text) == body);
    assert(body.subrange(1, 5) =~= mark);
    assert(stands_at(mark, body, 1));
    assert(!stands_at(mark, body, 0)) by {
        assert(body.subrange(0, 4)[0] == '{');
        assert(mark[0] == '"');
    }
    assert(first_at(mark, body, 1));
    lemma_place(mark, body, 1);
    let tail = body.skip(5);
    assert(tail.subrange(0, 1) =~= seq![':']);
    assert(stands_at(seq![':'], tail, 0));
    assert(first_at(seq![':'], tail, 0));
    lemma_place(seq![':'], tail, 0);
    let quoted = tail.skip(1);
    assert(quoted =~= seq!['"'] + id + seq!['"', '}']);
    assert(quoted[0] == '"');
    assert(quoted.last() == '}');
    assert(trimmed(quoted) == quoted);
    let value = quoted.drop_first();
    assert(value =~= id + seq!['"', '}']);
    assert(value[0] == id[0]);
    assert(unquoted(value) == value);
    assert(unquoted(quoted) == value);
    let quote = seq!['"'];
    assert(value.subrange(n as int, n as int + 1) =~= quote);
    assert(stands_at(quote, value, n as int));
    assert forall|j: int| 0 <= j < n implies !stands_at(quote, value, j) by {
        if stands_at(quote, value, j) {
            assert(value.subrange(j, j + 1)[0] == value[j]);
            assert(value[j] == id[j]);
        }
    }
    assert(first_at(quote, value, n as int));
    lemma_place(quote, value, n as int);
    assert(value.take(n as int) =~= id);
}

/// A new device is recognised by its file.
pub proof fn law_new_device_is_recognised(id: Id)
    ensures
        device_in(device_text(id_text(id))) == Ok::<Seq<char>, SyncErrorView>(id_text(id)),
{
    let text = id_text(id);
    assert forall|i: int| 0 <= i < text.len() implies text[i] != '"' by {
        assert(forall|x: u128| #[trigger] (x & 0xf) <= 15) by (bit_vector);
    }
    law_device_file_is_read_back(text);
}

} // verus!
