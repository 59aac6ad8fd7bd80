use envctl::crypto::{
    decrypt_value, encrypt_value, encrypt_with_nonce, CryptoError, MasterKey, KEY_LEN, NONCE_LEN,
};
use envctl::keys::{KeyAction, KeyEvent, KeyManager, KeySearch, KeyStep};

fn next(step: KeyStep) -> KeySearch {
    match step {
        KeyStep::Next(search) => search,
        KeyStep::Done(result) => panic!("the search has ended: {result:?}"),
    }
}

fn done(step: KeyStep) -> Result<MasterKey, CryptoError> {
    match step {
        KeyStep::Next(search) => panic!("the search goes on: {search:?}"),
        KeyStep::Done(result) => result,
    }
}

fn unreadable() -> KeyEvent {
    KeyEvent::Text(Err(CryptoError::Keyring("locked".to_string())))
}

#[test]
fn encrypt_round_trip() {
    let key = MasterKey::generate();
    let encrypted = encrypt_value(&key, "postgres://localhost/dev").unwrap();
    assert_ne!(encrypted.ciphertext, b"postgres://localhost/dev");
    let decrypted = decrypt_value(&key, &encrypted.ciphertext, &encrypted.nonce).unwrap();
    assert_eq!(decrypted, "postgres://localhost/dev");
}

#[test]
fn generated_nonces_are_distinct() {
    let key = MasterKey::generate();
    let first = encrypt_value(&key, "same").unwrap();
    let second = encrypt_value(&key, "same").unwrap();
    assert_ne!(first.nonce, second.nonce);
    assert_ne!(first.ciphertext, second.ciphertext);
}

#[test]
fn fallback_key_loads_from_temp_dir() {
    let dir = tempfile::tempdir().unwrap();
    let manager = KeyManager::with_config_dir(dir.path());
    assert_eq!(manager.config_dir(), dir.path());
    let key = MasterKey::generate();
    let text = key.to_base64();

    // The keyring has no key, a key file is there and is read.
    let search = KeySearch::with_spare(MasterKey::generate());
    let search = next(search.after(unreadable()));
    let search = next(search.after(KeyEvent::Found(true)));
    assert_eq!(search.action(), KeyAction::ReadFile);
    let loaded = done(search.after(KeyEvent::Text(Ok(format!("{text}\n"))))).unwrap();
    assert_eq!(key.to_base64(), loaded.to_base64());
}

#[test]
fn keyring_key_is_taken_first() {
    let key = MasterKey::generate();
    let search = KeySearch::new();
    assert_eq!(search.action(), KeyAction::ReadKeyring);
    let found = done(search.after(KeyEvent::Text(Ok(key.to_base64())))).unwrap();
    assert_eq!(found.to_base64(), key.to_base64());
}

#[test]
fn new_key_goes_to_the_keyring() {
    let spare = MasterKey::generate();
    let text = spare.to_base64();
    let search = KeySearch::with_spare(spare);
    let search = next(search.after(KeyEvent::Text(Ok("not base64!".to_string()))));
    assert_eq!(search.action(), KeyAction::LookForFile);
    let search = next(search.after(KeyEvent::Found(false)));
    assert_eq!(search.action(), KeyAction::WriteKeyring(text.clone()));
    let search = next(search.after(KeyEvent::Written(Ok(()))));
    assert_eq!(search.action(), KeyAction::WriteMeta("keyring".to_string()));
    let key = done(search.after(KeyEvent::Written(Ok(())))).unwrap();
    assert_eq!(key.to_base64(), text);
}

#[test]
fn new_key_goes_to_the_file_where_the_keyring_refuses_it() {
    let spare = MasterKey::generate();
    let text = spare.to_base64();
    let search = KeySearch::with_spare(spare);
    let search = next(search.after(unreadable()));
    let search = next(search.after(KeyEvent::Found(false)));
    let refused = KeyEvent::Written(Err(CryptoError::Keyring("no keyring".to_string())));
    let search = next(search.after(refused));
    assert_eq!(search.action(), KeyAction::WriteFile(text.clone()));
    let search = next(search.after(KeyEvent::Written(Ok(()))));
    assert_eq!(search.action(), KeyAction::WriteMeta("fallback-file".to_string()));
    let key = done(search.after(KeyEvent::Written(Ok(())))).unwrap();
    assert_eq!(key.to_base64(), text);
}

#[test]
fn unreadable_key_file_ends_the_search() {
    let search = KeySearch::new();
    let search = next(search.after(unreadable()));
    let search = next(search.after(KeyEvent::Found(true)));
    let error = done(search.after(unreadable())).unwrap_err();
    assert_eq!(error, CryptoError::Keyring("locked".to_string()));
}

#[test]
fn event_out_of_turn_leaves_the_search_where_it_is() {
    let search = KeySearch::new();
    let search = next(search.after(KeyEvent::Found(true)));
    assert_eq!(search.action(), KeyAction::ReadKeyring);
}

#[test]
fn master_key_survives_base64() {
    let bytes: Vec<u8> = (0..32).collect();
    let key = MasterKey::from_bytes(bytes.clone()).unwrap();
    assert_eq!(key.to_base64(), "AAECAwQFBgcICQoLDA0ODxAREhMUFRYXGBkaGxwdHh8=");
    let read = MasterKey::from_base64(&key.to_base64()).unwrap();
    assert_eq!(read.bytes(), &bytes);
}

#[test]
fn short_key_is_refused() {
    assert_eq!(MasterKey::from_bytes(vec![0; KEY_LEN - 1]).unwrap_err(), CryptoError::InvalidKey);
    assert_eq!(MasterKey::from_base64("AAEC").unwrap_err(), CryptoError::InvalidKey);
    assert!(matches!(MasterKey::from_base64("%%%"), Err(CryptoError::Base64(_))));
}

#[test]
fn nonce_and_key_decide_on_the_ciphertext() {
    let key = MasterKey::from_bytes(vec![7; KEY_LEN]).unwrap();
    let first = encrypt_with_nonce(&key, "value", vec![1; NONCE_LEN]).unwrap();
    let again = encrypt_with_nonce(&key, "value", vec![1; NONCE_LEN]).unwrap();
    let other = encrypt_with_nonce(&key, "value", vec![2; NONCE_LEN]).unwrap();
    assert_eq!(first, again);
    assert_ne!(first.ciphertext, other.ciphertext);
    assert_eq!(first.ciphertext.len(), "value".len() + 16);
}

#[test]
fn foreign_ciphertext_is_refused() {
    let key = MasterKey::generate();
    let other = MasterKey::generate();
    let encrypted = encrypt_value(&key, "value").unwrap();
    assert_eq!(
        decrypt_value(&other, &encrypted.ciphertext, &encrypted.nonce).unwrap_err(),
        CryptoError::Decrypt
    );
    assert_eq!(
        decrypt_value(&key, &encrypted.ciphertext, &[0; 11]).unwrap_err(),
        CryptoError::InvalidNonce
    );
}

#[test]
fn key_manager_is_copied_with_its_directory() {
    let manager = KeyManager::with_config_dir("/etc/envctl");
    assert_eq!(manager.clone().config_dir(), manager.config_dir());
    assert_eq!(manager.clone().config_dir().to_str(), Some("/etc/envctl"));
}

struct Places {
    keyring: Option<String>,
    keyring_takes: bool,
    file: Option<String>,
}

fn run(places: &mut Places, spare: MasterKey) -> Result<MasterKey, CryptoError> {
    let refusal = || CryptoError::Keyring("locked".to_string());
    let mut search = KeySearch::with_spare(spare);
    loop {
        let event = match search.action() {
            KeyAction::ReadKeyring => KeyEvent::Text(places.keyring.clone().ok_or_else(refusal)),
            KeyAction::LookForFile => KeyEvent::Found(places.file.is_some()),
            KeyAction::ReadFile => KeyEvent::Text(places.file.clone().ok_or_else(refusal)),
            KeyAction::WriteKeyring(text) => {
                if places.keyring_takes {
                    places.keyring = Some(text);
                    KeyEvent::Written(Ok(()))
                } else {
                    KeyEvent::Written(Err(refusal()))
                }
            }
            KeyAction::WriteFile(text) => {
                places.file = Some(text);
                KeyEvent::Written(Ok(()))
            }
            KeyAction::WriteMeta(_) => KeyEvent::Written(Ok(())),
        };
        match search.after(event) {
            KeyStep::Next(next) => search = next,
            KeyStep::Done(result) => return result,
        }
    }
}

#[test]
fn second_search_finds_the_key_of_the_first() {
    for keyring_takes in [true, false] {
        let mut places = Places { keyring: None, keyring_takes, file: None };
        let spare = MasterKey::generate();
        let text = spare.to_base64();
        let first = run(&mut places, spare).unwrap();
        assert_eq!(first.to_base64(), text);
        assert_eq!(places.keyring.is_some(), keyring_takes);
        assert_eq!(places.file.is_some(), !keyring_takes);
        let second = run(&mut places, MasterKey::generate()).unwrap();
        assert_eq!(second.to_base64(), text);
    }
}

#[test]
fn key_file_without_a_key_is_left_alone() {
    let mut places =
        Places { keyring: None, keyring_takes: true, file: Some("no key".to_string()) };
    assert!(run(&mut places, MasterKey::generate()).is_err());
    assert_eq!(places.file.as_deref(), Some("no key"));
    assert_eq!(places.keyring, None);
    let key = MasterKey::generate();
    places.keyring = Some(key.to_base64());
    let found = run(&mut places, MasterKey::generate()).unwrap();
    assert_eq!(found.to_base64(), key.to_base64());
}
