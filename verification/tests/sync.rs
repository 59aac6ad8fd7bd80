use envctl::crypto::{CryptoError, KEY_LEN};
use envctl::exchange::{export_bundle, export_text, import_bundle};
use envctl::registry::SecretRegistry;
use envctl::store::Store;
use serde_json::Value;
use envctl::sync::{
    create_pairing_ticket, device_file, new_device, new_key_text, open_bundle, operation_to_wire,
    parse_device, parse_key_text, read_operations, seal_bundle, seal_bundle_with,
    wire_to_operation, DeviceIdentity, EncryptedBundle, SyncBundle, SyncError, WireOperation,
};

#[test]
fn creates_and_reads_key_file() {
    let text = new_key_text();
    assert_eq!(parse_key_text(&text).unwrap().len(), KEY_LEN);
    assert_eq!(parse_key_text(&format!("  {text}\n")), parse_key_text(&text));
}

#[test]
fn key_files_that_hold_no_key_are_refused() {
    assert_eq!(parse_key_text("??").unwrap_err(), SyncError::KeyNotBase64);
    assert_eq!(parse_key_text("AAEC").unwrap_err(), SyncError::KeyLength);
    assert_eq!(SyncError::KeyNotBase64.message(), "sync key file is not valid base64");
    assert_eq!(SyncError::KeyLength.message(), "sync key must be 32 bytes");
}

#[test]
fn creates_pairing_ticket() {
    let ticket = create_pairing_ticket("device-a");
    assert_eq!(ticket.device_id, "device-a");
    assert!(!ticket.code.is_empty());
    assert_eq!(ticket.code.len(), 12);
}

fn wire(id: &str, created_at: &str) -> WireOperation {
    WireOperation {
        id: id.to_string(),
        kind: "secret.add".to_string(),
        payload: "{\"key\":\"DATABASE_URL\"}".to_string(),
        created_at: created_at.to_string(),
    }
}

fn object(members: Vec<(&str, Value)>) -> Value {
    Value::Object(members.into_iter().map(|(name, value)| (name.to_string(), value)).collect())
}

fn text(value: &Value, name: &str) -> String {
    value.get(name).and_then(Value::as_str).unwrap().to_string()
}

fn to_json(bundle: &SyncBundle) -> String {
    let operations = bundle
        .operations
        .iter()
        .map(|operation| {
            object(vec![
                ("id", Value::from(operation.id.as_str())),
                ("kind", Value::from(operation.kind.as_str())),
                ("payload", Value::from(operation.payload.as_str())),
                ("created_at", Value::from(operation.created_at.as_str())),
            ])
        })
        .collect();
    object(vec![
        ("version", Value::from(bundle.version)),
        ("device_id", Value::from(bundle.device_id.as_str())),
        ("operations", Value::Array(operations)),
    ])
    .to_string()
}

fn from_json(body: &str) -> SyncBundle {
    let value: Value = serde_json::from_str(body).unwrap();
    let operations = value.get("operations").and_then(Value::as_array).unwrap();
    SyncBundle {
        version: value.get("version").and_then(Value::as_u64).unwrap() as u32,
        device_id: text(&value, "device_id"),
        operations: operations
            .iter()
            .map(|operation| WireOperation {
                id: text(operation, "id"),
                kind: text(operation, "kind"),
                payload: text(operation, "payload"),
                created_at: text(operation, "created_at"),
            })
            .collect(),
    }
}

#[test]
fn encrypted_bundle_round_trips() {
    let key = parse_key_text(&new_key_text()).unwrap();
    let bundle = SyncBundle {
        version: 1,
        device_id: "device-a".to_string(),
        operations: vec![wire("op-1", "2026-01-01T00:00:00Z")],
    };

    let sealed = seal_bundle(&key, &to_json(&bundle)).unwrap();
    let raw = format!("{} {} {}", sealed.version, sealed.nonce, sealed.ciphertext);
    assert!(!raw.contains("DATABASE_URL"));
    assert_eq!(from_json(&open_bundle(&key, &sealed).unwrap()), bundle);
}

#[test]
fn sealing_is_fixed_by_key_and_nonce() {
    let key = vec![9; KEY_LEN];
    let sealed = seal_bundle_with(&key, "body", vec![1; 12]).unwrap();
    assert_eq!(sealed, seal_bundle_with(&key, "body", vec![1; 12]).unwrap());
    assert_eq!(sealed.version, 1);
    assert_eq!(sealed.nonce, "AQEBAQEBAQEBAQEB");
}

#[test]
fn bundles_that_cannot_be_opened_are_refused() {
    let key = vec![9; KEY_LEN];
    let sealed = seal_bundle(&key, "body").unwrap();
    let with = |version: u32, nonce: &str| EncryptedBundle {
        version,
        nonce: nonce.to_string(),
        ciphertext: sealed.ciphertext.clone(),
    };
    let version = open_bundle(&key, &with(2, &sealed.nonce)).unwrap_err();
    assert_eq!(version.message(), "unsupported sync bundle version 2");
    assert!(matches!(open_bundle(&key, &with(1, "?")), Err(SyncError::Base64(_))));
    assert_eq!(
        open_bundle(&key, &with(1, "AQEBAQEBAQEBAQEB")).unwrap_err(),
        SyncError::Crypto(CryptoError::Decrypt)
    );
    assert_eq!(
        open_bundle(&[1, 2], &sealed).unwrap_err(),
        SyncError::Crypto(CryptoError::InvalidKey)
    );
    assert_eq!(
        seal_bundle(&[1, 2], "body").unwrap_err().message(),
        "invalid encryption key"
    );
}

#[test]
fn device_file_is_read_back() {
    let identity = DeviceIdentity { id: "device-a".to_string() };
    assert_eq!(device_file(&identity), "{\"id\":\"device-a\"}\n");
    assert_eq!(parse_device(&device_file(&identity)).unwrap(), identity);
    let fresh = new_device();
    assert_eq!(fresh.id.len(), 36);
    assert_eq!(parse_device(&device_file(&fresh)).unwrap(), fresh);
    assert_eq!(parse_device(" { \"id\" : \"x\" , }").unwrap().id, "x");
}

#[test]
fn device_files_without_an_identity_are_refused() {
    assert_eq!(parse_device("{}").unwrap_err(), SyncError::MissingId);
    assert_eq!(parse_device("{\"id\"}").unwrap_err(), SyncError::InvalidDevice);
    assert_eq!(parse_device("{\"id\": 3}").unwrap_err(), SyncError::InvalidDevice);
    assert_eq!(SyncError::MissingId.message(), "device identity file is missing id");
    assert_eq!(SyncError::InvalidDevice.message(), "device identity file is invalid");
}

#[test]
fn operations_survive_the_wire() {
    let id = "67e55044-10b1-426f-9247-bb680e5fe0c8";
    let operation = wire_to_operation(&wire(id, "2026-01-01T00:00:00Z")).unwrap();
    assert_eq!(operation_to_wire(&operation), wire(id, "2026-01-01T00:00:00+00:00"));
    let time = wire_to_operation(&wire(id, "now")).unwrap_err();
    assert_eq!(time.message(), "invalid operation timestamp now");
    let name = wire_to_operation(&wire("op-1", "2026-01-01T00:00:00Z")).unwrap_err();
    assert_eq!(name.message(), "invalid operation id op-1");
}

#[test]
fn bundle_moves_the_registry_to_another_device() {
    let mut source = Store::open_memory_for_tests().unwrap();
    source.add_environment("prod", None).unwrap();
    source.add_secret("TOKEN", None).unwrap();
    source.set_variant("TOKEN", "prod", "value").unwrap();
    let bundle = export_bundle(&source, "device-a".to_string()).unwrap();
    assert_eq!(bundle.version, 1);
    assert_eq!(read_operations(&bundle).unwrap().len(), 3);

    let mut target = Store::open_memory_for_tests().unwrap();
    let reply = import_bundle(&mut target, &bundle);
    assert_eq!(reply.output, "Imported 3 operation(s) from device device-a.\n");
    assert_eq!(reply.result.unwrap(), 0);
    assert_eq!(target.get_variant("TOKEN", "prod").unwrap().as_deref(), Some("value"));
    assert_eq!(
        import_bundle(&mut target, &bundle).output,
        "Imported 0 operation(s) from device device-a.\n"
    );
    assert_eq!(export_text("b.json"), "Exported encrypted sync bundle: b.json\n");
}

#[test]
fn bundle_with_one_broken_operation_is_not_imported() {
    let mut target = Store::open_memory_for_tests().unwrap();
    let bundle = SyncBundle {
        version: 1,
        device_id: "device-a".to_string(),
        operations: vec![
            wire("67e55044-10b1-426f-9247-bb680e5fe0c8", "2026-01-01T00:00:00Z"),
            wire("op-1", "2026-01-01T00:00:00Z"),
        ],
    };
    let reply = import_bundle(&mut target, &bundle);
    assert_eq!(reply.result.unwrap_err().text(), "invalid operation id op-1\n");
    assert_eq!(target.sync_status().unwrap().operation_count, 0);
}

#[test]
fn sealed_bundle_holds_letters_of_base64_only() {
    let sealed = seal_bundle(&[7; KEY_LEN], "{\"key\":\"DATABASE_URL\"}").unwrap();
    for text in [&sealed.nonce, &sealed.ciphertext] {
        assert!(text
            .chars()
            .all(|c| c.is_ascii_alphanumeric() || c == '+' || c == '/' || c == '='));
    }
    assert_eq!(sealed.nonce.len(), 16);
}
