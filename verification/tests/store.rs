use envctl::change::Change;
use envctl::crypto::{CryptoError, MasterKey};
use envctl::domain::DomainError;
use envctl::error::StoreError;
use envctl::registry::{coverage, resolve, SecretRegistry};
use envctl::snapshot::{RawOperation, RawRecord, Snapshot};
use envctl::store::{Fresh, Store};
use envctl::tables::SyncOperation;
use envctl::time::Timestamp;

#[test]
fn creates_entities_assigns_and_resolves() {
    let mut store = Store::open_memory_for_tests().unwrap();
    store.add_project("bowtieduck", None).unwrap();
    store.add_project("helmwave", None).unwrap();
    store.add_environment("dev", None).unwrap();
    store.add_secret("DATABASE_URL", Some("Main DB")).unwrap();
    store.assign_secret("DATABASE_URL", "bowtieduck").unwrap();
    store.assign_secret("DATABASE_URL", "helmwave").unwrap();
    store.set_variant("DATABASE_URL", "dev", "postgres://localhost/dev").unwrap();

    let resolution = resolve(&store, "bowtieduck", "dev").unwrap();
    assert_eq!(resolution.secrets[0].key, "DATABASE_URL");
    assert_eq!(resolution.secrets[0].value, "postgres://localhost/dev");
}

#[test]
fn missing_variant_blocks_resolution() {
    let mut store = Store::open_memory_for_tests().unwrap();
    store.add_project("bowtieduck", None).unwrap();
    store.add_environment("prod", None).unwrap();
    store.add_secret("REDIS_URL", None).unwrap();
    store.assign_secret("REDIS_URL", "bowtieduck").unwrap();

    let report = coverage(&store, "bowtieduck", "prod").unwrap();
    assert_eq!(report.missing_keys(), vec!["REDIS_URL"]);
    let err = resolve(&store, "bowtieduck", "prod").unwrap_err();
    assert!(err.message().contains("Cannot resolve secrets"));
}

#[test]
fn deleting_environment_with_variants_requires_force() {
    let mut store = Store::open_memory_for_tests().unwrap();
    store.add_environment("dev", None).unwrap();
    store.add_secret("DATABASE_URL", None).unwrap();
    store.set_variant("DATABASE_URL", "dev", "postgres://localhost/dev").unwrap();

    assert!(store.remove_environment("dev", false).is_err());
    store.remove_environment("dev", true).unwrap();
}

#[test]
fn duplicate_secret_keys_are_rejected() {
    let mut store = Store::open_memory_for_tests().unwrap();
    store.add_secret("OPENAI_API_KEY", None).unwrap();
    let err = store.add_secret("OPENAI_API_KEY", None).unwrap_err();
    assert!(err.message().contains("already exists"));
}

#[test]
fn mutating_operations_are_logged_for_sync() {
    let mut store = Store::open_memory_for_tests().unwrap();
    store.add_project("bowtieduck", None).unwrap();
    store.add_environment("prod", None).unwrap();
    store.add_secret("DATABASE_URL", None).unwrap();
    store.set_variant("DATABASE_URL", "prod", "postgres://localhost/prod").unwrap();

    let operations = store.list_sync_operations().unwrap();
    assert_eq!(operations.len(), 4);
    let latest = operations.last().unwrap();
    assert_eq!(latest.kind, "variant.set");
    assert!(latest.payload.contains("DATABASE_URL"));
    assert!(latest.payload.contains("postgres://localhost/prod"));
}

#[test]
fn imported_sync_operations_replay_into_empty_store() {
    let mut source = Store::open_memory_for_tests().unwrap();
    source.add_project("bowtieduck", None).unwrap();
    source.add_environment("prod", None).unwrap();
    source.add_secret("DATABASE_URL", None).unwrap();
    source.assign_secret("DATABASE_URL", "bowtieduck").unwrap();
    source.set_variant("DATABASE_URL", "prod", "postgres://localhost/prod").unwrap();

    let operations = source.list_sync_operations().unwrap();
    let mut target = Store::open_memory_for_tests().unwrap();
    let imported = target.import_sync_operations(&operations).unwrap();

    assert_eq!(imported, operations.len());
    let resolution = resolve(&target, "bowtieduck", "prod").unwrap();
    assert_eq!(resolution.secrets[0].key, "DATABASE_URL");
    assert_eq!(resolution.secrets[0].value, "postgres://localhost/prod");
    assert_eq!(target.import_sync_operations(&operations).unwrap(), 0);
}

#[test]
fn older_imported_variant_does_not_overwrite_newer_local_variant() {
    let mut source = Store::open_memory_for_tests().unwrap();
    source.add_project("bowtieduck", None).unwrap();
    source.add_environment("prod", None).unwrap();
    source.add_secret("DATABASE_URL", None).unwrap();
    source.set_variant("DATABASE_URL", "prod", "postgres://old").unwrap();
    let operations = source.list_sync_operations().unwrap();

    let mut target = Store::open_memory_for_tests().unwrap();
    target.add_project("bowtieduck", None).unwrap();
    target.add_environment("prod", None).unwrap();
    target.add_secret("DATABASE_URL", None).unwrap();
    target.set_variant("DATABASE_URL", "prod", "postgres://new").unwrap();

    target.import_sync_operations(&operations).unwrap();
    assert_eq!(target.get_variant("DATABASE_URL", "prod").unwrap().unwrap(), "postgres://new");
}

fn operation(change: &Change<String>, seconds: i64) -> SyncOperation {
    let fresh = Fresh::draw();
    SyncOperation {
        id: fresh.id(),
        kind: change.kind(),
        payload: change.payload(),
        created_at: Timestamp::new(seconds, 0).unwrap(),
    }
}

#[test]
fn later_imported_variant_overwrites_an_older_one() {
    let mut store = Store::open_memory_for_tests().unwrap();
    store.add_environment("prod", None).unwrap();
    store.add_secret("TOKEN", None).unwrap();
    store.set_variant("TOKEN", "prod", "now").unwrap();
    let later = Change::VariantSet {
        key: "TOKEN".to_string(),
        environment: "prod".to_string(),
        value: "later".to_string(),
    };
    let older = Change::VariantSet {
        key: "TOKEN".to_string(),
        environment: "prod".to_string(),
        value: "older".to_string(),
    };
    let operations = vec![operation(&later, 4_000_000_000), operation(&older, 1_000)];
    assert_eq!(store.import_sync_operations(&operations).unwrap(), 2);
    assert_eq!(store.get_variant("TOKEN", "prod").unwrap().unwrap(), "later");
}

#[test]
fn changes_survive_transport() {
    let change = Change::VariantSet {
        key: "KEY \"x\"".to_string(),
        environment: "prod".to_string(),
        value: "a\nb".to_string(),
    };
    let read = Change::read(&change.kind(), &change.payload()).unwrap().unwrap();
    assert_eq!(read.kind(), change.kind());
    assert_eq!(read.payload(), change.payload());
}

#[test]
fn unknown_operations_are_kept_and_do_nothing() {
    let mut store = Store::open_memory_for_tests().unwrap();
    let fresh = Fresh::draw();
    let unknown = SyncOperation {
        id: fresh.id(),
        kind: "weather.changed".to_string(),
        payload: "{}".to_string(),
        created_at: fresh.time(),
    };
    assert_eq!(store.import_sync_operations(&[unknown]).unwrap(), 1);
    assert_eq!(store.sync_status().unwrap().operation_count, 1);
    assert!(store.list_secrets().unwrap().is_empty());
}

#[test]
fn unreadable_payloads_are_refused() {
    let mut store = Store::open_memory_for_tests().unwrap();
    let fresh = Fresh::draw();
    let broken = SyncOperation {
        id: fresh.id(),
        kind: "secret.add".to_string(),
        payload: "{}".to_string(),
        created_at: fresh.time(),
    };
    let error = store.import_sync_operations(&[broken]).unwrap_err();
    assert_eq!(error.message(), "invalid sync payload: missing string field key");
}

#[test]
fn values_are_read_back_and_taken_away() {
    let mut store = Store::open_memory_for_tests().unwrap();
    store.add_environment("dev", None).unwrap();
    store.add_environment("prod", None).unwrap();
    store.add_secret("TOKEN", None).unwrap();
    store.set_variant("TOKEN", "dev", "one").unwrap();
    store.set_variant("TOKEN", "prod", "two").unwrap();
    store.set_variant("TOKEN", "dev", "three").unwrap();
    assert_eq!(store.get_variant("TOKEN", "dev").unwrap().as_deref(), Some("three"));
    assert_eq!(store.get_variant("TOKEN", "prod").unwrap().as_deref(), Some("two"));
    assert_eq!(store.variant_count_for_environment("dev").unwrap(), 1);
    store.unset_variant("TOKEN", "dev").unwrap();
    assert_eq!(store.get_variant("TOKEN", "dev").unwrap(), None);
    assert_eq!(store.variants_for_secret("TOKEN").unwrap().len(), 1);
}

#[test]
fn unknown_names_are_refused() {
    let mut store = Store::open_memory_for_tests().unwrap();
    store.add_secret("TOKEN", None).unwrap();
    let cases = vec![
        (store.get_project("nope").unwrap_err(), "Project \"nope\" not found."),
        (store.get_environment("nope").unwrap_err(), "Environment \"nope\" not found."),
        (store.get_secret("nope").unwrap_err(), "Secret \"nope\" not found."),
        (store.set_variant("TOKEN", "nope", "x").unwrap_err(), "Environment \"nope\" not found."),
        (store.assign_secret("TOKEN", "nope").unwrap_err(), "Project \"nope\" not found."),
    ];
    for (error, message) in cases {
        assert_eq!(error.message(), message);
    }
}

#[test]
fn refused_requests_change_nothing() {
    let mut store = Store::open_memory_for_tests().unwrap();
    store.add_project("app", None).unwrap();
    let before = store.snapshot();
    let error = store.add_project("app", Some("again")).unwrap_err();
    assert!(matches!(error, StoreError::Domain(DomainError::DuplicateProject { .. })));
    let error = store.add_environment("dev", None).and_then(|_| store.add_environment("dev", None));
    assert!(matches!(
        error,
        Err(StoreError::Domain(DomainError::DuplicateEnvironment { .. }))
    ));
    let after = store.snapshot();
    assert_eq!(before.projects, after.projects);
    assert_eq!(after.operations.len(), 2);
}

#[test]
fn environment_with_values_tells_how_many() {
    let mut store = Store::open_memory_for_tests().unwrap();
    store.add_environment("dev", None).unwrap();
    store.add_secret("A", None).unwrap();
    store.add_secret("B", None).unwrap();
    store.set_variant("A", "dev", "1").unwrap();
    store.set_variant("B", "dev", "2").unwrap();
    let error = store.remove_environment("dev", false).unwrap_err();
    assert_eq!(
        error.message(),
        "Cannot delete environment \"dev\" because it has 2 variant(s)."
    );
}

#[test]
fn renaming_keeps_what_belongs_to_a_record() {
    let mut store = Store::open_memory_for_tests().unwrap();
    store.add_project("app", None).unwrap();
    store.add_environment("dev", None).unwrap();
    store.add_secret("A", None).unwrap();
    store.assign_secret("A", "app").unwrap();
    store.set_variant("A", "dev", "1").unwrap();
    store.rename_secret("A", "B").unwrap();
    store.rename_project("app", "web").unwrap();
    store.rename_environment("dev", "local").unwrap();
    let resolution = resolve(&store, "web", "local").unwrap();
    let map = resolution.into_env_map();
    assert_eq!(map.get("B"), Some("1"));
    assert_eq!(map.len(), 1);
}

#[test]
fn removing_a_secret_takes_its_values_and_assignments() {
    let mut store = Store::open_memory_for_tests().unwrap();
    store.add_project("app", None).unwrap();
    store.add_environment("dev", None).unwrap();
    store.add_secret("A", None).unwrap();
    store.assign_secret("A", "app").unwrap();
    store.set_variant("A", "dev", "1").unwrap();
    store.remove_secret("A").unwrap();
    assert_eq!(store.variant_count_for_environment("dev").unwrap(), 0);
    assert!(store.get_project("app").unwrap().assigned_secret_ids.is_empty());
    assert!(coverage(&store, "app", "dev").unwrap().is_complete());
}

#[test]
fn lists_are_in_order_of_their_names() {
    let mut store = Store::open_memory_for_tests().unwrap();
    for key in ["b", "a", "C", "é"] {
        store.add_secret(key, None).unwrap();
    }
    let keys: Vec<String> = store.list_secrets().unwrap().into_iter().map(|s| s.key).collect();
    assert_eq!(keys, vec!["C", "a", "b", "é"]);
}

#[test]
fn description_is_set_and_cleared() {
    let mut store = Store::open_memory_for_tests().unwrap();
    store.add_secret("A", None).unwrap();
    let secret = store.set_secret_description("A", Some("text")).unwrap();
    assert_eq!(secret.description.as_deref(), Some("text"));
    let secret = store.set_secret_description("A", None).unwrap();
    assert_eq!(secret.description, None);
}

#[test]
fn log_replays_the_registry() {
    let mut source = Store::open_memory_for_tests().unwrap();
    source.add_project("app", None).unwrap();
    source.add_environment("dev", None).unwrap();
    source.add_secret("A", Some("first")).unwrap();
    source.assign_secret("A", "app").unwrap();
    source.set_variant("A", "dev", "1").unwrap();
    source.rename_secret("A", "B").unwrap();
    source.add_secret("C", None).unwrap();
    source.remove_secret("C").unwrap();
    source.set_secret_description("B", Some("second")).unwrap();

    let mut target = Store::open_memory_for_tests().unwrap();
    target.import_sync_operations(&source.list_sync_operations().unwrap()).unwrap();
    assert_eq!(target.get_variant("B", "dev").unwrap().as_deref(), Some("1"));
    assert_eq!(target.get_secret("B").unwrap().description.as_deref(), Some("second"));
    assert!(target.get_secret("C").is_err());
    assert_eq!(target.get_project("app").unwrap().assigned_secret_ids.len(), 1);
}

#[test]
fn snapshot_is_loaded_back() {
    let key = MasterKey::generate();
    let mut store = Store::new(key.clone());
    store.add_project("app", Some("text")).unwrap();
    store.add_environment("dev", None).unwrap();
    store.add_secret("A", None).unwrap();
    store.assign_secret("A", "app").unwrap();
    store.set_variant("A", "dev", "1").unwrap();
    let snapshot = store.snapshot();
    let loaded = Store::load(key, &snapshot).unwrap();
    assert_eq!(loaded.snapshot(), snapshot);
    assert_eq!(resolve(&loaded, "app", "dev").unwrap().secrets[0].value, "1");
}

#[test]
fn values_of_another_key_cannot_be_read() {
    let mut store = Store::open_memory_for_tests().unwrap();
    store.add_environment("dev", None).unwrap();
    store.add_secret("A", None).unwrap();
    store.set_variant("A", "dev", "1").unwrap();
    let other = Store::load(MasterKey::generate(), &store.snapshot()).unwrap();
    let error = other.get_variant("A", "dev").unwrap_err();
    assert!(matches!(error, StoreError::Crypto(CryptoError::Decrypt)));
}

fn record(id: &str, created_at: &str) -> RawRecord {
    RawRecord {
        id: id.to_string(),
        name: "app".to_string(),
        description: None,
        created_at: created_at.to_string(),
        updated_at: "2026-01-01T00:00:00Z".to_string(),
    }
}

fn snapshot_of(project: RawRecord) -> Snapshot {
    Snapshot {
        projects: vec![project],
        environments: Vec::new(),
        secrets: Vec::new(),
        variants: Vec::new(),
        assignments: Vec::new(),
        removals: Vec::new(),
        operations: Vec::<RawOperation>::new(),
    }
}

#[test]
fn broken_rows_are_refused() {
    let good = "67e55044-10b1-426f-9247-bb680e5fe0c8";
    let id = Store::load(
        MasterKey::generate(),
        &snapshot_of(record("x", "2026-01-01T00:00:00Z")),
    );
    assert_eq!(id.unwrap_err().message(), "invalid id in database: x");
    let time = Store::load(MasterKey::generate(), &snapshot_of(record(good, "yesterday")));
    assert_eq!(time.unwrap_err().message(), "invalid timestamp in database: yesterday");
    let fine = Store::load(
        MasterKey::generate(),
        &snapshot_of(record(good, "2026-01-01T00:00:00+02:00")),
    );
    let project = fine.unwrap().get_project("app").unwrap();
    assert_eq!(project.created_at.to_rfc3339(), "2025-12-31T22:00:00+00:00");
}

#[test]
fn times_are_written_and_read() {
    let time = Timestamp::new(1_767_225_600, 5_000_000).unwrap();
    assert_eq!(time.to_rfc3339(), "2026-01-01T00:00:00.005+00:00");
    assert_eq!(time.to_display(), "2026-01-01 00:00:00.005 UTC");
    assert_eq!(Timestamp::parse("2026-01-01T00:00:00.005Z"), Some(time));
    assert_eq!(Timestamp::parse("soon"), None);
    assert_eq!(Timestamp::new(0, 3_000_000_000), None);
    assert!(time.is_earlier(&Timestamp::new(1_767_225_601, 0).unwrap()));
    assert!(Timestamp::now().seconds() > 1_600_000_000);
}

#[test]
fn every_store_error_has_a_message() {
    assert_eq!(StoreError::Sql("x".to_string()).message(), "database error: x");
    assert_eq!(StoreError::DataDir.message(), "could not resolve envctl data directory");
    let domain: StoreError = DomainError::SecretNotFound("A".to_string()).into();
    assert_eq!(domain.message(), "Secret \"A\" not found.");
    let crypto: StoreError = CryptoError::Encrypt.into();
    assert_eq!(crypto.message(), CryptoError::Encrypt.message());
    let empty = DomainError::EmptyCommand.message();
    assert_eq!(
        empty,
        "No command provided after --.\nUsage: envctl run <project> <env> -- <cmd>"
    );
}

const DAY: i64 = 86_400;

const NEW_YEAR: i64 = 1_767_225_600;

fn set(value: &str, day: i64) -> SyncOperation {
    let change = Change::VariantSet {
        key: "K".to_string(),
        environment: "prod".to_string(),
        value: value.to_string(),
    };
    operation(&change, NEW_YEAR + day * DAY)
}

fn unset(day: i64) -> SyncOperation {
    let change =
        Change::VariantUnset { key: "K".to_string(), environment: "prod".to_string() };
    operation(&change, NEW_YEAR + day * DAY)
}

fn with_secret() -> Store {
    let mut store = Store::open_memory_for_tests().unwrap();
    store.add_environment("prod", None).unwrap();
    store.add_secret("K", None).unwrap();
    store
}

fn import_one_by_one(operations: &[SyncOperation], order: &[usize]) -> Store {
    let mut store = with_secret();
    for place in order {
        let one = vec![operations[*place].clone()];
        assert_eq!(store.import_sync_operations(&one).unwrap(), 1);
    }
    store
}

const ORDERS: [[usize; 3]; 6] =
    [[0, 1, 2], [0, 2, 1], [1, 0, 2], [1, 2, 0], [2, 0, 1], [2, 1, 0]];

#[test]
fn later_removal_bars_an_older_value_in_every_order() {
    let operations = vec![set("a", 0), unset(2), set("b", 1)];
    for order in ORDERS {
        let store = import_one_by_one(&operations, &order);
        assert_eq!(store.get_variant("K", "prod").unwrap(), None, "{order:?}");
    }
    let mut together = with_secret();
    assert_eq!(together.import_sync_operations(&operations).unwrap(), 3);
    assert_eq!(together.get_variant("K", "prod").unwrap(), None);
}

#[test]
fn later_value_outlasts_an_older_removal_in_every_order() {
    let operations = vec![set("a", 0), unset(1), set("b", 2)];
    for order in ORDERS {
        let store = import_one_by_one(&operations, &order);
        let value = store.get_variant("K", "prod").unwrap();
        assert_eq!(value.as_deref(), Some("b"), "{order:?}");
    }
}

#[test]
fn local_removal_bars_an_older_value() {
    let mut store = with_secret();
    store.set_variant("K", "prod", "now").unwrap();
    store.unset_variant("K", "prod").unwrap();
    store.import_sync_operations(&[set("older", 0)]).unwrap();
    assert_eq!(store.get_variant("K", "prod").unwrap(), None);
    store.import_sync_operations(&[set("later", 100_000)]).unwrap();
    assert_eq!(store.get_variant("K", "prod").unwrap().as_deref(), Some("later"));
}

#[test]
fn removal_is_noted_without_a_value_and_the_latest_counts() {
    let mut store = with_secret();
    store.import_sync_operations(&[unset(5)]).unwrap();
    store.import_sync_operations(&[unset(3)]).unwrap();
    let noted = store.snapshot().removals;
    assert_eq!(noted.len(), 1);
    assert_eq!(noted[0].removed_at, "2026-01-06T00:00:00+00:00");
    store.import_sync_operations(&[set("a", 4)]).unwrap();
    assert_eq!(store.get_variant("K", "prod").unwrap(), None);
    store.import_sync_operations(&[set("b", 5)]).unwrap();
    assert_eq!(store.get_variant("K", "prod").unwrap().as_deref(), Some("b"));
}

#[test]
fn removals_go_with_their_secret_and_their_environment() {
    let mut store = with_secret();
    store.unset_variant("K", "prod").unwrap();
    assert_eq!(store.snapshot().removals.len(), 1);
    store.remove_secret("K").unwrap();
    assert!(store.snapshot().removals.is_empty());
    store.add_secret("K", None).unwrap();
    store.unset_variant("K", "prod").unwrap();
    store.remove_environment("prod", true).unwrap();
    assert!(store.snapshot().removals.is_empty());
    store.add_environment("prod", None).unwrap();
    store.import_sync_operations(&[set("a", 0)]).unwrap();
    assert_eq!(store.get_variant("K", "prod").unwrap().as_deref(), Some("a"));
}

#[test]
fn removals_are_loaded_back() {
    let key = MasterKey::generate();
    let mut store = Store::new(key.clone());
    store.add_environment("prod", None).unwrap();
    store.add_secret("K", None).unwrap();
    store.import_sync_operations(&[unset(2)]).unwrap();
    let tables = store.snapshot();
    let mut again = Store::load(key.clone(), &tables).unwrap();
    assert_eq!(again.snapshot(), tables);
    again.import_sync_operations(&[set("older", 1)]).unwrap();
    assert_eq!(again.get_variant("K", "prod").unwrap(), None);

    let mut twice = store.snapshot();
    twice.removals.extend(store.snapshot().removals);
    let error = Store::load(key.clone(), &twice).unwrap_err();
    assert_eq!(error.message(), "database error: inconsistent tables");
    let mut stray = store.snapshot();
    stray.secrets.clear();
    let error = Store::load(key, &stray).unwrap_err();
    assert_eq!(error.message(), "database error: inconsistent tables");
}

fn draws(count: u8) -> Vec<Fresh> {
    let time = Timestamp::new(NEW_YEAR, 0).unwrap();
    let mut list = Vec::new();
    for n in 0..count {
        let id = 1_000 + u128::from(n);
        list.push(Fresh::new(id, time, vec![n; 12], id, time, vec![100 + n; 12]).unwrap());
    }
    list
}

#[test]
fn import_does_not_depend_on_the_order_of_the_list() {
    let key = MasterKey::generate();
    let operations = vec![
        operation(
            &Change::EnvironmentAdd { name: "prod".to_string(), description: None },
            NEW_YEAR,
        ),
        operation(&Change::SecretAdd { key: "K".to_string(), description: None }, NEW_YEAR + 1),
        set("a", 1),
        unset(3),
        set("b", 2),
    ];
    let mut first = Store::new(key.clone());
    assert_eq!(first.import_operations_with(&operations, &draws(5)).unwrap(), 5);
    let mut shuffled = operations.clone();
    shuffled.reverse();
    shuffled.swap(0, 2);
    let mut second = Store::new(key);
    assert_eq!(second.import_operations_with(&shuffled, &draws(5)).unwrap(), 5);
    assert_eq!(first.snapshot(), second.snapshot());
    assert_eq!(first.import_operations_with(&shuffled, &draws(5)).unwrap(), 0);
    assert_eq!(first.snapshot(), second.snapshot());
    shuffled.push(set("c", 4));
    assert_eq!(first.import_operations_with(&shuffled, &draws(6)).unwrap(), 1);
    assert_eq!(first.get_variant("K", "prod").unwrap().as_deref(), Some("c"));
}

#[test]
fn imported_value_is_read_back() {
    let mut store = with_secret();
    let value = "p\u{e4}ss \"word\"\n";
    assert!(store.import_operation_with(&set(value, 0), &draws(1)[0]).unwrap());
    assert_eq!(store.get_variant("K", "prod").unwrap().as_deref(), Some(value));
}

#[test]
fn repeated_assignment_is_listed_once() {
    let mut store = with_secret();
    store.add_project("one", None).unwrap();
    store.add_project("two", None).unwrap();
    store.assign_secret("K", "one").unwrap();
    store.assign_secret("K", "two").unwrap();
    let before = store.snapshot().assignments;
    store.assign_secret("K", "one").unwrap();
    assert_eq!(store.snapshot().assignments, before);
    let secret = store.get_secret("K").unwrap();
    let one = store.get_project("one").unwrap();
    let two = store.get_project("two").unwrap();
    assert_eq!(one.assigned_secret_ids, vec![secret.id]);
    assert_eq!(two.assigned_secret_ids, vec![secret.id]);
    let mut ids = vec![one.id, two.id];
    ids.sort();
    assert_eq!(secret.assigned_project_ids, ids);
}

#[test]
fn log_lists_every_change_with_its_payload() {
    let mut store = with_secret();
    store.set_variant("K", "prod", "a\"b").unwrap();
    store.unset_variant("K", "prod").unwrap();
    let imported = set("later", 100_000);
    store.import_sync_operations(&[imported.clone()]).unwrap();
    let log = store.list_sync_operations().unwrap();
    assert_eq!(log.len(), 5);
    assert_eq!(log[4], imported);
    let changes = vec![
        Change::VariantSet {
            key: "K".to_string(),
            environment: "prod".to_string(),
            value: "a\"b".to_string(),
        },
        Change::VariantUnset { key: "K".to_string(), environment: "prod".to_string() },
    ];
    for change in changes {
        let listed: Vec<&SyncOperation> =
            log.iter().filter(|one| one.payload == change.payload()).collect();
        assert_eq!(listed.len(), 1);
        assert_eq!(listed[0].kind, change.kind());
    }
    for pair in log.windows(2) {
        assert!(!pair[1].created_at.is_earlier(&pair[0].created_at));
    }
}

#[test]
fn records_can_be_copied_and_matched() {
    let mut store = with_secret();
    let project = store.add_project("one", Some("first")).unwrap();
    assert_eq!(project.clone(), project);
    store.assign_secret("K", "one").unwrap();
    store.set_variant("K", "prod", "v").unwrap();
    let secret = store.get_secret("K").unwrap();
    assert_eq!(secret.clone(), secret);
    let variants = store.variants_for_secret("K").unwrap();
    assert_eq!(variants.clone(), variants);
    let resolution = resolve(&store, "one", "prod").unwrap();
    assert_eq!(resolution.clone(), resolution);
    let report = coverage(&store, "one", "prod").unwrap();
    assert_eq!(report.clone(), report);
    assert_ne!(report.project, project);
    let status = store.sync_status().unwrap();
    assert_eq!(status.clone(), status);
}

#[test]
fn local_value_has_the_time_of_its_operation() {
    let mut store = with_secret();
    let row_time = Timestamp::new(NEW_YEAR, 0).unwrap();
    let logged_at = Timestamp::new(NEW_YEAR + 2 * DAY, 0).unwrap();
    let fresh = Fresh::new(1, row_time, vec![1; 12], 2, logged_at, vec![2; 12]).unwrap();
    store.set_variant_with("K", "prod", "here", &fresh).unwrap();
    assert_eq!(store.snapshot().variants[0].updated_at, "2026-01-03T00:00:00+00:00");
    store.import_sync_operations(&[set("before", 1)]).unwrap();
    assert_eq!(store.get_variant("K", "prod").unwrap().as_deref(), Some("here"));
    store.import_sync_operations(&[set("after", 3)]).unwrap();
    assert_eq!(store.get_variant("K", "prod").unwrap().as_deref(), Some("after"));
}

#[test]
fn devices_come_to_the_same_value() {
    let fresh = |id: u128, seconds: i64| {
        let early = Timestamp::new(NEW_YEAR, 0).unwrap();
        let time = Timestamp::new(NEW_YEAR + seconds, 0).unwrap();
        Fresh::new(id, early, vec![1; 12], id + 1, time, vec![2; 12]).unwrap()
    };
    let mut one = with_secret();
    let mut other = with_secret();
    one.set_variant_with("K", "prod", "older", &fresh(10, 5)).unwrap();
    other.set_variant_with("K", "prod", "newer", &fresh(20, 6)).unwrap();
    let from_one = one.list_sync_operations().unwrap();
    let from_other = other.list_sync_operations().unwrap();
    one.import_sync_operations(&from_other).unwrap();
    other.import_sync_operations(&from_one).unwrap();
    assert_eq!(one.get_variant("K", "prod").unwrap().as_deref(), Some("newer"));
    assert_eq!(other.get_variant("K", "prod").unwrap().as_deref(), Some("newer"));
}

#[test]
fn import_does_not_depend_on_what_is_drawn() {
    let operations = vec![
        operation(
            &Change::EnvironmentAdd { name: "prod".to_string(), description: None },
            NEW_YEAR,
        ),
        operation(
            &Change::ProjectAdd { name: "one".to_string(), description: Some("p".to_string()) },
            NEW_YEAR,
        ),
        operation(&Change::SecretAdd { key: "K".to_string(), description: None }, NEW_YEAR + 1),
        set("a", 1),
        operation(
            &Change::SecretAssign { key: "K".to_string(), project: "one".to_string() },
            NEW_YEAR + 2,
        ),
        operation(
            &Change::SecretRename { from: "K".to_string(), to: "L".to_string() },
            NEW_YEAR + 2 * DAY,
        ),
    ];
    let mut shuffled = operations.clone();
    shuffled.reverse();
    let mut one = Store::open_memory_for_tests().unwrap();
    let mut other = Store::open_memory_for_tests().unwrap();
    assert_eq!(one.import_sync_operations(&operations).unwrap(), 6);
    assert_eq!(other.import_sync_operations(&shuffled).unwrap(), 6);
    assert_eq!(one.list_sync_operations().unwrap(), other.list_sync_operations().unwrap());
    for store in [&one, &other] {
        assert_eq!(store.get_variant("L", "prod").unwrap().as_deref(), Some("a"));
        assert_eq!(store.get_project("one").unwrap().description.as_deref(), Some("p"));
        assert_eq!(store.get_secret("L").unwrap().assigned_project_ids.len(), 1);
        assert!(store.get_secret("K").is_err());
    }
}
