use envctl::envmap::EnvMap;
use envctl::manifest::{
    render_secret, render_secret_from_map, yaml_key, yaml_scalar, SecretManifestOptions,
};
use envctl::registry::SecretRegistry;
use envctl::runner::{split_command, RunnerError};
use envctl::store::Store;

fn options() -> SecretManifestOptions {
    SecretManifestOptions { name: "app-secrets".to_string(), namespace: "prod".to_string() }
}

#[test]
fn renders_deterministic_secret_yaml() {
    let mut values = EnvMap::new();
    values.insert("REDIS_URL".to_string(), "redis://localhost".to_string());
    values.insert("DATABASE_URL".to_string(), "postgres://localhost/dev".to_string());

    let manifest = render_secret_from_map("app", "prod", &values, &options());

    assert!(manifest.contains("kind: Secret"));
    assert!(manifest.contains("  DATABASE_URL: \"postgres://localhost/dev\""));
    assert!(manifest.find("DATABASE_URL").unwrap() < manifest.find("REDIS_URL").unwrap());
}

#[test]
fn manifest_of_a_store_holds_the_resolved_values() {
    let mut store = Store::open_memory_for_tests().unwrap();
    store.add_project("app", None).unwrap();
    store.add_environment("prod", None).unwrap();
    store.add_secret("TOKEN", None).unwrap();
    store.assign_secret("TOKEN", "app").unwrap();
    assert!(render_secret(&store, "app", "prod", &options()).is_err());
    store.set_variant("TOKEN", "prod", "a\"b").unwrap();
    let manifest = render_secret(&store, "app", "prod", &options()).unwrap();
    assert!(manifest.contains("  TOKEN: \"a\\\"b\"\n"));
}

#[test]
fn manifest_is_written_line_by_line() {
    let mut values = EnvMap::new();
    values.insert("B C".to_string(), "2".to_string());
    values.insert("A".to_string(), "1".to_string());
    assert_eq!(
        render_secret_from_map("app", "prod", &values, &options()),
        "apiVersion: v1\nkind: Secret\nmetadata:\n  name: \"app-secrets\"\n  namespace: \"prod\"\n  labels:\n    app.kubernetes.io/managed-by: envctl\n  annotations:\n    envctl.io/project: \"app\"\n    envctl.io/environment: \"prod\"\ntype: Opaque\nstringData:\n  A: \"1\"\n  \"B C\": \"2\"\n"
    );
}

#[test]
fn different_values_have_different_scalars() {
    assert_ne!(yaml_scalar("a\\n"), yaml_scalar("a\n"));
    assert_ne!(yaml_scalar("\""), yaml_scalar("\\\""));
}

#[test]
fn scalars_are_quoted() {
    assert_eq!(yaml_scalar("a\\b\"c\nd\re\tf"), "\"a\\\\b\\\"c\\nd\\re\\tf\"");
    assert_eq!(yaml_scalar(""), "\"\"");
}

#[test]
fn plain_keys_stay_plain() {
    assert_eq!(yaml_key("DATABASE_URL"), "DATABASE_URL");
    assert_eq!(yaml_key("a b"), "\"a b\"");
}

#[test]
fn rejects_empty_command() {
    let err = split_command(&[]).unwrap_err();
    assert!(err.message().contains("No command provided"));
}

#[test]
fn command_is_a_program_and_its_arguments() {
    let command = vec!["echo".to_string(), "a".to_string(), "b".to_string()];
    let launch = split_command(&command).unwrap();
    assert_eq!(launch.program, "echo");
    assert_eq!(launch.arguments, vec!["a", "b"]);
    let failure = RunnerError::Spawn("not found".to_string());
    assert_eq!(failure.message(), "failed to spawn command: not found");
}

#[test]
fn later_entry_of_a_map_replaces_the_earlier_one() {
    let mut values = EnvMap::new();
    values.insert("B".to_string(), "1".to_string());
    values.insert("A".to_string(), "2".to_string());
    values.insert("B".to_string(), "3".to_string());
    assert_eq!(values.len(), 2);
    assert_eq!(values.names(), vec!["A", "B"]);
    assert_eq!(values.entry(1), ("B", "3"));
    assert_eq!(values.get("B"), Some("3"));
    assert_eq!(values.get("C"), None);
}

#[test]
fn no_text_adds_a_line_to_a_manifest() {
    let mut values = EnvMap::new();
    values.insert("A".to_string(), "1\n2\r\n3".to_string());
    values.insert("odd\nkey".to_string(), "\"".to_string());
    let options = SecretManifestOptions {
        name: "n\nm".to_string(),
        namespace: "default".to_string(),
    };
    let manifest = render_secret_from_map("p\n", "e", &values, &options);
    let lines: Vec<&str> = manifest.split('\n').collect();
    assert_eq!(lines.len(), 15);
    assert_eq!(lines[3], "  name: \"n\\nm\"");
    assert_eq!(lines[8], "    envctl.io/project: \"p\\n\"");
    assert_eq!(lines[11], "stringData:");
    assert_eq!(lines[12], "  A: \"1\\n2\\r\\n3\"");
    assert_eq!(lines[13], "  \"odd\\nkey\": \"\\\"\"");
    assert_eq!(lines[14], "");
}

#[test]
fn whole_manifest_is_fixed() {
    let mut values = EnvMap::new();
    values.insert("A".to_string(), "1".to_string());
    let options = SecretManifestOptions {
        name: "app-env".to_string(),
        namespace: "default".to_string(),
    };
    assert_eq!(
        render_secret_from_map("app", "prod", &values, &options),
        "apiVersion: v1\nkind: Secret\nmetadata:\n  name: \"app-env\"\n  namespace: \"default\"\n  labels:\n    app.kubernetes.io/managed-by: envctl\n  annotations:\n    envctl.io/project: \"app\"\n    envctl.io/environment: \"prod\"\ntype: Opaque\nstringData:\n  A: \"1\"\n"
    );
}

#[test]
fn undoing_the_escapes_of_a_scalar_gives_the_text() {
    let text = "tab\t quote\" back\\slash\nnew\r \\n";
    let scalar = yaml_scalar(text);
    let mut inside = scalar[1..scalar.len() - 1].chars();
    let mut undone = String::new();
    while let Some(c) = inside.next() {
        let meant = match c {
            '\\' => match inside.next() {
                Some('n') => '\n',
                Some('r') => '\r',
                Some('t') => '\t',
                Some(other) => other,
                None => panic!("a backslash alone"),
            },
            other => other,
        };
        undone.push(meant);
    }
    assert_eq!(undone, text);
}
