use envctl::commands::{
    check_command, exit_for_complete, exit_status, mask_map, piped_value, plan_run, require_yes,
    resolve_command, sync_init_text, sync_join_text, sync_now_command, sync_pair_text,
    sync_status_command, value_prompt, CommandError, Reply, RunPlan,
};
use envctl::domain::DomainError;
use envctl::dotenv::import_dotenv;
use envctl::entity_commands::{
    environment_command, project_command, secret_command, NameCommand, SecretCommand,
};
use envctl::envmap::EnvMap;
use envctl::registry::SecretRegistry;
use envctl::store::Store;

fn seeded() -> Store {
    let mut store = Store::open_memory_for_tests().unwrap();
    store.add_project("app", None).unwrap();
    store.add_environment("dev", None).unwrap();
    store.add_environment("prod", None).unwrap();
    store.add_secret("A", None).unwrap();
    store.add_secret("B", None).unwrap();
    store.assign_secret("A", "app").unwrap();
    store.assign_secret("B", "app").unwrap();
    store.set_variant("A", "dev", "1").unwrap();
    store.set_variant("B", "dev", "2").unwrap();
    store.set_variant("A", "prod", "3").unwrap();
    store
}

fn said(reply: Reply) -> String {
    assert_eq!(reply.result.unwrap(), 0);
    reply.output
}

fn refused(reply: Reply) -> String {
    assert_eq!(reply.output, "");
    reply.result.unwrap_err().text()
}

fn s(text: &str) -> String {
    text.to_string()
}

#[test]
fn coverage_is_shown_without_values() {
    let store = seeded();
    let reply = resolve_command(&store, "app", "prod");
    assert_eq!(
        said(reply),
        "Project: app\nEnvironment: prod\n\nA\tresolved\nB\tmissing\n"
    );
    let mut empty = Store::open_memory_for_tests().unwrap();
    empty.add_project("p", None).unwrap();
    empty.add_environment("e", None).unwrap();
    assert_eq!(
        said(resolve_command(&empty, "p", "e")),
        "Project: p\nEnvironment: e\n\nNo secrets assigned.\n"
    );
}

#[test]
fn check_tells_gaps_by_its_exit_code() {
    let store = seeded();
    assert_eq!(check_command(&store, Some("app"), Some("dev")).result.unwrap(), 0);
    assert_eq!(check_command(&store, Some("app"), Some("prod")).result.unwrap(), 1);
    let all = check_command(&store, None, None);
    assert_eq!(all.output, "app\tprod\tB\n");
    assert_eq!(all.result.unwrap(), 1);
    assert_eq!(
        refused(check_command(&store, Some("app"), None)),
        "Usage: envctl check or envctl check <project> <environment>\n"
    );
    let mut complete = seeded();
    complete.set_variant("B", "prod", "4").unwrap();
    assert_eq!(
        said(check_command(&complete, None, None)),
        "All project/environment combinations are complete.\n"
    );
}

#[test]
fn program_starts_only_with_all_its_values() {
    let store = seeded();
    let command = vec![s("env"), s("-i")];
    match plan_run(&store, "app", "dev", false, &command) {
        RunPlan::Start { launch, variables } => {
            assert_eq!(launch.program, "env");
            assert_eq!(launch.arguments, vec!["-i"]);
            assert_eq!(variables.get("A"), Some("1"));
            assert_eq!(variables.get("B"), Some("2"));
        }
        RunPlan::Show(reply) => panic!("not started: {reply:?}"),
    }
    match plan_run(&store, "app", "prod", false, &command) {
        RunPlan::Show(reply) => assert_eq!(
            refused(reply),
            "Cannot resolve secrets for project \"app\" in environment \"prod\".\n\nMissing environment variants:\n- B\n"
        ),
        plan => panic!("started: {plan:?}"),
    }
    match plan_run(&store, "app", "dev", false, &[]) {
        RunPlan::Show(reply) => assert!(refused(reply).starts_with("No command provided after --.")),
        plan => panic!("started: {plan:?}"),
    }
    match plan_run(&store, "app", "prod", true, &command) {
        RunPlan::Show(reply) => assert_eq!(reply.result.unwrap(), 1),
        plan => panic!("started: {plan:?}"),
    }
}

#[test]
fn exit_codes_are_bytes() {
    assert_eq!(exit_for_complete(true), 0);
    assert_eq!(exit_for_complete(false), 1);
    assert_eq!(exit_status(Some(3)), 3);
    assert_eq!(exit_status(Some(257)), 1);
    assert_eq!(exit_status(Some(-1)), 255);
    assert_eq!(exit_status(None), 1);
}

#[test]
fn projects_are_managed_by_commands() {
    let mut store = seeded();
    assert_eq!(said(project_command(&mut store, &NameCommand::List)), "app\t2 secrets\n");
    let add = NameCommand::Add { name: s("web") };
    assert_eq!(said(project_command(&mut store, &add)), "Added project \"web\".\n");
    assert_eq!(refused(project_command(&mut store, &add)), "Project \"web\" already exists.\n");
    let rename = NameCommand::Rename { from: s("web"), to: s("site") };
    assert_eq!(
        said(project_command(&mut store, &rename)),
        "Renamed project \"web\" to \"site\".\n"
    );
    let careless = NameCommand::Remove { name: s("site"), yes: false };
    assert_eq!(
        refused(project_command(&mut store, &careless)),
        "Destructive command requires --yes: envctl project remove ... --yes\n"
    );
    let remove = NameCommand::Remove { name: s("site"), yes: true };
    assert_eq!(said(project_command(&mut store, &remove)), "Removed project \"site\".\n");
}

#[test]
fn environments_are_managed_by_commands() {
    let mut store = seeded();
    assert_eq!(
        said(environment_command(&mut store, &NameCommand::List)),
        "dev\t2 variants\nprod\t1 variants\n"
    );
    let add = NameCommand::Add { name: s("test") };
    assert_eq!(said(environment_command(&mut store, &add)), "Added environment \"test\".\n");
    let rename = NameCommand::Rename { from: s("test"), to: s("qa") };
    assert_eq!(
        said(environment_command(&mut store, &rename)),
        "Renamed environment \"test\" to \"qa\".\n"
    );
    let careless = NameCommand::Remove { name: s("dev"), yes: false };
    assert_eq!(
        refused(environment_command(&mut store, &careless)),
        "Destructive command requires --yes: envctl env remove ... --yes\n"
    );
    let remove = NameCommand::Remove { name: s("dev"), yes: true };
    assert_eq!(said(environment_command(&mut store, &remove)), "Removed environment \"dev\".\n");
    assert_eq!(store.get_variant("A", "prod").unwrap().as_deref(), Some("3"));
}

#[test]
fn secrets_are_managed_by_commands() {
    let mut store = seeded();
    let mut run = |command: SecretCommand<String>| secret_command(&mut store, &command);
    assert_eq!(said(run(SecretCommand::List)), "A\t1 projects\nB\t1 projects\n");
    assert_eq!(said(run(SecretCommand::Add { key: s("C") })), "Added secret \"C\".\n");
    assert_eq!(
        said(run(SecretCommand::Rename { from: s("C"), to: s("D") })),
        "Renamed secret \"C\" to \"D\".\n"
    );
    let set = SecretCommand::SetValue { key: s("D"), environment: s("dev"), value: s("x") };
    assert_eq!(said(run(set)), "Set \"D\" for environment \"dev\".\n");
    let assign = SecretCommand::Assign { key: s("D"), project: s("app") };
    assert_eq!(said(run(assign)), "Assigned \"D\" to \"app\".\n");
    let unassign = SecretCommand::Unassign { key: s("D"), project: s("app") };
    assert_eq!(said(run(unassign)), "Unassigned \"D\" from \"app\".\n");
    let unset = SecretCommand::UnsetValue { key: s("D"), environment: s("dev") };
    assert_eq!(said(run(unset)), "Removed \"D\" variant for \"dev\".\n");
    let describe = SecretCommand::Describe { key: s("D"), description: Some(s("text")) };
    assert_eq!(said(run(describe)), "Updated description for \"D\".\n");
    assert_eq!(
        refused(run(SecretCommand::Remove { key: s("D"), yes: false })),
        "Destructive command requires --yes: envctl secret remove ... --yes\n"
    );
    assert_eq!(
        said(run(SecretCommand::Remove { key: s("D"), yes: true })),
        "Removed secret \"D\".\n"
    );
}

#[test]
fn dotenv_text_is_imported() {
    let mut store = seeded();
    let text = b"# comment\nA=\"new value\"\nexport C='3'\n";
    let careless = import_dotenv(&mut store, "app", "dev", ".env", false, Some(text));
    assert_eq!(
        refused(careless),
        "Variant \"A\" for environment \"dev\" already exists. Re-run with --yes to overwrite.\n"
    );
    assert_eq!(store.get_variant("A", "dev").unwrap().as_deref(), Some("1"));
    let reply = import_dotenv(&mut store, "app", "dev", ".env", true, Some(text));
    assert_eq!(
        said(reply),
        "Imported 2 secret(s) into project \"app\" / environment \"dev\".\n"
    );
    assert_eq!(store.get_variant("A", "dev").unwrap().as_deref(), Some("new value"));
    assert_eq!(store.get_variant("C", "dev").unwrap().as_deref(), Some("3"));
    assert_eq!(store.get_secret("C").unwrap().assigned_project_ids.len(), 1);
}

#[test]
fn dotenv_files_that_cannot_be_read_are_refused() {
    let mut store = seeded();
    assert_eq!(
        refused(import_dotenv(&mut store, "app", "dev", "x.env", true, None)),
        "failed to read x.env\n"
    );
    assert_eq!(
        refused(import_dotenv(&mut store, "app", "dev", "x.env", true, Some(b"9=1\n"))),
        "failed to parse dotenv entry in x.env\n"
    );
    assert_eq!(
        refused(import_dotenv(&mut store, "nope", "dev", "x.env", true, Some(b"A=1\n"))),
        "Project \"nope\" not found.\n"
    );
    assert_eq!(
        refused(import_dotenv(&mut store, "app", "nope", "x.env", true, Some(b"A=1\n"))),
        "Environment \"nope\" not found.\n"
    );
}

#[test]
fn log_is_told_in_words() {
    let empty = Store::open_memory_for_tests().unwrap();
    assert_eq!(said(sync_status_command(&empty)), "Operations: 0\nLatest: none\n");
    let store = seeded();
    let text = said(sync_status_command(&store));
    assert!(text.starts_with("Operations: 10\nLatest: "));
    assert!(text.contains("\tvariant.set\t"));
    assert_eq!(
        said(sync_now_command(&store)),
        "No P2P peers configured in this build. Use sync export/import to move 10 local operation(s).\n"
    );
}

#[test]
fn pairing_is_told_in_words() {
    assert_eq!(sync_init_text("k", "d"), "Initialized sync key: k\nDevice id: d\n");
    assert_eq!(
        sync_pair_text("c", "d"),
        "Pairing code: c\nDevice id: d\nShare this code with the joining device while this device is online.\n"
    );
    assert_eq!(
        sync_join_text("d", "k", "c", 32),
        "Joined trusted sync set as device d.\nUsing sync key: k\nAccepted pairing code: c\nLoaded 32 bytes of sync key material.\n"
    );
}

#[test]
fn piped_values_lose_their_line_end() {
    assert_eq!(piped_value("value\r\n\n"), "value");
    assert_eq!(piped_value(" value "), " value ");
    assert_eq!(value_prompt("A", "dev"), "Value for A [dev]: ");
}

#[test]
fn masks_hide_values() {
    let mut map = EnvMap::new();
    map.insert(s("A"), s("1"));
    assert_eq!(mask_map(&map), vec![(s("A"), s("********"))]);
}

#[test]
fn removals_have_to_be_confirmed() {
    assert!(require_yes(true, "project remove").is_ok());
    assert!(require_yes(false, "project remove").is_err());
    let error = CommandError::Domain(DomainError::EnvironmentNotFound(s("x")));
    assert_eq!(error.text(), "Environment \"x\" not found.\n");
}

#[test]
fn imported_entries_are_read_back() {
    let mut store = Store::open_memory_for_tests().unwrap();
    store.add_project("app", None).unwrap();
    store.add_environment("dev", None).unwrap();
    let text = "A=1\nB=\"two words\"\nA=3\n";
    let reply = import_dotenv(&mut store, "app", "dev", ".env", true, Some(text.as_bytes()));
    assert!(reply.result.is_ok());
    assert_eq!(store.get_variant("A", "dev").unwrap().as_deref(), Some("3"));
    assert_eq!(store.get_variant("B", "dev").unwrap().as_deref(), Some("two words"));
}
