//! What the functions that answer a caller promise for every call.

use crate::commands::{
    check_command, coverage_text, exit_for_complete, exit_status, mask_map, piped_value, plan_run,
    require_yes, resolve_command, status_text, sync_init_text, sync_join_text, sync_now_command,
    sync_pair_text, sync_status_command, value_prompt, CommandError, CommandErrorView, Reply,
    RunPlan,
};
use crate::crypto::{decrypt_value, encrypt_with_nonce, CryptoError, EncryptedValue, MasterKey};
use crate::domain::{
    env_entries, CoverageReport, DomainErrorView, Environment, Project, Resolution,
    ResolvedSecretView, Secret,
};
use crate::envmap::{ascending, entry_views, mapping, EntryView, EnvMap};
use crate::error::{StoreError, StoreErrorView};
use crate::exchange::{export_bundle, export_text};
use crate::ids::id_text;
use crate::judging::{
    all_set, law_check_tells_every_gap, law_coverage_tells_which_values_are_set,
    law_resolution_gives_every_assigned_value, law_run_gives_every_assigned_value,
    law_variables_are_the_resolved_values,
};
use crate::manifest::{
    law_no_text_adds_a_line, line_ends, manifest, render_secret, SecretManifestOptions,
};
use crate::order::{lemma_collected, lemma_ordered, ordered, views};
use crate::reading::{
    law_records_are_given_as_they_are, law_records_are_listed_by_name,
    law_status_tells_the_latest_operation,
};
use crate::registry::{coverage, coverage_result, resolve, resolve_result, SecretRegistry};
use crate::runner::{split_command, Launch, RunnerError};
use crate::snapshot::Snapshot;
use crate::store::Store;
use crate::sync::{
    device_file, law_device_file_is_read_back, open_bundle, parse_device, seal_bundle_with,
    DeviceIdentity, EncryptedBundle, SyncBundle, SyncError,
};
use crate::tables::{
    lemma_operation_order, log_order, OperationRowView, SyncOperation, SyncOperationView,
    SyncStatus, Table,
};
use crate::text::{
    decimal, decimal_text, lemma_text_before_total, opt_text, text_before, texts, trim, white_space,
};
use crate::told::{
    cut_out, law_numbers_are_read_back, law_piped_value_lacks_only_line_ends, law_trimming,
    number_in,
};
use crate::tui::displaying::{law_cut_text_keeps_its_beginning, law_filled_text_ends_in_spaces};
use crate::tui::paint::{pad, truncate};
use vstd::prelude::*;

verus! {

/// A program's exit code is passed on where it is a code at all, and a program without one has
/// failed; a check exits with zero where all is complete, and with one where it is not.
pub proof fn law_exit_codes(code: Option<i32>, r: u8, is_complete: bool, e: u8)
    requires
        call_ensures(exit_status, (code,), r),
        call_ensures(exit_for_complete, (is_complete,), e),
    ensures
        code is None ==> r == 1,
        code matches Some(n) ==> (0 <= n <= 255 ==> r == n),
        e == 0 <==> is_complete,
        e <= 1,
{
}

/// A removal goes on where it is confirmed, and nowhere else.
pub proof fn law_removals_are_confirmed(yes: bool, command: &str, r: Result<(), CommandError>)
    requires
        call_ensures(require_yes, (yes, command), r),
    ensures
        r is Ok <==> yes,
        r matches Err(error) ==> error@ == CommandErrorView::Other(
            "Destructive command requires --yes: envctl "@ + command@ + " ... --yes"@,
        ),
{
}

/// What the commands of the exchange print.
pub proof fn law_exchange_texts(store: &Store, now: Reply, status: Reply)
    requires
        call_ensures(sync_now_command, (store,), now),
        call_ensures(sync_status_command, (store,), status),
    ensures
        store@.status() matches Ok(state) ==> {
            &&& now@.result == Ok::<u8, CommandErrorView>(0)
            &&& now@.output
                == "No P2P peers configured in this build. Use sync export/import to move "@
                + decimal_text(state.operation_count) + " local operation(s).\n"@
            &&& status@.result == Ok::<u8, CommandErrorView>(0)
            &&& status@.output == status_text(state)
        },
        store@.status() matches Err(error) ==> {
            &&& now@.result == Err::<u8, CommandErrorView>(CommandErrorView::Store(error))
            &&& status@.result == Err::<u8, CommandErrorView>(CommandErrorView::Store(error))
        },
{
}

/// What asks for a value and what tells of devices, keys and bundles names them.
pub proof fn law_texts_name_their_subjects(
    a: &str,
    b: &str,
    c: &str,
    n: usize,
    prompt: String,
    exported: String,
    begun: String,
    paired: String,
    joined: String,
)
    requires
        call_ensures(value_prompt, (a, b), prompt),
        call_ensures(export_text, (a,), exported),
        call_ensures(sync_init_text, (a, b), begun),
        call_ensures(sync_pair_text, (a, b), paired),
        call_ensures(sync_join_text, (a, b, c, n), joined),
    ensures
        prompt@ == "Value for "@ + a@ + " ["@ + b@ + "]: "@,
        exported@ == "Exported encrypted sync bundle: "@ + a@ + "\n"@,
        begun@ == "Initialized sync key: "@ + a@ + "\nDevice id: "@ + b@ + "\n"@,
        paired@ == "Pairing code: "@ + a@ + "\nDevice id: "@ + b@
            + "\nShare this code with the joining device while this device is online.\n"@,
        joined@ == "Joined trusted sync set as device "@ + a@ + ".\nUsing sync key: "@ + b@
            + "\nAccepted pairing code: "@ + c@ + "\nLoaded "@ + decimal_text(n as nat)
            + " bytes of sync key material.\n"@,
{
}

/// The coverage that is shown is that of the project in the environment, and showing it succeeds
/// whatever is missing.
pub proof fn law_shown_coverage(store: &Store, project: &str, environment: &str, r: Reply)
    requires
        call_ensures(resolve_command, (store, project, environment), r),
        store@.well_formed(),
        store@.values_open(),
    ensures
        store@.record(Table::Projects, project@) is Some && store@.record(
            Table::Environments,
            environment@,
        ) is Some ==> r@.result == Ok::<u8, CommandErrorView>(0) && r@.output == coverage_text(
            coverage_result(store, project@, environment@)->Ok_0,
        ),
        store@.record(Table::Projects, project@) is None ==> r@.result == Err::<
            u8,
            CommandErrorView,
        >(
            CommandErrorView::Store(
                StoreErrorView::Domain(DomainErrorView::ProjectNotFound(project@)),
            ),
        ),
{
    law_coverage_tells_which_values_are_set(store, project@, environment@);
}

/// A check of everything exits with zero where every project has its values in every
/// environment, and with one where it does not.
pub proof fn law_checks_judge_everything(store: &Store, r: Reply)
    requires
        call_ensures(check_command, (store, None::<&str>, None::<&str>), r),
        store@.well_formed(),
        store@.values_open(),
    ensures
        r@.result == Ok::<u8, CommandErrorView>(
            if forall|p: Seq<char>, e: Seq<char>|
                (#[trigger] store@.record(Table::Projects, p)) is Some && (#[trigger] store@.record(
                    Table::Environments,
                    e,
                )) is Some ==> all_set(store@, p, e) {
                0
            } else {
                1
            },
        ),
{
    law_check_tells_every_gap(store);
}

/// A program is started where it is named, no check was asked for, and every secret that the
/// project needs has a value. It gets every one of them, and no other.
pub proof fn law_started_programs(
    store: &Store,
    project: &str,
    environment: &str,
    check: bool,
    command: &[String],
    r: RunPlan,
)
    requires
        call_ensures(plan_run, (store, project, environment, check, command), r),
        store@.well_formed(),
        store@.values_open(),
        store@.record(Table::Projects, project@) is Some,
        store@.record(Table::Environments, environment@) is Some,
    ensures
        r is Start <==> !check && command@.len() > 0 && all_set(store@, project@, environment@),
        r matches RunPlan::Start { launch, variables } ==> {
            let given = mapping(variables@);
            &&& seq![launch.program@] + texts(launch.arguments@) == texts(command@)
            &&& forall|k: Seq<char>| #[trigger]
                given.contains_key(k) <==> store@.has_assignment(k, project@)
            &&& forall|k: Seq<char>| #[trigger]
                given.contains_key(k) ==> store@.shown(k, environment@) == Some(given[k])
        },
{
    law_run_gives_every_assigned_value(
        r,
        store,
        project@,
        environment@,
        check,
        texts(command@),
    );
}

/// A bundle that is exported holds the whole log: for each operation its identifier, its kind,
/// its payload and its time.
pub proof fn law_exported_bundles(
    store: &Store,
    device_id: String,
    r: Result<SyncBundle, CommandError>,
)
    requires
        call_ensures(export_bundle, (store, device_id), r),
    ensures
        store@.log() is Ok <==> r is Ok,
        r matches Ok(bundle) ==> {
            let log = store@.log()->Ok_0;
            let wires = views(bundle.operations@);
            &&& bundle.version == 1
            &&& bundle.device_id@ == device_id@
            &&& wires.len() == log.len()
            &&& forall|i: int|
                0 <= i < log.len() ==> {
                    &&& (#[trigger] wires[i]).id == id_text(log[i].id)
                    &&& wires[i].kind == log[i].kind
                    &&& wires[i].payload == log[i].payload
                    &&& wires[i].created_at == log[i].created_at.rfc3339()
                }
        },
{
}

/// What was encrypted is decrypted under the same key, and gives the text that it was.
pub proof fn law_decryption_undoes_encryption(
    key: &MasterKey,
    text: &str,
    nonce: Vec<u8>,
    value: EncryptedValue,
    ciphertext: &[u8],
    kept: &[u8],
    r: Result<String, CryptoError>,
)
    requires
        call_ensures(encrypt_with_nonce, (key, text, nonce), Ok(value)),
        ciphertext@ == value.ciphertext@,
        kept@ == value.nonce@,
        call_ensures(decrypt_value, (key, ciphertext, kept), r),
    ensures
        r matches Ok(read) && read@ == text@,
        value.nonce@ == nonce@,
{
}

/// What was sealed is opened under the same key, and gives the text that it was.
pub proof fn law_opening_undoes_sealing(
    key: &[u8],
    body: &str,
    nonce: Vec<u8>,
    bundle: &EncryptedBundle,
    sealed: EncryptedBundle,
    r: Result<String, SyncError>,
)
    requires
        call_ensures(seal_bundle_with, (key, body, nonce), Ok(sealed)),
        bundle@ == sealed@,
        call_ensures(open_bundle, (key, bundle), r),
    ensures
        r matches Ok(read) && read@ == body@,
        bundle.version == 1,
{
}

/// A key is read back from its text.
pub proof fn law_keys_are_read_back(
    key: &MasterKey,
    text: String,
    read: &str,
    r: Result<MasterKey, CryptoError>,
)
    requires
        call_ensures(MasterKey::to_base64, (key,), text),
        read@ == text@,
        call_ensures(MasterKey::from_base64, (read,), r),
    ensures
        r matches Ok(again) && again@ == key@,
{
}

/// A value that is piped in is the text without the line breaks at its end.
pub proof fn law_piped_values(text: &str, r: String)
    requires
        call_ensures(piped_value, (text,), r),
    ensures
        r@.len() <= text@.len(),
        r@ == text@.take(r@.len() as int),
        r@.len() > 0 ==> r@.last() != '\n' && r@.last() != '\r',
        forall|i: int|
            r@.len() <= i < text@.len() ==> (#[trigger] text@[i]) == '\n' || text@[i] == '\r',
{
    law_piped_value_lacks_only_line_ends(text@);
}

/// A command is its program and its arguments, and one without a program is refused.
pub proof fn law_split_commands(command: &[String], r: Result<Launch, RunnerError>)
    requires
        call_ensures(split_command, (command,), r),
    ensures
        r is Ok <==> command@.len() > 0,
        r matches Ok(launch) ==> seq![launch.program@] + texts(launch.arguments@) == texts(
            command@,
        ),
{
    if let Ok(launch) = r {
        assert(texts(command@.skip(1)) =~= texts(command@).skip(1));
        assert(seq![launch.program@] + texts(launch.arguments@) =~= texts(command@));
    }
}

/// The coverage of a project in an environment has a line for each secret that is assigned to the
/// project, and says of each whether a value is read for it there.
pub proof fn law_coverage_of_a_store(
    store: &Store,
    project: &str,
    environment: &str,
    r: Result<CoverageReport, StoreError>,
)
    requires
        call_ensures(coverage::<Store>, (store, project, environment), r),
        store@.well_formed(),
        store@.values_open(),
        store@.record(Table::Projects, project@) is Some,
        store@.record(Table::Environments, environment@) is Some,
    ensures
        r matches Ok(report) && {
            let items = report@.items;
            &&& forall|i: int|
                0 <= i < items.len() ==> {
                    &&& store@.has_assignment((#[trigger] items[i]).key, project@)
                    &&& items[i].resolved == (store@.shown(items[i].key, environment@) is Some)
                }
            &&& forall|k: Seq<char>| #[trigger]
                store@.has_assignment(k, project@) ==> exists|i: int|
                    0 <= i < items.len() && (#[trigger] items[i]).key == k
        },
{
    law_coverage_tells_which_values_are_set(store, project@, environment@);
}

/// Resolving succeeds where every secret that is assigned to the project has a value, and then
/// the variables are the keys of these secrets, each with its value as it is.
pub proof fn law_resolution_of_a_store(
    store: &Store,
    project: &str,
    environment: &str,
    r: Result<Resolution, StoreError>,
    map: EnvMap,
)
    requires
        call_ensures(resolve::<Store>, (store, project, environment), r),
        r matches Ok(resolution) ==> call_ensures(Resolution::into_env_map, (resolution,), map),
        store@.well_formed(),
        store@.values_open(),
        store@.record(Table::Projects, project@) is Some,
        store@.record(Table::Environments, environment@) is Some,
    ensures
        r is Ok <==> all_set(store@, project@, environment@),
        r is Ok ==> {
            let given = mapping(map@);
            &&& ascending(map@)
            &&& forall|k: Seq<char>| #[trigger]
                given.contains_key(k) <==> store@.has_assignment(k, project@)
            &&& forall|k: Seq<char>| #[trigger]
                given.contains_key(k) ==> store@.shown(k, environment@) == Some(given[k])
        },
{
    law_resolution_gives_every_assigned_value(store, project@, environment@);
    if let Ok(resolution) = r {
        let secrets = resolution@.secrets;
        let key_of = |r: ResolvedSecretView| r.key;
        assert forall|i: int, j: int| 0 <= i < j < secrets.len() implies key_of(
            #[trigger] secrets[i],
        ) != key_of(#[trigger] secrets[j]) by {
            lemma_text_before_total(secrets[i].key, secrets[j].key);
        }
        law_variables_are_the_resolved_values(secrets);
        let given = mapping(map@);
        assert forall|k: Seq<char>| #[trigger] given.contains_key(k) <==> store@.has_assignment(
            k,
            project@,
        ) by {
            if given.contains_key(k) {
                let i = choose|i: int| 0 <= i < secrets.len() && (#[trigger] secrets[i]).key == k;
                assert(store@.has_assignment(secrets[i].key, project@));
            }
            if store@.has_assignment(k, project@) {
                let i = choose|i: int| 0 <= i < secrets.len() && (#[trigger] secrets[i]).key == k;
                assert(given.contains_key(secrets[i].key));
            }
        }
        assert forall|k: Seq<char>| #[trigger] given.contains_key(k) implies store@.shown(
            k,
            environment@,
        ) == Some(given[k]) by {
            let i = choose|i: int| 0 <= i < secrets.len() && (#[trigger] secrets[i]).key == k;
            assert(store@.shown(secrets[i].key, environment@) == Some(secrets[i].value));
        }
    }
}

/// Variables that are listed with masks keep their names and tell no value.
pub proof fn law_masked_variables(map: &EnvMap, r: Vec<(String, String)>, i: int)
    requires
        call_ensures(mask_map, (map,), r),
    ensures
        r@.len() == map@.len(),
        0 <= i < r@.len() ==> r@[i].0@ == map@[i].0 && r@[i].1@ == "********"@,
{
    let list = entry_views(r@);
    assert(list.len() == r@.len());
    if 0 <= i < r@.len() {
        assert(list[i] == (r@[i].0@, r@[i].1@));
    }
}

/// A value that is read is the one that the row of its secret and environment holds, and every
/// reading of a name finds its row.
pub proof fn law_readings(
    store: &Store,
    key: &str,
    name: &str,
    value: Result<Option<String>, StoreError>,
    project: Result<Project, StoreError>,
    environment: Result<Environment, StoreError>,
    secret: Result<Secret, StoreError>,
)
    requires
        call_ensures(<Store as SecretRegistry>::get_variant, (store, key, name), value),
        call_ensures(<Store as SecretRegistry>::get_project, (store, name), project),
        call_ensures(<Store as SecretRegistry>::get_environment, (store, name), environment),
        call_ensures(<Store as SecretRegistry>::get_secret, (store, name), secret),
        store@.well_formed(),
    ensures
        value matches Ok(read) ==> opt_text(read) == store@.shown(key@, name@),
        store@.record(Table::Secrets, key@) is None || store@.record(
            Table::Environments,
            name@,
        ) is None ==> value is Err,
        project is Ok <==> store@.record(Table::Projects, name@) is Some,
        project matches Ok(found) ==> found@.name == name@ && found@.description == store@.record(
            Table::Projects,
            name@,
        )->0.description,
        environment is Ok <==> store@.record(Table::Environments, name@) is Some,
        environment matches Ok(found) ==> found@.name == name@ && found@.id == store@.record(
            Table::Environments,
            name@,
        )->0.id,
        secret is Ok <==> store@.record(Table::Secrets, name@) is Some,
        secret matches Ok(found) ==> found@.key == name@ && found@.description == store@.record(
            Table::Secrets,
            name@,
        )->0.description,
{
    law_records_are_given_as_they_are(store, name@);
}

/// The lists of projects, environments and secrets have every one of them, by their names.
pub proof fn law_lists(
    store: &Store,
    projects: Result<Vec<Project>, StoreError>,
    environments: Result<Vec<Environment>, StoreError>,
    secrets: Result<Vec<Secret>, StoreError>,
)
    requires
        call_ensures(<Store as SecretRegistry>::list_projects, (store,), projects),
        call_ensures(<Store as SecretRegistry>::list_environments, (store,), environments),
        call_ensures(<Store as SecretRegistry>::list_secrets, (store,), secrets),
        store@.well_formed(),
    ensures
        projects matches Ok(list) && views(list@).len() == store@.projects.len() && forall|
            i: int,
            j: int,
        |
            0 <= i < j < views(list@).len() ==> text_before(
                (#[trigger] views(list@)[i]).name,
                (#[trigger] views(list@)[j]).name,
            ),
        environments matches Ok(list) && views(list@).len() == store@.environments.len() && forall|
            i: int,
            j: int,
        |
            0 <= i < j < views(list@).len() ==> text_before(
                (#[trigger] views(list@)[i]).name,
                (#[trigger] views(list@)[j]).name,
            ),
        secrets matches Ok(list) && views(list@).len() == store@.secrets.len() && forall|
            i: int,
            j: int,
        |
            0 <= i < j < views(list@).len() ==> text_before(
                (#[trigger] views(list@)[i]).key,
                (#[trigger] views(list@)[j]).key,
            ),
{
    law_records_are_listed_by_name(store);
}

/// A store that was written down is read again as it was.
pub proof fn law_stores_are_read_back(
    store: &Store,
    key: MasterKey,
    kept: Snapshot,
    tables: &Snapshot,
    r: Result<Store, StoreError>,
)
    requires
        call_ensures(Store::snapshot, (store,), kept),
        tables@ == kept@,
        key@ == store@.key,
        call_ensures(Store::load, (key, tables), r),
        store@.well_formed(),
        store@.ordinary_times(),
    ensures
        r matches Ok(again) && again@ == store@,
{
}

/// The log that is listed has every operation once, in the order of their times, and the state of
/// the log tells its last.
pub proof fn law_listed_log(
    store: &Store,
    r: Result<Vec<SyncOperation>, StoreError>,
    status: Result<SyncStatus, StoreError>,
)
    requires
        call_ensures(Store::list_sync_operations, (store,), r),
        call_ensures(Store::sync_status, (store,), status),
        store@.well_formed(),
    ensures
        r matches Ok(list) ==> {
            let log = views(list@);
            &&& log.len() == store@.operations.len()
            &&& forall|i: int, j: int|
                0 <= i < j < log.len() ==> !(#[trigger] log[j]).created_at.earlier(
                    (#[trigger] log[i]).created_at,
                )
            &&& status matches Ok(state) && state@.operation_count == log.len() && (
            state@.latest_operation is Some <==> log.len() > 0) && (log.len() > 0
                ==> state@.latest_operation == Some(log.last()))
        },
{
    if r is Ok {
        let log = store@.log()->Ok_0;
        law_status_tells_the_latest_operation(store@);
        lemma_operation_order();
        let rows = ordered(store@.operations, log_order());
        let step = |row: OperationRowView| store@.operation_opened(row);
        lemma_ordered(store@.operations, log_order());
        lemma_collected(rows, step);
        assert forall|i: int, j: int| 0 <= i < j < log.len() implies !(
        #[trigger] log[j]).created_at.earlier((#[trigger] log[i]).created_at) by {
            assert(step(rows[i]) == Ok::<SyncOperationView, StoreErrorView>(log[i]));
            assert(step(rows[j]) == Ok::<SyncOperationView, StoreErrorView>(log[j]));
            assert(!log_order()(rows[j], rows[i]));
        }
    }
}

/// A manifest is rendered where every secret that is assigned to the project has a value, and
/// nowhere else. It has a line for each of them: the lines of its text are those of the manifest
/// of the keys and their values.
pub proof fn law_rendered_manifests(
    store: &Store,
    project: &str,
    environment: &str,
    options: &SecretManifestOptions,
    r: Result<String, StoreError>,
)
    requires
        call_ensures(render_secret::<Store>, (store, project, environment, options), r),
        store@.well_formed(),
        store@.values_open(),
        store@.record(Table::Projects, project@) is Some,
        store@.record(Table::Environments, environment@) is Some,
    ensures
        r is Ok <==> all_set(store@, project@, environment@),
        r matches Ok(text) ==> exists|entries: Seq<EntryView>|
            {
                &&& text@ == #[trigger] manifest(
                    project@,
                    environment@,
                    entries,
                    options.name@,
                    options.namespace@,
                )
                &&& line_ends(text@) == 12 + entries.len()
                &&& ascending(entries)
                &&& forall|k: Seq<char>| #[trigger]
                    mapping(entries).contains_key(k) <==> store@.has_assignment(k, project@)
                &&& forall|k: Seq<char>| #[trigger]
                    mapping(entries).contains_key(k) ==> store@.shown(k, environment@) == Some(
                        mapping(entries)[k],
                    )
            },
{
    law_resolution_gives_every_assigned_value(store, project@, environment@);
    if r is Ok {
        let secrets = resolve_result(store, project@, environment@)->Ok_0.secrets;
        let key_of = |r: ResolvedSecretView| r.key;
        assert forall|i: int, j: int| 0 <= i < j < secrets.len() implies key_of(
            #[trigger] secrets[i],
        ) != key_of(#[trigger] secrets[j]) by {
            lemma_text_before_total(secrets[i].key, secrets[j].key);
        }
        law_variables_are_the_resolved_values(secrets);
        let entries = env_entries(secrets);
        law_no_text_adds_a_line(
            project@,
            environment@,
            entries,
            options.name@,
            options.namespace@,
        );
        let given = mapping(entries);
        assert forall|k: Seq<char>| #[trigger] given.contains_key(k) <==> store@.has_assignment(
            k,
            project@,
        ) by {
            if given.contains_key(k) {
                let i = choose|i: int| 0 <= i < secrets.len() && (#[trigger] secrets[i]).key == k;
                assert(store@.has_assignment(secrets[i].key, project@));
            }
            if store@.has_assignment(k, project@) {
                let i = choose|i: int| 0 <= i < secrets.len() && (#[trigger] secrets[i]).key == k;
                assert(given.contains_key(secrets[i].key));
            }
        }
        assert forall|k: Seq<char>| #[trigger] given.contains_key(k) implies store@.shown(
            k,
            environment@,
        ) == Some(given[k]) by {
            let i = choose|i: int| 0 <= i < secrets.len() && (#[trigger] secrets[i]).key == k;
            assert(store@.shown(secrets[i].key, environment@) == Some(secrets[i].value));
        }
    }
}

/// The helpers for texts: trimming takes white space from the ends alone, a number is read back
/// from its digits, a cut text fits, and a filled one ends in spaces.
pub proof fn law_text_helpers(
    text: &str,
    n: usize,
    max: usize,
    trimmed: String,
    number: String,
    cut: String,
    filled: String,
)
    requires
        call_ensures(trim, (text,), trimmed),
        call_ensures(decimal, (n,), number),
        call_ensures(truncate, (text, max), cut),
        call_ensures(pad, (text, max), filled),
        max > 0,
    ensures
        exists|from: int, to: int| cut_out(trimmed@, text@, from, to),
        trimmed@.len() > 0 ==> !white_space(trimmed@.first()) && !white_space(trimmed@.last()),
        number_in(number@) == n,
        text@.len() <= max ==> cut@ == text@ && filled@.len() == max,
        text@.len() > max ==> cut@.len() == max && cut@.drop_last() == text@.take(max - 1)
            && filled@ == text@,
        filled@.take(text@.len() as int) == text@,
        forall|i: int| text@.len() <= i < filled@.len() ==> (#[trigger] filled@[i]) == ' ',
{
    law_trimming(text@);
    law_numbers_are_read_back(n as nat);
    law_cut_text_keeps_its_beginning(text@, max as nat);
    law_filled_text_ends_in_spaces(text@, max as nat);
}

/// A device is recognised by its file, if its identity is not empty and holds no quotation mark.
pub proof fn law_devices_are_recognised(
    identity: &DeviceIdentity,
    text: String,
    read: &str,
    r: Result<DeviceIdentity, SyncError>,
)
    requires
        call_ensures(device_file, (identity,), text),
        read@ == text@,
        call_ensures(parse_device, (read,), r),
        identity.id@.len() > 0,
        !identity.id@.contains('"'),
    ensures
        r matches Ok(again) && again.id@ == identity.id@,
{
    law_device_file_is_read_back(identity.id@);
}

} // verus!
