//! What the requests and the commands do to a store when they are called, whatever is drawn for
//! them.

use crate::commands::Reply;
use crate::domain::{Environment, Project, Secret};
use crate::dotenv::{
    bytes_view, dotenv_entries, entries_read_back, entry_key, import_dotenv, import_outcome,
    last_of_key, read_from, ItemView,
};
use crate::effects::{
    same_assignments, same_assignments_but, same_elsewhere, same_names_but, same_values,
    same_values_but,
};
use crate::entity_commands::{
    environment_command, environment_outcome, project_command, project_outcome, secret_command,
    secret_asked, secret_outcome, NameCommand, SecretCommand,
};
use crate::error::StoreError;
use crate::exchange::{bundle_imported, import_bundle};
use crate::exchanged::{
    is_row_of, law_bundle_import, law_import_logs_the_list, log_gains, readable,
};
use crate::ids::id_of_text;
use crate::importing::{law_import_assigns_every_entry, law_import_command, leaves_the_rest};
use crate::laws::lemma_set_elsewhere;
use crate::order::views;
use crate::registry::{result_view, unit_view, SecretRegistry};
use crate::replay::drawn;
use crate::replaying::law_import_replays_and_logs;
use crate::requested::{
    law_adding, law_assigning, law_describing, law_removing, law_removing_an_environment,
    law_renaming, law_setting, law_unsetting, only_gone,
};
use crate::store::{answered, Fresh, FreshView, Store};
use crate::sync::SyncBundle;
use crate::tables::{StoreView, SyncOperation, Table};
use crate::text::opt_str;
use crate::tui::acting::{
    law_entered_value, law_space_toggles_the_assignment, law_space_turns_the_assignment_round,
};
use crate::tui::state::{App, EditTarget, EditorView, Level, Mode};
use crate::tui::update::{KeyCode, KeyEvent};
use vstd::prelude::*;

verus! {

/// Whether a name was added to a table, with its description, and nothing else changed.
pub open spec fn adds(
    s: StoreView,
    t: StoreView,
    table: Table,
    name: Seq<char>,
    description: Option<Seq<char>>,
) -> bool {
    &&& s.record(table, name) is None
    &&& t.record(table, name) matches Some(row) && row.name == name && row.description
        == description
    &&& same_names_but(s, t, table, name)
    &&& same_elsewhere(s, t, table)
    &&& same_values(s, t)
    &&& same_assignments(s, t)
    &&& t.operations.len() == s.operations.len() + 1
}

/// Whether the row of a name has another name, and nothing else of the tables of names changed.
pub open spec fn renames(
    s: StoreView,
    t: StoreView,
    table: Table,
    from: Seq<char>,
    to: Seq<char>,
) -> bool {
    &&& s.record(table, from) is Some
    &&& s.record(table, to) is None
    &&& t.record(table, from) is None
    &&& t.record(table, to) matches Some(row) && row.id == s.record(table, from)->0.id
        && row.description == s.record(table, from)->0.description
    &&& forall|n: Seq<char>|
        n != from && n != to ==> #[trigger] t.record(table, n) == s.record(table, n)
    &&& same_elsewhere(s, t, table)
    &&& t.operations.len() == s.operations.len() + 1
}

/// Whether a request was refused, and nothing changed.
pub open spec fn refused<T>(s: StoreView, t: StoreView, r: Result<T, StoreError>) -> bool {
    r is Err && t == s
}

/// Adding a project: a name that is there is refused;
/// a success adds the name, and gives what was added.
pub proof fn law_adding_a_project(
    store: &mut Store,
    name: &str,
    description: Option<&str>,
    r: Result<Project, StoreError>,
)
    requires
        call_ensures(<Store as SecretRegistry>::add_project, (store, name, description), r),
        old(store)@.well_formed(),
    ensures
        old(store)@.record(Table::Projects, name@) is Some ==> refused(
            old(store)@,
            final(store)@,
            r,
        ),
        r matches Ok(added) ==> {
            &&& adds(
                old(store)@,
                final(store)@,
                Table::Projects,
                name@,
                opt_str(description),
            )
            &&& added@.name == name@
            &&& added@.description == opt_str(description)
        },
{
    let fresh = choose|fresh: FreshView| #[trigger]
        fresh.valid() && final(store)@ == old(store)@.record_added(
            Table::Projects,
            name@,
            opt_str(description),
            fresh,
        ).0 && result_view(r) == answered(
            old(store)@.record_added(Table::Projects, name@, opt_str(description), fresh).1,
            final(store)@.project_named(name@),
        );
    law_adding(old(store)@, Table::Projects, name@, opt_str(description), fresh);
}

/// Renaming a project: a name that is not there and
/// one that is taken are refused; a success gives the row its new name, and what belongs to it
/// stays with it.
pub proof fn law_renaming_a_project(
    store: &mut Store,
    old_name: &str,
    new_name: &str,
    r: Result<Project, StoreError>,
)
    requires
        call_ensures(<Store as SecretRegistry>::rename_project, (store, old_name, new_name), r),
        old(store)@.well_formed(),
    ensures
        old(store)@.record(Table::Projects, old_name@) is None || old(store)@.record(
            Table::Projects,
            new_name@,
        ) is Some ==> refused(old(store)@, final(store)@, r),
        r matches Ok(renamed) ==> {
            &&& renames(old(store)@, final(store)@, Table::Projects, old_name@, new_name@)
            &&& renamed@.name == new_name@
            &&& forall|k: Seq<char>| #[trigger]
                final(store)@.has_assignment(k, new_name@) == old(store)@.has_assignment(
                    k,
                    old_name@,
                )
            &&& same_values(old(store)@, final(store)@)
        },
{
    let fresh = choose|fresh: FreshView| #[trigger]
        fresh.valid() && final(store)@ == old(store)@.record_renamed(
            Table::Projects,
            old_name@,
            new_name@,
            fresh,
        ).0 && result_view(r) == answered(
            old(store)@.record_renamed(Table::Projects, old_name@, new_name@, fresh).1,
            final(store)@.project_named(new_name@),
        );
    law_renaming(old(store)@, Table::Projects, old_name@, new_name@, fresh);
}

/// Removing a project: a name that is not there is refused; a success takes the name away with what
/// belongs to it, and nothing else.
pub proof fn law_removing_a_project(store: &mut Store, name: &str, r: Result<(), StoreError>)
    requires
        call_ensures(<Store as SecretRegistry>::remove_project, (store, name), r),
        old(store)@.well_formed(),
    ensures
        old(store)@.record(Table::Projects, name@) is None ==> refused(
            old(store)@,
            final(store)@,
            r,
        ),
        r is Ok ==> old(store)@.record(Table::Projects, name@) is Some && only_gone(
            old(store)@,
            final(store)@,
            Table::Projects,
            name@,
        ),
{
    let fresh = choose|fresh: FreshView| #[trigger]
        fresh.valid() && final(store)@ == old(store)@.record_removed(
            Table::Projects,
            name@,
            fresh,
        ).0 && unit_view(r) == old(store)@.record_removed(Table::Projects, name@, fresh).1;
    law_removing(old(store)@, Table::Projects, name@, fresh);
}

/// Adding an environment: a name that is there is refused;
/// a success adds the name, and gives what was added.
pub proof fn law_adding_an_environment(
    store: &mut Store,
    name: &str,
    description: Option<&str>,
    r: Result<Environment, StoreError>,
)
    requires
        call_ensures(<Store as SecretRegistry>::add_environment, (store, name, description), r),
        old(store)@.well_formed(),
    ensures
        old(store)@.record(Table::Environments, name@) is Some ==> refused(
            old(store)@,
            final(store)@,
            r,
        ),
        r matches Ok(added) ==> {
            &&& adds(
                old(store)@,
                final(store)@,
                Table::Environments,
                name@,
                opt_str(description),
            )
            &&& added@.name == name@
            &&& added@.description == opt_str(description)
        },
{
    let fresh = choose|fresh: FreshView| #[trigger]
        fresh.valid() && final(store)@ == old(store)@.record_added(
            Table::Environments,
            name@,
            opt_str(description),
            fresh,
        ).0 && result_view(r) == answered(
            old(store)@.record_added(Table::Environments, name@, opt_str(description), fresh).1,
            final(store)@.environment_named(name@),
        );
    law_adding(old(store)@, Table::Environments, name@, opt_str(description), fresh);
}

/// Renaming an environment: a name that is not there and
/// one that is taken are refused; a success gives the row its new name, and what belongs to it
/// stays with it.
pub proof fn law_renaming_an_environment(
    store: &mut Store,
    old_name: &str,
    new_name: &str,
    r: Result<Environment, StoreError>,
)
    requires
        call_ensures(<Store as SecretRegistry>::rename_environment, (store, old_name, new_name), r),
        old(store)@.well_formed(),
    ensures
        old(store)@.record(Table::Environments, old_name@) is None || old(store)@.record(
            Table::Environments,
            new_name@,
        ) is Some ==> refused(old(store)@, final(store)@, r),
        r matches Ok(renamed) ==> {
            &&& renames(old(store)@, final(store)@, Table::Environments, old_name@, new_name@)
            &&& renamed@.name == new_name@
            &&& forall|k: Seq<char>| #[trigger]
                final(store)@.shown(k, new_name@) == old(store)@.shown(k, old_name@)
            &&& same_assignments(old(store)@, final(store)@)
        },
{
    let fresh = choose|fresh: FreshView| #[trigger]
        fresh.valid() && final(store)@ == old(store)@.record_renamed(
            Table::Environments,
            old_name@,
            new_name@,
            fresh,
        ).0 && result_view(r) == answered(
            old(store)@.record_renamed(Table::Environments, old_name@, new_name@, fresh).1,
            final(store)@.environment_named(new_name@),
        );
    law_renaming(old(store)@, Table::Environments, old_name@, new_name@, fresh);
}

/// Removing an environment: a name that is not there is refused, and without force one that has a
/// value; a success takes the name away with its values, and nothing else.
pub proof fn law_removing_an_environment_called(
    store: &mut Store,
    name: &str,
    force: bool,
    r: Result<(), StoreError>,
)
    requires
        call_ensures(<Store as SecretRegistry>::remove_environment, (store, name, force), r),
        old(store)@.well_formed(),
    ensures
        old(store)@.record(Table::Environments, name@) is None ==> refused(
            old(store)@,
            final(store)@,
            r,
        ),
        !force && (exists|k: Seq<char>| (#[trigger] old(store)@.shown(k, name@)) is Some)
            ==> refused(old(store)@, final(store)@, r),
        r is Ok ==> old(store)@.record(Table::Environments, name@) is Some && only_gone(
            old(store)@,
            final(store)@,
            Table::Environments,
            name@,
        ),
{
    let fresh = choose|fresh: FreshView| #[trigger]
        fresh.valid() && final(store)@ == old(store)@.environment_removed(name@, force, fresh).0
            && unit_view(r) == old(store)@.environment_removed(name@, force, fresh).1;
    law_removing_an_environment(old(store)@, name@, force, fresh);
}

/// Adding a secret: a name that is there is refused;
/// a success adds the name, and gives what was added.
pub proof fn law_adding_a_secret(
    store: &mut Store,
    key: &str,
    description: Option<&str>,
    r: Result<Secret, StoreError>,
)
    requires
        call_ensures(<Store as SecretRegistry>::add_secret, (store, key, description), r),
        old(store)@.well_formed(),
    ensures
        old(store)@.record(Table::Secrets, key@) is Some ==> refused(
            old(store)@,
            final(store)@,
            r,
        ),
        r matches Ok(added) ==> {
            &&& adds(
                old(store)@,
                final(store)@,
                Table::Secrets,
                key@,
                opt_str(description),
            )
            &&& added@.key == key@
            &&& added@.description == opt_str(description)
        },
{
    let fresh = choose|fresh: FreshView| #[trigger]
        fresh.valid() && final(store)@ == old(store)@.record_added(
            Table::Secrets,
            key@,
            opt_str(description),
            fresh,
        ).0 && result_view(r) == answered(
            old(store)@.record_added(Table::Secrets, key@, opt_str(description), fresh).1,
            final(store)@.secret_keyed(key@),
        );
    law_adding(old(store)@, Table::Secrets, key@, opt_str(description), fresh);
}

/// Renaming a secret: a name that is not there and
/// one that is taken are refused; a success gives the row its new name, and what belongs to it
/// stays with it.
pub proof fn law_renaming_a_secret(
    store: &mut Store,
    old_key: &str,
    new_key: &str,
    r: Result<Secret, StoreError>,
)
    requires
        call_ensures(<Store as SecretRegistry>::rename_secret, (store, old_key, new_key), r),
        old(store)@.well_formed(),
    ensures
        old(store)@.record(Table::Secrets, old_key@) is None || old(store)@.record(
            Table::Secrets,
            new_key@,
        ) is Some ==> refused(old(store)@, final(store)@, r),
        r matches Ok(renamed) ==> {
            &&& renames(old(store)@, final(store)@, Table::Secrets, old_key@, new_key@)
            &&& renamed@.key == new_key@
            &&& forall|e: Seq<char>| #[trigger]
                final(store)@.shown(new_key@, e) == old(store)@.shown(old_key@, e)
            &&& forall|p: Seq<char>| #[trigger]
                final(store)@.has_assignment(new_key@, p) == old(store)@.has_assignment(old_key@, p)
        },
{
    let fresh = choose|fresh: FreshView| #[trigger]
        fresh.valid() && final(store)@ == old(store)@.record_renamed(
            Table::Secrets,
            old_key@,
            new_key@,
            fresh,
        ).0 && result_view(r) == answered(
            old(store)@.record_renamed(Table::Secrets, old_key@, new_key@, fresh).1,
            final(store)@.secret_keyed(new_key@),
        );
    law_renaming(old(store)@, Table::Secrets, old_key@, new_key@, fresh);
}

/// Removing a secret: a name that is not there is refused; a success takes the name away with what
/// belongs to it, and nothing else.
pub proof fn law_removing_a_secret(store: &mut Store, key: &str, r: Result<(), StoreError>)
    requires
        call_ensures(<Store as SecretRegistry>::remove_secret, (store, key), r),
        old(store)@.well_formed(),
    ensures
        old(store)@.record(Table::Secrets, key@) is None ==> refused(
            old(store)@,
            final(store)@,
            r,
        ),
        r is Ok ==> old(store)@.record(Table::Secrets, key@) is Some && only_gone(
            old(store)@,
            final(store)@,
            Table::Secrets,
            key@,
        ),
{
    let fresh = choose|fresh: FreshView| #[trigger]
        fresh.valid() && final(store)@ == old(store)@.record_removed(
            Table::Secrets,
            key@,
            fresh,
        ).0 && unit_view(r) == old(store)@.record_removed(Table::Secrets, key@, fresh).1;
    law_removing(old(store)@, Table::Secrets, key@, fresh);
}

/// Assigning a secret to a project: names that are not there are
/// refused; a success assigns the secret and changes nothing else.
pub proof fn law_assigning_a_secret(
    store: &mut Store,
    key: &str,
    project: &str,
    r: Result<(), StoreError>,
)
    requires
        call_ensures(<Store as SecretRegistry>::assign_secret, (store, key, project), r),
        old(store)@.well_formed(),
    ensures
        old(store)@.record(Table::Secrets, key@) is None || old(store)@.record(
            Table::Projects,
            project@,
        ) is None ==> refused(old(store)@, final(store)@, r),
        r is Ok ==> {
            &&& final(store)@.has_assignment(key@, project@)
            &&& same_assignments_but(old(store)@, final(store)@, key@, project@)
            &&& same_values(old(store)@, final(store)@)
            &&& forall|table: Table, n: Seq<char>| #[trigger]
                final(store)@.record(table, n) == old(store)@.record(table, n)
        },
{
    let fresh = choose|fresh: FreshView| #[trigger]
        fresh.valid() && final(store)@ == old(store)@.secret_assigned(key@, project@, fresh).0
            && unit_view(r) == old(store)@.secret_assigned(key@, project@, fresh).1;
    law_assigning(old(store)@, key@, project@, fresh);
}

/// Taking a secret from a project: names that are not there are
/// refused; a success ends the assignment and changes nothing else.
pub proof fn law_unassigning_a_secret(
    store: &mut Store,
    key: &str,
    project: &str,
    r: Result<(), StoreError>,
)
    requires
        call_ensures(<Store as SecretRegistry>::unassign_secret, (store, key, project), r),
        old(store)@.well_formed(),
    ensures
        old(store)@.record(Table::Secrets, key@) is None || old(store)@.record(
            Table::Projects,
            project@,
        ) is None ==> refused(old(store)@, final(store)@, r),
        r is Ok ==> {
            &&& !final(store)@.has_assignment(key@, project@)
            &&& same_assignments_but(old(store)@, final(store)@, key@, project@)
            &&& same_values(old(store)@, final(store)@)
            &&& forall|table: Table, n: Seq<char>| #[trigger]
                final(store)@.record(table, n) == old(store)@.record(table, n)
        },
{
    let fresh = choose|fresh: FreshView| #[trigger]
        fresh.valid() && final(store)@ == old(store)@.secret_unassigned(key@, project@, fresh).0
            && unit_view(r) == old(store)@.secret_unassigned(key@, project@, fresh).1;
    law_assigning(old(store)@, key@, project@, fresh);
}

/// Setting a value: names that are not there are refused; a success gives the secret the value in
/// the environment, whole and unchanged, and changes nothing else.
pub proof fn law_setting_a_value(
    store: &mut Store,
    key: &str,
    environment: &str,
    value: &str,
    r: Result<(), StoreError>,
)
    requires
        call_ensures(<Store as SecretRegistry>::set_variant, (store, key, environment, value), r),
        old(store)@.well_formed(),
    ensures
        old(store)@.record(Table::Secrets, key@) is None || old(store)@.record(
            Table::Environments,
            environment@,
        ) is None ==> refused(old(store)@, final(store)@, r),
        r is Ok ==> {
            &&& final(store)@.shown(key@, environment@) == Some(value@)
            &&& same_values_but(old(store)@, final(store)@, key@, environment@)
            &&& same_assignments(old(store)@, final(store)@)
            &&& forall|table: Table, n: Seq<char>| #[trigger]
                final(store)@.record(table, n) == old(store)@.record(table, n)
        },
{
    let s = old(store)@;
    let t = final(store)@;
    let fresh = choose|fresh: FreshView| #[trigger]
        fresh.valid() && t == s.variant_set(key@, environment@, value@, fresh).0 && unit_view(r)
            == s.variant_set(key@, environment@, value@, fresh).1;
    if r is Ok {
        assert forall|k: Seq<char>, e: Seq<char>|
            (k, e) != (key@, environment@) implies #[trigger] t.shown(k, e) == s.shown(k, e) by {
            lemma_set_elsewhere(s, key@, environment@, value@, fresh, k, e);
        }
    }
}

/// Taking a value away: names that are not there are refused; a success leaves the secret without
/// a value in the environment, and changes nothing else.
pub proof fn law_unsetting_a_value(
    store: &mut Store,
    key: &str,
    environment: &str,
    r: Result<(), StoreError>,
)
    requires
        call_ensures(<Store as SecretRegistry>::unset_variant, (store, key, environment), r),
        old(store)@.well_formed(),
    ensures
        old(store)@.record(Table::Secrets, key@) is None || old(store)@.record(
            Table::Environments,
            environment@,
        ) is None ==> refused(old(store)@, final(store)@, r),
        r is Ok ==> {
            &&& final(store)@.shown(key@, environment@) is None
            &&& same_values_but(old(store)@, final(store)@, key@, environment@)
            &&& same_assignments(old(store)@, final(store)@)
            &&& forall|table: Table, n: Seq<char>| #[trigger]
                final(store)@.record(table, n) == old(store)@.record(table, n)
        },
{
    let fresh = choose|fresh: FreshView| #[trigger]
        fresh.valid() && final(store)@ == old(store)@.variant_unset(key@, environment@, fresh).0
            && unit_view(r) == old(store)@.variant_unset(key@, environment@, fresh).1;
    law_unsetting(old(store)@, key@, environment@, fresh);
}

/// Describing a secret: a key that is not there is refused; a success gives the secret the
/// description, or none, and changes nothing else.
pub proof fn law_describing_a_secret(
    store: &mut Store,
    key: &str,
    description: Option<&str>,
    r: Result<Secret, StoreError>,
)
    requires
        call_ensures(
            <Store as SecretRegistry>::set_secret_description,
            (store, key, description),
            r,
        ),
        old(store)@.well_formed(),
    ensures
        old(store)@.record(Table::Secrets, key@) is None ==> refused(
            old(store)@,
            final(store)@,
            r,
        ),
        r matches Ok(secret) ==> {
            &&& secret@.key == key@
            &&& secret@.description == opt_str(description)
            &&& final(store)@.record(Table::Secrets, key@) matches Some(row) && row.description
                == opt_str(description)
            &&& same_names_but(old(store)@, final(store)@, Table::Secrets, key@)
            &&& same_values(old(store)@, final(store)@)
            &&& same_assignments(old(store)@, final(store)@)
        },
{
    let fresh = choose|fresh: FreshView| #[trigger]
        fresh.valid() && final(store)@ == old(store)@.secret_described(
            key@,
            opt_str(description),
            fresh,
        ).0 && result_view(r) == answered(
            old(store)@.secret_described(key@, opt_str(description), fresh).1,
            final(store)@.secret_keyed(key@),
        );
    law_describing(old(store)@, key@, opt_str(description), fresh);
}

/// The command for secrets does what it is told: an assignment assigns and an unassignment ends
/// the assignment, a value is set or taken away, and the other secrets and places stay as they
/// are.
pub proof fn law_secret_command_called(store: &mut Store, command: &SecretCommand<String>, r: Reply)
    requires
        call_ensures(secret_command, (store, command), r),
        old(store)@.well_formed(),
        r@.result is Ok,
    ensures
        match command@ {
            SecretCommand::List => final(store)@ == old(store)@,
            SecretCommand::Add { key } => adds(
                old(store)@,
                final(store)@,
                Table::Secrets,
                key,
                None,
            ),
            SecretCommand::Rename { from, to } => final(store)@.record(Table::Secrets, from) is None
                && final(store)@.record(Table::Secrets, to) is Some,
            SecretCommand::Remove { key, yes } => yes && only_gone(
                old(store)@,
                final(store)@,
                Table::Secrets,
                key,
            ),
            SecretCommand::SetValue { key, environment, value } => final(store)@.shown(
                key,
                environment,
            ) == Some(value) && same_values_but(old(store)@, final(store)@, key, environment),
            SecretCommand::UnsetValue { key, environment } => final(store)@.shown(
                key,
                environment,
            ) is None && same_values_but(old(store)@, final(store)@, key, environment),
            SecretCommand::Assign { key, project } => final(store)@.has_assignment(key, project)
                && same_assignments_but(old(store)@, final(store)@, key, project),
            SecretCommand::Unassign { key, project } => !final(store)@.has_assignment(key, project)
                && same_assignments_but(old(store)@, final(store)@, key, project),
            SecretCommand::Describe { key, description } => final(store)@.record(
                Table::Secrets,
                key,
            ) matches Some(row) && row.description == description,
        },
{
    let s = old(store)@;
    let fresh = choose|fresh: FreshView| #[trigger]
        fresh.valid() && final(store)@ == secret_outcome(s, command@, fresh).0 && r@
            == secret_outcome(s, command@, fresh).1 && (s.well_formed() ==> s.promised(
            secret_asked(command@),
            fresh,
        ));
    match command@ {
        SecretCommand::List => {},
        SecretCommand::Add { key } => law_adding(s, Table::Secrets, key, None, fresh),
        SecretCommand::Rename { from, to } => law_renaming(s, Table::Secrets, from, to, fresh),
        SecretCommand::Remove { key, yes } => law_removing(s, Table::Secrets, key, fresh),
        SecretCommand::SetValue { key, environment, value } => law_setting(
            s,
            key,
            environment,
            value,
            fresh,
        ),
        SecretCommand::UnsetValue { key, environment } => law_unsetting(
            s,
            key,
            environment,
            fresh,
        ),
        SecretCommand::Assign { key, project } => law_assigning(s, key, project, fresh),
        SecretCommand::Unassign { key, project } => law_assigning(s, key, project, fresh),
        SecretCommand::Describe { key, description } => law_describing(
            s,
            key,
            description,
            fresh,
        ),
    }
}

/// The command for projects adds, renames and removes projects.
pub proof fn law_project_command_called(store: &mut Store, command: &NameCommand<String>, r: Reply)
    requires
        call_ensures(project_command, (store, command), r),
        old(store)@.well_formed(),
        r@.result is Ok,
    ensures
        match command@ {
            NameCommand::List => final(store)@ == old(store)@,
            NameCommand::Add { name } => adds(
                old(store)@,
                final(store)@,
                Table::Projects,
                name,
                None,
            ),
            NameCommand::Rename { from, to } => renames(
                old(store)@,
                final(store)@,
                Table::Projects,
                from,
                to,
            ),
            NameCommand::Remove { name, yes } => yes && only_gone(
                old(store)@,
                final(store)@,
                Table::Projects,
                name,
            ),
        },
{
    let s = old(store)@;
    let fresh = choose|fresh: FreshView| #[trigger]
        fresh.valid() && final(store)@ == project_outcome(s, command@, fresh).0 && r@
            == project_outcome(s, command@, fresh).1;
    match command@ {
        NameCommand::List => {},
        NameCommand::Add { name } => law_adding(s, Table::Projects, name, None, fresh),
        NameCommand::Rename { from, to } => law_renaming(s, Table::Projects, from, to, fresh),
        NameCommand::Remove { name, yes } => law_removing(s, Table::Projects, name, fresh),
    }
}

/// The command for environments adds and renames environments, and removes them with their
/// values.
pub proof fn law_environment_command_called(
    store: &mut Store,
    command: &NameCommand<String>,
    r: Reply,
)
    requires
        call_ensures(environment_command, (store, command), r),
        old(store)@.well_formed(),
        r@.result is Ok,
    ensures
        match command@ {
            NameCommand::List => final(store)@ == old(store)@,
            NameCommand::Add { name } => adds(
                old(store)@,
                final(store)@,
                Table::Environments,
                name,
                None,
            ),
            NameCommand::Rename { from, to } => renames(
                old(store)@,
                final(store)@,
                Table::Environments,
                from,
                to,
            ),
            NameCommand::Remove { name, yes } => yes && only_gone(
                old(store)@,
                final(store)@,
                Table::Environments,
                name,
            ),
        },
{
    let s = old(store)@;
    let fresh = choose|fresh: FreshView| #[trigger]
        fresh.valid() && final(store)@ == environment_outcome(s, command@, fresh).0 && r@
            == environment_outcome(s, command@, fresh).1;
    match command@ {
        NameCommand::List => {},
        NameCommand::Add { name } => law_adding(s, Table::Environments, name, None, fresh),
        NameCommand::Rename { from, to } => law_renaming(s, Table::Environments, from, to, fresh),
        NameCommand::Remove { name, yes } => law_removing_an_environment(s, name, true, fresh),
    }
}

/// Importing a dotenv file that succeeds: every entry is a secret that is assigned to the project
/// and has, unless a later entry has the same key, the value of the entry in the environment. The
/// other secrets, environments and projects stay as they are.
pub proof fn law_dotenv_import_called(
    store: &mut Store,
    project: &str,
    environment: &str,
    path: &str,
    yes: bool,
    contents: Option<&[u8]>,
    r: Reply,
)
    requires
        call_ensures(import_dotenv, (store, project, environment, path, yes, contents), r),
        old(store)@.well_formed(),
        r@.result is Ok,
        contents matches Some(bytes) ==> !bytes@.contains(36u8),
    ensures
        contents matches Some(bytes) && {
            let items = dotenv_entries(bytes@);
            let t = final(store)@;
            &&& forall|i: int|
                0 <= i < items.len() ==> {
                    &&& (#[trigger] items[i]) is Some
                    &&& t.record(Table::Secrets, entry_key(items[i])) is Some
                    &&& t.has_assignment(entry_key(items[i]), project@)
                }
            &&& forall|i: int|
                0 <= i < items.len() && (forall|j: int|
                    i < j < items.len() ==> ((#[trigger] items[j])->0).0 != (items[i]->0).0)
                    ==> t.shown(((#[trigger] items[i])->0).0, environment@) == Some(
                    (items[i]->0).1,
                )
            &&& leaves_the_rest(old(store)@, t, items, project@, environment@)
        },
{
    let s = old(store)@;
    let t = final(store)@;
    let (given, fresh) = choose|given: Option<Seq<ItemView>>, fresh: Seq<FreshView>| #[trigger]
        read_from(given, bytes_view(contents), fresh) && t == import_outcome(
            s,
            project@,
            environment@,
            path@,
            yes,
            given,
            fresh,
        ).0 && r@ == import_outcome(s, project@, environment@, path@, yes, given, fresh).1 && (
        s.well_formed() && r@.result is Ok ==> entries_read_back(t, given->0, environment@));
    law_import_command(s, project@, environment@, path@, yes, given, fresh);
    let items = given->0;
    law_import_assigns_every_entry(s, project@, environment@, path@, yes, items, fresh);
    assert forall|i: int|
        0 <= i < items.len() && (forall|j: int|
            i < j < items.len() ==> ((#[trigger] items[j])->0).0 != (items[i]->0).0)
            implies t.shown(((#[trigger] items[i])->0).0, environment@) == Some(
        (items[i]->0).1,
    ) by {
        assert(items[i] is Some);
        assert forall|j: int| i < j < items.len() implies !((#[trigger] items[j]) matches Some(
            later,
        ) && later.0 == entry_key(items[i])) by {
            assert((items[j]->0).0 != (items[i]->0).0);
        }
        assert(last_of_key(items, i));
    }
}

/// Importing a bundle: one operation that cannot be read keeps it out whole; a success logs every
/// one of its operations.
pub proof fn law_bundle_import_called(store: &mut Store, bundle: &SyncBundle, r: Reply)
    requires
        call_ensures(import_bundle, (store, bundle), r),
    ensures
        ({
            let wires = views(bundle.operations@);
            &&& (exists|i: int| 0 <= i < wires.len() && !readable(#[trigger] wires[i]))
                ==> final(store)@ == old(store)@ && r@.result is Err
            &&& r@.result is Ok ==> forall|i: int|
                0 <= i < wires.len() ==> readable(#[trigger] wires[i]) && final(store)@.knows(
                    id_of_text(wires[i].id)->0,
                )
        }),
{
    let wires = views(bundle.operations@);
    let fresh = choose|fresh: Seq<FreshView>| #[trigger]
        drawn(fresh, bundle.operations@.len()) && final(store)@ == bundle_imported(
            old(store)@,
            bundle.device_id@,
            wires,
            fresh,
        ).0 && r@ == bundle_imported(old(store)@, bundle.device_id@, wires, fresh).1;
    law_bundle_import(old(store)@, bundle.device_id@, wires, fresh);
}

/// The space bar while browsing, with a row that tells the assignments of the store: the selected
/// secret is assigned to the active project where it was not, and is not where it was, if the
/// status line tells a success; no value changes.
pub proof fn law_space_bar_called(app: &mut App, key: KeyEvent)
    requires
        call_ensures(App::handle_key, (app, key), ()),
        key.code == KeyCode::Char(' '),
        old(app)@.mode == Mode::Browse,
        old(app)@.store.well_formed(),
        old(app)@.project() is Some,
        old(app)@.focused() is Some,
        old(app)@.focused()->0.secret.assigned_project_ids.contains(old(app)@.project()->0.id)
            == old(app)@.store.has_assignment(
            old(app)@.focused()->0.secret.key,
            old(app)@.project()->0.name,
        ),
        final(app)@.status.level == Level::Success,
    ensures
        ({
            let k = old(app)@.focused()->0.secret.key;
            let p = old(app)@.project()->0.name;
            &&& final(app)@.store.has_assignment(k, p) == !old(app)@.store.has_assignment(k, p)
            &&& same_assignments_but(old(app)@.store, final(app)@.store, k, p)
            &&& same_values(old(app)@.store, final(app)@.store)
        }),
{
    let before = old(app)@;
    let fresh = choose|fresh: FreshView| #[trigger]
        fresh.valid() && final(app)@ == before.keyed(key, fresh);
    law_space_toggles_the_assignment(before, key, fresh);
    law_space_turns_the_assignment_round(before, key, fresh);
    law_assigning(before.store, before.focused()->0.secret.key, before.project()->0.name, fresh);
}

/// Entering a value in its field, if the status line tells a success: the secret has the value in
/// the environment, as it stands in the field, and none where the field is empty; no other value
/// changes.
pub proof fn law_entered_value_called(
    app: &mut App,
    key: KeyEvent,
    editor: EditorView,
    name: Seq<char>,
    environment: Seq<char>,
)
    requires
        call_ensures(App::handle_key, (app, key), ()),
        key.code == KeyCode::Enter,
        old(app)@.mode == Mode::Editor,
        old(app)@.editor == Some(editor),
        editor.target == (EditTarget::SecretValue { key: name, environment }),
        old(app)@.store.well_formed(),
        final(app)@.status.level == Level::Success,
    ensures
        editor.buffer.len() > 0 ==> final(app)@.store.shown(name, environment) == Some(
            editor.buffer,
        ),
        editor.buffer.len() == 0 ==> final(app)@.store.shown(name, environment) is None,
        same_values_but(old(app)@.store, final(app)@.store, name, environment),
        same_assignments(old(app)@.store, final(app)@.store),
{
    let before = old(app)@;
    let fresh = choose|fresh: FreshView| #[trigger]
        fresh.valid() && final(app)@ == before.keyed(key, fresh) && (before.store.well_formed()
            ==> before.store.promised(before.asked(key), fresh));
    law_entered_value(before, editor, name, environment, key, fresh);
    if editor.buffer.len() > 0 {
        law_setting(before.store, name, environment, editor.buffer, fresh);
    } else {
        law_unsetting(before.store, name, environment, fresh);
    }
}

/// Importing operations: a success leaves every one of them in the log, keeps what was logged
/// before, adds in the order of the times, and gives the number of those that were new.
pub proof fn law_operations_import_called(
    store: &mut Store,
    operations: &[SyncOperation],
    fresh: &Vec<Fresh>,
    r: Result<usize, StoreError>,
)
    requires
        call_ensures(Store::import_operations_with, (store, operations, fresh), r),
    ensures
        r matches Ok(count) ==> log_gains(old(store)@, final(store)@, views(operations@)) && count
            == final(store)@.operations.len() - old(store)@.operations.len(),
{
    if r is Ok {
        law_import_logs_the_list(old(store)@, views(operations@), views(fresh@));
    }
}

/// Importing an operation that is logged already does nothing; a new one is logged as it came.
pub proof fn law_operation_import_called(
    store: &mut Store,
    operation: &SyncOperation,
    fresh: &Fresh,
    r: Result<bool, StoreError>,
)
    requires
        call_ensures(Store::import_operation_with, (store, operation, fresh), r),
    ensures
        old(store)@.knows(operation@.id) ==> final(store)@ == old(store)@ && (r matches Ok(new)
            && !new),
        r matches Ok(new) ==> (new <==> !old(store)@.knows(operation@.id)),
        r matches Ok(new) ==> (new ==> is_row_of(
            final(store)@.operations.last(),
            operation@,
        ) && final(store)@.operations.drop_last() == old(store)@.operations),
{
    law_import_replays_and_logs(old(store)@, operation@, fresh@);
}

} // verus!
