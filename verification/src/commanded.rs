//! What the commands on projects, environments and secrets do to a store, and what they say.

use crate::change::Change;
use crate::commands::{CommandErrorView, ReplyView};
use crate::effects::{same_assignments, same_assignments_but, same_values, same_values_but};
use crate::entity_commands::{
    environment_outcome, project_outcome, secret_outcome, NameCommand, SecretCommand,
};
use crate::requested::{
    law_adding, law_assigning, law_describing, law_removing, law_removing_an_environment,
    law_renaming, law_setting, law_unsetting, logs_one, only_gone,
};
use crate::store::FreshView;
use crate::tables::{RecordView, StoreView, Table};
use vstd::prelude::*;

verus! {

/// Whether a reply is a text and nothing else, with the exit code of a success.
pub open spec fn says(reply: ReplyView, text: Seq<char>) -> bool {
    reply.output == text && reply.result == Ok::<u8, CommandErrorView>(0)
}

/// Whether a record is there without a description and with the identifier that was drawn.
pub open spec fn is_new(t: StoreView, table: Table, name: Seq<char>, fresh: FreshView) -> bool {
    t.record(table, name) == Some(
        RecordView {
            id: fresh.id,
            name,
            description: None,
            created_at: fresh.time,
            updated_at: fresh.time,
        },
    )
}

/// Listing projects, environments or secrets changes nothing.
pub proof fn law_listing_changes_nothing(s: StoreView, fresh: FreshView)
    ensures
        project_outcome(s, NameCommand::List, fresh).0 == s,
        environment_outcome(s, NameCommand::List, fresh).0 == s,
        secret_outcome(s, SecretCommand::List, fresh).0 == s,
{
}

/// The commands that add a project, an environment or a secret: with success the name is there
/// and was not before, an addition is logged, and the command says so. A name that is there is
/// refused, and nothing changes.
pub proof fn law_add_commands(s: StoreView, name: Seq<char>, fresh: FreshView)
    requires
        s.well_formed(),
    ensures
        ({
            let (t, reply) = project_outcome(s, NameCommand::Add { name }, fresh);
            &&& reply.result is Ok ==> {
                &&& s.record(Table::Projects, name) is None
                &&& is_new(t, Table::Projects, name, fresh)
                &&& logs_one(s, t, "project.add"@, fresh)
                &&& same_values(s, t) && same_assignments(s, t)
                &&& says(reply, "Added project \""@ + name + "\".\n"@)
            }
            &&& s.record(Table::Projects, name) is Some ==> t == s && reply.result is Err
        }),
        ({
            let (t, reply) = environment_outcome(s, NameCommand::Add { name }, fresh);
            &&& reply.result is Ok ==> {
                &&& s.record(Table::Environments, name) is None
                &&& is_new(t, Table::Environments, name, fresh)
                &&& logs_one(s, t, "environment.add"@, fresh)
                &&& same_values(s, t) && same_assignments(s, t)
                &&& says(reply, "Added environment \""@ + name + "\".\n"@)
            }
            &&& s.record(Table::Environments, name) is Some ==> t == s && reply.result is Err
        }),
        ({
            let (t, reply) = secret_outcome(s, SecretCommand::Add { key: name }, fresh);
            &&& reply.result is Ok ==> {
                &&& s.record(Table::Secrets, name) is None
                &&& is_new(t, Table::Secrets, name, fresh)
                &&& logs_one(s, t, "secret.add"@, fresh)
                &&& same_values(s, t) && same_assignments(s, t)
                &&& says(reply, "Added secret \""@ + name + "\".\n"@)
            }
            &&& s.record(Table::Secrets, name) is Some ==> t == s && reply.result is Err
        }),
{
    law_adding(s, Table::Projects, name, None, fresh);
    law_adding(s, Table::Environments, name, None, fresh);
    law_adding(s, Table::Secrets, name, None, fresh);
}

/// The commands that rename: with success the row of the old name is found by the new one, and
/// the old one finds nothing; what belongs to it goes with it. A name that is not there, or one
/// that is taken, is refused, and nothing changes.
pub proof fn law_rename_commands(
    s: StoreView,
    from: Seq<char>,
    to: Seq<char>,
    fresh: FreshView,
    other: Seq<char>,
)
    requires
        s.well_formed(),
    ensures
        ({
            let (t, reply) = project_outcome(s, NameCommand::Rename { from, to }, fresh);
            let table = Table::Projects;
            &&& reply.result is Ok ==> {
                &&& t.record(table, to) == Some(
                    RecordView { name: to, updated_at: fresh.time, ..s.record(table, from)->0 },
                )
                &&& t.record(table, from) is None
                &&& t.has_assignment(other, to) == s.has_assignment(other, from)
                &&& same_values(s, t)
                &&& logs_one(s, t, "project.rename"@, fresh)
                &&& says(reply, "Renamed project \""@ + from + "\" to \""@ + to + "\".\n"@)
            }
            &&& s.record(table, from) is None || s.record(table, to) is Some ==> t == s
                && reply.result is Err
        }),
        ({
            let (t, reply) = environment_outcome(s, NameCommand::Rename { from, to }, fresh);
            let table = Table::Environments;
            &&& reply.result is Ok ==> {
                &&& t.record(table, to) == Some(
                    RecordView { name: to, updated_at: fresh.time, ..s.record(table, from)->0 },
                )
                &&& t.record(table, from) is None
                &&& t.shown(other, to) == s.shown(other, from)
                &&& same_assignments(s, t)
                &&& logs_one(s, t, "environment.rename"@, fresh)
                &&& says(reply, "Renamed environment \""@ + from + "\" to \""@ + to + "\".\n"@)
            }
            &&& s.record(table, from) is None || s.record(table, to) is Some ==> t == s
                && reply.result is Err
        }),
        ({
            let (t, reply) = secret_outcome(s, SecretCommand::Rename { from, to }, fresh);
            let table = Table::Secrets;
            &&& reply.result is Ok ==> {
                &&& t.record(table, to) == Some(
                    RecordView { name: to, updated_at: fresh.time, ..s.record(table, from)->0 },
                )
                &&& t.record(table, from) is None
                &&& t.shown(to, other) == s.shown(from, other)
                &&& t.has_assignment(to, other) == s.has_assignment(from, other)
                &&& logs_one(s, t, "secret.rename"@, fresh)
                &&& says(reply, "Renamed secret \""@ + from + "\" to \""@ + to + "\".\n"@)
            }
            &&& s.record(table, from) is None || s.record(table, to) is Some ==> t == s
                && reply.result is Err
        }),
{
    law_renaming(s, Table::Projects, from, to, fresh);
    law_renaming(s, Table::Environments, from, to, fresh);
    law_renaming(s, Table::Secrets, from, to, fresh);
}

/// The commands that remove: without a confirmation nothing changes and the command fails.
/// Otherwise, with success, the name is gone with what belongs to it, and nothing else. A name
/// that is not there is refused.
pub proof fn law_remove_commands(s: StoreView, name: Seq<char>, yes: bool, fresh: FreshView)
    requires
        s.well_formed(),
    ensures
        ({
            let (t, reply) = project_outcome(s, NameCommand::Remove { name, yes }, fresh);
            &&& reply.result is Ok ==> {
                &&& yes && s.record(Table::Projects, name) is Some
                &&& only_gone(s, t, Table::Projects, name)
                &&& logs_one(s, t, "project.remove"@, fresh)
                &&& says(reply, "Removed project \""@ + name + "\".\n"@)
            }
            &&& !yes || s.record(Table::Projects, name) is None ==> t == s && reply.result is Err
        }),
        ({
            let (t, reply) = environment_outcome(s, NameCommand::Remove { name, yes }, fresh);
            &&& reply.result is Ok ==> {
                &&& yes && s.record(Table::Environments, name) is Some
                &&& only_gone(s, t, Table::Environments, name)
                &&& logs_one(s, t, "environment.remove"@, fresh)
                &&& says(reply, "Removed environment \""@ + name + "\".\n"@)
            }
            &&& !yes || s.record(Table::Environments, name) is None ==> t == s
                && reply.result is Err
        }),
        ({
            let (t, reply) = secret_outcome(s, SecretCommand::Remove { key: name, yes }, fresh);
            &&& reply.result is Ok ==> {
                &&& yes && s.record(Table::Secrets, name) is Some
                &&& only_gone(s, t, Table::Secrets, name)
                &&& logs_one(s, t, "secret.remove"@, fresh)
                &&& says(reply, "Removed secret \""@ + name + "\".\n"@)
            }
            &&& !yes || s.record(Table::Secrets, name) is None ==> t == s && reply.result is Err
        }),
{
    law_removing(s, Table::Projects, name, fresh);
    law_removing(s, Table::Secrets, name, fresh);
    law_removing_an_environment(s, name, true, fresh);
}

/// The commands that set and unset a value: with success the value is read, or none is, for
/// that secret in that environment; all else stays. The value is not printed.
pub proof fn law_value_commands(
    s: StoreView,
    key: Seq<char>,
    environment: Seq<char>,
    value: Seq<char>,
    fresh: FreshView,
)
    requires
        s.well_formed(),
        s.promised(Some(Change::VariantSet { key, environment, value }), fresh),
    ensures
        ({
            let (t, reply) = secret_outcome(
                s,
                SecretCommand::SetValue { key, environment, value },
                fresh,
            );
            &&& reply.result is Ok ==> {
                &&& t.shown(key, environment) == Some(value)
                &&& same_values_but(s, t, key, environment)
                &&& same_assignments(s, t)
                &&& forall|table: Table, n: Seq<char>| #[trigger]
                    t.record(table, n) == s.record(table, n)
                &&& logs_one(s, t, "variant.set"@, fresh)
                &&& says(reply, "Set \""@ + key + "\" for environment \""@ + environment + "\".\n"@)
            }
            &&& s.record(Table::Secrets, key) is None || s.record(
                Table::Environments,
                environment,
            ) is None ==> t == s && reply.result is Err
        }),
        ({
            let (t, reply) = secret_outcome(
                s,
                SecretCommand::UnsetValue { key, environment },
                fresh,
            );
            &&& reply.result is Ok ==> {
                &&& t.shown(key, environment) is None
                &&& same_values_but(s, t, key, environment)
                &&& same_assignments(s, t)
                &&& forall|table: Table, n: Seq<char>| #[trigger]
                    t.record(table, n) == s.record(table, n)
                &&& logs_one(s, t, "variant.unset"@, fresh)
                &&& says(
                    reply,
                    "Removed \""@ + key + "\" variant for \""@ + environment + "\".\n"@,
                )
            }
            &&& s.record(Table::Secrets, key) is None || s.record(
                Table::Environments,
                environment,
            ) is None ==> t == s && reply.result is Err
        }),
{
    law_setting(s, key, environment, value, fresh);
    law_unsetting(s, key, environment, fresh);
}

/// The commands that assign and unassign: with success the secret is assigned to the project,
/// or it is not; the other assignments and all else stay.
pub proof fn law_assignment_commands(
    s: StoreView,
    key: Seq<char>,
    project: Seq<char>,
    fresh: FreshView,
)
    requires
        s.well_formed(),
    ensures
        ({
            let (t, reply) = secret_outcome(s, SecretCommand::Assign { key, project }, fresh);
            &&& reply.result is Ok ==> {
                &&& t.has_assignment(key, project)
                &&& same_assignments_but(s, t, key, project)
                &&& same_values(s, t)
                &&& forall|table: Table, n: Seq<char>| #[trigger]
                    t.record(table, n) == s.record(table, n)
                &&& logs_one(s, t, "secret.assign"@, fresh)
                &&& says(reply, "Assigned \""@ + key + "\" to \""@ + project + "\".\n"@)
            }
            &&& s.record(Table::Secrets, key) is None || s.record(Table::Projects, project) is None
                ==> t == s && reply.result is Err
        }),
        ({
            let (t, reply) = secret_outcome(s, SecretCommand::Unassign { key, project }, fresh);
            &&& reply.result is Ok ==> {
                &&& !t.has_assignment(key, project)
                &&& same_assignments_but(s, t, key, project)
                &&& same_values(s, t)
                &&& forall|table: Table, n: Seq<char>| #[trigger]
                    t.record(table, n) == s.record(table, n)
                &&& logs_one(s, t, "secret.unassign"@, fresh)
                &&& says(reply, "Unassigned \""@ + key + "\" from \""@ + project + "\".\n"@)
            }
            &&& s.record(Table::Secrets, key) is None || s.record(Table::Projects, project) is None
                ==> t == s && reply.result is Err
        }),
{
    law_assigning(s, key, project, fresh);
}

/// The command that describes a secret: with success the secret has the description, or none;
/// all else stays.
pub proof fn law_describe_command(
    s: StoreView,
    key: Seq<char>,
    description: Option<Seq<char>>,
    fresh: FreshView,
)
    requires
        s.well_formed(),
    ensures
        ({
            let (t, reply) = secret_outcome(
                s,
                SecretCommand::Describe { key, description },
                fresh,
            );
            &&& reply.result is Ok ==> {
                &&& t.record(Table::Secrets, key) == Some(
                    RecordView {
                        description,
                        updated_at: fresh.time,
                        ..s.record(Table::Secrets, key)->0
                    },
                )
                &&& same_values(s, t)
                &&& same_assignments(s, t)
                &&& logs_one(s, t, "secret.describe"@, fresh)
                &&& says(reply, "Updated description for \""@ + key + "\".\n"@)
            }
            &&& s.record(Table::Secrets, key) is None ==> t == s && reply.result is Err
        }),
{
    law_describing(s, key, description, fresh);
}

/// A command that fails prints nothing, and one that succeeds exits with zero.
pub proof fn law_failed_commands_print_nothing(
    s: StoreView,
    names: NameCommand<Seq<char>>,
    command: SecretCommand<Seq<char>>,
    fresh: FreshView,
)
    ensures
        project_outcome(s, names, fresh).1.result is Err ==> project_outcome(
            s,
            names,
            fresh,
        ).1.output.len() == 0,
        environment_outcome(s, names, fresh).1.result is Err ==> environment_outcome(
            s,
            names,
            fresh,
        ).1.output.len() == 0,
        secret_outcome(s, command, fresh).1.result is Err ==> secret_outcome(
            s,
            command,
            fresh,
        ).1.output.len() == 0,
        secret_outcome(s, command, fresh).1.result matches Ok(code) ==> code == 0,
        project_outcome(s, names, fresh).1.result matches Ok(code) ==> code == 0,
        environment_outcome(s, names, fresh).1.result matches Ok(code) ==> code == 0,
{
}

/// A command succeeds where the store does what it asks for, and nowhere else.
pub proof fn law_commands_succeed_with_the_store(
    s: StoreView,
    name: Seq<char>,
    other: Seq<char>,
    description: Option<Seq<char>>,
    fresh: FreshView,
)
    requires
        s.well_formed(),
    ensures
        project_outcome(s, NameCommand::List, fresh).1.result is Ok,
        environment_outcome(s, NameCommand::List, fresh).1.result is Ok,
        secret_outcome(s, SecretCommand::List, fresh).1.result is Ok,
        project_outcome(s, NameCommand::Add { name }, fresh).1.result is Ok <==> s.record_added(
            Table::Projects,
            name,
            None,
            fresh,
        ).1 is Ok,
        environment_outcome(s, NameCommand::Add { name }, fresh).1.result is Ok
            <==> s.record_added(Table::Environments, name, None, fresh).1 is Ok,
        secret_outcome(s, SecretCommand::Add { key: name }, fresh).1.result is Ok
            <==> s.record_added(Table::Secrets, name, None, fresh).1 is Ok,
        project_outcome(s, NameCommand::Rename { from: name, to: other }, fresh).1.result is Ok
            <==> s.record_renamed(Table::Projects, name, other, fresh).1 is Ok,
        environment_outcome(s, NameCommand::Rename { from: name, to: other }, fresh).1.result is Ok
            <==> s.record_renamed(Table::Environments, name, other, fresh).1 is Ok,
        secret_outcome(s, SecretCommand::Rename { from: name, to: other }, fresh).1.result is Ok
            <==> s.record_renamed(Table::Secrets, name, other, fresh).1 is Ok,
        project_outcome(s, NameCommand::Remove { name, yes: true }, fresh).1.result is Ok
            <==> s.record_removed(Table::Projects, name, fresh).1 is Ok,
        environment_outcome(s, NameCommand::Remove { name, yes: true }, fresh).1.result is Ok
            <==> s.environment_removed(name, true, fresh).1 is Ok,
        secret_outcome(s, SecretCommand::Remove { key: name, yes: true }, fresh).1.result is Ok
            <==> s.record_removed(Table::Secrets, name, fresh).1 is Ok,
        secret_outcome(
            s,
            SecretCommand::UnsetValue { key: name, environment: other },
            fresh,
        ).1.result is Ok <==> s.variant_unset(name, other, fresh).1 is Ok,
        secret_outcome(s, SecretCommand::Assign { key: name, project: other }, fresh).1.result is Ok
            <==> s.secret_assigned(name, other, fresh).1 is Ok,
        secret_outcome(
            s,
            SecretCommand::Unassign { key: name, project: other },
            fresh,
        ).1.result is Ok <==> s.secret_unassigned(name, other, fresh).1 is Ok,
        secret_outcome(s, SecretCommand::Describe { key: name, description }, fresh).1.result is Ok
            <==> s.secret_described(name, description, fresh).1 is Ok,
        forall|value: Seq<char>|
            (#[trigger] secret_outcome(
                s,
                SecretCommand::SetValue { key: name, environment: other, value },
                fresh,
            )).1.result is Ok <==> s.variant_set(name, other, value, fresh).1 is Ok,
{
    law_adding(s, Table::Projects, name, None, fresh);
    law_adding(s, Table::Environments, name, None, fresh);
    law_adding(s, Table::Secrets, name, None, fresh);
    law_renaming(s, Table::Projects, name, other, fresh);
    law_renaming(s, Table::Environments, name, other, fresh);
    law_renaming(s, Table::Secrets, name, other, fresh);
    law_describing(s, name, description, fresh);
}

} // verus!
