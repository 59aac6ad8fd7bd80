//! The commands that list and change projects, environments and secrets.

use crate::change::{Change, ChangeView};
use crate::commands::{failed, refuse, reply, require_yes, said, unconfirmed, Reply, ReplyView};
use crate::error::StoreErrorView;
use crate::order::views;
use crate::registry::SecretRegistry;
use crate::store::{addition, answered, removal, renaming, Fresh, FreshView, Store};
use crate::tables::{lemma_named_some, RecordView, StoreView, Table};
use crate::text::{decimal, decimal_text, opt_text};
use crate::wellformed::keeps;
use vstd::prelude::*;

verus! {

/// A command on projects or environments, over the type of its texts.
#[derive(Debug)]
pub enum NameCommand<S> {
    List,
    Add { name: S },
    Rename { from: S, to: S },
    Remove { name: S, yes: bool },
}

impl View for NameCommand<String> {
    type V = NameCommand<Seq<char>>;

    open spec fn view(&self) -> NameCommand<Seq<char>> {
        match *self {
            NameCommand::List => NameCommand::List,
            NameCommand::Add { name } => NameCommand::Add { name: name@ },
            NameCommand::Rename { from, to } => NameCommand::Rename { from: from@, to: to@ },
            NameCommand::Remove { name, yes } => NameCommand::Remove { name: name@, yes },
        }
    }
}

/// A command on secrets, over the type of its texts.
#[derive(Debug)]
pub enum SecretCommand<S> {
    List,
    Add { key: S },
    Rename { from: S, to: S },
    Remove { key: S, yes: bool },
    SetValue { key: S, environment: S, value: S },
    UnsetValue { key: S, environment: S },
    Assign { key: S, project: S },
    Unassign { key: S, project: S },
    Describe { key: S, description: Option<S> },
}

impl View for SecretCommand<String> {
    type V = SecretCommand<Seq<char>>;

    open spec fn view(&self) -> SecretCommand<Seq<char>> {
        match *self {
            SecretCommand::List => SecretCommand::List,
            SecretCommand::Add { key } => SecretCommand::Add { key: key@ },
            SecretCommand::Rename { from, to } => SecretCommand::Rename { from: from@, to: to@ },
            SecretCommand::Remove { key, yes } => SecretCommand::Remove { key: key@, yes },
            SecretCommand::SetValue { key, environment, value } => SecretCommand::SetValue {
                key: key@,
                environment: environment@,
                value: value@,
            },
            SecretCommand::UnsetValue { key, environment } => SecretCommand::UnsetValue {
                key: key@,
                environment: environment@,
            },
            SecretCommand::Assign { key, project } => SecretCommand::Assign {
                key: key@,
                project: project@,
            },
            SecretCommand::Unassign { key, project } => SecretCommand::Unassign {
                key: key@,
                project: project@,
            },
            SecretCommand::Describe { key, description } => SecretCommand::Describe {
                key: key@,
                description: opt_text(description),
            },
        }
    }
}

/// Two texts in quotation marks with words around them.
pub open spec fn sentence(
    before: Seq<char>,
    first: Seq<char>,
    between: Seq<char>,
    second: Seq<char>,
    after: Seq<char>,
) -> Seq<char> {
    before + first + between + second + after
}

fn write_sentence(
    before: &str,
    first: &str,
    between: &str,
    second: &str,
    after: &str,
) -> (r: String)
    ensures
        r@ == sentence(before@, first@, between@, second@, after@),
{
    let mut out = before.to_owned();
    out.append(first);
    out.append(between);
    out.append(second);
    out.append(after);
    out
}

/// A name in quotation marks with words around it.
pub open spec fn note(before: Seq<char>, name: Seq<char>, after: Seq<char>) -> Seq<char> {
    before + name + after
}

fn write_note(before: &str, name: &str, after: &str) -> (r: String)
    ensures
        r@ == note(before@, name@, after@),
{
    let mut out = before.to_owned();
    out.append(name);
    out.append(after);
    out
}

/// One line with a count for each row of a list.
pub open spec fn count_lines(
    rows: Seq<RecordView>,
    count: spec_fn(RecordView) -> nat,
    unit: Seq<char>,
) -> Seq<char>
    decreases rows.len(),
{
    if rows.len() == 0 {
        Seq::empty()
    } else {
        count_lines(rows.drop_last(), count, unit) + rows.last().name + "\t"@ + decimal_text(
            count(rows.last()),
        ) + unit
    }
}

fn push_count_line(out: &mut String, name: &str, count: usize, unit: &str)
    ensures
        final(out)@ == old(out)@ + name@ + "\t"@ + decimal_text(count as nat) + unit@,
{
    out.append(name);
    out.append("\t");
    out.append(decimal(count).as_str());
    out.append(unit);
}

/// What lists the projects.
pub open spec fn project_list(s: StoreView) -> Seq<char> {
    count_lines(
        s.listed(Table::Projects),
        |row: RecordView| s.secret_ids(row.id).len(),
        " secrets\n"@,
    )
}

/// What lists the environments. The count is of the values in the environment of the name.
pub open spec fn environment_list(s: StoreView) -> Seq<char> {
    count_lines(
        s.listed(Table::Environments),
        |row: RecordView| s.variant_count(s.record(Table::Environments, row.name)->0.id),
        " variants\n"@,
    )
}

/// What lists the secrets.
pub open spec fn secret_list(s: StoreView) -> Seq<char> {
    count_lines(
        s.listed(Table::Secrets),
        |row: RecordView| s.project_ids(row.id).len(),
        " projects\n"@,
    )
}

fn list_projects_text(store: &Store) -> (r: String)
    ensures
        r@ == project_list(store@),
{
    let rows = store.sorted_rows(Table::Projects);
    let ghost all = views(rows@);
    let ghost count = |row: RecordView| store@.secret_ids(row.id).len();
    let mut out = String::new();
    let mut i: usize = 0;
    assert(out@ =~= count_lines(all.take(0), count, " secrets\n"@));
    while i < rows.len()
        invariant
            i <= rows@.len(),
            all == views(rows@),
            count == (|row: RecordView| store@.secret_ids(row.id).len()),
            out@ == count_lines(all.take(i as int), count, " secrets\n"@),
        decreases rows@.len() - i,
    {
        proof {
            assert(all.take(i + 1).drop_last() =~= all.take(i as int));
            assert(all.take(i + 1).last() == rows@[i as int]@);
        }
        let ids = store.secret_ids_for(rows[i].id);
        push_count_line(&mut out, rows[i].name.as_str(), ids.len(), " secrets\n");
        i = i + 1;
    }
    assert(all.take(i as int) =~= all);
    out
}

fn list_secrets_text(store: &Store) -> (r: String)
    ensures
        r@ == secret_list(store@),
{
    let rows = store.sorted_rows(Table::Secrets);
    let ghost all = views(rows@);
    let ghost count = |row: RecordView| store@.project_ids(row.id).len();
    let mut out = String::new();
    let mut i: usize = 0;
    assert(out@ =~= count_lines(all.take(0), count, " projects\n"@));
    while i < rows.len()
        invariant
            i <= rows@.len(),
            all == views(rows@),
            count == (|row: RecordView| store@.project_ids(row.id).len()),
            out@ == count_lines(all.take(i as int), count, " projects\n"@),
        decreases rows@.len() - i,
    {
        proof {
            assert(all.take(i + 1).drop_last() =~= all.take(i as int));
            assert(all.take(i + 1).last() == rows@[i as int]@);
        }
        let ids = store.project_ids_for(rows[i].id);
        push_count_line(&mut out, rows[i].name.as_str(), ids.len(), " projects\n");
        i = i + 1;
    }
    assert(all.take(i as int) =~= all);
    out
}

proof fn lemma_listed_found(s: StoreView, table: Table, i: int)
    requires
        0 <= i < s.listed(table).len(),
    ensures
        s.record(table, s.listed(table)[i].name) is Some,
{
    let row = s.listed(table)[i];
    crate::order::lemma_ordered_contains(s.rows(table), crate::tables::name_order(), row);
    assert(s.listed(table).contains(row));
    let k = choose|k: int| 0 <= k < s.rows(table).len() && s.rows(table)[k] == row;
    assert(s.rows(table)[k].name == row.name);
    lemma_named_some(s.rows(table), row.name);
}

fn list_environments_text(store: &Store) -> (r: String)
    ensures
        r@ == environment_list(store@),
{
    let rows = store.sorted_rows(Table::Environments);
    let ghost all = views(rows@);
    let ghost count = |row: RecordView|
        store@.variant_count(store@.record(Table::Environments, row.name)->0.id);
    let mut out = String::new();
    let mut i: usize = 0;
    assert(out@ =~= count_lines(all.take(0), count, " variants\n"@));
    while i < rows.len()
        invariant
            i <= rows@.len(),
            all == views(rows@),
            all == store@.listed(Table::Environments),
            count == (|row: RecordView|
                store@.variant_count(store@.record(Table::Environments, row.name)->0.id)),
            out@ == count_lines(all.take(i as int), count, " variants\n"@),
        decreases rows@.len() - i,
    {
        proof {
            assert(all.take(i + 1).drop_last() =~= all.take(i as int));
            assert(all.take(i + 1).last() == rows@[i as int]@);
            assert(all[i as int] == rows@[i as int]@);
            lemma_listed_found(store@, Table::Environments, i as int);
        }
        if let Some(row) = store.find(Table::Environments, rows[i].name.as_str()) {
            let number: usize = store.count_values(row.id);
            push_count_line(&mut out, rows[i].name.as_str(), number, " variants\n");
        }
        i = i + 1;
    }
    assert(all.take(i as int) =~= all);
    out
}

/// The outcome of a command: the store after it and what it prints.
pub type CommandOutcome = (StoreView, ReplyView);

/// The result of an act that answers with a row, without the row.
pub open spec fn acted<T>(result: Result<T, StoreErrorView>) -> Result<(), StoreErrorView> {
    match result {
        Ok(_) => Ok(()),
        Err(error) => Err(error),
    }
}

/// The outcome of a command on projects.
pub open spec fn project_outcome(
    s: StoreView,
    command: NameCommand<Seq<char>>,
    fresh: FreshView,
) -> CommandOutcome {
    match command {
        NameCommand::List => (s, said(Ok(()), project_list(s))),
        NameCommand::Add { name } => {
            let (t, r) = s.record_added(Table::Projects, name, None, fresh);
            (
                t,
                said(
                    acted(answered(r, t.get(Table::Projects, name))),
                    note("Added project \""@, name, "\".\n"@),
                ),
            )
        },
        NameCommand::Rename { from, to } => {
            let (t, r) = s.record_renamed(Table::Projects, from, to, fresh);
            (
                t,
                said(
                    acted(answered(r, t.get(Table::Projects, to))),
                    sentence("Renamed project \""@, from, "\" to \""@, to, "\".\n"@),
                ),
            )
        },
        NameCommand::Remove { name, yes } => if !yes {
            (s, failed(unconfirmed("project remove"@)))
        } else {
            let (t, r) = s.record_removed(Table::Projects, name, fresh);
            (t, said(r, note("Removed project \""@, name, "\".\n"@)))
        },
    }
}

/// The outcome of a command on environments; a confirmed removal is by force.
pub open spec fn environment_outcome(
    s: StoreView,
    command: NameCommand<Seq<char>>,
    fresh: FreshView,
) -> CommandOutcome {
    match command {
        NameCommand::List => (s, said(Ok(()), environment_list(s))),
        NameCommand::Add { name } => {
            let (t, r) = s.record_added(Table::Environments, name, None, fresh);
            (
                t,
                said(
                    acted(answered(r, t.get(Table::Environments, name))),
                    note("Added environment \""@, name, "\".\n"@),
                ),
            )
        },
        NameCommand::Rename { from, to } => {
            let (t, r) = s.record_renamed(Table::Environments, from, to, fresh);
            (
                t,
                said(
                    acted(answered(r, t.get(Table::Environments, to))),
                    sentence("Renamed environment \""@, from, "\" to \""@, to, "\".\n"@),
                ),
            )
        },
        NameCommand::Remove { name, yes } => if !yes {
            (s, failed(unconfirmed("env remove"@)))
        } else {
            let (t, r) = s.environment_removed(name, true, fresh);
            (t, said(r, note("Removed environment \""@, name, "\".\n"@)))
        },
    }
}

/// The outcome of a command on secrets. No value is ever printed.
pub open spec fn secret_outcome(
    s: StoreView,
    command: SecretCommand<Seq<char>>,
    fresh: FreshView,
) -> CommandOutcome {
    match command {
        SecretCommand::List => (s, said(Ok(()), secret_list(s))),
        SecretCommand::Add { key } => {
            let (t, r) = s.record_added(Table::Secrets, key, None, fresh);
            (
                t,
                said(
                    acted(answered(r, t.get(Table::Secrets, key))),
                    note("Added secret \""@, key, "\".\n"@),
                ),
            )
        },
        SecretCommand::Rename { from, to } => {
            let (t, r) = s.record_renamed(Table::Secrets, from, to, fresh);
            (
                t,
                said(
                    acted(answered(r, t.get(Table::Secrets, to))),
                    sentence("Renamed secret \""@, from, "\" to \""@, to, "\".\n"@),
                ),
            )
        },
        SecretCommand::Remove { key, yes } => if !yes {
            (s, failed(unconfirmed("secret remove"@)))
        } else {
            let (t, r) = s.record_removed(Table::Secrets, key, fresh);
            (t, said(r, note("Removed secret \""@, key, "\".\n"@)))
        },
        SecretCommand::SetValue { key, environment, value } => {
            let (t, r) = s.variant_set(key, environment, value, fresh);
            (
                t,
                said(
                    r,
                    sentence("Set \""@, key, "\" for environment \""@, environment, "\".\n"@),
                ),
            )
        },
        SecretCommand::UnsetValue { key, environment } => {
            let (t, r) = s.variant_unset(key, environment, fresh);
            (
                t,
                said(r, sentence("Removed \""@, key, "\" variant for \""@, environment, "\".\n"@)),
            )
        },
        SecretCommand::Assign { key, project } => {
            let (t, r) = s.secret_assigned(key, project, fresh);
            (t, said(r, sentence("Assigned \""@, key, "\" to \""@, project, "\".\n"@)))
        },
        SecretCommand::Unassign { key, project } => {
            let (t, r) = s.secret_unassigned(key, project, fresh);
            (t, said(r, sentence("Unassigned \""@, key, "\" from \""@, project, "\".\n"@)))
        },
        SecretCommand::Describe { key, description } => {
            let (t, r) = s.secret_described(key, description, fresh);
            (
                t,
                said(
                    acted(answered(r, t.get(Table::Secrets, key))),
                    note("Updated description for \""@, key, "\".\n"@),
                ),
            )
        },
    }
}

/// The change that a command on projects or environments asks the store for.
pub open spec fn name_asked(
    table: Table,
    command: NameCommand<Seq<char>>,
    force: bool,
) -> Option<ChangeView> {
    match command {
        NameCommand::List => None,
        NameCommand::Add { name } => Some(addition(table, name, None)),
        NameCommand::Rename { from, to } => Some(renaming(table, from, to)),
        NameCommand::Remove { name, yes } => if yes {
            Some(removal(table, name, force))
        } else {
            None
        },
    }
}

/// The change that a command on secrets asks the store for.
pub open spec fn secret_asked(command: SecretCommand<Seq<char>>) -> Option<ChangeView> {
    match command {
        SecretCommand::List => None,
        SecretCommand::Add { key } => Some(addition(Table::Secrets, key, None)),
        SecretCommand::Rename { from, to } => Some(renaming(Table::Secrets, from, to)),
        SecretCommand::Remove { key, yes } => if yes {
            Some(removal(Table::Secrets, key, false))
        } else {
            None
        },
        SecretCommand::SetValue { key, environment, value } => Some(
            Change::VariantSet { key, environment, value },
        ),
        SecretCommand::UnsetValue { key, environment } => Some(
            Change::VariantUnset { key, environment },
        ),
        SecretCommand::Assign { key, project } => Some(Change::SecretAssign { key, project }),
        SecretCommand::Unassign { key, project } => Some(Change::SecretUnassign { key, project }),
        SecretCommand::Describe { key, description } => Some(
            Change::SecretDescribe { key, description },
        ),
    }
}

/// Carries out a command on projects with given identifiers, times and nonces.
pub fn project_command_with(store: &mut Store, command: &NameCommand<String>, fresh: &Fresh) -> (r:
    Reply)
    ensures
        final(store)@ == project_outcome(old(store)@, command@, fresh@).0,
        r@ == project_outcome(old(store)@, command@, fresh@).1,
        keeps(old(store)@, final(store)@),
        old(store)@.well_formed() ==> old(store)@.promised(name_asked(Table::Projects, command@, false), fresh@),
{
    proof {
        reveal(StoreView::promised);
    }
    match command {
        NameCommand::List => Reply { output: list_projects_text(store), result: Ok(0) },
        NameCommand::Add { name } => reply(
            store.add_project_with(name.as_str(), None, fresh),
            write_note("Added project \"", name.as_str(), "\".\n"),
        ),
        NameCommand::Rename { from, to } => reply(
            store.rename_project_with(from.as_str(), to.as_str(), fresh),
            write_sentence("Renamed project \"", from.as_str(), "\" to \"", to.as_str(), "\".\n"),
        ),
        NameCommand::Remove { name, yes } => match require_yes(*yes, "project remove") {
            Err(error) => refuse(error),
            Ok(_) => reply(
                store.remove_project_with(name.as_str(), fresh),
                write_note("Removed project \"", name.as_str(), "\".\n"),
            ),
        },
    }
}

/// Carries out a command on environments with given identifiers, times and nonces.
pub fn environment_command_with(
    store: &mut Store,
    command: &NameCommand<String>,
    fresh: &Fresh,
) -> (r: Reply)
    ensures
        final(store)@ == environment_outcome(old(store)@, command@, fresh@).0,
        r@ == environment_outcome(old(store)@, command@, fresh@).1,
        keeps(old(store)@, final(store)@),
        old(store)@.well_formed() ==> old(store)@.promised(name_asked(Table::Environments, command@, true), fresh@),
{
    proof {
        reveal(StoreView::promised);
    }
    match command {
        NameCommand::List => Reply { output: list_environments_text(store), result: Ok(0) },
        NameCommand::Add { name } => reply(
            store.add_environment_with(name.as_str(), None, fresh),
            write_note("Added environment \"", name.as_str(), "\".\n"),
        ),
        NameCommand::Rename { from, to } => reply(
            store.rename_environment_with(from.as_str(), to.as_str(), fresh),
            write_sentence(
                "Renamed environment \"",
                from.as_str(),
                "\" to \"",
                to.as_str(),
                "\".\n",
            ),
        ),
        NameCommand::Remove { name, yes } => match require_yes(*yes, "env remove") {
            Err(error) => refuse(error),
            Ok(_) => reply(
                store.remove_environment_with(name.as_str(), true, fresh),
                write_note("Removed environment \"", name.as_str(), "\".\n"),
            ),
        },
    }
}

/// Carries out a command on secrets with given identifiers, times and nonces.
pub fn secret_command_with(store: &mut Store, command: &SecretCommand<String>, fresh: &Fresh) -> (r:
    Reply)
    ensures
        final(store)@ == secret_outcome(old(store)@, command@, fresh@).0,
        r@ == secret_outcome(old(store)@, command@, fresh@).1,
        keeps(old(store)@, final(store)@),
        old(store)@.well_formed() ==> old(store)@.promised(secret_asked(command@), fresh@),
{
    proof {
        reveal(StoreView::promised);
    }
    match command {
        SecretCommand::List => Reply { output: list_secrets_text(store), result: Ok(0) },
        SecretCommand::Add { key } => reply(
            store.add_secret_with(key.as_str(), None, fresh),
            write_note("Added secret \"", key.as_str(), "\".\n"),
        ),
        SecretCommand::Rename { from, to } => reply(
            store.rename_secret_with(from.as_str(), to.as_str(), fresh),
            write_sentence("Renamed secret \"", from.as_str(), "\" to \"", to.as_str(), "\".\n"),
        ),
        SecretCommand::Remove { key, yes } => match require_yes(*yes, "secret remove") {
            Err(error) => refuse(error),
            Ok(_) => reply(
                store.remove_secret_with(key.as_str(), fresh),
                write_note("Removed secret \"", key.as_str(), "\".\n"),
            ),
        },
        SecretCommand::SetValue { key, environment, value } => reply(
            store.set_variant_with(key.as_str(), environment.as_str(), value.as_str(), fresh),
            write_sentence(
                "Set \"",
                key.as_str(),
                "\" for environment \"",
                environment.as_str(),
                "\".\n",
            ),
        ),
        SecretCommand::UnsetValue { key, environment } => reply(
            store.unset_variant_with(key.as_str(), environment.as_str(), fresh),
            write_sentence(
                "Removed \"",
                key.as_str(),
                "\" variant for \"",
                environment.as_str(),
                "\".\n",
            ),
        ),
        SecretCommand::Assign { key, project } => reply(
            store.assign_secret_with(key.as_str(), project.as_str(), fresh),
            write_sentence("Assigned \"", key.as_str(), "\" to \"", project.as_str(), "\".\n"),
        ),
        SecretCommand::Unassign { key, project } => reply(
            store.unassign_secret_with(key.as_str(), project.as_str(), fresh),
            write_sentence("Unassigned \"", key.as_str(), "\" from \"", project.as_str(), "\".\n"),
        ),
        SecretCommand::Describe { key, description } => {
            let text: Option<&str> = match description {
                Some(text) => Some(text.as_str()),
                None => None,
            };
            reply(
                store.set_secret_description_with(key.as_str(), text, fresh),
                write_note("Updated description for \"", key.as_str(), "\".\n"),
            )
        },
    }
}

/// Carries out a command on projects.
pub fn project_command(store: &mut Store, command: &NameCommand<String>) -> (r: Reply)
    ensures
        exists|fresh: FreshView| #[trigger]
            fresh.valid() && final(store)@ == project_outcome(old(store)@, command@, fresh).0 && r@
                == project_outcome(old(store)@, command@, fresh).1 && (old(store)@.well_formed() ==> old(
                store,
            )@.promised(name_asked(Table::Projects, command@, false), fresh)),
        keeps(old(store)@, final(store)@),
{
    let fresh = Fresh::draw();
    project_command_with(store, command, &fresh)
}

/// Carries out a command on environments.
pub fn environment_command(store: &mut Store, command: &NameCommand<String>) -> (r: Reply)
    ensures
        exists|fresh: FreshView| #[trigger]
            fresh.valid() && final(store)@ == environment_outcome(
                old(store)@,
                command@,
                fresh,
            ).0 && r@ == environment_outcome(old(store)@, command@, fresh).1 && (old(store)@.well_formed() ==> old(
                store,
            )@.promised(name_asked(Table::Environments, command@, true), fresh)),
        keeps(old(store)@, final(store)@),
{
    let fresh = Fresh::draw();
    environment_command_with(store, command, &fresh)
}

/// Carries out a command on secrets.
pub fn secret_command(store: &mut Store, command: &SecretCommand<String>) -> (r: Reply)
    ensures
        exists|fresh: FreshView| #[trigger]
            fresh.valid() && final(store)@ == secret_outcome(old(store)@, command@, fresh).0 && r@
                == secret_outcome(old(store)@, command@, fresh).1 && (old(store)@.well_formed() ==> old(
                store,
            )@.promised(secret_asked(command@), fresh)),
        keeps(old(store)@, final(store)@),
{
    let fresh = Fresh::draw();
    secret_command_with(store, command, &fresh)
}

} // verus!
