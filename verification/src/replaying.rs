//! What replaying each change of another device does, as it shows from outside.

use crate::change::{change_read, Change, ChangeView};
use crate::crypto::{sealable, sealed_text};
use crate::effects::{
    lemma_assigning_shows, lemma_describing_shows, lemma_inserting, lemma_renaming_shows,
    lemma_setting_shows, lemma_unsetting_shows, same_assignments, same_assignments_but,
    same_elsewhere, same_names_but, same_values, same_values_but,
};
use crate::error::StoreErrorView;
use crate::ids::Id;
use crate::laws::{lemma_replay_keeps_log, lemma_value_stands};
use crate::model::{lemma_variant_after_set, lemma_variant_some};
use crate::requested::{lemma_log_unseen, lemma_only_gone, only_gone};
use crate::store::FreshView;
use crate::tables::{RecordView, RemovalRow, StoreView, SyncOperationView, Table};
use crate::time::Timestamp;
use vstd::prelude::*;

verus! {

/// A change that could not be made here, because its name is taken or one that it needs is not
/// there, leaves the store as it is when it is replayed: names, descriptions, values,
/// assignments and times.
pub proof fn law_replay_of_what_cannot_be_changes_nothing(
    s: StoreView,
    change: ChangeView,
    time: Timestamp,
    fresh: FreshView,
)
    requires
        match change {
            Change::ProjectAdd { name, .. } => s.record(Table::Projects, name) is Some,
            Change::EnvironmentAdd { name, .. } => s.record(Table::Environments, name) is Some,
            Change::SecretAdd { key, .. } => s.record(Table::Secrets, key) is Some,
            Change::ProjectRename { from, to } => s.record(Table::Projects, from) is None
                || s.record(Table::Projects, to) is Some,
            Change::EnvironmentRename { from, to } => s.record(Table::Environments, from) is None
                || s.record(Table::Environments, to) is Some,
            Change::SecretRename { from, to } => s.record(Table::Secrets, from) is None
                || s.record(Table::Secrets, to) is Some,
            Change::ProjectRemove { name } => s.record(Table::Projects, name) is None,
            Change::EnvironmentRemove { name, .. } => s.record(Table::Environments, name) is None,
            Change::SecretRemove { key } => s.record(Table::Secrets, key) is None,
            Change::SecretDescribe { key, .. } => s.record(Table::Secrets, key) is None,
            Change::VariantSet { key, environment, .. } => s.record(Table::Secrets, key) is None
                || s.record(Table::Environments, environment) is None,
            Change::VariantUnset { key, environment } => s.record(Table::Secrets, key) is None
                || s.record(Table::Environments, environment) is None,
            Change::SecretAssign { key, project } => s.record(Table::Secrets, key) is None
                || s.record(Table::Projects, project) is None,
            Change::SecretUnassign { key, project } => s.record(Table::Secrets, key) is None
                || s.record(Table::Projects, project) is None,
        },
    ensures
        s.change_replayed(change, time, fresh) == (s, Ok::<(), StoreErrorView>(())),
{
}

/// An addition is replayed where the name is not there: the name is there, with its description
/// and the time of the operation. Nothing else changes.
pub proof fn law_replayed_addition(
    s: StoreView,
    table: Table,
    name: Seq<char>,
    description: Option<Seq<char>>,
    time: Timestamp,
    fresh: FreshView,
)
    requires
        s.well_formed(),
        s.record(table, name) is None,
    ensures
        ({
            let (t, r) = s.change_replayed(
                match table {
                    Table::Projects => Change::ProjectAdd { name, description },
                    Table::Environments => Change::EnvironmentAdd { name, description },
                    Table::Secrets => Change::SecretAdd { key: name, description },
                },
                time,
                fresh,
            );
            r is Ok ==> {
                &&& t.record(table, name) == Some(
                    RecordView {
                        id: fresh.id,
                        name,
                        description,
                        created_at: time,
                        updated_at: time,
                    },
                )
                &&& same_names_but(s, t, table, name)
                &&& same_elsewhere(s, t, table)
                &&& same_values(s, t)
                &&& same_assignments(s, t)
            }
        }),
{
    let row = RecordView { id: fresh.id, name, description, created_at: time, updated_at: time };
    if s.inserted(table, row) is Ok {
        lemma_inserting(s, table, row);
    }
}

/// A renaming is replayed where the old name is there and the new one is not: the row is found
/// by the new name, with its identifier, its description and all that belongs to it. Nothing
/// else changes.
pub proof fn law_replayed_renaming(
    s: StoreView,
    table: Table,
    from: Seq<char>,
    to: Seq<char>,
    time: Timestamp,
    fresh: FreshView,
)
    requires
        s.well_formed(),
        s.record(table, from) is Some,
        s.record(table, to) is None,
    ensures
        ({
            let (t, r) = s.change_replayed(
                match table {
                    Table::Projects => Change::ProjectRename { from, to },
                    Table::Environments => Change::EnvironmentRename { from, to },
                    Table::Secrets => Change::SecretRename { from, to },
                },
                time,
                fresh,
            );
            let row = s.record(table, from)->0;
            &&& r is Ok
            &&& t.record(table, to) == Some(RecordView { name: to, updated_at: time, ..row })
            &&& t.record(table, from) is None
            &&& forall|n: Seq<char>|
                n != from && n != to ==> #[trigger] t.record(table, n) == s.record(table, n)
            &&& same_elsewhere(s, t, table)
            &&& table is Secrets ==> {
                &&& forall|e: Seq<char>| #[trigger] t.shown(to, e) == s.shown(from, e)
                &&& forall|k: Seq<char>, e: Seq<char>|
                    k != from && k != to ==> #[trigger] t.shown(k, e) == s.shown(k, e)
                &&& forall|p: Seq<char>| #[trigger]
                    t.has_assignment(to, p) == s.has_assignment(from, p)
                &&& forall|k: Seq<char>, p: Seq<char>|
                    k != from && k != to ==> #[trigger] t.has_assignment(k, p)
                        == s.has_assignment(k, p)
            }
            &&& table is Environments ==> same_assignments(s, t) && (forall|k: Seq<char>| #[trigger]
                t.shown(k, to) == s.shown(k, from)) && forall|k: Seq<char>, e: Seq<char>|
                e != from && e != to ==> #[trigger] t.shown(k, e) == s.shown(k, e)
            &&& table is Projects ==> same_values(s, t) && (forall|k: Seq<char>| #[trigger]
                t.has_assignment(k, to) == s.has_assignment(k, from)) && forall|
                k: Seq<char>,
                p: Seq<char>,
            |
                p != from && p != to ==> #[trigger] t.has_assignment(k, p) == s.has_assignment(k, p)
        }),
{
    lemma_renaming_shows(s, table, from, to, time);
}

/// A removal is replayed where the name is there, that of an environment with its values too:
/// the name is gone with what belongs to it, and nothing else.
pub proof fn law_replayed_removal(
    s: StoreView,
    table: Table,
    name: Seq<char>,
    force: bool,
    time: Timestamp,
    fresh: FreshView,
)
    requires
        s.well_formed(),
        s.record(table, name) is Some,
    ensures
        ({
            let (t, r) = s.change_replayed(
                match table {
                    Table::Projects => Change::ProjectRemove { name },
                    Table::Environments => Change::EnvironmentRemove { name, force },
                    Table::Secrets => Change::SecretRemove { key: name },
                },
                time,
                fresh,
            );
            r is Ok && only_gone(s, t, table, name)
        }),
{
    let t = s.removed(table, name, s.record(table, name)->0.id);
    lemma_only_gone(s, table, name, t);
}

/// A description is replayed where the secret is there: the secret has it, with the time of the
/// operation. Nothing else changes.
pub proof fn law_replayed_description(
    s: StoreView,
    key: Seq<char>,
    description: Option<Seq<char>>,
    time: Timestamp,
    fresh: FreshView,
)
    requires
        s.well_formed(),
        s.record(Table::Secrets, key) is Some,
    ensures
        ({
            let (t, r) = s.change_replayed(
                Change::SecretDescribe { key, description },
                time,
                fresh,
            );
            &&& r is Ok
            &&& t.record(Table::Secrets, key) == Some(
                RecordView { description, updated_at: time, ..s.record(Table::Secrets, key)->0 },
            )
            &&& same_names_but(s, t, Table::Secrets, key)
            &&& same_elsewhere(s, t, Table::Secrets)
            &&& same_values(s, t)
            &&& same_assignments(s, t)
        }),
{
    lemma_describing_shows(s, Table::Secrets, key, description, time);
}

/// Whether a value was set, or taken away, after a time, by the rows of the two tables.
pub open spec fn updated_later(s: StoreView, secret_id: Id, place_id: Id, time: Timestamp) -> bool {
    ||| exists|i: int|
        0 <= i < s.variants.len() && (#[trigger] s.variants[i]).secret_id == secret_id
            && s.variants[i].environment_id == place_id && time.earlier(s.variants[i].updated_at)
    ||| exists|i: int|
        0 <= i < s.removals.len() && (#[trigger] s.removals[i]).secret_id == secret_id
            && s.removals[i].environment_id == place_id && time.earlier(s.removals[i].removed_at)
}

proof fn lemma_updated_later(s: StoreView, secret_id: Id, place_id: Id, time: Timestamp)
    requires
        s.well_formed(),
    ensures
        s.outdated(secret_id, place_id, time) == updated_later(s, secret_id, place_id, time),
{
    lemma_variant_some(s.variants, secret_id, place_id);
    if exists|i: int|
        0 <= i < s.variants.len() && (#[trigger] s.variants[i]).secret_id == secret_id
            && s.variants[i].environment_id == place_id && time.earlier(s.variants[i].updated_at) {
        let i = choose|i: int|
            0 <= i < s.variants.len() && (#[trigger] s.variants[i]).secret_id == secret_id
                && s.variants[i].environment_id == place_id && time.earlier(
                s.variants[i].updated_at,
            );
        crate::model::lemma_variant_unique(s.variants, s.variants[i]);
    }
    if s.variant(secret_id, place_id) is Some {
        let v = s.variant(secret_id, place_id)->0;
        let i = choose|i: int| 0 <= i < s.variants.len() && s.variants[i] == v;
        assert(s.variants[i].secret_id == secret_id);
    }
}

/// A value is replayed unless it was set or taken away later: then it is read, and carries the
/// time of the operation. Otherwise the store stays as it is. Nothing else changes.
pub proof fn law_replayed_value(
    s: StoreView,
    key: Seq<char>,
    environment: Seq<char>,
    value: Seq<char>,
    time: Timestamp,
    fresh: FreshView,
)
    requires
        s.well_formed(),
        s.record(Table::Secrets, key) is Some,
        s.record(Table::Environments, environment) is Some,
        s.replay_confirmed(Change::VariantSet { key, environment, value }, time, fresh),
    ensures
        ({
            let (t, r) = s.change_replayed(
                Change::VariantSet { key, environment, value },
                time,
                fresh,
            );
            let secret_id = s.record(Table::Secrets, key)->0.id;
            let place_id = s.record(Table::Environments, environment)->0.id;
            let later = updated_later(s, secret_id, place_id, time);
            &&& later ==> t == s && r is Ok
            &&& !later && r is Ok ==> {
                &&& t.shown(key, environment) == Some(value)
                &&& t.variant(secret_id, place_id) matches Some(row) && row.updated_at == time
                &&& same_values_but(s, t, key, environment)
                &&& forall|table: Table, n: Seq<char>| #[trigger]
                    t.record(table, n) == s.record(table, n)
                &&& same_assignments(s, t)
                &&& t.removals == s.removals
            }
        }),
{
    let secret_id = s.record(Table::Secrets, key)->0.id;
    let place_id = s.record(Table::Environments, environment)->0.id;
    lemma_updated_later(s, secret_id, place_id, time);
    let (t, r) = s.change_replayed(Change::VariantSet { key, environment, value }, time, fresh);
    if !s.outdated(secret_id, place_id, time) && r is Ok {
        lemma_value_stands(s, key, environment, value, fresh.id, fresh.nonce, time);
        lemma_setting_shows(s, key, environment, value, fresh.id, fresh.nonce, time);
        lemma_variant_after_set(
            s,
            secret_id,
            place_id,
            value,
            fresh.id,
            fresh.nonce,
            time,
            secret_id,
            place_id,
        );
    }
}

/// A removal of a value is replayed unless the value was set later: then none is read. A value
/// that was set later stays. Either way the removal is remembered, and nothing else changes.
pub proof fn law_replayed_unsetting(
    s: StoreView,
    key: Seq<char>,
    environment: Seq<char>,
    time: Timestamp,
    fresh: FreshView,
)
    requires
        s.well_formed(),
        s.record(Table::Secrets, key) is Some,
        s.record(Table::Environments, environment) is Some,
    ensures
        ({
            let (t, r) = s.change_replayed(
                Change::VariantUnset { key, environment },
                time,
                fresh,
            );
            let secret_id = s.record(Table::Secrets, key)->0.id;
            let place_id = s.record(Table::Environments, environment)->0.id;
            let set_later = exists|i: int|
                0 <= i < s.variants.len() && (#[trigger] s.variants[i]).secret_id == secret_id
                    && s.variants[i].environment_id == place_id && time.earlier(
                    s.variants[i].updated_at,
                );
            &&& r is Ok
            &&& set_later ==> t.variants == s.variants && t.shown(key, environment) == s.shown(
                key,
                environment,
            )
            &&& !set_later ==> t.shown(key, environment) is None
            &&& same_values_but(s, t, key, environment)
            &&& forall|table: Table, n: Seq<char>| #[trigger]
                t.record(table, n) == s.record(table, n)
            &&& same_assignments(s, t)
            &&& exists|i: int|
                0 <= i < t.removals.len() && (#[trigger] t.removals[i]).secret_id == secret_id
                    && t.removals[i].environment_id == place_id && !t.removals[i].removed_at.earlier(
                    time,
                )
        }),
{
    let secret_id = s.record(Table::Secrets, key)->0.id;
    let place_id = s.record(Table::Environments, environment)->0.id;
    let (t, r) = s.change_replayed(Change::VariantUnset { key, environment }, time, fresh);
    lemma_variant_some(s.variants, secret_id, place_id);
    let set_later = exists|i: int|
        0 <= i < s.variants.len() && (#[trigger] s.variants[i]).secret_id == secret_id
            && s.variants[i].environment_id == place_id && time.earlier(s.variants[i].updated_at);
    let later = s.variant(secret_id, place_id) matches Some(row) && time.earlier(row.updated_at);
    assert(set_later == later) by {
        if set_later {
            let i = choose|i: int|
                0 <= i < s.variants.len() && (#[trigger] s.variants[i]).secret_id == secret_id
                    && s.variants[i].environment_id == place_id && time.earlier(
                    s.variants[i].updated_at,
                );
            crate::model::lemma_variant_unique(s.variants, s.variants[i]);
        }
        if later {
            let v = s.variant(secret_id, place_id)->0;
            let i = choose|i: int| 0 <= i < s.variants.len() && s.variants[i] == v;
            assert(s.variants[i].secret_id == secret_id);
        }
    }
    let u = if s.variant(secret_id, place_id) is Some && !later {
        s.value_unset(secret_id, place_id)
    } else {
        s
    };
    assert(t == u.removal_noted(secret_id, place_id, time));
    lemma_unsetting_shows(s, key, environment);
    lemma_log_unseen(u, t);
    if s.variant(secret_id, place_id) is None {
        assert(s.shown(key, environment) is None);
    }
    if u.removed_after(secret_id, place_id, time) {
        let i = choose|i: int|
            0 <= i < u.removals.len() && (#[trigger] u.removals[i]).secret_id == secret_id
                && u.removals[i].environment_id == place_id && time.earlier(
                u.removals[i].removed_at,
            );
        assert(t.removals[i].secret_id == secret_id);
    } else {
        let last = t.removals.len() - 1;
        assert(t.removals[last] == RemovalRow {
            secret_id,
            environment_id: place_id,
            removed_at: time,
        });
    }
}

/// Assigning and unassigning are replayed where the secret and the project are there: the
/// secret is assigned to the project, or it is not, and nothing else changes.
pub proof fn law_replayed_assignment(
    s: StoreView,
    key: Seq<char>,
    project: Seq<char>,
    time: Timestamp,
    fresh: FreshView,
)
    requires
        s.well_formed(),
        s.record(Table::Secrets, key) is Some,
        s.record(Table::Projects, project) is Some,
    ensures
        ({
            let (t, r) = s.change_replayed(Change::SecretAssign { key, project }, time, fresh);
            &&& r is Ok
            &&& t.has_assignment(key, project)
            &&& same_assignments_but(s, t, key, project)
            &&& same_values(s, t)
            &&& forall|table: Table, n: Seq<char>| #[trigger]
                t.record(table, n) == s.record(table, n)
        }),
        ({
            let (t, r) = s.change_replayed(Change::SecretUnassign { key, project }, time, fresh);
            &&& r is Ok
            &&& !t.has_assignment(key, project)
            &&& same_assignments_but(s, t, key, project)
            &&& same_values(s, t)
            &&& forall|table: Table, n: Seq<char>| #[trigger]
                t.record(table, n) == s.record(table, n)
        }),
{
    lemma_assigning_shows(s, key, project, time);
}

/// An import of one operation replays its change and logs it as it came; one whose kind is not
/// known is logged and does nothing else, and one that is logged already does nothing at all.
pub proof fn law_import_replays_and_logs(
    s: StoreView,
    operation: SyncOperationView,
    fresh: FreshView,
)
    ensures
        (exists|i: int|
            0 <= i < s.operations.len() && (#[trigger] s.operations[i]).id == operation.id)
            ==> s.operation_imported(operation, fresh) == (
            s,
            Ok::<bool, StoreErrorView>(false),
        ),
        s.operation_imported(operation, fresh).1 == Ok::<bool, StoreErrorView>(true) ==> {
            let t = s.operation_imported(operation, fresh).0;
            let seen = StoreView { operations: s.operations, ..t };
            &&& t.operations.drop_last() == s.operations
            &&& t.operations.len() == s.operations.len() + 1
            &&& t.operations.last().id == operation.id
            &&& t.operations.last().kind == operation.kind
            &&& t.operations.last().created_at == operation.created_at
            &&& t.operations.last().nonce == fresh.operation_nonce
            &&& t.operations.last().ciphertext == sealed_text(
                s.key,
                fresh.operation_nonce,
                operation.payload,
            )
            &&& change_read(operation.kind, operation.payload) matches Ok(Some(change)) ==> seen
                == s.change_replayed(change, operation.created_at, fresh).0
            &&& change_read(operation.kind, operation.payload) matches Ok(None) ==> seen == s
        },
        !s.knows(operation.id) ==> (change_read(operation.kind, operation.payload) matches Err(
            error,
        ) ==> s.operation_imported(operation, fresh) == (s, Err::<bool, StoreErrorView>(error))),
        !s.knows(operation.id) && sealable(operation.payload) && change_read(
            operation.kind,
            operation.payload,
        ) == Ok::<Option<ChangeView>, StoreErrorView>(None) ==> s.operation_imported(
            operation,
            fresh,
        ).1 == Ok::<bool, StoreErrorView>(true),
{
    if s.operation_imported(operation, fresh).1 == Ok::<bool, StoreErrorView>(true) {
        let t = s.operation_imported(operation, fresh).0;
        lemma_replay_keeps_log(s, operation, fresh);
        assert(t.operations.drop_last() =~= s.operations);
    }
}

} // verus!
