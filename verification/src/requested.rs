//! What each request does, as it shows from outside: when it is refused, what it changes, what
//! it leaves, and what it writes into the log.

use crate::change::{payload_of, Change};
use crate::crypto::sealable;
use crate::domain::DomainErrorView;
use crate::effects::{
    lemma_assigning_shows, lemma_describing_shows, lemma_inserting, lemma_removing_shows,
    lemma_renaming_shows, lemma_setting_shows, lemma_unsetting_shows, same_assignments,
    same_assignments_but, same_elsewhere, same_names_but, same_values, same_values_but,
};
use crate::error::StoreErrorView;
use crate::laws::lemma_value_stands;
use crate::order::lemma_filter;
use crate::store::FreshView;
use crate::tables::{id_taken, lemma_named_some, RecordView, StoreView, Table, VariantRowView};
use vstd::prelude::*;

verus! {

/// Whether a log has one operation more, of a kind, with the identifier and the time that were
/// drawn for it.
pub open spec fn logs_one(s: StoreView, t: StoreView, kind: Seq<char>, fresh: FreshView) -> bool {
    &&& t.operations.len() == s.operations.len() + 1
    &&& t.operations.drop_last() == s.operations
    &&& t.operations.last().kind == kind
    &&& t.operations.last().id == fresh.operation_id
    &&& t.operations.last().created_at == fresh.operation_time
}

/// What is read of a store does not rest on its log, nor on the times of removals.
pub proof fn lemma_log_unseen(s: StoreView, t: StoreView)
    requires
        t == (StoreView { operations: t.operations, removals: t.removals, ..s }),
    ensures
        forall|table: Table, n: Seq<char>| #[trigger] t.record(table, n) == s.record(table, n),
        same_values(s, t),
        same_assignments(s, t),
{
    assert forall|k: Seq<char>, e: Seq<char>| #[trigger] t.shown(k, e) == s.shown(k, e) by {
        assert(t.value(k, e) == s.value(k, e));
    }
}

/// Adding: a name that is there is refused and stays as it is. Otherwise the name is there, with
/// its description and the time of the request, and nothing else changes.
pub proof fn law_adding(
    s: StoreView,
    table: Table,
    name: Seq<char>,
    description: Option<Seq<char>>,
    fresh: FreshView,
)
    requires
        s.well_formed(),
    ensures
        s.record(table, name) is Some ==> s.record_added(table, name, description, fresh) == (
            s,
            Err::<(), StoreErrorView>(
                StoreErrorView::Domain(
                    match table {
                        Table::Projects => DomainErrorView::DuplicateProject { project: name },
                        Table::Environments => DomainErrorView::DuplicateEnvironment {
                            environment: name,
                        },
                        Table::Secrets => DomainErrorView::DuplicateSecret { key: name },
                    },
                ),
            ),
        ),
        s.record_added(table, name, description, fresh).1 is Ok ==> {
            let t = s.record_added(table, name, description, fresh).0;
            &&& s.record(table, name) is None
            &&& t.record(table, name) == Some(
                RecordView {
                    id: fresh.id,
                    name,
                    description,
                    created_at: fresh.time,
                    updated_at: fresh.time,
                },
            )
            &&& same_names_but(s, t, table, name)
            &&& same_elsewhere(s, t, table)
            &&& same_values(s, t)
            &&& same_assignments(s, t)
            &&& logs_one(
                s,
                t,
                match table {
                    Table::Projects => "project.add"@,
                    Table::Environments => "environment.add"@,
                    Table::Secrets => "secret.add"@,
                },
                fresh,
            )
        },
        s.record(table, name) is None && !id_taken(s.rows(table), fresh.id) && !s.knows(
            fresh.operation_id,
        ) && sealable(
            payload_of(
                match table {
                    Table::Projects => Change::ProjectAdd { name, description },
                    Table::Environments => Change::EnvironmentAdd { name, description },
                    Table::Secrets => Change::SecretAdd { key: name, description },
                },
            ),
        ) ==> s.record_added(table, name, description, fresh).1 is Ok,
{
    let row = RecordView {
        id: fresh.id,
        name,
        description,
        created_at: fresh.time,
        updated_at: fresh.time,
    };
    if s.record(table, name) is None && s.inserted(table, row) is Ok {
        let u = s.inserted(table, row)->Ok_0;
        assert(u.knows(fresh.operation_id) == s.knows(fresh.operation_id));
        if s.record_added(table, name, description, fresh).1 is Ok {
            let t = s.record_added(table, name, description, fresh).0;
            lemma_inserting(s, table, row);
            lemma_log_unseen(u, t);
            assert(t.operations.drop_last() =~= s.operations);
        }
    }
}

/// Renaming: a name that is not there and one that is taken are refused. Otherwise the row is
/// found by the new name, with its identifier, its description and all that belongs to it, and
/// the old name finds nothing. Nothing else changes.
pub proof fn law_renaming(
    s: StoreView,
    table: Table,
    from: Seq<char>,
    to: Seq<char>,
    fresh: FreshView,
)
    requires
        s.well_formed(),
    ensures
        s.record(table, from) is None ==> s.record_renamed(table, from, to, fresh) == (
            s,
            Err::<(), StoreErrorView>(
                StoreErrorView::Domain(
                    match table {
                        Table::Projects => DomainErrorView::ProjectNotFound(from),
                        Table::Environments => DomainErrorView::EnvironmentNotFound(from),
                        Table::Secrets => DomainErrorView::SecretNotFound(from),
                    },
                ),
            ),
        ),
        s.record(table, from) is Some && s.record(table, to) is Some ==> s.record_renamed(
            table,
            from,
            to,
            fresh,
        ) == (
            s,
            Err::<(), StoreErrorView>(
                StoreErrorView::Domain(
                    match table {
                        Table::Projects => DomainErrorView::DuplicateProject { project: to },
                        Table::Environments => DomainErrorView::DuplicateEnvironment {
                            environment: to,
                        },
                        Table::Secrets => DomainErrorView::DuplicateSecret { key: to },
                    },
                ),
            ),
        ),
        s.record_renamed(table, from, to, fresh).1 is Ok ==> {
            let t = s.record_renamed(table, from, to, fresh).0;
            let row = s.record(table, from)->0;
            &&& t.record(table, to) == Some(
                RecordView { name: to, updated_at: fresh.time, ..row },
            )
            &&& t.record(table, from) is None
            &&& forall|n: Seq<char>|
                n != from && n != to ==> #[trigger] t.record(table, n) == s.record(table, n)
            &&& same_elsewhere(s, t, table)
            &&& table is Secrets ==> {
                &&& forall|e: Seq<char>| #[trigger] t.shown(to, e) == s.shown(from, e)
                &&& forall|k: Seq<char>, e: Seq<char>|
                    k != from && k != to ==> #[trigger] t.shown(k, e) == s.shown(k, e)
                &&& forall|p: Seq<char>| #[trigger]
                    t.has_assignment(to, p) == s.has_assignment(from, p)
                &&& forall|k: Seq<char>, p: Seq<char>|
                    k != from && k != to ==> #[trigger] t.has_assignment(k, p)
                        == s.has_assignment(k, p)
            }
            &&& table is Environments ==> same_assignments(s, t) && (forall|k: Seq<char>| #[trigger]
                t.shown(k, to) == s.shown(k, from)) && forall|k: Seq<char>, e: Seq<char>|
                e != from && e != to ==> #[trigger] t.shown(k, e) == s.shown(k, e)
            &&& table is Projects ==> same_values(s, t) && (forall|k: Seq<char>| #[trigger]
                t.has_assignment(k, to) == s.has_assignment(k, from)) && forall|
                k: Seq<char>,
                p: Seq<char>,
            |
                p != from && p != to ==> #[trigger] t.has_assignment(k, p) == s.has_assignment(k, p)
            &&& logs_one(
                s,
                t,
                match table {
                    Table::Projects => "project.rename"@,
                    Table::Environments => "environment.rename"@,
                    Table::Secrets => "secret.rename"@,
                },
                fresh,
            )
        },
        s.record(table, from) is Some && s.record(table, to) is None && !s.knows(fresh.operation_id)
            && sealable(
            payload_of(
                match table {
                    Table::Projects => Change::ProjectRename { from, to },
                    Table::Environments => Change::EnvironmentRename { from, to },
                    Table::Secrets => Change::SecretRename { from, to },
                },
            ),
        ) ==> s.record_renamed(table, from, to, fresh).1 is Ok,
{
    if s.record(table, from) is Some && s.record(table, to) is None {
        let u = s.renamed(table, from, to, fresh.time);
        assert(u.knows(fresh.operation_id) == s.knows(fresh.operation_id));
        if s.record_renamed(table, from, to, fresh).1 is Ok {
            let t = s.record_renamed(table, from, to, fresh).0;
            lemma_renaming_shows(s, table, from, to, fresh.time);
            lemma_log_unseen(u, t);
            assert(t.operations.drop_last() =~= s.operations);
        }
    }
}

/// What is gone after the row of a name was removed: the name, and what belongs to it. All else
/// is there.
pub open spec fn only_gone(s: StoreView, t: StoreView, table: Table, name: Seq<char>) -> bool {
    &&& t.record(table, name) is None
    &&& same_names_but(s, t, table, name)
    &&& same_elsewhere(s, t, table)
    &&& forall|k: Seq<char>, e: Seq<char>| #[trigger]
        t.shown(k, e) == if table is Secrets && k == name || table is Environments && e == name {
            None
        } else {
            s.shown(k, e)
        }
    &&& forall|k: Seq<char>, p: Seq<char>| #[trigger]
        t.has_assignment(k, p) == (s.has_assignment(k, p) && !(table is Secrets && k == name)
            && !(table is Projects && p == name))
}

/// Removing a row takes away what belongs to it, and nothing else.
pub proof fn lemma_only_gone(s: StoreView, table: Table, name: Seq<char>, t: StoreView)
    requires
        s.well_formed(),
        s.record(table, name) is Some,
        ({
            let u = s.removed(table, name, s.record(table, name)->0.id);
            t == (StoreView { operations: t.operations, removals: t.removals, ..u })
        }),
    ensures
        only_gone(s, t, table, name),
{
    let row = s.record(table, name)->0;
    let u = s.removed(table, name, row.id);
    lemma_named_some(s.rows(table), name);
    lemma_removing_shows(s, table, row);
    lemma_log_unseen(u, t);
    assert forall|k: Seq<char>, e: Seq<char>| #[trigger]
        t.shown(k, e) == if table is Secrets && k == name || table is Environments && e == name {
            None
        } else {
            s.shown(k, e)
        } by {
        assert(t.shown(k, e) == u.shown(k, e));
    }
    assert forall|k: Seq<char>, p: Seq<char>| #[trigger]
        t.has_assignment(k, p) == (s.has_assignment(k, p) && !(table is Secrets && k == name)
            && !(table is Projects && p == name)) by {
        assert(t.has_assignment(k, p) == u.has_assignment(k, p));
    }
}

/// Removing a project or a secret: a name that is not there is refused. Otherwise the name is
/// gone, with the values and assignments that belong to it, and nothing else.
pub proof fn law_removing(s: StoreView, table: Table, name: Seq<char>, fresh: FreshView)
    requires
        s.well_formed(),
        !(table is Environments),
    ensures
        s.record(table, name) is None ==> s.record_removed(table, name, fresh) == (
            s,
            Err::<(), StoreErrorView>(
                StoreErrorView::Domain(
                    match table {
                        Table::Secrets => DomainErrorView::SecretNotFound(name),
                        _ => DomainErrorView::ProjectNotFound(name),
                    },
                ),
            ),
        ),
        s.record_removed(table, name, fresh).1 is Ok ==> {
            let t = s.record_removed(table, name, fresh).0;
            &&& s.record(table, name) is Some
            &&& only_gone(s, t, table, name)
            &&& logs_one(
                s,
                t,
                match table {
                    Table::Secrets => "secret.remove"@,
                    _ => "project.remove"@,
                },
                fresh,
            )
        },
        s.record(table, name) is Some && !s.knows(fresh.operation_id) && sealable(
            payload_of(
                match table {
                    Table::Secrets => Change::SecretRemove { key: name },
                    _ => Change::ProjectRemove { name },
                },
            ),
        ) ==> s.record_removed(table, name, fresh).1 is Ok,
{
    if s.record(table, name) is Some {
        let u = s.removed(table, name, s.record(table, name)->0.id);
        assert(u.knows(fresh.operation_id) == s.knows(fresh.operation_id));
        if s.record_removed(table, name, fresh).1 is Ok {
            let t = s.record_removed(table, name, fresh).0;
            lemma_only_gone(s, table, name, t);
            assert(t.operations.drop_last() =~= s.operations);
        }
    }
}

/// Removing an environment: a name that is not there is refused, and so is, without force, one
/// in which a secret has a value. Otherwise the name is gone with its values, and nothing else.
pub proof fn law_removing_an_environment(
    s: StoreView,
    name: Seq<char>,
    force: bool,
    fresh: FreshView,
)
    requires
        s.well_formed(),
    ensures
        s.record(Table::Environments, name) is None ==> s.environment_removed(name, force, fresh)
            == (
            s,
            Err::<(), StoreErrorView>(
                StoreErrorView::Domain(DomainErrorView::EnvironmentNotFound(name)),
            ),
        ),
        !force && (exists|k: Seq<char>| (#[trigger] s.shown(k, name)) is Some) ==> {
            let (t, r) = s.environment_removed(name, force, fresh);
            &&& t == s
            &&& r matches Err(
                StoreErrorView::Domain(
                    DomainErrorView::EnvironmentHasVariants { environment, variant_count },
                ),
            ) && environment == name && variant_count > 0
        },
        s.environment_removed(name, force, fresh).1 is Ok ==> {
            let t = s.environment_removed(name, force, fresh).0;
            &&& s.record(Table::Environments, name) is Some
            &&& only_gone(s, t, Table::Environments, name)
            &&& logs_one(s, t, "environment.remove"@, fresh)
        },
        force && s.record(Table::Environments, name) is Some && !s.knows(fresh.operation_id)
            && sealable(payload_of(Change::EnvironmentRemove { name, force })) ==> (
        s.environment_removed(name, force, fresh).1 is Ok),
{
    if s.record(Table::Environments, name) is Some {
        let row = s.record(Table::Environments, name)->0;
        let u = s.removed(Table::Environments, name, row.id);
        assert(u.knows(fresh.operation_id) == s.knows(fresh.operation_id));
        if s.environment_removed(name, force, fresh).1 is Ok {
            let t = s.environment_removed(name, force, fresh).0;
            lemma_only_gone(s, Table::Environments, name, t);
            assert(t.operations.drop_last() =~= s.operations);
        }
        if exists|k: Seq<char>| (#[trigger] s.shown(k, name)) is Some {
            let k = choose|k: Seq<char>| (#[trigger] s.shown(k, name)) is Some;
            let here = |v: VariantRowView| v.environment_id == row.id;
            let secret = s.record(Table::Secrets, k)->0;
            crate::model::lemma_variant_some(s.variants, secret.id, row.id);
            let v = s.variant(secret.id, row.id)->0;
            lemma_filter(s.variants, here, |v: VariantRowView| v.id);
            let i = choose|i: int| 0 <= i < s.variants.len() && s.variants[i] == v;
            assert(here(s.variants[i]));
            assert(s.variants.filter(here).contains(s.variants[i]));
        }
    } else if exists|k: Seq<char>| (#[trigger] s.shown(k, name)) is Some {
        let k = choose|k: Seq<char>| (#[trigger] s.shown(k, name)) is Some;
        assert(s.value(k, name) is Err);
    }
}

/// Describing a secret: a key that is not there is refused. Otherwise the secret has the
/// description, or none, and nothing else changes but the time of its last change.
pub proof fn law_describing(
    s: StoreView,
    key: Seq<char>,
    description: Option<Seq<char>>,
    fresh: FreshView,
)
    requires
        s.well_formed(),
    ensures
        s.record(Table::Secrets, key) is None ==> s.secret_described(key, description, fresh) == (
            s,
            Err::<(), StoreErrorView>(
                StoreErrorView::Domain(DomainErrorView::SecretNotFound(key)),
            ),
        ),
        s.secret_described(key, description, fresh).1 is Ok ==> {
            let t = s.secret_described(key, description, fresh).0;
            &&& s.record(Table::Secrets, key) is Some
            &&& t.record(Table::Secrets, key) == Some(
                RecordView {
                    description,
                    updated_at: fresh.time,
                    ..s.record(Table::Secrets, key)->0
                },
            )
            &&& same_names_but(s, t, Table::Secrets, key)
            &&& same_elsewhere(s, t, Table::Secrets)
            &&& same_values(s, t)
            &&& same_assignments(s, t)
            &&& logs_one(s, t, "secret.describe"@, fresh)
        },
        s.record(Table::Secrets, key) is Some && !s.knows(fresh.operation_id) && sealable(
            payload_of(Change::SecretDescribe { key, description }),
        ) ==> s.secret_described(key, description, fresh).1 is Ok,
{
    if s.record(Table::Secrets, key) is Some {
        let u = s.described(Table::Secrets, key, description, fresh.time);
        assert(u.knows(fresh.operation_id) == s.knows(fresh.operation_id));
        if s.secret_described(key, description, fresh).1 is Ok {
            let t = s.secret_described(key, description, fresh).0;
            lemma_describing_shows(s, Table::Secrets, key, description, fresh.time);
            lemma_log_unseen(u, t);
            assert(t.operations.drop_last() =~= s.operations);
        }
    }
}

/// Setting a value: a secret or an environment that is not there is refused. Otherwise the
/// value is read for that secret in that environment, and nothing else changes.
pub proof fn law_setting(
    s: StoreView,
    key: Seq<char>,
    environment: Seq<char>,
    value: Seq<char>,
    fresh: FreshView,
)
    requires
        s.well_formed(),
        s.promised(Some(Change::VariantSet { key, environment, value }), fresh),
    ensures
        s.record(Table::Secrets, key) is None ==> s.variant_set(key, environment, value, fresh) == (
            s,
            Err::<(), StoreErrorView>(
                StoreErrorView::Domain(DomainErrorView::SecretNotFound(key)),
            ),
        ),
        s.record(Table::Secrets, key) is Some && s.record(Table::Environments, environment) is None
            ==> s.variant_set(key, environment, value, fresh) == (
            s,
            Err::<(), StoreErrorView>(
                StoreErrorView::Domain(DomainErrorView::EnvironmentNotFound(environment)),
            ),
        ),
        s.variant_set(key, environment, value, fresh).1 is Ok ==> {
            let t = s.variant_set(key, environment, value, fresh).0;
            &&& t.shown(key, environment) == Some(value)
            &&& same_values_but(s, t, key, environment)
            &&& forall|table: Table, n: Seq<char>| #[trigger]
                t.record(table, n) == s.record(table, n)
            &&& same_assignments(s, t)
            &&& logs_one(s, t, "variant.set"@, fresh)
        },
{
    reveal(StoreView::promised);
    if s.variant_set(key, environment, value, fresh).1 is Ok {
        let secret = s.record(Table::Secrets, key)->0;
        let place = s.record(Table::Environments, environment)->0;
        let time = fresh.operation_time;
        let step = s.value_set(secret.id, place.id, value, fresh.id, fresh.nonce, time);
        let t = s.variant_set(key, environment, value, fresh).0;
        assert(step->Ok_0.value(key, environment) == t.value(key, environment));
        lemma_value_stands(s, key, environment, value, fresh.id, fresh.nonce, time);
        lemma_setting_shows(s, key, environment, value, fresh.id, fresh.nonce, time);
        lemma_log_unseen(step->Ok_0, t);
        assert(t.operations.drop_last() =~= s.operations);
    }
}

/// Taking a value away: a secret or an environment that is not there is refused. Otherwise no
/// value is read for that secret in that environment, and nothing else changes.
pub proof fn law_unsetting(
    s: StoreView,
    key: Seq<char>,
    environment: Seq<char>,
    fresh: FreshView,
)
    requires
        s.well_formed(),
    ensures
        s.record(Table::Secrets, key) is None ==> s.variant_unset(key, environment, fresh) == (
            s,
            Err::<(), StoreErrorView>(
                StoreErrorView::Domain(DomainErrorView::SecretNotFound(key)),
            ),
        ),
        s.record(Table::Secrets, key) is Some && s.record(Table::Environments, environment) is None
            ==> s.variant_unset(key, environment, fresh) == (
            s,
            Err::<(), StoreErrorView>(
                StoreErrorView::Domain(DomainErrorView::EnvironmentNotFound(environment)),
            ),
        ),
        s.variant_unset(key, environment, fresh).1 is Ok ==> {
            let t = s.variant_unset(key, environment, fresh).0;
            &&& t.shown(key, environment) is None
            &&& same_values_but(s, t, key, environment)
            &&& forall|table: Table, n: Seq<char>| #[trigger]
                t.record(table, n) == s.record(table, n)
            &&& same_assignments(s, t)
            &&& logs_one(s, t, "variant.unset"@, fresh)
        },
        s.record(Table::Secrets, key) is Some && s.record(Table::Environments, environment) is Some
            && !s.knows(fresh.operation_id) && sealable(
            payload_of(Change::VariantUnset { key, environment }),
        ) ==> s.variant_unset(key, environment, fresh).1 is Ok,
{
    if s.record(Table::Secrets, key) is Some && s.record(Table::Environments, environment) is Some {
        let secret = s.record(Table::Secrets, key)->0;
        let place = s.record(Table::Environments, environment)->0;
        let u = s.value_unset(secret.id, place.id);
        let noted = u.removal_noted(secret.id, place.id, fresh.operation_time);
        assert(noted.knows(fresh.operation_id) == s.knows(fresh.operation_id));
        if s.variant_unset(key, environment, fresh).1 is Ok {
            let t = s.variant_unset(key, environment, fresh).0;
            lemma_unsetting_shows(s, key, environment);
            lemma_log_unseen(u, t);
            assert(t.operations.drop_last() =~= s.operations);
        }
    }
}

/// Assigning and unassigning: a secret or a project that is not there is refused. Otherwise the
/// secret is assigned to the project, or it is not, and nothing else changes.
pub proof fn law_assigning(s: StoreView, key: Seq<char>, project: Seq<char>, fresh: FreshView)
    requires
        s.well_formed(),
    ensures
        s.record(Table::Secrets, key) is None ==> {
            let refused = (
                s,
                Err::<(), StoreErrorView>(
                    StoreErrorView::Domain(DomainErrorView::SecretNotFound(key)),
                ),
            );
            s.secret_assigned(key, project, fresh) == refused && s.secret_unassigned(
                key,
                project,
                fresh,
            ) == refused
        },
        s.record(Table::Secrets, key) is Some && s.record(Table::Projects, project) is None ==> {
            let refused = (
                s,
                Err::<(), StoreErrorView>(
                    StoreErrorView::Domain(DomainErrorView::ProjectNotFound(project)),
                ),
            );
            s.secret_assigned(key, project, fresh) == refused && s.secret_unassigned(
                key,
                project,
                fresh,
            ) == refused
        },
        s.secret_assigned(key, project, fresh).1 is Ok ==> {
            let t = s.secret_assigned(key, project, fresh).0;
            &&& t.has_assignment(key, project)
            &&& same_assignments_but(s, t, key, project)
            &&& same_values(s, t)
            &&& forall|table: Table, n: Seq<char>| #[trigger]
                t.record(table, n) == s.record(table, n)
            &&& logs_one(s, t, "secret.assign"@, fresh)
        },
        s.secret_unassigned(key, project, fresh).1 is Ok ==> {
            let t = s.secret_unassigned(key, project, fresh).0;
            &&& !t.has_assignment(key, project)
            &&& same_assignments_but(s, t, key, project)
            &&& same_values(s, t)
            &&& forall|table: Table, n: Seq<char>| #[trigger]
                t.record(table, n) == s.record(table, n)
            &&& logs_one(s, t, "secret.unassign"@, fresh)
        },
        s.record(Table::Secrets, key) is Some && s.record(Table::Projects, project) is Some
            && !s.knows(fresh.operation_id) ==> {
            &&& sealable(payload_of(Change::SecretAssign { key, project })) ==> s.secret_assigned(
                key,
                project,
                fresh,
            ).1 is Ok
            &&& sealable(payload_of(Change::SecretUnassign { key, project }))
                ==> s.secret_unassigned(key, project, fresh).1 is Ok
        },
{
    if s.record(Table::Secrets, key) is Some && s.record(Table::Projects, project) is Some {
        let secret = s.record(Table::Secrets, key)->0;
        let owner = s.record(Table::Projects, project)->0;
        let made = s.assignment_made(owner.id, secret.id, fresh.time);
        let ended = s.assignment_ended(owner.id, secret.id);
        assert(made.knows(fresh.operation_id) == s.knows(fresh.operation_id));
        assert(ended.knows(fresh.operation_id) == s.knows(fresh.operation_id));
        lemma_assigning_shows(s, key, project, fresh.time);
        if s.secret_assigned(key, project, fresh).1 is Ok {
            let t = s.secret_assigned(key, project, fresh).0;
            lemma_log_unseen(made, t);
            assert(t.operations.drop_last() =~= s.operations);
        }
        if s.secret_unassigned(key, project, fresh).1 is Ok {
            let t = s.secret_unassigned(key, project, fresh).0;
            lemma_log_unseen(ended, t);
            assert(t.operations.drop_last() =~= s.operations);
        }
    }
}

} // verus!
