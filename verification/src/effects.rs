//! What each step on the tables shows from outside: which names there are and what their rows
//! hold, which values are read, and which secrets are assigned to which projects.

use crate::crypto::{sealed_text, stands_for};
use crate::ids::Id;
use crate::model::{
    lemma_named_described, lemma_named_pushed, lemma_named_removed, lemma_named_renamed,
    lemma_registry_assigned, lemma_registry_described, lemma_registry_inserted,
    lemma_registry_removed, lemma_registry_renamed, lemma_registry_unassigned,
    lemma_registry_value_set, lemma_registry_value_unset,
};
use crate::tables::{RecordView, StoreView, Table};
use crate::time::Timestamp;
use crate::wellformed::lemma_renamed;
use vstd::prelude::*;

verus! {

impl StoreView {
    /// The value that a reader sees for a secret in an environment, if there is one.
    pub open spec fn shown(self, key: Seq<char>, environment: Seq<char>) -> Option<Seq<char>> {
        match self.value(key, environment) {
            Ok(value) => value,
            Err(_) => None,
        }
    }
}

/// Whether a table of two stores has the same rows under the same names but one.
pub open spec fn same_names_but(s: StoreView, t: StoreView, table: Table, name: Seq<char>) -> bool {
    forall|n: Seq<char>| n != name ==> #[trigger] t.record(table, n) == s.record(table, n)
}

/// Whether the other tables than one have the same rows under the same names.
pub open spec fn same_elsewhere(s: StoreView, t: StoreView, table: Table) -> bool {
    forall|other: Table, n: Seq<char>|
        other != table ==> #[trigger] t.record(other, n) == s.record(other, n)
}

/// Whether two stores show the same values.
pub open spec fn same_values(s: StoreView, t: StoreView) -> bool {
    forall|k: Seq<char>, e: Seq<char>| #[trigger] t.shown(k, e) == s.shown(k, e)
}

/// Whether two stores show the same values but one.
pub open spec fn same_values_but(
    s: StoreView,
    t: StoreView,
    key: Seq<char>,
    environment: Seq<char>,
) -> bool {
    forall|k: Seq<char>, e: Seq<char>|
        (k, e) != (key, environment) ==> #[trigger] t.shown(k, e) == s.shown(k, e)
}

/// Whether in two stores the same secrets are assigned to the same projects.
pub open spec fn same_assignments(s: StoreView, t: StoreView) -> bool {
    forall|k: Seq<char>, p: Seq<char>| #[trigger] t.has_assignment(k, p) == s.has_assignment(k, p)
}

/// Whether in two stores the same secrets are assigned to the same projects but for one pair.
pub open spec fn same_assignments_but(
    s: StoreView,
    t: StoreView,
    key: Seq<char>,
    project: Seq<char>,
) -> bool {
    forall|k: Seq<char>, p: Seq<char>|
        (k, p) != (key, project) ==> #[trigger] t.has_assignment(k, p) == s.has_assignment(k, p)
}

/// What a reader sees is what the registry holds.
proof fn lemma_seen(s: StoreView)
    ensures
        forall|k: Seq<char>, e: Seq<char>| #[trigger]
            s.shown(k, e) == (if s.registry().values.contains_key((k, e)) {
                Some(s.registry().values[(k, e)])
            } else {
                None
            }),
        forall|k: Seq<char>, p: Seq<char>| #[trigger]
            s.has_assignment(k, p) == s.registry().assigned.contains((k, p)),
{
    assert forall|k: Seq<char>, e: Seq<char>| #[trigger]
        s.shown(k, e) == (if s.registry().values.contains_key((k, e)) {
            Some(s.registry().values[(k, e)])
        } else {
            None
        }) by {
        assert(s.registry().values.contains_key((k, e)) == s.has_value(k, e));
    }
}

/// A row added is found by its name, and nothing else changes.
pub proof fn lemma_inserting(s: StoreView, table: Table, row: RecordView)
    requires
        s.well_formed(),
        s.record(table, row.name) is None,
        s.inserted(table, row) is Ok,
    ensures
        ({
            let t = s.inserted(table, row)->Ok_0;
            &&& t.record(table, row.name) == Some(row)
            &&& same_names_but(s, t, table, row.name)
            &&& same_elsewhere(s, t, table)
            &&& same_values(s, t)
            &&& same_assignments(s, t)
        }),
{
    let t = s.inserted(table, row)->Ok_0;
    assert forall|n: Seq<char>| n != row.name implies #[trigger] t.record(table, n) == s.record(
        table,
        n,
    ) by {
        lemma_named_pushed(s.rows(table), row, n);
    }
    lemma_named_pushed(s.rows(table), row, row.name);
    lemma_registry_inserted(s, table, row);
    lemma_seen(s);
    lemma_seen(t);
}

/// A row renamed is found by its new name with all that belongs to it, and by its old one no
/// more. Nothing else changes.
pub proof fn lemma_renaming_shows(
    s: StoreView,
    table: Table,
    from: Seq<char>,
    to: Seq<char>,
    time: Timestamp,
)
    requires
        s.well_formed(),
        s.record(table, from) is Some,
        s.record(table, to) is None,
    ensures
        ({
            let t = s.renamed(table, from, to, time);
            let row = s.record(table, from)->0;
            &&& t.record(table, to) == Some(RecordView { name: to, updated_at: time, ..row })
            &&& t.record(table, from) is None
            &&& forall|n: Seq<char>|
                n != from && n != to ==> #[trigger] t.record(table, n) == s.record(table, n)
            &&& same_elsewhere(s, t, table)
            &&& table is Projects ==> same_values(s, t)
            &&& table is Environments ==> same_assignments(s, t)
            &&& table is Secrets ==> {
                &&& forall|e: Seq<char>| #[trigger] t.shown(to, e) == s.shown(from, e)
                &&& forall|k: Seq<char>, e: Seq<char>|
                    k != from && k != to ==> #[trigger] t.shown(k, e) == s.shown(k, e)
                &&& forall|p: Seq<char>| #[trigger]
                    t.has_assignment(to, p) == s.has_assignment(from, p)
                &&& forall|k: Seq<char>, p: Seq<char>|
                    k != from && k != to ==> #[trigger] t.has_assignment(k, p)
                        == s.has_assignment(k, p)
            }
            &&& table is Environments ==> {
                &&& forall|k: Seq<char>| #[trigger] t.shown(k, to) == s.shown(k, from)
                &&& forall|k: Seq<char>, e: Seq<char>|
                    e != from && e != to ==> #[trigger] t.shown(k, e) == s.shown(k, e)
            }
            &&& table is Projects ==> {
                &&& forall|k: Seq<char>| #[trigger]
                    t.has_assignment(k, to) == s.has_assignment(k, from)
                &&& forall|k: Seq<char>, p: Seq<char>|
                    p != from && p != to ==> #[trigger] t.has_assignment(k, p)
                        == s.has_assignment(k, p)
            }
        }),
{
    let t = s.renamed(table, from, to, time);
    lemma_renamed(s, table, from, to, time);
    assert forall|n: Seq<char>| #[trigger]
        t.record(table, n) == if n == from {
            None
        } else if n == to {
            Some(RecordView { name: to, updated_at: time, ..s.record(table, from)->0 })
        } else {
            s.record(table, n)
        } by {
        lemma_named_renamed(s.rows(table), t.rows(table), from, to, time, n);
    }
    lemma_registry_renamed(s, table, from, to, time);
    lemma_seen(s);
    lemma_seen(t);
}

/// A row described anew keeps all but its description and the time of its last change. Nothing
/// else changes.
pub proof fn lemma_describing_shows(
    s: StoreView,
    table: Table,
    name: Seq<char>,
    description: Option<Seq<char>>,
    time: Timestamp,
)
    requires
        s.well_formed(),
        s.record(table, name) is Some,
    ensures
        ({
            let t = s.described(table, name, description, time);
            &&& t.record(table, name) == Some(
                RecordView { description, updated_at: time, ..s.record(table, name)->0 },
            )
            &&& same_names_but(s, t, table, name)
            &&& same_elsewhere(s, t, table)
            &&& same_values(s, t)
            &&& same_assignments(s, t)
        }),
{
    let t = s.described(table, name, description, time);
    assert forall|n: Seq<char>| n != name implies #[trigger] t.record(table, n) == s.record(
        table,
        n,
    ) by {
        lemma_named_described(s, table, name, description, time, n);
    }
    lemma_named_described(s, table, name, description, time, name);
    assert(s.registry().names(table).contains_key(name));
    lemma_registry_described(s, table, name, description, time);
    lemma_seen(s);
    lemma_seen(t);
}

/// A row removed is found no more, and neither is what belongs to it. Nothing else changes.
pub proof fn lemma_removing_shows(s: StoreView, table: Table, row: RecordView)
    requires
        s.well_formed(),
        s.record(table, row.name) == Some(row),
    ensures
        ({
            let name = row.name;
            let t = s.removed(table, name, row.id);
            &&& t.record(table, name) is None
            &&& same_names_but(s, t, table, name)
            &&& same_elsewhere(s, t, table)
            &&& table is Projects ==> same_values(s, t)
            &&& table is Environments ==> same_assignments(s, t)
            &&& table is Projects ==> {
                &&& forall|k: Seq<char>| !(#[trigger] t.has_assignment(k, name))
                &&& forall|k: Seq<char>, p: Seq<char>|
                    p != name ==> #[trigger] t.has_assignment(k, p) == s.has_assignment(k, p)
            }
            &&& table is Environments ==> {
                &&& forall|k: Seq<char>| (#[trigger] t.shown(k, name)) is None
                &&& forall|k: Seq<char>, e: Seq<char>|
                    e != name ==> #[trigger] t.shown(k, e) == s.shown(k, e)
            }
            &&& table is Secrets ==> {
                &&& forall|e: Seq<char>| (#[trigger] t.shown(name, e)) is None
                &&& forall|k: Seq<char>, e: Seq<char>|
                    k != name ==> #[trigger] t.shown(k, e) == s.shown(k, e)
                &&& forall|p: Seq<char>| !(#[trigger] t.has_assignment(name, p))
                &&& forall|k: Seq<char>, p: Seq<char>|
                    k != name ==> #[trigger] t.has_assignment(k, p) == s.has_assignment(k, p)
            }
        }),
{
    let t = s.removed(table, row.name, row.id);
    assert forall|n: Seq<char>| #[trigger]
        t.record(table, n) == if n == row.name {
            None
        } else {
            s.record(table, n)
        } by {
        lemma_named_removed(s.rows(table), row.name, n);
    }
    lemma_registry_removed(s, table, row);
    lemma_seen(s);
    lemma_seen(t);
}

/// A value set is read, if its ciphertext stands for it. Nothing else changes.
pub proof fn lemma_setting_shows(
    s: StoreView,
    key: Seq<char>,
    environment: Seq<char>,
    value: Seq<char>,
    id: Id,
    nonce: Seq<u8>,
    time: Timestamp,
)
    requires
        s.well_formed(),
        s.record(Table::Secrets, key) is Some,
        s.record(Table::Environments, environment) is Some,
        s.value_set(
            s.record(Table::Secrets, key)->0.id,
            s.record(Table::Environments, environment)->0.id,
            value,
            id,
            nonce,
            time,
        ) is Ok,
        stands_for(s.key, nonce, sealed_text(s.key, nonce, value), value),
    ensures
        ({
            let t = s.value_set(
                s.record(Table::Secrets, key)->0.id,
                s.record(Table::Environments, environment)->0.id,
                value,
                id,
                nonce,
                time,
            )->Ok_0;
            &&& t.shown(key, environment) == Some(value)
            &&& same_values_but(s, t, key, environment)
            &&& forall|table: Table, n: Seq<char>| #[trigger]
                t.record(table, n) == s.record(table, n)
            &&& same_assignments(s, t)
        }),
{
    let t = s.value_set(
        s.record(Table::Secrets, key)->0.id,
        s.record(Table::Environments, environment)->0.id,
        value,
        id,
        nonce,
        time,
    )->Ok_0;
    lemma_registry_value_set(s, key, environment, value, id, nonce, time);
    lemma_seen(s);
    lemma_seen(t);
}

/// A value taken away is read no more. Nothing else changes.
pub proof fn lemma_unsetting_shows(s: StoreView, key: Seq<char>, environment: Seq<char>)
    requires
        s.well_formed(),
        s.record(Table::Secrets, key) is Some,
        s.record(Table::Environments, environment) is Some,
    ensures
        ({
            let t = s.value_unset(
                s.record(Table::Secrets, key)->0.id,
                s.record(Table::Environments, environment)->0.id,
            );
            &&& t.shown(key, environment) is None
            &&& same_values_but(s, t, key, environment)
            &&& forall|table: Table, n: Seq<char>| #[trigger]
                t.record(table, n) == s.record(table, n)
            &&& same_assignments(s, t)
        }),
{
    let t = s.value_unset(
        s.record(Table::Secrets, key)->0.id,
        s.record(Table::Environments, environment)->0.id,
    );
    lemma_registry_value_unset(s, key, environment);
    lemma_seen(s);
    lemma_seen(t);
}

/// An assignment made or ended is there or not. Nothing else changes.
pub proof fn lemma_assigning_shows(
    s: StoreView,
    key: Seq<char>,
    project: Seq<char>,
    time: Timestamp,
)
    requires
        s.well_formed(),
        s.record(Table::Secrets, key) is Some,
        s.record(Table::Projects, project) is Some,
    ensures
        ({
            let owner_id = s.record(Table::Projects, project)->0.id;
            let secret_id = s.record(Table::Secrets, key)->0.id;
            let t = s.assignment_made(owner_id, secret_id, time);
            let u = s.assignment_ended(owner_id, secret_id);
            &&& t.has_assignment(key, project)
            &&& same_assignments_but(s, t, key, project)
            &&& same_values(s, t)
            &&& forall|table: Table, n: Seq<char>| #[trigger]
                t.record(table, n) == s.record(table, n)
            &&& !u.has_assignment(key, project)
            &&& same_assignments_but(s, u, key, project)
            &&& same_values(s, u)
            &&& forall|table: Table, n: Seq<char>| #[trigger]
                u.record(table, n) == s.record(table, n)
        }),
{
    let owner_id = s.record(Table::Projects, project)->0.id;
    let secret_id = s.record(Table::Secrets, key)->0.id;
    let t = s.assignment_made(owner_id, secret_id, time);
    let u = s.assignment_ended(owner_id, secret_id);
    lemma_registry_assigned(s, key, project, time);
    lemma_registry_unassigned(s, key, project);
    lemma_seen(s);
    lemma_seen(t);
    lemma_seen(u);
}

} // verus!
