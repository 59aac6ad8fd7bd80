//! What holds of the store as a whole: what a change does to the registry, what the log
//! keeps of it, and what another device makes of the log.

use crate::change::{
    kind_of, payload_of, replayed, Change, ChangeView,
};
use crate::crypto::{sealable, sealed_text, stands_for};
use crate::error::StoreErrorView;
use crate::ids::Id;
use crate::model::{
    lemma_ids_differ, lemma_registry_assigned, lemma_registry_described, lemma_registry_inserted,
    lemma_registry_removed, lemma_registry_renamed, lemma_registry_unassigned,
    lemma_registry_value_set, lemma_registry_value_unset, lemma_variant_after_set,
    lemma_variant_kept, lemma_variant_some, RegistryView,
};
use crate::order::{collected, distinct_by, lemma_collected, lemma_filter, ordered};
use crate::replay::drawn;
use crate::requests::lemma_found_id;
use crate::store::{operation_for, FreshView, Outcome};
use crate::tables::{
    id_taken, lemma_named_some, log_order, named, operation_order, OperationRowView, RecordView,
    RemovalRow, StoreView, SyncOperationView, Table, VariantRowView,
};
use crate::time::{lemma_time_total, Timestamp};
use crate::wellformed::{
    lemma_assignment_ended, lemma_assignment_made, lemma_described, lemma_empty, lemma_inserted,
    lemma_recorded, lemma_removal_noted, lemma_removed, lemma_renamed, lemma_value_set,
    lemma_value_unset,
};
use vstd::prelude::*;

verus! {

impl StoreView {
    /// The outcome of the request that makes a change.
    pub open spec fn change_made(self, change: ChangeView, fresh: FreshView) -> Outcome<()> {
        match change {
            Change::ProjectAdd { name, description } => self.record_added(
                Table::Projects,
                name,
                description,
                fresh,
            ),
            Change::ProjectRename { from, to } => self.record_renamed(
                Table::Projects,
                from,
                to,
                fresh,
            ),
            Change::ProjectRemove { name } => self.record_removed(Table::Projects, name, fresh),
            Change::EnvironmentAdd { name, description } => self.record_added(
                Table::Environments,
                name,
                description,
                fresh,
            ),
            Change::EnvironmentRename { from, to } => self.record_renamed(
                Table::Environments,
                from,
                to,
                fresh,
            ),
            Change::EnvironmentRemove { name, force } => self.environment_removed(
                name,
                force,
                fresh,
            ),
            Change::SecretAdd { key, description } => self.record_added(
                Table::Secrets,
                key,
                description,
                fresh,
            ),
            Change::SecretRename { from, to } => self.record_renamed(
                Table::Secrets,
                from,
                to,
                fresh,
            ),
            Change::SecretRemove { key } => self.record_removed(Table::Secrets, key, fresh),
            Change::SecretDescribe { key, description } => self.secret_described(
                key,
                description,
                fresh,
            ),
            Change::VariantSet { key, environment, value } => self.variant_set(
                key,
                environment,
                value,
                fresh,
            ),
            Change::VariantUnset { key, environment } => self.variant_unset(
                key,
                environment,
                fresh,
            ),
            Change::SecretAssign { key, project } => self.secret_assigned(key, project, fresh),
            Change::SecretUnassign { key, project } => self.secret_unassigned(key, project, fresh),
        }
    }

    /// Whether a change is read back once it was made: its operation from the log, and the
    /// value that it set from the registry. Every request that succeeds promises this.
    pub open spec fn change_confirmed(self, change: ChangeView, fresh: FreshView) -> bool {
        let after = self.change_made(change, fresh).0;
        &&& after.has_logged(change, fresh)
        &&& change matches Change::VariantSet { key, environment, value } ==> after.value(
            key,
            environment,
        ) == Ok::<Option<Seq<char>>, StoreErrorView>(Some(value))
    }

    /// Whether the change that was asked for, if any, is read back where the request for it
    /// succeeds.
    #[verifier::opaque]
    pub open spec fn promised(self, asked: Option<ChangeView>, fresh: FreshView) -> bool {
        asked matches Some(change) ==> (self.change_made(change, fresh).1 is Ok
            ==> self.change_confirmed(change, fresh))
    }

    /// Whether a change that is replayed is read back. Replaying promises this.
    pub open spec fn replay_confirmed(
        self,
        change: ChangeView,
        time: Timestamp,
        fresh: FreshView,
    ) -> bool {
        let (after, result) = self.change_replayed(change, time, fresh);
        result is Ok ==> self.reads_back(change, time, after)
    }
}

impl RegistryView {
    /// The registry after a change.
    pub open spec fn changed(self, change: ChangeView) -> RegistryView {
        match change {
            Change::ProjectAdd { name, description } => self.with_name(
                Table::Projects,
                name,
                description,
            ),
            Change::ProjectRename { from, to } => self.with_renamed(Table::Projects, from, to),
            Change::ProjectRemove { name } => self.without_name(Table::Projects, name),
            Change::EnvironmentAdd { name, description } => self.with_name(
                Table::Environments,
                name,
                description,
            ),
            Change::EnvironmentRename { from, to } => self.with_renamed(
                Table::Environments,
                from,
                to,
            ),
            Change::EnvironmentRemove { name, .. } => self.without_name(Table::Environments, name),
            Change::SecretAdd { key, description } => self.with_name(
                Table::Secrets,
                key,
                description,
            ),
            Change::SecretRename { from, to } => self.with_renamed(Table::Secrets, from, to),
            Change::SecretRemove { key } => self.without_name(Table::Secrets, key),
            Change::SecretDescribe { key, description } => self.with_name(
                Table::Secrets,
                key,
                description,
            ),
            Change::VariantSet { key, environment, value } => self.with_value(
                key,
                environment,
                value,
            ),
            Change::VariantUnset { key, environment } => self.without_value(key, environment),
            Change::SecretAssign { key, project } => self.with_assignment(key, project),
            Change::SecretUnassign { key, project } => self.without_assignment(key, project),
        }
    }
}

/// The log does not bear on the registry.
pub proof fn lemma_log_apart(s: StoreView, operations: Seq<OperationRowView>)
    ensures
        (StoreView { operations, ..s }).registry() == s.registry(),
{
    let t = StoreView { operations, ..s };
    let a = t.registry();
    let b = s.registry();
    assert(a.projects =~= b.projects);
    assert(a.environments =~= b.environments);
    assert(a.secrets =~= b.secrets);
    assert forall|k: Seq<char>, e: Seq<char>| #[trigger] t.value(k, e) == s.value(k, e) by {
    }
    assert(a.values =~= b.values);
    assert forall|k: Seq<char>, p: Seq<char>| #[trigger]
        t.has_assignment(k, p) == s.has_assignment(k, p) by {
    }
    assert(a.assigned =~= b.assigned);
}

/// The times of removals do not bear on the registry.
pub proof fn lemma_removals_apart(s: StoreView, removals: Seq<RemovalRow>)
    ensures
        (StoreView { removals, ..s }).registry() == s.registry(),
{
    let t = StoreView { removals, ..s };
    let a = t.registry();
    let b = s.registry();
    assert(a.projects =~= b.projects);
    assert(a.environments =~= b.environments);
    assert(a.secrets =~= b.secrets);
    assert forall|k: Seq<char>, e: Seq<char>| #[trigger] t.value(k, e) == s.value(k, e) by {
    }
    assert(a.values =~= b.values);
    assert forall|k: Seq<char>, p: Seq<char>| #[trigger]
        t.has_assignment(k, p) == s.has_assignment(k, p) by {
    }
    assert(a.assigned =~= b.assigned);
}

/// A value that is read back after it was set has a ciphertext that stands for it.
pub proof fn lemma_value_stands(
    s: StoreView,
    key: Seq<char>,
    environment: Seq<char>,
    value: Seq<char>,
    id: Id,
    nonce: Seq<u8>,
    time: Timestamp,
)
    requires
        s.well_formed(),
        s.record(Table::Secrets, key) is Some,
        s.record(Table::Environments, environment) is Some,
        ({
            let set = s.value_set(
                s.record(Table::Secrets, key)->0.id,
                s.record(Table::Environments, environment)->0.id,
                value,
                id,
                nonce,
                time,
            );
            set is Ok && set->Ok_0.value(key, environment) == Ok::<
                Option<Seq<char>>,
                StoreErrorView,
            >(Some(value))
        }),
    ensures
        stands_for(s.key, nonce, sealed_text(s.key, nonce, value), value),
{
    let secret = s.record(Table::Secrets, key)->0;
    let place = s.record(Table::Environments, environment)->0;
    lemma_variant_after_set(s, secret.id, place.id, value, id, nonce, time, secret.id, place.id);
}

/// A change that is logged is one operation more in the log, and nothing else.
pub proof fn lemma_logged(s: StoreView, change: ChangeView, fresh: FreshView)
    ensures
        s.logged(change, fresh).1 is Ok ==> {
            let t = s.logged(change, fresh).0;
            &&& t == (StoreView { operations: t.operations, ..s })
            &&& t.operations == s.operations.push(
                OperationRowView {
                    id: fresh.operation_id,
                    kind: kind_of(change),
                    ciphertext: sealed_text(s.key, fresh.operation_nonce, payload_of(change)),
                    nonce: fresh.operation_nonce,
                    created_at: fresh.operation_time,
                },
            )
            &&& !s.knows(fresh.operation_id)
            &&& sealable(payload_of(change))
            &&& t.registry() == s.registry()
            &&& s.well_formed() ==> t.well_formed()
        },
        s.logged(change, fresh).1 is Err ==> s.logged(change, fresh).0 == s,
{
    let t = s.logged(change, fresh).0;
    lemma_log_apart(s, t.operations);
    lemma_recorded(
        s,
        SyncOperationView {
            id: fresh.operation_id,
            kind: kind_of(change),
            payload: payload_of(change),
            created_at: fresh.operation_time,
        },
        fresh.operation_nonce,
    );
}

/// What a change did to a store: it changed the registry, stayed well-formed under the same
/// key, and logged one operation that stands for it.
pub open spec fn carried_out(
    s: StoreView,
    t: StoreView,
    change: ChangeView,
    fresh: FreshView,
) -> bool {
    &&& t.registry() == s.registry().changed(change)
    &&& t.well_formed()
    &&& t.key == s.key
    &&& !s.knows(fresh.operation_id)
    &&& sealable(payload_of(change))
    &&& t.operations == s.operations.push(
        OperationRowView {
            id: fresh.operation_id,
            kind: kind_of(change),
            ciphertext: sealed_text(s.key, fresh.operation_nonce, payload_of(change)),
            nonce: fresh.operation_nonce,
            created_at: fresh.operation_time,
        },
    )
}

/// A request that succeeds changes the registry as its change says, and its change is logged
/// as one operation.
pub proof fn law_success_is_one_logged_change(s: StoreView, change: ChangeView, fresh: FreshView)
    requires
        s.well_formed(),
        s.change_made(change, fresh).1 is Ok,
        s.change_confirmed(change, fresh),
    ensures
        carried_out(s, s.change_made(change, fresh).0, change, fresh),
{
    match change {
        Change::ProjectAdd { name, description } => {
            lemma_addition_made(s, Table::Projects, name, description, fresh);
        },
        Change::EnvironmentAdd { name, description } => {
            lemma_addition_made(s, Table::Environments, name, description, fresh);
        },
        Change::SecretAdd { key, description } => {
            lemma_addition_made(s, Table::Secrets, key, description, fresh);
        },
        Change::ProjectRename { from, to } => {
            lemma_renamed(s, Table::Projects, from, to, fresh.time);
            lemma_registry_renamed(s, Table::Projects, from, to, fresh.time);
            lemma_logged(s.renamed(Table::Projects, from, to, fresh.time), change, fresh);
        },
        Change::EnvironmentRename { from, to } => {
            lemma_renamed(s, Table::Environments, from, to, fresh.time);
            lemma_registry_renamed(s, Table::Environments, from, to, fresh.time);
            lemma_logged(s.renamed(Table::Environments, from, to, fresh.time), change, fresh);
        },
        Change::SecretRename { from, to } => {
            lemma_renamed(s, Table::Secrets, from, to, fresh.time);
            lemma_registry_renamed(s, Table::Secrets, from, to, fresh.time);
            lemma_logged(s.renamed(Table::Secrets, from, to, fresh.time), change, fresh);
        },
        Change::ProjectRemove { name } => {
            lemma_removal_made(s, Table::Projects, name, change, fresh);
        },
        Change::EnvironmentRemove { name, force } => {
            lemma_removal_made(s, Table::Environments, name, change, fresh);
        },
        Change::SecretRemove { key } => {
            lemma_removal_made(s, Table::Secrets, key, change, fresh);
        },
        Change::SecretDescribe { key, description } => {
            lemma_described(s, Table::Secrets, key, description, fresh.time);
            lemma_registry_described(s, Table::Secrets, key, description, fresh.time);
            lemma_logged(
                s.described(Table::Secrets, key, description, fresh.time),
                change,
                fresh,
            );
        },
        Change::VariantSet { key, environment, value } => {
            let secret = s.record(Table::Secrets, key)->0;
            let place = s.record(Table::Environments, environment)->0;
            let time = fresh.operation_time;
            let step = s.value_set(secret.id, place.id, value, fresh.id, fresh.nonce, time);
            lemma_found_id(s, Table::Secrets, key);
            lemma_found_id(s, Table::Environments, environment);
            lemma_value_set(s, secret.id, place.id, value, fresh.id, fresh.nonce, time);
            assert(step->Ok_0.value(key, environment) == s.change_made(change, fresh).0.value(
                key,
                environment,
            ));
            lemma_value_stands(
                s,
                key,
                environment,
                value,
                fresh.id,
                fresh.nonce,
                fresh.operation_time,
            );
            lemma_registry_value_set(
                s,
                key,
                environment,
                value,
                fresh.id,
                fresh.nonce,
                fresh.operation_time,
            );
            lemma_logged(step->Ok_0, change, fresh);
        },
        Change::VariantUnset { key, environment } => {
            let secret = s.record(Table::Secrets, key)->0;
            let place = s.record(Table::Environments, environment)->0;
            let unset = s.value_unset(secret.id, place.id);
            let noted = unset.removal_noted(secret.id, place.id, fresh.operation_time);
            lemma_found_id(s, Table::Secrets, key);
            lemma_found_id(s, Table::Environments, environment);
            lemma_value_unset(s, secret.id, place.id);
            lemma_registry_value_unset(s, key, environment);
            lemma_removal_noted(unset, secret.id, place.id, fresh.operation_time);
            lemma_removals_apart(unset, noted.removals);
            lemma_logged(noted, change, fresh);
        },
        Change::SecretAssign { key, project } => {
            let secret = s.record(Table::Secrets, key)->0;
            let owner = s.record(Table::Projects, project)->0;
            lemma_found_id(s, Table::Secrets, key);
            lemma_found_id(s, Table::Projects, project);
            lemma_assignment_made(s, owner.id, secret.id, fresh.time);
            lemma_registry_assigned(s, key, project, fresh.time);
            lemma_logged(s.assignment_made(owner.id, secret.id, fresh.time), change, fresh);
        },
        Change::SecretUnassign { key, project } => {
            let secret = s.record(Table::Secrets, key)->0;
            let owner = s.record(Table::Projects, project)->0;
            lemma_assignment_ended(s, owner.id, secret.id);
            lemma_registry_unassigned(s, key, project);
            lemma_logged(s.assignment_ended(owner.id, secret.id), change, fresh);
        },
    }
}

proof fn lemma_addition_made(
    s: StoreView,
    table: Table,
    name: Seq<char>,
    description: Option<Seq<char>>,
    fresh: FreshView,
)
    requires
        s.well_formed(),
        s.record_added(table, name, description, fresh).1 is Ok,
    ensures
        carried_out(
            s,
            s.record_added(table, name, description, fresh).0,
            crate::store::addition(table, name, description),
            fresh,
        ),
{
    let row = RecordView {
        id: fresh.id,
        name,
        description,
        created_at: fresh.time,
        updated_at: fresh.time,
    };
    lemma_inserted(s, table, row);
    lemma_registry_inserted(s, table, row);
    lemma_logged(
        s.inserted(table, row)->Ok_0,
        crate::store::addition(table, name, description),
        fresh,
    );
}

proof fn lemma_removal_made(
    s: StoreView,
    table: Table,
    name: Seq<char>,
    change: ChangeView,
    fresh: FreshView,
)
    requires
        s.well_formed(),
        s.record(table, name) is Some,
        s.removed(table, name, s.record(table, name)->0.id).logged(change, fresh).1 is Ok,
    ensures
        ({
            let r = s.removed(table, name, s.record(table, name)->0.id);
            let t = r.logged(change, fresh).0;
            &&& t.registry() == s.registry().without_name(table, name)
            &&& t.well_formed()
            &&& t.key == s.key
            &&& r.operations == s.operations
            &&& r.key == s.key
            &&& !s.knows(fresh.operation_id)
            &&& sealable(payload_of(change))
            &&& t.operations == r.operations.push(
                OperationRowView {
                    id: fresh.operation_id,
                    kind: kind_of(change),
                    ciphertext: sealed_text(s.key, fresh.operation_nonce, payload_of(change)),
                    nonce: fresh.operation_nonce,
                    created_at: fresh.operation_time,
                },
            )
        }),
{
    let row = s.record(table, name)->0;
    lemma_named_some(s.rows(table), name);
    lemma_removed(s, table, row);
    lemma_registry_removed(s, table, row);
    let r = s.removed(table, name, row.id);
    lemma_logged(r, change, fresh);
    assert(r.operations == s.operations);
    if s.knows(fresh.operation_id) {
        let i = choose|i: int|
            0 <= i < s.operations.len() && (#[trigger] s.operations[i]).id == fresh.operation_id;
        assert(r.operations[i].id == fresh.operation_id);
    }
}

/// Whether none of some values was set after a time.
pub open spec fn values_until(rows: Seq<VariantRowView>, time: Timestamp) -> bool {
    forall|i: int| 0 <= i < rows.len() ==> !time.earlier((#[trigger] rows[i]).updated_at)
}

/// Whether none of some removals happened after a time.
pub open spec fn removals_until(rows: Seq<RemovalRow>, time: Timestamp) -> bool {
    forall|i: int| 0 <= i < rows.len() ==> !time.earlier((#[trigger] rows[i]).removed_at)
}

/// Whether no value of a store was set or taken away after a time.
pub open spec fn no_update_after(s: StoreView, time: Timestamp) -> bool {
    values_until(s.variants, time) && removals_until(s.removals, time)
}

/// Whether a row of some table has an identifier.
pub open spec fn used(s: StoreView, id: Id) -> bool {
    ||| id_taken(s.projects, id)
    ||| id_taken(s.environments, id)
    ||| id_taken(s.secrets, id)
    ||| exists|i: int| 0 <= i < s.variants.len() && (#[trigger] s.variants[i]).id == id
}

/// What replaying a change did to a store.
pub open spec fn taken_over(
    t: StoreView,
    u: StoreView,
    change: ChangeView,
    time: Timestamp,
    id: Id,
) -> bool {
    &&& u.registry() == t.registry().changed(change)
    &&& u.well_formed()
    &&& u.key == t.key
    &&& u.operations == t.operations
    &&& no_update_after(u, time)
    &&& forall|other: Id| #[trigger] used(u, other) ==> used(t, other) || other == id
}

proof fn lemma_same_names(s: StoreView, t: StoreView, table: Table, name: Seq<char>)
    requires
        s.registry() == t.registry(),
    ensures
        s.record(table, name) is Some <==> t.record(table, name) is Some,
{
    assert(s.registry().names(table).contains_key(name) == s.record(table, name) is Some);
    assert(t.registry().names(table).contains_key(name) == t.record(table, name) is Some);
}

proof fn lemma_replay_addition(
    t: StoreView,
    table: Table,
    name: Seq<char>,
    description: Option<Seq<char>>,
    time: Timestamp,
    id: Id,
)
    requires
        t.well_formed(),
        no_update_after(t, time),
        !used(t, id),
        t.record(table, name) is None,
    ensures
        ({
            let u = t.addition_replayed(table, name, description, time, id);
            &&& u.1 is Ok
            &&& taken_over(t, u.0, crate::store::addition(table, name, description), time, id)
        }),
{
    let row = RecordView { id, name, description, created_at: time, updated_at: time };
    assert(!id_taken(t.rows(table), id));
    lemma_inserted(t, table, row);
    lemma_registry_inserted(t, table, row);
    let u = t.inserted(table, row)->Ok_0;
    assert forall|other: Id| #[trigger] used(u, other) implies used(t, other) || other == id by {
        if id_taken(u.rows(table), other) {
            let i = choose|i: int| 0 <= i < u.rows(table).len() && (#[trigger] u.rows(table)[i]).id
                == other;
            if i < t.rows(table).len() {
                assert(t.rows(table)[i].id == other);
                assert(id_taken(t.rows(table), other));
            }
        }
    }
    assert(u.variants == t.variants);
}

/// Changing rows in place uses no other identifiers.
pub proof fn lemma_rows_mapped(rows: Seq<RecordView>, after: Seq<RecordView>, id: Id)
    requires
        after.len() == rows.len(),
        forall|i: int| 0 <= i < rows.len() ==> (#[trigger] after[i]).id == rows[i].id,
        id_taken(after, id),
    ensures
        id_taken(rows, id),
{
    let i = choose|i: int| 0 <= i < after.len() && (#[trigger] after[i]).id == id;
    assert(rows[i].id == id);
}

proof fn lemma_replay_renaming(
    t: StoreView,
    table: Table,
    from: Seq<char>,
    to: Seq<char>,
    time: Timestamp,
    id: Id,
)
    requires
        t.well_formed(),
        no_update_after(t, time),
        t.record(table, from) is Some,
        t.record(table, to) is None,
    ensures
        taken_over(
            t,
            t.renaming_replayed(table, from, to, time),
            crate::store::renaming(table, from, to),
            time,
            id,
        ),
{
    lemma_renamed(t, table, from, to, time);
    lemma_registry_renamed(t, table, from, to, time);
    let u = t.renamed(table, from, to, time);
    assert forall|other: Id| #[trigger] used(u, other) implies used(t, other) || other == id by {
        if id_taken(u.rows(table), other) {
            lemma_rows_mapped(t.rows(table), u.rows(table), other);
        }
    }
    assert(u.variants == t.variants);
}

/// Fewer rows use no other identifiers.
pub proof fn lemma_rows_filtered(rows: Seq<RecordView>, kept: spec_fn(RecordView) -> bool, id: Id)
    requires
        id_taken(rows.filter(kept), id),
    ensures
        id_taken(rows, id),
{
    let after = rows.filter(kept);
    lemma_filter(rows, kept, |r: RecordView| r.id);
    let i = choose|i: int| 0 <= i < after.len() && (#[trigger] after[i]).id == id;
    assert(rows.contains(after[i]));
    let k = choose|k: int| 0 <= k < rows.len() && rows[k] == after[i];
    assert(rows[k].id == id);
}

proof fn lemma_values_filtered(
    t: StoreView,
    u: StoreView,
    kept: spec_fn(VariantRowView) -> bool,
    time: Timestamp,
)
    requires
        u.variants == t.variants.filter(kept),
        values_until(t.variants, time),
    ensures
        values_until(u.variants, time),
        forall|i: int|
            0 <= i < u.variants.len() ==> exists|k: int|
                0 <= k < t.variants.len() && #[trigger] t.variants[k] == #[trigger] u.variants[i],
{
    lemma_filter(t.variants, kept, |v: VariantRowView| v.id);
    assert forall|i: int| 0 <= i < u.variants.len() implies exists|k: int|
        0 <= k < t.variants.len() && #[trigger] t.variants[k] == #[trigger] u.variants[i] by {
        assert(t.variants.contains(u.variants[i]));
    }
    assert forall|i: int| 0 <= i < u.variants.len() implies !time.earlier(
        (#[trigger] u.variants[i]).updated_at,
    ) by {
        let k = choose|k: int| 0 <= k < t.variants.len() && t.variants[k] == u.variants[i];
        assert(!time.earlier(t.variants[k].updated_at));
    }
}

proof fn lemma_removals_filtered(
    rows: Seq<RemovalRow>,
    kept: spec_fn(RemovalRow) -> bool,
    time: Timestamp,
)
    requires
        removals_until(rows, time),
    ensures
        removals_until(rows.filter(kept), time),
{
    let after = rows.filter(kept);
    lemma_filter(rows, kept, |r: RemovalRow| r.secret_id);
    assert forall|i: int| 0 <= i < after.len() implies !time.earlier(
        (#[trigger] after[i]).removed_at,
    ) by {
        assert(rows.contains(after[i]));
        let k = choose|k: int| 0 <= k < rows.len() && rows[k] == after[i];
        assert(!time.earlier(rows[k].removed_at));
    }
}

proof fn lemma_replay_removal(
    t: StoreView,
    table: Table,
    name: Seq<char>,
    time: Timestamp,
    id: Id,
)
    requires
        t.well_formed(),
        no_update_after(t, time),
        t.record(table, name) is Some,
    ensures
        taken_over(
            t,
            t.removal_replayed(table, name),
            crate::store::removal(table, name, true),
            time,
            id,
        ),
{
    let row = t.record(table, name)->0;
    lemma_named_some(t.rows(table), name);
    lemma_removed(t, table, row);
    lemma_registry_removed(t, table, row);
    let u = t.removed(table, name, row.id);
    let kept = |r: RecordView| r.name != name;
    if table is Environments {
        lemma_values_filtered(t, u, |v: VariantRowView| v.environment_id != row.id, time);
        lemma_removals_filtered(t.removals, |r: RemovalRow| r.environment_id != row.id, time);
    } else if table is Secrets {
        lemma_values_filtered(t, u, |v: VariantRowView| v.secret_id != row.id, time);
        lemma_removals_filtered(t.removals, |r: RemovalRow| r.secret_id != row.id, time);
    } else {
        assert(u.variants == t.variants);
    }
    assert forall|other: Id| #[trigger] used(u, other) implies used(t, other) || other == id by {
        if id_taken(u.rows(table), other) {
            lemma_rows_filtered(t.rows(table), kept, other);
        }
        if exists|i: int| 0 <= i < u.variants.len() && (#[trigger] u.variants[i]).id == other {
            let i = choose|i: int| 0 <= i < u.variants.len() && (#[trigger] u.variants[i]).id
                == other;
            if table is Projects {
                assert(t.variants[i].id == other);
            } else {
                let k = choose|k: int| 0 <= k < t.variants.len() && t.variants[k] == u.variants[i];
                assert(t.variants[k].id == other);
            }
        }
    }
}

proof fn lemma_replay_description(
    t: StoreView,
    key: Seq<char>,
    description: Option<Seq<char>>,
    time: Timestamp,
    id: Id,
)
    requires
        t.well_formed(),
        no_update_after(t, time),
        t.record(Table::Secrets, key) is Some,
    ensures
        taken_over(
            t,
            t.described(Table::Secrets, key, description, time),
            Change::SecretDescribe { key, description },
            time,
            id,
        ),
{
    lemma_described(t, Table::Secrets, key, description, time);
    lemma_registry_described(t, Table::Secrets, key, description, time);
    let u = t.described(Table::Secrets, key, description, time);
    assert forall|other: Id| #[trigger] used(u, other) implies used(t, other) || other == id by {
        if id_taken(u.secrets, other) {
            lemma_rows_mapped(t.secrets, u.secrets, other);
        }
    }
    assert(u.variants == t.variants);
}

proof fn lemma_replay_value(
    t: StoreView,
    key: Seq<char>,
    environment: Seq<char>,
    value: Seq<char>,
    time: Timestamp,
    fresh: FreshView,
)
    requires
        t.well_formed(),
        no_update_after(t, time),
        !used(t, fresh.id),
        t.replay_confirmed(Change::VariantSet { key, environment, value }, time, fresh),
        sealable(value),
        t.record(Table::Secrets, key) is Some,
        t.record(Table::Environments, environment) is Some,
    ensures
        ({
            let u = t.value_replayed(key, environment, value, time, fresh);
            &&& u.1 is Ok
            &&& taken_over(
                t,
                u.0,
                Change::VariantSet { key, environment, value },
                time,
                fresh.id,
            )
        }),
{
    let secret = t.record(Table::Secrets, key)->0;
    let place = t.record(Table::Environments, environment)->0;
    lemma_found_id(t, Table::Secrets, key);
    lemma_found_id(t, Table::Environments, environment);
    lemma_variant_some(t.variants, secret.id, place.id);
    if t.variant(secret.id, place.id) is Some {
        let v = t.variant(secret.id, place.id)->0;
        let k = choose|k: int| 0 <= k < t.variants.len() && t.variants[k] == v;
        assert(!time.earlier(t.variants[k].updated_at));
    }
    assert(!t.outdated(secret.id, place.id, time));
    lemma_value_set(t, secret.id, place.id, value, fresh.id, fresh.nonce, time);
    lemma_value_stands(t, key, environment, value, fresh.id, fresh.nonce, time);
    lemma_registry_value_set(t, key, environment, value, fresh.id, fresh.nonce, time);
    let u = t.value_set(secret.id, place.id, value, fresh.id, fresh.nonce, time)->Ok_0;
    assert forall|i: int| 0 <= i < u.variants.len() implies !time.earlier(
        (#[trigger] u.variants[i]).updated_at,
    ) by {
        lemma_time_total(time, time);
        if i < t.variants.len() {
            assert(!time.earlier(t.variants[i].updated_at));
        }
    }
    assert forall|other: Id| #[trigger] used(u, other) implies used(t, other) || other
        == fresh.id by {
        if exists|i: int| 0 <= i < u.variants.len() && (#[trigger] u.variants[i]).id == other {
            let i = choose|i: int| 0 <= i < u.variants.len() && (#[trigger] u.variants[i]).id
                == other;
            if i < t.variants.len() {
                assert(t.variants[i].id == other);
            }
        }
    }
}

proof fn lemma_replay_unsetting(
    t: StoreView,
    key: Seq<char>,
    environment: Seq<char>,
    time: Timestamp,
    id: Id,
)
    requires
        t.well_formed(),
        no_update_after(t, time),
        t.record(Table::Secrets, key) is Some,
        t.record(Table::Environments, environment) is Some,
    ensures
        taken_over(
            t,
            t.unsetting_replayed(key, environment, time),
            Change::VariantUnset { key, environment },
            time,
            id,
        ),
{
    let secret = t.record(Table::Secrets, key)->0;
    let place = t.record(Table::Environments, environment)->0;
    lemma_variant_some(t.variants, secret.id, place.id);
    lemma_found_id(t, Table::Secrets, key);
    lemma_found_id(t, Table::Environments, environment);
    let present = t.variant(secret.id, place.id) is Some;
    let u = if present {
        t.value_unset(secret.id, place.id)
    } else {
        t
    };
    if present {
        let v = t.variant(secret.id, place.id)->0;
        let k = choose|k: int| 0 <= k < t.variants.len() && t.variants[k] == v;
        assert(!time.earlier(t.variants[k].updated_at));
        lemma_value_unset(t, secret.id, place.id);
        lemma_registry_value_unset(t, key, environment);
        lemma_values_filtered(
            t,
            u,
            |v: VariantRowView| !(v.secret_id == secret.id && v.environment_id == place.id),
            time,
        );
        assert forall|other: Id| #[trigger] used(u, other) implies used(t, other) || other == id by {
            if exists|i: int| 0 <= i < u.variants.len() && (#[trigger] u.variants[i]).id == other {
                let i = choose|i: int| 0 <= i < u.variants.len() && (#[trigger] u.variants[i]).id
                    == other;
                let k = choose|k: int| 0 <= k < t.variants.len() && t.variants[k] == u.variants[i];
                assert(t.variants[k].id == other);
            }
        }
    } else {
        assert(!t.has_value(key, environment));
        assert(t.registry().values.remove((key, environment)) =~= t.registry().values);
    }
    let w = u.removal_noted(secret.id, place.id, time);
    let kept = |r: RemovalRow| !(r.secret_id == secret.id && r.environment_id == place.id);
    lemma_removal_noted(u, secret.id, place.id, time);
    lemma_removals_apart(u, w.removals);
    lemma_removals_filtered(t.removals, kept, time);
    assert(!u.removed_after(secret.id, place.id, time));
    assert forall|i: int| 0 <= i < w.removals.len() implies !time.earlier(
        (#[trigger] w.removals[i]).removed_at,
    ) by {
        if i < t.removals.filter(kept).len() {
            assert(w.removals[i] == t.removals.filter(kept)[i]);
        }
    }
    assert(w.variants == u.variants);
    assert forall|other: Id| #[trigger] used(w, other) implies used(t, other) || other == id by {
        assert(used(u, other));
    }
}

proof fn lemma_replay_assignment(
    t: StoreView,
    key: Seq<char>,
    project: Seq<char>,
    time: Timestamp,
    id: Id,
)
    requires
        t.well_formed(),
        no_update_after(t, time),
        t.record(Table::Secrets, key) is Some,
        t.record(Table::Projects, project) is Some,
    ensures
        taken_over(
            t,
            t.assignment_made(
                t.record(Table::Projects, project)->0.id,
                t.record(Table::Secrets, key)->0.id,
                time,
            ),
            Change::SecretAssign { key, project },
            time,
            id,
        ),
        taken_over(
            t,
            t.assignment_ended(
                t.record(Table::Projects, project)->0.id,
                t.record(Table::Secrets, key)->0.id,
            ),
            Change::SecretUnassign { key, project },
            time,
            id,
        ),
{
    let secret = t.record(Table::Secrets, key)->0;
    let owner = t.record(Table::Projects, project)->0;
    lemma_found_id(t, Table::Secrets, key);
    lemma_found_id(t, Table::Projects, project);
    lemma_assignment_made(t, owner.id, secret.id, time);
    lemma_registry_assigned(t, key, project, time);
    lemma_assignment_ended(t, owner.id, secret.id);
    lemma_registry_unassigned(t, key, project);
    let u = t.assignment_made(owner.id, secret.id, time);
    let w = t.assignment_ended(owner.id, secret.id);
    assert forall|other: Id| #[trigger] used(u, other) implies used(t, other) || other == id by {
    }
    assert forall|other: Id| #[trigger] used(w, other) implies used(t, other) || other == id by {
    }
}

/// A change that one store made, another with the same registry can take over: replaying it
/// there succeeds and leaves the two with the same registry again. In the other store nothing
/// must have been set or taken away after the change was made.
pub proof fn law_change_is_taken_over(
    s: StoreView,
    t: StoreView,
    change: ChangeView,
    fresh: FreshView,
    time: Timestamp,
    other: FreshView,
)
    requires
        s.well_formed(),
        t.well_formed(),
        s.registry() == t.registry(),
        s.change_made(change, fresh).1 is Ok,
        s.change_confirmed(change, fresh),
        t.replay_confirmed(change, time, other),
        no_update_after(t, time),
        !used(t, other.id),
    ensures
        t.change_replayed(replayed(change), time, other).1 is Ok,
        t.change_replayed(replayed(change), time, other).0.registry() == s.change_made(
            change,
            fresh,
        ).0.registry(),
        taken_over(
            t,
            t.change_replayed(replayed(change), time, other).0,
            change,
            time,
            other.id,
        ),
{
    law_success_is_one_logged_change(s, change, fresh);
    match change {
        Change::ProjectAdd { name, description } => {
            lemma_same_names(s, t, Table::Projects, name);
            lemma_replay_addition(t, Table::Projects, name, description, time, other.id);
        },
        Change::EnvironmentAdd { name, description } => {
            lemma_same_names(s, t, Table::Environments, name);
            lemma_replay_addition(t, Table::Environments, name, description, time, other.id);
        },
        Change::SecretAdd { key, description } => {
            lemma_same_names(s, t, Table::Secrets, key);
            lemma_replay_addition(t, Table::Secrets, key, description, time, other.id);
        },
        Change::ProjectRename { from, to } => {
            lemma_same_names(s, t, Table::Projects, from);
            lemma_same_names(s, t, Table::Projects, to);
            lemma_replay_renaming(t, Table::Projects, from, to, time, other.id);
        },
        Change::EnvironmentRename { from, to } => {
            lemma_same_names(s, t, Table::Environments, from);
            lemma_same_names(s, t, Table::Environments, to);
            lemma_replay_renaming(t, Table::Environments, from, to, time, other.id);
        },
        Change::SecretRename { from, to } => {
            lemma_same_names(s, t, Table::Secrets, from);
            lemma_same_names(s, t, Table::Secrets, to);
            lemma_replay_renaming(t, Table::Secrets, from, to, time, other.id);
        },
        Change::ProjectRemove { name } => {
            lemma_same_names(s, t, Table::Projects, name);
            lemma_replay_removal(t, Table::Projects, name, time, other.id);
        },
        Change::EnvironmentRemove { name, force } => {
            lemma_same_names(s, t, Table::Environments, name);
            lemma_replay_removal(t, Table::Environments, name, time, other.id);
        },
        Change::SecretRemove { key } => {
            lemma_same_names(s, t, Table::Secrets, key);
            lemma_replay_removal(t, Table::Secrets, key, time, other.id);
        },
        Change::SecretDescribe { key, description } => {
            lemma_same_names(s, t, Table::Secrets, key);
            lemma_replay_description(t, key, description, time, other.id);
        },
        Change::VariantSet { key, environment, value } => {
            lemma_same_names(s, t, Table::Secrets, key);
            lemma_same_names(s, t, Table::Environments, environment);
            lemma_replay_value(t, key, environment, value, time, other);
        },
        Change::VariantUnset { key, environment } => {
            lemma_same_names(s, t, Table::Secrets, key);
            lemma_same_names(s, t, Table::Environments, environment);
            lemma_replay_unsetting(t, key, environment, time, other.id);
        },
        Change::SecretAssign { key, project } => {
            lemma_same_names(s, t, Table::Secrets, key);
            lemma_same_names(s, t, Table::Projects, project);
            lemma_replay_assignment(t, key, project, time, other.id);
        },
        Change::SecretUnassign { key, project } => {
            lemma_same_names(s, t, Table::Secrets, key);
            lemma_same_names(s, t, Table::Projects, project);
            lemma_replay_assignment(t, key, project, time, other.id);
        },
    }
}

/// Changes with what chance and the clock gave for them, in the order in which they were made.
pub type History = Seq<(ChangeView, FreshView)>;

/// The store that a history leads to from an empty one.
pub open spec fn store_after(key: Seq<u8>, history: History) -> StoreView
    decreases history.len(),
{
    if history.len() == 0 {
        StoreView::empty(key)
    } else {
        store_after(key, history.drop_last()).change_made(history.last().0, history.last().1).0
    }
}

/// Whether every change of a history succeeded and is read back.
pub open spec fn all_succeeded(key: Seq<u8>, history: History) -> bool
    decreases history.len(),
{
    history.len() == 0 || {
        &&& all_succeeded(key, history.drop_last())
        &&& store_after(key, history.drop_last()).change_made(
            history.last().0,
            history.last().1,
        ).1 is Ok
        &&& store_after(key, history.drop_last()).change_confirmed(
            history.last().0,
            history.last().1,
        )
    }
}

/// Whether each change of a history was made after the one before.
pub open spec fn in_sequence(history: History) -> bool {
    forall|i: int, j: int|
        0 <= i < j < history.len() ==> (#[trigger] history[i]).1.operation_time.earlier(
            (#[trigger] history[j]).1.operation_time,
        )
}

/// The operations that stand for a history.
pub open spec fn operations_for(history: History) -> Seq<SyncOperationView> {
    history.map_values(|step: (ChangeView, FreshView)| operation_for(step.0, step.1))
}

/// A list in strict order is its own ordering.
proof fn lemma_ordered_already<A>(list: Seq<A>, before: spec_fn(A, A) -> bool)
    requires
        forall|i: int, j: int| 0 <= i < j < list.len() ==> !before(#[trigger] list[j], #[trigger] list[i]),
    ensures
        ordered(list, before) == list,
    decreases list.len(),
{
    if list.len() > 0 {
        let rest = list.drop_last();
        assert forall|i: int, j: int| 0 <= i < j < rest.len() implies !before(
            #[trigger] rest[j],
            #[trigger] rest[i],
        ) by {
            assert(rest[i] == list[i] && rest[j] == list[j]);
        }
        lemma_ordered_already(rest, before);
        if rest.len() > 0 {
            assert(!before(list[list.len() - 1], list[list.len() - 2]));
        }
        assert(rest.push(list.last()) =~= list);
    }
}

proof fn lemma_store_after(key: Seq<u8>, history: History)
    requires
        all_succeeded(key, history),
    ensures
        store_after(key, history).well_formed(),
        store_after(key, history).key == key,
        store_after(key, history).operations.len() == history.len(),
        forall|i: int|
            0 <= i < history.len() ==> {
                let row = #[trigger] store_after(key, history).operations[i];
                let change = history[i].0;
                let fresh = history[i].1;
                &&& row.id == fresh.operation_id
                &&& row.kind == kind_of(change)
                &&& row.created_at == fresh.operation_time
                &&& row.nonce == fresh.operation_nonce
                &&& row.ciphertext == sealed_text(key, fresh.operation_nonce, payload_of(change))
                &&& stands_for(key, row.nonce, row.ciphertext, payload_of(change))
            },
    decreases history.len(),
{
    if history.len() == 0 {
        lemma_empty(key);
    } else {
        let rest = history.drop_last();
        lemma_store_after(key, rest);
        let s = store_after(key, rest);
        law_success_is_one_logged_change(s, history.last().0, history.last().1);
        let t = store_after(key, history);
        assert forall|i: int| 0 <= i < history.len() implies {
            let row = #[trigger] t.operations[i];
            let change = history[i].0;
            let fresh = history[i].1;
            &&& row.id == fresh.operation_id
            &&& row.kind == kind_of(change)
            &&& row.created_at == fresh.operation_time
            &&& row.nonce == fresh.operation_nonce
            &&& row.ciphertext == sealed_text(key, fresh.operation_nonce, payload_of(change))
            &&& stands_for(key, row.nonce, row.ciphertext, payload_of(change))
        } by {
            if i < rest.len() {
                assert(t.operations[i] == s.operations[i]);
                assert(rest[i] == history[i]);
            } else {
                assert(t.has_logged(history.last().0, history.last().1));
            }
        }
    }
}

/// The log of a store that came about by changes in sequence lists the operations that stand
/// for them, in the order in which they were made.
pub proof fn law_log_lists_the_history(key: Seq<u8>, history: History)
    requires
        all_succeeded(key, history),
        in_sequence(history),
    ensures
        store_after(key, history).log() == Ok::<Seq<SyncOperationView>, StoreErrorView>(
            operations_for(history),
        ),
{
    lemma_store_after(key, history);
    let s = store_after(key, history);
    let rows = s.operations;
    let step = |row: OperationRowView| s.operation_opened(row);
    assert forall|i: int, j: int| 0 <= i < j < rows.len() implies !(log_order())(
        #[trigger] rows[j],
        #[trigger] rows[i],
    ) by {
        assert(history[i].1.operation_time.earlier(history[j].1.operation_time));
        lemma_time_total(history[i].1.operation_time, history[j].1.operation_time);
    }
    lemma_ordered_already(rows, log_order());
    let listed = operations_for(history);
    assert forall|i: int| 0 <= i < rows.len() implies step(#[trigger] rows[i]) == Ok::<
        SyncOperationView,
        StoreErrorView,
    >(listed[i]) by {
        let row = rows[i];
        assert(stands_for(key, row.nonce, row.ciphertext, payload_of(history[i].0)));
    }
    lemma_collected(rows, step);
    let results = collected(rows, step)->Ok_0;
    assert forall|i: int| 0 <= i < rows.len() implies results[i] == listed[i] by {
        assert(step(rows[i]) == Ok::<SyncOperationView, StoreErrorView>(results[i]));
    }
    assert(results =~= listed);
}

/// How far a replay has come: the registries agree, and what the replay wrote came from what
/// was drawn for it.
spec fn in_step(
    s: StoreView,
    t: StoreView,
    key: Seq<u8>,
    fresh: Seq<FreshView>,
    n: int,
) -> bool {
    &&& t.registry() == s.registry()
    &&& t.well_formed()
    &&& t.key == key
    &&& forall|id: Id| #[trigger] t.knows(id) == s.knows(id)
    &&& forall|id: Id| #[trigger]
        used(t, id) ==> exists|j: int| 0 <= j < n && (#[trigger] fresh[j]).id == id
}

proof fn lemma_empty_registry(key: Seq<u8>)
    ensures
        StoreView::empty(key).registry() == (RegistryView {
            projects: Map::empty(),
            environments: Map::empty(),
            secrets: Map::empty(),
            values: Map::empty(),
            assigned: Set::empty(),
        }),
{
    let s = StoreView::empty(key);
    let a = s.registry();
    assert forall|name: Seq<char>| (#[trigger] named(Seq::<RecordView>::empty(), name)) is None by {
        lemma_named_some(Seq::<RecordView>::empty(), name);
    }
    assert(a.projects =~= Map::empty());
    assert(a.environments =~= Map::empty());
    assert(a.secrets =~= Map::empty());
    assert(a.values =~= Map::empty());
    assert(a.assigned =~= Set::empty());
}

proof fn lemma_import_next(
    s: StoreView,
    t: StoreView,
    change: ChangeView,
    made: FreshView,
    target: Seq<u8>,
    fresh: Seq<FreshView>,
    n: int,
)
    requires
        s.well_formed(),
        s.change_made(change, made).1 is Ok,
        s.change_confirmed(change, made),
        0 <= n < fresh.len(),
        t.import_confirmed(operation_for(change, made), fresh[n]),
        distinct_by(fresh, |f: FreshView| f.id),
        in_step(s, t, target, fresh, n),
        no_update_after(t, made.operation_time),
    ensures
        ({
            let (w, new) = t.operation_imported(operation_for(change, made), fresh[n]);
            &&& new == Ok::<bool, StoreErrorView>(true)
            &&& in_step(s.change_made(change, made).0, w, target, fresh, n + 1)
            &&& no_update_after(w, made.operation_time)
        }),
{
    let s2 = s.change_made(change, made).0;
    let other = fresh[n];
    let operation = operation_for(change, made);
    law_success_is_one_logged_change(s, change, made);
    assert(!used(t, other.id)) by {
        if used(t, other.id) {
            let j = choose|j: int| 0 <= j < n && (#[trigger] fresh[j]).id == other.id;
            let id_of = |f: FreshView| f.id;
            assert(id_of(fresh[j]) != id_of(fresh[n]));
        }
    }
    assert(t.knows(operation.id) == s.knows(operation.id));
    assert(t.replay_confirmed(change, made.operation_time, other)) by {
        let (after, result) = t.change_replayed(replayed(change), made.operation_time, other);
        if result is Ok && change is VariantSet {
            lemma_replay_keeps_log(t, operation, other);
            assert(after.knows(operation.id) == t.knows(operation.id));
            let done = after.recorded(operation, other.operation_nonce)->Ok_0;
            assert(t.operation_imported(operation, other) == (
                done,
                Ok::<bool, StoreErrorView>(true),
            ));
        }
    }
    law_change_is_taken_over(s, t, change, made, made.operation_time, other);
    let u = t.change_replayed(replayed(change), made.operation_time, other).0;
    assert(u.knows(operation.id) == t.knows(operation.id));
    let w = u.recorded(operation, other.operation_nonce)->Ok_0;
    lemma_recorded(u, operation, other.operation_nonce);
    lemma_log_apart(u, w.operations);
    assert(t.operation_imported(operation, other).0 == w);
    assert forall|id: Id| #[trigger] w.knows(id) == s2.knows(id) by {
        assert(t.knows(id) == s.knows(id));
        assert(w.operations.drop_last() =~= t.operations);
        assert(s2.operations.drop_last() =~= s.operations);
        lemma_knows_pushed(t.operations, w.operations, id);
        lemma_knows_pushed(s.operations, s2.operations, id);
    }
    assert forall|id: Id| #[trigger] used(w, id) implies exists|j: int|
        0 <= j < n + 1 && (#[trigger] fresh[j]).id == id by {
        assert(used(u, id));
        if used(t, id) {
            let j = choose|j: int| 0 <= j < n && (#[trigger] fresh[j]).id == id;
            assert(0 <= j < n + 1);
        } else {
            assert(fresh[n].id == id);
        }
    }
}

proof fn lemma_times_pass(t: StoreView, earlier: Timestamp, later: Timestamp)
    requires
        no_update_after(t, earlier),
        earlier.earlier(later),
    ensures
        no_update_after(t, later),
{
    assert forall|i: int| 0 <= i < t.removals.len() implies !later.earlier(
        (#[trigger] t.removals[i]).removed_at,
    ) by {
        assert(!earlier.earlier(t.removals[i].removed_at));
    }
    assert forall|i: int| 0 <= i < t.variants.len() implies !later.earlier(
        (#[trigger] t.variants[i]).updated_at,
    ) by {
        let at = t.variants[i].updated_at;
        lemma_time_total(earlier, at);
        lemma_time_total(later, at);
        assert(!earlier.earlier(at));
    }
}

proof fn lemma_replayed_so_far(
    key: Seq<u8>,
    history: History,
    target: Seq<u8>,
    fresh: Seq<FreshView>,
)
    requires
        all_succeeded(key, history),
        in_sequence(history),
        fresh.len() >= history.len(),
        distinct_by(fresh, |f: FreshView| f.id),
        StoreView::empty(target).all_confirmed(operations_for(history), fresh),
    ensures
        ({
            let (t, count) = StoreView::empty(target).all_imported(operations_for(history), fresh);
            &&& count == Ok::<nat, StoreErrorView>(history.len())
            &&& in_step(store_after(key, history), t, target, fresh, history.len() as int)
            &&& history.len() > 0 ==> no_update_after(t, history.last().1.operation_time)
            &&& history.len() == 0 ==> t.variants.len() == 0 && t.removals.len() == 0
        }),
    decreases history.len(),
{
    let start = StoreView::empty(target);
    let operations = operations_for(history);
    if history.len() == 0 {
        lemma_empty(target);
        lemma_empty_registry(target);
        lemma_empty_registry(key);
        assert(operations =~= Seq::empty());
    } else {
        let n = history.len() - 1;
        let rest = history.drop_last();
        let change = history.last().0;
        let made = history.last().1;
        assert forall|i: int, j: int| 0 <= i < j < rest.len() implies (
        #[trigger] rest[i]).1.operation_time.earlier((#[trigger] rest[j]).1.operation_time) by {
            assert(rest[i] == history[i] && rest[j] == history[j]);
        }
        assert(operations.drop_last() =~= operations_for(rest));
        lemma_replayed_so_far(key, rest, target, fresh);
        lemma_store_after(key, rest);
        let s = store_after(key, rest);
        let t = start.all_imported(operations_for(rest), fresh).0;
        if rest.len() > 0 {
            assert(history[n - 1] == rest.last());
            assert(history[n - 1].1.operation_time.earlier(history[n].1.operation_time));
            lemma_times_pass(t, rest.last().1.operation_time, made.operation_time);
        }
        lemma_import_next(s, t, change, made, target, fresh, n);
        assert(operations.last() == operation_for(change, made));
    }
}

/// Which operations a log holds that has one row more.
pub proof fn lemma_knows_pushed(
    before: Seq<OperationRowView>,
    after: Seq<OperationRowView>,
    id: Id,
)
    requires
        after.len() == before.len() + 1,
        after.drop_last() == before,
    ensures
        (exists|i: int| 0 <= i < after.len() && (#[trigger] after[i]).id == id) == ((exists|i: int|
            0 <= i < before.len() && (#[trigger] before[i]).id == id) || after.last().id == id),
{
    if exists|i: int| 0 <= i < before.len() && (#[trigger] before[i]).id == id {
        let i = choose|i: int| 0 <= i < before.len() && (#[trigger] before[i]).id == id;
        assert(after[i] == after.drop_last()[i]);
        assert(after[i].id == id);
    }
    if after.last().id == id {
        assert(after[after.len() - 1].id == id);
    }
    if exists|i: int| 0 <= i < after.len() && (#[trigger] after[i]).id == id {
        let i = choose|i: int| 0 <= i < after.len() && (#[trigger] after[i]).id == id;
        if i < before.len() {
            assert(after.drop_last()[i] == after[i]);
            assert(before[i].id == id);
        }
    }
}

/// A new device that imports the log of another comes to the same registry: every operation
/// counts as new, and projects, environments, secrets, descriptions, values and assignments
/// are those of the other. The changes must have been made one after another by the clock,
/// and the identifiers that the new device draws must differ.
pub proof fn law_log_replays_the_registry(
    key: Seq<u8>,
    history: History,
    target: Seq<u8>,
    fresh: Seq<FreshView>,
)
    requires
        all_succeeded(key, history),
        in_sequence(history),
        drawn(fresh, history.len()),
        distinct_by(fresh, |f: FreshView| f.id),
        StoreView::empty(target).operations_confirmed(operations_for(history), fresh),
    ensures
        ({
            let log = store_after(key, history).log()->Ok_0;
            let (store, count) = StoreView::empty(target).operations_imported(log, fresh);
            &&& store_after(key, history).log() is Ok
            &&& count == Ok::<nat, StoreErrorView>(log.len())
            &&& store.registry() == store_after(key, history).registry()
        }),
{
    law_log_lists_the_history(key, history);
    let operations = operations_for(history);
    assert forall|i: int, j: int| 0 <= i < j < operations.len() implies !(operation_order())(
        #[trigger] operations[j],
        #[trigger] operations[i],
    ) by {
        assert(history[i].1.operation_time.earlier(history[j].1.operation_time));
        lemma_time_total(history[i].1.operation_time, history[j].1.operation_time);
    }
    lemma_ordered_already(operations, operation_order());
    lemma_replayed_so_far(key, history, target, fresh);
}

/// A request that the registry refuses changes nothing and is not logged.
pub proof fn law_refusal_changes_nothing(s: StoreView, change: ChangeView, fresh: FreshView)
    ensures
        s.change_made(change, fresh).1 matches Err(StoreErrorView::Domain(_)) ==> s.change_made(
            change,
            fresh,
        ).0 == s,
{
}

/// What bears only on the value of one secret in one environment leaves the others.
pub proof fn lemma_value_elsewhere(
    s: StoreView,
    t: StoreView,
    key: Seq<char>,
    environment: Seq<char>,
    other_key: Seq<char>,
    other_environment: Seq<char>,
)
    requires
        s.well_formed(),
        t.key == s.key,
        t.secrets == s.secrets,
        t.environments == s.environments,
        s.record(Table::Secrets, key) is Some,
        s.record(Table::Environments, environment) is Some,
        (other_key, other_environment) != (key, environment),
        forall|a: Id, b: Id|
            !(a == s.record(Table::Secrets, key)->0.id && b == s.record(
                Table::Environments,
                environment,
            )->0.id) ==> #[trigger] t.variant(a, b) == s.variant(a, b),
    ensures
        t.value(other_key, other_environment) == s.value(other_key, other_environment),
{
    if s.record(Table::Secrets, other_key) is Some && s.record(
        Table::Environments,
        other_environment,
    ) is Some {
        if other_key != key {
            lemma_ids_differ(s.secrets, other_key, key);
        }
        if other_environment != environment {
            lemma_ids_differ(s.environments, other_environment, environment);
        }
    }
}

/// Setting a value leaves the values of other secrets and in other environments.
pub proof fn lemma_set_elsewhere(
    s: StoreView,
    key: Seq<char>,
    environment: Seq<char>,
    value: Seq<char>,
    fresh: FreshView,
    other_key: Seq<char>,
    other_environment: Seq<char>,
)
    requires
        s.well_formed(),
        s.variant_set(key, environment, value, fresh).1 is Ok,
        (other_key, other_environment) != (key, environment),
    ensures
        s.variant_set(key, environment, value, fresh).0.value(other_key, other_environment)
            == s.value(other_key, other_environment),
{
    let secret = s.record(Table::Secrets, key)->0;
    let place = s.record(Table::Environments, environment)->0;
    let t = s.variant_set(key, environment, value, fresh).0;
    assert forall|a: Id, b: Id|
        !(a == secret.id && b == place.id) implies #[trigger] t.variant(a, b) == s.variant(
        a,
        b,
    ) by {
        lemma_variant_after_set(
            s,
            secret.id,
            place.id,
            value,
            fresh.id,
            fresh.nonce,
            fresh.operation_time,
            a,
            b,
        );
    }
    lemma_value_elsewhere(s, t, key, environment, other_key, other_environment);
}

/// A value that was set is read back, until it is taken away. Values of other secrets and in
/// other environments stay as they are.
pub proof fn law_value_is_read_back(
    s: StoreView,
    key: Seq<char>,
    environment: Seq<char>,
    value: Seq<char>,
    fresh: FreshView,
    other_key: Seq<char>,
    other_environment: Seq<char>,
)
    requires
        s.well_formed(),
        s.promised(Some(Change::VariantSet { key, environment, value }), fresh),
    ensures
        s.variant_set(key, environment, value, fresh).1 is Ok ==> {
            let t = s.variant_set(key, environment, value, fresh).0;
            &&& t.value(key, environment) == Ok::<Option<Seq<char>>, StoreErrorView>(Some(value))
            &&& (other_key, other_environment) != (key, environment) ==> t.value(
                other_key,
                other_environment,
            ) == s.value(other_key, other_environment)
        },
        s.variant_unset(key, environment, fresh).1 is Ok ==> {
            let t = s.variant_unset(key, environment, fresh).0;
            &&& t.value(key, environment) == Ok::<Option<Seq<char>>, StoreErrorView>(None)
            &&& (other_key, other_environment) != (key, environment) ==> t.value(
                other_key,
                other_environment,
            ) == s.value(other_key, other_environment)
        },
{
    reveal(StoreView::promised);
    let elsewhere = (other_key, other_environment) != (key, environment);
    if s.variant_set(key, environment, value, fresh).1 is Ok && elsewhere {
        lemma_set_elsewhere(s, key, environment, value, fresh, other_key, other_environment);
    }
    if s.variant_unset(key, environment, fresh).1 is Ok {
        let secret = s.record(Table::Secrets, key)->0;
        let place = s.record(Table::Environments, environment)->0;
        let t = s.variant_unset(key, environment, fresh).0;
        let kept = |v: VariantRowView|
            !(v.secret_id == secret.id && v.environment_id == place.id);
        assert forall|a: Id, b: Id| #[trigger]
            t.variant(a, b) == if a == secret.id && b == place.id {
                None
            } else {
                s.variant(a, b)
            } by {
            lemma_variant_some(s.variants, a, b);
            lemma_variant_kept(s.variants, kept, a, b);
        }
        assert(t.variant(secret.id, place.id) is None);
        if elsewhere {
            lemma_value_elsewhere(s, t, key, environment, other_key, other_environment);
        }
    }
}

/// Replaying an operation does not bear on the log.
pub proof fn lemma_replay_keeps_log(s: StoreView, operation: SyncOperationView, fresh: FreshView)
    ensures
        s.operation_replayed(operation, fresh).0.operations == s.operations,
{
}

proof fn lemma_import_remembers(
    s: StoreView,
    operations: Seq<SyncOperationView>,
    fresh: Seq<FreshView>,
    i: int,
    id: Id,
)
    requires
        s.all_imported(operations, fresh).1 is Ok,
        0 <= i < operations.len(),
    ensures
        s.all_imported(operations, fresh).0.knows(operations[i].id),
        s.knows(id) ==> s.all_imported(operations, fresh).0.knows(id),
    decreases operations.len(),
{
    let rest = operations.drop_last();
    let n = operations.len() - 1;
    let before = s.all_imported(rest, fresh).0;
    let after = s.all_imported(operations, fresh).0;
    let last = operations.last();
    lemma_replay_keeps_log(before, last, fresh[n]);
    assert forall|other: Id| before.knows(other) implies after.knows(other) by {
        let k = choose|k: int|
            0 <= k < before.operations.len() && (#[trigger] before.operations[k]).id == other;
        assert(after.operations[k].id == other);
    }
    if !before.knows(last.id) {
        assert(after.operations[after.operations.len() - 1].id == last.id);
    }
    if i < n {
        lemma_import_remembers(s, rest, fresh, i, id);
        assert(rest[i] == operations[i]);
    } else if n > 0 {
        lemma_import_remembers(s, rest, fresh, 0, id);
    }
}

proof fn lemma_import_known(
    s: StoreView,
    operations: Seq<SyncOperationView>,
    fresh: Seq<FreshView>,
)
    requires
        forall|i: int| 0 <= i < operations.len() ==> s.knows((#[trigger] operations[i]).id),
    ensures
        s.all_imported(operations, fresh) == (s, Ok::<nat, StoreErrorView>(0)),
    decreases operations.len(),
{
    if operations.len() > 0 {
        let rest = operations.drop_last();
        assert forall|i: int| 0 <= i < rest.len() implies s.knows((#[trigger] rest[i]).id) by {
            assert(rest[i] == operations[i]);
        }
        lemma_import_known(s, rest, fresh);
        assert(s.knows(operations[operations.len() - 1].id));
    }
}

/// Importing the same operations again imports none of them and changes nothing.
pub proof fn law_importing_again_changes_nothing(
    s: StoreView,
    operations: Seq<SyncOperationView>,
    fresh: Seq<FreshView>,
    again: Seq<FreshView>,
)
    requires
        s.operations_imported(operations, fresh).1 is Ok,
    ensures
        ({
            let t = s.operations_imported(operations, fresh).0;
            t.operations_imported(operations, again) == (t, Ok::<nat, StoreErrorView>(0))
        }),
{
    let sorted = ordered(operations, operation_order());
    let t = s.all_imported(sorted, fresh).0;
    assert forall|i: int| 0 <= i < sorted.len() implies t.knows((#[trigger] sorted[i]).id) by {
        lemma_import_remembers(s, sorted, fresh, i, 0);
    }
    lemma_import_known(t, sorted, again);
}

} // verus!
