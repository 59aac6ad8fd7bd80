//! When an import succeeds.

use crate::change::{change_read, Change, ChangeView};
use crate::crypto::sealable;
use crate::ids::Id;
use crate::laws::{lemma_replay_keeps_log, lemma_rows_filtered, lemma_rows_mapped, used};
use crate::order::{distinct_by, lemma_filter, lemma_ordered, lemma_ordered_contains, ordered};
use crate::store::FreshView;
use crate::tables::{
    id_taken, operation_order, RecordView, StoreView, SyncOperationView, Table, VariantRowView,
};
use crate::time::Timestamp;
use vstd::prelude::*;

verus! {

/// Whether an operation can be imported: its payload can be read, and it and the value that it
/// may set are not too long to be encrypted.
pub open spec fn importable(operation: SyncOperationView) -> bool {
    &&& sealable(operation.payload)
    &&& change_read(operation.kind, operation.payload) is Ok
    &&& change_read(operation.kind, operation.payload)->Ok_0 matches Some(
        Change::VariantSet { value, .. },
    ) ==> sealable(value)
}

/// Whether identifiers were drawn that are in no use, and each of them once.
pub open spec fn unused_draws(s: StoreView, fresh: Seq<FreshView>) -> bool {
    &&& distinct_by(fresh, |f: FreshView| f.id)
    &&& forall|j: int| 0 <= j < fresh.len() ==> !used(s, (#[trigger] fresh[j]).id)
}

proof fn lemma_variants_used(
    t: StoreView,
    u: StoreView,
    kept: spec_fn(VariantRowView) -> bool,
    other: Id,
)
    requires
        u.variants == t.variants.filter(kept),
        exists|i: int| 0 <= i < u.variants.len() && (#[trigger] u.variants[i]).id == other,
    ensures
        exists|i: int| 0 <= i < t.variants.len() && (#[trigger] t.variants[i]).id == other,
{
    let i = choose|i: int| 0 <= i < u.variants.len() && (#[trigger] u.variants[i]).id == other;
    lemma_filter(t.variants, kept, |v: VariantRowView| v.id);
    assert(t.variants.contains(u.variants[i]));
    let k = choose|k: int| 0 <= k < t.variants.len() && t.variants[k] == u.variants[i];
    assert(t.variants[k].id == other);
}

proof fn lemma_addition_used(
    t: StoreView,
    table: Table,
    name: Seq<char>,
    description: Option<Seq<char>>,
    time: Timestamp,
    id: Id,
    other: Id,
)
    requires
        used(t.addition_replayed(table, name, description, time, id).0, other),
    ensures
        used(t, other) || other == id,
{
    let u = t.addition_replayed(table, name, description, time, id).0;
    let rows = t.rows(table);
    if id_taken(u.rows(table), other) {
        let i = choose|i: int| 0 <= i < u.rows(table).len() && (#[trigger] u.rows(table)[i]).id
            == other;
        if i < rows.len() {
            assert(rows[i].id == other);
        }
    }
}

proof fn lemma_renaming_used(
    t: StoreView,
    table: Table,
    from: Seq<char>,
    to: Seq<char>,
    time: Timestamp,
    other: Id,
)
    requires
        used(t.renaming_replayed(table, from, to, time), other),
    ensures
        used(t, other),
{
    let u = t.renaming_replayed(table, from, to, time);
    if id_taken(u.rows(table), other) {
        lemma_rows_mapped(t.rows(table), u.rows(table), other);
    }
}

proof fn lemma_removal_used(t: StoreView, table: Table, name: Seq<char>, other: Id)
    requires
        used(t.removal_replayed(table, name), other),
    ensures
        used(t, other),
{
    let u = t.removal_replayed(table, name);
    if t.record(table, name) is Some {
        let row = t.record(table, name)->0;
        if id_taken(u.rows(table), other) {
            lemma_rows_filtered(t.rows(table), |r: RecordView| r.name != name, other);
        }
        if exists|i: int| 0 <= i < u.variants.len() && (#[trigger] u.variants[i]).id == other {
            if table is Environments {
                lemma_variants_used(
                    t,
                    u,
                    |v: VariantRowView| v.environment_id != row.id,
                    other,
                );
            } else if table is Secrets {
                lemma_variants_used(t, u, |v: VariantRowView| v.secret_id != row.id, other);
            }
        }
    }
}

proof fn lemma_setting_used(
    t: StoreView,
    key: Seq<char>,
    environment: Seq<char>,
    value: Seq<char>,
    time: Timestamp,
    fresh: FreshView,
    other: Id,
)
    requires
        used(t.value_replayed(key, environment, value, time, fresh).0, other),
    ensures
        used(t, other) || other == fresh.id,
{
    let u = t.value_replayed(key, environment, value, time, fresh).0;
    if exists|i: int| 0 <= i < u.variants.len() && (#[trigger] u.variants[i]).id == other {
        let i = choose|i: int| 0 <= i < u.variants.len() && (#[trigger] u.variants[i]).id
            == other;
        if i < t.variants.len() {
            assert(t.variants[i].id == other);
        }
    }
}

proof fn lemma_unsetting_used(
    t: StoreView,
    key: Seq<char>,
    environment: Seq<char>,
    time: Timestamp,
    other: Id,
)
    requires
        used(t.unsetting_replayed(key, environment, time), other),
    ensures
        used(t, other),
{
    let u = t.unsetting_replayed(key, environment, time);
    if t.record(Table::Secrets, key) is Some && t.record(Table::Environments, environment) is Some {
        let secret = t.record(Table::Secrets, key)->0;
        let place = t.record(Table::Environments, environment)->0;
        if u.variants != t.variants && exists|i: int|
            0 <= i < u.variants.len() && (#[trigger] u.variants[i]).id == other {
            lemma_variants_used(
                t,
                u,
                |v: VariantRowView| !(v.secret_id == secret.id && v.environment_id == place.id),
                other,
            );
        }
    }
}

/// Replaying a change uses no identifier that was in no use but the one that was drawn for it.
pub proof fn lemma_replay_used(
    t: StoreView,
    change: ChangeView,
    time: Timestamp,
    fresh: FreshView,
    other: Id,
)
    requires
        used(t.change_replayed(change, time, fresh).0, other),
    ensures
        used(t, other) || other == fresh.id,
{
    match change {
        Change::ProjectAdd { name, description } => {
            lemma_addition_used(t, Table::Projects, name, description, time, fresh.id, other);
        },
        Change::EnvironmentAdd { name, description } => {
            lemma_addition_used(t, Table::Environments, name, description, time, fresh.id, other);
        },
        Change::SecretAdd { key, description } => {
            lemma_addition_used(t, Table::Secrets, key, description, time, fresh.id, other);
        },
        Change::ProjectRename { from, to } => {
            lemma_renaming_used(t, Table::Projects, from, to, time, other);
        },
        Change::EnvironmentRename { from, to } => {
            lemma_renaming_used(t, Table::Environments, from, to, time, other);
        },
        Change::SecretRename { from, to } => {
            lemma_renaming_used(t, Table::Secrets, from, to, time, other);
        },
        Change::ProjectRemove { name } => {
            lemma_removal_used(t, Table::Projects, name, other);
        },
        Change::EnvironmentRemove { name, .. } => {
            lemma_removal_used(t, Table::Environments, name, other);
        },
        Change::SecretRemove { key } => {
            lemma_removal_used(t, Table::Secrets, key, other);
        },
        Change::SecretDescribe { key, description } => {
            let u = t.described(Table::Secrets, key, description, time);
            if t.record(Table::Secrets, key) is Some && id_taken(u.secrets, other) {
                lemma_rows_mapped(t.secrets, u.secrets, other);
            }
        },
        Change::VariantSet { key, environment, value } => {
            lemma_setting_used(t, key, environment, value, time, fresh, other);
        },
        Change::VariantUnset { key, environment } => {
            lemma_unsetting_used(t, key, environment, time, other);
        },
        Change::SecretAssign { .. } => {},
        Change::SecretUnassign { .. } => {},
    }
}

/// What an import of the first operations used.
pub proof fn lemma_import_used(
    s: StoreView,
    operations: Seq<SyncOperationView>,
    fresh: Seq<FreshView>,
    other: Id,
)
    requires
        operations.len() <= fresh.len(),
        used(s.all_imported(operations, fresh).0, other),
    ensures
        used(s, other) || exists|j: int|
            0 <= j < operations.len() && (#[trigger] fresh[j]).id == other,
    decreases operations.len(),
{
    if operations.len() > 0 {
        let n = operations.len() - 1;
        let rest = operations.drop_last();
        let before = s.all_imported(rest, fresh).0;
        let last = operations.last();
        if !used(before, other) {
            if let Ok(Some(change)) = change_read(last.kind, last.payload) {
                let u = before.change_replayed(change, last.created_at, fresh[n]).0;
                assert(used(u, other));
                lemma_replay_used(before, change, last.created_at, fresh[n], other);
            }
            assert(fresh[n].id == other);
        } else {
            lemma_import_used(s, rest, fresh, other);
            if !used(s, other) {
                let j = choose|j: int| 0 <= j < rest.len() && (#[trigger] fresh[j]).id == other;
                assert(0 <= j < operations.len());
            }
        }
    }
}

/// What was drawn for an operation is in no use when its turn comes.
pub proof fn lemma_draw_unused(
    s: StoreView,
    operations: Seq<SyncOperationView>,
    fresh: Seq<FreshView>,
)
    requires
        operations.len() < fresh.len(),
        unused_draws(s, fresh),
    ensures
        !used(s.all_imported(operations, fresh).0, fresh[operations.len() as int].id),
{
    let n = operations.len() as int;
    let t = s.all_imported(operations, fresh).0;
    if used(t, fresh[n].id) {
        lemma_import_used(s, operations, fresh, fresh[n].id);
        assert(!used(s, fresh[n].id));
        let j = choose|j: int|
            0 <= j < operations.len() && (#[trigger] fresh[j]).id == fresh[n].id;
        let id_of = |f: FreshView| f.id;
        assert(id_of(fresh[j]) != id_of(fresh[n]));
    }
}

proof fn lemma_replay_succeeds(
    t: StoreView,
    change: ChangeView,
    time: Timestamp,
    fresh: FreshView,
)
    requires
        !used(t, fresh.id),
        change matches Change::VariantSet { value, .. } ==> sealable(value),
    ensures
        t.change_replayed(change, time, fresh).1 is Ok,
{
}

proof fn lemma_import_succeeds(
    s: StoreView,
    operations: Seq<SyncOperationView>,
    fresh: Seq<FreshView>,
)
    requires
        operations.len() <= fresh.len(),
        unused_draws(s, fresh),
        forall|i: int| 0 <= i < operations.len() ==> importable(#[trigger] operations[i]),
    ensures
        s.all_imported(operations, fresh).1 is Ok,
    decreases operations.len(),
{
    if operations.len() > 0 {
        let n = operations.len() - 1;
        let rest = operations.drop_last();
        let last = operations.last();
        assert forall|i: int| 0 <= i < rest.len() implies importable(#[trigger] rest[i]) by {
            assert(rest[i] == operations[i]);
        }
        lemma_import_succeeds(s, rest, fresh);
        lemma_draw_unused(s, rest, fresh);
        assert(importable(operations[n]));
        let t = s.all_imported(rest, fresh).0;
        lemma_replay_keeps_log(t, last, fresh[n]);
        let u = t.operation_replayed(last, fresh[n]).0;
        assert(u.knows(last.id) == t.knows(last.id));
        if let Ok(Some(change)) = change_read(last.kind, last.payload) {
            lemma_replay_succeeds(t, change, last.created_at, fresh[n]);
        }
    }
}

/// An import succeeds if every operation is well formed, whatever the store holds and in
/// whichever order the list gives them. The identifiers that are drawn must be in no use.
pub proof fn law_import_succeeds(
    s: StoreView,
    operations: Seq<SyncOperationView>,
    fresh: Seq<FreshView>,
)
    requires
        operations.len() <= fresh.len(),
        unused_draws(s, fresh),
        forall|i: int| 0 <= i < operations.len() ==> importable(#[trigger] operations[i]),
    ensures
        s.operations_imported(operations, fresh).1 is Ok,
{
    let sorted = ordered(operations, operation_order());
    lemma_ordered(operations, operation_order());
    assert forall|i: int| 0 <= i < sorted.len() implies importable(#[trigger] sorted[i]) by {
        lemma_ordered_contains(operations, operation_order(), sorted[i]);
        assert(sorted.contains(sorted[i]));
        let k = choose|k: int| 0 <= k < operations.len() && operations[k] == sorted[i];
        assert(importable(operations[k]));
    }
    lemma_import_succeeds(s, sorted, fresh);
}

} // verus!
