//! What requests write, row by row: the values under the key of the store, the times, and the
//! operation in the log.

use crate::change::{kind_of, payload_of, Change, ChangeView};
use crate::crypto::{sealable, sealed_text};
use crate::error::StoreErrorView;
use crate::ids::Id;
use crate::model::{lemma_variant_after_set, lemma_variant_some, lemma_variant_unique};
use crate::store::FreshView;
use crate::tables::{
    AssignmentRow, OperationRowView, RemovalRow, StoreView, Table, VariantRowView,
};
use crate::time::Timestamp;
use vstd::prelude::*;

verus! {

/// Whether a request that succeeded wrote a change into the log: its kind, and its payload under
/// the key of the store, with the identifier, the nonce and the time that were drawn.
pub open spec fn writes(
    s: StoreView,
    outcome: (StoreView, Result<(), StoreErrorView>),
    change: ChangeView,
    fresh: FreshView,
) -> bool {
    outcome.1 is Ok ==> outcome.0.operations == s.operations.push(
        OperationRowView {
            id: fresh.operation_id,
            kind: kind_of(change),
            ciphertext: sealed_text(s.key, fresh.operation_nonce, payload_of(change)),
            nonce: fresh.operation_nonce,
            created_at: fresh.operation_time,
        },
    )
}

/// Every request that succeeds logs the change that it was: that of the table it was made on,
/// with the names and texts that it was made with.
pub proof fn law_requests_are_logged_as_they_were_made(
    s: StoreView,
    name: Seq<char>,
    other: Seq<char>,
    text: Option<Seq<char>>,
    value: Seq<char>,
    force: bool,
    fresh: FreshView,
)
    ensures
        writes(
            s,
            s.record_added(Table::Projects, name, text, fresh),
            Change::ProjectAdd { name, description: text },
            fresh,
        ),
        writes(
            s,
            s.record_added(Table::Environments, name, text, fresh),
            Change::EnvironmentAdd { name, description: text },
            fresh,
        ),
        writes(
            s,
            s.record_added(Table::Secrets, name, text, fresh),
            Change::SecretAdd { key: name, description: text },
            fresh,
        ),
        writes(
            s,
            s.record_renamed(Table::Projects, name, other, fresh),
            Change::ProjectRename { from: name, to: other },
            fresh,
        ),
        writes(
            s,
            s.record_renamed(Table::Environments, name, other, fresh),
            Change::EnvironmentRename { from: name, to: other },
            fresh,
        ),
        writes(
            s,
            s.record_renamed(Table::Secrets, name, other, fresh),
            Change::SecretRename { from: name, to: other },
            fresh,
        ),
        writes(
            s,
            s.record_removed(Table::Projects, name, fresh),
            Change::ProjectRemove { name },
            fresh,
        ),
        writes(
            s,
            s.record_removed(Table::Secrets, name, fresh),
            Change::SecretRemove { key: name },
            fresh,
        ),
        writes(
            s,
            s.environment_removed(name, force, fresh),
            Change::EnvironmentRemove { name, force },
            fresh,
        ),
        writes(
            s,
            s.secret_described(name, text, fresh),
            Change::SecretDescribe { key: name, description: text },
            fresh,
        ),
        writes(
            s,
            s.variant_set(name, other, value, fresh),
            Change::VariantSet { key: name, environment: other, value },
            fresh,
        ),
        writes(
            s,
            s.variant_unset(name, other, fresh),
            Change::VariantUnset { key: name, environment: other },
            fresh,
        ),
        writes(
            s,
            s.secret_assigned(name, other, fresh),
            Change::SecretAssign { key: name, project: other },
            fresh,
        ),
        writes(
            s,
            s.secret_unassigned(name, other, fresh),
            Change::SecretUnassign { key: name, project: other },
            fresh,
        ),
{
}

/// The row of a value that was set: the value under the key of the store and the nonce that was
/// drawn, updated at the time of the operation. A row that was there keeps its identifier and the
/// time at which it was made. With both names there, room for the texts and unused identifiers
/// the request succeeds.
pub proof fn law_value_row(
    s: StoreView,
    key: Seq<char>,
    environment: Seq<char>,
    value: Seq<char>,
    fresh: FreshView,
)
    requires
        s.well_formed(),
        s.record(Table::Secrets, key) is Some,
        s.record(Table::Environments, environment) is Some,
    ensures
        ({
            let (t, r) = s.variant_set(key, environment, value, fresh);
            let secret_id = s.record(Table::Secrets, key)->0.id;
            let place_id = s.record(Table::Environments, environment)->0.id;
            let before = s.variant(secret_id, place_id);
            let taken = exists|i: int|
                0 <= i < s.variants.len() && (#[trigger] s.variants[i]).id == fresh.id;
            &&& r is Ok ==> t.variant(secret_id, place_id) == Some(
                VariantRowView {
                    id: if before is Some {
                        before->0.id
                    } else {
                        fresh.id
                    },
                    secret_id,
                    environment_id: place_id,
                    ciphertext: sealed_text(s.key, fresh.nonce, value),
                    nonce: fresh.nonce,
                    created_at: if before is Some {
                        before->0.created_at
                    } else {
                        fresh.operation_time
                    },
                    updated_at: fresh.operation_time,
                },
            )
            &&& sealable(value) && sealable(
                payload_of(Change::VariantSet { key, environment, value }),
            ) && !s.knows(fresh.operation_id) && (before is Some || !taken) ==> r is Ok
            &&& !sealable(value) ==> t == s && r is Err
        }),
{
    let (t, r) = s.variant_set(key, environment, value, fresh);
    let a = s.record(Table::Secrets, key)->0.id;
    let b = s.record(Table::Environments, environment)->0.id;
    let time = fresh.operation_time;
    let step = s.value_set(a, b, value, fresh.id, fresh.nonce, time);
    if step is Ok {
        let u = step->Ok_0;
        assert(u.knows(fresh.operation_id) == s.knows(fresh.operation_id));
        lemma_variant_after_set(s, a, b, value, fresh.id, fresh.nonce, time, a, b);
        lemma_variant_some(s.variants, a, b);
        lemma_variant_some(u.variants, a, b);
        if r is Ok {
            assert(t.variant(a, b) == u.variant(a, b));
            let row = u.variant(a, b)->0;
            let i = choose|i: int| 0 <= i < u.variants.len() && u.variants[i] == row;
            if s.variant(a, b) is Some {
                let old = s.variant(a, b)->0;
                let k = choose|k: int| 0 <= k < s.variants.len() && s.variants[k] == old;
                assert(s.variants[i].secret_id == a && s.variants[i].environment_id == b);
                assert(i == k);
            } else {
                if i < s.variants.len() {
                    assert(u.variants[i] == s.variants[i]);
                    assert(s.variants.contains(s.variants[i]));
                    lemma_variant_unique(s.variants, s.variants[i]);
                }
                assert(i == s.variants.len());
            }
        }
    }
}

/// The row of an assignment: made at the time of the request, and left as it is where the secret
/// was assigned already. Taking the secret away leaves the rows of the others, in their order.
pub proof fn law_assignment_row(
    s: StoreView,
    key: Seq<char>,
    project: Seq<char>,
    fresh: FreshView,
)
    requires
        s.record(Table::Secrets, key) is Some,
        s.record(Table::Projects, project) is Some,
    ensures
        ({
            let secret_id = s.record(Table::Secrets, key)->0.id;
            let project_id = s.record(Table::Projects, project)->0.id;
            &&& s.has_assignment(key, project) ==> s.secret_assigned(
                key,
                project,
                fresh,
            ).0.assignments == s.assignments
            &&& !s.has_assignment(key, project) ==> s.secret_assigned(
                key,
                project,
                fresh,
            ).0.assignments == s.assignments.push(
                AssignmentRow { project_id, secret_id, created_at: fresh.time },
            )
            &&& s.secret_unassigned(key, project, fresh).0.assignments == s.assignments.filter(
                |row: AssignmentRow|
                    !(row.project_id == project_id && row.secret_id == secret_id),
            )
        }),
{
}

/// Whether a removal of a value was noted later than a time.
pub open spec fn noted_later(s: StoreView, secret_id: Id, place_id: Id, time: Timestamp) -> bool {
    exists|i: int|
        0 <= i < s.removals.len() && (#[trigger] s.removals[i]).secret_id == secret_id
            && s.removals[i].environment_id == place_id && time.earlier(s.removals[i].removed_at)
}

/// Taking a value away notes when, for that secret and that environment alone, unless a later
/// removal is noted already.
pub proof fn law_removal_row(
    s: StoreView,
    key: Seq<char>,
    environment: Seq<char>,
    fresh: FreshView,
)
    requires
        s.record(Table::Secrets, key) is Some,
        s.record(Table::Environments, environment) is Some,
    ensures
        ({
            let t = s.variant_unset(key, environment, fresh).0;
            let secret_id = s.record(Table::Secrets, key)->0.id;
            let place_id = s.record(Table::Environments, environment)->0.id;
            &&& noted_later(s, secret_id, place_id, fresh.operation_time) ==> t.removals
                == s.removals
            &&& !noted_later(s, secret_id, place_id, fresh.operation_time) ==> t.removals
                == s.removals.filter(
                |row: RemovalRow|
                    !(row.secret_id == secret_id && row.environment_id == place_id),
            ).push(
                RemovalRow {
                    secret_id,
                    environment_id: place_id,
                    removed_at: fresh.operation_time,
                },
            )
            &&& t.variants == s.variants.filter(
                |row: VariantRowView|
                    !(row.secret_id == secret_id && row.environment_id == place_id),
            )
        }),
{
    let secret_id = s.record(Table::Secrets, key)->0.id;
    let place_id = s.record(Table::Environments, environment)->0.id;
    let u = s.value_unset(secret_id, place_id);
    assert(u.removals == s.removals);
    assert(u.removed_after(secret_id, place_id, fresh.operation_time) == noted_later(
        s,
        secret_id,
        place_id,
        fresh.operation_time,
    ));
}

} // verus!
