//! What reading a store gives, by the rows of its tables.

use crate::crypto::{opened_text, CryptoErrorView};
use crate::domain::{DomainErrorView, SecretVariantView};
use crate::error::StoreErrorView;
use crate::ids::Id;
use crate::listing::{law_assignments_are_listed_once, law_log_is_in_order};
use crate::model::{lemma_named_unique, lemma_variant_some, lemma_variant_unique};
use crate::order::{
    lemma_collected, lemma_filter, lemma_ordered, lemma_ordered_contains, lemma_ordered_distinct,
    ordered, strict_order,
};
use crate::registry::SecretRegistry;
use crate::store::Store;
use crate::tables::{
    environment_order, lemma_named_some, log_order, operation_order, OperationRowView, RecordView,
    StoreView, SyncOperationView, SyncStatusView, Table, VariantRowView,
};
use crate::text::text_before;
use vstd::prelude::*;

verus! {

/// A name finds the row that has it, in the table that it is looked up in, and nothing where no
/// row has it.
pub proof fn law_names_find_their_rows(s: StoreView, name: Seq<char>, row: RecordView)
    requires
        s.well_formed(),
    ensures
        s.record(Table::Projects, name) == Some(row) <==> s.projects.contains(row) && row.name
            == name,
        s.record(Table::Environments, name) == Some(row) <==> s.environments.contains(row)
            && row.name == name,
        s.record(Table::Secrets, name) == Some(row) <==> s.secrets.contains(row) && row.name
            == name,
        s.record(Table::Projects, name) is Some <==> exists|i: int|
            0 <= i < s.projects.len() && (#[trigger] s.projects[i]).name == name,
        s.record(Table::Environments, name) is Some <==> exists|i: int|
            0 <= i < s.environments.len() && (#[trigger] s.environments[i]).name == name,
        s.record(Table::Secrets, name) is Some <==> exists|i: int|
            0 <= i < s.secrets.len() && (#[trigger] s.secrets[i]).name == name,
{
    lemma_named_some(s.projects, name);
    lemma_named_some(s.environments, name);
    lemma_named_some(s.secrets, name);
    if s.projects.contains(row) && row.name == name {
        lemma_named_unique(s.projects, row);
    }
    if s.environments.contains(row) && row.name == name {
        lemma_named_unique(s.environments, row);
    }
    if s.secrets.contains(row) && row.name == name {
        lemma_named_unique(s.secrets, row);
    }
}

/// A project, an environment and a secret are given with what their rows hold; one that is not
/// there is refused by its name.
pub proof fn law_records_are_given_as_they_are(store: &Store, name: Seq<char>)
    requires
        store@.well_formed(),
    ensures
        store.project_result(name) matches Ok(p) ==> {
            &&& p.name == name
            &&& store@.record(Table::Projects, name) == Some(
                RecordView {
                    id: p.id,
                    name: p.name,
                    description: p.description,
                    created_at: p.created_at,
                    updated_at: p.updated_at,
                },
            )
            &&& forall|id: Id| #[trigger]
                p.assigned_secret_ids.contains(id) <==> exists|i: int|
                    0 <= i < store@.assignments.len() && (
                    #[trigger] store@.assignments[i]).project_id == p.id
                        && store@.assignments[i].secret_id == id
        },
        store.environment_result(name) matches Ok(e) ==> {
            &&& e.name == name
            &&& store@.record(Table::Environments, name) == Some(
                RecordView {
                    id: e.id,
                    name: e.name,
                    description: e.description,
                    created_at: e.created_at,
                    updated_at: e.updated_at,
                },
            )
        },
        store.secret_result(name) matches Ok(k) ==> {
            &&& k.key == name
            &&& store@.record(Table::Secrets, name) == Some(
                RecordView {
                    id: k.id,
                    name: k.key,
                    description: k.description,
                    created_at: k.created_at,
                    updated_at: k.updated_at,
                },
            )
            &&& forall|id: Id| #[trigger]
                k.assigned_project_ids.contains(id) <==> exists|i: int|
                    0 <= i < store@.assignments.len() && (
                    #[trigger] store@.assignments[i]).secret_id == k.id
                        && store@.assignments[i].project_id == id
        },
        store@.record(Table::Projects, name) is None <==> store.project_result(name) is Err,
        store@.record(Table::Environments, name) is None <==> store.environment_result(
            name,
        ) is Err,
        store@.record(Table::Secrets, name) is None <==> store.secret_result(name) is Err,
        store.project_result(name) matches Err(error) ==> error == StoreErrorView::Domain(
            DomainErrorView::ProjectNotFound(name),
        ),
        store.environment_result(name) matches Err(error) ==> error == StoreErrorView::Domain(
            DomainErrorView::EnvironmentNotFound(name),
        ),
        store.secret_result(name) matches Err(error) ==> error == StoreErrorView::Domain(
            DomainErrorView::SecretNotFound(name),
        ),
{
    let s = store@;
    lemma_named_some(s.projects, name);
    lemma_named_some(s.environments, name);
    lemma_named_some(s.secrets, name);
    if let Ok(p) = store.project_result(name) {
        assert forall|id: Id| #[trigger] p.assigned_secret_ids.contains(id) <==> exists|i: int|
            0 <= i < s.assignments.len() && (#[trigger] s.assignments[i]).project_id == p.id
                && s.assignments[i].secret_id == id by {
            law_assignments_are_listed_once(s, p.id, id);
        }
    }
    if let Ok(k) = store.secret_result(name) {
        assert forall|id: Id| #[trigger] k.assigned_project_ids.contains(id) <==> exists|i: int|
            0 <= i < s.assignments.len() && (#[trigger] s.assignments[i]).secret_id == k.id
                && s.assignments[i].project_id == id by {
            law_assignments_are_listed_once(s, id, k.id);
        }
    }
}

/// Projects, environments and secrets are listed by the order of their names, every one of them
/// once and as it is given by its name.
pub proof fn law_records_are_listed_by_name(store: &Store)
    requires
        store@.well_formed(),
    ensures
        store.projects_result() matches Ok(list) && {
            &&& list.len() == store@.projects.len()
            &&& forall|i: int|
                0 <= i < list.len() ==> store.project_result((#[trigger] list[i]).name) == Ok::<
                    _,
                    StoreErrorView,
                >(list[i])
            &&& forall|i: int, j: int|
                0 <= i < j < list.len() ==> text_before(
                    (#[trigger] list[i]).name,
                    (#[trigger] list[j]).name,
                )
        },
        store.environments_result() matches Ok(list) && {
            &&& list.len() == store@.environments.len()
            &&& forall|i: int|
                0 <= i < list.len() ==> store.environment_result((#[trigger] list[i]).name)
                    == Ok::<_, StoreErrorView>(list[i])
            &&& forall|i: int, j: int|
                0 <= i < j < list.len() ==> text_before(
                    (#[trigger] list[i]).name,
                    (#[trigger] list[j]).name,
                )
        },
        store.secrets_result() matches Ok(list) && {
            &&& list.len() == store@.secrets.len()
            &&& forall|i: int|
                0 <= i < list.len() ==> store.secret_result((#[trigger] list[i]).key) == Ok::<
                    _,
                    StoreErrorView,
                >(list[i])
            &&& forall|i: int, j: int|
                0 <= i < j < list.len() ==> text_before(
                    (#[trigger] list[i]).key,
                    (#[trigger] list[j]).key,
                )
        },
{
    let s = store@;
    crate::judging::law_lists_hold_every_row_once(s, Table::Projects);
    crate::judging::law_lists_hold_every_row_once(s, Table::Environments);
    crate::judging::law_lists_hold_every_row_once(s, Table::Secrets);
    lemma_ordered(s.projects, crate::tables::name_order());
    lemma_ordered(s.environments, crate::tables::name_order());
    lemma_ordered(s.secrets, crate::tables::name_order());
    let projects = store.projects_result()->Ok_0;
    let a = s.listed(Table::Projects);
    assert forall|i: int| 0 <= i < projects.len() implies store.project_result(
        (#[trigger] projects[i]).name,
    ) == Ok::<_, StoreErrorView>(projects[i]) by {
        assert(s.record(Table::Projects, a[i].name) == Some(a[i]));
    }
    assert forall|i: int, j: int| 0 <= i < j < projects.len() implies text_before(
        (#[trigger] projects[i]).name,
        (#[trigger] projects[j]).name,
    ) by {
        assert(text_before(a[i].name, a[j].name));
    }
    let environments = store.environments_result()->Ok_0;
    let b = s.listed(Table::Environments);
    assert forall|i: int| 0 <= i < environments.len() implies store.environment_result(
        (#[trigger] environments[i]).name,
    ) == Ok::<_, StoreErrorView>(environments[i]) by {
        assert(s.record(Table::Environments, b[i].name) == Some(b[i]));
    }
    assert forall|i: int, j: int| 0 <= i < j < environments.len() implies text_before(
        (#[trigger] environments[i]).name,
        (#[trigger] environments[j]).name,
    ) by {
        assert(text_before(b[i].name, b[j].name));
    }
    let secrets = store.secrets_result()->Ok_0;
    let c = s.listed(Table::Secrets);
    assert forall|i: int| 0 <= i < secrets.len() implies store.secret_result(
        (#[trigger] secrets[i]).key,
    ) == Ok::<_, StoreErrorView>(secrets[i]) by {
        assert(s.record(Table::Secrets, c[i].name) == Some(c[i]));
    }
    assert forall|i: int, j: int| 0 <= i < j < secrets.len() implies text_before(
        (#[trigger] secrets[i]).key,
        (#[trigger] secrets[j]).key,
    ) by {
        assert(text_before(c[i].name, c[j].name));
    }
}

/// The value of a secret in an environment is what the row for the two is decrypted to; there
/// is none where no row is for the two. A secret or an environment that is not there is refused.
pub proof fn law_value_is_that_of_its_row(
    s: StoreView,
    key: Seq<char>,
    environment: Seq<char>,
    row: VariantRowView,
)
    requires
        s.well_formed(),
    ensures
        s.record(Table::Secrets, key) is None ==> s.value(key, environment) == Err::<
            Option<Seq<char>>,
            StoreErrorView,
        >(StoreErrorView::Domain(DomainErrorView::SecretNotFound(key))),
        s.record(Table::Secrets, key) is Some && s.record(Table::Environments, environment) is None
            ==> s.value(key, environment) == Err::<Option<Seq<char>>, StoreErrorView>(
            StoreErrorView::Domain(DomainErrorView::EnvironmentNotFound(environment)),
        ),
        s.record(Table::Secrets, key) is Some && s.record(Table::Environments, environment) is Some
            ==> {
            let secret_id = s.record(Table::Secrets, key)->0.id;
            let place_id = s.record(Table::Environments, environment)->0.id;
            &&& s.variants.contains(row) && row.secret_id == secret_id && row.environment_id
                == place_id ==> s.value(key, environment) == (match opened_text(
                s.key,
                row.nonce,
                row.ciphertext,
            ) {
                Ok(text) => Ok::<Option<Seq<char>>, StoreErrorView>(Some(text)),
                Err(error) => Err(StoreErrorView::Crypto(error)),
            })
            &&& s.value(key, environment) == Ok::<Option<Seq<char>>, StoreErrorView>(None)
                <==> forall|i: int|
                0 <= i < s.variants.len() ==> !((#[trigger] s.variants[i]).secret_id == secret_id
                    && s.variants[i].environment_id == place_id)
        },
{
    if s.record(Table::Secrets, key) is Some && s.record(
        Table::Environments,
        environment,
    ) is Some {
        let secret_id = s.record(Table::Secrets, key)->0.id;
        let place_id = s.record(Table::Environments, environment)->0.id;
        lemma_variant_some(s.variants, secret_id, place_id);
        if s.variants.contains(row) && row.secret_id == secret_id && row.environment_id
            == place_id {
            lemma_variant_unique(s.variants, row);
        }
        if s.variant(secret_id, place_id) is Some {
            let v = s.variant(secret_id, place_id)->0;
            let i = choose|i: int| 0 <= i < s.variants.len() && s.variants[i] == v;
            assert(s.variants[i].secret_id == secret_id);
        } else {
            assert forall|i: int| 0 <= i < s.variants.len() implies !((
            #[trigger] s.variants[i]).secret_id == secret_id && s.variants[i].environment_id
                == place_id) by {
                crate::wellformed::lemma_absent_variant(s.variants, secret_id, place_id, i);
            }
        }
    }
}

/// Whether a secret is assigned to a project is told by the rows of the assignments.
pub proof fn law_assignment_is_that_of_its_row(s: StoreView, key: Seq<char>, project: Seq<char>)
    ensures
        s.has_assignment(key, project) <==> {
            &&& s.record(Table::Secrets, key) is Some
            &&& s.record(Table::Projects, project) is Some
            &&& exists|i: int|
                0 <= i < s.assignments.len() && (#[trigger] s.assignments[i]).secret_id == s.record(
                    Table::Secrets,
                    key,
                )->0.id && s.assignments[i].project_id == s.record(Table::Projects, project)->0.id
        },
{
    if s.record(Table::Secrets, key) is Some && s.record(Table::Projects, project) is Some {
        let a = s.record(Table::Secrets, key)->0.id;
        let b = s.record(Table::Projects, project)->0.id;
        if s.has_assignment(key, project) {
            let i = choose|i: int|
                0 <= i < s.assignments.len() && (#[trigger] s.assignments[i]).project_id == b
                    && s.assignments[i].secret_id == a;
            assert(s.assignments[i].secret_id == a);
        }
        if exists|i: int|
            0 <= i < s.assignments.len() && (#[trigger] s.assignments[i]).secret_id == a
                && s.assignments[i].project_id == b {
            let i = choose|i: int|
                0 <= i < s.assignments.len() && (#[trigger] s.assignments[i]).secret_id == a
                    && s.assignments[i].project_id == b;
            assert(s.assignments[i].project_id == b);
        }
    }
}

/// Whether a value is that of a row, decrypted.
pub open spec fn read_from_row(
    s: StoreView,
    value: SecretVariantView,
    row: VariantRowView,
) -> bool {
    &&& value.id == row.id
    &&& value.secret_id == row.secret_id
    &&& value.environment_id == row.environment_id
    &&& value.created_at == row.created_at
    &&& value.updated_at == row.updated_at
    &&& opened_text(s.key, row.nonce, row.ciphertext) == Ok::<Seq<char>, CryptoErrorView>(
        value.value,
    )
}

/// Whether a value is that of a row of a secret.
pub open spec fn has_own_row(s: StoreView, value: SecretVariantView, id: Id) -> bool {
    exists|row: VariantRowView|
        s.variants.contains(row) && row.secret_id == id && #[trigger] read_from_row(s, value, row)
}

/// Whether a list holds the value of a row.
pub open spec fn lists_row(
    s: StoreView,
    list: Seq<SecretVariantView>,
    row: VariantRowView,
) -> bool {
    exists|i: int| 0 <= i < list.len() && read_from_row(s, #[trigger] list[i], row)
}

proof fn lemma_own_rows(s: StoreView, id: Id)
    requires
        s.well_formed(),
    ensures
        ({
            let rows = ordered(
                s.variants.filter(|v: VariantRowView| v.secret_id == id),
                environment_order(),
            );
            &&& forall|row: VariantRowView| #[trigger]
                rows.contains(row) <==> s.variants.contains(row) && row.secret_id == id
            &&& forall|i: int, j: int|
                0 <= i < j < rows.len() ==> (#[trigger] rows[i]).environment_id < (
                #[trigger] rows[j]).environment_id
        }),
{
    let own = |v: VariantRowView| v.secret_id == id;
    let pair_of = |v: VariantRowView| (v.secret_id, v.environment_id);
    let place_of = |v: VariantRowView| v.environment_id;
    let some = s.variants.filter(own);
    let before = environment_order();
    let rows = ordered(some, before);
    lemma_filter(s.variants, own, pair_of);
    assert(strict_order(before));
    lemma_ordered(some, before);
    assert forall|i: int, j: int| 0 <= i < j < some.len() implies place_of(#[trigger] some[i])
        != place_of(#[trigger] some[j]) by {
        assert(pair_of(some[i]) != pair_of(some[j]));
        assert(own(some[i]) && own(some[j]));
    }
    lemma_ordered_distinct(some, before, place_of);
    assert forall|row: VariantRowView| #[trigger] rows.contains(row) <==> s.variants.contains(row)
        && row.secret_id == id by {
        lemma_ordered_contains(some, before, row);
        if some.contains(row) {
            let m = choose|m: int| 0 <= m < some.len() && some[m] == row;
            assert(own(some[m]));
        }
        if s.variants.contains(row) && row.secret_id == id {
            let j = choose|j: int| 0 <= j < s.variants.len() && s.variants[j] == row;
            assert(own(s.variants[j]));
        }
    }
    assert forall|i: int, j: int| 0 <= i < j < rows.len() implies (
    #[trigger] rows[i]).environment_id < (#[trigger] rows[j]).environment_id by {
        assert(!before(rows[j], rows[i]));
        assert(place_of(rows[i]) != place_of(rows[j]));
    }
}

/// The values of a secret are those of its rows, every one of them once, decrypted and by
/// ascending identifier of their environments.
pub proof fn law_values_of_a_secret_are_its_rows(s: StoreView, key: Seq<char>)
    requires
        s.well_formed(),
    ensures
        s.record(Table::Secrets, key) is None ==> s.values_for(key) == Err::<
            Seq<SecretVariantView>,
            StoreErrorView,
        >(StoreErrorView::Domain(DomainErrorView::SecretNotFound(key))),
        s.values_for(key) matches Ok(list) ==> {
            let id = s.record(Table::Secrets, key)->0.id;
            &&& s.record(Table::Secrets, key) is Some
            &&& forall|i: int| 0 <= i < list.len() ==> has_own_row(s, #[trigger] list[i], id)
            &&& forall|row: VariantRowView|
                s.variants.contains(row) && row.secret_id == id ==> #[trigger] lists_row(
                    s,
                    list,
                    row,
                )
            &&& forall|i: int, j: int|
                0 <= i < j < list.len() ==> (#[trigger] list[i]).environment_id < (
                #[trigger] list[j]).environment_id
        },
{
    if s.values_for(key) is Ok {
        let id = s.record(Table::Secrets, key)->0.id;
        let rows = ordered(
            s.variants.filter(|v: VariantRowView| v.secret_id == id),
            environment_order(),
        );
        let step = |v: VariantRowView| s.variant_opened(v);
        let list = s.values_for(key)->Ok_0;
        lemma_own_rows(s, id);
        lemma_collected(rows, step);
        assert forall|i: int| 0 <= i < rows.len() implies read_from_row(
            s,
            #[trigger] list[i],
            rows[i],
        ) by {
            assert(step(rows[i]) == Ok::<SecretVariantView, StoreErrorView>(list[i]));
        }
        assert forall|i: int| 0 <= i < list.len() implies has_own_row(
            s,
            #[trigger] list[i],
            id,
        ) by {
            assert(rows.contains(rows[i]));
            assert(read_from_row(s, list[i], rows[i]));
        }
        assert forall|row: VariantRowView|
            s.variants.contains(row) && row.secret_id == id implies #[trigger] lists_row(
            s,
            list,
            row,
        ) by {
            assert(rows.contains(row));
            let i = choose|i: int| 0 <= i < rows.len() && rows[i] == row;
            assert(read_from_row(s, list[i], row));
        }
        assert forall|i: int, j: int| 0 <= i < j < list.len() implies (
        #[trigger] list[i]).environment_id < (#[trigger] list[j]).environment_id by {
            assert(read_from_row(s, list[i], rows[i]) && read_from_row(s, list[j], rows[j]));
        }
    }
}

/// Whether an operation is that of a row of the log, decrypted.
pub open spec fn read_from_log(
    s: StoreView,
    operation: SyncOperationView,
    row: OperationRowView,
) -> bool {
    &&& operation.id == row.id
    &&& operation.kind == row.kind
    &&& operation.created_at == row.created_at
    &&& opened_text(s.key, row.nonce, row.ciphertext) == Ok::<Seq<char>, CryptoErrorView>(
        operation.payload,
    )
}

/// Whether an operation is that of some row of the log.
pub open spec fn has_log_row(s: StoreView, operation: SyncOperationView) -> bool {
    exists|row: OperationRowView|
        s.operations.contains(row) && #[trigger] read_from_log(s, operation, row)
}

/// Whether a list holds the operation of a row of the log.
pub open spec fn lists_operation(
    s: StoreView,
    list: Seq<SyncOperationView>,
    row: OperationRowView,
) -> bool {
    exists|i: int| 0 <= i < list.len() && read_from_log(s, #[trigger] list[i], row)
}

/// The log gives every operation once, with its kind, its time and its payload decrypted, the
/// earlier before the later and of two of one time the one with the smaller identifier first.
pub proof fn law_log_gives_every_operation(s: StoreView)
    requires
        s.well_formed(),
        s.log() is Ok,
    ensures
        ({
            let list = s.log()->Ok_0;
            &&& list.len() == s.operations.len()
            &&& forall|i: int| 0 <= i < list.len() ==> has_log_row(s, #[trigger] list[i])
            &&& forall|row: OperationRowView|
                s.operations.contains(row) ==> #[trigger] lists_operation(s, list, row)
            &&& forall|i: int, j: int|
                0 <= i < j < list.len() ==> {
                    ||| (#[trigger] list[i]).created_at.earlier((#[trigger] list[j]).created_at)
                    ||| list[i].created_at == list[j].created_at && list[i].id < list[j].id
                }
        }),
{
    let list = s.log()->Ok_0;
    let rows = ordered(s.operations, log_order());
    let step = |row: OperationRowView| s.operation_opened(row);
    law_log_is_in_order(s);
    lemma_ordered(s.operations, log_order());
    lemma_collected(rows, step);
    assert forall|i: int| 0 <= i < rows.len() implies read_from_log(
        s,
        #[trigger] list[i],
        rows[i],
    ) by {
        assert(step(rows[i]) == Ok::<SyncOperationView, StoreErrorView>(list[i]));
    }
    assert forall|i: int| 0 <= i < list.len() implies has_log_row(s, #[trigger] list[i]) by {
        lemma_ordered_contains(s.operations, log_order(), rows[i]);
        assert(rows.contains(rows[i]));
        assert(read_from_log(s, list[i], rows[i]));
    }
    assert forall|row: OperationRowView| s.operations.contains(row) implies #[trigger]
        lists_operation(s, list, row) by {
        lemma_ordered_contains(s.operations, log_order(), row);
        let i = choose|i: int| 0 <= i < rows.len() && rows[i] == row;
        assert(read_from_log(s, list[i], row));
    }
    assert forall|i: int, j: int| 0 <= i < j < list.len() implies {
        ||| (#[trigger] list[i]).created_at.earlier((#[trigger] list[j]).created_at)
        ||| list[i].created_at == list[j].created_at && list[i].id < list[j].id
    } by {
        let before = operation_order();
        let id_of = |o: SyncOperationView| o.id;
        assert(!before(list[j], list[i]));
        assert(id_of(list[i]) != id_of(list[j]));
        crate::time::lemma_time_total(list[i].created_at, list[j].created_at);
    }
}

/// The state of the log: how many operations it holds, and the latest of them.
pub proof fn law_status_tells_the_latest_operation(s: StoreView)
    requires
        s.well_formed(),
        s.log() is Ok,
    ensures
        s.status() == Ok::<SyncStatusView, StoreErrorView>(
            SyncStatusView {
                operation_count: s.operations.len(),
                latest_operation: if s.log()->Ok_0.len() == 0 {
                    None
                } else {
                    Some(s.log()->Ok_0.last())
                },
            },
        ),
{
    let rows = ordered(s.operations, log_order());
    let step = |row: OperationRowView| s.operation_opened(row);
    lemma_ordered(s.operations, log_order());
    lemma_collected(rows, step);
    if rows.len() > 0 {
        let list = s.log()->Ok_0;
        assert(step(rows[rows.len() - 1]) == Ok::<SyncOperationView, StoreErrorView>(
            list[rows.len() - 1],
        ));
    }
}

} // verus!
