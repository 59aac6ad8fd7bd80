//! What the lists of a store hold: every operation of the log once, in the order in which the
//! operations were made, and every assignment once.

use crate::change::{payload_of, Change, ChangeView};
use crate::crypto::sealable;
use crate::error::StoreErrorView;
use crate::ids::Id;
use crate::laws::{law_success_is_one_logged_change, lemma_replay_keeps_log};
use crate::model::lemma_ids_differ;
use crate::order::{
    collected, distinct_by, in_order, lemma_collected, lemma_filter, lemma_ordered,
    lemma_ordered_contains, lemma_ordered_distinct, ordered, placed, strict_order,
};
use crate::requests::lemma_found_id;
use crate::store::{operation_for, FreshView};
use crate::tables::{
    assigned, id_order, lemma_operation_order, log_order, operation_order, AssignmentRow,
    OperationRowView, StoreView, SyncOperationView, Table,
};
use crate::wellformed::{lemma_assignment_made, lemma_recorded};
use vstd::prelude::*;

verus! {

proof fn lemma_collected_placed<A, B, E>(
    items: Seq<A>,
    x: A,
    before: spec_fn(A, A) -> bool,
    step: spec_fn(A) -> Result<B, E>,
    results: Seq<B>,
    y: B,
    after: spec_fn(B, B) -> bool,
)
    requires
        collected(items, step) == Ok::<Seq<B>, E>(results),
        step(x) == Ok::<B, E>(y),
        forall|a: A, b: B|
            step(a) == Ok::<B, E>(b) ==> #[trigger] before(x, a) == #[trigger] after(y, b),
    ensures
        collected(placed(items, x, before), step) == Ok::<Seq<B>, E>(placed(results, y, after)),
    decreases items.len(),
{
    let longer = placed(items, x, before);
    lemma_collected(items, step);
    if items.len() > 0 {
        assert(step(items[items.len() - 1]) == Ok::<B, E>(results[items.len() - 1]));
        assert(before(x, items.last()) == after(y, results.last()));
    }
    if items.len() == 0 || !before(x, items.last()) {
        assert(longer.drop_last() =~= items);
    } else {
        let rest = items.drop_last();
        assert(results.drop_last() == collected(rest, step)->Ok_0);
        lemma_collected_placed(rest, x, before, step, results.drop_last(), y, after);
        assert(longer.drop_last() =~= placed(rest, x, before));
    }
}

/// A log with one operation more lists that operation at its place among the others, which
/// stay as they are.
pub proof fn law_log_gains_the_operation(
    s: StoreView,
    t: StoreView,
    row: OperationRowView,
    operation: SyncOperationView,
)
    requires
        s.log() is Ok,
        t.key == s.key,
        t.operations == s.operations.push(row),
        t.operation_opened(row) == Ok::<SyncOperationView, StoreErrorView>(operation),
    ensures
        t.log() == Ok::<Seq<SyncOperationView>, StoreErrorView>(
            placed(s.log()->Ok_0, operation, operation_order()),
        ),
{
    let step = |row: OperationRowView| s.operation_opened(row);
    let again = |row: OperationRowView| t.operation_opened(row);
    assert(t.operations.drop_last() =~= s.operations);
    assert(step =~= again);
    lemma_collected_placed(
        ordered(s.operations, log_order()),
        row,
        log_order(),
        step,
        s.log()->Ok_0,
        operation,
        operation_order(),
    );
}

/// Every change that a request makes is listed in the log with its kind, payload and time.
pub proof fn law_request_is_listed(s: StoreView, change: ChangeView, fresh: FreshView)
    requires
        s.well_formed(),
        s.log() is Ok,
        s.change_made(change, fresh).1 is Ok,
        s.change_confirmed(change, fresh),
    ensures
        s.change_made(change, fresh).0.log() == Ok::<Seq<SyncOperationView>, StoreErrorView>(
            placed(s.log()->Ok_0, operation_for(change, fresh), operation_order()),
        ),
{
    let t = s.change_made(change, fresh).0;
    law_success_is_one_logged_change(s, change, fresh);
    law_log_gains_the_operation(s, t, t.operations.last(), operation_for(change, fresh));
}

/// Every operation that is imported as new is listed in the log as it came.
pub proof fn law_import_is_listed(
    s: StoreView,
    operation: SyncOperationView,
    fresh: FreshView,
)
    requires
        s.log() is Ok,
        s.operation_imported(operation, fresh).1 == Ok::<bool, StoreErrorView>(true),
        s.import_confirmed(operation, fresh),
    ensures
        s.operation_imported(operation, fresh).0.log() == Ok::<
            Seq<SyncOperationView>,
            StoreErrorView,
        >(placed(s.log()->Ok_0, operation, operation_order())),
{
    let t = s.operation_imported(operation, fresh).0;
    lemma_replay_keeps_log(s, operation, fresh);
    law_log_gains_the_operation(s, t, t.operations.last(), operation);
}

/// The log lists every operation once, in the order in which they were made.
pub proof fn law_log_is_in_order(s: StoreView)
    requires
        s.well_formed(),
        s.log() is Ok,
    ensures
        ({
            let list = s.log()->Ok_0;
            &&& list.len() == s.operations.len()
            &&& in_order(list, operation_order())
            &&& distinct_by(list, |o: SyncOperationView| o.id)
            &&& forall|id: Id| #[trigger]
                s.knows(id) ==> exists|i: int| 0 <= i < list.len() && (#[trigger] list[i]).id == id
        }),
{
    let rows = ordered(s.operations, log_order());
    let step = |row: OperationRowView| s.operation_opened(row);
    let list = s.log()->Ok_0;
    let row_id = |o: OperationRowView| o.id;
    let id_of = |o: SyncOperationView| o.id;
    let before = operation_order();
    let row_before = log_order();
    lemma_operation_order();
    lemma_ordered(s.operations, log_order());
    lemma_ordered_distinct(s.operations, log_order(), row_id);
    lemma_collected(rows, step);
    assert forall|i: int| 0 <= i < rows.len() implies (#[trigger] list[i]).id == rows[i].id
        && list[i].created_at == rows[i].created_at by {
        assert(step(rows[i]) == Ok::<SyncOperationView, StoreErrorView>(list[i]));
    }
    assert forall|i: int, j: int| 0 <= i < j < list.len() implies !before(
        #[trigger] list[j],
        #[trigger] list[i],
    ) by {
        assert(!row_before(rows[j], rows[i]));
    }
    assert forall|i: int, j: int| 0 <= i < j < list.len() implies id_of(#[trigger] list[i])
        != id_of(#[trigger] list[j]) by {
        assert(row_id(rows[i]) != row_id(rows[j]));
    }
    assert forall|id: Id| #[trigger] s.knows(id) implies exists|i: int|
        0 <= i < list.len() && (#[trigger] list[i]).id == id by {
        let k = choose|k: int|
            0 <= k < s.operations.len() && (#[trigger] s.operations[k]).id == id;
        lemma_ordered_contains(s.operations, log_order(), s.operations[k]);
        assert(s.operations.contains(s.operations[k]));
        let i = choose|i: int| 0 <= i < rows.len() && rows[i] == s.operations[k];
        assert(list[i].id == id);
    }
}

proof fn lemma_listed_once(
    rows: Seq<AssignmentRow>,
    kept: spec_fn(AssignmentRow) -> bool,
    part: spec_fn(AssignmentRow) -> Id,
    id: Id,
)
    requires
        distinct_by(rows.filter(kept), part),
    ensures
        ({
            let list = ordered(rows.filter(kept).map_values(part), id_order());
            &&& forall|i: int, j: int| 0 <= i < j < list.len() ==> #[trigger] list[i]
                < #[trigger] list[j]
            &&& list.contains(id) == exists|k: int|
                0 <= k < rows.len() && kept(#[trigger] rows[k]) && part(rows[k]) == id
        }),
{
    let some = rows.filter(kept);
    let ids = some.map_values(part);
    let list = ordered(ids, id_order());
    let same = |id: Id| id;
    let before = id_order();
    assert(strict_order(before));
    assert forall|i: int, j: int| 0 <= i < j < ids.len() implies same(#[trigger] ids[i]) != same(
        #[trigger] ids[j],
    ) by {
        assert(part(some[i]) != part(some[j]));
    }
    lemma_ordered(ids, before);
    lemma_ordered_distinct(ids, before, same);
    assert forall|i: int, j: int| 0 <= i < j < list.len() implies #[trigger] list[i]
        < #[trigger] list[j] by {
        assert(!before(list[j], list[i]));
        assert(same(list[i]) != same(list[j]));
    }
    lemma_ordered_contains(ids, before, id);
    lemma_filter(rows, kept, part);
    if ids.contains(id) {
        let i = choose|i: int| 0 <= i < ids.len() && ids[i] == id;
        assert(kept(some[i]) && rows.contains(some[i]));
        let k = choose|k: int| 0 <= k < rows.len() && rows[k] == some[i];
        assert(kept(rows[k]) && part(rows[k]) == id);
    }
    if exists|k: int| 0 <= k < rows.len() && kept(#[trigger] rows[k]) && part(rows[k]) == id {
        let k = choose|k: int|
            0 <= k < rows.len() && kept(#[trigger] rows[k]) && part(rows[k]) == id;
        assert(some.contains(rows[k]));
        let i = choose|i: int| 0 <= i < some.len() && some[i] == rows[k];
        assert(ids[i] == id);
    }
}

/// The secrets of a project and the projects of a secret are listed ascending, each of them
/// once, and just those that are assigned.
pub proof fn law_assignments_are_listed_once(s: StoreView, project_id: Id, secret_id: Id)
    requires
        s.well_formed(),
    ensures
        forall|i: int, j: int|
            0 <= i < j < s.secret_ids(project_id).len() ==> #[trigger] s.secret_ids(project_id)[i]
                < #[trigger] s.secret_ids(project_id)[j],
        forall|i: int, j: int|
            0 <= i < j < s.project_ids(secret_id).len() ==> #[trigger] s.project_ids(secret_id)[i]
                < #[trigger] s.project_ids(secret_id)[j],
        s.secret_ids(project_id).contains(secret_id) == assigned(
            s.assignments,
            project_id,
            secret_id,
        ),
        s.project_ids(secret_id).contains(project_id) == assigned(
            s.assignments,
            project_id,
            secret_id,
        ),
{
    let rows = s.assignments;
    let pair_of = |a: AssignmentRow| (a.project_id, a.secret_id);
    let secret_of = |a: AssignmentRow| a.secret_id;
    let project_of = |a: AssignmentRow| a.project_id;
    let in_project = |a: AssignmentRow| a.project_id == project_id;
    let of_secret = |a: AssignmentRow| a.secret_id == secret_id;
    lemma_filter(rows, in_project, pair_of);
    lemma_filter(rows, of_secret, pair_of);
    let secrets = rows.filter(in_project);
    let projects = rows.filter(of_secret);
    assert forall|i: int, j: int| 0 <= i < j < secrets.len() implies secret_of(
        #[trigger] secrets[i],
    ) != secret_of(#[trigger] secrets[j]) by {
        assert(pair_of(secrets[i]) != pair_of(secrets[j]));
        assert(in_project(secrets[i]) && in_project(secrets[j]));
    }
    assert forall|i: int, j: int| 0 <= i < j < projects.len() implies project_of(
        #[trigger] projects[i],
    ) != project_of(#[trigger] projects[j]) by {
        assert(pair_of(projects[i]) != pair_of(projects[j]));
        assert(of_secret(projects[i]) && of_secret(projects[j]));
    }
    lemma_listed_once(rows, in_project, secret_of, secret_id);
    lemma_listed_once(rows, of_secret, project_of, project_id);
}

/// Whether identifiers stand in strictly ascending order, so that each of them stands there
/// once.
pub open spec fn ascending(ids: Seq<Id>) -> bool {
    forall|i: int, j: int| 0 <= i < j < ids.len() ==> #[trigger] ids[i] < #[trigger] ids[j]
}

/// A secret can be assigned to a project where both are there, as often as one likes, unless
/// the operation cannot be logged. Then each of them lists the other once, among what it
/// lists in ascending order. What was assigned already stays as it is, and so do the
/// assignments of others.
pub proof fn law_assignment_is_listed_once(
    s: StoreView,
    key: Seq<char>,
    project: Seq<char>,
    fresh: FreshView,
    other_key: Seq<char>,
    other_project: Seq<char>,
)
    requires
        s.well_formed(),
        s.record(Table::Secrets, key) is Some,
        s.record(Table::Projects, project) is Some,
    ensures
        s.secret_assigned(key, project, fresh).1 is Ok <==> sealable(
            payload_of(Change::SecretAssign { key, project }),
        ) && !s.knows(fresh.operation_id),
        s.secret_assigned(key, project, fresh).1 is Ok ==> {
            let t = s.secret_assigned(key, project, fresh).0;
            let secret = t.secret_keyed(key)->Ok_0;
            let owner = t.project_named(project)->Ok_0;
            &&& t.secret_keyed(key) is Ok
            &&& t.project_named(project) is Ok
            &&& ascending(secret.assigned_project_ids)
            &&& secret.assigned_project_ids.contains(owner.id)
            &&& ascending(owner.assigned_secret_ids)
            &&& owner.assigned_secret_ids.contains(secret.id)
            &&& s.has_assignment(key, project) ==> t.assignments == s.assignments
            &&& (other_key, other_project) != (key, project) ==> t.has_assignment(
                other_key,
                other_project,
            ) == s.has_assignment(other_key, other_project)
        },
{
    let secret = s.record(Table::Secrets, key)->0;
    let owner = s.record(Table::Projects, project)->0;
    let made = s.assignment_made(owner.id, secret.id, fresh.time);
    assert(made.knows(fresh.operation_id) == s.knows(fresh.operation_id));
    if s.secret_assigned(key, project, fresh).1 is Ok {
        let t = s.secret_assigned(key, project, fresh).0;
        lemma_found_id(s, Table::Secrets, key);
        lemma_found_id(s, Table::Projects, project);
        lemma_assignment_made(s, owner.id, secret.id, fresh.time);
        lemma_recorded(
            made,
            operation_for(Change::SecretAssign { key, project }, fresh),
            fresh.operation_nonce,
        );
        law_repeated_assignment_changes_no_assignment(
            s,
            key,
            project,
            fresh,
            fresh,
            other_key,
            other_project,
        );
        law_assignments_are_listed_once(t, owner.id, secret.id);
    }
}

/// Assigning a secret to a project assigns it, and a second time changes no assignment and no
/// list. Other assignments stay as they are.
pub proof fn law_repeated_assignment_changes_no_assignment(
    s: StoreView,
    key: Seq<char>,
    project: Seq<char>,
    fresh: FreshView,
    again: FreshView,
    other_key: Seq<char>,
    other_project: Seq<char>,
)
    requires
        s.well_formed(),
        s.secret_assigned(key, project, fresh).1 is Ok,
    ensures
        ({
            let t = s.secret_assigned(key, project, fresh).0;
            let u = t.secret_assigned(key, project, again).0;
            &&& t.has_assignment(key, project)
            &&& (other_key, other_project) != (key, project) ==> t.has_assignment(
                other_key,
                other_project,
            ) == s.has_assignment(other_key, other_project)
            &&& u.assignments == t.assignments
            &&& forall|id: Id| #[trigger] u.secret_ids(id) == t.secret_ids(id)
            &&& forall|id: Id| #[trigger] u.project_ids(id) == t.project_ids(id)
        }),
{
    let t = s.secret_assigned(key, project, fresh).0;
    let u = t.secret_assigned(key, project, again).0;
    let secret = s.record(Table::Secrets, key)->0;
    let owner = s.record(Table::Projects, project)->0;
    let rows = s.assignments;
    if !assigned(rows, owner.id, secret.id) {
        assert(t.assignments[rows.len() as int].project_id == owner.id);
    }
    assert(assigned(t.assignments, owner.id, secret.id));
    if (other_key, other_project) != (key, project) && s.record(Table::Secrets, other_key) is Some
        && s.record(Table::Projects, other_project) is Some {
        let a = s.record(Table::Projects, other_project)->0.id;
        let b = s.record(Table::Secrets, other_key)->0.id;
        if other_key != key {
            lemma_ids_differ(s.secrets, other_key, key);
        }
        if other_project != project {
            lemma_ids_differ(s.projects, other_project, project);
        }
        if assigned(rows, a, b) {
            let k = choose|k: int|
                0 <= k < rows.len() && (#[trigger] rows[k]).project_id == a && rows[k].secret_id
                    == b;
            assert(t.assignments[k] == rows[k]);
        }
        if assigned(t.assignments, a, b) {
            let k = choose|k: int|
                0 <= k < t.assignments.len() && (#[trigger] t.assignments[k]).project_id == a
                    && t.assignments[k].secret_id == b;
            if k < rows.len() {
                assert(rows[k] == t.assignments[k]);
            }
        }
    }
    assert(u.assignments == t.assignments);
}

} // verus!
