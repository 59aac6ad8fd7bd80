//! What is kept of a store, and what is read of it again: every row with every column.

use crate::error::StoreErrorView;
use crate::ids::{id_of_text, id_text};
use crate::order::lemma_collected;
use crate::snapshot::{
    assignment_in, operation_in, record_in, removal_in, store_in, tables_out, variant_in,
    RawAssignmentView, RawOperationView, RawRecordView, RawRemovalView, RawVariantView,
    SnapshotView,
};
use crate::tables::{
    AssignmentRow, OperationRowView, RecordView, RemovalRow, StoreView, VariantRowView,
};
use crate::time::time_of_text;
use vstd::prelude::*;

verus! {

/// Whether a row of texts holds a record.
pub open spec fn holds_record(raw: RawRecordView, row: RecordView) -> bool {
    &&& raw.id == id_text(row.id)
    &&& raw.name == row.name
    &&& raw.description == row.description
    &&& raw.created_at == row.created_at.rfc3339()
    &&& raw.updated_at == row.updated_at.rfc3339()
}

/// What is kept of a store: a row for each of its rows, in every table, that holds its texts and
/// bytes as they are, its identifiers and its times.
pub proof fn law_every_row_is_kept(s: StoreView)
    ensures
        ({
            let kept = tables_out(s);
            &&& kept.projects.len() == s.projects.len()
            &&& kept.environments.len() == s.environments.len()
            &&& kept.secrets.len() == s.secrets.len()
            &&& kept.variants.len() == s.variants.len()
            &&& kept.assignments.len() == s.assignments.len()
            &&& kept.removals.len() == s.removals.len()
            &&& kept.operations.len() == s.operations.len()
            &&& forall|i: int|
                0 <= i < s.projects.len() ==> holds_record(
                    #[trigger] kept.projects[i],
                    s.projects[i],
                )
            &&& forall|i: int|
                0 <= i < s.environments.len() ==> holds_record(
                    #[trigger] kept.environments[i],
                    s.environments[i],
                )
            &&& forall|i: int|
                0 <= i < s.secrets.len() ==> holds_record(
                    #[trigger] kept.secrets[i],
                    s.secrets[i],
                )
            &&& forall|i: int|
                0 <= i < s.variants.len() ==> {
                    let row = s.variants[i];
                    let raw = #[trigger] kept.variants[i];
                    &&& raw.id == id_text(row.id)
                    &&& raw.secret_id == id_text(row.secret_id)
                    &&& raw.environment_id == id_text(row.environment_id)
                    &&& raw.ciphertext == row.ciphertext
                    &&& raw.nonce == row.nonce
                    &&& raw.created_at == row.created_at.rfc3339()
                    &&& raw.updated_at == row.updated_at.rfc3339()
                }
            &&& forall|i: int|
                0 <= i < s.assignments.len() ==> {
                    let row = s.assignments[i];
                    let raw = #[trigger] kept.assignments[i];
                    &&& raw.project_id == id_text(row.project_id)
                    &&& raw.secret_id == id_text(row.secret_id)
                    &&& raw.created_at == row.created_at.rfc3339()
                }
            &&& forall|i: int|
                0 <= i < s.removals.len() ==> {
                    let row = s.removals[i];
                    let raw = #[trigger] kept.removals[i];
                    &&& raw.secret_id == id_text(row.secret_id)
                    &&& raw.environment_id == id_text(row.environment_id)
                    &&& raw.removed_at == row.removed_at.rfc3339()
                }
            &&& forall|i: int|
                0 <= i < s.operations.len() ==> {
                    let row = s.operations[i];
                    let raw = #[trigger] kept.operations[i];
                    &&& raw.id == id_text(row.id)
                    &&& raw.kind == row.kind
                    &&& raw.ciphertext == row.ciphertext
                    &&& raw.nonce == row.nonce
                    &&& raw.created_at == row.created_at.rfc3339()
                }
        }),
{
}

/// Whether texts name identifiers and times.
pub open spec fn names_all(ids: Seq<Seq<char>>, times: Seq<Seq<char>>) -> bool {
    &&& forall|i: int| 0 <= i < ids.len() ==> id_of_text(#[trigger] ids[i]) is Some
    &&& forall|i: int| 0 <= i < times.len() ==> time_of_text(#[trigger] times[i]) is Some
}

/// A row is read where its texts name identifiers and times, and nowhere else. What is read
/// holds those, and the other columns as they are.
pub proof fn law_rows_are_read_as_they_are(
    record: RawRecordView,
    variant: RawVariantView,
    assignment: RawAssignmentView,
    removal: RawRemovalView,
    operation: RawOperationView,
)
    ensures
        record_in(record) is Ok <==> names_all(
            seq![record.id],
            seq![record.created_at, record.updated_at],
        ),
        record_in(record) matches Ok(row) ==> {
            &&& id_of_text(record.id) == Some(row.id)
            &&& row.name == record.name
            &&& row.description == record.description
            &&& time_of_text(record.created_at) == Some(row.created_at)
            &&& time_of_text(record.updated_at) == Some(row.updated_at)
        },
        variant_in(variant) is Ok <==> names_all(
            seq![variant.id, variant.secret_id, variant.environment_id],
            seq![variant.created_at, variant.updated_at],
        ),
        variant_in(variant) matches Ok(row) ==> {
            &&& id_of_text(variant.id) == Some(row.id)
            &&& id_of_text(variant.secret_id) == Some(row.secret_id)
            &&& id_of_text(variant.environment_id) == Some(row.environment_id)
            &&& row.ciphertext == variant.ciphertext
            &&& row.nonce == variant.nonce
            &&& time_of_text(variant.created_at) == Some(row.created_at)
            &&& time_of_text(variant.updated_at) == Some(row.updated_at)
        },
        assignment_in(assignment) is Ok <==> names_all(
            seq![assignment.project_id, assignment.secret_id],
            seq![assignment.created_at],
        ),
        assignment_in(assignment) matches Ok(row) ==> {
            &&& id_of_text(assignment.project_id) == Some(row.project_id)
            &&& id_of_text(assignment.secret_id) == Some(row.secret_id)
            &&& time_of_text(assignment.created_at) == Some(row.created_at)
        },
        removal_in(removal) is Ok <==> names_all(
            seq![removal.secret_id, removal.environment_id],
            seq![removal.removed_at],
        ),
        removal_in(removal) matches Ok(row) ==> {
            &&& id_of_text(removal.secret_id) == Some(row.secret_id)
            &&& id_of_text(removal.environment_id) == Some(row.environment_id)
            &&& time_of_text(removal.removed_at) == Some(row.removed_at)
        },
        operation_in(operation) is Ok <==> names_all(
            seq![operation.id],
            seq![operation.created_at],
        ),
        operation_in(operation) matches Ok(row) ==> {
            &&& id_of_text(operation.id) == Some(row.id)
            &&& row.kind == operation.kind
            &&& row.ciphertext == operation.ciphertext
            &&& row.nonce == operation.nonce
            &&& time_of_text(operation.created_at) == Some(row.created_at)
        },
{
    let r = (seq![record.id], seq![record.created_at, record.updated_at]);
    let v = (
        seq![variant.id, variant.secret_id, variant.environment_id],
        seq![variant.created_at, variant.updated_at],
    );
    let a = (seq![assignment.project_id, assignment.secret_id], seq![assignment.created_at]);
    let m = (seq![removal.secret_id, removal.environment_id], seq![removal.removed_at]);
    let o = (seq![operation.id], seq![operation.created_at]);
    assert(r.0[0] == record.id && r.1[0] == record.created_at && r.1[1] == record.updated_at);
    assert(v.0[0] == variant.id && v.0[1] == variant.secret_id && v.0[2]
        == variant.environment_id);
    assert(v.1[0] == variant.created_at && v.1[1] == variant.updated_at);
    assert(a.0[0] == assignment.project_id && a.0[1] == assignment.secret_id && a.1[0]
        == assignment.created_at);
    assert(m.0[0] == removal.secret_id && m.0[1] == removal.environment_id && m.1[0]
        == removal.removed_at);
    assert(o.0[0] == operation.id && o.1[0] == operation.created_at);
}

/// A store that is read has the key that it is read with, and of every table one row for each
/// row that was kept, in their order. The tables fit together.
pub proof fn law_every_row_is_read(key: Seq<u8>, tables: SnapshotView)
    requires
        store_in(key, tables) is Ok,
    ensures
        ({
            let s = store_in(key, tables)->Ok_0;
            &&& s.key == key
            &&& s.well_formed()
            &&& s.projects.len() == tables.projects.len()
            &&& s.environments.len() == tables.environments.len()
            &&& s.secrets.len() == tables.secrets.len()
            &&& s.variants.len() == tables.variants.len()
            &&& s.assignments.len() == tables.assignments.len()
            &&& s.removals.len() == tables.removals.len()
            &&& s.operations.len() == tables.operations.len()
            &&& forall|i: int|
                0 <= i < s.projects.len() ==> record_in(tables.projects[i]) == Ok::<
                    RecordView,
                    StoreErrorView,
                >(#[trigger] s.projects[i])
            &&& forall|i: int|
                0 <= i < s.environments.len() ==> record_in(tables.environments[i]) == Ok::<
                    RecordView,
                    StoreErrorView,
                >(#[trigger] s.environments[i])
            &&& forall|i: int|
                0 <= i < s.secrets.len() ==> record_in(tables.secrets[i]) == Ok::<
                    RecordView,
                    StoreErrorView,
                >(#[trigger] s.secrets[i])
            &&& forall|i: int|
                0 <= i < s.variants.len() ==> variant_in(tables.variants[i]) == Ok::<
                    VariantRowView,
                    StoreErrorView,
                >(#[trigger] s.variants[i])
            &&& forall|i: int|
                0 <= i < s.assignments.len() ==> assignment_in(tables.assignments[i]) == Ok::<
                    AssignmentRow,
                    StoreErrorView,
                >(#[trigger] s.assignments[i])
            &&& forall|i: int|
                0 <= i < s.removals.len() ==> removal_in(tables.removals[i]) == Ok::<
                    RemovalRow,
                    StoreErrorView,
                >(#[trigger] s.removals[i])
            &&& forall|i: int|
                0 <= i < s.operations.len() ==> operation_in(tables.operations[i]) == Ok::<
                    OperationRowView,
                    StoreErrorView,
                >(#[trigger] s.operations[i])
        }),
{
    lemma_collected(tables.projects, |row: RawRecordView| record_in(row));
    lemma_collected(tables.environments, |row: RawRecordView| record_in(row));
    lemma_collected(tables.secrets, |row: RawRecordView| record_in(row));
    lemma_collected(tables.variants, |row: RawVariantView| variant_in(row));
    lemma_collected(tables.assignments, |row: RawAssignmentView| assignment_in(row));
    lemma_collected(tables.removals, |row: RawRemovalView| removal_in(row));
    lemma_collected(tables.operations, |row: RawOperationView| operation_in(row));
}

} // verus!
