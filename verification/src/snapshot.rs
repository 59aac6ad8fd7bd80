//! The tables of a store as texts and bytes, as a database keeps them.

use crate::crypto::MasterKey;
use crate::error::{StoreError, StoreErrorView};
use crate::ids::{id_of_text, id_text, read_id, write_id, Id};
use crate::order::{
    collected, distinct_by, lemma_collected, lemma_collected_prefix, lemma_views_push, views,
};
use crate::registry::{list_view, result_view};
use crate::store::{has_id, Store};
use crate::tables::{
    id_taken, AssignmentRow, OperationRow, OperationRowView, Record, RecordView, RemovalRow, StoreView,
    VariantRow, VariantRowView,
};
use crate::text::{opt_text, same};
use crate::time::{time_of_text, Timestamp};
use vstd::prelude::*;

verus! {

/// A row of the project, environment or secret table.
#[derive(Debug, PartialEq, Eq)]
pub struct RawRecord {
    pub id: String,
    pub name: String,
    pub description: Option<String>,
    pub created_at: String,
    pub updated_at: String,
}

/// `RawRecord` with its texts as character sequences.
pub struct RawRecordView {
    pub id: Seq<char>,
    pub name: Seq<char>,
    pub description: Option<Seq<char>>,
    pub created_at: Seq<char>,
    pub updated_at: Seq<char>,
}

impl View for RawRecord {
    type V = RawRecordView;

    open spec fn view(&self) -> RawRecordView {
        RawRecordView {
            id: self.id@,
            name: self.name@,
            description: opt_text(self.description),
            created_at: self.created_at@,
            updated_at: self.updated_at@,
        }
    }
}

/// A row of the value table.
#[derive(Debug, PartialEq, Eq)]
pub struct RawVariant {
    pub id: String,
    pub secret_id: String,
    pub environment_id: String,
    pub ciphertext: Vec<u8>,
    pub nonce: Vec<u8>,
    pub created_at: String,
    pub updated_at: String,
}

/// `RawVariant` with its texts and bytes as sequences.
pub struct RawVariantView {
    pub id: Seq<char>,
    pub secret_id: Seq<char>,
    pub environment_id: Seq<char>,
    pub ciphertext: Seq<u8>,
    pub nonce: Seq<u8>,
    pub created_at: Seq<char>,
    pub updated_at: Seq<char>,
}

impl View for RawVariant {
    type V = RawVariantView;

    open spec fn view(&self) -> RawVariantView {
        RawVariantView {
            id: self.id@,
            secret_id: self.secret_id@,
            environment_id: self.environment_id@,
            ciphertext: self.ciphertext@,
            nonce: self.nonce@,
            created_at: self.created_at@,
            updated_at: self.updated_at@,
        }
    }
}

/// A row of the assignment table.
#[derive(Debug, PartialEq, Eq)]
pub struct RawAssignment {
    pub project_id: String,
    pub secret_id: String,
    pub created_at: String,
}

/// `RawAssignment` with its texts as character sequences.
pub struct RawAssignmentView {
    pub project_id: Seq<char>,
    pub secret_id: Seq<char>,
    pub created_at: Seq<char>,
}

impl View for RawAssignment {
    type V = RawAssignmentView;

    open spec fn view(&self) -> RawAssignmentView {
        RawAssignmentView {
            project_id: self.project_id@,
            secret_id: self.secret_id@,
            created_at: self.created_at@,
        }
    }
}

/// A row of the removal table.
#[derive(Debug, PartialEq, Eq)]
pub struct RawRemoval {
    pub environment_id: String,
    pub secret_id: String,
    pub removed_at: String,
}

/// `RawRemoval` with its texts as character sequences.
pub struct RawRemovalView {
    pub environment_id: Seq<char>,
    pub secret_id: Seq<char>,
    pub removed_at: Seq<char>,
}

impl View for RawRemoval {
    type V = RawRemovalView;

    open spec fn view(&self) -> RawRemovalView {
        RawRemovalView {
            environment_id: self.environment_id@,
            secret_id: self.secret_id@,
            removed_at: self.removed_at@,
        }
    }
}

/// A row of the operation table.
#[derive(Debug, PartialEq, Eq)]
pub struct RawOperation {
    pub id: String,
    pub kind: String,
    pub ciphertext: Vec<u8>,
    pub nonce: Vec<u8>,
    pub created_at: String,
}

/// `RawOperation` with its texts and bytes as sequences.
pub struct RawOperationView {
    pub id: Seq<char>,
    pub kind: Seq<char>,
    pub ciphertext: Seq<u8>,
    pub nonce: Seq<u8>,
    pub created_at: Seq<char>,
}

impl View for RawOperation {
    type V = RawOperationView;

    open spec fn view(&self) -> RawOperationView {
        RawOperationView {
            id: self.id@,
            kind: self.kind@,
            ciphertext: self.ciphertext@,
            nonce: self.nonce@,
            created_at: self.created_at@,
        }
    }
}

/// All the tables.
#[derive(Debug, PartialEq, Eq)]
pub struct Snapshot {
    pub projects: Vec<RawRecord>,
    pub environments: Vec<RawRecord>,
    pub secrets: Vec<RawRecord>,
    pub variants: Vec<RawVariant>,
    pub assignments: Vec<RawAssignment>,
    pub removals: Vec<RawRemoval>,
    pub operations: Vec<RawOperation>,
}

/// `Snapshot` over the views of its rows.
#[verifier::ext_equal]
pub struct SnapshotView {
    pub projects: Seq<RawRecordView>,
    pub environments: Seq<RawRecordView>,
    pub secrets: Seq<RawRecordView>,
    pub variants: Seq<RawVariantView>,
    pub assignments: Seq<RawAssignmentView>,
    pub removals: Seq<RawRemovalView>,
    pub operations: Seq<RawOperationView>,
}

impl View for Snapshot {
    type V = SnapshotView;

    open spec fn view(&self) -> SnapshotView {
        SnapshotView {
            projects: views(self.projects@),
            environments: views(self.environments@),
            secrets: views(self.secrets@),
            variants: views(self.variants@),
            assignments: views(self.assignments@),
            removals: views(self.removals@),
            operations: views(self.operations@),
        }
    }
}

/// The identifier that a text of the database names.
pub open spec fn id_in(text: Seq<char>) -> Result<Id, StoreErrorView> {
    match id_of_text(text) {
        Some(id) => Ok(id),
        None => Err(StoreErrorView::InvalidId(text)),
    }
}

/// The time that a text of the database names.
pub open spec fn time_in(text: Seq<char>) -> Result<Timestamp, StoreErrorView> {
    match time_of_text(text) {
        Some(time) => Ok(time),
        None => Err(StoreErrorView::InvalidTimestamp(text)),
    }
}

/// The record that a row holds.
pub open spec fn record_in(row: RawRecordView) -> Result<RecordView, StoreErrorView> {
    match (id_in(row.id), time_in(row.created_at), time_in(row.updated_at)) {
        (Ok(id), Ok(created_at), Ok(updated_at)) => Ok(
            RecordView {
                id,
                name: row.name,
                description: row.description,
                created_at,
                updated_at,
            },
        ),
        (Err(error), _, _) => Err(error),
        (_, Err(error), _) => Err(error),
        (_, _, Err(error)) => Err(error),
    }
}

/// The value that a row holds.
pub open spec fn variant_in(row: RawVariantView) -> Result<VariantRowView, StoreErrorView> {
    match (
        id_in(row.id),
        id_in(row.secret_id),
        id_in(row.environment_id),
        time_in(row.created_at),
        time_in(row.updated_at),
    ) {
        (Ok(id), Ok(secret_id), Ok(environment_id), Ok(created_at), Ok(updated_at)) => Ok(
            VariantRowView {
                id,
                secret_id,
                environment_id,
                ciphertext: row.ciphertext,
                nonce: row.nonce,
                created_at,
                updated_at,
            },
        ),
        (Err(error), _, _, _, _) => Err(error),
        (_, Err(error), _, _, _) => Err(error),
        (_, _, Err(error), _, _) => Err(error),
        (_, _, _, Err(error), _) => Err(error),
        (_, _, _, _, Err(error)) => Err(error),
    }
}

/// The assignment that a row holds.
pub open spec fn assignment_in(row: RawAssignmentView) -> Result<AssignmentRow, StoreErrorView> {
    match (id_in(row.project_id), id_in(row.secret_id), time_in(row.created_at)) {
        (Ok(project_id), Ok(secret_id), Ok(created_at)) => Ok(
            AssignmentRow { project_id, secret_id, created_at },
        ),
        (Err(error), _, _) => Err(error),
        (_, Err(error), _) => Err(error),
        (_, _, Err(error)) => Err(error),
    }
}

/// The removal that a row holds.
pub open spec fn removal_in(row: RawRemovalView) -> Result<RemovalRow, StoreErrorView> {
    match (id_in(row.environment_id), id_in(row.secret_id), time_in(row.removed_at)) {
        (Ok(environment_id), Ok(secret_id), Ok(removed_at)) => Ok(
            RemovalRow { environment_id, secret_id, removed_at },
        ),
        (Err(error), _, _) => Err(error),
        (_, Err(error), _) => Err(error),
        (_, _, Err(error)) => Err(error),
    }
}

/// The operation that a row holds.
pub open spec fn operation_in(row: RawOperationView) -> Result<OperationRowView, StoreErrorView> {
    match (id_in(row.id), time_in(row.created_at)) {
        (Ok(id), Ok(created_at)) => Ok(
            OperationRowView {
                id,
                kind: row.kind,
                ciphertext: row.ciphertext,
                nonce: row.nonce,
                created_at,
            },
        ),
        (Err(error), _) => Err(error),
        (_, Err(error)) => Err(error),
    }
}

/// The records that the rows of a table hold.
pub open spec fn records_in(rows: Seq<RawRecordView>) -> Result<Seq<RecordView>, StoreErrorView> {
    collected(rows, |row: RawRecordView| record_in(row))
}

/// The values that the rows of a table hold.
pub open spec fn variants_in(rows: Seq<RawVariantView>) -> Result<
    Seq<VariantRowView>,
    StoreErrorView,
> {
    collected(rows, |row: RawVariantView| variant_in(row))
}

/// The assignments that the rows of a table hold.
pub open spec fn assignments_in(rows: Seq<RawAssignmentView>) -> Result<
    Seq<AssignmentRow>,
    StoreErrorView,
> {
    collected(rows, |row: RawAssignmentView| assignment_in(row))
}

/// The removals that the rows of a table hold.
pub open spec fn removals_in(rows: Seq<RawRemovalView>) -> Result<
    Seq<RemovalRow>,
    StoreErrorView,
> {
    collected(rows, |row: RawRemovalView| removal_in(row))
}

/// The operations that the rows of a table hold.
pub open spec fn operations_in(rows: Seq<RawOperationView>) -> Result<
    Seq<OperationRowView>,
    StoreErrorView,
> {
    collected(rows, |row: RawOperationView| operation_in(row))
}

/// The store that tables hold: the first row that cannot be read decides, and the tables must
/// fit together.
pub open spec fn store_in(key: Seq<u8>, tables: SnapshotView) -> Result<StoreView, StoreErrorView> {
    match records_in(tables.projects) {
        Err(error) => Err(error),
        Ok(projects) => match records_in(tables.environments) {
            Err(error) => Err(error),
            Ok(environments) => match records_in(tables.secrets) {
                Err(error) => Err(error),
                Ok(secrets) => match variants_in(tables.variants) {
                    Err(error) => Err(error),
                    Ok(variants) => match assignments_in(tables.assignments) {
                        Err(error) => Err(error),
                        Ok(assignments) => match removals_in(tables.removals) {
                            Err(error) => Err(error),
                            Ok(removals) => match operations_in(tables.operations) {
                                Err(error) => Err(error),
                                Ok(operations) => {
                                    let store = StoreView {
                                        key,
                                        projects,
                                        environments,
                                        secrets,
                                        variants,
                                        assignments,
                                        removals,
                                        operations,
                                    };
                                    if store.well_formed() {
                                        Ok(store)
                                    } else {
                                        Err(StoreErrorView::Sql("inconsistent tables"@))
                                    }
                                },
                            },
                        },
                    },
                },
            },
        },
    }
}

fn parse_id(text: &String) -> (r: Result<Id, StoreError>)
    ensures
        match r {
            Ok(id) => id_in(text@) == Ok::<Id, StoreErrorView>(id),
            Err(error) => id_in(text@) == Err::<Id, StoreErrorView>(error@),
        },
{
    match read_id(text.as_str()) {
        Some(id) => Ok(id),
        None => Err(StoreError::InvalidId(text.clone())),
    }
}

fn parse_time(text: &String) -> (r: Result<Timestamp, StoreError>)
    ensures
        match r {
            Ok(time) => time_in(text@) == Ok::<Timestamp, StoreErrorView>(time),
            Err(error) => time_in(text@) == Err::<Timestamp, StoreErrorView>(error@),
        },
{
    match Timestamp::parse(text.as_str()) {
        Some(time) => Ok(time),
        None => Err(StoreError::InvalidTimestamp(text.clone())),
    }
}

fn read_record(row: &RawRecord) -> (r: Result<Record, StoreError>)
    ensures
        result_view(r) == record_in(row@),
{
    let id: Id = match parse_id(&row.id) {
        Ok(id) => id,
        Err(error) => return Err(error),
    };
    let created_at = match parse_time(&row.created_at) {
        Ok(time) => time,
        Err(error) => return Err(error),
    };
    let updated_at = match parse_time(&row.updated_at) {
        Ok(time) => time,
        Err(error) => return Err(error),
    };
    Ok(
        Record {
            id,
            name: row.name.clone(),
            description: row.description.clone(),
            created_at,
            updated_at,
        },
    )
}

fn read_variant(row: &RawVariant) -> (r: Result<VariantRow, StoreError>)
    ensures
        result_view(r) == variant_in(row@),
{
    let id: Id = match parse_id(&row.id) {
        Ok(id) => id,
        Err(error) => return Err(error),
    };
    let secret_id: Id = match parse_id(&row.secret_id) {
        Ok(id) => id,
        Err(error) => return Err(error),
    };
    let environment_id: Id = match parse_id(&row.environment_id) {
        Ok(id) => id,
        Err(error) => return Err(error),
    };
    let created_at = match parse_time(&row.created_at) {
        Ok(time) => time,
        Err(error) => return Err(error),
    };
    let updated_at = match parse_time(&row.updated_at) {
        Ok(time) => time,
        Err(error) => return Err(error),
    };
    Ok(
        VariantRow {
            id,
            secret_id,
            environment_id,
            ciphertext: row.ciphertext.clone(),
            nonce: row.nonce.clone(),
            created_at,
            updated_at,
        },
    )
}

fn read_assignment(row: &RawAssignment) -> (r: Result<AssignmentRow, StoreError>)
    ensures
        result_view(r) == assignment_in(row@),
{
    let project_id: Id = match parse_id(&row.project_id) {
        Ok(id) => id,
        Err(error) => return Err(error),
    };
    let secret_id: Id = match parse_id(&row.secret_id) {
        Ok(id) => id,
        Err(error) => return Err(error),
    };
    let created_at = match parse_time(&row.created_at) {
        Ok(time) => time,
        Err(error) => return Err(error),
    };
    Ok(AssignmentRow { project_id, secret_id, created_at })
}

fn read_removal(row: &RawRemoval) -> (r: Result<RemovalRow, StoreError>)
    ensures
        result_view(r) == removal_in(row@),
{
    let environment_id: Id = match parse_id(&row.environment_id) {
        Ok(id) => id,
        Err(error) => return Err(error),
    };
    let secret_id: Id = match parse_id(&row.secret_id) {
        Ok(id) => id,
        Err(error) => return Err(error),
    };
    let removed_at = match parse_time(&row.removed_at) {
        Ok(time) => time,
        Err(error) => return Err(error),
    };
    Ok(RemovalRow { environment_id, secret_id, removed_at })
}

fn read_operation(row: &RawOperation) -> (r: Result<OperationRow, StoreError>)
    ensures
        result_view(r) == operation_in(row@),
{
    let id: Id = match parse_id(&row.id) {
        Ok(id) => id,
        Err(error) => return Err(error),
    };
    let created_at = match parse_time(&row.created_at) {
        Ok(time) => time,
        Err(error) => return Err(error),
    };
    Ok(
        OperationRow {
            id,
            kind: row.kind.clone(),
            ciphertext: row.ciphertext.clone(),
            nonce: row.nonce.clone(),
            created_at,
        },
    )
}

fn read_records(rows: &Vec<RawRecord>) -> (r: Result<Vec<Record>, StoreError>)
    ensures
        list_view(r) == records_in(views(rows@)),
{
    let ghost all = views(rows@);
    let ghost step = |row: RawRecordView| record_in(row);
    let mut out: Vec<Record> = Vec::new();
    let mut i: usize = 0;
    assert(views(out@) =~= Seq::empty());
    while i < rows.len()
        invariant
            i <= rows.len(),
            all == views(rows@),
            step == (|row: RawRecordView| record_in(row)),
            collected(all.take(i as int), step) == Ok::<Seq<RecordView>, StoreErrorView>(
                views(out@),
            ),
        decreases rows.len() - i,
    {
        proof {
            assert(all.take(i + 1).drop_last() =~= all.take(i as int));
            assert(all.take(i + 1).last() == rows@[i as int]@);
        }
        match read_record(&rows[i]) {
            Ok(row) => {
                proof {
                    lemma_views_push(out@, row);
                }
                out.push(row);
            },
            Err(error) => {
                proof {
                    lemma_collected_prefix(all, i + 1, step);
                }
                return Err(error);
            },
        }
        i = i + 1;
    }
    assert(all.take(i as int) =~= all);
    Ok(out)
}

fn read_variants(rows: &Vec<RawVariant>) -> (r: Result<Vec<VariantRow>, StoreError>)
    ensures
        list_view(r) == variants_in(views(rows@)),
{
    let ghost all = views(rows@);
    let ghost step = |row: RawVariantView| variant_in(row);
    let mut out: Vec<VariantRow> = Vec::new();
    let mut i: usize = 0;
    assert(views(out@) =~= Seq::empty());
    while i < rows.len()
        invariant
            i <= rows.len(),
            all == views(rows@),
            step == (|row: RawVariantView| variant_in(row)),
            collected(all.take(i as int), step) == Ok::<Seq<VariantRowView>, StoreErrorView>(
                views(out@),
            ),
        decreases rows.len() - i,
    {
        proof {
            assert(all.take(i + 1).drop_last() =~= all.take(i as int));
            assert(all.take(i + 1).last() == rows@[i as int]@);
        }
        match read_variant(&rows[i]) {
            Ok(row) => {
                proof {
                    lemma_views_push(out@, row);
                }
                out.push(row);
            },
            Err(error) => {
                proof {
                    lemma_collected_prefix(all, i + 1, step);
                }
                return Err(error);
            },
        }
        i = i + 1;
    }
    assert(all.take(i as int) =~= all);
    Ok(out)
}

fn read_assignments(rows: &Vec<RawAssignment>) -> (r: Result<Vec<AssignmentRow>, StoreError>)
    ensures
        list_view(r) == assignments_in(views(rows@)),
{
    let ghost all = views(rows@);
    let ghost step = |row: RawAssignmentView| assignment_in(row);
    let mut out: Vec<AssignmentRow> = Vec::new();
    let mut i: usize = 0;
    assert(views(out@) =~= Seq::empty());
    while i < rows.len()
        invariant
            i <= rows.len(),
            all == views(rows@),
            step == (|row: RawAssignmentView| assignment_in(row)),
            collected(all.take(i as int), step) == Ok::<Seq<AssignmentRow>, StoreErrorView>(
                views(out@),
            ),
        decreases rows.len() - i,
    {
        proof {
            assert(all.take(i + 1).drop_last() =~= all.take(i as int));
            assert(all.take(i + 1).last() == rows@[i as int]@);
        }
        match read_assignment(&rows[i]) {
            Ok(row) => {
                proof {
                    lemma_views_push(out@, row);
                }
                out.push(row);
            },
            Err(error) => {
                proof {
                    lemma_collected_prefix(all, i + 1, step);
                }
                return Err(error);
            },
        }
        i = i + 1;
    }
    assert(all.take(i as int) =~= all);
    Ok(out)
}

fn read_removals(rows: &Vec<RawRemoval>) -> (r: Result<Vec<RemovalRow>, StoreError>)
    ensures
        list_view(r) == removals_in(views(rows@)),
{
    let ghost all = views(rows@);
    let ghost step = |row: RawRemovalView| removal_in(row);
    let mut out: Vec<RemovalRow> = Vec::new();
    let mut i: usize = 0;
    assert(views(out@) =~= Seq::empty());
    while i < rows.len()
        invariant
            i <= rows.len(),
            all == views(rows@),
            step == (|row: RawRemovalView| removal_in(row)),
            collected(all.take(i as int), step) == Ok::<Seq<RemovalRow>, StoreErrorView>(
                views(out@),
            ),
        decreases rows.len() - i,
    {
        proof {
            assert(all.take(i + 1).drop_last() =~= all.take(i as int));
            assert(all.take(i + 1).last() == rows@[i as int]@);
        }
        match read_removal(&rows[i]) {
            Ok(row) => {
                proof {
                    lemma_views_push(out@, row);
                }
                out.push(row);
            },
            Err(error) => {
                proof {
                    lemma_collected_prefix(all, i + 1, step);
                }
                return Err(error);
            },
        }
        i = i + 1;
    }
    assert(all.take(i as int) =~= all);
    Ok(out)
}

fn read_operations(rows: &Vec<RawOperation>) -> (r: Result<Vec<OperationRow>, StoreError>)
    ensures
        list_view(r) == operations_in(views(rows@)),
{
    let ghost all = views(rows@);
    let ghost step = |row: RawOperationView| operation_in(row);
    let mut out: Vec<OperationRow> = Vec::new();
    let mut i: usize = 0;
    assert(views(out@) =~= Seq::empty());
    while i < rows.len()
        invariant
            i <= rows.len(),
            all == views(rows@),
            step == (|row: RawOperationView| operation_in(row)),
            collected(all.take(i as int), step) == Ok::<Seq<OperationRowView>, StoreErrorView>(
                views(out@),
            ),
        decreases rows.len() - i,
    {
        proof {
            assert(all.take(i + 1).drop_last() =~= all.take(i as int));
            assert(all.take(i + 1).last() == rows@[i as int]@);
        }
        match read_operation(&rows[i]) {
            Ok(row) => {
                proof {
                    lemma_views_push(out@, row);
                }
                out.push(row);
            },
            Err(error) => {
                proof {
                    lemma_collected_prefix(all, i + 1, step);
                }
                return Err(error);
            },
        }
        i = i + 1;
    }
    assert(all.take(i as int) =~= all);
    Ok(out)
}

fn distinct_record_ids(rows: &Vec<Record>) -> (r: bool)
    ensures
        r == distinct_by(views(rows@), |x: RecordView| x.id),
{
    let ghost all = views(rows@);
    let ghost part = |x: RecordView| x.id;
    let mut i: usize = 0;
    while i < rows.len()
        invariant
            i <= rows.len(),
            all == views(rows@),
            part == (|x: RecordView| x.id),
            forall|a: int, b: int|
                0 <= a < b < i ==> part(#[trigger] all[a]) != part(#[trigger] all[b]),
        decreases rows.len() - i,
    {
        let mut j: usize = 0;
        while j < i
            invariant
                j <= i < rows.len(),
                all == views(rows@),
                part == (|x: RecordView| x.id),
                forall|a: int| 0 <= a < j ==> part(#[trigger] all[a]) != part(all[i as int]),
            decreases i - j,
        {
            if rows[j].id == rows[i].id {
                assert(part(all[j as int]) == part(all[i as int]));
                return false;
            }
            j = j + 1;
        }
        i = i + 1;
    }
    true
}

fn distinct_names(rows: &Vec<Record>) -> (r: bool)
    ensures
        r == distinct_by(views(rows@), |x: RecordView| x.name),
{
    let ghost all = views(rows@);
    let ghost part = |x: RecordView| x.name;
    let mut i: usize = 0;
    while i < rows.len()
        invariant
            i <= rows.len(),
            all == views(rows@),
            part == (|x: RecordView| x.name),
            forall|a: int, b: int|
                0 <= a < b < i ==> part(#[trigger] all[a]) != part(#[trigger] all[b]),
        decreases rows.len() - i,
    {
        let mut j: usize = 0;
        while j < i
            invariant
                j <= i < rows.len(),
                all == views(rows@),
                part == (|x: RecordView| x.name),
                forall|a: int| 0 <= a < j ==> part(#[trigger] all[a]) != part(all[i as int]),
            decreases i - j,
        {
            if same(rows[j].name.as_str(), rows[i].name.as_str()) {
                assert(part(all[j as int]) == part(all[i as int]));
                return false;
            }
            j = j + 1;
        }
        i = i + 1;
    }
    true
}

fn distinct_variant_ids(rows: &Vec<VariantRow>) -> (r: bool)
    ensures
        r == distinct_by(views(rows@), |x: VariantRowView| x.id),
{
    let ghost all = views(rows@);
    let ghost part = |x: VariantRowView| x.id;
    let mut i: usize = 0;
    while i < rows.len()
        invariant
            i <= rows.len(),
            all == views(rows@),
            part == (|x: VariantRowView| x.id),
            forall|a: int, b: int|
                0 <= a < b < i ==> part(#[trigger] all[a]) != part(#[trigger] all[b]),
        decreases rows.len() - i,
    {
        let mut j: usize = 0;
        while j < i
            invariant
                j <= i < rows.len(),
                all == views(rows@),
                part == (|x: VariantRowView| x.id),
                forall|a: int| 0 <= a < j ==> part(#[trigger] all[a]) != part(all[i as int]),
            decreases i - j,
        {
            if rows[j].id == rows[i].id {
                assert(part(all[j as int]) == part(all[i as int]));
                return false;
            }
            j = j + 1;
        }
        i = i + 1;
    }
    true
}

fn distinct_places(rows: &Vec<VariantRow>) -> (r: bool)
    ensures
        r == distinct_by(views(rows@), |x: VariantRowView| (x.secret_id, x.environment_id)),
{
    let ghost all = views(rows@);
    let ghost part = |x: VariantRowView| (x.secret_id, x.environment_id);
    let mut i: usize = 0;
    while i < rows.len()
        invariant
            i <= rows.len(),
            all == views(rows@),
            part == (|x: VariantRowView| (x.secret_id, x.environment_id)),
            forall|a: int, b: int|
                0 <= a < b < i ==> part(#[trigger] all[a]) != part(#[trigger] all[b]),
        decreases rows.len() - i,
    {
        let mut j: usize = 0;
        while j < i
            invariant
                j <= i < rows.len(),
                all == views(rows@),
                part == (|x: VariantRowView| (x.secret_id, x.environment_id)),
                forall|a: int| 0 <= a < j ==> part(#[trigger] all[a]) != part(all[i as int]),
            decreases i - j,
        {
            if rows[j].secret_id == rows[i].secret_id && rows[j].environment_id
                == rows[i].environment_id {
                assert(part(all[j as int]) == part(all[i as int]));
                return false;
            }
            j = j + 1;
        }
        i = i + 1;
    }
    true
}

fn distinct_assignments(rows: &Vec<AssignmentRow>) -> (r: bool)
    ensures
        r == distinct_by(views(rows@), |x: AssignmentRow| (x.project_id, x.secret_id)),
{
    let ghost all = views(rows@);
    let ghost part = |x: AssignmentRow| (x.project_id, x.secret_id);
    let mut i: usize = 0;
    while i < rows.len()
        invariant
            i <= rows.len(),
            all == views(rows@),
            part == (|x: AssignmentRow| (x.project_id, x.secret_id)),
            forall|a: int, b: int|
                0 <= a < b < i ==> part(#[trigger] all[a]) != part(#[trigger] all[b]),
        decreases rows.len() - i,
    {
        let mut j: usize = 0;
        while j < i
            invariant
                j <= i < rows.len(),
                all == views(rows@),
                part == (|x: AssignmentRow| (x.project_id, x.secret_id)),
                forall|a: int| 0 <= a < j ==> part(#[trigger] all[a]) != part(all[i as int]),
            decreases i - j,
        {
            if rows[j].project_id == rows[i].project_id && rows[j].secret_id == rows[i].secret_id {
                assert(part(all[j as int]) == part(all[i as int]));
                return false;
            }
            j = j + 1;
        }
        i = i + 1;
    }
    true
}

fn distinct_removals(rows: &Vec<RemovalRow>) -> (r: bool)
    ensures
        r == distinct_by(views(rows@), |x: RemovalRow| (x.secret_id, x.environment_id)),
{
    let ghost all = views(rows@);
    let ghost part = |x: RemovalRow| (x.secret_id, x.environment_id);
    let mut i: usize = 0;
    while i < rows.len()
        invariant
            i <= rows.len(),
            all == views(rows@),
            part == (|x: RemovalRow| (x.secret_id, x.environment_id)),
            forall|a: int, b: int|
                0 <= a < b < i ==> part(#[trigger] all[a]) != part(#[trigger] all[b]),
        decreases rows.len() - i,
    {
        let mut j: usize = 0;
        while j < i
            invariant
                j <= i < rows.len(),
                all == views(rows@),
                part == (|x: RemovalRow| (x.secret_id, x.environment_id)),
                forall|a: int| 0 <= a < j ==> part(#[trigger] all[a]) != part(all[i as int]),
            decreases i - j,
        {
            if rows[j].environment_id == rows[i].environment_id && rows[j].secret_id == rows[i].secret_id {
                assert(part(all[j as int]) == part(all[i as int]));
                return false;
            }
            j = j + 1;
        }
        i = i + 1;
    }
    true
}

fn distinct_operations(rows: &Vec<OperationRow>) -> (r: bool)
    ensures
        r == distinct_by(views(rows@), |x: OperationRowView| x.id),
{
    let ghost all = views(rows@);
    let ghost part = |x: OperationRowView| x.id;
    let mut i: usize = 0;
    while i < rows.len()
        invariant
            i <= rows.len(),
            all == views(rows@),
            part == (|x: OperationRowView| x.id),
            forall|a: int, b: int|
                0 <= a < b < i ==> part(#[trigger] all[a]) != part(#[trigger] all[b]),
        decreases rows.len() - i,
    {
        let mut j: usize = 0;
        while j < i
            invariant
                j <= i < rows.len(),
                all == views(rows@),
                part == (|x: OperationRowView| x.id),
                forall|a: int| 0 <= a < j ==> part(#[trigger] all[a]) != part(all[i as int]),
            decreases i - j,
        {
            if rows[j].id == rows[i].id {
                assert(part(all[j as int]) == part(all[i as int]));
                return false;
            }
            j = j + 1;
        }
        i = i + 1;
    }
    true
}

impl Store {
    fn fits_together(&self) -> (r: bool)
        ensures
            r == self@.well_formed(),
    {
        let tables = self.tables();
        let rows = distinct_record_ids(tables.projects) && distinct_names(tables.projects)
            && distinct_record_ids(tables.environments) && distinct_names(tables.environments)
            && distinct_record_ids(tables.secrets) && distinct_names(tables.secrets);
        let others = distinct_variant_ids(tables.variants) && distinct_places(tables.variants)
            && distinct_assignments(tables.assignments) && distinct_removals(tables.removals)
            && distinct_operations(tables.operations);
        rows && others && self.values_fit() && self.assignments_fit() && self.removals_fit()
    }

    fn values_fit(&self) -> (r: bool)
        ensures
            r == self@.values_placed(),
    {
        let tables = self.tables();
        let mut i: usize = 0;
        while i < tables.variants.len()
            invariant
                i <= tables.variants@.len(),
                views(tables.variants@) == self@.variants,
                views(tables.secrets@) == self@.secrets,
                views(tables.environments@) == self@.environments,
                forall|j: int|
                    0 <= j < i ==> id_taken(
                        self@.secrets,
                        (#[trigger] self@.variants[j]).secret_id,
                    ) && id_taken(self@.environments, self@.variants[j].environment_id),
            decreases tables.variants@.len() - i,
        {
            let row = &tables.variants[i];
            assert(self@.variants[i as int] == row@);
            if !(has_id(tables.secrets, row.secret_id) && has_id(
                tables.environments,
                row.environment_id,
            )) {
                return false;
            }
            i = i + 1;
        }
        true
    }

    fn assignments_fit(&self) -> (r: bool)
        ensures
            r == self@.assignments_placed(),
    {
        let tables = self.tables();
        let mut i: usize = 0;
        while i < tables.assignments.len()
            invariant
                i <= tables.assignments@.len(),
                views(tables.assignments@) == self@.assignments,
                views(tables.secrets@) == self@.secrets,
                views(tables.projects@) == self@.projects,
                forall|j: int|
                    0 <= j < i ==> id_taken(
                        self@.secrets,
                        (#[trigger] self@.assignments[j]).secret_id,
                    ) && id_taken(self@.projects, self@.assignments[j].project_id),
            decreases tables.assignments@.len() - i,
        {
            let row = &tables.assignments[i];
            assert(self@.assignments[i as int] == row@);
            if !(has_id(tables.secrets, row.secret_id) && has_id(
                tables.projects,
                row.project_id,
            )) {
                return false;
            }
            i = i + 1;
        }
        true
    }

    fn removals_fit(&self) -> (r: bool)
        ensures
            r == self@.removals_placed(),
    {
        let tables = self.tables();
        let mut i: usize = 0;
        while i < tables.removals.len()
            invariant
                i <= tables.removals@.len(),
                views(tables.removals@) == self@.removals,
                views(tables.secrets@) == self@.secrets,
                views(tables.environments@) == self@.environments,
                forall|j: int|
                    0 <= j < i ==> id_taken(
                        self@.secrets,
                        (#[trigger] self@.removals[j]).secret_id,
                    ) && id_taken(self@.environments, self@.removals[j].environment_id),
            decreases tables.removals@.len() - i,
        {
            let row = &tables.removals[i];
            assert(self@.removals[i as int] == row@);
            if !(has_id(tables.secrets, row.secret_id) && has_id(
                tables.environments,
                row.environment_id,
            )) {
                return false;
            }
            i = i + 1;
        }
        true
    }

    /// Reads a store from its tables.
    pub fn load(key: MasterKey, tables: &Snapshot) -> (r: Result<Store, StoreError>)
        ensures
            result_view(r) == store_in(key@, tables@),
    {
        let projects = match read_records(&tables.projects) {
            Ok(rows) => rows,
            Err(error) => return Err(error),
        };
        let environments = match read_records(&tables.environments) {
            Ok(rows) => rows,
            Err(error) => return Err(error),
        };
        let secrets = match read_records(&tables.secrets) {
            Ok(rows) => rows,
            Err(error) => return Err(error),
        };
        let variants = match read_variants(&tables.variants) {
            Ok(rows) => rows,
            Err(error) => return Err(error),
        };
        let assignments = match read_assignments(&tables.assignments) {
            Ok(rows) => rows,
            Err(error) => return Err(error),
        };
        let removals = match read_removals(&tables.removals) {
            Ok(rows) => rows,
            Err(error) => return Err(error),
        };
        let operations = match read_operations(&tables.operations) {
            Ok(rows) => rows,
            Err(error) => return Err(error),
        };
        let store = Store::of_tables(
            key,
            projects,
            environments,
            secrets,
            variants,
            assignments,
            removals,
            operations,
        );
        if store.fits_together() {
            Ok(store)
        } else {
            Err(StoreError::Sql("inconsistent tables".to_owned()))
        }
    }

}


/// The row that holds a record.
pub open spec fn record_out(row: RecordView) -> RawRecordView {
    RawRecordView {
        id: id_text(row.id),
        name: row.name,
        description: row.description,
        created_at: row.created_at.rfc3339(),
        updated_at: row.updated_at.rfc3339(),
    }
}

fn write_record(row: &Record) -> (r: RawRecord)
    ensures
        r@ == record_out(row@),
        row@.created_at.four_digit_year() && row@.updated_at.four_digit_year() ==> record_in(r@)
            == Ok::<RecordView, StoreErrorView>(row@),
{
    RawRecord {
        id: write_id(row.id),
        name: row.name.clone(),
        description: row.description.clone(),
        created_at: row.created_at.to_rfc3339(),
        updated_at: row.updated_at.to_rfc3339(),
    }
}

fn write_records(rows: &Vec<Record>) -> (r: Vec<RawRecord>)
    ensures
        views(r@) == views(rows@).map_values(|row: RecordView| record_out(row)),
        (forall|j: int|
            0 <= j < rows@.len() ==> (#[trigger] views(rows@)[j]).created_at.four_digit_year()
                && views(rows@)[j].updated_at.four_digit_year()) ==> records_in(views(r@)) == Ok::<
            Seq<RecordView>,
            StoreErrorView,
        >(views(rows@)),
{
    let ghost all = views(rows@);
    let mut out: Vec<RawRecord> = Vec::new();
    let mut i: usize = 0;
    while i < rows.len()
        invariant
            i <= rows.len(),
            out.len() == i,
            forall|j: int| 0 <= j < i ==> (#[trigger] out@[j])@ == record_out(views(rows@)[j]),
            forall|j: int|
                0 <= j < i && (#[trigger] views(rows@)[j]).created_at.four_digit_year()
                    && views(rows@)[j].updated_at.four_digit_year() ==> record_in(out@[j]@) == Ok::<
                    RecordView,
                    StoreErrorView,
                >(views(rows@)[j]),
        decreases rows.len() - i,
    {
        assert(views(rows@)[i as int] == rows@[i as int]@);
        out.push(write_record(&rows[i]));
        i = i + 1;
    }
    proof {
        let written = views(out@);
        let step = |row: RawRecordView| record_in(row);
        assert(written =~= all.map_values(|row: RecordView| record_out(row)));
        if forall|j: int|
            0 <= j < rows@.len() ==> (#[trigger] views(rows@)[j]).created_at.four_digit_year()
                && views(rows@)[j].updated_at.four_digit_year() {
            assert forall|j: int| 0 <= j < written.len() implies step(
                #[trigger] written[j],
            ) == Ok::<
                RecordView,
                StoreErrorView,
            >(all[j]) by {
                assert(views(rows@)[j].created_at.four_digit_year());
            }
            lemma_collected(written, step);
            let results = collected(written, step)->Ok_0;
            assert forall|j: int| 0 <= j < written.len() implies results[j] == all[j] by {
                assert(step(written[j]) == Ok::<RecordView, StoreErrorView>(results[j]));
            }
            assert(results =~= all);
        }
    }
    out
}

/// The row that holds a variant.
pub open spec fn variant_out(row: VariantRowView) -> RawVariantView {
    RawVariantView {
        id: id_text(row.id),
        secret_id: id_text(row.secret_id),
        environment_id: id_text(row.environment_id),
        ciphertext: row.ciphertext,
        nonce: row.nonce,
        created_at: row.created_at.rfc3339(),
        updated_at: row.updated_at.rfc3339(),
    }
}

fn write_variant(row: &VariantRow) -> (r: RawVariant)
    ensures
        r@ == variant_out(row@),
        row@.created_at.four_digit_year() && row@.updated_at.four_digit_year() ==> variant_in(r@)
            == Ok::<VariantRowView, StoreErrorView>(row@),
{
    RawVariant {
        id: write_id(row.id),
        secret_id: write_id(row.secret_id),
        environment_id: write_id(row.environment_id),
        ciphertext: row.ciphertext.clone(),
        nonce: row.nonce.clone(),
        created_at: row.created_at.to_rfc3339(),
        updated_at: row.updated_at.to_rfc3339(),
    }
}

fn write_variants(rows: &Vec<VariantRow>) -> (r: Vec<RawVariant>)
    ensures
        views(r@) == views(rows@).map_values(|row: VariantRowView| variant_out(row)),
        (forall|j: int|
            0 <= j < rows@.len() ==> (#[trigger] views(rows@)[j]).created_at.four_digit_year()
                && views(rows@)[j].updated_at.four_digit_year()) ==> variants_in(views(r@)) == Ok::<
            Seq<VariantRowView>,
            StoreErrorView,
        >(views(rows@)),
{
    let ghost all = views(rows@);
    let mut out: Vec<RawVariant> = Vec::new();
    let mut i: usize = 0;
    while i < rows.len()
        invariant
            i <= rows.len(),
            out.len() == i,
            forall|j: int| 0 <= j < i ==> (#[trigger] out@[j])@ == variant_out(views(rows@)[j]),
            forall|j: int|
                0 <= j < i && (#[trigger] views(rows@)[j]).created_at.four_digit_year()
                    && views(rows@)[j].updated_at.four_digit_year() ==> variant_in(out@[j]@) == Ok::<
                    VariantRowView,
                    StoreErrorView,
                >(views(rows@)[j]),
        decreases rows.len() - i,
    {
        assert(views(rows@)[i as int] == rows@[i as int]@);
        out.push(write_variant(&rows[i]));
        i = i + 1;
    }
    proof {
        let written = views(out@);
        let step = |row: RawVariantView| variant_in(row);
        assert(written =~= all.map_values(|row: VariantRowView| variant_out(row)));
        if forall|j: int|
            0 <= j < rows@.len() ==> (#[trigger] views(rows@)[j]).created_at.four_digit_year()
                && views(rows@)[j].updated_at.four_digit_year() {
            assert forall|j: int| 0 <= j < written.len() implies step(
                #[trigger] written[j],
            ) == Ok::<
                VariantRowView,
                StoreErrorView,
            >(all[j]) by {
                assert(views(rows@)[j].created_at.four_digit_year());
            }
            lemma_collected(written, step);
            let results = collected(written, step)->Ok_0;
            assert forall|j: int| 0 <= j < written.len() implies results[j] == all[j] by {
                assert(step(written[j]) == Ok::<VariantRowView, StoreErrorView>(results[j]));
            }
            assert(results =~= all);
        }
    }
    out
}

/// The row that holds an assignment.
pub open spec fn assignment_out(row: AssignmentRow) -> RawAssignmentView {
    RawAssignmentView {
        project_id: id_text(row.project_id),
        secret_id: id_text(row.secret_id),
        created_at: row.created_at.rfc3339(),
    }
}

fn write_assignment(row: &AssignmentRow) -> (r: RawAssignment)
    ensures
        r@ == assignment_out(row@),
        row@.created_at.four_digit_year() ==> assignment_in(r@) == Ok::<AssignmentRow, StoreErrorView>(
            row@,
        ),
{
    RawAssignment {
        project_id: write_id(row.project_id),
        secret_id: write_id(row.secret_id),
        created_at: row.created_at.to_rfc3339(),
    }
}

fn write_assignments(rows: &Vec<AssignmentRow>) -> (r: Vec<RawAssignment>)
    ensures
        views(r@) == views(rows@).map_values(|row: AssignmentRow| assignment_out(row)),
        (forall|j: int|
            0 <= j < rows@.len() ==> (#[trigger] views(rows@)[j]).created_at.four_digit_year())
            ==> assignments_in(views(r@)) == Ok::<
            Seq<AssignmentRow>,
            StoreErrorView,
        >(views(rows@)),
{
    let ghost all = views(rows@);
    let mut out: Vec<RawAssignment> = Vec::new();
    let mut i: usize = 0;
    while i < rows.len()
        invariant
            i <= rows.len(),
            out.len() == i,
            forall|j: int| 0 <= j < i ==> (#[trigger] out@[j])@ == assignment_out(views(rows@)[j]),
            forall|j: int|
                0 <= j < i && (#[trigger] views(rows@)[j]).created_at.four_digit_year()
                    ==> assignment_in(out@[j]@) == Ok::<
                    AssignmentRow,
                    StoreErrorView,
                >(views(rows@)[j]),
        decreases rows.len() - i,
    {
        assert(views(rows@)[i as int] == rows@[i as int]@);
        out.push(write_assignment(&rows[i]));
        i = i + 1;
    }
    proof {
        let written = views(out@);
        let step = |row: RawAssignmentView| assignment_in(row);
        assert(written =~= all.map_values(|row: AssignmentRow| assignment_out(row)));
        if forall|j: int|
            0 <= j < rows@.len() ==> (
            #[trigger] views(rows@)[j]).created_at.four_digit_year() {
            assert forall|j: int| 0 <= j < written.len() implies step(
                #[trigger] written[j],
            ) == Ok::<
                AssignmentRow,
                StoreErrorView,
            >(all[j]) by {
                assert(views(rows@)[j].created_at.four_digit_year());
            }
            lemma_collected(written, step);
            let results = collected(written, step)->Ok_0;
            assert forall|j: int| 0 <= j < written.len() implies results[j] == all[j] by {
                assert(step(written[j]) == Ok::<AssignmentRow, StoreErrorView>(results[j]));
            }
            assert(results =~= all);
        }
    }
    out
}

/// The row that holds a removal.
pub open spec fn removal_out(row: RemovalRow) -> RawRemovalView {
    RawRemovalView {
        environment_id: id_text(row.environment_id),
        secret_id: id_text(row.secret_id),
        removed_at: row.removed_at.rfc3339(),
    }
}

fn write_removal(row: &RemovalRow) -> (r: RawRemoval)
    ensures
        r@ == removal_out(row@),
        row@.removed_at.four_digit_year() ==> removal_in(r@) == Ok::<RemovalRow, StoreErrorView>(
            row@,
        ),
{
    RawRemoval {
        environment_id: write_id(row.environment_id),
        secret_id: write_id(row.secret_id),
        removed_at: row.removed_at.to_rfc3339(),
    }
}

fn write_removals(rows: &Vec<RemovalRow>) -> (r: Vec<RawRemoval>)
    ensures
        views(r@) == views(rows@).map_values(|row: RemovalRow| removal_out(row)),
        (forall|j: int|
            0 <= j < rows@.len() ==> (#[trigger] views(rows@)[j]).removed_at.four_digit_year())
            ==> removals_in(views(r@)) == Ok::<
            Seq<RemovalRow>,
            StoreErrorView,
        >(views(rows@)),
{
    let ghost all = views(rows@);
    let mut out: Vec<RawRemoval> = Vec::new();
    let mut i: usize = 0;
    while i < rows.len()
        invariant
            i <= rows.len(),
            out.len() == i,
            forall|j: int| 0 <= j < i ==> (#[trigger] out@[j])@ == removal_out(views(rows@)[j]),
            forall|j: int|
                0 <= j < i && (#[trigger] views(rows@)[j]).removed_at.four_digit_year()
                    ==> removal_in(out@[j]@) == Ok::<
                    RemovalRow,
                    StoreErrorView,
                >(views(rows@)[j]),
        decreases rows.len() - i,
    {
        assert(views(rows@)[i as int] == rows@[i as int]@);
        out.push(write_removal(&rows[i]));
        i = i + 1;
    }
    proof {
        let written = views(out@);
        let step = |row: RawRemovalView| removal_in(row);
        assert(written =~= all.map_values(|row: RemovalRow| removal_out(row)));
        if forall|j: int|
            0 <= j < rows@.len() ==> (
            #[trigger] views(rows@)[j]).removed_at.four_digit_year() {
            assert forall|j: int| 0 <= j < written.len() implies step(
                #[trigger] written[j],
            ) == Ok::<
                RemovalRow,
                StoreErrorView,
            >(all[j]) by {
                assert(views(rows@)[j].removed_at.four_digit_year());
            }
            lemma_collected(written, step);
            let results = collected(written, step)->Ok_0;
            assert forall|j: int| 0 <= j < written.len() implies results[j] == all[j] by {
                assert(step(written[j]) == Ok::<RemovalRow, StoreErrorView>(results[j]));
            }
            assert(results =~= all);
        }
    }
    out
}

/// The row that holds an operation.
pub open spec fn operation_out(row: OperationRowView) -> RawOperationView {
    RawOperationView {
        id: id_text(row.id),
        kind: row.kind,
        ciphertext: row.ciphertext,
        nonce: row.nonce,
        created_at: row.created_at.rfc3339(),
    }
}

fn write_operation(row: &OperationRow) -> (r: RawOperation)
    ensures
        r@ == operation_out(row@),
        row@.created_at.four_digit_year() ==> operation_in(r@) == Ok::<OperationRowView, StoreErrorView>(
            row@,
        ),
{
    RawOperation {
        id: write_id(row.id),
        kind: row.kind.clone(),
        ciphertext: row.ciphertext.clone(),
        nonce: row.nonce.clone(),
        created_at: row.created_at.to_rfc3339(),
    }
}

fn write_operations(rows: &Vec<OperationRow>) -> (r: Vec<RawOperation>)
    ensures
        views(r@) == views(rows@).map_values(|row: OperationRowView| operation_out(row)),
        (forall|j: int|
            0 <= j < rows@.len() ==> (#[trigger] views(rows@)[j]).created_at.four_digit_year())
            ==> operations_in(views(r@)) == Ok::<
            Seq<OperationRowView>,
            StoreErrorView,
        >(views(rows@)),
{
    let ghost all = views(rows@);
    let mut out: Vec<RawOperation> = Vec::new();
    let mut i: usize = 0;
    while i < rows.len()
        invariant
            i <= rows.len(),
            out.len() == i,
            forall|j: int| 0 <= j < i ==> (#[trigger] out@[j])@ == operation_out(views(rows@)[j]),
            forall|j: int|
                0 <= j < i && (#[trigger] views(rows@)[j]).created_at.four_digit_year()
                    ==> operation_in(out@[j]@) == Ok::<
                    OperationRowView,
                    StoreErrorView,
                >(views(rows@)[j]),
        decreases rows.len() - i,
    {
        assert(views(rows@)[i as int] == rows@[i as int]@);
        out.push(write_operation(&rows[i]));
        i = i + 1;
    }
    proof {
        let written = views(out@);
        let step = |row: RawOperationView| operation_in(row);
        assert(written =~= all.map_values(|row: OperationRowView| operation_out(row)));
        if forall|j: int|
            0 <= j < rows@.len() ==> (
            #[trigger] views(rows@)[j]).created_at.four_digit_year() {
            assert forall|j: int| 0 <= j < written.len() implies step(
                #[trigger] written[j],
            ) == Ok::<
                OperationRowView,
                StoreErrorView,
            >(all[j]) by {
                assert(views(rows@)[j].created_at.four_digit_year());
            }
            lemma_collected(written, step);
            let results = collected(written, step)->Ok_0;
            assert forall|j: int| 0 <= j < written.len() implies results[j] == all[j] by {
                assert(step(written[j]) == Ok::<OperationRowView, StoreErrorView>(results[j]));
            }
            assert(results =~= all);
        }
    }
    out
}

/// The tables of a store as texts and bytes.
pub open spec fn tables_out(store: StoreView) -> SnapshotView {
    SnapshotView {
        projects: store.projects.map_values(|row: RecordView| record_out(row)),
        environments: store.environments.map_values(|row: RecordView| record_out(row)),
        secrets: store.secrets.map_values(|row: RecordView| record_out(row)),
        variants: store.variants.map_values(|row: VariantRowView| variant_out(row)),
        assignments: store.assignments.map_values(|row: AssignmentRow| assignment_out(row)),
        removals: store.removals.map_values(|row: RemovalRow| removal_out(row)),
        operations: store.operations.map_values(|row: OperationRowView| operation_out(row)),
    }
}

/// Whether the times of records are in years of four digits.
pub open spec fn ordinary_records(rows: Seq<RecordView>) -> bool {
    forall|j: int|
        0 <= j < rows.len() ==> (#[trigger] rows[j]).created_at.four_digit_year()
            && rows[j].updated_at.four_digit_year()
}

impl StoreView {
    /// Whether all times are in years of four digits.
    pub open spec fn ordinary_times(self) -> bool {
        &&& ordinary_records(self.projects)
        &&& ordinary_records(self.environments)
        &&& ordinary_records(self.secrets)
        &&& forall|j: int|
            0 <= j < self.variants.len() ==> (
            #[trigger] self.variants[j]).created_at.four_digit_year()
                && self.variants[j].updated_at.four_digit_year()
        &&& forall|j: int|
            0 <= j < self.assignments.len() ==> (
            #[trigger] self.assignments[j]).created_at.four_digit_year()
        &&& forall|j: int|
            0 <= j < self.removals.len() ==> (
            #[trigger] self.removals[j]).removed_at.four_digit_year()
        &&& forall|j: int|
            0 <= j < self.operations.len() ==> (
            #[trigger] self.operations[j]).created_at.four_digit_year()
    }
}

impl Store {
    /// Writes the tables of the store. A well-formed store whose times are in years of four
    /// digits is read back from them.
    pub fn snapshot(&self) -> (r: Snapshot)
        ensures
            r@ == tables_out(self@),
            self@.well_formed() && self@.ordinary_times() ==> store_in(self@.key, r@) == Ok::<
                StoreView,
                StoreErrorView,
            >(self@),
    {
        let tables = self.tables();
        Snapshot {
            projects: write_records(tables.projects),
            environments: write_records(tables.environments),
            secrets: write_records(tables.secrets),
            variants: write_variants(tables.variants),
            assignments: write_assignments(tables.assignments),
            removals: write_removals(tables.removals),
            operations: write_operations(tables.operations),
        }
    }
}


} // verus!
