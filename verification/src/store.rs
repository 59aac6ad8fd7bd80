//! The store: tables in memory, with every value and every logged payload encrypted.

use crate::change::{
    change_read, kind_of, law_change_survives_transport, payload_of, replayed, Change, ChangeView,
};
use crate::crypto::{
    decrypt_value, encrypt_with_nonce, random_bytes, sealed_text, stands_for, MasterKey, KEY_LEN,
    NONCE_LEN,
};
use crate::domain::{
    DomainError, DomainErrorView, Environment, EnvironmentView, Project, ProjectView, Secret,
    SecretVariant, SecretVariantView, SecretView,
};
use crate::error::{StoreError, StoreErrorView};
use crate::ids::{new_id, Id};
use crate::order::{
    collected, keep, lemma_collected_prefix, lemma_filter_last, lemma_ordered, lemma_views_push,
    ordered, sort, views,
};
use crate::registry::{list_view, result_view, unit_view, SecretRegistry};
use crate::tables::{
    assigned, duplicate, environment_order, first_named, id_column, id_taken, lemma_named,
    lemma_variant_of, log_order, name_order, named, not_found, variant_of, AssignmentRow,
    OperationRow, OperationRowView, Record, RecordView, RemovalRow, StoreView, SyncOperation,
    SyncOperationView, SyncStatus, SyncStatusView, Table, VariantRow, VariantRowView,
};
use crate::text::{opt_str, owned, same};
use crate::time::Timestamp;
use crate::wellformed::{keeps, lemma_recorded};
use vstd::prelude::*;

verus! {

/// What chance and the clock give for one change: the identifier, the time and the nonce of
/// the row that it writes, and those of the operation that is logged for it.
#[derive(Debug)]
pub struct Fresh {
    id: Id,
    time: Timestamp,
    nonce: Vec<u8>,
    operation_id: Id,
    operation_time: Timestamp,
    operation_nonce: Vec<u8>,
}

/// `Fresh` with its bytes as sequences.
pub struct FreshView {
    pub id: Id,
    pub time: Timestamp,
    pub nonce: Seq<u8>,
    pub operation_id: Id,
    pub operation_time: Timestamp,
    pub operation_nonce: Seq<u8>,
}

impl FreshView {
    /// Whether the nonces have the length that encryption needs.
    pub open spec fn valid(self) -> bool {
        self.nonce.len() == NONCE_LEN && self.operation_nonce.len() == NONCE_LEN
    }
}

impl View for Fresh {
    type V = FreshView;

    closed spec fn view(&self) -> FreshView {
        FreshView {
            id: self.id,
            time: self.time,
            nonce: self.nonce@,
            operation_id: self.operation_id,
            operation_time: self.operation_time,
            operation_nonce: self.operation_nonce@,
        }
    }
}

impl Fresh {
    #[verifier::type_invariant]
    spec fn nonces_fit(self) -> bool {
        self@.valid()
    }

    /// Puts given values together; the nonces must have the right length.
    pub fn new(
        id: Id,
        time: Timestamp,
        nonce: Vec<u8>,
        operation_id: Id,
        operation_time: Timestamp,
        operation_nonce: Vec<u8>,
    ) -> (r: Option<Fresh>)
        ensures
            r is Some <==> nonce@.len() == NONCE_LEN && operation_nonce@.len() == NONCE_LEN,
            r matches Some(fresh) ==> fresh@ == (FreshView {
                id,
                time,
                nonce: nonce@,
                operation_id,
                operation_time,
                operation_nonce: operation_nonce@,
            }),
    {
        if nonce.len() == NONCE_LEN && operation_nonce.len() == NONCE_LEN {
            Some(Fresh { id, time, nonce, operation_id, operation_time, operation_nonce })
        } else {
            None
        }
    }

    /// Draws the values.
    pub fn draw() -> (r: Fresh)
        ensures
            r@.valid(),
    {
        Fresh {
            id: new_id(),
            time: Timestamp::now(),
            nonce: random_bytes(NONCE_LEN),
            operation_id: new_id(),
            operation_time: Timestamp::now(),
            operation_nonce: random_bytes(NONCE_LEN),
        }
    }

    /// The identifier of the row.
    pub fn id(&self) -> (r: Id)
        ensures
            r == self@.id,
    {
        self.id
    }

    /// The time of the row.
    pub fn time(&self) -> (r: Timestamp)
        ensures
            r == self@.time,
    {
        self.time
    }

    /// The nonce of the row.
    pub fn nonce(&self) -> (r: &Vec<u8>)
        ensures
            r@ == self@.nonce,
            self@.valid(),
    {
        proof {
            use_type_invariant(self);
        }
        &self.nonce
    }

    /// The time of the operation.
    pub fn operation_time(&self) -> (r: Timestamp)
        ensures
            r == self@.operation_time,
    {
        self.operation_time
    }

    /// The nonce of the operation.
    pub fn operation_nonce(&self) -> (r: &Vec<u8>)
        ensures
            r@ == self@.operation_nonce,
            self@.valid(),
    {
        proof {
            use_type_invariant(self);
        }
        &self.operation_nonce
    }
}

/// A store and what a request to it returned.
pub type Outcome<T> = (StoreView, Result<T, StoreErrorView>);

/// The outcome of a step that changes the store or fails without a change.
pub open spec fn settled(
    before: StoreView,
    step: Result<StoreView, StoreErrorView>,
) -> Outcome<()> {
    match step {
        Ok(after) => (after, Ok(())),
        Err(error) => (before, Err(error)),
    }
}

/// The change that adding a record makes.
pub open spec fn addition(
    table: Table,
    name: Seq<char>,
    description: Option<Seq<char>>,
) -> ChangeView {
    match table {
        Table::Projects => Change::ProjectAdd { name, description },
        Table::Environments => Change::EnvironmentAdd { name, description },
        Table::Secrets => Change::SecretAdd { key: name, description },
    }
}

/// The change that renaming a record makes.
pub open spec fn renaming(table: Table, from: Seq<char>, to: Seq<char>) -> ChangeView {
    match table {
        Table::Projects => Change::ProjectRename { from, to },
        Table::Environments => Change::EnvironmentRename { from, to },
        Table::Secrets => Change::SecretRename { from, to },
    }
}

/// The change that removing a record makes.
pub open spec fn removal(table: Table, name: Seq<char>, force: bool) -> ChangeView {
    match table {
        Table::Projects => Change::ProjectRemove { name },
        Table::Environments => Change::EnvironmentRemove { name, force },
        Table::Secrets => Change::SecretRemove { key: name },
    }
}

impl StoreView {
    /// The outcome of logging a change.
    pub open spec fn logged(self, change: ChangeView, fresh: FreshView) -> Outcome<()> {
        settled(
            self,
            self.recorded(
                SyncOperationView {
                    id: fresh.operation_id,
                    kind: kind_of(change),
                    payload: payload_of(change),
                    created_at: fresh.operation_time,
                },
                fresh.operation_nonce,
            ),
        )
    }

    /// The outcome of adding a record.
    pub open spec fn record_added(
        self,
        table: Table,
        name: Seq<char>,
        description: Option<Seq<char>>,
        fresh: FreshView,
    ) -> Outcome<()> {
        if self.record(table, name) is Some {
            (self, Err(duplicate(table, name)))
        } else {
            match self.inserted(
                table,
                RecordView {
                    id: fresh.id,
                    name,
                    description,
                    created_at: fresh.time,
                    updated_at: fresh.time,
                },
            ) {
                Err(error) => (self, Err(error)),
                Ok(after) => after.logged(addition(table, name, description), fresh),
            }
        }
    }

    /// The outcome of renaming a record.
    pub open spec fn record_renamed(
        self,
        table: Table,
        from: Seq<char>,
        to: Seq<char>,
        fresh: FreshView,
    ) -> Outcome<()> {
        if self.record(table, from) is None {
            (self, Err(not_found(table, from)))
        } else if self.record(table, to) is Some {
            (self, Err(duplicate(table, to)))
        } else {
            self.renamed(table, from, to, fresh.time).logged(renaming(table, from, to), fresh)
        }
    }

    /// The outcome of removing a project or a secret.
    pub open spec fn record_removed(
        self,
        table: Table,
        name: Seq<char>,
        fresh: FreshView,
    ) -> Outcome<()> {
        match self.record(table, name) {
            None => (self, Err(not_found(table, name))),
            Some(row) => self.removed(table, name, row.id).logged(
                removal(table, name, false),
                fresh,
            ),
        }
    }

    /// The outcome of removing an environment: one that has values is removed only by force.
    pub open spec fn environment_removed(
        self,
        name: Seq<char>,
        force: bool,
        fresh: FreshView,
    ) -> Outcome<()> {
        match self.record(Table::Environments, name) {
            None => (self, Err(not_found(Table::Environments, name))),
            Some(row) => if self.variant_count(row.id) > 0 && !force {
                (
                    self,
                    Err(
                        StoreErrorView::Domain(
                            DomainErrorView::EnvironmentHasVariants {
                                environment: name,
                                variant_count: self.variant_count(row.id),
                            },
                        ),
                    ),
                )
            } else {
                self.removed(Table::Environments, name, row.id).logged(
                    removal(Table::Environments, name, force),
                    fresh,
                )
            },
        }
    }

    /// The outcome of describing a secret anew.
    pub open spec fn secret_described(
        self,
        key: Seq<char>,
        description: Option<Seq<char>>,
        fresh: FreshView,
    ) -> Outcome<()> {
        if self.record(Table::Secrets, key) is None {
            (self, Err(not_found(Table::Secrets, key)))
        } else {
            self.described(Table::Secrets, key, description, fresh.time).logged(
                Change::SecretDescribe { key, description },
                fresh,
            )
        }
    }

    /// The outcome of setting a value.
    pub open spec fn variant_set(
        self,
        key: Seq<char>,
        environment: Seq<char>,
        value: Seq<char>,
        fresh: FreshView,
    ) -> Outcome<()> {
        match self.get(Table::Secrets, key) {
            Err(error) => (self, Err(error)),
            Ok(secret) => match self.get(Table::Environments, environment) {
                Err(error) => (self, Err(error)),
                Ok(place) => match self.value_set(
                    secret.id,
                    place.id,
                    value,
                    fresh.id,
                    fresh.nonce,
                    fresh.operation_time,
                ) {
                    Err(error) => (self, Err(error)),
                    Ok(after) => after.logged(
                        Change::VariantSet { key, environment, value },
                        fresh,
                    ),
                },
            },
        }
    }

    /// The outcome of taking a value away.
    pub open spec fn variant_unset(
        self,
        key: Seq<char>,
        environment: Seq<char>,
        fresh: FreshView,
    ) -> Outcome<()> {
        match self.get(Table::Secrets, key) {
            Err(error) => (self, Err(error)),
            Ok(secret) => match self.get(Table::Environments, environment) {
                Err(error) => (self, Err(error)),
                Ok(place) => self.value_unset(secret.id, place.id).removal_noted(
                    secret.id,
                    place.id,
                    fresh.operation_time,
                ).logged(Change::VariantUnset { key, environment }, fresh),
            },
        }
    }

    /// The outcome of assigning a secret to a project.
    pub open spec fn secret_assigned(
        self,
        key: Seq<char>,
        project: Seq<char>,
        fresh: FreshView,
    ) -> Outcome<()> {
        match self.get(Table::Secrets, key) {
            Err(error) => (self, Err(error)),
            Ok(secret) => match self.get(Table::Projects, project) {
                Err(error) => (self, Err(error)),
                Ok(owner) => self.assignment_made(owner.id, secret.id, fresh.time).logged(
                    Change::SecretAssign { key, project },
                    fresh,
                ),
            },
        }
    }

    /// The outcome of taking a secret from a project.
    pub open spec fn secret_unassigned(
        self,
        key: Seq<char>,
        project: Seq<char>,
        fresh: FreshView,
    ) -> Outcome<()> {
        match self.get(Table::Secrets, key) {
            Err(error) => (self, Err(error)),
            Ok(secret) => match self.get(Table::Projects, project) {
                Err(error) => (self, Err(error)),
                Ok(owner) => self.assignment_ended(owner.id, secret.id).logged(
                    Change::SecretUnassign { key, project },
                    fresh,
                ),
            },
        }
    }

    /// The project of a name.
    pub open spec fn project_named(self, name: Seq<char>) -> Result<ProjectView, StoreErrorView> {
        match self.get(Table::Projects, name) {
            Ok(row) => Ok(self.project(row)),
            Err(error) => Err(error),
        }
    }

    /// The environment of a name.
    pub open spec fn environment_named(self, name: Seq<char>) -> Result<
        EnvironmentView,
        StoreErrorView,
    > {
        match self.get(Table::Environments, name) {
            Ok(row) => Ok(self.environment(row)),
            Err(error) => Err(error),
        }
    }

    /// The secret of a key.
    pub open spec fn secret_keyed(self, key: Seq<char>) -> Result<SecretView, StoreErrorView> {
        match self.get(Table::Secrets, key) {
            Ok(row) => Ok(self.secret(row)),
            Err(error) => Err(error),
        }
    }

    /// The rows of a table in the order of their names.
    pub open spec fn listed(self, table: Table) -> Seq<RecordView> {
        ordered(self.rows(table), name_order())
    }

    /// The values of a secret, decrypted, in the order of their environments' identifiers.
    pub open spec fn values_for(self, key: Seq<char>) -> Result<
        Seq<SecretVariantView>,
        StoreErrorView,
    > {
        match self.get(Table::Secrets, key) {
            Err(error) => Err(error),
            Ok(secret) => collected(
                ordered(
                    self.variants.filter(|v: VariantRowView| v.secret_id == secret.id),
                    environment_order(),
                ),
                |v: VariantRowView| self.variant_opened(v),
            ),
        }
    }

    /// A row of the value table with its value decrypted.
    pub open spec fn variant_opened(self, row: VariantRowView) -> Result<
        SecretVariantView,
        StoreErrorView,
    > {
        match self.opened(row.nonce, row.ciphertext) {
            Err(error) => Err(error),
            Ok(value) => Ok(
                SecretVariantView {
                    id: row.id,
                    secret_id: row.secret_id,
                    environment_id: row.environment_id,
                    value,
                    created_at: row.created_at,
                    updated_at: row.updated_at,
                },
            ),
        }
    }

    /// A logged operation with its payload decrypted.
    pub open spec fn operation_opened(self, row: OperationRowView) -> Result<
        SyncOperationView,
        StoreErrorView,
    > {
        match self.opened(row.nonce, row.ciphertext) {
            Err(error) => Err(error),
            Ok(payload) => Ok(
                SyncOperationView {
                    id: row.id,
                    kind: row.kind,
                    payload,
                    created_at: row.created_at,
                },
            ),
        }
    }

    /// Whether the newest operation of the log is read back as the one that stands for a
    /// change, and that one as the change.
    pub open spec fn has_logged(self, change: ChangeView, fresh: FreshView) -> bool {
        &&& self.operations.len() > 0
        &&& self.operation_opened(self.operations.last()) == Ok::<SyncOperationView, StoreErrorView>(
            operation_for(change, fresh),
        )
        &&& change_read(kind_of(change), payload_of(change)) == Ok::<
            Option<ChangeView>,
            StoreErrorView,
        >(Some(replayed(change)))
    }

    /// The log, decrypted, in the order in which the operations were made.
    pub open spec fn log(self) -> Result<Seq<SyncOperationView>, StoreErrorView> {
        collected(
            ordered(self.operations, log_order()),
            |row: OperationRowView| self.operation_opened(row),
        )
    }

    /// The length of the log and its latest operation.
    pub open spec fn status(self) -> Result<SyncStatusView, StoreErrorView> {
        if self.operations.len() == 0 {
            Ok(SyncStatusView { operation_count: 0, latest_operation: None })
        } else {
            match self.operation_opened(ordered(self.operations, log_order()).last()) {
                Err(error) => Err(error),
                Ok(latest) => Ok(
                    SyncStatusView {
                        operation_count: self.operations.len(),
                        latest_operation: Some(latest),
                    },
                ),
            }
        }
    }

    /// A store without rows.
    pub open spec fn empty(key: Seq<u8>) -> StoreView {
        StoreView {
            key,
            projects: Seq::empty(),
            environments: Seq::empty(),
            secrets: Seq::empty(),
            variants: Seq::empty(),
            assignments: Seq::empty(),
            removals: Seq::empty(),
            operations: Seq::empty(),
        }
    }
}

/// The operation that stands for a change.
pub open spec fn operation_for(change: ChangeView, fresh: FreshView) -> SyncOperationView {
    SyncOperationView {
        id: fresh.operation_id,
        kind: kind_of(change),
        payload: payload_of(change),
        created_at: fresh.operation_time,
    }
}

/// The result of a request that answers with a value after an act.
pub open spec fn answered<T>(
    act: Result<(), StoreErrorView>,
    value: Result<T, StoreErrorView>,
) -> Result<T, StoreErrorView> {
    match act {
        Ok(_) => value,
        Err(error) => Err(error),
    }
}

/// A secrets registry whose tables are held in memory.
#[derive(Debug)]
pub struct Store {
    key: MasterKey,
    projects: Vec<Record>,
    environments: Vec<Record>,
    secrets: Vec<Record>,
    variants: Vec<VariantRow>,
    assignments: Vec<AssignmentRow>,
    removals: Vec<RemovalRow>,
    operations: Vec<OperationRow>,
}

/// The tables of a store, borrowed.
pub(crate) struct Tables<'a> {
    pub projects: &'a Vec<Record>,
    pub environments: &'a Vec<Record>,
    pub secrets: &'a Vec<Record>,
    pub variants: &'a Vec<VariantRow>,
    pub assignments: &'a Vec<AssignmentRow>,
    pub removals: &'a Vec<RemovalRow>,
    pub operations: &'a Vec<OperationRow>,
}

impl View for Store {
    type V = StoreView;

    closed spec fn view(&self) -> StoreView {
        StoreView {
            key: self.key@,
            projects: views(self.projects@),
            environments: views(self.environments@),
            secrets: views(self.secrets@),
            variants: views(self.variants@),
            assignments: views(self.assignments@),
            removals: views(self.removals@),
            operations: views(self.operations@),
        }
    }
}

pub(crate) fn duplicate_error(table: Table, name: &str) -> (r: StoreError)
    ensures
        r@ == duplicate(table, name@),
{
    StoreError::Domain(
        match table {
            Table::Projects => DomainError::DuplicateProject { project: name.to_owned() },
            Table::Environments => DomainError::DuplicateEnvironment {
                environment: name.to_owned(),
            },
            Table::Secrets => DomainError::DuplicateSecret { key: name.to_owned() },
        },
    )
}

fn not_found_error(table: Table, name: &str) -> (r: StoreError)
    ensures
        r@ == not_found(table, name@),
{
    StoreError::Domain(
        match table {
            Table::Projects => DomainError::ProjectNotFound(name.to_owned()),
            Table::Environments => DomainError::EnvironmentNotFound(name.to_owned()),
            Table::Secrets => DomainError::SecretNotFound(name.to_owned()),
        },
    )
}

fn id_column_text(table: Table) -> (r: String)
    ensures
        r@ == id_column(table),
{
    match table {
        Table::Projects => "UNIQUE constraint failed: projects.id".to_owned(),
        Table::Environments => "UNIQUE constraint failed: environments.id".to_owned(),
        Table::Secrets => "UNIQUE constraint failed: secrets.id".to_owned(),
    }
}

fn find_named(rows: &Vec<Record>, name: &str) -> (r: Option<usize>)
    ensures
        match r {
            Some(i) => i < rows@.len() && first_named(views(rows@), name@, i as int) && named(
                views(rows@),
                name@,
            ) == Some(rows@[i as int]@),
            None => named(views(rows@), name@) is None,
        },
{
    let mut i: usize = 0;
    while i < rows.len()
        invariant
            i <= rows.len(),
            forall|j: int| 0 <= j < i ==> (#[trigger] views(rows@)[j]).name != name@,
        decreases rows.len() - i,
    {
        if same(rows[i].name.as_str(), name) {
            proof {
                lemma_named(views(rows@), name@, i as int);
            }
            return Some(i);
        }
        i = i + 1;
    }
    proof {
        lemma_named(views(rows@), name@, 0);
    }
    None
}

pub(crate) fn has_id(rows: &Vec<Record>, id: Id) -> (r: bool)
    ensures
        r == id_taken(views(rows@), id),
{
    let mut i: usize = 0;
    while i < rows.len()
        invariant
            i <= rows.len(),
            forall|j: int| 0 <= j < i ==> (#[trigger] views(rows@)[j]).id != id,
        decreases rows.len() - i,
    {
        if rows[i].id == id {
            assert(views(rows@)[i as int].id == id);
            return true;
        }
        i = i + 1;
    }
    false
}

fn rename_rows(rows: &mut Vec<Record>, from: &str, to: &str, time: Timestamp)
    ensures
        views(final(rows)@) == views(old(rows)@).map_values(
            |row: RecordView|
                if row.name == from@ {
                    RecordView { name: to@, updated_at: time, ..row }
                } else {
                    row
                },
        ),
{
    let ghost all = views(rows@);
    let ghost change = |row: RecordView|
        if row.name == from@ {
            RecordView { name: to@, updated_at: time, ..row }
        } else {
            row
        };
    let mut i: usize = 0;
    while i < rows.len()
        invariant
            i <= rows.len(),
            rows.len() == all.len(),
            change == (|row: RecordView|
                if row.name == from@ {
                    RecordView { name: to@, updated_at: time, ..row }
                } else {
                    row
                }),
            forall|j: int| 0 <= j < i ==> (#[trigger] rows@[j])@ == change(all[j]),
            forall|j: int| i <= j < rows.len() ==> (#[trigger] rows@[j])@ == all[j],
        decreases rows.len() - i,
    {
        if same(rows[i].name.as_str(), from) {
            let renamed = Record {
                id: rows[i].id,
                name: to.to_owned(),
                description: rows[i].description.clone(),
                created_at: rows[i].created_at,
                updated_at: time,
            };
            rows.set(i, renamed);
        }
        i = i + 1;
    }
    assert(views(rows@) =~= all.map_values(change));
}

fn describe_rows(rows: &mut Vec<Record>, name: &str, description: Option<&str>, time: Timestamp)
    ensures
        views(final(rows)@) == views(old(rows)@).map_values(
            |row: RecordView|
                if row.name == name@ {
                    RecordView { description: opt_str(description), updated_at: time, ..row }
                } else {
                    row
                },
        ),
{
    let ghost all = views(rows@);
    let ghost change = |row: RecordView|
        if row.name == name@ {
            RecordView { description: opt_str(description), updated_at: time, ..row }
        } else {
            row
        };
    let mut i: usize = 0;
    while i < rows.len()
        invariant
            i <= rows.len(),
            rows.len() == all.len(),
            change == (|row: RecordView|
                if row.name == name@ {
                    RecordView { description: opt_str(description), updated_at: time, ..row }
                } else {
                    row
                }),
            forall|j: int| 0 <= j < i ==> (#[trigger] rows@[j])@ == change(all[j]),
            forall|j: int| i <= j < rows.len() ==> (#[trigger] rows@[j])@ == all[j],
        decreases rows.len() - i,
    {
        if same(rows[i].name.as_str(), name) {
            let described = Record {
                id: rows[i].id,
                name: rows[i].name.clone(),
                description: owned(description),
                created_at: rows[i].created_at,
                updated_at: time,
            };
            rows.set(i, described);
        }
        i = i + 1;
    }
    assert(views(rows@) =~= all.map_values(change));
}

fn drop_named(rows: &mut Vec<Record>, name: &str)
    ensures
        views(final(rows)@) == views(old(rows)@).filter(|r: RecordView| r.name != name@),
{
    let test = |r: &Record| -> (b: bool)
        ensures
            b == (r@.name != name@),
        { !same(r.name.as_str(), name) };
    keep(rows, test, Ghost(|r: RecordView| r.name != name@));
}

fn find_variant(rows: &Vec<VariantRow>, secret_id: Id, environment_id: Id) -> (r: Option<usize>)
    ensures
        match r {
            Some(i) => i < rows@.len() && variant_of(views(rows@), secret_id, environment_id)
                == Some(rows@[i as int]@),
            None => variant_of(views(rows@), secret_id, environment_id) is None,
        },
{
    let mut i: usize = 0;
    while i < rows.len()
        invariant
            i <= rows.len(),
            forall|j: int|
                0 <= j < i ==> !((#[trigger] views(rows@)[j]).secret_id == secret_id && views(
                    rows@,
                )[j].environment_id == environment_id),
        decreases rows.len() - i,
    {
        if rows[i].secret_id == secret_id && rows[i].environment_id == environment_id {
            proof {
                lemma_variant_of(views(rows@), secret_id, environment_id, i as int);
            }
            return Some(i);
        }
        i = i + 1;
    }
    proof {
        lemma_variant_of(views(rows@), secret_id, environment_id, 0);
    }
    None
}

fn has_variant_id(rows: &Vec<VariantRow>, id: Id) -> (r: bool)
    ensures
        r == exists|i: int| 0 <= i < views(rows@).len() && (#[trigger] views(rows@)[i]).id == id,
{
    let mut i: usize = 0;
    while i < rows.len()
        invariant
            i <= rows.len(),
            forall|j: int| 0 <= j < i ==> (#[trigger] views(rows@)[j]).id != id,
        decreases rows.len() - i,
    {
        if rows[i].id == id {
            assert(views(rows@)[i as int].id == id);
            return true;
        }
        i = i + 1;
    }
    false
}

fn overwrite_variants(
    rows: &mut Vec<VariantRow>,
    secret_id: Id,
    environment_id: Id,
    ciphertext: &Vec<u8>,
    nonce: &Vec<u8>,
    time: Timestamp,
)
    ensures
        views(final(rows)@) == views(old(rows)@).map_values(
            |row: VariantRowView|
                if row.secret_id == secret_id && row.environment_id == environment_id {
                    VariantRowView {
                        ciphertext: ciphertext@,
                        nonce: nonce@,
                        updated_at: time,
                        ..row
                    }
                } else {
                    row
                },
        ),
{
    let ghost all = views(rows@);
    let ghost change = |row: VariantRowView|
        if row.secret_id == secret_id && row.environment_id == environment_id {
            VariantRowView { ciphertext: ciphertext@, nonce: nonce@, updated_at: time, ..row }
        } else {
            row
        };
    let mut i: usize = 0;
    while i < rows.len()
        invariant
            i <= rows.len(),
            rows.len() == all.len(),
            change == (|row: VariantRowView|
                if row.secret_id == secret_id && row.environment_id == environment_id {
                    VariantRowView {
                        ciphertext: ciphertext@,
                        nonce: nonce@,
                        updated_at: time,
                        ..row
                    }
                } else {
                    row
                }),
            forall|j: int| 0 <= j < i ==> (#[trigger] rows@[j])@ == change(all[j]),
            forall|j: int| i <= j < rows.len() ==> (#[trigger] rows@[j])@ == all[j],
        decreases rows.len() - i,
    {
        if rows[i].secret_id == secret_id && rows[i].environment_id == environment_id {
            let changed = VariantRow {
                id: rows[i].id,
                secret_id,
                environment_id,
                ciphertext: ciphertext.clone(),
                nonce: nonce.clone(),
                created_at: rows[i].created_at,
                updated_at: time,
            };
            rows.set(i, changed);
        }
        i = i + 1;
    }
    assert(views(rows@) =~= all.map_values(change));
}

fn has_assignment(rows: &Vec<AssignmentRow>, project_id: Id, secret_id: Id) -> (r: bool)
    ensures
        r == assigned(views(rows@), project_id, secret_id),
{
    let mut i: usize = 0;
    while i < rows.len()
        invariant
            i <= rows.len(),
            forall|j: int|
                0 <= j < i ==> !((#[trigger] views(rows@)[j]).project_id == project_id && views(
                    rows@,
                )[j].secret_id == secret_id),
        decreases rows.len() - i,
    {
        if rows[i].project_id == project_id && rows[i].secret_id == secret_id {
            assert(views(rows@)[i as int].project_id == project_id);
            return true;
        }
        i = i + 1;
    }
    false
}

impl Store {
    /// A store without rows that encrypts under the given key.
    pub fn new(key: MasterKey) -> (r: Store)
        ensures
            r@ == StoreView::empty(key@),
    {
        let store = Store {
            key,
            projects: Vec::new(),
            environments: Vec::new(),
            secrets: Vec::new(),
            variants: Vec::new(),
            assignments: Vec::new(),
            removals: Vec::new(),
            operations: Vec::new(),
        };
        assert(store@ =~= StoreView::empty(key@));
        store
    }

    /// A store without rows under a new key.
    pub fn open_memory_for_tests() -> (r: Result<Store, StoreError>)
        ensures
            r matches Ok(store) && store@ == StoreView::empty(store@.key) && store@.key.len()
                == KEY_LEN,
    {
        Ok(Store::new(MasterKey::generate()))
    }

    pub(crate) fn of_tables(
        key: MasterKey,
        projects: Vec<Record>,
        environments: Vec<Record>,
        secrets: Vec<Record>,
        variants: Vec<VariantRow>,
        assignments: Vec<AssignmentRow>,
        removals: Vec<RemovalRow>,
        operations: Vec<OperationRow>,
    ) -> (r: Store)
        ensures
            r@ == (StoreView {
                key: key@,
                projects: views(projects@),
                environments: views(environments@),
                secrets: views(secrets@),
                variants: views(variants@),
                assignments: views(assignments@),
                removals: views(removals@),
                operations: views(operations@),
            }),
    {
        Store {
            key,
            projects,
            environments,
            secrets,
            variants,
            assignments,
            removals,
            operations,
        }
    }

    pub(crate) fn tables(&self) -> (r: Tables<'_>)
        ensures
            views(r.projects@) == self@.projects,
            views(r.environments@) == self@.environments,
            views(r.secrets@) == self@.secrets,
            views(r.variants@) == self@.variants,
            views(r.assignments@) == self@.assignments,
            views(r.removals@) == self@.removals,
            views(r.operations@) == self@.operations,
    {
        Tables {
            projects: &self.projects,
            environments: &self.environments,
            secrets: &self.secrets,
            variants: &self.variants,
            assignments: &self.assignments,
            removals: &self.removals,
            operations: &self.operations,
        }
    }

    fn rows(&self, table: Table) -> (r: &Vec<Record>)
        ensures
            views(r@) == self@.rows(table),
    {
        match table {
            Table::Projects => &self.projects,
            Table::Environments => &self.environments,
            Table::Secrets => &self.secrets,
        }
    }

    pub(crate) fn find(&self, table: Table, name: &str) -> (r: Option<&Record>)
        ensures
            match r {
                Some(row) => self@.record(table, name@) == Some(row@),
                None => self@.record(table, name@) is None,
            },
    {
        let rows = self.rows(table);
        match find_named(rows, name) {
            Some(i) => Some(&rows[i]),
            None => None,
        }
    }

    pub(crate) fn seek(&self, table: Table, name: &str) -> (r: Result<&Record, StoreError>)
        ensures
            match r {
                Ok(row) => self@.get(table, name@) == Ok::<RecordView, StoreErrorView>(row@),
                Err(error) => self@.get(table, name@) == Err::<RecordView, StoreErrorView>(error@),
            },
    {
        match self.find(table, name) {
            Some(row) => Ok(row),
            None => Err(not_found_error(table, name)),
        }
    }

    pub(crate) fn insert_record(&mut self, table: Table, row: Record) -> (r: Result<(), StoreError>)
        ensures
            final(self)@ == settled(old(self)@, old(self)@.inserted(table, row@)).0,
            unit_view(r) == settled(old(self)@, old(self)@.inserted(table, row@)).1,
    {
        if has_id(self.rows(table), row.id) {
            return Err(StoreError::Sql(id_column_text(table)));
        }
        match table {
            Table::Projects => {
                proof {
                    lemma_views_push(self.projects@, row);
                }
                self.projects.push(row);
            },
            Table::Environments => {
                proof {
                    lemma_views_push(self.environments@, row);
                }
                self.environments.push(row);
            },
            Table::Secrets => {
                proof {
                    lemma_views_push(self.secrets@, row);
                }
                self.secrets.push(row);
            },
        }
        Ok(())
    }

    pub(crate) fn rename_records(&mut self, table: Table, from: &str, to: &str, time: Timestamp)
        ensures
            final(self)@ == old(self)@.renamed(table, from@, to@, time),
    {
        match table {
            Table::Projects => rename_rows(&mut self.projects, from, to, time),
            Table::Environments => rename_rows(&mut self.environments, from, to, time),
            Table::Secrets => rename_rows(&mut self.secrets, from, to, time),
        }
    }

    pub(crate) fn describe_records(
        &mut self,
        table: Table,
        name: &str,
        description: Option<&str>,
        time: Timestamp,
    )
        ensures
            final(self)@ == old(self)@.described(table, name@, opt_str(description), time),
    {
        match table {
            Table::Projects => describe_rows(&mut self.projects, name, description, time),
            Table::Environments => describe_rows(&mut self.environments, name, description, time),
            Table::Secrets => describe_rows(&mut self.secrets, name, description, time),
        }
    }

    pub(crate) fn remove_record(&mut self, table: Table, name: &str, id: Id)
        ensures
            final(self)@ == old(self)@.removed(table, name@, id),
    {
        match table {
            Table::Projects => {
                drop_named(&mut self.projects, name);
                let other = |a: &AssignmentRow| -> (b: bool)
                    ensures
                        b == (a@.project_id != id),
                    { a.project_id != id };
                keep(
                    &mut self.assignments,
                    other,
                    Ghost(|a: AssignmentRow| a.project_id != id),
                );
            },
            Table::Environments => {
                drop_named(&mut self.environments, name);
                let other = |v: &VariantRow| -> (b: bool)
                    ensures
                        b == (v@.environment_id != id),
                    { v.environment_id != id };
                keep(
                    &mut self.variants,
                    other,
                    Ghost(|v: VariantRowView| v.environment_id != id),
                );
                let elsewhere = |r: &RemovalRow| -> (b: bool)
                    ensures
                        b == (r@.environment_id != id),
                    { r.environment_id != id };
                keep(
                    &mut self.removals,
                    elsewhere,
                    Ghost(|r: RemovalRow| r.environment_id != id),
                );
            },
            Table::Secrets => {
                drop_named(&mut self.secrets, name);
                let other = |v: &VariantRow| -> (b: bool)
                    ensures
                        b == (v@.secret_id != id),
                    { v.secret_id != id };
                keep(&mut self.variants, other, Ghost(|v: VariantRowView| v.secret_id != id));
                let unrelated = |a: &AssignmentRow| -> (b: bool)
                    ensures
                        b == (a@.secret_id != id),
                    { a.secret_id != id };
                keep(
                    &mut self.assignments,
                    unrelated,
                    Ghost(|a: AssignmentRow| a.secret_id != id),
                );
                let elsewhere = |r: &RemovalRow| -> (b: bool)
                    ensures
                        b == (r@.secret_id != id),
                    { r.secret_id != id };
                keep(&mut self.removals, elsewhere, Ghost(|r: RemovalRow| r.secret_id != id));
            },
        }
    }

    pub(crate) fn put_value(
        &mut self,
        secret_id: Id,
        environment_id: Id,
        value: &str,
        id: Id,
        nonce: &Vec<u8>,
        time: Timestamp,
    ) -> (r: Result<(), StoreError>)
        requires
            nonce@.len() == NONCE_LEN,
        ensures
            final(self)@ == settled(
                old(self)@,
                old(self)@.value_set(secret_id, environment_id, value@, id, nonce@, time),
            ).0,
            unit_view(r) == settled(
                old(self)@,
                old(self)@.value_set(secret_id, environment_id, value@, id, nonce@, time),
            ).1,
            r is Ok ==> stands_for(
                final(self)@.key,
                nonce@,
                sealed_text(final(self)@.key, nonce@, value@),
                value@,
            ),
    {
        let encrypted = match encrypt_with_nonce(&self.key, value, nonce.clone()) {
            Ok(encrypted) => encrypted,
            Err(error) => return Err(StoreError::Crypto(error)),
        };
        match find_variant(&self.variants, secret_id, environment_id) {
            Some(_) => {
                overwrite_variants(
                    &mut self.variants,
                    secret_id,
                    environment_id,
                    &encrypted.ciphertext,
                    nonce,
                    time,
                );
                Ok(())
            },
            None => {
                if has_variant_id(&self.variants, id) {
                    return Err(
                        StoreError::Sql("UNIQUE constraint failed: secret_variants.id".to_owned()),
                    );
                }
                let row = VariantRow {
                    id,
                    secret_id,
                    environment_id,
                    ciphertext: encrypted.ciphertext,
                    nonce: encrypted.nonce,
                    created_at: time,
                    updated_at: time,
                };
                proof {
                    lemma_views_push(self.variants@, row);
                }
                self.variants.push(row);
                Ok(())
            },
        }
    }

    pub(crate) fn drop_value(&mut self, secret_id: Id, environment_id: Id)
        ensures
            final(self)@ == old(self)@.value_unset(secret_id, environment_id),
    {
        let other = |v: &VariantRow| -> (b: bool)
            ensures
                b == !(v@.secret_id == secret_id && v@.environment_id == environment_id),
            { !(v.secret_id == secret_id && v.environment_id == environment_id) };
        keep(
            &mut self.variants,
            other,
            Ghost(
                |v: VariantRowView|
                    !(v.secret_id == secret_id && v.environment_id == environment_id),
            ),
        );
    }

    pub(crate) fn has_later_removal(
        &self,
        secret_id: Id,
        environment_id: Id,
        time: Timestamp,
    ) -> (r: bool)
        ensures
            r == self@.removed_after(secret_id, environment_id, time),
    {
        let mut i: usize = 0;
        while i < self.removals.len()
            invariant
                i <= self.removals.len(),
                forall|j: int|
                    0 <= j < i ==> !((#[trigger] self@.removals[j]).secret_id == secret_id
                        && self@.removals[j].environment_id == environment_id && time.earlier(
                        self@.removals[j].removed_at,
                    )),
            decreases self.removals.len() - i,
        {
            let row = self.removals[i];
            assert(self@.removals[i as int] == row);
            if row.secret_id == secret_id && row.environment_id == environment_id
                && time.is_earlier(&row.removed_at) {
                return true;
            }
            i = i + 1;
        }
        false
    }

    pub(crate) fn note_removal(&mut self, secret_id: Id, environment_id: Id, time: Timestamp)
        ensures
            final(self)@ == old(self)@.removal_noted(secret_id, environment_id, time),
    {
        if !self.has_later_removal(secret_id, environment_id, time) {
            let elsewhere = |r: &RemovalRow| -> (b: bool)
                ensures
                    b == !(r@.secret_id == secret_id && r@.environment_id == environment_id),
                { !(r.secret_id == secret_id && r.environment_id == environment_id) };
            keep(
                &mut self.removals,
                elsewhere,
                Ghost(
                    |r: RemovalRow|
                        !(r.secret_id == secret_id && r.environment_id == environment_id),
                ),
            );
            let row = RemovalRow { secret_id, environment_id, removed_at: time };
            proof {
                lemma_views_push(self.removals@, row);
            }
            self.removals.push(row);
        }
    }

    pub(crate) fn make_assignment(&mut self, project_id: Id, secret_id: Id, time: Timestamp)
        ensures
            final(self)@ == old(self)@.assignment_made(project_id, secret_id, time),
    {
        if !has_assignment(&self.assignments, project_id, secret_id) {
            let row = AssignmentRow { project_id, secret_id, created_at: time };
            proof {
                lemma_views_push(self.assignments@, row);
            }
            self.assignments.push(row);
        }
    }

    pub(crate) fn end_assignment(&mut self, project_id: Id, secret_id: Id)
        ensures
            final(self)@ == old(self)@.assignment_ended(project_id, secret_id),
    {
        let other = |a: &AssignmentRow| -> (b: bool)
            ensures
                b == !(a@.project_id == project_id && a@.secret_id == secret_id),
            { !(a.project_id == project_id && a.secret_id == secret_id) };
        keep(
            &mut self.assignments,
            other,
            Ghost(|a: AssignmentRow| !(a.project_id == project_id && a.secret_id == secret_id)),
        );
    }

    pub(crate) fn knows_operation(&self, id: Id) -> (r: bool)
        ensures
            r == self@.knows(id),
    {
        let mut i: usize = 0;
        while i < self.operations.len()
            invariant
                i <= self.operations.len(),
                forall|j: int| 0 <= j < i ==> (#[trigger] self@.operations[j]).id != id,
            decreases self.operations.len() - i,
        {
            if self.operations[i].id == id {
                assert(self@.operations[i as int].id == id);
                return true;
            }
            i = i + 1;
        }
        false
    }

    pub(crate) fn record_operation(&mut self, operation: &SyncOperation, nonce: &Vec<u8>) -> (r:
        Result<(), StoreError>)
        requires
            nonce@.len() == NONCE_LEN,
        ensures
            final(self)@ == settled(old(self)@, old(self)@.recorded(operation@, nonce@)).0,
            unit_view(r) == settled(old(self)@, old(self)@.recorded(operation@, nonce@)).1,
            r is Ok ==> stands_for(
                final(self)@.key,
                nonce@,
                sealed_text(final(self)@.key, nonce@, operation@.payload),
                operation@.payload,
            ),
    {
        let encrypted = match encrypt_with_nonce(
            &self.key,
            operation.payload.as_str(),
            nonce.clone(),
        ) {
            Ok(encrypted) => encrypted,
            Err(error) => return Err(StoreError::Crypto(error)),
        };
        if self.knows_operation(operation.id) {
            return Err(StoreError::Sql("UNIQUE constraint failed: sync_operations.id".to_owned()));
        }
        let row = OperationRow {
            id: operation.id,
            kind: operation.kind.clone(),
            ciphertext: encrypted.ciphertext,
            nonce: encrypted.nonce,
            created_at: operation.created_at,
        };
        proof {
            lemma_views_push(self.operations@, row);
        }
        self.operations.push(row);
        Ok(())
    }

    pub(crate) fn log_change(
        &mut self,
        change: &Change<String>,
        fresh: &Fresh,
    ) -> (r: Result<(), StoreError>)
        ensures
            final(self)@ == old(self)@.logged(change@, fresh@).0,
            unit_view(r) == old(self)@.logged(change@, fresh@).1,
            keeps(old(self)@, final(self)@),
            r is Ok ==> final(self)@.has_logged(change@, fresh@),
    {
        proof {
            use_type_invariant(fresh);
        }
        let operation = SyncOperation {
            id: fresh.operation_id,
            kind: change.kind(),
            payload: change.payload(),
            created_at: fresh.operation_time,
        };
        proof {
            law_change_survives_transport(change@);
            lemma_recorded(self@, operation@, fresh.operation_nonce@);
        }
        self.record_operation(&operation, &fresh.operation_nonce)
    }
}

fn copies(rows: &Vec<Record>) -> (r: Vec<Record>)
    ensures
        views(r@) == views(rows@),
{
    let mut out: Vec<Record> = Vec::new();
    let mut i: usize = 0;
    while i < rows.len()
        invariant
            i <= rows.len(),
            out.len() == i,
            forall|j: int| 0 <= j < i ==> (#[trigger] out@[j])@ == rows@[j]@,
        decreases rows.len() - i,
    {
        out.push(
            Record {
                id: rows[i].id,
                name: rows[i].name.clone(),
                description: rows[i].description.clone(),
                created_at: rows[i].created_at,
                updated_at: rows[i].updated_at,
            },
        );
        i = i + 1;
    }
    assert(views(out@) =~= views(rows@));
    out
}

proof fn lemma_filter_map_last<A, B>(
    list: Seq<A>,
    kept: spec_fn(A) -> bool,
    f: spec_fn(A) -> B,
)
    requires
        list.len() > 0,
    ensures
        list.filter(kept).map_values(f) == if kept(list.last()) {
            list.drop_last().filter(kept).map_values(f).push(f(list.last()))
        } else {
            list.drop_last().filter(kept).map_values(f)
        },
{
    lemma_filter_last(list, kept);
    let rest = list.drop_last().filter(kept);
    assert(rest.push(list.last()).map_values(f) =~= rest.map_values(f).push(f(list.last())));
}

impl Store {
    pub(crate) fn secret_ids_for(&self, project_id: Id) -> (r: Vec<Id>)
        ensures
            r@ == self@.secret_ids(project_id),
    {
        let ghost all = self@.assignments;
        let ghost kept = |a: AssignmentRow| a.project_id == project_id;
        let ghost part = |a: AssignmentRow| a.secret_id;
        let mut ids: Vec<Id> = Vec::new();
        let mut i: usize = 0;
        proof {
            reveal(Seq::filter);
            assert(ids@ =~= all.take(0).filter(kept).map_values(part));
        }
        while i < self.assignments.len()
            invariant
                i <= self.assignments.len(),
                all == views(self.assignments@),
                kept == (|a: AssignmentRow| a.project_id == project_id),
                part == (|a: AssignmentRow| a.secret_id),
                ids@ == all.take(i as int).filter(kept).map_values(part),
            decreases self.assignments.len() - i,
        {
            proof {
                assert(all.take(i + 1).drop_last() =~= all.take(i as int));
                assert(all.take(i + 1).last() == self.assignments@[i as int]);
                lemma_filter_map_last(all.take(i + 1), kept, part);
            }
            if self.assignments[i].project_id == project_id {
                ids.push(self.assignments[i].secret_id);
            }
            i = i + 1;
        }
        assert(all.take(i as int) =~= all);
        assert(views(ids@) =~= ids@);
        let sorted = sort(ids);
        assert(views(sorted@) =~= sorted@);
        sorted
    }

    pub(crate) fn project_ids_for(&self, secret_id: Id) -> (r: Vec<Id>)
        ensures
            r@ == self@.project_ids(secret_id),
    {
        let ghost all = self@.assignments;
        let ghost kept = |a: AssignmentRow| a.secret_id == secret_id;
        let ghost part = |a: AssignmentRow| a.project_id;
        let mut ids: Vec<Id> = Vec::new();
        let mut i: usize = 0;
        proof {
            reveal(Seq::filter);
            assert(ids@ =~= all.take(0).filter(kept).map_values(part));
        }
        while i < self.assignments.len()
            invariant
                i <= self.assignments.len(),
                all == views(self.assignments@),
                kept == (|a: AssignmentRow| a.secret_id == secret_id),
                part == (|a: AssignmentRow| a.project_id),
                ids@ == all.take(i as int).filter(kept).map_values(part),
            decreases self.assignments.len() - i,
        {
            proof {
                assert(all.take(i + 1).drop_last() =~= all.take(i as int));
                assert(all.take(i + 1).last() == self.assignments@[i as int]);
                lemma_filter_map_last(all.take(i + 1), kept, part);
            }
            if self.assignments[i].secret_id == secret_id {
                ids.push(self.assignments[i].project_id);
            }
            i = i + 1;
        }
        assert(all.take(i as int) =~= all);
        assert(views(ids@) =~= ids@);
        let sorted = sort(ids);
        assert(views(sorted@) =~= sorted@);
        sorted
    }

    pub(crate) fn project_of(&self, row: &Record) -> (r: Project)
        ensures
            r@ == self@.project(row@),
    {
        Project {
            id: row.id,
            name: row.name.clone(),
            description: row.description.clone(),
            assigned_secret_ids: self.secret_ids_for(row.id),
            created_at: row.created_at,
            updated_at: row.updated_at,
        }
    }

    pub(crate) fn environment_of(&self, row: &Record) -> (r: Environment)
        ensures
            r@ == self@.environment(row@),
    {
        Environment {
            id: row.id,
            name: row.name.clone(),
            description: row.description.clone(),
            created_at: row.created_at,
            updated_at: row.updated_at,
        }
    }

    pub(crate) fn secret_of(&self, row: &Record) -> (r: Secret)
        ensures
            r@ == self@.secret(row@),
    {
        Secret {
            id: row.id,
            key: row.name.clone(),
            description: row.description.clone(),
            assigned_project_ids: self.project_ids_for(row.id),
            created_at: row.created_at,
            updated_at: row.updated_at,
        }
    }

    pub(crate) fn sorted_rows(&self, table: Table) -> (r: Vec<Record>)
        ensures
            views(r@) == self@.listed(table),
    {
        sort(copies(self.rows(table)))
    }

    pub(crate) fn count_values(&self, environment_id: Id) -> (r: usize)
        ensures
            r == self@.variant_count(environment_id),
    {
        let ghost all = self@.variants;
        let ghost kept = |v: VariantRowView| v.environment_id == environment_id;
        let mut count: usize = 0;
        let mut i: usize = 0;
        proof {
            reveal(Seq::filter);
            assert(all.take(0).filter(kept).len() == 0);
        }
        while i < self.variants.len()
            invariant
                i <= self.variants.len(),
                count <= i,
                all == views(self.variants@),
                kept == (|v: VariantRowView| v.environment_id == environment_id),
                count == all.take(i as int).filter(kept).len(),
            decreases self.variants.len() - i,
        {
            proof {
                assert(all.take(i + 1).drop_last() =~= all.take(i as int));
                assert(all.take(i + 1).last() == self.variants@[i as int]@);
                lemma_filter_last(all.take(i + 1), kept);
            }
            if self.variants[i].environment_id == environment_id {
                count = count + 1;
            }
            i = i + 1;
        }
        assert(all.take(i as int) =~= all);
        count
    }

    pub(crate) fn variant_row(&self, secret_id: Id, environment_id: Id) -> (r: Option<&VariantRow>)
        ensures
            match r {
                Some(row) => self@.variant(secret_id, environment_id) == Some(row@),
                None => self@.variant(secret_id, environment_id) is None,
            },
    {
        match find_variant(&self.variants, secret_id, environment_id) {
            Some(i) => Some(&self.variants[i]),
            None => None,
        }
    }

    pub(crate) fn open_text(&self, nonce: &Vec<u8>, ciphertext: &Vec<u8>) -> (r: Result<
        String,
        StoreError,
    >)
        ensures
            result_view(r) == self@.opened(nonce@, ciphertext@),
    {
        match decrypt_value(&self.key, ciphertext.as_slice(), nonce.as_slice()) {
            Ok(text) => Ok(text),
            Err(error) => Err(StoreError::Crypto(error)),
        }
    }

    fn open_variant(&self, row: &VariantRow) -> (r: Result<SecretVariant, StoreError>)
        ensures
            result_view(r) == self@.variant_opened(row@),
    {
        match self.open_text(&row.nonce, &row.ciphertext) {
            Err(error) => Err(error),
            Ok(value) => Ok(
                SecretVariant {
                    id: row.id,
                    secret_id: row.secret_id,
                    environment_id: row.environment_id,
                    value,
                    created_at: row.created_at,
                    updated_at: row.updated_at,
                },
            ),
        }
    }

    fn open_operation(&self, row: &OperationRow) -> (r: Result<SyncOperation, StoreError>)
        ensures
            result_view(r) == self@.operation_opened(row@),
    {
        match self.open_text(&row.nonce, &row.ciphertext) {
            Err(error) => Err(error),
            Ok(payload) => Ok(
                SyncOperation {
                    id: row.id,
                    kind: row.kind.clone(),
                    payload,
                    created_at: row.created_at,
                },
            ),
        }
    }

    fn variants_of(&self, secret_id: Id) -> (r: Vec<VariantRow>)
        ensures
            views(r@) == self@.variants.filter(|v: VariantRowView| v.secret_id == secret_id),
    {
        let ghost all = self@.variants;
        let ghost kept = |v: VariantRowView| v.secret_id == secret_id;
        let mut out: Vec<VariantRow> = Vec::new();
        let mut i: usize = 0;
        proof {
            reveal(Seq::filter);
            assert(views(out@) =~= all.take(0).filter(kept));
        }
        while i < self.variants.len()
            invariant
                i <= self.variants.len(),
                all == views(self.variants@),
                kept == (|v: VariantRowView| v.secret_id == secret_id),
                views(out@) == all.take(i as int).filter(kept),
            decreases self.variants.len() - i,
        {
            proof {
                assert(all.take(i + 1).drop_last() =~= all.take(i as int));
                assert(all.take(i + 1).last() == self.variants@[i as int]@);
                lemma_filter_last(all.take(i + 1), kept);
            }
            let row = &self.variants[i];
            if row.secret_id == secret_id {
                let copy = VariantRow {
                    id: row.id,
                    secret_id: row.secret_id,
                    environment_id: row.environment_id,
                    ciphertext: row.ciphertext.clone(),
                    nonce: row.nonce.clone(),
                    created_at: row.created_at,
                    updated_at: row.updated_at,
                };
                proof {
                    lemma_views_push(out@, copy);
                }
                out.push(copy);
            }
            i = i + 1;
        }
        assert(all.take(i as int) =~= all);
        out
    }

    pub(crate) fn open_variants(&self, secret_id: Id) -> (r: Result<Vec<SecretVariant>, StoreError>)
        ensures
            list_view(r) == collected(
                ordered(
                    self@.variants.filter(|v: VariantRowView| v.secret_id == secret_id),
                    environment_order(),
                ),
                |v: VariantRowView| self@.variant_opened(v),
            ),
    {
        let rows = sort(self.variants_of(secret_id));
        let ghost all = views(rows@);
        let ghost step = |v: VariantRowView| self@.variant_opened(v);
        let mut out: Vec<SecretVariant> = Vec::new();
        let mut i: usize = 0;
        assert(views(out@) =~= Seq::empty());
        while i < rows.len()
            invariant
                i <= rows.len(),
                all == views(rows@),
                step == (|v: VariantRowView| self@.variant_opened(v)),
                collected(all.take(i as int), step) == Ok::<Seq<SecretVariantView>, StoreErrorView>(
                    views(out@),
                ),
                all == ordered(
                    self@.variants.filter(|v: VariantRowView| v.secret_id == secret_id),
                    environment_order(),
                ),
            decreases rows.len() - i,
        {
            proof {
                assert(all.take(i + 1).drop_last() =~= all.take(i as int));
                assert(all.take(i + 1).last() == rows@[i as int]@);
            }
            match self.open_variant(&rows[i]) {
                Ok(variant) => {
                    proof {
                        lemma_views_push(out@, variant);
                    }
                    out.push(variant);
                },
                Err(error) => {
                    proof {
                        lemma_collected_prefix(all, i + 1, step);
                    }
                    return Err(error);
                },
            }
            i = i + 1;
        }
        assert(all.take(i as int) =~= all);
        Ok(out)
    }

    fn sorted_log(&self) -> (r: Vec<OperationRow>)
        ensures
            views(r@) == ordered(self@.operations, log_order()),
    {
        let mut out: Vec<OperationRow> = Vec::new();
        let mut i: usize = 0;
        while i < self.operations.len()
            invariant
                i <= self.operations.len(),
                out.len() == i,
                forall|j: int| 0 <= j < i ==> (#[trigger] out@[j])@ == self.operations@[j]@,
            decreases self.operations.len() - i,
        {
            let row = &self.operations[i];
            out.push(
                OperationRow {
                    id: row.id,
                    kind: row.kind.clone(),
                    ciphertext: row.ciphertext.clone(),
                    nonce: row.nonce.clone(),
                    created_at: row.created_at,
                },
            );
            i = i + 1;
        }
        assert(views(out@) =~= self@.operations);
        sort(out)
    }

    /// The logged operations in the order in which they were made.
    pub fn list_sync_operations(&self) -> (r: Result<Vec<SyncOperation>, StoreError>)
        ensures
            list_view(r) == self@.log(),
    {
        let rows = self.sorted_log();
        let ghost all = views(rows@);
        let ghost step = |row: OperationRowView| self@.operation_opened(row);
        let mut out: Vec<SyncOperation> = Vec::new();
        let mut i: usize = 0;
        assert(views(out@) =~= Seq::empty());
        while i < rows.len()
            invariant
                i <= rows.len(),
                all == views(rows@),
                all == ordered(self@.operations, log_order()),
                step == (|row: OperationRowView| self@.operation_opened(row)),
                collected(all.take(i as int), step) == Ok::<Seq<SyncOperationView>, StoreErrorView>(
                    views(out@),
                ),
            decreases rows.len() - i,
        {
            proof {
                assert(all.take(i + 1).drop_last() =~= all.take(i as int));
                assert(all.take(i + 1).last() == rows@[i as int]@);
            }
            match self.open_operation(&rows[i]) {
                Ok(operation) => {
                    proof {
                        lemma_views_push(out@, operation);
                    }
                    out.push(operation);
                },
                Err(error) => {
                    proof {
                        lemma_collected_prefix(all, i + 1, step);
                    }
                    return Err(error);
                },
            }
            i = i + 1;
        }
        assert(all.take(i as int) =~= all);
        Ok(out)
    }

    /// How many operations are logged, and the latest of them.
    pub fn sync_status(&self) -> (r: Result<SyncStatus, StoreError>)
        ensures
            result_view(r) == self@.status(),
    {
        let rows = self.sorted_log();
        proof {
            lemma_ordered(self@.operations, log_order());
        }
        if rows.len() == 0 {
            return Ok(SyncStatus { operation_count: 0, latest_operation: None });
        }
        match self.open_operation(&rows[rows.len() - 1]) {
            Ok(latest) => Ok(
                SyncStatus { operation_count: rows.len(), latest_operation: Some(latest) },
            ),
            Err(error) => Err(error),
        }
    }
}

} // verus!
