//! The tables of the store as values: their rows, what a store is, and the elementary
//! readings and changes of it.

use crate::crypto::{opened_text, sealable, sealed_text};
use crate::domain::{DomainErrorView, EnvironmentView, ProjectView, SecretView};
use crate::error::StoreErrorView;
use crate::ids::Id;
use crate::order::{ordered, Ordered, strict_order};
use crate::text::{comes_before, opt_text, text_before};
use crate::time::Timestamp;
use vstd::prelude::*;

verus! {

/// The tables whose rows have a unique name; the name of a secret is its key.
#[derive(Debug, Clone, Copy, PartialEq, Eq, Structural)]
pub enum Table {
    Projects,
    Environments,
    Secrets,
}

/// A project, an environment or a secret.
#[derive(Debug)]
pub struct Record {
    pub id: Id,
    pub name: String,
    pub description: Option<String>,
    pub created_at: Timestamp,
    pub updated_at: Timestamp,
}

/// `Record` with its texts as character sequences.
pub struct RecordView {
    pub id: Id,
    pub name: Seq<char>,
    pub description: Option<Seq<char>>,
    pub created_at: Timestamp,
    pub updated_at: Timestamp,
}

impl View for Record {
    type V = RecordView;

    open spec fn view(&self) -> RecordView {
        RecordView {
            id: self.id,
            name: self.name@,
            description: opt_text(self.description),
            created_at: self.created_at,
            updated_at: self.updated_at,
        }
    }
}

/// Records by name.
pub open spec fn name_order() -> spec_fn(RecordView, RecordView) -> bool {
    |a: RecordView, b: RecordView| text_before(a.name, b.name)
}

impl Ordered for Record {
    open spec fn order() -> spec_fn(RecordView, RecordView) -> bool {
        name_order()
    }

    fn precedes(&self, other: &Record) -> (r: bool) {
        comes_before(self.name.as_str(), other.name.as_str())
    }
}

/// The encrypted value of a secret in an environment.
#[derive(Debug)]
pub struct VariantRow {
    pub id: Id,
    pub secret_id: Id,
    pub environment_id: Id,
    pub ciphertext: Vec<u8>,
    pub nonce: Vec<u8>,
    pub created_at: Timestamp,
    pub updated_at: Timestamp,
}

/// `VariantRow` with its bytes as sequences.
pub struct VariantRowView {
    pub id: Id,
    pub secret_id: Id,
    pub environment_id: Id,
    pub ciphertext: Seq<u8>,
    pub nonce: Seq<u8>,
    pub created_at: Timestamp,
    pub updated_at: Timestamp,
}

impl View for VariantRow {
    type V = VariantRowView;

    open spec fn view(&self) -> VariantRowView {
        VariantRowView {
            id: self.id,
            secret_id: self.secret_id,
            environment_id: self.environment_id,
            ciphertext: self.ciphertext@,
            nonce: self.nonce@,
            created_at: self.created_at,
            updated_at: self.updated_at,
        }
    }
}

/// That a secret is assigned to a project.
#[derive(Debug, Clone, Copy, PartialEq, Eq, Structural)]
pub struct AssignmentRow {
    pub project_id: Id,
    pub secret_id: Id,
    pub created_at: Timestamp,
}

impl View for AssignmentRow {
    type V = AssignmentRow;

    open spec fn view(&self) -> AssignmentRow {
        *self
    }
}

/// When the value of a secret in an environment was last taken away.
#[derive(Debug, Clone, Copy, PartialEq, Eq, Structural)]
pub struct RemovalRow {
    pub secret_id: Id,
    pub environment_id: Id,
    pub removed_at: Timestamp,
}

impl View for RemovalRow {
    type V = RemovalRow;

    open spec fn view(&self) -> RemovalRow {
        *self
    }
}

/// A logged operation with its payload encrypted.
#[derive(Debug)]
pub struct OperationRow {
    pub id: Id,
    pub kind: String,
    pub ciphertext: Vec<u8>,
    pub nonce: Vec<u8>,
    pub created_at: Timestamp,
}

/// `OperationRow` with its text and bytes as sequences.
pub struct OperationRowView {
    pub id: Id,
    pub kind: Seq<char>,
    pub ciphertext: Seq<u8>,
    pub nonce: Seq<u8>,
    pub created_at: Timestamp,
}

impl View for OperationRow {
    type V = OperationRowView;

    open spec fn view(&self) -> OperationRowView {
        OperationRowView {
            id: self.id,
            kind: self.kind@,
            ciphertext: self.ciphertext@,
            nonce: self.nonce@,
            created_at: self.created_at,
        }
    }
}

/// An operation that devices exchange: the kind and the payload of a change, with the time
/// at which it was made.
#[derive(Debug, PartialEq, Eq)]
pub struct SyncOperation {
    pub id: Id,
    pub kind: String,
    pub payload: String,
    pub created_at: Timestamp,
}

/// `SyncOperation` with its texts as character sequences.
pub struct SyncOperationView {
    pub id: Id,
    pub kind: Seq<char>,
    pub payload: Seq<char>,
    pub created_at: Timestamp,
}

impl View for SyncOperation {
    type V = SyncOperationView;

    open spec fn view(&self) -> SyncOperationView {
        SyncOperationView {
            id: self.id,
            kind: self.kind@,
            payload: self.payload@,
            created_at: self.created_at,
        }
    }
}

impl Clone for SyncOperation {
    fn clone(&self) -> (r: SyncOperation)
        ensures
            r@ == self@,
    {
        SyncOperation {
            id: self.id,
            kind: self.kind.clone(),
            payload: self.payload.clone(),
            created_at: self.created_at,
        }
    }
}

/// How many operations are logged, and the latest of them.
#[derive(Debug, Clone, PartialEq, Eq)]
pub struct SyncStatus {
    pub operation_count: usize,
    pub latest_operation: Option<SyncOperation>,
}

/// `SyncStatus` over the view of its operation.
pub struct SyncStatusView {
    pub operation_count: nat,
    pub latest_operation: Option<SyncOperationView>,
}

impl View for SyncStatus {
    type V = SyncStatusView;

    open spec fn view(&self) -> SyncStatusView {
        SyncStatusView {
            operation_count: self.operation_count as nat,
            latest_operation: match self.latest_operation {
                Some(operation) => Some(operation@),
                None => None,
            },
        }
    }
}

/// By time, and by identifier where times are equal.
pub open spec fn earlier_operation(
    time: Timestamp,
    id: Id,
    other_time: Timestamp,
    other_id: Id,
) -> bool {
    time.earlier(other_time) || (!other_time.earlier(time) && id < other_id)
}

/// Logged operations in the order in which they were made.
pub open spec fn log_order() -> spec_fn(OperationRowView, OperationRowView) -> bool {
    |a: OperationRowView, b: OperationRowView|
        earlier_operation(a.created_at, a.id, b.created_at, b.id)
}

/// Exchanged operations in the order in which they were made.
pub open spec fn operation_order() -> spec_fn(SyncOperationView, SyncOperationView) -> bool {
    |a: SyncOperationView, b: SyncOperationView|
        earlier_operation(a.created_at, a.id, b.created_at, b.id)
}

/// Operations are strictly ordered, in the log and in an exchange.
pub proof fn lemma_operation_order()
    ensures
        strict_order(log_order()),
        strict_order(operation_order()),
{
}

fn is_earlier_operation(time: &Timestamp, id: Id, other_time: &Timestamp, other_id: Id) -> (r: bool)
    ensures
        r == earlier_operation(*time, id, *other_time, other_id),
{
    time.is_earlier(other_time) || (!other_time.is_earlier(time) && id < other_id)
}

impl Ordered for OperationRow {
    open spec fn order() -> spec_fn(OperationRowView, OperationRowView) -> bool {
        log_order()
    }

    fn precedes(&self, other: &OperationRow) -> (r: bool) {
        is_earlier_operation(&self.created_at, self.id, &other.created_at, other.id)
    }
}

impl Ordered for SyncOperation {
    open spec fn order() -> spec_fn(SyncOperationView, SyncOperationView) -> bool {
        operation_order()
    }

    fn precedes(&self, other: &SyncOperation) -> (r: bool) {
        is_earlier_operation(&self.created_at, self.id, &other.created_at, other.id)
    }
}

/// Identifiers by their digits.
pub open spec fn id_order() -> spec_fn(Id, Id) -> bool {
    |a: Id, b: Id| a < b
}

impl Ordered for Id {
    open spec fn order() -> spec_fn(Id, Id) -> bool {
        id_order()
    }

    fn precedes(&self, other: &Id) -> (r: bool) {
        *self < *other
    }
}

/// Values of secrets by environment.
pub open spec fn environment_order() -> spec_fn(VariantRowView, VariantRowView) -> bool {
    |a: VariantRowView, b: VariantRowView| a.environment_id < b.environment_id
}

impl Ordered for VariantRow {
    open spec fn order() -> spec_fn(VariantRowView, VariantRowView) -> bool {
        environment_order()
    }

    fn precedes(&self, other: &VariantRow) -> (r: bool) {
        self.environment_id < other.environment_id
    }
}

/// A store: its tables and the key under which values and payloads are encrypted.
#[verifier::ext_equal]
pub struct StoreView {
    pub key: Seq<u8>,
    pub projects: Seq<RecordView>,
    pub environments: Seq<RecordView>,
    pub secrets: Seq<RecordView>,
    pub variants: Seq<VariantRowView>,
    pub assignments: Seq<AssignmentRow>,
    pub removals: Seq<RemovalRow>,
    pub operations: Seq<OperationRowView>,
}

/// Whether the row at a place is the first of its name.
pub open spec fn first_named(rows: Seq<RecordView>, name: Seq<char>, i: int) -> bool {
    &&& 0 <= i < rows.len()
    &&& rows[i].name == name
    &&& forall|j: int| 0 <= j < i ==> (#[trigger] rows[j]).name != name
}

/// The row of a name.
pub open spec fn named(rows: Seq<RecordView>, name: Seq<char>) -> Option<RecordView> {
    if exists|i: int| first_named(rows, name, i) {
        Some(rows[choose|i: int| first_named(rows, name, i)])
    } else {
        None
    }
}

/// There is at most one first row of a name.
pub proof fn lemma_named(rows: Seq<RecordView>, name: Seq<char>, i: int)
    ensures
        first_named(rows, name, i) ==> named(rows, name) == Some(rows[i]),
        (forall|j: int| 0 <= j < rows.len() ==> (#[trigger] rows[j]).name != name) ==> named(
            rows,
            name,
        ) is None,
{
    if first_named(rows, name, i) {
        let k = choose|k: int| first_named(rows, name, k);
        assert(first_named(rows, name, k));
        if k < i {
            assert(rows[k].name != name);
        } else if i < k {
            assert(rows[i].name != name);
        }
    }
}

/// A name has a row exactly when some row has the name.
pub proof fn lemma_named_some(rows: Seq<RecordView>, name: Seq<char>)
    ensures
        named(rows, name) is Some <==> exists|i: int|
            0 <= i < rows.len() && (#[trigger] rows[i]).name == name,
        named(rows, name) matches Some(row) ==> row.name == name && rows.contains(row),
    decreases rows.len(),
{
    if rows.len() > 0 {
        let rest = rows.drop_last();
        lemma_named_some(rest, name);
        if exists|i: int| 0 <= i < rest.len() && (#[trigger] rest[i]).name == name {
            let k = choose|k: int| first_named(rest, name, k);
            assert(first_named(rest, name, k));
            assert(first_named(rows, name, k)) by {
                assert forall|j: int| 0 <= j < k implies (#[trigger] rows[j]).name != name by {
                    assert(rest[j] == rows[j]);
                }
            }
            lemma_named(rows, name, k);
            assert(rows[k].name == name);
        } else if rows.last().name == name {
            let k = rows.len() - 1;
            assert(first_named(rows, name, k)) by {
                assert forall|j: int| 0 <= j < k implies (#[trigger] rows[j]).name != name by {
                    assert(rest[j] == rows[j]);
                }
            }
            lemma_named(rows, name, k);
            assert(rows[k].name == name);
        } else {
            assert forall|j: int| 0 <= j < rows.len() implies (#[trigger] rows[j]).name != name by {
                if j < rest.len() {
                    assert(rest[j] == rows[j]);
                }
            }
            lemma_named(rows, name, 0);
        }
    } else {
        lemma_named(rows, name, 0);
    }
}

/// Whether an identifier is in use among the rows.
pub open spec fn id_taken(rows: Seq<RecordView>, id: Id) -> bool {
    exists|i: int| 0 <= i < rows.len() && (#[trigger] rows[i]).id == id
}

/// Whether the row at a place is the first for a secret in an environment.
pub open spec fn first_variant(
    rows: Seq<VariantRowView>,
    secret_id: Id,
    environment_id: Id,
    i: int,
) -> bool {
    &&& 0 <= i < rows.len()
    &&& rows[i].secret_id == secret_id
    &&& rows[i].environment_id == environment_id
    &&& forall|j: int|
        0 <= j < i ==> !((#[trigger] rows[j]).secret_id == secret_id && rows[j].environment_id
            == environment_id)
}

/// The row for a secret in an environment.
pub open spec fn variant_of(
    rows: Seq<VariantRowView>,
    secret_id: Id,
    environment_id: Id,
) -> Option<VariantRowView> {
    if exists|i: int| first_variant(rows, secret_id, environment_id, i) {
        Some(rows[choose|i: int| first_variant(rows, secret_id, environment_id, i)])
    } else {
        None
    }
}

/// There is at most one first row for a secret in an environment.
pub proof fn lemma_variant_of(
    rows: Seq<VariantRowView>,
    secret_id: Id,
    environment_id: Id,
    i: int,
)
    ensures
        first_variant(rows, secret_id, environment_id, i) ==> variant_of(
            rows,
            secret_id,
            environment_id,
        ) == Some(rows[i]),
        (forall|j: int|
            0 <= j < rows.len() ==> !((#[trigger] rows[j]).secret_id == secret_id
                && rows[j].environment_id == environment_id)) ==> variant_of(
            rows,
            secret_id,
            environment_id,
        ) is None,
{
    if first_variant(rows, secret_id, environment_id, i) {
        let k = choose|k: int| first_variant(rows, secret_id, environment_id, k);
        assert(first_variant(rows, secret_id, environment_id, k));
        if k < i {
            assert(!(rows[k].secret_id == secret_id && rows[k].environment_id == environment_id));
        } else if i < k {
            assert(!(rows[i].secret_id == secret_id && rows[i].environment_id == environment_id));
        }
    }
}

/// Whether a secret is assigned to a project.
pub open spec fn assigned(rows: Seq<AssignmentRow>, project_id: Id, secret_id: Id) -> bool {
    exists|i: int|
        0 <= i < rows.len() && (#[trigger] rows[i]).project_id == project_id && rows[i].secret_id
            == secret_id
}

/// The name of the unique column that two rows would share.
pub open spec fn id_column(table: Table) -> Seq<char> {
    match table {
        Table::Projects => "UNIQUE constraint failed: projects.id"@,
        Table::Environments => "UNIQUE constraint failed: environments.id"@,
        Table::Secrets => "UNIQUE constraint failed: secrets.id"@,
    }
}

/// The refusal of a name that is in use.
pub open spec fn duplicate(table: Table, name: Seq<char>) -> StoreErrorView {
    StoreErrorView::Domain(
        match table {
            Table::Projects => DomainErrorView::DuplicateProject { project: name },
            Table::Environments => DomainErrorView::DuplicateEnvironment { environment: name },
            Table::Secrets => DomainErrorView::DuplicateSecret { key: name },
        },
    )
}

/// The refusal of a name that has no row.
pub open spec fn not_found(table: Table, name: Seq<char>) -> StoreErrorView {
    StoreErrorView::Domain(
        match table {
            Table::Projects => DomainErrorView::ProjectNotFound(name),
            Table::Environments => DomainErrorView::EnvironmentNotFound(name),
            Table::Secrets => DomainErrorView::SecretNotFound(name),
        },
    )
}

impl StoreView {
    /// The rows of a table.
    pub open spec fn rows(self, table: Table) -> Seq<RecordView> {
        match table {
            Table::Projects => self.projects,
            Table::Environments => self.environments,
            Table::Secrets => self.secrets,
        }
    }

    /// The store with other rows in a table.
    pub open spec fn with_rows(self, table: Table, rows: Seq<RecordView>) -> StoreView {
        match table {
            Table::Projects => StoreView { projects: rows, ..self },
            Table::Environments => StoreView { environments: rows, ..self },
            Table::Secrets => StoreView { secrets: rows, ..self },
        }
    }

    /// The row of a name in a table.
    pub open spec fn record(self, table: Table, name: Seq<char>) -> Option<RecordView> {
        named(self.rows(table), name)
    }

    /// The row of a name in a table, or the refusal.
    pub open spec fn get(
        self,
        table: Table,
        name: Seq<char>,
    ) -> Result<RecordView, StoreErrorView> {
        match self.record(table, name) {
            Some(row) => Ok(row),
            None => Err(not_found(table, name)),
        }
    }

    /// The row for a secret in an environment, by identifiers.
    pub open spec fn variant(self, secret_id: Id, environment_id: Id) -> Option<VariantRowView> {
        variant_of(self.variants, secret_id, environment_id)
    }

    /// The identifiers of the secrets assigned to a project, ascending.
    pub open spec fn secret_ids(self, project_id: Id) -> Seq<Id> {
        ordered(
            self.assignments.filter(|a: AssignmentRow| a.project_id == project_id).map_values(
                |a: AssignmentRow| a.secret_id,
            ),
            id_order(),
        )
    }

    /// The identifiers of the projects that a secret is assigned to, ascending.
    pub open spec fn project_ids(self, secret_id: Id) -> Seq<Id> {
        ordered(
            self.assignments.filter(|a: AssignmentRow| a.secret_id == secret_id).map_values(
                |a: AssignmentRow| a.project_id,
            ),
            id_order(),
        )
    }

    /// A row of the project table as a project.
    pub open spec fn project(self, row: RecordView) -> ProjectView {
        ProjectView {
            id: row.id,
            name: row.name,
            description: row.description,
            assigned_secret_ids: self.secret_ids(row.id),
            created_at: row.created_at,
            updated_at: row.updated_at,
        }
    }

    /// A row of the environment table as an environment.
    pub open spec fn environment(self, row: RecordView) -> EnvironmentView {
        EnvironmentView {
            id: row.id,
            name: row.name,
            description: row.description,
            created_at: row.created_at,
            updated_at: row.updated_at,
        }
    }

    /// A row of the secret table as a secret.
    pub open spec fn secret(self, row: RecordView) -> SecretView {
        SecretView {
            id: row.id,
            key: row.name,
            description: row.description,
            assigned_project_ids: self.project_ids(row.id),
            created_at: row.created_at,
            updated_at: row.updated_at,
        }
    }

    /// How many values are set in an environment.
    pub open spec fn variant_count(self, environment_id: Id) -> nat {
        self.variants.filter(|v: VariantRowView| v.environment_id == environment_id).len()
    }

    /// The text that an encrypted value stands for.
    pub open spec fn opened(self, nonce: Seq<u8>, ciphertext: Seq<u8>) -> Result<
        Seq<char>,
        StoreErrorView,
    > {
        match opened_text(self.key, nonce, ciphertext) {
            Ok(text) => Ok(text),
            Err(error) => Err(StoreErrorView::Crypto(error)),
        }
    }

    /// The value of a secret in an environment.
    pub open spec fn value(self, key: Seq<char>, environment: Seq<char>) -> Result<
        Option<Seq<char>>,
        StoreErrorView,
    > {
        match self.get(Table::Secrets, key) {
            Err(error) => Err(error),
            Ok(secret_row) => match self.get(Table::Environments, environment) {
                Err(error) => Err(error),
                Ok(environment_row) => match self.variant(secret_row.id, environment_row.id) {
                    None => Ok(None),
                    Some(row) => match self.opened(row.nonce, row.ciphertext) {
                        Ok(text) => Ok(Some(text)),
                        Err(error) => Err(error),
                    },
                },
            },
        }
    }

    /// The store with one more row in a table, unless its identifier is in use.
    pub open spec fn inserted(self, table: Table, row: RecordView) -> Result<
        StoreView,
        StoreErrorView,
    > {
        if id_taken(self.rows(table), row.id) {
            Err(StoreErrorView::Sql(id_column(table)))
        } else {
            Ok(self.with_rows(table, self.rows(table).push(row)))
        }
    }

    /// The store after the rows of a name have taken another.
    pub open spec fn renamed(
        self,
        table: Table,
        from: Seq<char>,
        to: Seq<char>,
        time: Timestamp,
    ) -> StoreView {
        self.with_rows(
            table,
            self.rows(table).map_values(
                |row: RecordView|
                    if row.name == from {
                        RecordView { name: to, updated_at: time, ..row }
                    } else {
                        row
                    },
            ),
        )
    }

    /// The store after the rows of a name have taken another description.
    pub open spec fn described(
        self,
        table: Table,
        name: Seq<char>,
        description: Option<Seq<char>>,
        time: Timestamp,
    ) -> StoreView {
        self.with_rows(
            table,
            self.rows(table).map_values(
                |row: RecordView|
                    if row.name == name {
                        RecordView { description, updated_at: time, ..row }
                    } else {
                        row
                    },
            ),
        )
    }

    /// The store without the row of a name, and without what refers to its identifier.
    pub open spec fn removed(self, table: Table, name: Seq<char>, id: Id) -> StoreView {
        let kept = self.with_rows(table, self.rows(table).filter(|r: RecordView| r.name != name));
        match table {
            Table::Projects => StoreView {
                assignments: self.assignments.filter(|a: AssignmentRow| a.project_id != id),
                ..kept
            },
            Table::Environments => StoreView {
                variants: self.variants.filter(|v: VariantRowView| v.environment_id != id),
                removals: self.removals.filter(|r: RemovalRow| r.environment_id != id),
                ..kept
            },
            Table::Secrets => StoreView {
                variants: self.variants.filter(|v: VariantRowView| v.secret_id != id),
                assignments: self.assignments.filter(|a: AssignmentRow| a.secret_id != id),
                removals: self.removals.filter(|r: RemovalRow| r.secret_id != id),
                ..kept
            },
        }
    }

    /// The store after a value was set for a secret in an environment: the row that is there
    /// takes it, or a new row does, unless its identifier is in use.
    pub open spec fn value_set(
        self,
        secret_id: Id,
        environment_id: Id,
        value: Seq<char>,
        id: Id,
        nonce: Seq<u8>,
        time: Timestamp,
    ) -> Result<StoreView, StoreErrorView> {
        let ciphertext = sealed_text(self.key, nonce, value);
        if !sealable(value) {
            Err(StoreErrorView::Crypto(crate::crypto::CryptoErrorView::Encrypt))
        } else if self.variant(secret_id, environment_id) is Some {
            Ok(
                StoreView {
                    variants: self.variants.map_values(
                        |row: VariantRowView|
                            if row.secret_id == secret_id && row.environment_id == environment_id {
                                VariantRowView { ciphertext, nonce, updated_at: time, ..row }
                            } else {
                                row
                            },
                    ),
                    ..self
                },
            )
        } else if exists|i: int|
            0 <= i < self.variants.len() && (#[trigger] self.variants[i]).id == id {
            Err(StoreErrorView::Sql("UNIQUE constraint failed: secret_variants.id"@))
        } else {
            Ok(
                StoreView {
                    variants: self.variants.push(
                        VariantRowView {
                            id,
                            secret_id,
                            environment_id,
                            ciphertext,
                            nonce,
                            created_at: time,
                            updated_at: time,
                        },
                    ),
                    ..self
                },
            )
        }
    }

    /// The store without a value for a secret in an environment.
    pub open spec fn value_unset(self, secret_id: Id, environment_id: Id) -> StoreView {
        StoreView {
            variants: self.variants.filter(
                |v: VariantRowView|
                    !(v.secret_id == secret_id && v.environment_id == environment_id),
            ),
            ..self
        }
    }

    /// Whether the value of a secret in an environment was taken away after a time.
    pub open spec fn removed_after(
        self,
        secret_id: Id,
        environment_id: Id,
        time: Timestamp,
    ) -> bool {
        exists|i: int|
            0 <= i < self.removals.len() && (#[trigger] self.removals[i]).secret_id == secret_id
                && self.removals[i].environment_id == environment_id && time.earlier(
                self.removals[i].removed_at,
            )
    }

    /// The store with the time noted at which the value of a secret in an environment was
    /// taken away. The latest such time is kept.
    pub open spec fn removal_noted(
        self,
        secret_id: Id,
        environment_id: Id,
        time: Timestamp,
    ) -> StoreView {
        if self.removed_after(secret_id, environment_id, time) {
            self
        } else {
            StoreView {
                removals: self.removals.filter(
                    |r: RemovalRow|
                        !(r.secret_id == secret_id && r.environment_id == environment_id),
                ).push(RemovalRow { secret_id, environment_id, removed_at: time }),
                ..self
            }
        }
    }

    /// The store with a secret assigned to a project; an assignment that is there stays.
    pub open spec fn assignment_made(
        self,
        project_id: Id,
        secret_id: Id,
        time: Timestamp,
    ) -> StoreView {
        if assigned(self.assignments, project_id, secret_id) {
            self
        } else {
            StoreView {
                assignments: self.assignments.push(
                    AssignmentRow { project_id, secret_id, created_at: time },
                ),
                ..self
            }
        }
    }

    /// The store with a secret not assigned to a project.
    pub open spec fn assignment_ended(self, project_id: Id, secret_id: Id) -> StoreView {
        StoreView {
            assignments: self.assignments.filter(
                |a: AssignmentRow| !(a.project_id == project_id && a.secret_id == secret_id),
            ),
            ..self
        }
    }

    /// Whether an operation is logged.
    pub open spec fn knows(self, id: Id) -> bool {
        exists|i: int| 0 <= i < self.operations.len() && (#[trigger] self.operations[i]).id == id
    }

    /// The store with one more operation in its log, unless its identifier is there.
    pub open spec fn recorded(self, operation: SyncOperationView, nonce: Seq<u8>) -> Result<
        StoreView,
        StoreErrorView,
    > {
        if !sealable(operation.payload) {
            Err(StoreErrorView::Crypto(crate::crypto::CryptoErrorView::Encrypt))
        } else if self.knows(operation.id) {
            Err(StoreErrorView::Sql("UNIQUE constraint failed: sync_operations.id"@))
        } else {
            Ok(
                StoreView {
                    operations: self.operations.push(
                        OperationRowView {
                            id: operation.id,
                            kind: operation.kind,
                            ciphertext: sealed_text(self.key, nonce, operation.payload),
                            nonce,
                            created_at: operation.created_at,
                        },
                    ),
                    ..self
                },
            )
        }
    }
}

} // verus!
