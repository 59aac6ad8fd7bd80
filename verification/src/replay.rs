//! Replaying operations of other devices. What is known already is skipped, and of two updates
//! of a value, each a setting or a removal, the later one decides.

use crate::change::{change_read, Change, ChangeView};
use crate::crypto::{sealed_text, stands_for};
use crate::error::{StoreError, StoreErrorView};
use crate::ids::Id;
use crate::model::lemma_variant_after_set;
use crate::order::{lemma_ordered, lemma_views_push, ordered, sort, views};
use crate::registry::{count_view, unit_view};
use crate::requests::lemma_found_id;
use crate::store::{settled, Fresh, FreshView, Outcome, Store};
use crate::tables::{
    lemma_named_some, operation_order, Record, RecordView, StoreView, SyncOperation,
    SyncOperationView, Table,
};
use crate::text::opt_text;
use crate::time::Timestamp;
use crate::wellformed::{
    keeps, lemma_assignment_ended, lemma_assignment_made, lemma_described, lemma_inserted,
    lemma_recorded, lemma_removal_noted, lemma_removed, lemma_renamed, lemma_value_set, lemma_value_unset,
};
use vstd::prelude::*;

verus! {

impl StoreView {
    /// The outcome of replaying an addition: a name that is in use stays as it is.
    pub open spec fn addition_replayed(
        self,
        table: Table,
        name: Seq<char>,
        description: Option<Seq<char>>,
        time: Timestamp,
        id: Id,
    ) -> Outcome<()> {
        if self.record(table, name) is Some {
            (self, Ok(()))
        } else {
            settled(
                self,
                self.inserted(
                    table,
                    RecordView { id, name, description, created_at: time, updated_at: time },
                ),
            )
        }
    }

    /// The store after a renaming is replayed: nothing is renamed to a name that is in use.
    pub open spec fn renaming_replayed(
        self,
        table: Table,
        from: Seq<char>,
        to: Seq<char>,
        time: Timestamp,
    ) -> StoreView {
        if self.record(table, to) is None && self.record(table, from) is Some {
            self.renamed(table, from, to, time)
        } else {
            self
        }
    }

    /// The store after a removal is replayed.
    pub open spec fn removal_replayed(self, table: Table, name: Seq<char>) -> StoreView {
        match self.record(table, name) {
            Some(row) => self.removed(table, name, row.id),
            None => self,
        }
    }

    /// Whether the value of a secret in an environment was set or taken away after a time.
    pub open spec fn outdated(self, secret_id: Id, environment_id: Id, time: Timestamp) -> bool {
        ||| self.variant(secret_id, environment_id) matches Some(row) && time.earlier(
            row.updated_at,
        )
        ||| self.removed_after(secret_id, environment_id, time)
    }

    /// Whether a value that was set at a time counts: the secret and the environment are
    /// there, and the value was neither set nor taken away later.
    pub open spec fn update_due(
        self,
        key: Seq<char>,
        environment: Seq<char>,
        time: Timestamp,
    ) -> bool {
        match (self.record(Table::Secrets, key), self.record(Table::Environments, environment)) {
            (Some(secret), Some(place)) => !self.outdated(secret.id, place.id, time),
            _ => false,
        }
    }

    /// Whether a later state of the store gives the value that a change set, if it was due.
    pub open spec fn reads_back(
        self,
        change: ChangeView,
        time: Timestamp,
        after: StoreView,
    ) -> bool {
        change matches Change::VariantSet { key, environment, value } ==> (self.update_due(
            key,
            environment,
            time,
        ) ==> after.value(key, environment) == Ok::<Option<Seq<char>>, StoreErrorView>(Some(value)))
    }

    /// The outcome of replaying that a value was set: a more recent value stays, and after a
    /// more recent removal there is none.
    pub open spec fn value_replayed(
        self,
        key: Seq<char>,
        environment: Seq<char>,
        value: Seq<char>,
        time: Timestamp,
        fresh: FreshView,
    ) -> Outcome<()> {
        match (self.record(Table::Secrets, key), self.record(Table::Environments, environment)) {
            (Some(secret), Some(place)) => {
                if self.outdated(secret.id, place.id, time) {
                    (self, Ok(()))
                } else {
                    settled(
                        self,
                        self.value_set(secret.id, place.id, value, fresh.id, fresh.nonce, time),
                    )
                }
            },
            _ => (self, Ok(())),
        }
    }

    /// The store after it is replayed that a value was taken away: a more recent value stays.
    /// The time is noted also where there is no value.
    pub open spec fn unsetting_replayed(
        self,
        key: Seq<char>,
        environment: Seq<char>,
        time: Timestamp,
    ) -> StoreView {
        match (self.record(Table::Secrets, key), self.record(Table::Environments, environment)) {
            (Some(secret), Some(place)) => match self.variant(secret.id, place.id) {
                Some(row) if !time.earlier(row.updated_at) => self.value_unset(
                    secret.id,
                    place.id,
                ),
                _ => self,
            }.removal_noted(secret.id, place.id, time),
            _ => self,
        }
    }

    /// The outcome of replaying a change that was made at a given time.
    pub open spec fn change_replayed(
        self,
        change: ChangeView,
        time: Timestamp,
        fresh: FreshView,
    ) -> Outcome<()> {
        match change {
            Change::ProjectAdd { name, description } => self.addition_replayed(
                Table::Projects,
                name,
                description,
                time,
                fresh.id,
            ),
            Change::ProjectRename { from, to } => (
                self.renaming_replayed(Table::Projects, from, to, time),
                Ok(()),
            ),
            Change::ProjectRemove { name } => (
                self.removal_replayed(Table::Projects, name),
                Ok(()),
            ),
            Change::EnvironmentAdd { name, description } => self.addition_replayed(
                Table::Environments,
                name,
                description,
                time,
                fresh.id,
            ),
            Change::EnvironmentRename { from, to } => (
                self.renaming_replayed(Table::Environments, from, to, time),
                Ok(()),
            ),
            Change::EnvironmentRemove { name, .. } => (
                self.removal_replayed(Table::Environments, name),
                Ok(()),
            ),
            Change::SecretAdd { key, description } => self.addition_replayed(
                Table::Secrets,
                key,
                description,
                time,
                fresh.id,
            ),
            Change::SecretRename { from, to } => (
                self.renaming_replayed(Table::Secrets, from, to, time),
                Ok(()),
            ),
            Change::SecretRemove { key } => (self.removal_replayed(Table::Secrets, key), Ok(())),
            Change::SecretDescribe { key, description } => (
                if self.record(Table::Secrets, key) is Some {
                    self.described(Table::Secrets, key, description, time)
                } else {
                    self
                },
                Ok(()),
            ),
            Change::VariantSet { key, environment, value } => self.value_replayed(
                key,
                environment,
                value,
                time,
                fresh,
            ),
            Change::VariantUnset { key, environment } => (
                self.unsetting_replayed(key, environment, time),
                Ok(()),
            ),
            Change::SecretAssign { key, project } => (
                match (self.record(Table::Secrets, key), self.record(Table::Projects, project)) {
                    (Some(secret), Some(owner)) => self.assignment_made(
                        owner.id,
                        secret.id,
                        time,
                    ),
                    _ => self,
                },
                Ok(()),
            ),
            Change::SecretUnassign { key, project } => (
                match (self.record(Table::Secrets, key), self.record(Table::Projects, project)) {
                    (Some(secret), Some(owner)) => self.assignment_ended(owner.id, secret.id),
                    _ => self,
                },
                Ok(()),
            ),
        }
    }

    /// The outcome of replaying an operation; one of an unknown kind changes nothing.
    pub open spec fn operation_replayed(
        self,
        operation: SyncOperationView,
        fresh: FreshView,
    ) -> Outcome<()> {
        match change_read(operation.kind, operation.payload) {
            Err(error) => (self, Err(error)),
            Ok(None) => (self, Ok(())),
            Ok(Some(change)) => self.change_replayed(change, operation.created_at, fresh),
        }
    }

    /// The outcome of importing an operation, and whether it was new.
    pub open spec fn operation_imported(
        self,
        operation: SyncOperationView,
        fresh: FreshView,
    ) -> Outcome<bool> {
        if self.knows(operation.id) {
            (self, Ok(false))
        } else {
            match self.operation_replayed(operation, fresh) {
                (after, Err(error)) => (after, Err(error)),
                (after, Ok(_)) => match after.recorded(operation, fresh.operation_nonce) {
                    Err(error) => (after, Err(error)),
                    Ok(done) => (done, Ok(true)),
                },
            }
        }
    }

    /// Whether an operation that is imported as new is read back: the newest row of the log
    /// gives it, and the secret has the value that it set, if that was due.
    pub open spec fn import_confirmed(
        self,
        operation: SyncOperationView,
        fresh: FreshView,
    ) -> bool {
        let (after, new) = self.operation_imported(operation, fresh);
        new == Ok::<bool, StoreErrorView>(true) ==> {
            &&& after.operations.len() > 0
            &&& after.operation_opened(after.operations.last()) == Ok::<
                SyncOperationView,
                StoreErrorView,
            >(operation)
            &&& change_read(operation.kind, operation.payload) matches Ok(Some(change))
                ==> self.reads_back(change, operation.created_at, after)
        }
    }

    /// Whether every one of a list of operations is read back as it is imported.
    pub open spec fn all_confirmed(
        self,
        operations: Seq<SyncOperationView>,
        fresh: Seq<FreshView>,
    ) -> bool
        decreases operations.len(),
    {
        operations.len() == 0 || {
            &&& self.all_confirmed(operations.drop_last(), fresh)
            &&& self.all_imported(operations.drop_last(), fresh).0.import_confirmed(
                operations.last(),
                fresh[operations.len() - 1],
            )
        }
    }

    /// The outcome of importing operations one after another until one fails, and how many
    /// of them were new.
    pub open spec fn all_imported(
        self,
        operations: Seq<SyncOperationView>,
        fresh: Seq<FreshView>,
    ) -> Outcome<nat>
        decreases operations.len(),
    {
        if operations.len() == 0 {
            (self, Ok(0))
        } else {
            match self.all_imported(operations.drop_last(), fresh) {
                (before, Err(error)) => (before, Err(error)),
                (before, Ok(count)) => match before.operation_imported(
                    operations.last(),
                    fresh[operations.len() - 1],
                ) {
                    (after, Err(error)) => (after, Err(error)),
                    (after, Ok(new)) => (
                        after,
                        Ok(
                            if new {
                                count + 1
                            } else {
                                count
                            },
                        ),
                    ),
                },
            }
        }
    }

    /// The outcome of importing operations in the order in which they were made.
    pub open spec fn operations_imported(
        self,
        operations: Seq<SyncOperationView>,
        fresh: Seq<FreshView>,
    ) -> Outcome<nat> {
        self.all_imported(ordered(operations, operation_order()), fresh)
    }

    /// Whether every one of a list of operations is read back as the list is imported.
    pub open spec fn operations_confirmed(
        self,
        operations: Seq<SyncOperationView>,
        fresh: Seq<FreshView>,
    ) -> bool {
        self.all_confirmed(ordered(operations, operation_order()), fresh)
    }
}

/// A value that was due is read back once it is replayed, if its ciphertext is.
pub proof fn lemma_replayed_value(
    s: StoreView,
    key: Seq<char>,
    environment: Seq<char>,
    value: Seq<char>,
    time: Timestamp,
    fresh: FreshView,
)
    requires
        s.well_formed(),
        s.update_due(key, environment, time),
        s.value_replayed(key, environment, value, time, fresh).1 is Ok,
        stands_for(s.key, fresh.nonce, sealed_text(s.key, fresh.nonce, value), value),
    ensures
        s.value_replayed(key, environment, value, time, fresh).0.value(key, environment) == Ok::<
            Option<Seq<char>>,
            StoreErrorView,
        >(Some(value)),
{
    let secret = s.record(Table::Secrets, key)->0;
    let place = s.record(Table::Environments, environment)->0;
    lemma_variant_after_set(
        s,
        secret.id,
        place.id,
        value,
        fresh.id,
        fresh.nonce,
        time,
        secret.id,
        place.id,
    );
}

/// What fails on the first operations fails on all of them alike.
pub proof fn lemma_import_prefix(
    s: StoreView,
    operations: Seq<SyncOperationView>,
    n: int,
    fresh: Seq<FreshView>,
)
    requires
        0 <= n <= operations.len(),
        s.all_imported(operations.take(n), fresh).1 is Err,
    ensures
        s.all_imported(operations, fresh) == s.all_imported(operations.take(n), fresh),
    decreases operations.len(),
{
    if n == operations.len() {
        assert(operations.take(n) =~= operations);
    } else {
        assert(operations.drop_last().take(n) =~= operations.take(n));
        lemma_import_prefix(s, operations.drop_last(), n, fresh);
    }
}

impl Store {
    fn replay_addition(
        &mut self,
        table: Table,
        name: &String,
        description: &Option<String>,
        time: Timestamp,
        id: Id,
    ) -> (r: Result<(), StoreError>)
        ensures
            final(self)@ == old(self)@.addition_replayed(
                table,
                name@,
                opt_text(*description),
                time,
                id,
            ).0,
            unit_view(r) == old(self)@.addition_replayed(
                table,
                name@,
                opt_text(*description),
                time,
                id,
            ).1,
            keeps(old(self)@, final(self)@),
    {
        if self.find(table, name.as_str()).is_some() {
            return Ok(());
        }
        let row = Record {
            id,
            name: name.clone(),
            description: description.clone(),
            created_at: time,
            updated_at: time,
        };
        proof {
            lemma_inserted(self@, table, row@);
        }
        self.insert_record(table, row)
    }

    fn replay_renaming(&mut self, table: Table, from: &String, to: &String, time: Timestamp)
        ensures
            final(self)@ == old(self)@.renaming_replayed(table, from@, to@, time),
            keeps(old(self)@, final(self)@),
    {
        if self.find(table, to.as_str()).is_none() && self.find(table, from.as_str()).is_some() {
            proof {
                lemma_renamed(self@, table, from@, to@, time);
            }
            self.rename_records(table, from.as_str(), to.as_str(), time);
        }
    }

    fn replay_removal(&mut self, table: Table, name: &String)
        ensures
            final(self)@ == old(self)@.removal_replayed(table, name@),
            keeps(old(self)@, final(self)@),
    {
        let ghost before = self@;
        let found: Option<Id> = match self.find(table, name.as_str()) {
            Some(row) => Some(row.id),
            None => None,
        };
        if let Some(id) = found {
            proof {
                lemma_named_some(before.rows(table), name@);
                lemma_removed(before, table, before.record(table, name@)->0);
            }
            self.remove_record(table, name.as_str(), id);
        }
    }

    fn ids_of(&self, first: Table, name: &String, second: Table, other: &String) -> (r: Option<
        (Id, Id),
    >)
        ensures
            match r {
                Some(ids) => self@.record(first, name@) is Some && self@.record(first, name@)->0.id
                    == ids.0 && self@.record(second, other@) is Some && self@.record(
                    second,
                    other@,
                )->0.id == ids.1,
                None => self@.record(first, name@) is None || self@.record(second, other@) is None,
            },
    {
        match (self.find(first, name.as_str()), self.find(second, other.as_str())) {
            (Some(a), Some(b)) => Some((a.id, b.id)),
            _ => None,
        }
    }

    fn replay_value(
        &mut self,
        key: &String,
        environment: &String,
        value: &String,
        time: Timestamp,
        fresh: &Fresh,
    ) -> (r: Result<(), StoreError>)
        ensures
            final(self)@ == old(self)@.value_replayed(key@, environment@, value@, time, fresh@).0,
            unit_view(r) == old(self)@.value_replayed(key@, environment@, value@, time, fresh@).1,
            keeps(old(self)@, final(self)@),
            old(self)@.well_formed() && old(self)@.update_due(key@, environment@, time) && r is Ok
                ==> final(self)@.value(key@, environment@) == Ok::<
                Option<Seq<char>>,
                StoreErrorView,
            >(Some(value@)),
    {
        let ghost before = self@;
        let (secret_id, environment_id) = match self.ids_of(
            Table::Secrets,
            key,
            Table::Environments,
            environment,
        ) {
            Some(ids) => ids,
            None => return Ok(()),
        };
        let set_later = match self.variant_row(secret_id, environment_id) {
            Some(row) => time.is_earlier(&row.updated_at),
            None => false,
        };
        if set_later || self.has_later_removal(secret_id, environment_id, time) {
            return Ok(());
        }
        proof {
            lemma_found_id(self@, Table::Secrets, key@);
            lemma_found_id(self@, Table::Environments, environment@);
            lemma_value_set(
                self@,
                secret_id,
                environment_id,
                value@,
                fresh@.id,
                fresh@.nonce,
                time,
            );
        }
        let result = self.put_value(
            secret_id,
            environment_id,
            value.as_str(),
            fresh.id(),
            fresh.nonce(),
            time,
        );
        proof {
            if before.well_formed() && result is Ok {
                lemma_replayed_value(before, key@, environment@, value@, time, fresh@);
            }
        }
        result
    }

    fn replay_unsetting(&mut self, key: &String, environment: &String, time: Timestamp)
        ensures
            final(self)@ == old(self)@.unsetting_replayed(key@, environment@, time),
            keeps(old(self)@, final(self)@),
    {
        if let Some((secret_id, environment_id)) = self.ids_of(
            Table::Secrets,
            key,
            Table::Environments,
            environment,
        ) {
            let due = match self.variant_row(secret_id, environment_id) {
                Some(row) => !time.is_earlier(&row.updated_at),
                None => false,
            };
            proof {
                lemma_found_id(self@, Table::Secrets, key@);
                lemma_found_id(self@, Table::Environments, environment@);
            }
            if due {
                proof {
                    lemma_value_unset(self@, secret_id, environment_id);
                }
                self.drop_value(secret_id, environment_id);
            }
            proof {
                lemma_removal_noted(self@, secret_id, environment_id, time);
            }
            self.note_removal(secret_id, environment_id, time);
        }
    }

    /// Replays a change that was made at a given time.
    pub fn replay_change(&mut self, change: &Change<String>, time: Timestamp, fresh: &Fresh) -> (r:
        Result<(), StoreError>)
        ensures
            final(self)@ == old(self)@.change_replayed(change@, time, fresh@).0,
            unit_view(r) == old(self)@.change_replayed(change@, time, fresh@).1,
            keeps(old(self)@, final(self)@),
            old(self)@.well_formed() && r is Ok ==> old(self)@.reads_back(
                change@,
                time,
                final(self)@,
            ),
    {
        match change {
            Change::ProjectAdd { name, description } => self.replay_addition(
                Table::Projects,
                name,
                description,
                time,
                fresh.id(),
            ),
            Change::ProjectRename { from, to } => {
                self.replay_renaming(Table::Projects, from, to, time);
                Ok(())
            },
            Change::ProjectRemove { name } => {
                self.replay_removal(Table::Projects, name);
                Ok(())
            },
            Change::EnvironmentAdd { name, description } => self.replay_addition(
                Table::Environments,
                name,
                description,
                time,
                fresh.id(),
            ),
            Change::EnvironmentRename { from, to } => {
                self.replay_renaming(Table::Environments, from, to, time);
                Ok(())
            },
            Change::EnvironmentRemove { name, .. } => {
                self.replay_removal(Table::Environments, name);
                Ok(())
            },
            Change::SecretAdd { key, description } => self.replay_addition(
                Table::Secrets,
                key,
                description,
                time,
                fresh.id(),
            ),
            Change::SecretRename { from, to } => {
                self.replay_renaming(Table::Secrets, from, to, time);
                Ok(())
            },
            Change::SecretRemove { key } => {
                self.replay_removal(Table::Secrets, key);
                Ok(())
            },
            Change::SecretDescribe { key, description } => {
                if self.find(Table::Secrets, key.as_str()).is_some() {
                    proof {
                        lemma_described(self@, Table::Secrets, key@, opt_text(*description), time);
                    }
                    let text: Option<&str> = match description {
                        Some(text) => Some(text.as_str()),
                        None => None,
                    };
                    self.describe_records(Table::Secrets, key.as_str(), text, time);
                }
                Ok(())
            },
            Change::VariantSet { key, environment, value } => self.replay_value(
                key,
                environment,
                value,
                time,
                fresh,
            ),
            Change::VariantUnset { key, environment } => {
                self.replay_unsetting(key, environment, time);
                Ok(())
            },
            Change::SecretAssign { key, project } => {
                if let Some((secret_id, project_id)) = self.ids_of(
                    Table::Secrets,
                    key,
                    Table::Projects,
                    project,
                ) {
                    proof {
                        lemma_found_id(self@, Table::Secrets, key@);
                        lemma_found_id(self@, Table::Projects, project@);
                        lemma_assignment_made(self@, project_id, secret_id, time);
                    }
                    self.make_assignment(project_id, secret_id, time);
                }
                Ok(())
            },
            Change::SecretUnassign { key, project } => {
                if let Some((secret_id, project_id)) = self.ids_of(
                    Table::Secrets,
                    key,
                    Table::Projects,
                    project,
                ) {
                    proof {
                        lemma_assignment_ended(self@, project_id, secret_id);
                    }
                    self.end_assignment(project_id, secret_id);
                }
                Ok(())
            },
        }
    }

    fn apply_sync_operation(&mut self, operation: &SyncOperation, fresh: &Fresh) -> (r: Result<
        (),
        StoreError,
    >)
        ensures
            final(self)@ == old(self)@.operation_replayed(operation@, fresh@).0,
            unit_view(r) == old(self)@.operation_replayed(operation@, fresh@).1,
            keeps(old(self)@, final(self)@),
            r is Ok ==> change_read(operation@.kind, operation@.payload) is Ok,
            old(self)@.well_formed() && r is Ok ==> (change_read(
                operation@.kind,
                operation@.payload,
            ) matches Ok(Some(change)) ==> old(self)@.reads_back(
                change,
                operation@.created_at,
                final(self)@,
            )),
    {
        match Change::read(operation.kind.as_str(), operation.payload.as_str()) {
            Err(error) => Err(error),
            Ok(None) => Ok(()),
            Ok(Some(change)) => self.replay_change(&change, operation.created_at, fresh),
        }
    }

    /// Imports an operation, with given identifier and nonces for what it writes, and says
    /// whether it was new.
    pub fn import_operation_with(&mut self, operation: &SyncOperation, fresh: &Fresh) -> (r: Result<
        bool,
        StoreError,
    >)
        ensures
            final(self)@ == old(self)@.operation_imported(operation@, fresh@).0,
            match r {
                Ok(new) => old(self)@.operation_imported(operation@, fresh@).1 == Ok::<
                    bool,
                    StoreErrorView,
                >(new),
                Err(error) => old(self)@.operation_imported(operation@, fresh@).1 == Err::<
                    bool,
                    StoreErrorView,
                >(error@),
            },
            keeps(old(self)@, final(self)@),
            old(self)@.well_formed() ==> old(self)@.import_confirmed(operation@, fresh@),
    {
        if self.knows_operation(operation.id) {
            return Ok(false);
        }
        match self.apply_sync_operation(operation, fresh) {
            Err(error) => Err(error),
            Ok(_) => {
                proof {
                    lemma_recorded(self@, operation@, fresh@.operation_nonce);
                }
                match self.record_operation(operation, fresh.operation_nonce()) {
                    Err(error) => Err(error),
                    Ok(_) => Ok(true),
                }
            },
        }
    }

    /// Imports operations in the order in which they were made, with given identifiers and
    /// nonces for what they write, and says how many of them were new.
    pub fn import_operations_with(
        &mut self,
        operations: &[SyncOperation],
        fresh: &Vec<Fresh>,
    ) -> (r: Result<usize, StoreError>)
        requires
            fresh@.len() >= operations@.len(),
        ensures
            final(self)@ == old(self)@.operations_imported(views(operations@), views(fresh@)).0,
            count_view(r) == old(self)@.operations_imported(views(operations@), views(fresh@)).1,
            keeps(old(self)@, final(self)@),
            old(self)@.well_formed() && r is Ok ==> old(self)@.operations_confirmed(
                views(operations@),
                views(fresh@),
            ),
    {
        let ghost before = self@;
        let mut list: Vec<SyncOperation> = Vec::new();
        let mut k: usize = 0;
        while k < operations.len()
            invariant
                k <= operations.len(),
                list.len() == k,
                forall|j: int| 0 <= j < k ==> (#[trigger] list@[j])@ == operations@[j]@,
            decreases operations.len() - k,
        {
            list.push(operations[k].clone());
            k = k + 1;
        }
        assert(views(list@) =~= views(operations@));
        let sorted = sort(list);
        let ghost all = views(sorted@);
        proof {
            lemma_ordered(views(operations@), operation_order());
        }
        let mut imported: usize = 0;
        let mut i: usize = 0;
        assert(all.take(0) =~= Seq::empty());
        while i < sorted.len()
            invariant
                i <= sorted.len(),
                imported <= i,
                sorted.len() <= fresh@.len(),
                all == views(sorted@),
                all == ordered(views(operations@), operation_order()),
                before.all_imported(all.take(i as int), views(fresh@)).0 == self@,
                before.all_imported(all.take(i as int), views(fresh@)).1 == Ok::<
                    nat,
                    StoreErrorView,
                >(imported as nat),
                before == old(self)@,
                keeps(before, self@),
                before.well_formed() ==> before.all_confirmed(all.take(i as int), views(fresh@)),
            decreases sorted.len() - i,
        {
            proof {
                assert(all.take(i + 1).drop_last() =~= all.take(i as int));
                assert(all.take(i + 1).last() == sorted@[i as int]@);
            }
            match self.import_operation_with(&sorted[i], &fresh[i]) {
                Ok(new) => {
                    if new {
                        imported = imported + 1;
                    }
                },
                Err(error) => {
                    proof {
                        lemma_import_prefix(before, all, i + 1, views(fresh@));
                    }
                    return Err(error);
                },
            }
            i = i + 1;
        }
        assert(all.take(i as int) =~= all);
        Ok(imported)
    }

    /// Imports operations of other devices in the order in which they were made and says how
    /// many of them were new.
    pub fn import_sync_operations(&mut self, operations: &[SyncOperation]) -> (r: Result<
        usize,
        StoreError,
    >)
        ensures
            exists|fresh: Seq<FreshView>| #[trigger]
                drawn(fresh, operations@.len()) && final(self)@ == old(self)@.operations_imported(
                    views(operations@),
                    fresh,
                ).0 && count_view(r) == old(self)@.operations_imported(
                    views(operations@),
                    fresh,
                ).1 && (old(self)@.well_formed() && r is Ok ==> old(self)@.operations_confirmed(
                    views(operations@),
                    fresh,
                )),
            keeps(old(self)@, final(self)@),
    {
        let fresh = draw_many(operations.len());
        self.import_operations_with(operations, &fresh)
    }
}

/// Whether there is a set of drawn values for each of a number of operations.
pub open spec fn drawn(fresh: Seq<FreshView>, count: nat) -> bool {
    fresh.len() == count && forall|j: int| 0 <= j < fresh.len() ==> (#[trigger] fresh[j]).valid()
}

/// Draws one more set of identifiers, times and nonces.
pub(crate) fn draw_another(fresh: &mut Vec<Fresh>)
    requires
        drawn(views(old(fresh)@), old(fresh)@.len()),
    ensures
        drawn(views(final(fresh)@), old(fresh)@.len() + 1),
{
    let one = Fresh::draw();
    proof {
        lemma_views_push(fresh@, one);
    }
    fresh.push(one);
}

/// Draws a number of sets of identifiers, times and nonces.
pub(crate) fn draw_many(count: usize) -> (r: Vec<Fresh>)
    ensures
        drawn(views(r@), count as nat),
{
    let mut fresh: Vec<Fresh> = Vec::new();
    while fresh.len() < count
        invariant
            fresh.len() <= count,
            drawn(views(fresh@), fresh@.len()),
        decreases count - fresh.len(),
    {
        draw_another(&mut fresh);
    }
    fresh
}

} // verus!
