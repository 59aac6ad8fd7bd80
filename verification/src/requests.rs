//! The requests to the store. Each change comes in two forms: one that is given its
//! identifiers, times and nonces, and one that draws them.

use crate::change::Change;
use crate::domain::{
    DomainError, Environment, EnvironmentView, Project, ProjectView, Secret, SecretVariant,
    SecretVariantView, SecretView,
};
use crate::error::{StoreError, StoreErrorView};
use crate::ids::Id;
use crate::model::{lemma_variant_after_set, lemma_variant_kept, lemma_variant_some};
use crate::order::views;
use crate::registry::{result_view, unit_view, SecretRegistry};
use crate::store::{
    addition, answered, duplicate_error, removal, renaming, Fresh, FreshView, Store,
};
use crate::tables::{
    id_taken, lemma_named_some, Record, RecordView, StoreView, Table, VariantRowView,
};
use crate::text::{opt_str, owned};
use crate::wellformed::{
    keeps, lemma_assignment_ended, lemma_assignment_made, lemma_described, lemma_inserted,
    lemma_removal_noted, lemma_removed, lemma_renamed, lemma_value_set, lemma_value_unset,
};
use vstd::prelude::*;

verus! {

fn addition_of(table: Table, name: &str, description: Option<&str>) -> (r: Change<String>)
    ensures
        r@ == addition(table, name@, opt_str(description)),
{
    match table {
        Table::Projects => Change::ProjectAdd {
            name: name.to_owned(),
            description: owned(description),
        },
        Table::Environments => Change::EnvironmentAdd {
            name: name.to_owned(),
            description: owned(description),
        },
        Table::Secrets => Change::SecretAdd {
            key: name.to_owned(),
            description: owned(description),
        },
    }
}

fn renaming_of(table: Table, from: &str, to: &str) -> (r: Change<String>)
    ensures
        r@ == renaming(table, from@, to@),
{
    match table {
        Table::Projects => Change::ProjectRename { from: from.to_owned(), to: to.to_owned() },
        Table::Environments => Change::EnvironmentRename {
            from: from.to_owned(),
            to: to.to_owned(),
        },
        Table::Secrets => Change::SecretRename { from: from.to_owned(), to: to.to_owned() },
    }
}

fn removal_of(table: Table, name: &str, force: bool) -> (r: Change<String>)
    ensures
        r@ == removal(table, name@, force),
{
    match table {
        Table::Projects => Change::ProjectRemove { name: name.to_owned() },
        Table::Environments => Change::EnvironmentRemove { name: name.to_owned(), force },
        Table::Secrets => Change::SecretRemove { key: name.to_owned() },
    }
}

/// The identifier of a row that is found is in use.
pub proof fn lemma_found_id(s: StoreView, table: Table, name: Seq<char>)
    ensures
        s.record(table, name) matches Some(row) ==> id_taken(s.rows(table), row.id),
{
    lemma_named_some(s.rows(table), name);
    if s.record(table, name) is Some {
        let row = s.record(table, name)->0;
        let i = choose|i: int| 0 <= i < s.rows(table).len() && s.rows(table)[i] == row;
        assert(s.rows(table)[i].id == row.id);
    }
}

impl Store {
    fn add_record(
        &mut self,
        table: Table,
        name: &str,
        description: Option<&str>,
        fresh: &Fresh,
    ) -> (r: Result<(), StoreError>)
        ensures
            final(self)@ == old(self)@.record_added(
                table,
                name@,
                opt_str(description),
                fresh@,
            ).0,
            unit_view(r) == old(self)@.record_added(table, name@, opt_str(description), fresh@).1,
            keeps(old(self)@, final(self)@),
            r is Ok ==> final(self)@.has_logged(
                addition(table, name@, opt_str(description)),
                fresh@,
            ),
    {
        if self.find(table, name).is_some() {
            return Err(duplicate_error(table, name));
        }
        let row = Record {
            id: fresh.id(),
            name: name.to_owned(),
            description: owned(description),
            created_at: fresh.time(),
            updated_at: fresh.time(),
        };
        proof {
            lemma_inserted(self@, table, row@);
        }
        match self.insert_record(table, row) {
            Err(error) => Err(error),
            Ok(_) => self.log_change(&addition_of(table, name, description), fresh),
        }
    }

    fn rename_record(&mut self, table: Table, from: &str, to: &str, fresh: &Fresh) -> (r: Result<
        (),
        StoreError,
    >)
        ensures
            final(self)@ == old(self)@.record_renamed(table, from@, to@, fresh@).0,
            unit_view(r) == old(self)@.record_renamed(table, from@, to@, fresh@).1,
            keeps(old(self)@, final(self)@),
            r is Ok ==> final(self)@.has_logged(renaming(table, from@, to@), fresh@),
    {
        if let Err(error) = self.seek(table, from) {
            return Err(error);
        }
        if self.find(table, to).is_some() {
            return Err(duplicate_error(table, to));
        }
        proof {
            lemma_renamed(self@, table, from@, to@, fresh@.time);
        }
        self.rename_records(table, from, to, fresh.time());
        self.log_change(&renaming_of(table, from, to), fresh)
    }

    fn remove_named(&mut self, table: Table, name: &str, fresh: &Fresh) -> (r: Result<
        (),
        StoreError,
    >)
        ensures
            final(self)@ == old(self)@.record_removed(table, name@, fresh@).0,
            unit_view(r) == old(self)@.record_removed(table, name@, fresh@).1,
            keeps(old(self)@, final(self)@),
            r is Ok ==> final(self)@.has_logged(removal(table, name@, false), fresh@),
    {
        let ghost before = self@;
        let id: Id = match self.seek(table, name) {
            Err(error) => return Err(error),
            Ok(row) => row.id,
        };
        proof {
            lemma_named_some(before.rows(table), name@);
            lemma_removed(before, table, before.record(table, name@)->0);
        }
        self.remove_record(table, name, id);
        self.log_change(&removal_of(table, name, false), fresh)
    }

    /// Adds a project.
    pub fn add_project_with(
        &mut self,
        name: &str,
        description: Option<&str>,
        fresh: &Fresh,
    ) -> (r: Result<Project, StoreError>)
        ensures
            final(self)@ == old(self)@.record_added(
                Table::Projects,
                name@,
                opt_str(description),
                fresh@,
            ).0,
            result_view(r) == answered(
                old(self)@.record_added(Table::Projects, name@, opt_str(description), fresh@).1,
                final(self)@.project_named(name@),
            ),
            keeps(old(self)@, final(self)@),
            old(self)@.record_added(
                Table::Projects,
                name@,
                opt_str(description),
                fresh@,
            ).1 is Ok ==> final(self)@.has_logged(
                addition(Table::Projects, name@, opt_str(description)),
                fresh@,
            ),
    {
        match self.add_record(Table::Projects, name, description, fresh) {
            Err(error) => Err(error),
            Ok(_) => self.get_project(name),
        }
    }

    /// Renames a project.
    pub fn rename_project_with(
        &mut self,
        old_name: &str,
        new_name: &str,
        fresh: &Fresh,
    ) -> (r: Result<Project, StoreError>)
        ensures
            final(self)@ == old(self)@.record_renamed(
                Table::Projects,
                old_name@,
                new_name@,
                fresh@,
            ).0,
            result_view(r) == answered(
                old(self)@.record_renamed(Table::Projects, old_name@, new_name@, fresh@).1,
                final(self)@.project_named(new_name@),
            ),
            keeps(old(self)@, final(self)@),
            old(self)@.record_renamed(
                Table::Projects,
                old_name@,
                new_name@,
                fresh@,
            ).1 is Ok ==> final(self)@.has_logged(
                renaming(Table::Projects, old_name@, new_name@),
                fresh@,
            ),
    {
        match self.rename_record(Table::Projects, old_name, new_name, fresh) {
            Err(error) => Err(error),
            Ok(_) => self.get_project(new_name),
        }
    }

    /// Removes a project with its assignments.
    pub fn remove_project_with(&mut self, name: &str, fresh: &Fresh) -> (r: Result<(), StoreError>)
        ensures
            final(self)@ == old(self)@.record_removed(Table::Projects, name@, fresh@).0,
            unit_view(r) == old(self)@.record_removed(Table::Projects, name@, fresh@).1,
            keeps(old(self)@, final(self)@),
            r is Ok ==> final(self)@.has_logged(removal(Table::Projects, name@, false), fresh@),
    {
        self.remove_named(Table::Projects, name, fresh)
    }

    /// Adds an environment.
    pub fn add_environment_with(
        &mut self,
        name: &str,
        description: Option<&str>,
        fresh: &Fresh,
    ) -> (r: Result<Environment, StoreError>)
        ensures
            final(self)@ == old(self)@.record_added(
                Table::Environments,
                name@,
                opt_str(description),
                fresh@,
            ).0,
            result_view(r) == answered(
                old(self)@.record_added(Table::Environments, name@, opt_str(description), fresh@).1,
                final(self)@.environment_named(name@),
            ),
            keeps(old(self)@, final(self)@),
            old(self)@.record_added(
                Table::Environments,
                name@,
                opt_str(description),
                fresh@,
            ).1 is Ok ==> final(self)@.has_logged(
                addition(Table::Environments, name@, opt_str(description)),
                fresh@,
            ),
    {
        match self.add_record(Table::Environments, name, description, fresh) {
            Err(error) => Err(error),
            Ok(_) => self.get_environment(name),
        }
    }

    /// Renames an environment.
    pub fn rename_environment_with(
        &mut self,
        old_name: &str,
        new_name: &str,
        fresh: &Fresh,
    ) -> (r: Result<Environment, StoreError>)
        ensures
            final(self)@ == old(self)@.record_renamed(
                Table::Environments,
                old_name@,
                new_name@,
                fresh@,
            ).0,
            result_view(r) == answered(
                old(self)@.record_renamed(Table::Environments, old_name@, new_name@, fresh@).1,
                final(self)@.environment_named(new_name@),
            ),
            keeps(old(self)@, final(self)@),
            old(self)@.record_renamed(
                Table::Environments,
                old_name@,
                new_name@,
                fresh@,
            ).1 is Ok ==> final(self)@.has_logged(
                renaming(Table::Environments, old_name@, new_name@),
                fresh@,
            ),
    {
        match self.rename_record(Table::Environments, old_name, new_name, fresh) {
            Err(error) => Err(error),
            Ok(_) => self.get_environment(new_name),
        }
    }

    /// Adds a secret.
    pub fn add_secret_with(
        &mut self,
        key: &str,
        description: Option<&str>,
        fresh: &Fresh,
    ) -> (r: Result<Secret, StoreError>)
        ensures
            final(self)@ == old(self)@.record_added(
                Table::Secrets,
                key@,
                opt_str(description),
                fresh@,
            ).0,
            result_view(r) == answered(
                old(self)@.record_added(Table::Secrets, key@, opt_str(description), fresh@).1,
                final(self)@.secret_keyed(key@),
            ),
            keeps(old(self)@, final(self)@),
            old(self)@.record_added(
                Table::Secrets,
                key@,
                opt_str(description),
                fresh@,
            ).1 is Ok ==> final(self)@.has_logged(
                addition(Table::Secrets, key@, opt_str(description)),
                fresh@,
            ),
    {
        match self.add_record(Table::Secrets, key, description, fresh) {
            Err(error) => Err(error),
            Ok(_) => self.get_secret(key),
        }
    }

    /// Renames a secret.
    pub fn rename_secret_with(
        &mut self,
        old_key: &str,
        new_key: &str,
        fresh: &Fresh,
    ) -> (r: Result<Secret, StoreError>)
        ensures
            final(self)@ == old(self)@.record_renamed(Table::Secrets, old_key@, new_key@, fresh@).0,
            result_view(r) == answered(
                old(self)@.record_renamed(Table::Secrets, old_key@, new_key@, fresh@).1,
                final(self)@.secret_keyed(new_key@),
            ),
            keeps(old(self)@, final(self)@),
            old(self)@.record_renamed(
                Table::Secrets,
                old_key@,
                new_key@,
                fresh@,
            ).1 is Ok ==> final(self)@.has_logged(
                renaming(Table::Secrets, old_key@, new_key@),
                fresh@,
            ),
    {
        match self.rename_record(Table::Secrets, old_key, new_key, fresh) {
            Err(error) => Err(error),
            Ok(_) => self.get_secret(new_key),
        }
    }

    /// Removes a secret with its values and assignments.
    pub fn remove_secret_with(&mut self, key: &str, fresh: &Fresh) -> (r: Result<(), StoreError>)
        ensures
            final(self)@ == old(self)@.record_removed(Table::Secrets, key@, fresh@).0,
            unit_view(r) == old(self)@.record_removed(Table::Secrets, key@, fresh@).1,
            keeps(old(self)@, final(self)@),
            r is Ok ==> final(self)@.has_logged(removal(Table::Secrets, key@, false), fresh@),
    {
        self.remove_named(Table::Secrets, key, fresh)
    }

    /// Removes an environment; one that has values, with them, only by force.
    pub fn remove_environment_with(
        &mut self,
        name: &str,
        force: bool,
        fresh: &Fresh,
    ) -> (r: Result<(), StoreError>)
        ensures
            final(self)@ == old(self)@.environment_removed(name@, force, fresh@).0,
            unit_view(r) == old(self)@.environment_removed(name@, force, fresh@).1,
            keeps(old(self)@, final(self)@),
            r is Ok ==> final(self)@.has_logged(removal(Table::Environments, name@, force), fresh@),
    {
        let ghost before = self@;
        let id: Id = match self.seek(Table::Environments, name) {
            Err(error) => return Err(error),
            Ok(row) => row.id,
        };
        let count: usize = self.count_values(id);
        if count > 0 && !force {
            return Err(
                StoreError::Domain(
                    DomainError::EnvironmentHasVariants {
                        environment: name.to_owned(),
                        variant_count: count,
                    },
                ),
            );
        }
        proof {
            lemma_named_some(before.environments, name@);
            lemma_removed(
                before,
                Table::Environments,
                before.record(Table::Environments, name@)->0,
            );
        }
        self.remove_record(Table::Environments, name, id);
        self.log_change(&removal_of(Table::Environments, name, force), fresh)
    }

    /// Gives a secret another description, or none.
    pub fn set_secret_description_with(
        &mut self,
        key: &str,
        description: Option<&str>,
        fresh: &Fresh,
    ) -> (r: Result<Secret, StoreError>)
        ensures
            final(self)@ == old(self)@.secret_described(key@, opt_str(description), fresh@).0,
            result_view(r) == answered(
                old(self)@.secret_described(key@, opt_str(description), fresh@).1,
                final(self)@.secret_keyed(key@),
            ),
            keeps(old(self)@, final(self)@),
            old(self)@.secret_described(key@, opt_str(description), fresh@).1 is Ok
                ==> final(self)@.has_logged(
                Change::SecretDescribe { key: key@, description: opt_str(description) },
                fresh@,
            ),
    {
        if let Err(error) = self.seek(Table::Secrets, key) {
            return Err(error);
        }
        proof {
            lemma_described(self@, Table::Secrets, key@, opt_str(description), fresh@.time);
        }
        self.describe_records(Table::Secrets, key, description, fresh.time());
        let change = Change::SecretDescribe {
            key: key.to_owned(),
            description: owned(description),
        };
        match self.log_change(&change, fresh) {
            Err(error) => Err(error),
            Ok(_) => self.get_secret(key),
        }
    }

    /// Sets the value of a secret in an environment.
    pub fn set_variant_with(
        &mut self,
        key: &str,
        environment: &str,
        value: &str,
        fresh: &Fresh,
    ) -> (r: Result<(), StoreError>)
        ensures
            final(self)@ == old(self)@.variant_set(key@, environment@, value@, fresh@).0,
            unit_view(r) == old(self)@.variant_set(key@, environment@, value@, fresh@).1,
            keeps(old(self)@, final(self)@),
            r is Ok ==> final(self)@.has_logged(
                Change::VariantSet { key: key@, environment: environment@, value: value@ },
                fresh@,
            ),
            old(self)@.well_formed() && r is Ok ==> final(self)@.value(key@, environment@) == Ok::<
                Option<Seq<char>>,
                StoreErrorView,
            >(Some(value@)),
    {
        let ghost before = self@;
        let secret_id: Id = match self.seek(Table::Secrets, key) {
            Err(error) => return Err(error),
            Ok(row) => row.id,
        };
        let environment_id: Id = match self.seek(Table::Environments, environment) {
            Err(error) => return Err(error),
            Ok(row) => row.id,
        };
        proof {
            lemma_found_id(before, Table::Secrets, key@);
            lemma_found_id(before, Table::Environments, environment@);
            lemma_value_set(
                before,
                secret_id,
                environment_id,
                value@,
                fresh@.id,
                fresh@.nonce,
                fresh@.operation_time,
            );
        }
        match self.put_value(
            secret_id,
            environment_id,
            value,
            fresh.id(),
            fresh.nonce(),
            fresh.operation_time(),
        ) {
            Err(error) => Err(error),
            Ok(_) => {
                let change = Change::VariantSet {
                    key: key.to_owned(),
                    environment: environment.to_owned(),
                    value: value.to_owned(),
                };
                proof {
                    if before.well_formed() {
                        lemma_variant_after_set(
                            before,
                            secret_id,
                            environment_id,
                            value@,
                            fresh@.id,
                            fresh@.nonce,
                            fresh@.operation_time,
                            secret_id,
                            environment_id,
                        );
                    }
                }
                self.log_change(&change, fresh)
            },
        }
    }

    /// Takes the value of a secret in an environment away.
    pub fn unset_variant_with(
        &mut self,
        key: &str,
        environment: &str,
        fresh: &Fresh,
    ) -> (r: Result<(), StoreError>)
        ensures
            final(self)@ == old(self)@.variant_unset(key@, environment@, fresh@).0,
            unit_view(r) == old(self)@.variant_unset(key@, environment@, fresh@).1,
            keeps(old(self)@, final(self)@),
            r is Ok ==> final(self)@.has_logged(
                Change::VariantUnset { key: key@, environment: environment@ },
                fresh@,
            ),
            old(self)@.well_formed() && r is Ok ==> final(self)@.value(key@, environment@) == Ok::<
                Option<Seq<char>>,
                StoreErrorView,
            >(None),
    {
        let secret_id: Id = match self.seek(Table::Secrets, key) {
            Err(error) => return Err(error),
            Ok(row) => row.id,
        };
        let environment_id: Id = match self.seek(Table::Environments, environment) {
            Err(error) => return Err(error),
            Ok(row) => row.id,
        };
        proof {
            lemma_found_id(self@, Table::Secrets, key@);
            lemma_found_id(self@, Table::Environments, environment@);
            lemma_value_unset(self@, secret_id, environment_id);
            lemma_removal_noted(
                self@.value_unset(secret_id, environment_id),
                secret_id,
                environment_id,
                fresh@.operation_time,
            );
            if self@.well_formed() {
                lemma_variant_some(self@.variants, secret_id, environment_id);
                lemma_variant_kept(
                    self@.variants,
                    |v: VariantRowView|
                        !(v.secret_id == secret_id && v.environment_id == environment_id),
                    secret_id,
                    environment_id,
                );
            }
        }
        self.drop_value(secret_id, environment_id);
        self.note_removal(secret_id, environment_id, fresh.operation_time());
        let change = Change::VariantUnset {
            key: key.to_owned(),
            environment: environment.to_owned(),
        };
        self.log_change(&change, fresh)
    }

    /// Assigns a secret to a project.
    pub fn assign_secret_with(
        &mut self,
        key: &str,
        project: &str,
        fresh: &Fresh,
    ) -> (r: Result<(), StoreError>)
        ensures
            final(self)@ == old(self)@.secret_assigned(key@, project@, fresh@).0,
            unit_view(r) == old(self)@.secret_assigned(key@, project@, fresh@).1,
            keeps(old(self)@, final(self)@),
            r is Ok ==> final(self)@.has_logged(
                Change::SecretAssign { key: key@, project: project@ },
                fresh@,
            ),
    {
        let ghost before = self@;
        let secret_id: Id = match self.seek(Table::Secrets, key) {
            Err(error) => return Err(error),
            Ok(row) => row.id,
        };
        let project_id: Id = match self.seek(Table::Projects, project) {
            Err(error) => return Err(error),
            Ok(row) => row.id,
        };
        proof {
            lemma_found_id(before, Table::Secrets, key@);
            lemma_found_id(before, Table::Projects, project@);
            lemma_assignment_made(before, project_id, secret_id, fresh@.time);
        }
        self.make_assignment(project_id, secret_id, fresh.time());
        let change = Change::SecretAssign { key: key.to_owned(), project: project.to_owned() };
        self.log_change(&change, fresh)
    }

    /// Takes a secret from a project.
    pub fn unassign_secret_with(
        &mut self,
        key: &str,
        project: &str,
        fresh: &Fresh,
    ) -> (r: Result<(), StoreError>)
        ensures
            final(self)@ == old(self)@.secret_unassigned(key@, project@, fresh@).0,
            unit_view(r) == old(self)@.secret_unassigned(key@, project@, fresh@).1,
            keeps(old(self)@, final(self)@),
            r is Ok ==> final(self)@.has_logged(
                Change::SecretUnassign { key: key@, project: project@ },
                fresh@,
            ),
    {
        let secret_id: Id = match self.seek(Table::Secrets, key) {
            Err(error) => return Err(error),
            Ok(row) => row.id,
        };
        let project_id: Id = match self.seek(Table::Projects, project) {
            Err(error) => return Err(error),
            Ok(row) => row.id,
        };
        proof {
            lemma_assignment_ended(self@, project_id, secret_id);
        }
        self.end_assignment(project_id, secret_id);
        let change = Change::SecretUnassign { key: key.to_owned(), project: project.to_owned() };
        self.log_change(&change, fresh)
    }

}

impl SecretRegistry for Store {
    type Error = StoreError;

    open spec fn projects_result(&self) -> Result<Seq<ProjectView>, StoreErrorView> {
        Ok(self@.listed(Table::Projects).map_values(|row: RecordView| self@.project(row)))
    }

    open spec fn project_result(&self, name: Seq<char>) -> Result<ProjectView, StoreErrorView> {
        self@.project_named(name)
    }

    open spec fn environments_result(&self) -> Result<Seq<EnvironmentView>, StoreErrorView> {
        Ok(self@.listed(Table::Environments).map_values(|row: RecordView| self@.environment(row)))
    }

    open spec fn environment_result(&self, name: Seq<char>) -> Result<
        EnvironmentView,
        StoreErrorView,
    > {
        self@.environment_named(name)
    }

    open spec fn secrets_result(&self) -> Result<Seq<SecretView>, StoreErrorView> {
        Ok(self@.listed(Table::Secrets).map_values(|row: RecordView| self@.secret(row)))
    }

    open spec fn secret_result(&self, key: Seq<char>) -> Result<SecretView, StoreErrorView> {
        self@.secret_keyed(key)
    }

    open spec fn variant_result(&self, key: Seq<char>, environment: Seq<char>) -> Result<
        Option<Seq<char>>,
        StoreErrorView,
    > {
        self@.value(key, environment)
    }

    open spec fn variants_result(&self, key: Seq<char>) -> Result<
        Seq<SecretVariantView>,
        StoreErrorView,
    > {
        self@.values_for(key)
    }

    open spec fn variant_count_result(&self, environment: Seq<char>) -> Result<
        nat,
        StoreErrorView,
    > {
        match self@.get(Table::Environments, environment) {
            Ok(row) => Ok(self@.variant_count(row.id)),
            Err(error) => Err(error),
        }
    }

    fn add_project(
        &mut self,
        name: &str,
        description: Option<&str>,
    ) -> (r: Result<Project, StoreError>)
        ensures
            exists|fresh: FreshView| #[trigger]
                fresh.valid() && final(self)@ == old(self)@.record_added(
                    Table::Projects,
                    name@,
                    opt_str(description),
                    fresh,
                ).0 &&
                    result_view(r) == answered(
                    old(self)@.record_added(Table::Projects, name@, opt_str(description), fresh).1,
                    final(self)@.project_named(name@),
                ) && (r is Ok ==> final(self)@.has_logged(
                    addition(Table::Projects, name@, opt_str(description)),
                    fresh,
                )),
            keeps(old(self)@, final(self)@),
    {
        let fresh = Fresh::draw();
        self.add_project_with(name, description, &fresh)
    }

    fn rename_project(&mut self, old_name: &str, new_name: &str) -> (r: Result<Project, StoreError>)
        ensures
            exists|fresh: FreshView| #[trigger]
                fresh.valid() && final(self)@ == old(self)@.record_renamed(
                    Table::Projects,
                    old_name@,
                    new_name@,
                    fresh,
                ).0 &&
                    result_view(r) == answered(
                    old(self)@.record_renamed(Table::Projects, old_name@, new_name@, fresh).1,
                    final(self)@.project_named(new_name@),
                ) && (r is Ok ==> final(self)@.has_logged(
                    renaming(Table::Projects, old_name@, new_name@),
                    fresh,
                )),
            keeps(old(self)@, final(self)@),
    {
        let fresh = Fresh::draw();
        self.rename_project_with(old_name, new_name, &fresh)
    }

    fn remove_project(&mut self, name: &str) -> (r: Result<(), StoreError>)
        ensures
            exists|fresh: FreshView| #[trigger]
                fresh.valid() && final(self)@ == old(self)@.record_removed(
                    Table::Projects,
                    name@,
                    fresh,
                ).0 &&
                    unit_view(r) == old(self)@.record_removed(Table::Projects, name@, fresh).1
                        && (r is Ok ==> final(self)@.has_logged(
                    removal(Table::Projects, name@, false),
                    fresh,
                )),
            keeps(old(self)@, final(self)@),
    {
        let fresh = Fresh::draw();
        self.remove_project_with(name, &fresh)
    }

    fn list_projects(&self) -> (r: Result<Vec<Project>, StoreError>) {
        let rows = self.sorted_rows(Table::Projects);
        let mut out: Vec<Project> = Vec::new();
        let mut i: usize = 0;
        while i < rows.len()
            invariant
                i <= rows.len(),
                out.len() == i,
                views(rows@) == self@.listed(Table::Projects),
                forall|j: int| 0 <= j < i ==> (#[trigger] out@[j])@ == self@.project(
                    views(rows@)[j],
                ),
            decreases rows.len() - i,
        {
            out.push(self.project_of(&rows[i]));
            i = i + 1;
        }
        assert(views(out@) =~= self@.listed(Table::Projects).map_values(
            |row: RecordView| self@.project(row),
        ));
        Ok(out)
    }

    fn get_project(&self, name: &str) -> (r: Result<Project, StoreError>) {
        match self.seek(Table::Projects, name) {
            Ok(row) => Ok(self.project_of(row)),
            Err(error) => Err(error),
        }
    }

    fn add_environment(
        &mut self,
        name: &str,
        description: Option<&str>,
    ) -> (r: Result<Environment, StoreError>)
        ensures
            exists|fresh: FreshView| #[trigger]
                fresh.valid() && final(self)@ == old(self)@.record_added(
                    Table::Environments,
                    name@,
                    opt_str(description),
                    fresh,
                ).0 &&
                    result_view(r) == answered(
                    old(self)@.record_added(
                        Table::Environments,
                        name@,
                        opt_str(description),
                        fresh,
                    ).1,
                    final(self)@.environment_named(name@),
                ) && (r is Ok ==> final(self)@.has_logged(
                    addition(Table::Environments, name@, opt_str(description)),
                    fresh,
                )),
            keeps(old(self)@, final(self)@),
    {
        let fresh = Fresh::draw();
        self.add_environment_with(name, description, &fresh)
    }

    fn rename_environment(
        &mut self,
        old_name: &str,
        new_name: &str,
    ) -> (r: Result<Environment, StoreError>)
        ensures
            exists|fresh: FreshView| #[trigger]
                fresh.valid() && final(self)@ == old(self)@.record_renamed(
                    Table::Environments,
                    old_name@,
                    new_name@,
                    fresh,
                ).0 &&
                    result_view(r) == answered(
                    old(self)@.record_renamed(Table::Environments, old_name@, new_name@, fresh).1,
                    final(self)@.environment_named(new_name@),
                ) && (r is Ok ==> final(self)@.has_logged(
                    renaming(Table::Environments, old_name@, new_name@),
                    fresh,
                )),
            keeps(old(self)@, final(self)@),
    {
        let fresh = Fresh::draw();
        self.rename_environment_with(old_name, new_name, &fresh)
    }

    fn remove_environment(&mut self, name: &str, force: bool) -> (r: Result<(), StoreError>)
        ensures
            exists|fresh: FreshView| #[trigger]
                fresh.valid() && final(self)@ == old(self)@.environment_removed(
                    name@,
                    force,
                    fresh,
                ).0 &&
                    unit_view(r) == old(self)@.environment_removed(name@, force, fresh).1
                        && (r is Ok ==> final(self)@.has_logged(
                    removal(Table::Environments, name@, force),
                    fresh,
                )),
            keeps(old(self)@, final(self)@),
    {
        let fresh = Fresh::draw();
        self.remove_environment_with(name, force, &fresh)
    }

    fn list_environments(&self) -> (r: Result<Vec<Environment>, StoreError>) {
        let rows = self.sorted_rows(Table::Environments);
        let mut out: Vec<Environment> = Vec::new();
        let mut i: usize = 0;
        while i < rows.len()
            invariant
                i <= rows.len(),
                out.len() == i,
                views(rows@) == self@.listed(Table::Environments),
                forall|j: int| 0 <= j < i ==> (#[trigger] out@[j])@ == self@.environment(
                    views(rows@)[j],
                ),
            decreases rows.len() - i,
        {
            out.push(self.environment_of(&rows[i]));
            i = i + 1;
        }
        assert(views(out@) =~= self@.listed(Table::Environments).map_values(
            |row: RecordView| self@.environment(row),
        ));
        Ok(out)
    }

    fn get_environment(&self, name: &str) -> (r: Result<Environment, StoreError>) {
        match self.seek(Table::Environments, name) {
            Ok(row) => Ok(self.environment_of(row)),
            Err(error) => Err(error),
        }
    }

    fn add_secret(
        &mut self,
        key: &str,
        description: Option<&str>,
    ) -> (r: Result<Secret, StoreError>)
        ensures
            exists|fresh: FreshView| #[trigger]
                fresh.valid() && final(self)@ == old(self)@.record_added(
                    Table::Secrets,
                    key@,
                    opt_str(description),
                    fresh,
                ).0 &&
                    result_view(r) == answered(
                    old(self)@.record_added(Table::Secrets, key@, opt_str(description), fresh).1,
                    final(self)@.secret_keyed(key@),
                ) && (r is Ok ==> final(self)@.has_logged(
                    addition(Table::Secrets, key@, opt_str(description)),
                    fresh,
                )),
            keeps(old(self)@, final(self)@),
    {
        let fresh = Fresh::draw();
        self.add_secret_with(key, description, &fresh)
    }

    fn rename_secret(&mut self, old_key: &str, new_key: &str) -> (r: Result<Secret, StoreError>)
        ensures
            exists|fresh: FreshView| #[trigger]
                fresh.valid() && final(self)@ == old(self)@.record_renamed(
                    Table::Secrets,
                    old_key@,
                    new_key@,
                    fresh,
                ).0 &&
                    result_view(r) == answered(
                    old(self)@.record_renamed(Table::Secrets, old_key@, new_key@, fresh).1,
                    final(self)@.secret_keyed(new_key@),
                ) && (r is Ok ==> final(self)@.has_logged(
                    renaming(Table::Secrets, old_key@, new_key@),
                    fresh,
                )),
            keeps(old(self)@, final(self)@),
    {
        let fresh = Fresh::draw();
        self.rename_secret_with(old_key, new_key, &fresh)
    }

    fn remove_secret(&mut self, key: &str) -> (r: Result<(), StoreError>)
        ensures
            exists|fresh: FreshView| #[trigger]
                fresh.valid() && final(self)@ == old(self)@.record_removed(
                    Table::Secrets,
                    key@,
                    fresh,
                ).0 &&
                    unit_view(r) == old(self)@.record_removed(Table::Secrets, key@, fresh).1
                        && (r is Ok ==> final(self)@.has_logged(
                    removal(Table::Secrets, key@, false),
                    fresh,
                )),
            keeps(old(self)@, final(self)@),
    {
        let fresh = Fresh::draw();
        self.remove_secret_with(key, &fresh)
    }

    fn list_secrets(&self) -> (r: Result<Vec<Secret>, StoreError>) {
        let rows = self.sorted_rows(Table::Secrets);
        let mut out: Vec<Secret> = Vec::new();
        let mut i: usize = 0;
        while i < rows.len()
            invariant
                i <= rows.len(),
                out.len() == i,
                views(rows@) == self@.listed(Table::Secrets),
                forall|j: int| 0 <= j < i ==> (#[trigger] out@[j])@ == self@.secret(
                    views(rows@)[j],
                ),
            decreases rows.len() - i,
        {
            out.push(self.secret_of(&rows[i]));
            i = i + 1;
        }
        assert(views(out@) =~= self@.listed(Table::Secrets).map_values(
            |row: RecordView| self@.secret(row),
        ));
        Ok(out)
    }

    fn get_secret(&self, key: &str) -> (r: Result<Secret, StoreError>) {
        match self.seek(Table::Secrets, key) {
            Ok(row) => Ok(self.secret_of(row)),
            Err(error) => Err(error),
        }
    }

    fn set_secret_description(
        &mut self,
        key: &str,
        description: Option<&str>,
    ) -> (r: Result<Secret, StoreError>)
        ensures
            exists|fresh: FreshView| #[trigger]
                fresh.valid() && final(self)@ == old(self)@.secret_described(
                    key@,
                    opt_str(description),
                    fresh,
                ).0 &&
                    result_view(r) == answered(
                    old(self)@.secret_described(key@, opt_str(description), fresh).1,
                    final(self)@.secret_keyed(key@),
                ) && (r is Ok ==> final(self)@.has_logged(
                    (Change::SecretDescribe { key: key@, description: opt_str(description) }),
                    fresh,
                )),
            keeps(old(self)@, final(self)@),
    {
        let fresh = Fresh::draw();
        self.set_secret_description_with(key, description, &fresh)
    }

    fn set_variant(
        &mut self,
        key: &str,
        environment: &str,
        value: &str,
    ) -> (r: Result<(), StoreError>)
        ensures
            exists|fresh: FreshView| #[trigger]
                fresh.valid() && final(self)@ == old(self)@.variant_set(
                    key@,
                    environment@,
                    value@,
                    fresh,
                ).0 &&
                    unit_view(r) == old(self)@.variant_set(key@, environment@, value@, fresh).1
                        && (r is Ok ==> final(self)@.has_logged(
                    (Change::VariantSet { key: key@, environment: environment@, value: value@ }),
                    fresh,
                )),
            keeps(old(self)@, final(self)@),
            old(self)@.well_formed() && r is Ok ==> final(self)@.value(key@, environment@) == Ok::<
                Option<Seq<char>>,
                StoreErrorView,
            >(Some(value@)),
    {
        let fresh = Fresh::draw();
        self.set_variant_with(key, environment, value, &fresh)
    }

    fn unset_variant(&mut self, key: &str, environment: &str) -> (r: Result<(), StoreError>)
        ensures
            exists|fresh: FreshView| #[trigger]
                fresh.valid() && final(self)@ == old(self)@.variant_unset(
                    key@,
                    environment@,
                    fresh,
                ).0 &&
                    unit_view(r) == old(self)@.variant_unset(key@, environment@, fresh).1
                        && (r is Ok ==> final(self)@.has_logged(
                    (Change::VariantUnset { key: key@, environment: environment@ }),
                    fresh,
                )),
            keeps(old(self)@, final(self)@),
            old(self)@.well_formed() && r is Ok ==> final(self)@.value(key@, environment@) == Ok::<
                Option<Seq<char>>,
                StoreErrorView,
            >(None),
    {
        let fresh = Fresh::draw();
        self.unset_variant_with(key, environment, &fresh)
    }

    fn get_variant(&self, key: &str, environment: &str) -> (r: Result<Option<String>, StoreError>) {
        let secret_id: Id = match self.seek(Table::Secrets, key) {
            Err(error) => return Err(error),
            Ok(row) => row.id,
        };
        let environment_id: Id = match self.seek(Table::Environments, environment) {
            Err(error) => return Err(error),
            Ok(row) => row.id,
        };
        match self.variant_row(secret_id, environment_id) {
            None => Ok(None),
            Some(row) => match self.open_text(&row.nonce, &row.ciphertext) {
                Ok(text) => Ok(Some(text)),
                Err(error) => Err(error),
            },
        }
    }

    fn assign_secret(&mut self, key: &str, project: &str) -> (r: Result<(), StoreError>)
        ensures
            exists|fresh: FreshView| #[trigger]
                fresh.valid() && final(self)@ == old(self)@.secret_assigned(
                    key@,
                    project@,
                    fresh,
                ).0 &&
                    unit_view(r) == old(self)@.secret_assigned(key@, project@, fresh).1
                        && (r is Ok ==> final(self)@.has_logged(
                    (Change::SecretAssign { key: key@, project: project@ }),
                    fresh,
                )),
            keeps(old(self)@, final(self)@),
    {
        let fresh = Fresh::draw();
        self.assign_secret_with(key, project, &fresh)
    }

    fn unassign_secret(&mut self, key: &str, project: &str) -> (r: Result<(), StoreError>)
        ensures
            exists|fresh: FreshView| #[trigger]
                fresh.valid() && final(self)@ == old(self)@.secret_unassigned(
                    key@,
                    project@,
                    fresh,
                ).0 &&
                    unit_view(r) == old(self)@.secret_unassigned(key@, project@, fresh).1
                        && (r is Ok ==> final(self)@.has_logged(
                    (Change::SecretUnassign { key: key@, project: project@ }),
                    fresh,
                )),
            keeps(old(self)@, final(self)@),
    {
        let fresh = Fresh::draw();
        self.unassign_secret_with(key, project, &fresh)
    }

    fn variants_for_secret(&self, key: &str) -> (r: Result<Vec<SecretVariant>, StoreError>) {
        match self.seek(Table::Secrets, key) {
            Err(error) => Err(error),
            Ok(row) => self.open_variants(row.id),
        }
    }

    fn variant_count_for_environment(&self, environment: &str) -> (r: Result<usize, StoreError>) {
        match self.seek(Table::Environments, environment) {
            Err(error) => Err(error),
            Ok(row) => Ok(self.count_values(row.id)),
        }
    }
}

} // verus!
