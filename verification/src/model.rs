//! The registry that a store stands for, by names alone: identifiers, times and ciphertexts
//! are of no account in it. Every elementary change of a store is a change of its registry.

use crate::crypto::{sealed_text, stands_for};
use crate::ids::Id;
use crate::order::{distinct_by, lemma_filter};
use crate::tables::{
    assigned, first_named, first_variant, id_taken, lemma_named, lemma_named_some, lemma_variant_of,
    named, variant_of, AssignmentRow, RecordView, StoreView, Table, VariantRowView,
};
use crate::time::Timestamp;
use crate::wellformed::{lemma_absent_variant, unique_rows};
use vstd::prelude::*;

verus! {

/// Projects, environments and secrets with their descriptions, the values of secrets in
/// environments, and which secrets are assigned to which projects.
#[verifier::ext_equal]
pub struct RegistryView {
    pub projects: Map<Seq<char>, Option<Seq<char>>>,
    pub environments: Map<Seq<char>, Option<Seq<char>>>,
    pub secrets: Map<Seq<char>, Option<Seq<char>>>,
    /// By secret and environment.
    pub values: Map<(Seq<char>, Seq<char>), Seq<char>>,
    /// By secret and project.
    pub assigned: Set<(Seq<char>, Seq<char>)>,
}

/// The names of a table with their descriptions.
pub open spec fn descriptions(rows: Seq<RecordView>) -> Map<Seq<char>, Option<Seq<char>>> {
    Map::new(
        |name: Seq<char>| named(rows, name) is Some,
        |name: Seq<char>| named(rows, name)->0.description,
    )
}

impl StoreView {
    /// Whether a secret has a readable value in an environment.
    pub open spec fn has_value(self, key: Seq<char>, environment: Seq<char>) -> bool {
        self.value(key, environment) matches Ok(Some(_))
    }

    /// Whether a secret is assigned to a project.
    pub open spec fn has_assignment(self, key: Seq<char>, project: Seq<char>) -> bool {
        match (self.record(Table::Secrets, key), self.record(Table::Projects, project)) {
            (Some(secret), Some(owner)) => assigned(self.assignments, owner.id, secret.id),
            _ => false,
        }
    }

    /// The registry that the store stands for.
    pub open spec fn registry(self) -> RegistryView {
        RegistryView {
            projects: descriptions(self.projects),
            environments: descriptions(self.environments),
            secrets: descriptions(self.secrets),
            values: Map::new(
                |place: (Seq<char>, Seq<char>)| self.has_value(place.0, place.1),
                |place: (Seq<char>, Seq<char>)| self.value(place.0, place.1)->Ok_0->0,
            ),
            assigned: Set::new(
                |pair: (Seq<char>, Seq<char>)| self.has_assignment(pair.0, pair.1),
            ),
        }
    }
}

/// A name as it was before a renaming.
pub open spec fn before_renaming(name: Seq<char>, from: Seq<char>, to: Seq<char>) -> Seq<char> {
    if name == to {
        from
    } else {
        name
    }
}

impl RegistryView {
    /// The names of a table with their descriptions.
    pub open spec fn names(self, table: Table) -> Map<Seq<char>, Option<Seq<char>>> {
        match table {
            Table::Projects => self.projects,
            Table::Environments => self.environments,
            Table::Secrets => self.secrets,
        }
    }

    /// The registry with other names in a table.
    pub open spec fn with_names(
        self,
        table: Table,
        names: Map<Seq<char>, Option<Seq<char>>>,
    ) -> RegistryView {
        match table {
            Table::Projects => RegistryView { projects: names, ..self },
            Table::Environments => RegistryView { environments: names, ..self },
            Table::Secrets => RegistryView { secrets: names, ..self },
        }
    }

    /// With a name added, or described anew.
    pub open spec fn with_name(
        self,
        table: Table,
        name: Seq<char>,
        description: Option<Seq<char>>,
    ) -> RegistryView {
        self.with_names(table, self.names(table).insert(name, description))
    }

    /// With a name replaced by another that is not in use.
    pub open spec fn with_renamed(
        self,
        table: Table,
        from: Seq<char>,
        to: Seq<char>,
    ) -> RegistryView {
        let renamed = self.with_names(
            table,
            self.names(table).remove(from).insert(to, self.names(table)[from]),
        );
        match table {
            Table::Projects => RegistryView {
                assigned: Set::new(
                    |pair: (Seq<char>, Seq<char>)|
                        pair.1 != from && self.assigned.contains(
                            (pair.0, before_renaming(pair.1, from, to)),
                        ),
                ),
                ..renamed
            },
            Table::Environments => RegistryView {
                values: Map::new(
                    |place: (Seq<char>, Seq<char>)|
                        place.1 != from && self.values.contains_key(
                            (place.0, before_renaming(place.1, from, to)),
                        ),
                    |place: (Seq<char>, Seq<char>)|
                        self.values[(place.0, before_renaming(place.1, from, to))],
                ),
                ..renamed
            },
            Table::Secrets => RegistryView {
                values: Map::new(
                    |place: (Seq<char>, Seq<char>)|
                        place.0 != from && self.values.contains_key(
                            (before_renaming(place.0, from, to), place.1),
                        ),
                    |place: (Seq<char>, Seq<char>)|
                        self.values[(before_renaming(place.0, from, to), place.1)],
                ),
                assigned: Set::new(
                    |pair: (Seq<char>, Seq<char>)|
                        pair.0 != from && self.assigned.contains(
                            (before_renaming(pair.0, from, to), pair.1),
                        ),
                ),
                ..renamed
            },
        }
    }

    /// Without a name, and without what belongs to it.
    pub open spec fn without_name(self, table: Table, name: Seq<char>) -> RegistryView {
        let rest = self.with_names(table, self.names(table).remove(name));
        match table {
            Table::Projects => RegistryView {
                assigned: self.assigned.filter(|pair: (Seq<char>, Seq<char>)| pair.1 != name),
                ..rest
            },
            Table::Environments => RegistryView {
                values: self.values.remove_keys(
                    Set::new(|place: (Seq<char>, Seq<char>)| place.1 == name),
                ),
                ..rest
            },
            Table::Secrets => RegistryView {
                values: self.values.remove_keys(
                    Set::new(|place: (Seq<char>, Seq<char>)| place.0 == name),
                ),
                assigned: self.assigned.filter(|pair: (Seq<char>, Seq<char>)| pair.0 != name),
                ..rest
            },
        }
    }

    /// With a value.
    pub open spec fn with_value(
        self,
        key: Seq<char>,
        environment: Seq<char>,
        value: Seq<char>,
    ) -> RegistryView {
        RegistryView { values: self.values.insert((key, environment), value), ..self }
    }

    /// Without a value.
    pub open spec fn without_value(self, key: Seq<char>, environment: Seq<char>) -> RegistryView {
        RegistryView { values: self.values.remove((key, environment)), ..self }
    }

    /// With an assignment.
    pub open spec fn with_assignment(self, key: Seq<char>, project: Seq<char>) -> RegistryView {
        RegistryView { assigned: self.assigned.insert((key, project)), ..self }
    }

    /// Without an assignment.
    pub open spec fn without_assignment(self, key: Seq<char>, project: Seq<char>) -> RegistryView {
        RegistryView { assigned: self.assigned.remove((key, project)), ..self }
    }
}

/// Where names are unique, the row of a name is the one row that has it.
pub proof fn lemma_named_unique(rows: Seq<RecordView>, row: RecordView)
    requires
        unique_rows(rows),
        rows.contains(row),
    ensures
        named(rows, row.name) == Some(row),
{
    let i = choose|i: int| 0 <= i < rows.len() && rows[i] == row;
    let name_of = |r: RecordView| r.name;
    assert forall|j: int| 0 <= j < i implies (#[trigger] rows[j]).name != row.name by {
        assert(name_of(rows[j]) != name_of(rows[i]));
    }
    lemma_named(rows, row.name, i);
    assert(first_named(rows, row.name, i));
}

/// Where identifiers are unique, different names have different identifiers.
pub proof fn lemma_ids_differ(rows: Seq<RecordView>, a: Seq<char>, b: Seq<char>)
    requires
        unique_rows(rows),
        named(rows, a) is Some,
        named(rows, b) is Some,
        a != b,
    ensures
        named(rows, a)->0.id != named(rows, b)->0.id,
{
    lemma_named_some(rows, a);
    lemma_named_some(rows, b);
    let x = named(rows, a)->0;
    let y = named(rows, b)->0;
    let i = choose|i: int| 0 <= i < rows.len() && rows[i] == x;
    let j = choose|j: int| 0 <= j < rows.len() && rows[j] == y;
    let id_of = |r: RecordView| r.id;
    if i < j {
        assert(id_of(rows[i]) != id_of(rows[j]));
    } else if j < i {
        assert(id_of(rows[j]) != id_of(rows[i]));
    }
}

/// A secret has a value in an environment exactly when some row is for the two.
pub proof fn lemma_variant_some(rows: Seq<VariantRowView>, secret_id: Id, environment_id: Id)
    ensures
        variant_of(rows, secret_id, environment_id) matches Some(row) ==> rows.contains(row)
            && row.secret_id == secret_id && row.environment_id == environment_id,
{
    if variant_of(rows, secret_id, environment_id) is Some {
        let i = choose|i: int| first_variant(rows, secret_id, environment_id, i);
        assert(first_variant(rows, secret_id, environment_id, i));
        assert(rows[i] == variant_of(rows, secret_id, environment_id)->0);
    }
}

/// Where no two rows are for one secret and environment, the row that is for them is found.
pub proof fn lemma_variant_unique(rows: Seq<VariantRowView>, row: VariantRowView)
    requires
        distinct_by(rows, |v: VariantRowView| (v.secret_id, v.environment_id)),
        rows.contains(row),
    ensures
        variant_of(rows, row.secret_id, row.environment_id) == Some(row),
{
    let i = choose|i: int| 0 <= i < rows.len() && rows[i] == row;
    let pair_of = |v: VariantRowView| (v.secret_id, v.environment_id);
    assert forall|j: int| 0 <= j < i implies !((#[trigger] rows[j]).secret_id == row.secret_id
        && rows[j].environment_id == row.environment_id) by {
        assert(pair_of(rows[j]) != pair_of(rows[i]));
    }
    lemma_variant_of(rows, row.secret_id, row.environment_id, i);
    assert(first_variant(rows, row.secret_id, row.environment_id, i));
}

/// A new row of an unused name is found by it; other names find what they found before.
pub proof fn lemma_named_pushed(rows: Seq<RecordView>, row: RecordView, name: Seq<char>)
    requires
        named(rows, row.name) is None,
    ensures
        named(rows.push(row), name) == if name == row.name {
            Some(row)
        } else {
            named(rows, name)
        },
{
    let after = rows.push(row);
    lemma_named_some(rows, name);
    lemma_named_some(rows, row.name);
    if name == row.name {
        let n = rows.len() as int;
        assert forall|j: int| 0 <= j < n implies (#[trigger] after[j]).name != name by {
            assert(rows[j] == after[j]);
        }
        lemma_named(after, name, n);
        assert(first_named(after, name, n));
    } else if named(rows, name) is Some {
        let k = choose|k: int| first_named(rows, name, k);
        assert(first_named(rows, name, k));
        assert forall|j: int| 0 <= j < k implies (#[trigger] after[j]).name != name by {
            assert(rows[j] == after[j]);
        }
        lemma_named(after, name, k);
        assert(first_named(after, name, k));
    } else {
        assert forall|j: int| 0 <= j < after.len() implies (#[trigger] after[j]).name != name by {
            if j < rows.len() {
                assert(rows[j] == after[j]);
            }
        }
        lemma_named(after, name, 0);
    }
}

/// Adding a row of an unused name and identifier adds its name.
pub proof fn lemma_registry_inserted(s: StoreView, table: Table, row: RecordView)
    requires
        s.well_formed(),
        s.record(table, row.name) is None,
        s.inserted(table, row) is Ok,
    ensures
        s.inserted(table, row)->Ok_0.registry() == s.registry().with_name(
            table,
            row.name,
            row.description,
        ),
{
    let t = s.inserted(table, row)->Ok_0;
    let a = t.registry();
    let b = s.registry().with_name(table, row.name, row.description);
    let rows = s.rows(table);
    assert forall|name: Seq<char>| #[trigger]
        named(t.rows(table), name) == if name == row.name {
            Some(row)
        } else {
            named(rows, name)
        } by {
        lemma_named_pushed(rows, row, name);
    }
    assert(a.projects =~= b.projects);
    assert(a.environments =~= b.environments);
    assert(a.secrets =~= b.secrets);
    assert forall|key: Seq<char>, environment: Seq<char>|
        (#[trigger] t.has_value(key, environment)) == s.has_value(key, environment) && (s.has_value(
            key,
            environment,
        ) ==> t.value(key, environment) == s.value(key, environment)) by {
        lemma_new_row_has_nothing(s, table, row, key, environment);
        assert(t.key == s.key);
    }
    assert(a.values =~= b.values);
    assert forall|key: Seq<char>, project: Seq<char>|
        (#[trigger] t.has_assignment(key, project)) == s.has_assignment(key, project) by {
        lemma_new_row_is_unassigned(s, table, row, key, project);
    }
    assert(a.assigned =~= b.assigned);
}

proof fn lemma_new_row_has_nothing(
    s: StoreView,
    table: Table,
    row: RecordView,
    key: Seq<char>,
    environment: Seq<char>,
)
    requires
        s.well_formed(),
        s.record(table, row.name) is None,
        s.inserted(table, row) is Ok,
    ensures
        ({
            let t = s.inserted(table, row)->Ok_0;
            &&& t.has_value(key, environment) == s.has_value(key, environment)
            &&& s.has_value(key, environment) ==> t.value(key, environment) == s.value(
                key,
                environment,
            )
        }),
{
    let t = s.inserted(table, row)->Ok_0;
    lemma_named_pushed(s.rows(table), row, key);
    lemma_named_pushed(s.rows(table), row, environment);
    if t.record(Table::Secrets, key) is Some && t.record(Table::Environments, environment) is Some {
        let secret = t.record(Table::Secrets, key)->0;
        let place = t.record(Table::Environments, environment)->0;
        lemma_variant_some(s.variants, secret.id, place.id);
        if s.variant(secret.id, place.id) is Some {
            let v = s.variant(secret.id, place.id)->0;
            let k = choose|k: int| 0 <= k < s.variants.len() && s.variants[k] == v;
            assert(id_taken(s.secrets, s.variants[k].secret_id));
        }
    }
}

proof fn lemma_new_row_is_unassigned(
    s: StoreView,
    table: Table,
    row: RecordView,
    key: Seq<char>,
    project: Seq<char>,
)
    requires
        s.well_formed(),
        s.record(table, row.name) is None,
        s.inserted(table, row) is Ok,
    ensures
        s.inserted(table, row)->Ok_0.has_assignment(key, project) == s.has_assignment(key, project),
{
    let t = s.inserted(table, row)->Ok_0;
    lemma_named_pushed(s.rows(table), row, key);
    lemma_named_pushed(s.rows(table), row, project);
    if t.record(Table::Secrets, key) is Some && t.record(Table::Projects, project) is Some {
        let secret = t.record(Table::Secrets, key)->0;
        let owner = t.record(Table::Projects, project)->0;
        if assigned(s.assignments, owner.id, secret.id) {
            let k = choose|k: int|
                0 <= k < s.assignments.len() && (#[trigger] s.assignments[k]).project_id == owner.id
                    && s.assignments[k].secret_id == secret.id;
            assert(id_taken(s.secrets, s.assignments[k].secret_id));
        }
    }
}

/// After a renaming the new name finds the row that the old one found; the old one finds none.
pub proof fn lemma_named_renamed(
    rows: Seq<RecordView>,
    after: Seq<RecordView>,
    from: Seq<char>,
    to: Seq<char>,
    time: Timestamp,
    name: Seq<char>,
)
    requires
        unique_rows(rows),
        unique_rows(after),
        named(rows, to) is None,
        named(rows, from) is Some,
        after == rows.map_values(
            |row: RecordView|
                if row.name == from {
                    RecordView { name: to, updated_at: time, ..row }
                } else {
                    row
                },
        ),
    ensures
        named(after, name) == if name == from {
            None
        } else if name == to {
            Some(RecordView { name: to, updated_at: time, ..named(rows, from)->0 })
        } else {
            named(rows, name)
        },
{
    lemma_named_some(rows, name);
    lemma_named_some(rows, from);
    lemma_named_some(rows, to);
    lemma_named_some(after, name);
    if name == from {
        assert forall|i: int| 0 <= i < after.len() implies (#[trigger] after[i]).name != name by {
            assert(rows[i].name != to);
        }
    } else if name == to {
        let row = named(rows, from)->0;
        let i = choose|i: int| 0 <= i < rows.len() && rows[i] == row;
        assert(after[i] == (RecordView { name: to, updated_at: time, ..row }));
        lemma_named_unique(after, after[i]);
    } else if named(rows, name) is Some {
        let row = named(rows, name)->0;
        let i = choose|i: int| 0 <= i < rows.len() && rows[i] == row;
        assert(after[i] == row);
        lemma_named_unique(after, row);
    } else {
        assert forall|i: int| 0 <= i < after.len() implies (#[trigger] after[i]).name != name by {
            assert(rows[i].name != name);
        }
    }
}

/// Renaming to an unused name renames in the registry.
pub proof fn lemma_registry_renamed(
    s: StoreView,
    table: Table,
    from: Seq<char>,
    to: Seq<char>,
    time: Timestamp,
)
    requires
        s.well_formed(),
        s.record(table, from) is Some,
        s.record(table, to) is None,
    ensures
        s.renamed(table, from, to, time).registry() == s.registry().with_renamed(table, from, to),
{
    let t = s.renamed(table, from, to, time);
    crate::wellformed::lemma_renamed(s, table, from, to, time);
    let a = t.registry();
    let b = s.registry().with_renamed(table, from, to);
    let rows = s.rows(table);
    let after = t.rows(table);
    assert forall|name: Seq<char>| #[trigger]
        named(after, name) == if name == from {
            None
        } else if name == to {
            Some(RecordView { name: to, updated_at: time, ..named(rows, from)->0 })
        } else {
            named(rows, name)
        } by {
        lemma_named_renamed(rows, after, from, to, time, name);
    }
    assert(a.projects =~= b.projects);
    assert(a.environments =~= b.environments);
    assert(a.secrets =~= b.secrets);
    assert forall|key: Seq<char>, environment: Seq<char>|
        (#[trigger] t.has_value(key, environment)) == b.values.contains_key((key, environment))
            && (t.has_value(key, environment) ==> t.value(key, environment)->Ok_0->0
            == b.values[(key, environment)]) by {
        let key0 = if table is Secrets {
            before_renaming(key, from, to)
        } else {
            key
        };
        let environment0 = if table is Environments {
            before_renaming(environment, from, to)
        } else {
            environment
        };
        assert(s.registry().values.contains_key((key0, environment0)) == s.has_value(
            key0,
            environment0,
        ));
        assert(t.variants == s.variants);
    }
    assert(a.values =~= b.values);
    assert forall|key: Seq<char>, project: Seq<char>|
        (#[trigger] t.has_assignment(key, project)) == b.assigned.contains((key, project)) by {
        let key0 = if table is Secrets {
            before_renaming(key, from, to)
        } else {
            key
        };
        let project0 = if table is Projects {
            before_renaming(project, from, to)
        } else {
            project
        };
        assert(s.registry().assigned.contains((key0, project0)) == s.has_assignment(
            key0,
            project0,
        ));
    }
    assert(a.assigned =~= b.assigned);
}

/// After a description every name finds the row that it found before, described anew where it
/// is the name.
pub proof fn lemma_named_described(
    s: StoreView,
    table: Table,
    name: Seq<char>,
    description: Option<Seq<char>>,
    time: Timestamp,
    n: Seq<char>,
)
    requires
        s.well_formed(),
    ensures
        s.described(table, name, description, time).record(table, n) == (match s.record(table, n) {
            Some(row) => Some(
                if n == name {
                    RecordView { description, updated_at: time, ..row }
                } else {
                    row
                },
            ),
            None => None,
        }),
{
    let t = s.described(table, name, description, time);
    crate::wellformed::lemma_described(s, table, name, description, time);
    let rows = s.rows(table);
    let after = t.rows(table);
    lemma_named_some(rows, n);
    lemma_named_some(after, n);
    if named(rows, n) is Some {
        let row = named(rows, n)->0;
        let i = choose|i: int| 0 <= i < rows.len() && rows[i] == row;
        assert(after[i].name == n);
        lemma_named_unique(after, after[i]);
    } else {
        assert forall|i: int| 0 <= i < after.len() implies (#[trigger] after[i]).name != n by {
            assert(rows[i].name != n);
        }
    }
}

/// Describing anew describes in the registry.
pub proof fn lemma_registry_described(
    s: StoreView,
    table: Table,
    name: Seq<char>,
    description: Option<Seq<char>>,
    time: Timestamp,
)
    requires
        s.well_formed(),
        s.record(table, name) is Some,
    ensures
        s.described(table, name, description, time).registry() == s.registry().with_name(
            table,
            name,
            description,
        ),
{
    let t = s.described(table, name, description, time);
    crate::wellformed::lemma_described(s, table, name, description, time);
    let a = t.registry();
    let b = s.registry().with_name(table, name, description);
    let rows = s.rows(table);
    let after = t.rows(table);
    assert forall|n: Seq<char>| #[trigger]
        named(after, n) == (match named(rows, n) {
            Some(row) => Some(
                if n == name {
                    RecordView { description, updated_at: time, ..row }
                } else {
                    row
                },
            ),
            None => None,
        }) by {
        lemma_named_described(s, table, name, description, time, n);
    }
    assert(a.projects =~= b.projects);
    assert(a.environments =~= b.environments);
    assert(a.secrets =~= b.secrets);
    assert forall|key: Seq<char>, environment: Seq<char>| #[trigger]
        t.has_value(key, environment) == s.has_value(key, environment) && (s.has_value(
            key,
            environment,
        ) ==> t.value(key, environment) == s.value(key, environment)) by {
        assert(t.variants == s.variants);
    }
    assert(a.values =~= b.values);
    assert forall|key: Seq<char>, project: Seq<char>| #[trigger]
        t.has_assignment(key, project) == s.has_assignment(key, project) by {
        assert(t.assignments == s.assignments);
    }
    assert(a.assigned =~= b.assigned);
}

/// A row is found after a filter exactly when it was found before and passes.
pub proof fn lemma_variant_kept(
    rows: Seq<VariantRowView>,
    kept: spec_fn(VariantRowView) -> bool,
    secret_id: Id,
    environment_id: Id,
)
    requires
        distinct_by(rows, |v: VariantRowView| (v.secret_id, v.environment_id)),
    ensures
        variant_of(rows.filter(kept), secret_id, environment_id) == (match variant_of(
            rows,
            secret_id,
            environment_id,
        ) {
            Some(row) if kept(row) => Some(row),
            _ => None,
        }),
{
    let after = rows.filter(kept);
    lemma_filter(rows, kept, |v: VariantRowView| (v.secret_id, v.environment_id));
    lemma_variant_some(rows, secret_id, environment_id);
    lemma_variant_some(after, secret_id, environment_id);
    if variant_of(after, secret_id, environment_id) is Some {
        let v = variant_of(after, secret_id, environment_id)->0;
        let k = choose|k: int| 0 <= k < after.len() && after[k] == v;
        assert(kept(after[k]) && rows.contains(after[k]));
        lemma_variant_unique(rows, v);
    } else if variant_of(rows, secret_id, environment_id) is Some {
        let v = variant_of(rows, secret_id, environment_id)->0;
        if kept(v) {
            let k = choose|k: int| 0 <= k < rows.len() && rows[k] == v;
            assert(after.contains(rows[k]));
            lemma_variant_unique(after, v);
        }
    }
}

proof fn lemma_assigned_kept(
    rows: Seq<AssignmentRow>,
    kept: spec_fn(AssignmentRow) -> bool,
    project_id: Id,
    secret_id: Id,
)
    requires
        forall|a: AssignmentRow, b: AssignmentRow|
            a.project_id == b.project_id && a.secret_id == b.secret_id ==> #[trigger] kept(a)
                == #[trigger] kept(b),
    ensures
        assigned(rows.filter(kept), project_id, secret_id) == (assigned(rows, project_id, secret_id)
            && forall|a: AssignmentRow|
            a.project_id == project_id && a.secret_id == secret_id ==> #[trigger] kept(a)),
{
    let after = rows.filter(kept);
    lemma_filter(rows, kept, |a: AssignmentRow| (a.project_id, a.secret_id));
    if assigned(after, project_id, secret_id) {
        let k = choose|k: int|
            0 <= k < after.len() && (#[trigger] after[k]).project_id == project_id
                && after[k].secret_id == secret_id;
        assert(kept(after[k]) && rows.contains(after[k]));
        let m = choose|m: int| 0 <= m < rows.len() && rows[m] == after[k];
        assert(rows[m].project_id == project_id);
        assert forall|a: AssignmentRow| a.project_id == project_id && a.secret_id
            == secret_id implies #[trigger] kept(a) by {
            assert(kept(a) == kept(after[k]));
        }
    } else if assigned(rows, project_id, secret_id) {
        let m = choose|m: int|
            0 <= m < rows.len() && (#[trigger] rows[m]).project_id == project_id
                && rows[m].secret_id == secret_id;
        if kept(rows[m]) {
            assert(after.contains(rows[m]));
            let k = choose|k: int| 0 <= k < after.len() && after[k] == rows[m];
            assert(after[k].project_id == project_id);
        }
    }
}

/// A name whose rows are gone finds none; other names find what they found before.
pub proof fn lemma_named_removed(rows: Seq<RecordView>, gone: Seq<char>, name: Seq<char>)
    requires
        unique_rows(rows),
    ensures
        named(rows.filter(|r: RecordView| r.name != gone), name) == if name == gone {
            None
        } else {
            named(rows, name)
        },
{
    let kept = |r: RecordView| r.name != gone;
    let after = rows.filter(kept);
    lemma_filter(rows, kept, |r: RecordView| r.name);
    lemma_filter(rows, kept, |r: RecordView| r.id);
    lemma_named_some(rows, name);
    lemma_named_some(after, name);
    if named(after, name) is Some {
        let row = named(after, name)->0;
        let k = choose|k: int| 0 <= k < after.len() && after[k] == row;
        assert(kept(after[k]) && rows.contains(after[k]));
        lemma_named_unique(rows, row);
    } else if named(rows, name) is Some && name != gone {
        let row = named(rows, name)->0;
        let k = choose|k: int| 0 <= k < rows.len() && rows[k] == row;
        assert(kept(rows[k]));
        assert(after.contains(rows[k]));
        lemma_named_unique(after, row);
    }
}

/// Removing a row removes its name with what belongs to it.
pub proof fn lemma_registry_removed(s: StoreView, table: Table, row: RecordView)
    requires
        s.well_formed(),
        s.record(table, row.name) == Some(row),
    ensures
        s.removed(table, row.name, row.id).registry() == s.registry().without_name(
            table,
            row.name,
        ),
{
    let t = s.removed(table, row.name, row.id);
    let a = t.registry();
    let b = s.registry().without_name(table, row.name);
    let rows = s.rows(table);
    assert forall|name: Seq<char>| #[trigger]
        named(t.rows(table), name) == if name == row.name {
            None
        } else {
            named(rows, name)
        } by {
        lemma_named_removed(rows, row.name, name);
    }
    assert(a.projects =~= b.projects);
    assert(a.environments =~= b.environments);
    assert(a.secrets =~= b.secrets);
    assert forall|key: Seq<char>, environment: Seq<char>|
        (#[trigger] t.has_value(key, environment)) == b.values.contains_key((key, environment))
            && (t.has_value(key, environment) ==> t.value(key, environment)->Ok_0->0
            == b.values[(key, environment)]) by {
        assert(s.registry().values.contains_key((key, environment)) == s.has_value(
            key,
            environment,
        ));
        if t.record(Table::Secrets, key) is Some && t.record(
            Table::Environments,
            environment,
        ) is Some {
            let secret = t.record(Table::Secrets, key)->0;
            let place = t.record(Table::Environments, environment)->0;
            lemma_variant_some(s.variants, secret.id, place.id);
            if table is Secrets {
                lemma_ids_differ(rows, key, row.name);
                lemma_variant_kept(
                    s.variants,
                    |v: VariantRowView| v.secret_id != row.id,
                    secret.id,
                    place.id,
                );
            } else if table is Environments {
                lemma_ids_differ(rows, environment, row.name);
                lemma_variant_kept(
                    s.variants,
                    |v: VariantRowView| v.environment_id != row.id,
                    secret.id,
                    place.id,
                );
            }
        }
    }
    assert(a.values =~= b.values);
    assert forall|key: Seq<char>, project: Seq<char>|
        (#[trigger] t.has_assignment(key, project)) == b.assigned.contains((key, project)) by {
        assert(s.registry().assigned.contains((key, project)) == s.has_assignment(key, project));
        if t.record(Table::Secrets, key) is Some && t.record(Table::Projects, project) is Some {
            let secret = t.record(Table::Secrets, key)->0;
            let owner = t.record(Table::Projects, project)->0;
            if table is Secrets {
                lemma_ids_differ(rows, key, row.name);
                lemma_assigned_kept(
                    s.assignments,
                    |x: AssignmentRow| x.secret_id != row.id,
                    owner.id,
                    secret.id,
                );
            } else if table is Projects {
                lemma_ids_differ(rows, project, row.name);
                lemma_assigned_kept(
                    s.assignments,
                    |x: AssignmentRow| x.project_id != row.id,
                    owner.id,
                    secret.id,
                );
            }
        }
    }
    assert(a.assigned =~= b.assigned);
}

/// After a value is set its row holds it; the other rows stay.
pub proof fn lemma_variant_after_set(
    s: StoreView,
    secret_id: Id,
    environment_id: Id,
    value: Seq<char>,
    id: Id,
    nonce: Seq<u8>,
    time: Timestamp,
    other_secret: Id,
    other_environment: Id,
)
    requires
        distinct_by(s.variants, |v: VariantRowView| (v.secret_id, v.environment_id)),
        s.value_set(secret_id, environment_id, value, id, nonce, time) is Ok,
    ensures
        ({
            let t = s.value_set(secret_id, environment_id, value, id, nonce, time)->Ok_0;
            if other_secret == secret_id && other_environment == environment_id {
                t.variant(other_secret, other_environment) matches Some(row) && row.nonce == nonce
                    && row.ciphertext == sealed_text(s.key, nonce, value) && row.updated_at == time
            } else {
                t.variant(other_secret, other_environment) == s.variant(
                    other_secret,
                    other_environment,
                )
            }
        }),
{
    let t = s.value_set(secret_id, environment_id, value, id, nonce, time)->Ok_0;
    let pair_of = |v: VariantRowView| (v.secret_id, v.environment_id);
    lemma_variant_some(s.variants, secret_id, environment_id);
    lemma_variant_some(s.variants, other_secret, other_environment);
    lemma_variant_some(t.variants, other_secret, other_environment);
    assert(distinct_by(t.variants, pair_of)) by {
        assert forall|i: int, j: int| 0 <= i < j < t.variants.len() implies pair_of(
            #[trigger] t.variants[i],
        ) != pair_of(#[trigger] t.variants[j]) by {
            if j < s.variants.len() {
                assert(pair_of(s.variants[i]) != pair_of(s.variants[j]));
            } else {
                lemma_absent_variant(s.variants, secret_id, environment_id, i);
            }
        }
    }
    if other_secret == secret_id && other_environment == environment_id {
        if s.variant(secret_id, environment_id) is Some {
            let v = s.variant(secret_id, environment_id)->0;
            let k = choose|k: int| 0 <= k < s.variants.len() && s.variants[k] == v;
            lemma_variant_unique(t.variants, t.variants[k]);
        } else {
            lemma_variant_unique(t.variants, t.variants[t.variants.len() - 1]);
        }
    } else if s.variant(other_secret, other_environment) is Some {
        let v = s.variant(other_secret, other_environment)->0;
        let k = choose|k: int| 0 <= k < s.variants.len() && s.variants[k] == v;
        assert(t.variants[k] == v);
        lemma_variant_unique(t.variants, v);
    } else if t.variant(other_secret, other_environment) is Some {
        let v = t.variant(other_secret, other_environment)->0;
        let k = choose|k: int| 0 <= k < t.variants.len() && t.variants[k] == v;
        if k < s.variants.len() {
            lemma_absent_variant(s.variants, other_secret, other_environment, k);
        }
    }
}

/// Setting a value that can be read back sets it in the registry.
pub proof fn lemma_registry_value_set(
    s: StoreView,
    key: Seq<char>,
    environment: Seq<char>,
    value: Seq<char>,
    id: Id,
    nonce: Seq<u8>,
    time: Timestamp,
)
    requires
        s.well_formed(),
        s.record(Table::Secrets, key) is Some,
        s.record(Table::Environments, environment) is Some,
        s.value_set(
            s.record(Table::Secrets, key)->0.id,
            s.record(Table::Environments, environment)->0.id,
            value,
            id,
            nonce,
            time,
        ) is Ok,
        stands_for(s.key, nonce, sealed_text(s.key, nonce, value), value),
    ensures
        s.value_set(
            s.record(Table::Secrets, key)->0.id,
            s.record(Table::Environments, environment)->0.id,
            value,
            id,
            nonce,
            time,
        )->Ok_0.registry() == s.registry().with_value(key, environment, value),
{
    let secret = s.record(Table::Secrets, key)->0;
    let place = s.record(Table::Environments, environment)->0;
    let t = s.value_set(secret.id, place.id, value, id, nonce, time)->Ok_0;
    let a = t.registry();
    let b = s.registry().with_value(key, environment, value);
    assert(a.projects =~= b.projects);
    assert(a.environments =~= b.environments);
    assert(a.secrets =~= b.secrets);
    assert forall|k: Seq<char>, e: Seq<char>|
        (#[trigger] t.has_value(k, e)) == b.values.contains_key((k, e)) && (t.has_value(k, e)
            ==> t.value(k, e)->Ok_0->0 == b.values[(k, e)]) by {
        assert(s.registry().values.contains_key((k, e)) == s.has_value(k, e));
        if s.record(Table::Secrets, k) is Some && s.record(Table::Environments, e) is Some {
            let other_secret = s.record(Table::Secrets, k)->0;
            let other_place = s.record(Table::Environments, e)->0;
            if k != key {
                lemma_ids_differ(s.secrets, k, key);
            }
            if e != environment {
                lemma_ids_differ(s.environments, e, environment);
            }
            lemma_variant_after_set(
                s,
                secret.id,
                place.id,
                value,
                id,
                nonce,
                time,
                other_secret.id,
                other_place.id,
            );
        }
    }
    assert(a.values =~= b.values);
    assert forall|k: Seq<char>, p: Seq<char>| #[trigger]
        t.has_assignment(k, p) == s.has_assignment(k, p) by {
    }
    assert(a.assigned =~= b.assigned);
}

/// Taking a value away takes it from the registry.
pub proof fn lemma_registry_value_unset(s: StoreView, key: Seq<char>, environment: Seq<char>)
    requires
        s.well_formed(),
        s.record(Table::Secrets, key) is Some,
        s.record(Table::Environments, environment) is Some,
    ensures
        s.value_unset(
            s.record(Table::Secrets, key)->0.id,
            s.record(Table::Environments, environment)->0.id,
        ).registry() == s.registry().without_value(key, environment),
{
    let secret = s.record(Table::Secrets, key)->0;
    let place = s.record(Table::Environments, environment)->0;
    let t = s.value_unset(secret.id, place.id);
    let a = t.registry();
    let b = s.registry().without_value(key, environment);
    assert(a.projects =~= b.projects);
    assert(a.environments =~= b.environments);
    assert(a.secrets =~= b.secrets);
    assert forall|k: Seq<char>, e: Seq<char>|
        (#[trigger] t.has_value(k, e)) == b.values.contains_key((k, e)) && (t.has_value(k, e)
            ==> t.value(k, e)->Ok_0->0 == b.values[(k, e)]) by {
        assert(s.registry().values.contains_key((k, e)) == s.has_value(k, e));
        if s.record(Table::Secrets, k) is Some && s.record(Table::Environments, e) is Some {
            let other_secret = s.record(Table::Secrets, k)->0;
            let other_place = s.record(Table::Environments, e)->0;
            if k != key {
                lemma_ids_differ(s.secrets, k, key);
            }
            if e != environment {
                lemma_ids_differ(s.environments, e, environment);
            }
            lemma_variant_some(s.variants, other_secret.id, other_place.id);
            lemma_variant_kept(
                s.variants,
                |v: VariantRowView| !(v.secret_id == secret.id && v.environment_id == place.id),
                other_secret.id,
                other_place.id,
            );
        }
    }
    assert(a.values =~= b.values);
    assert forall|k: Seq<char>, p: Seq<char>| #[trigger]
        t.has_assignment(k, p) == s.has_assignment(k, p) by {
    }
    assert(a.assigned =~= b.assigned);
}

/// Assigning assigns in the registry.
pub proof fn lemma_registry_assigned(
    s: StoreView,
    key: Seq<char>,
    project: Seq<char>,
    time: Timestamp,
)
    requires
        s.well_formed(),
        s.record(Table::Secrets, key) is Some,
        s.record(Table::Projects, project) is Some,
    ensures
        s.assignment_made(
            s.record(Table::Projects, project)->0.id,
            s.record(Table::Secrets, key)->0.id,
            time,
        ).registry() == s.registry().with_assignment(key, project),
{
    let secret = s.record(Table::Secrets, key)->0;
    let owner = s.record(Table::Projects, project)->0;
    let t = s.assignment_made(owner.id, secret.id, time);
    let a = t.registry();
    let b = s.registry().with_assignment(key, project);
    assert(a.projects =~= b.projects);
    assert(a.environments =~= b.environments);
    assert(a.secrets =~= b.secrets);
    assert forall|k: Seq<char>, e: Seq<char>| #[trigger]
        t.has_value(k, e) == s.has_value(k, e) && (s.has_value(k, e) ==> t.value(k, e) == s.value(
            k,
            e,
        )) by {
    }
    assert(a.values =~= b.values);
    assert forall|k: Seq<char>, p: Seq<char>|
        (#[trigger] t.has_assignment(k, p)) == b.assigned.contains((k, p)) by {
        assert(s.registry().assigned.contains((k, p)) == s.has_assignment(k, p));
        if s.record(Table::Secrets, k) is Some && s.record(Table::Projects, p) is Some {
            let other_secret = s.record(Table::Secrets, k)->0;
            let other_owner = s.record(Table::Projects, p)->0;
            if k != key {
                lemma_ids_differ(s.secrets, k, key);
            }
            if p != project {
                lemma_ids_differ(s.projects, p, project);
            }
            if assigned(s.assignments, other_owner.id, other_secret.id) {
                let m = choose|m: int|
                    0 <= m < s.assignments.len() && (#[trigger] s.assignments[m]).project_id
                        == other_owner.id && s.assignments[m].secret_id == other_secret.id;
                assert(t.assignments[m] == s.assignments[m]);
            } else if assigned(t.assignments, other_owner.id, other_secret.id) {
                let m = choose|m: int|
                    0 <= m < t.assignments.len() && (#[trigger] t.assignments[m]).project_id
                        == other_owner.id && t.assignments[m].secret_id == other_secret.id;
                if m < s.assignments.len() {
                    assert(t.assignments[m] == s.assignments[m]);
                }
            }
            if k == key && p == project && !assigned(s.assignments, owner.id, secret.id) {
                assert(t.assignments[t.assignments.len() - 1].project_id == owner.id);
            }
        }
    }
    assert(a.assigned =~= b.assigned);
}

/// Ending an assignment ends it in the registry.
pub proof fn lemma_registry_unassigned(s: StoreView, key: Seq<char>, project: Seq<char>)
    requires
        s.well_formed(),
        s.record(Table::Secrets, key) is Some,
        s.record(Table::Projects, project) is Some,
    ensures
        s.assignment_ended(
            s.record(Table::Projects, project)->0.id,
            s.record(Table::Secrets, key)->0.id,
        ).registry() == s.registry().without_assignment(key, project),
{
    let secret = s.record(Table::Secrets, key)->0;
    let owner = s.record(Table::Projects, project)->0;
    let t = s.assignment_ended(owner.id, secret.id);
    let a = t.registry();
    let b = s.registry().without_assignment(key, project);
    let kept = |x: AssignmentRow| !(x.project_id == owner.id && x.secret_id == secret.id);
    assert(a.projects =~= b.projects);
    assert(a.environments =~= b.environments);
    assert(a.secrets =~= b.secrets);
    assert forall|k: Seq<char>, e: Seq<char>| #[trigger]
        t.has_value(k, e) == s.has_value(k, e) && (s.has_value(k, e) ==> t.value(k, e) == s.value(
            k,
            e,
        )) by {
    }
    assert(a.values =~= b.values);
    assert forall|k: Seq<char>, p: Seq<char>|
        (#[trigger] t.has_assignment(k, p)) == b.assigned.contains((k, p)) by {
        assert(s.registry().assigned.contains((k, p)) == s.has_assignment(k, p));
        if s.record(Table::Secrets, k) is Some && s.record(Table::Projects, p) is Some {
            let other_secret = s.record(Table::Secrets, k)->0;
            let other_owner = s.record(Table::Projects, p)->0;
            if k != key {
                lemma_ids_differ(s.secrets, k, key);
            }
            if p != project {
                lemma_ids_differ(s.projects, p, project);
            }
            lemma_assigned_kept(s.assignments, kept, other_owner.id, other_secret.id);
            if k == key && p == project {
                let x = AssignmentRow {
                    project_id: owner.id,
                    secret_id: secret.id,
                    created_at: owner.created_at,
                };
                assert(!kept(x));
            }
        }
    }
    assert(a.assigned =~= b.assigned);
}

} // verus!
