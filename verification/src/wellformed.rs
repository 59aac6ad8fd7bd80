//! What holds of every store: identifiers and names are unique, nothing refers to a row that
//! is not there, and everything that is encrypted can be read.

use crate::change::change_read;
use crate::crypto::stands_for;
use crate::ids::Id;
use crate::order::{distinct_by, lemma_filter};
use crate::tables::{
    assigned, id_taken, lemma_named_some, lemma_variant_of, variant_of, AssignmentRow,
    OperationRowView, RecordView, RemovalRow, StoreView, SyncOperationView, Table, VariantRowView,
};
use crate::time::Timestamp;
use vstd::prelude::*;

verus! {

/// Whether the identifiers and the names of a table's rows are unique.
pub open spec fn unique_rows(rows: Seq<RecordView>) -> bool {
    &&& distinct_by(rows, |r: RecordView| r.id)
    &&& distinct_by(rows, |r: RecordView| r.name)
}

impl StoreView {
    /// Whether every value belongs to a secret and an environment that are there.
    pub open spec fn values_placed(self) -> bool {
        forall|i: int|
            0 <= i < self.variants.len() ==> id_taken(
                self.secrets,
                (#[trigger] self.variants[i]).secret_id,
            ) && id_taken(self.environments, self.variants[i].environment_id)
    }

    /// Whether every assignment is of a secret and a project that are there.
    pub open spec fn assignments_placed(self) -> bool {
        forall|i: int|
            0 <= i < self.assignments.len() ==> id_taken(
                self.secrets,
                (#[trigger] self.assignments[i]).secret_id,
            ) && id_taken(self.projects, self.assignments[i].project_id)
    }

    /// Whether every removal that is noted is of a secret and an environment that are there.
    pub open spec fn removals_placed(self) -> bool {
        forall|i: int|
            0 <= i < self.removals.len() ==> id_taken(
                self.secrets,
                (#[trigger] self.removals[i]).secret_id,
            ) && id_taken(self.environments, self.removals[i].environment_id)
    }

    /// Whether identifiers and names are unique, no secret has two values or two removals in
    /// one environment or stands twice in a project, no operation is logged twice, and nothing
    /// refers to a row that is not there.
    pub open spec fn well_formed(self) -> bool {
        &&& unique_rows(self.projects)
        &&& unique_rows(self.environments)
        &&& unique_rows(self.secrets)
        &&& distinct_by(self.variants, |v: VariantRowView| v.id)
        &&& distinct_by(self.variants, |v: VariantRowView| (v.secret_id, v.environment_id))
        &&& distinct_by(self.assignments, |a: AssignmentRow| (a.project_id, a.secret_id))
        &&& distinct_by(self.removals, |r: RemovalRow| (r.secret_id, r.environment_id))
        &&& distinct_by(self.operations, |o: OperationRowView| o.id)
        &&& self.values_placed()
        &&& self.assignments_placed()
        &&& self.removals_placed()
    }

    /// Whether every value can be decrypted.
    pub open spec fn values_open(self) -> bool {
        forall|i: int|
            0 <= i < self.variants.len() ==> self.opened(
                (#[trigger] self.variants[i]).nonce,
                self.variants[i].ciphertext,
            ) is Ok
    }

    /// Whether a logged operation can be decrypted and replayed.
    pub open spec fn legible(self, row: OperationRowView) -> bool {
        self.opened(row.nonce, row.ciphertext) matches Ok(payload) && change_read(
            row.kind,
            payload,
        ) is Ok
    }

    /// Whether every logged operation can be decrypted and replayed.
    pub open spec fn log_legible(self) -> bool {
        forall|i: int| 0 <= i < self.operations.len() ==> self.legible(#[trigger] self.operations[i])
    }

    /// Whether everything that is encrypted can be read.
    pub open spec fn intact(self) -> bool {
        self.values_open() && self.log_legible()
    }
}

/// Whether the invariants that one store has, another has too.
pub open spec fn keeps(s: StoreView, t: StoreView) -> bool {
    (s.well_formed() ==> t.well_formed()) && (s.intact() ==> t.intact())
}

/// An empty store has all its invariants.
pub proof fn lemma_empty(key: Seq<u8>)
    ensures
        StoreView::empty(key).well_formed(),
        StoreView::empty(key).intact(),
{
}

proof fn lemma_pushed_taken(rows: Seq<RecordView>, row: RecordView, id: Id)
    ensures
        id_taken(rows, id) ==> id_taken(rows.push(row), id),
{
    if id_taken(rows, id) {
        let i = choose|i: int| 0 <= i < rows.len() && (#[trigger] rows[i]).id == id;
        assert(rows.push(row)[i].id == id);
    }
}

/// Adding a row of an unused name keeps a store well-formed.
pub proof fn lemma_inserted(s: StoreView, table: Table, row: RecordView)
    requires
        s.record(table, row.name) is None,
    ensures
        s.inserted(table, row) matches Ok(t) ==> {
            &&& s.well_formed() ==> t.well_formed()
            &&& s.intact() ==> t.intact()
        },
{
    if s.inserted(table, row) is Ok {
        let t = s.inserted(table, row)->Ok_0;
        let rows = s.rows(table);
        lemma_named_some(rows, row.name);
        if s.well_formed() {
            assert(unique_rows(rows));
            assert(unique_rows(t.rows(table)));
            assert(t.values_placed()) by {
                assert forall|i: int| 0 <= i < t.variants.len() implies id_taken(
                    t.secrets,
                    (#[trigger] t.variants[i]).secret_id,
                ) && id_taken(t.environments, t.variants[i].environment_id) by {
                    assert(t.variants[i] == s.variants[i]);
                    lemma_pushed_taken(rows, row, t.variants[i].secret_id);
                    lemma_pushed_taken(rows, row, t.variants[i].environment_id);
                }
            }
            assert(t.assignments_placed()) by {
                assert forall|i: int| 0 <= i < t.assignments.len() implies id_taken(
                    t.secrets,
                    (#[trigger] t.assignments[i]).secret_id,
                ) && id_taken(t.projects, t.assignments[i].project_id) by {
                    assert(t.assignments[i] == s.assignments[i]);
                    lemma_pushed_taken(rows, row, t.assignments[i].secret_id);
                    lemma_pushed_taken(rows, row, t.assignments[i].project_id);
                }
            }
            assert(t.removals_placed()) by {
                assert forall|i: int| 0 <= i < t.removals.len() implies id_taken(
                    t.secrets,
                    (#[trigger] t.removals[i]).secret_id,
                ) && id_taken(t.environments, t.removals[i].environment_id) by {
                    assert(t.removals[i] == s.removals[i]);
                    lemma_pushed_taken(rows, row, t.removals[i].secret_id);
                    lemma_pushed_taken(rows, row, t.removals[i].environment_id);
                }
            }
        }
        if s.intact() {
            lemma_same_encrypted(s, t);
        }
    }
}

/// A store with the same key, values and log as an intact one is intact.
pub proof fn lemma_same_encrypted(s: StoreView, t: StoreView)
    requires
        s.intact(),
        t.key == s.key,
        t.variants == s.variants,
        t.operations == s.operations,
    ensures
        t.intact(),
{
    assert forall|i: int| 0 <= i < t.variants.len() implies t.opened(
        (#[trigger] t.variants[i]).nonce,
        t.variants[i].ciphertext,
    ) is Ok by {
        assert(s.opened(s.variants[i].nonce, s.variants[i].ciphertext) is Ok);
    }
    assert forall|i: int| 0 <= i < t.operations.len() implies t.legible(
        #[trigger] t.operations[i],
    ) by {
        assert(s.legible(s.operations[i]));
    }
}

proof fn lemma_kept_ids(rows: Seq<RecordView>, after: Seq<RecordView>, id: Id)
    requires
        after.len() == rows.len(),
        forall|i: int| 0 <= i < rows.len() ==> (#[trigger] after[i]).id == rows[i].id,
    ensures
        id_taken(rows, id) ==> id_taken(after, id),
{
    if id_taken(rows, id) {
        let i = choose|i: int| 0 <= i < rows.len() && (#[trigger] rows[i]).id == id;
        assert(after[i].id == id);
    }
}

proof fn lemma_rows_replaced(s: StoreView, table: Table, after: Seq<RecordView>)
    requires
        s.well_formed(),
        after.len() == s.rows(table).len(),
        forall|i: int| 0 <= i < after.len() ==> (#[trigger] after[i]).id == s.rows(table)[i].id,
        distinct_by(after, |r: RecordView| r.name),
    ensures
        s.with_rows(table, after).well_formed(),
{
    let t = s.with_rows(table, after);
    let rows = s.rows(table);
    assert(unique_rows(rows));
    assert(distinct_by(after, |r: RecordView| r.id)) by {
        assert forall|i: int, j: int| 0 <= i < j < after.len() implies (#[trigger] after[i]).id != (
        #[trigger] after[j]).id by {
            assert(rows[i].id != rows[j].id) by {
                let id_of = |r: RecordView| r.id;
                assert(id_of(rows[i]) != id_of(rows[j]));
            }
        }
    }
    assert forall|i: int| 0 <= i < t.variants.len() implies id_taken(
        t.secrets,
        (#[trigger] t.variants[i]).secret_id,
    ) && id_taken(t.environments, t.variants[i].environment_id) by {
        assert(t.variants[i] == s.variants[i]);
        lemma_kept_ids(rows, after, t.variants[i].secret_id);
        lemma_kept_ids(rows, after, t.variants[i].environment_id);
    }
    assert forall|i: int| 0 <= i < t.assignments.len() implies id_taken(
        t.secrets,
        (#[trigger] t.assignments[i]).secret_id,
    ) && id_taken(t.projects, t.assignments[i].project_id) by {
        assert(t.assignments[i] == s.assignments[i]);
        lemma_kept_ids(rows, after, t.assignments[i].secret_id);
        lemma_kept_ids(rows, after, t.assignments[i].project_id);
    }
    assert forall|i: int| 0 <= i < t.removals.len() implies id_taken(
        t.secrets,
        (#[trigger] t.removals[i]).secret_id,
    ) && id_taken(t.environments, t.removals[i].environment_id) by {
        assert(t.removals[i] == s.removals[i]);
        lemma_kept_ids(rows, after, t.removals[i].secret_id);
        lemma_kept_ids(rows, after, t.removals[i].environment_id);
    }
}

/// Renaming to an unused name keeps a store well-formed.
pub proof fn lemma_renamed(
    s: StoreView,
    table: Table,
    from: Seq<char>,
    to: Seq<char>,
    time: Timestamp,
)
    requires
        s.record(table, to) is None,
    ensures
        s.well_formed() ==> s.renamed(table, from, to, time).well_formed(),
        s.intact() ==> s.renamed(table, from, to, time).intact(),
{
    let rows = s.rows(table);
    let t = s.renamed(table, from, to, time);
    let after = t.rows(table);
    lemma_named_some(rows, to);
    if s.well_formed() {
        assert(unique_rows(rows));
        assert forall|i: int, j: int| 0 <= i < j < after.len() implies (#[trigger] after[i]).name
            != (#[trigger] after[j]).name by {
            assert(rows[i].name != rows[j].name) by {
                let name_of = |r: RecordView| r.name;
                assert(name_of(rows[i]) != name_of(rows[j]));
            }
            assert(rows[i].name != to && rows[j].name != to);
        }
        lemma_rows_replaced(s, table, after);
    }
    if s.intact() {
        lemma_same_encrypted(s, t);
    }
}

/// Describing anew keeps a store well-formed.
pub proof fn lemma_described(
    s: StoreView,
    table: Table,
    name: Seq<char>,
    description: Option<Seq<char>>,
    time: Timestamp,
)
    ensures
        s.well_formed() ==> s.described(table, name, description, time).well_formed(),
        s.intact() ==> s.described(table, name, description, time).intact(),
{
    let rows = s.rows(table);
    let t = s.described(table, name, description, time);
    let after = t.rows(table);
    if s.well_formed() {
        assert(unique_rows(rows));
        assert forall|i: int, j: int| 0 <= i < j < after.len() implies (#[trigger] after[i]).name
            != (#[trigger] after[j]).name by {
            assert(rows[i].name != rows[j].name) by {
                let name_of = |r: RecordView| r.name;
                assert(name_of(rows[i]) != name_of(rows[j]));
            }
        }
        lemma_rows_replaced(s, table, after);
    }
    if s.intact() {
        lemma_same_encrypted(s, t);
    }
}

/// Taking rows out of the value table keeps the values that are left readable.
pub proof fn lemma_fewer_values(s: StoreView, kept: spec_fn(VariantRowView) -> bool)
    requires
        s.intact(),
    ensures
        (StoreView { variants: s.variants.filter(kept), ..s }).intact(),
{
    let t = StoreView { variants: s.variants.filter(kept), ..s };
    lemma_filter(s.variants, kept, |v: VariantRowView| v.id);
    assert forall|i: int| 0 <= i < t.variants.len() implies t.opened(
        (#[trigger] t.variants[i]).nonce,
        t.variants[i].ciphertext,
    ) is Ok by {
        assert(s.variants.contains(t.variants[i]));
        let k = choose|k: int| 0 <= k < s.variants.len() && s.variants[k] == t.variants[i];
        assert(s.opened(s.variants[k].nonce, s.variants[k].ciphertext) is Ok);
    }
    assert forall|i: int| 0 <= i < t.operations.len() implies t.legible(
        #[trigger] t.operations[i],
    ) by {
        assert(s.legible(s.operations[i]));
    }
}

proof fn lemma_row_left(
    rows: Seq<RecordView>,
    name: Seq<char>,
    row: RecordView,
    id: Id,
)
    requires
        unique_rows(rows),
        rows.contains(row),
        row.name == name,
        id_taken(rows, id),
        id != row.id,
    ensures
        id_taken(rows.filter(|r: RecordView| r.name != name), id),
{
    let kept = |r: RecordView| r.name != name;
    let name_of = |r: RecordView| r.name;
    let after = rows.filter(kept);
    lemma_filter(rows, kept, name_of);
    let i = choose|i: int| 0 <= i < rows.len() && (#[trigger] rows[i]).id == id;
    let k = choose|k: int| 0 <= k < rows.len() && rows[k] == row;
    if rows[i].name == name {
        if i < k {
            assert(name_of(rows[i]) != name_of(rows[k]));
        } else if k < i {
            assert(name_of(rows[k]) != name_of(rows[i]));
        }
    }
    assert(kept(rows[i]));
    assert(after.contains(rows[i]));
    let m = choose|m: int| 0 <= m < after.len() && after[m] == rows[i];
    assert(after[m].id == id);
}

/// Removing a row with what refers to it keeps a store well-formed.
pub proof fn lemma_removed(s: StoreView, table: Table, row: RecordView)
    requires
        s.record(table, row.name) == Some(row),
    ensures
        s.well_formed() ==> s.removed(table, row.name, row.id).well_formed(),
        s.intact() ==> s.removed(table, row.name, row.id).intact(),
{
    let t = s.removed(table, row.name, row.id);
    let rows = s.rows(table);
    let kept = |r: RecordView| r.name != row.name;
    lemma_named_some(rows, row.name);
    lemma_filter(rows, kept, |r: RecordView| r.id);
    lemma_filter(rows, kept, |r: RecordView| r.name);
    let other_variant = match table {
        Table::Environments => |v: VariantRowView| v.environment_id != row.id,
        _ => |v: VariantRowView| v.secret_id != row.id,
    };
    let other_assignment = match table {
        Table::Projects => |a: AssignmentRow| a.project_id != row.id,
        _ => |a: AssignmentRow| a.secret_id != row.id,
    };
    let other_removal = match table {
        Table::Environments => |r: RemovalRow| r.environment_id != row.id,
        _ => |r: RemovalRow| r.secret_id != row.id,
    };
    lemma_filter(s.variants, other_variant, |v: VariantRowView| v.id);
    lemma_filter(
        s.variants,
        other_variant,
        |v: VariantRowView| (v.secret_id, v.environment_id),
    );
    lemma_filter(
        s.assignments,
        other_assignment,
        |a: AssignmentRow| (a.project_id, a.secret_id),
    );
    lemma_filter(
        s.removals,
        other_removal,
        |r: RemovalRow| (r.secret_id, r.environment_id),
    );
    if s.well_formed() {
        assert(unique_rows(rows));
        assert forall|i: int| 0 <= i < t.variants.len() implies id_taken(
            t.secrets,
            (#[trigger] t.variants[i]).secret_id,
        ) && id_taken(t.environments, t.variants[i].environment_id) by {
            let v = t.variants[i];
            assert(s.variants.contains(v));
            let k = choose|k: int| 0 <= k < s.variants.len() && s.variants[k] == v;
            assert(id_taken(s.secrets, s.variants[k].secret_id));
            if table is Secrets {
                assert(other_variant(v));
                lemma_row_left(rows, row.name, row, v.secret_id);
            } else if table is Environments {
                assert(other_variant(v));
                lemma_row_left(rows, row.name, row, v.environment_id);
            }
        }
        assert forall|i: int| 0 <= i < t.assignments.len() implies id_taken(
            t.secrets,
            (#[trigger] t.assignments[i]).secret_id,
        ) && id_taken(t.projects, t.assignments[i].project_id) by {
            let a = t.assignments[i];
            assert(s.assignments.contains(a));
            let k = choose|k: int| 0 <= k < s.assignments.len() && s.assignments[k] == a;
            assert(id_taken(s.secrets, s.assignments[k].secret_id));
            if table is Secrets {
                assert(other_assignment(a));
                lemma_row_left(rows, row.name, row, a.secret_id);
            } else if table is Projects {
                assert(other_assignment(a));
                lemma_row_left(rows, row.name, row, a.project_id);
            }
        }
        assert forall|i: int| 0 <= i < t.removals.len() implies id_taken(
            t.secrets,
            (#[trigger] t.removals[i]).secret_id,
        ) && id_taken(t.environments, t.removals[i].environment_id) by {
            let r = t.removals[i];
            assert(s.removals.contains(r));
            let k = choose|k: int| 0 <= k < s.removals.len() && s.removals[k] == r;
            assert(id_taken(s.secrets, s.removals[k].secret_id));
            if table is Secrets {
                assert(other_removal(r));
                lemma_row_left(rows, row.name, row, r.secret_id);
            } else if table is Environments {
                assert(other_removal(r));
                lemma_row_left(rows, row.name, row, r.environment_id);
            }
        }
    }
    if s.intact() {
        if table is Projects {
            lemma_same_encrypted(s, t);
        } else {
            lemma_fewer_values(s, other_variant);
            lemma_same_encrypted(StoreView { variants: s.variants.filter(other_variant), ..s }, t);
        }
    }
}

/// Setting a value keeps a store well-formed, and intact if the value can be read back.
pub proof fn lemma_value_set(
    s: StoreView,
    secret_id: Id,
    environment_id: Id,
    value: Seq<char>,
    id: Id,
    nonce: Seq<u8>,
    time: Timestamp,
)
    requires
        id_taken(s.secrets, secret_id),
        id_taken(s.environments, environment_id),
    ensures
        s.value_set(secret_id, environment_id, value, id, nonce, time) matches Ok(t) ==> {
            &&& s.well_formed() ==> t.well_formed()
            &&& s.intact() && stands_for(
                s.key,
                nonce,
                crate::crypto::sealed_text(s.key, nonce, value),
                value,
            ) ==> t.intact()
        },
{
    if s.value_set(secret_id, environment_id, value, id, nonce, time) is Ok {
        let t = s.value_set(secret_id, environment_id, value, id, nonce, time)->Ok_0;
        let ciphertext = crate::crypto::sealed_text(s.key, nonce, value);
        let id_of = |v: VariantRowView| v.id;
        let pair_of = |v: VariantRowView| (v.secret_id, v.environment_id);
        if s.variant(secret_id, environment_id) is Some {
            if s.well_formed() {
                assert forall|i: int, j: int| 0 <= i < j < t.variants.len() implies id_of(
                    #[trigger] t.variants[i],
                ) != id_of(#[trigger] t.variants[j]) by {
                    assert(id_of(s.variants[i]) != id_of(s.variants[j]));
                }
                assert forall|i: int, j: int| 0 <= i < j < t.variants.len() implies pair_of(
                    #[trigger] t.variants[i],
                ) != pair_of(#[trigger] t.variants[j]) by {
                    assert(pair_of(s.variants[i]) != pair_of(s.variants[j]));
                }
                assert forall|i: int| 0 <= i < t.variants.len() implies id_taken(
                    t.secrets,
                    (#[trigger] t.variants[i]).secret_id,
                ) && id_taken(t.environments, t.variants[i].environment_id) by {
                    assert(id_taken(s.secrets, s.variants[i].secret_id));
                }
                assert(t.assignments_placed()) by {
                    assert(s.assignments_placed());
                }
                assert(t.removals_placed()) by {
                    assert(s.removals_placed());
                }
            }
        } else {
            if s.well_formed() {
                assert forall|i: int, j: int| 0 <= i < j < t.variants.len() implies pair_of(
                    #[trigger] t.variants[i],
                ) != pair_of(#[trigger] t.variants[j]) by {
                    if j < s.variants.len() {
                        assert(pair_of(s.variants[i]) != pair_of(s.variants[j]));
                    } else {
                        assert(t.variants[i] == s.variants[i]);
                        lemma_absent_variant(s.variants, secret_id, environment_id, i);
                    }
                }
                assert forall|i: int| 0 <= i < t.variants.len() implies id_taken(
                    t.secrets,
                    (#[trigger] t.variants[i]).secret_id,
                ) && id_taken(t.environments, t.variants[i].environment_id) by {
                    if i < s.variants.len() {
                        assert(id_taken(s.secrets, s.variants[i].secret_id));
                    }
                }
                assert(t.assignments_placed()) by {
                    assert(s.assignments_placed());
                }
                assert(t.removals_placed()) by {
                    assert(s.removals_placed());
                }
            }
        }
        if s.intact() && stands_for(s.key, nonce, ciphertext, value) {
            assert forall|i: int| 0 <= i < t.variants.len() implies t.opened(
                (#[trigger] t.variants[i]).nonce,
                t.variants[i].ciphertext,
            ) is Ok by {
                if i < s.variants.len() {
                    assert(s.opened(s.variants[i].nonce, s.variants[i].ciphertext) is Ok);
                }
            }
            assert forall|i: int| 0 <= i < t.operations.len() implies t.legible(
                #[trigger] t.operations[i],
            ) by {
                assert(s.legible(s.operations[i]));
            }
        }
    }
}

/// Where a secret has no value in an environment, no row is for the two.
pub proof fn lemma_absent_variant(
    rows: Seq<VariantRowView>,
    secret_id: Id,
    environment_id: Id,
    i: int,
)
    requires
        variant_of(rows, secret_id, environment_id) is None,
        0 <= i < rows.len(),
    ensures
        !(rows[i].secret_id == secret_id && rows[i].environment_id == environment_id),
    decreases i,
{
    if rows[i].secret_id == secret_id && rows[i].environment_id == environment_id {
        assert forall|j: int| 0 <= j < i implies !((#[trigger] rows[j]).secret_id == secret_id
            && rows[j].environment_id == environment_id) by {
            lemma_absent_variant(rows, secret_id, environment_id, j);
        }
        lemma_variant_of(rows, secret_id, environment_id, i);
        assert(crate::tables::first_variant(rows, secret_id, environment_id, i));
    }
}

/// Taking a value away keeps a store well-formed.
pub proof fn lemma_value_unset(s: StoreView, secret_id: Id, environment_id: Id)
    ensures
        s.well_formed() ==> s.value_unset(secret_id, environment_id).well_formed(),
        s.intact() ==> s.value_unset(secret_id, environment_id).intact(),
{
    let t = s.value_unset(secret_id, environment_id);
    let kept = |v: VariantRowView|
        !(v.secret_id == secret_id && v.environment_id == environment_id);
    lemma_filter(s.variants, kept, |v: VariantRowView| v.id);
    lemma_filter(s.variants, kept, |v: VariantRowView| (v.secret_id, v.environment_id));
    if s.well_formed() {
        assert forall|i: int| 0 <= i < t.variants.len() implies id_taken(
            t.secrets,
            (#[trigger] t.variants[i]).secret_id,
        ) && id_taken(t.environments, t.variants[i].environment_id) by {
            assert(s.variants.contains(t.variants[i]));
            let k = choose|k: int| 0 <= k < s.variants.len() && s.variants[k] == t.variants[i];
            assert(id_taken(s.secrets, s.variants[k].secret_id));
        }
        assert(t.assignments_placed()) by {
            assert(s.assignments_placed());
        }
        assert(t.removals_placed()) by {
            assert(s.removals_placed());
        }
    }
    if s.intact() {
        lemma_fewer_values(s, kept);
    }
}

/// Noting a removal keeps a store well-formed.
pub proof fn lemma_removal_noted(s: StoreView, secret_id: Id, environment_id: Id, time: Timestamp)
    requires
        id_taken(s.secrets, secret_id),
        id_taken(s.environments, environment_id),
    ensures
        s.well_formed() ==> s.removal_noted(secret_id, environment_id, time).well_formed(),
        s.intact() ==> s.removal_noted(secret_id, environment_id, time).intact(),
{
    let t = s.removal_noted(secret_id, environment_id, time);
    let kept = |r: RemovalRow|
        !(r.secret_id == secret_id && r.environment_id == environment_id);
    let pair_of = |r: RemovalRow| (r.secret_id, r.environment_id);
    let others = s.removals.filter(kept);
    lemma_filter(s.removals, kept, pair_of);
    if s.well_formed() && !s.removed_after(secret_id, environment_id, time) {
        assert(t.removals == others.push(t.removals.last()));
        assert forall|i: int, j: int| 0 <= i < j < t.removals.len() implies pair_of(
            #[trigger] t.removals[i],
        ) != pair_of(#[trigger] t.removals[j]) by {
            assert(t.removals[i] == others[i]);
            if j < others.len() {
                assert(pair_of(others[i]) != pair_of(others[j]));
            } else {
                assert(kept(others[i]));
            }
        }
        assert forall|i: int| 0 <= i < t.removals.len() implies id_taken(
            t.secrets,
            (#[trigger] t.removals[i]).secret_id,
        ) && id_taken(t.environments, t.removals[i].environment_id) by {
            if i < others.len() {
                assert(s.removals.contains(others[i]));
                let k = choose|k: int| 0 <= k < s.removals.len() && s.removals[k] == others[i];
                assert(id_taken(s.secrets, s.removals[k].secret_id));
            }
        }
        assert(t.values_placed()) by {
            assert(s.values_placed());
        }
        assert(t.assignments_placed()) by {
            assert(s.assignments_placed());
        }
    }
    if s.intact() {
        lemma_same_encrypted(s, t);
    }
}

/// Assigning keeps a store well-formed.
pub proof fn lemma_assignment_made(s: StoreView, project_id: Id, secret_id: Id, time: Timestamp)
    requires
        id_taken(s.projects, project_id),
        id_taken(s.secrets, secret_id),
    ensures
        s.well_formed() ==> s.assignment_made(project_id, secret_id, time).well_formed(),
        s.intact() ==> s.assignment_made(project_id, secret_id, time).intact(),
{
    let t = s.assignment_made(project_id, secret_id, time);
    let pair_of = |a: AssignmentRow| (a.project_id, a.secret_id);
    if s.well_formed() && !assigned(s.assignments, project_id, secret_id) {
        assert forall|i: int, j: int| 0 <= i < j < t.assignments.len() implies pair_of(
            #[trigger] t.assignments[i],
        ) != pair_of(#[trigger] t.assignments[j]) by {
            assert(t.assignments[i] == s.assignments[i]);
            if j < s.assignments.len() {
                assert(pair_of(s.assignments[i]) != pair_of(s.assignments[j]));
            }
        }
        assert forall|i: int| 0 <= i < t.assignments.len() implies id_taken(
            t.secrets,
            (#[trigger] t.assignments[i]).secret_id,
        ) && id_taken(t.projects, t.assignments[i].project_id) by {
            if i < s.assignments.len() {
                assert(id_taken(s.secrets, s.assignments[i].secret_id));
            }
        }
        assert(t.values_placed()) by {
            assert(s.values_placed());
        }
        assert(t.removals_placed()) by {
            assert(s.removals_placed());
        }
    }
    if s.intact() {
        lemma_same_encrypted(s, t);
    }
}

/// Ending an assignment keeps a store well-formed.
pub proof fn lemma_assignment_ended(s: StoreView, project_id: Id, secret_id: Id)
    ensures
        s.well_formed() ==> s.assignment_ended(project_id, secret_id).well_formed(),
        s.intact() ==> s.assignment_ended(project_id, secret_id).intact(),
{
    let t = s.assignment_ended(project_id, secret_id);
    let kept = |a: AssignmentRow| !(a.project_id == project_id && a.secret_id == secret_id);
    lemma_filter(s.assignments, kept, |a: AssignmentRow| (a.project_id, a.secret_id));
    if s.well_formed() {
        assert forall|i: int| 0 <= i < t.assignments.len() implies id_taken(
            t.secrets,
            (#[trigger] t.assignments[i]).secret_id,
        ) && id_taken(t.projects, t.assignments[i].project_id) by {
            assert(s.assignments.contains(t.assignments[i]));
            let k = choose|k: int|
                0 <= k < s.assignments.len() && s.assignments[k] == t.assignments[i];
            assert(id_taken(s.secrets, s.assignments[k].secret_id));
        }
        assert(t.values_placed()) by {
            assert(s.values_placed());
        }
        assert(t.removals_placed()) by {
            assert(s.removals_placed());
        }
    }
    if s.intact() {
        lemma_same_encrypted(s, t);
    }
}

/// Logging an operation keeps a store well-formed, and intact if it can be read back.
pub proof fn lemma_recorded(s: StoreView, operation: SyncOperationView, nonce: Seq<u8>)
    ensures
        s.recorded(operation, nonce) matches Ok(t) ==> {
            &&& s.well_formed() ==> t.well_formed()
            &&& s.intact() && change_read(operation.kind, operation.payload) is Ok && stands_for(
                s.key,
                nonce,
                crate::crypto::sealed_text(s.key, nonce, operation.payload),
                operation.payload,
            ) ==> t.intact()
        },
{
    if s.recorded(operation, nonce) is Ok {
        let t = s.recorded(operation, nonce)->Ok_0;
        if s.well_formed() {
            assert(t.values_placed()) by {
                assert(s.values_placed());
            }
            assert(t.assignments_placed()) by {
                assert(s.assignments_placed());
            }
            assert(t.removals_placed()) by {
                assert(s.removals_placed());
            }
        }
        if s.intact() {
            assert forall|i: int| 0 <= i < t.variants.len() implies t.opened(
                (#[trigger] t.variants[i]).nonce,
                t.variants[i].ciphertext,
            ) is Ok by {
                assert(s.opened(s.variants[i].nonce, s.variants[i].ciphertext) is Ok);
            }
            assert forall|i: int|
                0 <= i < s.operations.len() implies t.legible(#[trigger] t.operations[i]) by {
                assert(s.legible(s.operations[i]));
            }
        }
    }
}

} // verus!
