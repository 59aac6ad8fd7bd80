//! What an import does not depend on: the identifiers and nonces that are drawn for it.

use crate::change::{change_read, Change, ChangeView};
use crate::convergence::lemma_same_order;
use crate::crypto::opened_text;
use crate::error::StoreErrorView;
use crate::ids::Id;
use crate::imports::{importable, law_import_succeeds, lemma_draw_unused, unused_draws};
use crate::laws::{lemma_replay_keeps_log, lemma_value_stands};
use crate::model::{descriptions, lemma_variant_some};
use crate::order::{collected, lemma_filter_last, lemma_ordered, ordered, placed};
use crate::requests::lemma_found_id;
use crate::store::FreshView;
use crate::tables::{
    assigned, first_named, first_variant, id_taken, lemma_named, lemma_named_some,
    lemma_variant_of, log_order, named, operation_order, variant_of, AssignmentRow,
    OperationRowView, RecordView, RemovalRow, StoreView, SyncOperationView, Table,
    VariantRowView,
};
use crate::time::Timestamp;
use crate::wellformed::{
    lemma_assignment_ended, lemma_assignment_made, lemma_described, lemma_inserted,
    lemma_recorded, lemma_removal_noted, lemma_removed, lemma_renamed, lemma_value_set,
    lemma_value_unset,
};
use vstd::prelude::*;

verus! {

/// The identifiers of one store by those of another.
pub type Naming = spec_fn(Id) -> Id;

/// Whether a project, an environment or a secret has an identifier.
pub open spec fn names_record(s: StoreView, id: Id) -> bool {
    ||| id_taken(s.projects, id)
    ||| id_taken(s.environments, id)
    ||| id_taken(s.secrets, id)
}

/// Whether records have different identifiers under a naming too.
pub open spec fn apart(s: StoreView, m: Naming) -> bool {
    forall|p: Id, q: Id|
        names_record(s, p) && names_record(s, q) && #[trigger] m(p) == #[trigger] m(q) ==> p == q
}

/// Whether two lists agree item by item.
pub open spec fn pairwise<A, B>(a: Seq<A>, b: Seq<B>, rel: spec_fn(A, B) -> bool) -> bool {
    &&& a.len() == b.len()
    &&& forall|i: int| #![trigger a[i]] #![trigger b[i]] 0 <= i < a.len() ==> rel(a[i], b[i])
}

/// Records that differ in their identifiers alone.
pub open spec fn record_rel(m: Naming) -> spec_fn(RecordView, RecordView) -> bool {
    |x: RecordView, y: RecordView| y == (RecordView { id: m(x.id), ..x })
}

/// Values that differ in identifiers and ciphertexts alone.
pub open spec fn value_rel(m: Naming, p: Seq<u8>, q: Seq<u8>) -> spec_fn(
    VariantRowView,
    VariantRowView,
) -> bool {
    |x: VariantRowView, y: VariantRowView|
        {
            &&& y.secret_id == m(x.secret_id)
            &&& y.environment_id == m(x.environment_id)
            &&& y.updated_at == x.updated_at
            &&& opened_text(q, y.nonce, y.ciphertext) == opened_text(p, x.nonce, x.ciphertext)
        }
}

/// Assignments that differ in identifiers alone.
pub open spec fn assignment_rel(m: Naming) -> spec_fn(AssignmentRow, AssignmentRow) -> bool {
    |x: AssignmentRow, y: AssignmentRow|
        y.project_id == m(x.project_id) && y.secret_id == m(x.secret_id)
}

/// Removals that differ in identifiers alone.
pub open spec fn removal_rel(m: Naming) -> spec_fn(RemovalRow, RemovalRow) -> bool {
    |x: RemovalRow, y: RemovalRow|
        y.secret_id == m(x.secret_id) && y.environment_id == m(x.environment_id) && y.removed_at
            == x.removed_at
}

/// Logged operations that differ in their ciphertexts alone.
pub open spec fn operation_rel(p: Seq<u8>, q: Seq<u8>) -> spec_fn(
    OperationRowView,
    OperationRowView,
) -> bool {
    |x: OperationRowView, y: OperationRowView|
        {
            &&& y.id == x.id
            &&& y.kind == x.kind
            &&& y.created_at == x.created_at
            &&& opened_text(q, y.nonce, y.ciphertext) == opened_text(p, x.nonce, x.ciphertext)
        }
}

/// Whether two stores differ in what was drawn for them alone.
pub open spec fn alike(s: StoreView, t: StoreView, m: Naming) -> bool {
    &&& apart(s, m)
    &&& pairwise(s.projects, t.projects, record_rel(m))
    &&& pairwise(s.environments, t.environments, record_rel(m))
    &&& pairwise(s.secrets, t.secrets, record_rel(m))
    &&& pairwise(s.variants, t.variants, value_rel(m, s.key, t.key))
    &&& pairwise(s.assignments, t.assignments, assignment_rel(m))
    &&& pairwise(s.removals, t.removals, removal_rel(m))
    &&& pairwise(s.operations, t.operations, operation_rel(s.key, t.key))
}

proof fn lemma_filter_pairwise<A, B>(
    a: Seq<A>,
    b: Seq<B>,
    rel: spec_fn(A, B) -> bool,
    p: spec_fn(A) -> bool,
    q: spec_fn(B) -> bool,
)
    requires
        pairwise(a, b, rel),
        forall|i: int| 0 <= i < a.len() ==> p(#[trigger] a[i]) == q(b[i]),
    ensures
        pairwise(a.filter(p), b.filter(q), rel),
    decreases a.len(),
{
    if a.len() == 0 {
        reveal(Seq::filter);
    } else {
        let n = a.len() - 1;
        assert(rel(a[n], b[n]));
        assert(p(a[n]) == q(b[n]));
        assert forall|i: int| 0 <= i < a.drop_last().len() implies p(#[trigger] a.drop_last()[i])
            == q(b.drop_last()[i]) by {
            assert(p(a[i]) == q(b[i]));
        }
        assert(pairwise(a.drop_last(), b.drop_last(), rel)) by {
            assert forall|i: int| 0 <= i < n implies rel(
                #[trigger] a.drop_last()[i],
                #[trigger] b.drop_last()[i],
            ) by {
                assert(rel(a[i], b[i]));
            }
        }
        lemma_filter_pairwise(a.drop_last(), b.drop_last(), rel, p, q);
        lemma_filter_last(a, p);
        lemma_filter_last(b, q);
    }
}

proof fn lemma_lookup(a: Seq<RecordView>, b: Seq<RecordView>, m: Naming, name: Seq<char>)
    requires
        pairwise(a, b, record_rel(m)),
    ensures
        named(b, name) == (match named(a, name) {
            Some(row) => Some(RecordView { id: m(row.id), ..row }),
            None => None,
        }),
{
    lemma_named_some(a, name);
    if named(a, name) is Some {
        let k = choose|k: int| first_named(a, name, k);
        assert(first_named(a, name, k));
        assert forall|j: int| 0 <= j < k implies (#[trigger] b[j]).name != name by {
            assert(a[j].name != name);
        }
        assert(first_named(b, name, k)) by {
            assert(a[k].name == name);
        }
        lemma_named(a, name, k);
        lemma_named(b, name, k);
    } else {
        assert forall|j: int| 0 <= j < b.len() implies (#[trigger] b[j]).name != name by {
            assert(a[j].name != name);
        }
        lemma_named(b, name, 0);
    }
}

proof fn lemma_record_alike(s: StoreView, t: StoreView, m: Naming, table: Table, name: Seq<char>)
    requires
        alike(s, t, m),
    ensures
        t.record(table, name) == (match s.record(table, name) {
            Some(row) => Some(RecordView { id: m(row.id), ..row }),
            None => None,
        }),
        s.record(table, name) matches Some(row) ==> id_taken(s.rows(table), row.id)
            && names_record(s, row.id),
{
    lemma_lookup(s.rows(table), t.rows(table), m, name);
    lemma_found_id(s, table, name);
}

proof fn lemma_variant_alike(s: StoreView, t: StoreView, m: Naming, secret_id: Id, place_id: Id)
    requires
        alike(s, t, m),
        s.values_placed(),
        names_record(s, secret_id),
        names_record(s, place_id),
    ensures
        match s.variant(secret_id, place_id) {
            Some(x) => t.variant(m(secret_id), m(place_id)) matches Some(y) && value_rel(
                m,
                s.key,
                t.key,
            )(x, y),
            None => t.variant(m(secret_id), m(place_id)) is None,
        },
        forall|i: int|
            0 <= i < s.variants.len() ==> ((#[trigger] s.variants[i]).secret_id == secret_id
                && s.variants[i].environment_id == place_id) == (t.variants[i].secret_id == m(
                secret_id,
            ) && t.variants[i].environment_id == m(place_id)),
        forall|i: int|
            0 <= i < s.variants.len() ==> ((#[trigger] s.variants[i]).secret_id == secret_id) == (
            t.variants[i].secret_id == m(secret_id)),
        forall|i: int|
            0 <= i < s.variants.len() ==> ((#[trigger] s.variants[i]).environment_id == place_id)
                == (t.variants[i].environment_id == m(place_id)),
{
    let a = s.variants;
    let b = t.variants;
    assert forall|i: int| 0 <= i < a.len() implies ((#[trigger] a[i]).secret_id == secret_id) == (
    b[i].secret_id == m(secret_id)) && (a[i].environment_id == place_id) == (b[i].environment_id
        == m(place_id)) by {
        assert(value_rel(m, s.key, t.key)(a[i], b[i]));
        assert(id_taken(s.secrets, a[i].secret_id));
        assert(m(a[i].secret_id) == m(secret_id) ==> a[i].secret_id == secret_id);
        assert(m(a[i].environment_id) == m(place_id) ==> a[i].environment_id == place_id);
    }
    lemma_variant_some(a, secret_id, place_id);
    if variant_of(a, secret_id, place_id) is Some {
        let k = choose|k: int| first_variant(a, secret_id, place_id, k);
        assert(first_variant(a, secret_id, place_id, k));
        assert forall|j: int| 0 <= j < k implies !((#[trigger] b[j]).secret_id == m(secret_id)
            && b[j].environment_id == m(place_id)) by {
            assert(!(a[j].secret_id == secret_id && a[j].environment_id == place_id));
        }
        assert(a[k].secret_id == secret_id);
        assert(first_variant(b, m(secret_id), m(place_id), k));
        lemma_variant_of(a, secret_id, place_id, k);
        lemma_variant_of(b, m(secret_id), m(place_id), k);
        assert(value_rel(m, s.key, t.key)(a[k], b[k]));
    } else {
        assert forall|j: int| 0 <= j < b.len() implies !((#[trigger] b[j]).secret_id == m(
            secret_id,
        ) && b[j].environment_id == m(place_id)) by {
            crate::wellformed::lemma_absent_variant(a, secret_id, place_id, j);
            assert(!(a[j].secret_id == secret_id && a[j].environment_id == place_id));
        }
        lemma_variant_of(b, m(secret_id), m(place_id), 0);
    }
}

proof fn lemma_removals_alike(
    s: StoreView,
    t: StoreView,
    m: Naming,
    secret_id: Id,
    place_id: Id,
    time: Timestamp,
)
    requires
        alike(s, t, m),
        s.removals_placed(),
        names_record(s, secret_id),
        names_record(s, place_id),
    ensures
        s.removed_after(secret_id, place_id, time) == t.removed_after(
            m(secret_id),
            m(place_id),
            time,
        ),
        forall|i: int|
            0 <= i < s.removals.len() ==> ((#[trigger] s.removals[i]).secret_id == secret_id) == (
            t.removals[i].secret_id == m(secret_id)),
        forall|i: int|
            0 <= i < s.removals.len() ==> ((#[trigger] s.removals[i]).environment_id == place_id)
                == (t.removals[i].environment_id == m(place_id)),
{
    let a = s.removals;
    let b = t.removals;
    assert forall|i: int| 0 <= i < a.len() implies ((#[trigger] a[i]).secret_id == secret_id) == (
    b[i].secret_id == m(secret_id)) && (a[i].environment_id == place_id) == (b[i].environment_id
        == m(place_id)) && a[i].removed_at == b[i].removed_at by {
        assert(removal_rel(m)(a[i], b[i]));
        assert(id_taken(s.secrets, a[i].secret_id));
        assert(m(a[i].secret_id) == m(secret_id) ==> a[i].secret_id == secret_id);
        assert(m(a[i].environment_id) == m(place_id) ==> a[i].environment_id == place_id);
    }
    if s.removed_after(secret_id, place_id, time) {
        let i = choose|i: int|
            0 <= i < a.len() && (#[trigger] a[i]).secret_id == secret_id && a[i].environment_id
                == place_id && time.earlier(a[i].removed_at);
        assert(b[i].secret_id == m(secret_id));
    }
    if t.removed_after(m(secret_id), m(place_id), time) {
        let i = choose|i: int|
            0 <= i < b.len() && (#[trigger] b[i]).secret_id == m(secret_id) && b[i].environment_id
                == m(place_id) && time.earlier(b[i].removed_at);
        assert(a[i].secret_id == secret_id);
    }
}

proof fn lemma_assigned_alike(s: StoreView, t: StoreView, m: Naming, owner_id: Id, secret_id: Id)
    requires
        alike(s, t, m),
        s.assignments_placed(),
        names_record(s, owner_id),
        names_record(s, secret_id),
    ensures
        assigned(s.assignments, owner_id, secret_id) == assigned(
            t.assignments,
            m(owner_id),
            m(secret_id),
        ),
        forall|i: int|
            0 <= i < s.assignments.len() ==> ((#[trigger] s.assignments[i]).secret_id == secret_id)
                == (t.assignments[i].secret_id == m(secret_id)),
        forall|i: int|
            0 <= i < s.assignments.len() ==> ((#[trigger] s.assignments[i]).project_id == owner_id)
                == (t.assignments[i].project_id == m(owner_id)),
{
    let a = s.assignments;
    let b = t.assignments;
    assert forall|i: int| 0 <= i < a.len() implies ((#[trigger] a[i]).secret_id == secret_id) == (
    b[i].secret_id == m(secret_id)) && (a[i].project_id == owner_id) == (b[i].project_id == m(
        owner_id,
    )) by {
        assert(assignment_rel(m)(a[i], b[i]));
        assert(id_taken(s.secrets, a[i].secret_id));
        assert(m(a[i].secret_id) == m(secret_id) ==> a[i].secret_id == secret_id);
        assert(m(a[i].project_id) == m(owner_id) ==> a[i].project_id == owner_id);
    }
    if assigned(a, owner_id, secret_id) {
        let i = choose|i: int|
            0 <= i < a.len() && (#[trigger] a[i]).project_id == owner_id && a[i].secret_id
                == secret_id;
        assert(b[i].project_id == m(owner_id));
    }
    if assigned(b, m(owner_id), m(secret_id)) {
        let i = choose|i: int|
            0 <= i < b.len() && (#[trigger] b[i]).project_id == m(owner_id) && b[i].secret_id == m(
                secret_id,
            );
        assert(a[i].project_id == owner_id);
    }
}

proof fn lemma_taken_alike(a: Seq<RecordView>, b: Seq<RecordView>, m: Naming, id: Id)
    requires
        pairwise(a, b, record_rel(m)),
        id_taken(a, id),
    ensures
        id_taken(b, m(id)),
{
    let i = choose|i: int| 0 <= i < a.len() && (#[trigger] a[i]).id == id;
    assert(b[i].id == m(id));
}

proof fn lemma_named_alike(s: StoreView, t: StoreView, m: Naming, id: Id)
    requires
        alike(s, t, m),
        names_record(s, id),
    ensures
        names_record(t, m(id)),
{
    if id_taken(s.projects, id) {
        lemma_taken_alike(s.projects, t.projects, m, id);
    }
    if id_taken(s.environments, id) {
        lemma_taken_alike(s.environments, t.environments, m, id);
    }
    if id_taken(s.secrets, id) {
        lemma_taken_alike(s.secrets, t.secrets, m, id);
    }
}

/// A naming of an identifier that is in no use can be chosen anew.
proof fn lemma_renaming(s: StoreView, t: StoreView, m: Naming, f: Id, g: Id)
    requires
        alike(s, t, m),
        s.well_formed(),
        !names_record(s, f),
        !names_record(t, g),
    ensures
        alike(
            s,
            t,
            |id: Id|
                if id == f {
                    g
                } else {
                    m(id)
                },
        ),
{
    let n: Naming = |id: Id|
        if id == f {
            g
        } else {
            m(id)
        };
    assert forall|p: Id, q: Id|
        names_record(s, p) && names_record(s, q) && #[trigger] n(p) == #[trigger] n(q) implies p
        == q by {
        assert(m(p) == m(q));
    }
    assert forall|i: int| 0 <= i < s.projects.len() implies record_rel(n)(
        s.projects[i],
        #[trigger] t.projects[i],
    ) by {
        assert(record_rel(m)(s.projects[i], t.projects[i]));
        assert(id_taken(s.projects, s.projects[i].id));
    }
    assert forall|i: int| 0 <= i < s.environments.len() implies record_rel(n)(
        s.environments[i],
        #[trigger] t.environments[i],
    ) by {
        assert(record_rel(m)(s.environments[i], t.environments[i]));
        assert(id_taken(s.environments, s.environments[i].id));
    }
    assert forall|i: int| 0 <= i < s.secrets.len() implies record_rel(n)(
        s.secrets[i],
        #[trigger] t.secrets[i],
    ) by {
        assert(record_rel(m)(s.secrets[i], t.secrets[i]));
        assert(id_taken(s.secrets, s.secrets[i].id));
    }
    assert forall|i: int| 0 <= i < s.variants.len() implies value_rel(n, s.key, t.key)(
        s.variants[i],
        #[trigger] t.variants[i],
    ) by {
        assert(value_rel(m, s.key, t.key)(s.variants[i], t.variants[i]));
        assert(id_taken(s.secrets, s.variants[i].secret_id));
    }
    assert forall|i: int| 0 <= i < s.assignments.len() implies assignment_rel(n)(
        s.assignments[i],
        #[trigger] t.assignments[i],
    ) by {
        assert(assignment_rel(m)(s.assignments[i], t.assignments[i]));
        assert(id_taken(s.secrets, s.assignments[i].secret_id));
    }
    assert forall|i: int| 0 <= i < s.removals.len() implies removal_rel(n)(
        s.removals[i],
        #[trigger] t.removals[i],
    ) by {
        assert(removal_rel(m)(s.removals[i], t.removals[i]));
        assert(id_taken(s.secrets, s.removals[i].secret_id));
    }
}

proof fn lemma_rows_alike(
    s: StoreView,
    t: StoreView,
    m: Naming,
    table: Table,
    after: Seq<RecordView>,
    other: Seq<RecordView>,
)
    requires
        alike(s, t, m),
        pairwise(after, other, record_rel(m)),
        forall|id: Id| #[trigger] id_taken(after, id) ==> names_record(s, id),
    ensures
        alike(s.with_rows(table, after), t.with_rows(table, other), m),
{
    let u = s.with_rows(table, after);
    assert forall|p: Id, q: Id|
        names_record(u, p) && names_record(u, q) && #[trigger] m(p) == #[trigger] m(q) implies p
        == q by {
        assert(names_record(s, p)) by {
            if id_taken(after, p) {
            }
        }
        assert(names_record(s, q)) by {
            if id_taken(after, q) {
            }
        }
    }
}

proof fn lemma_addition_alike(
    s: StoreView,
    t: StoreView,
    m: Naming,
    table: Table,
    row: (Seq<char>, Option<Seq<char>>, Timestamp),
    f: Id,
    g: Id,
)
    requires
        alike(s, t, m),
        m(f) == g,
        !names_record(s, f),
        !names_record(t, g),
    ensures
        alike(
            s.addition_replayed(table, row.0, row.1, row.2, f).0,
            t.addition_replayed(table, row.0, row.1, row.2, g).0,
            m,
        ),
{
    lemma_record_alike(s, t, m, table, row.0);
    if s.record(table, row.0) is None {
        let new = RecordView {
            id: f,
            name: row.0,
            description: row.1,
            created_at: row.2,
            updated_at: row.2,
        };
        let u = s.inserted(table, new)->Ok_0;
        let w = t.addition_replayed(table, row.0, row.1, row.2, g).0;
        assert(!id_taken(s.rows(table), f) && !id_taken(t.rows(table), g));
        assert(pairwise(u.rows(table), w.rows(table), record_rel(m))) by {
            assert(pairwise(s.rows(table), t.rows(table), record_rel(m)));
            assert forall|i: int| 0 <= i < u.rows(table).len() implies record_rel(m)(
                u.rows(table)[i],
                #[trigger] w.rows(table)[i],
            ) by {
                if i < s.rows(table).len() {
                    assert(record_rel(m)(s.rows(table)[i], t.rows(table)[i]));
                }
            }
        }
        assert forall|p: Id| #[trigger] names_record(u, p) implies names_record(s, p) || p == f by {
            if id_taken(u.rows(table), p) {
                let i = choose|i: int|
                    0 <= i < u.rows(table).len() && (#[trigger] u.rows(table)[i]).id == p;
                if i < s.rows(table).len() {
                    assert(s.rows(table)[i].id == p);
                }
            }
        }
        assert forall|p: Id, q: Id|
            names_record(u, p) && names_record(u, q) && #[trigger] m(p) == #[trigger] m(
                q,
            ) implies p == q by {
            if p == f && q != f {
                lemma_named_alike(s, t, m, q);
            }
            if q == f && p != f {
                lemma_named_alike(s, t, m, p);
            }
        }
    }
}

proof fn lemma_ids_mapped(s: StoreView, table: Table, after: Seq<RecordView>)
    requires
        after.len() == s.rows(table).len(),
        forall|i: int| 0 <= i < after.len() ==> (#[trigger] after[i]).id == s.rows(table)[i].id,
    ensures
        forall|id: Id| #[trigger] id_taken(after, id) ==> names_record(s, id),
{
    assert forall|id: Id| #[trigger] id_taken(after, id) implies names_record(s, id) by {
        let i = choose|i: int| 0 <= i < after.len() && (#[trigger] after[i]).id == id;
        assert(s.rows(table)[i].id == id);
        assert(id_taken(s.rows(table), id));
    }
}

proof fn lemma_rename_alike(
    s: StoreView,
    t: StoreView,
    m: Naming,
    table: Table,
    from: Seq<char>,
    to: Seq<char>,
    time: Timestamp,
)
    requires
        alike(s, t, m),
    ensures
        alike(
            s.renaming_replayed(table, from, to, time),
            t.renaming_replayed(table, from, to, time),
            m,
        ),
{
    lemma_record_alike(s, t, m, table, from);
    lemma_record_alike(s, t, m, table, to);
    if s.record(table, to) is None && s.record(table, from) is Some {
        let a = s.renamed(table, from, to, time).rows(table);
        let b = t.renamed(table, from, to, time).rows(table);
        assert(pairwise(s.rows(table), t.rows(table), record_rel(m)));
        assert forall|i: int| 0 <= i < a.len() implies record_rel(m)(a[i], #[trigger] b[i]) by {
            assert(record_rel(m)(s.rows(table)[i], t.rows(table)[i]));
        }
        lemma_ids_mapped(s, table, a);
        lemma_rows_alike(s, t, m, table, a, b);
    }
}

proof fn lemma_describe_alike(
    s: StoreView,
    t: StoreView,
    m: Naming,
    key: Seq<char>,
    description: Option<Seq<char>>,
    time: Timestamp,
)
    requires
        alike(s, t, m),
    ensures
        alike(
            s.described(Table::Secrets, key, description, time),
            t.described(Table::Secrets, key, description, time),
            m,
        ),
{
    let a = s.described(Table::Secrets, key, description, time).secrets;
    let b = t.described(Table::Secrets, key, description, time).secrets;
    assert forall|i: int| 0 <= i < a.len() implies record_rel(m)(a[i], #[trigger] b[i]) by {
        assert(record_rel(m)(s.secrets[i], t.secrets[i]));
    }
    lemma_ids_mapped(s, Table::Secrets, a);
    lemma_rows_alike(s, t, m, Table::Secrets, a, b);
}

proof fn lemma_removal_alike(s: StoreView, t: StoreView, m: Naming, table: Table, name: Seq<char>)
    requires
        alike(s, t, m),
        s.well_formed(),
    ensures
        alike(s.removal_replayed(table, name), t.removal_replayed(table, name), m),
{
    lemma_record_alike(s, t, m, table, name);
    if s.record(table, name) is Some {
        let id = s.record(table, name)->0.id;
        let u = s.removed(table, name, id);
        let w = t.removed(table, name, m(id));
        let other = |r: RecordView| r.name != name;
        assert(pairwise(s.rows(table), t.rows(table), record_rel(m)));
        assert forall|i: int| 0 <= i < s.rows(table).len() implies other(
            #[trigger] s.rows(table)[i],
        ) == other(t.rows(table)[i]) by {
            assert(record_rel(m)(s.rows(table)[i], t.rows(table)[i]));
        }
        lemma_filter_pairwise(s.rows(table), t.rows(table), record_rel(m), other, other);
        assert forall|p: Id| #[trigger] id_taken(s.rows(table).filter(other), p) implies
            names_record(s, p) by {
            crate::laws::lemma_rows_filtered(s.rows(table), other, p);
        }
        lemma_rows_alike(
            s,
            t,
            m,
            table,
            s.rows(table).filter(other),
            t.rows(table).filter(other),
        );
        let rel = value_rel(m, s.key, t.key);
        lemma_variant_alike(s, t, m, id, id);
        lemma_removals_alike(s, t, m, id, id, s.record(table, name)->0.created_at);
        lemma_assigned_alike(s, t, m, id, id);
        match table {
            Table::Projects => {
                lemma_filter_pairwise(
                    s.assignments,
                    t.assignments,
                    assignment_rel(m),
                    |a: AssignmentRow| a.project_id != id,
                    |a: AssignmentRow| a.project_id != m(id),
                );
            },
            Table::Environments => {
                lemma_filter_pairwise(
                    s.variants,
                    t.variants,
                    rel,
                    |v: VariantRowView| v.environment_id != id,
                    |v: VariantRowView| v.environment_id != m(id),
                );
                lemma_filter_pairwise(
                    s.removals,
                    t.removals,
                    removal_rel(m),
                    |r: RemovalRow| r.environment_id != id,
                    |r: RemovalRow| r.environment_id != m(id),
                );
            },
            Table::Secrets => {
                lemma_filter_pairwise(
                    s.variants,
                    t.variants,
                    rel,
                    |v: VariantRowView| v.secret_id != id,
                    |v: VariantRowView| v.secret_id != m(id),
                );
                lemma_filter_pairwise(
                    s.removals,
                    t.removals,
                    removal_rel(m),
                    |r: RemovalRow| r.secret_id != id,
                    |r: RemovalRow| r.secret_id != m(id),
                );
                lemma_filter_pairwise(
                    s.assignments,
                    t.assignments,
                    assignment_rel(m),
                    |a: AssignmentRow| a.secret_id != id,
                    |a: AssignmentRow| a.secret_id != m(id),
                );
            },
        }
        assert(apart(u, m)) by {
            let v = s.with_rows(table, s.rows(table).filter(other));
            assert(apart(v, m));
            assert forall|p: Id, q: Id|
                names_record(u, p) && names_record(u, q) && #[trigger] m(p) == #[trigger] m(
                    q,
                ) implies p == q by {
                assert(names_record(v, p) && names_record(v, q));
            }
        }
    }
}

proof fn lemma_value_alike(
    s: StoreView,
    t: StoreView,
    m: Naming,
    key: Seq<char>,
    environment: Seq<char>,
    value: Seq<char>,
    time: Timestamp,
    f: FreshView,
    g: FreshView,
)
    requires
        alike(s, t, m),
        s.well_formed(),
        t.well_formed(),
        s.value_replayed(key, environment, value, time, f).1 is Ok,
        t.value_replayed(key, environment, value, time, g).1 is Ok,
        s.replay_confirmed(Change::VariantSet { key, environment, value }, time, f),
        t.replay_confirmed(Change::VariantSet { key, environment, value }, time, g),
    ensures
        alike(
            s.value_replayed(key, environment, value, time, f).0,
            t.value_replayed(key, environment, value, time, g).0,
            m,
        ),
{
    lemma_record_alike(s, t, m, Table::Secrets, key);
    lemma_record_alike(s, t, m, Table::Environments, environment);
    if s.record(Table::Secrets, key) is Some && s.record(Table::Environments, environment) is Some {
        let secret_id = s.record(Table::Secrets, key)->0.id;
        let place_id = s.record(Table::Environments, environment)->0.id;
        lemma_variant_alike(s, t, m, secret_id, place_id);
        lemma_removals_alike(s, t, m, secret_id, place_id, time);
        assert(s.outdated(secret_id, place_id, time) == t.outdated(
            m(secret_id),
            m(place_id),
            time,
        ));
        if !s.outdated(secret_id, place_id, time) {
            let u = s.value_replayed(key, environment, value, time, f).0;
            let w = t.value_replayed(key, environment, value, time, g).0;
            lemma_value_stands(s, key, environment, value, f.id, f.nonce, time);
            lemma_value_stands(t, key, environment, value, g.id, g.nonce, time);
            let rel = value_rel(m, s.key, t.key);
            assert forall|i: int| 0 <= i < u.variants.len() implies rel(
                u.variants[i],
                #[trigger] w.variants[i],
            ) by {
                if i < s.variants.len() {
                    assert(rel(s.variants[i], t.variants[i]));
                    assert((s.variants[i].secret_id == secret_id && s.variants[i].environment_id
                        == place_id) == (t.variants[i].secret_id == m(secret_id)
                        && t.variants[i].environment_id == m(place_id)));
                }
            }
            assert(apart(u, m)) by {
                assert forall|p: Id, q: Id|
                    names_record(u, p) && names_record(u, q) && #[trigger] m(p) == #[trigger] m(
                        q,
                    ) implies p == q by {
                    assert(names_record(s, p) && names_record(s, q));
                }
            }
        }
    }
}

proof fn lemma_same_removals(
    s: StoreView,
    t: StoreView,
    secret_id: Id,
    place_id: Id,
    time: Timestamp,
)
    requires
        s.removals == t.removals,
    ensures
        s.removed_after(secret_id, place_id, time) == t.removed_after(secret_id, place_id, time),
{
    if s.removed_after(secret_id, place_id, time) {
        let i = choose|i: int|
            0 <= i < s.removals.len() && (#[trigger] s.removals[i]).secret_id == secret_id
                && s.removals[i].environment_id == place_id && time.earlier(
                s.removals[i].removed_at,
            );
        assert(t.removals[i].secret_id == secret_id);
    }
    if t.removed_after(secret_id, place_id, time) {
        let i = choose|i: int|
            0 <= i < t.removals.len() && (#[trigger] t.removals[i]).secret_id == secret_id
                && t.removals[i].environment_id == place_id && time.earlier(
                t.removals[i].removed_at,
            );
        assert(s.removals[i].secret_id == secret_id);
    }
}

proof fn lemma_unset_alike(
    s: StoreView,
    t: StoreView,
    m: Naming,
    key: Seq<char>,
    environment: Seq<char>,
    time: Timestamp,
)
    requires
        alike(s, t, m),
        s.well_formed(),
    ensures
        alike(
            s.unsetting_replayed(key, environment, time),
            t.unsetting_replayed(key, environment, time),
            m,
        ),
{
    lemma_record_alike(s, t, m, Table::Secrets, key);
    lemma_record_alike(s, t, m, Table::Environments, environment);
    if s.record(Table::Secrets, key) is Some && s.record(Table::Environments, environment) is Some {
        let secret_id = s.record(Table::Secrets, key)->0.id;
        let place_id = s.record(Table::Environments, environment)->0.id;
        let u = s.unsetting_replayed(key, environment, time);
        let w = t.unsetting_replayed(key, environment, time);
        lemma_variant_alike(s, t, m, secret_id, place_id);
        lemma_removals_alike(s, t, m, secret_id, place_id, time);
        lemma_filter_pairwise(
            s.variants,
            t.variants,
            value_rel(m, s.key, t.key),
            |v: VariantRowView| !(v.secret_id == secret_id && v.environment_id == place_id),
            |v: VariantRowView|
                !(v.secret_id == m(secret_id) && v.environment_id == m(place_id)),
        );
        let p = |r: RemovalRow| !(r.secret_id == secret_id && r.environment_id == place_id);
        let q = |r: RemovalRow|
            !(r.secret_id == m(secret_id) && r.environment_id == m(place_id));
        lemma_filter_pairwise(s.removals, t.removals, removal_rel(m), p, q);
        let dropped = s.value_unset(secret_id, place_id);
        let other = t.value_unset(m(secret_id), m(place_id));
        lemma_same_removals(s, dropped, secret_id, place_id, time);
        lemma_same_removals(t, other, m(secret_id), m(place_id), time);
        if !s.removed_after(secret_id, place_id, time) {
            let rel = removal_rel(m);
            assert forall|i: int| 0 <= i < u.removals.len() implies rel(
                u.removals[i],
                #[trigger] w.removals[i],
            ) by {
                if i < s.removals.filter(p).len() {
                    assert(rel(s.removals.filter(p)[i], t.removals.filter(q)[i]));
                }
            }
        }
        assert(apart(u, m)) by {
            assert forall|a: Id, b: Id|
                names_record(u, a) && names_record(u, b) && #[trigger] m(a) == #[trigger] m(
                    b,
                ) implies a == b by {
                assert(names_record(s, a) && names_record(s, b));
            }
        }
    }
}

proof fn lemma_assign_alike(
    s: StoreView,
    t: StoreView,
    m: Naming,
    owner_id: Id,
    secret_id: Id,
    time: Timestamp,
)
    requires
        alike(s, t, m),
        s.well_formed(),
        names_record(s, owner_id),
        names_record(s, secret_id),
    ensures
        alike(
            s.assignment_made(owner_id, secret_id, time),
            t.assignment_made(m(owner_id), m(secret_id), time),
            m,
        ),
        alike(
            s.assignment_ended(owner_id, secret_id),
            t.assignment_ended(m(owner_id), m(secret_id)),
            m,
        ),
{
    let rel = assignment_rel(m);
    lemma_assigned_alike(s, t, m, owner_id, secret_id);
    let u = s.assignment_made(owner_id, secret_id, time);
    let w = t.assignment_made(m(owner_id), m(secret_id), time);
    assert forall|i: int| 0 <= i < u.assignments.len() implies rel(
        u.assignments[i],
        #[trigger] w.assignments[i],
    ) by {
        if i < s.assignments.len() {
            assert(rel(s.assignments[i], t.assignments[i]));
        }
    }
    lemma_filter_pairwise(
        s.assignments,
        t.assignments,
        rel,
        |a: AssignmentRow| !(a.project_id == owner_id && a.secret_id == secret_id),
        |a: AssignmentRow| !(a.project_id == m(owner_id) && a.secret_id == m(secret_id)),
    );
    let ended = s.assignment_ended(owner_id, secret_id);
    assert forall|p: Id, q: Id|
        names_record(u, p) && names_record(u, q) && #[trigger] m(p) == #[trigger] m(q) implies p
        == q by {
        assert(names_record(s, p) && names_record(s, q));
    }
    assert forall|p: Id, q: Id|
        names_record(ended, p) && names_record(ended, q) && #[trigger] m(p) == #[trigger] m(
            q,
        ) implies p == q by {
        assert(names_record(s, p) && names_record(s, q));
    }
}

/// Replaying a change keeps a store well-formed.
pub proof fn lemma_replay_keeps(
    t: StoreView,
    change: ChangeView,
    time: Timestamp,
    fresh: FreshView,
)
    requires
        t.well_formed(),
    ensures
        t.change_replayed(change, time, fresh).0.well_formed(),
{
    match change {
        Change::ProjectAdd { name, description } => {
            lemma_addition_keeps(t, Table::Projects, name, description, time, fresh.id);
        },
        Change::EnvironmentAdd { name, description } => {
            lemma_addition_keeps(t, Table::Environments, name, description, time, fresh.id);
        },
        Change::SecretAdd { key, description } => {
            lemma_addition_keeps(t, Table::Secrets, key, description, time, fresh.id);
        },
        Change::ProjectRename { from, to } => {
            if t.record(Table::Projects, to) is None {
                lemma_renamed(t, Table::Projects, from, to, time);
            }
        },
        Change::EnvironmentRename { from, to } => {
            if t.record(Table::Environments, to) is None {
                lemma_renamed(t, Table::Environments, from, to, time);
            }
        },
        Change::SecretRename { from, to } => {
            if t.record(Table::Secrets, to) is None {
                lemma_renamed(t, Table::Secrets, from, to, time);
            }
        },
        Change::ProjectRemove { name } => lemma_removal_keeps(t, Table::Projects, name),
        Change::EnvironmentRemove { name, .. } => {
            lemma_removal_keeps(t, Table::Environments, name);
        },
        Change::SecretRemove { key } => lemma_removal_keeps(t, Table::Secrets, key),
        Change::SecretDescribe { key, description } => {
            lemma_described(t, Table::Secrets, key, description, time);
        },
        Change::VariantSet { key, environment, value } => {
            if t.record(Table::Secrets, key) is Some && t.record(
                Table::Environments,
                environment,
            ) is Some {
                let secret = t.record(Table::Secrets, key)->0;
                let place = t.record(Table::Environments, environment)->0;
                lemma_found_id(t, Table::Secrets, key);
                lemma_found_id(t, Table::Environments, environment);
                lemma_value_set(t, secret.id, place.id, value, fresh.id, fresh.nonce, time);
            }
        },
        Change::VariantUnset { key, environment } => {
            if t.record(Table::Secrets, key) is Some && t.record(
                Table::Environments,
                environment,
            ) is Some {
                let secret = t.record(Table::Secrets, key)->0;
                let place = t.record(Table::Environments, environment)->0;
                lemma_found_id(t, Table::Secrets, key);
                lemma_found_id(t, Table::Environments, environment);
                lemma_value_unset(t, secret.id, place.id);
                lemma_removal_noted(t, secret.id, place.id, time);
                lemma_removal_noted(
                    t.value_unset(secret.id, place.id),
                    secret.id,
                    place.id,
                    time,
                );
            }
        },
        Change::SecretAssign { key, project } => lemma_assigning_keeps(t, key, project, time),
        Change::SecretUnassign { key, project } => lemma_assigning_keeps(t, key, project, time),
    }
}

proof fn lemma_addition_keeps(
    t: StoreView,
    table: Table,
    name: Seq<char>,
    description: Option<Seq<char>>,
    time: Timestamp,
    id: Id,
)
    requires
        t.well_formed(),
    ensures
        t.addition_replayed(table, name, description, time, id).0.well_formed(),
{
    if t.record(table, name) is None {
        lemma_inserted(
            t,
            table,
            RecordView { id, name, description, created_at: time, updated_at: time },
        );
    }
}

proof fn lemma_removal_keeps(t: StoreView, table: Table, name: Seq<char>)
    requires
        t.well_formed(),
    ensures
        t.removal_replayed(table, name).well_formed(),
{
    if t.record(table, name) is Some {
        lemma_named_some(t.rows(table), name);
        lemma_removed(t, table, t.record(table, name)->0);
    }
}

proof fn lemma_assigning_keeps(
    t: StoreView,
    key: Seq<char>,
    project: Seq<char>,
    time: Timestamp,
)
    requires
        t.well_formed(),
    ensures
        t.record(Table::Secrets, key) is Some && t.record(Table::Projects, project) is Some ==> {
            let secret = t.record(Table::Secrets, key)->0;
            let owner = t.record(Table::Projects, project)->0;
            &&& t.assignment_made(owner.id, secret.id, time).well_formed()
            &&& t.assignment_ended(owner.id, secret.id).well_formed()
        },
{
    if t.record(Table::Secrets, key) is Some && t.record(Table::Projects, project) is Some {
        let secret = t.record(Table::Secrets, key)->0;
        let owner = t.record(Table::Projects, project)->0;
        lemma_found_id(t, Table::Secrets, key);
        lemma_found_id(t, Table::Projects, project);
        lemma_assignment_made(t, owner.id, secret.id, time);
        lemma_assignment_ended(t, owner.id, secret.id);
    }
}

proof fn lemma_replay_alike(
    s: StoreView,
    t: StoreView,
    m: Naming,
    change: ChangeView,
    time: Timestamp,
    f: FreshView,
    g: FreshView,
)
    requires
        alike(s, t, m),
        s.well_formed(),
        t.well_formed(),
        m(f.id) == g.id,
        !names_record(s, f.id),
        !names_record(t, g.id),
        s.change_replayed(change, time, f).1 is Ok,
        t.change_replayed(change, time, g).1 is Ok,
        s.replay_confirmed(change, time, f),
        t.replay_confirmed(change, time, g),
    ensures
        alike(s.change_replayed(change, time, f).0, t.change_replayed(change, time, g).0, m),
{
    match change {
        Change::ProjectAdd { name, description } => {
            let row = (name, description, time);
            lemma_addition_alike(s, t, m, Table::Projects, row, f.id, g.id);
        },
        Change::EnvironmentAdd { name, description } => {
            let row = (name, description, time);
            lemma_addition_alike(s, t, m, Table::Environments, row, f.id, g.id);
        },
        Change::SecretAdd { key, description } => {
            let row = (key, description, time);
            lemma_addition_alike(s, t, m, Table::Secrets, row, f.id, g.id);
        },
        Change::ProjectRename { from, to } => {
            lemma_rename_alike(s, t, m, Table::Projects, from, to, time);
        },
        Change::EnvironmentRename { from, to } => {
            lemma_rename_alike(s, t, m, Table::Environments, from, to, time);
        },
        Change::SecretRename { from, to } => {
            lemma_rename_alike(s, t, m, Table::Secrets, from, to, time);
        },
        Change::ProjectRemove { name } => lemma_removal_alike(s, t, m, Table::Projects, name),
        Change::EnvironmentRemove { name, .. } => {
            lemma_removal_alike(s, t, m, Table::Environments, name);
        },
        Change::SecretRemove { key } => lemma_removal_alike(s, t, m, Table::Secrets, key),
        Change::SecretDescribe { key, description } => {
            lemma_record_alike(s, t, m, Table::Secrets, key);
            lemma_describe_alike(s, t, m, key, description, time);
        },
        Change::VariantSet { key, environment, value } => {
            lemma_value_alike(s, t, m, key, environment, value, time, f, g);
        },
        Change::VariantUnset { key, environment } => {
            lemma_unset_alike(s, t, m, key, environment, time);
        },
        Change::SecretAssign { key, project } => {
            lemma_record_alike(s, t, m, Table::Secrets, key);
            lemma_record_alike(s, t, m, Table::Projects, project);
            if s.record(Table::Secrets, key) is Some && s.record(Table::Projects, project) is Some {
                let secret = s.record(Table::Secrets, key)->0;
                let owner = s.record(Table::Projects, project)->0;
                lemma_assign_alike(s, t, m, owner.id, secret.id, time);
            }
        },
        Change::SecretUnassign { key, project } => {
            lemma_record_alike(s, t, m, Table::Secrets, key);
            lemma_record_alike(s, t, m, Table::Projects, project);
            if s.record(Table::Secrets, key) is Some && s.record(Table::Projects, project) is Some {
                let secret = s.record(Table::Secrets, key)->0;
                let owner = s.record(Table::Projects, project)->0;
                lemma_assign_alike(s, t, m, owner.id, secret.id, time);
            }
        },
    }
}

proof fn lemma_knows_alike(s: StoreView, t: StoreView, m: Naming, id: Id)
    requires
        alike(s, t, m),
    ensures
        s.knows(id) == t.knows(id),
{
    let rel = operation_rel(s.key, t.key);
    if s.knows(id) {
        let i = choose|i: int|
            0 <= i < s.operations.len() && (#[trigger] s.operations[i]).id == id;
        assert(rel(s.operations[i], t.operations[i]));
        assert(t.operations[i].id == id);
    }
    if t.knows(id) {
        let i = choose|i: int|
            0 <= i < t.operations.len() && (#[trigger] t.operations[i]).id == id;
        assert(rel(s.operations[i], t.operations[i]));
        assert(s.operations[i].id == id);
    }
}

/// An import of one operation is read back where its replay is.
proof fn lemma_import_reads(t: StoreView, operation: SyncOperationView, fresh: FreshView)
    requires
        t.well_formed(),
        t.operation_imported(operation, fresh).1 == Ok::<bool, StoreErrorView>(true),
        t.import_confirmed(operation, fresh),
    ensures
        ({
            let u = t.operation_replayed(operation, fresh).0;
            let w = t.operation_imported(operation, fresh).0;
            &&& w == (StoreView { operations: w.operations, ..u })
            &&& w.well_formed()
            &&& u.operations == t.operations
            &&& w.operations == t.operations.push(w.operations.last())
            &&& w.operation_opened(w.operations.last()) == Ok::<
                SyncOperationView,
                StoreErrorView,
            >(operation)
            &&& w.operations.last().id == operation.id
            &&& w.operations.last().kind == operation.kind
            &&& w.operations.last().created_at == operation.created_at
            &&& change_read(operation.kind, operation.payload) matches Ok(Some(change))
                ==> t.replay_confirmed(change, operation.created_at, fresh) && t.change_replayed(
                change,
                operation.created_at,
                fresh,
            ).1 is Ok
        }),
{
    let u = t.operation_replayed(operation, fresh).0;
    let w = t.operation_imported(operation, fresh).0;
    lemma_replay_keeps_log(t, operation, fresh);
    if let Ok(Some(change)) = change_read(operation.kind, operation.payload) {
        lemma_replay_keeps(t, change, operation.created_at, fresh);
        if let Change::VariantSet { key, environment, value } = change {
            assert(w.value(key, environment) == u.value(key, environment));
        }
    }
    lemma_recorded(u, operation, fresh.operation_nonce);
    assert(w.operations =~= t.operations.push(w.operations.last()));
}

proof fn lemma_import_alike(
    s: StoreView,
    t: StoreView,
    m: Naming,
    operation: SyncOperationView,
    f: FreshView,
    g: FreshView,
)
    requires
        alike(s, t, m),
        s.well_formed(),
        t.well_formed(),
        m(f.id) == g.id,
        !names_record(s, f.id),
        !names_record(t, g.id),
        s.operation_imported(operation, f).1 is Ok,
        t.operation_imported(operation, g).1 is Ok,
        s.import_confirmed(operation, f),
        t.import_confirmed(operation, g),
    ensures
        alike(s.operation_imported(operation, f).0, t.operation_imported(operation, g).0, m),
        s.operation_imported(operation, f).0.well_formed(),
        t.operation_imported(operation, g).0.well_formed(),
        s.operation_imported(operation, f).1 == t.operation_imported(operation, g).1,
{
    lemma_knows_alike(s, t, m, operation.id);
    if !s.knows(operation.id) {
        lemma_import_reads(s, operation, f);
        lemma_import_reads(t, operation, g);
        let u = s.operation_replayed(operation, f).0;
        let w = t.operation_replayed(operation, g).0;
        if let Ok(Some(change)) = change_read(operation.kind, operation.payload) {
            lemma_replay_alike(s, t, m, change, operation.created_at, f, g);
        }
        assert(alike(u, w, m));
        let a = s.operation_imported(operation, f).0;
        let b = t.operation_imported(operation, g).0;
        let rel = operation_rel(a.key, b.key);
        assert forall|i: int| 0 <= i < a.operations.len() implies rel(
            a.operations[i],
            #[trigger] b.operations[i],
        ) by {
            if i < s.operations.len() {
                assert(operation_rel(u.key, w.key)(u.operations[i], w.operations[i]));
            }
        }
        assert forall|p: Id, q: Id|
            names_record(a, p) && names_record(a, q) && #[trigger] m(p) == #[trigger] m(
                q,
            ) implies p == q by {
            assert(names_record(u, p) && names_record(u, q));
        }
    }
}

proof fn lemma_imports_alike(
    s: StoreView,
    operations: Seq<SyncOperationView>,
    f: Seq<FreshView>,
    g: Seq<FreshView>,
) -> (m: Naming)
    requires
        s.well_formed(),
        operations.len() <= f.len(),
        operations.len() <= g.len(),
        unused_draws(s, f),
        unused_draws(s, g),
        s.all_imported(operations, f).1 is Ok,
        s.all_imported(operations, g).1 is Ok,
        s.all_confirmed(operations, f),
        s.all_confirmed(operations, g),
    ensures
        alike(s.all_imported(operations, f).0, s.all_imported(operations, g).0, m),
        s.all_imported(operations, f).0.well_formed(),
        s.all_imported(operations, g).0.well_formed(),
        s.all_imported(operations, f).1 == s.all_imported(operations, g).1,
    decreases operations.len(),
{
    if operations.len() == 0 {
        let m: Naming = |id: Id| id;
        m
    } else {
        let n = operations.len() - 1;
        let rest = operations.drop_last();
        let before = lemma_imports_alike(s, rest, f, g);
        let a = s.all_imported(rest, f).0;
        let b = s.all_imported(rest, g).0;
        lemma_draw_unused(s, rest, f);
        lemma_draw_unused(s, rest, g);
        let x = f[n].id;
        let y = g[n].id;
        let m: Naming = |id: Id|
            if id == x {
                y
            } else {
                before(id)
            };
        lemma_renaming(a, b, before, x, y);
        lemma_import_alike(a, b, m, operations.last(), f[n], g[n]);
        m
    }
}

proof fn lemma_registry_alike(s: StoreView, t: StoreView, m: Naming)
    requires
        alike(s, t, m),
        s.well_formed(),
    ensures
        s.registry() == t.registry(),
{
    let a = s.registry();
    let b = t.registry();
    assert forall|name: Seq<char>| #[trigger]
        descriptions(s.projects).contains_key(name) == descriptions(t.projects).contains_key(name)
            && (descriptions(s.projects).contains_key(name) ==> descriptions(s.projects)[name]
            == descriptions(t.projects)[name]) by {
        lemma_lookup(s.projects, t.projects, m, name);
    }
    assert forall|name: Seq<char>| #[trigger]
        descriptions(s.environments).contains_key(name) == descriptions(
            t.environments,
        ).contains_key(name) && (descriptions(s.environments).contains_key(name)
            ==> descriptions(s.environments)[name] == descriptions(t.environments)[name]) by {
        lemma_lookup(s.environments, t.environments, m, name);
    }
    assert forall|name: Seq<char>| #[trigger]
        descriptions(s.secrets).contains_key(name) == descriptions(t.secrets).contains_key(name)
            && (descriptions(s.secrets).contains_key(name) ==> descriptions(s.secrets)[name]
            == descriptions(t.secrets)[name]) by {
        lemma_lookup(s.secrets, t.secrets, m, name);
    }
    assert(a.projects =~= b.projects);
    assert(a.environments =~= b.environments);
    assert(a.secrets =~= b.secrets);
    assert forall|k: Seq<char>, e: Seq<char>| #[trigger] s.value(k, e) == t.value(k, e) by {
        lemma_record_alike(s, t, m, Table::Secrets, k);
        lemma_record_alike(s, t, m, Table::Environments, e);
        if s.record(Table::Secrets, k) is Some && s.record(Table::Environments, e) is Some {
            lemma_variant_alike(
                s,
                t,
                m,
                s.record(Table::Secrets, k)->0.id,
                s.record(Table::Environments, e)->0.id,
            );
        }
    }
    assert(a.values =~= b.values);
    assert forall|k: Seq<char>, p: Seq<char>| #[trigger]
        s.has_assignment(k, p) == t.has_assignment(k, p) by {
        lemma_record_alike(s, t, m, Table::Secrets, k);
        lemma_record_alike(s, t, m, Table::Projects, p);
        if s.record(Table::Secrets, k) is Some && s.record(Table::Projects, p) is Some {
            lemma_assigned_alike(
                s,
                t,
                m,
                s.record(Table::Projects, p)->0.id,
                s.record(Table::Secrets, k)->0.id,
            );
        }
    }
    assert(a.assigned =~= b.assigned);
}

proof fn lemma_placed_pairwise(
    a: Seq<OperationRowView>,
    b: Seq<OperationRowView>,
    x: OperationRowView,
    y: OperationRowView,
    p: Seq<u8>,
    q: Seq<u8>,
)
    requires
        pairwise(a, b, operation_rel(p, q)),
        operation_rel(p, q)(x, y),
    ensures
        pairwise(placed(a, x, log_order()), placed(b, y, log_order()), operation_rel(p, q)),
    decreases a.len(),
{
    let rel = operation_rel(p, q);
    if a.len() > 0 {
        let n = a.len() - 1;
        assert(rel(a[n], b[n]));
        if log_order()(x, a.last()) {
            assert forall|i: int| 0 <= i < n implies rel(
                #[trigger] a.drop_last()[i],
                #[trigger] b.drop_last()[i],
            ) by {
                assert(rel(a[i], b[i]));
            }
            lemma_placed_pairwise(a.drop_last(), b.drop_last(), x, y, p, q);
        }
    }
}

proof fn lemma_log_pairwise(
    a: Seq<OperationRowView>,
    b: Seq<OperationRowView>,
    s: StoreView,
    t: StoreView,
)
    requires
        pairwise(a, b, operation_rel(s.key, t.key)),
    ensures
        pairwise(ordered(a, log_order()), ordered(b, log_order()), operation_rel(s.key, t.key)),
        collected(a, |row: OperationRowView| s.operation_opened(row)) == collected(
            b,
            |row: OperationRowView| t.operation_opened(row),
        ),
    decreases a.len(),
{
    let rel = operation_rel(s.key, t.key);
    if a.len() > 0 {
        let n = a.len() - 1;
        assert(rel(a[n], b[n]));
        assert forall|i: int| 0 <= i < n implies rel(
            #[trigger] a.drop_last()[i],
            #[trigger] b.drop_last()[i],
        ) by {
            assert(rel(a[i], b[i]));
        }
        lemma_log_pairwise(a.drop_last(), b.drop_last(), s, t);
        lemma_placed_pairwise(
            ordered(a.drop_last(), log_order()),
            ordered(b.drop_last(), log_order()),
            a.last(),
            b.last(),
            s.key,
            t.key,
        );
    }
}

/// Importing well-formed operations succeeds, and its outcome does not depend on what is drawn
/// for it nor on the order in which a list gives the operations: as many of them count as new,
/// and projects, environments, secrets, descriptions, values, assignments and the log are the
/// same. The identifiers that are drawn must be in no use, and no two different operations must
/// share an identifier.
pub proof fn law_import_depends_on_no_draw(
    s: StoreView,
    operations: Seq<SyncOperationView>,
    shuffled: Seq<SyncOperationView>,
    f: Seq<FreshView>,
    g: Seq<FreshView>,
)
    requires
        s.well_formed(),
        operations.to_multiset() == shuffled.to_multiset(),
        forall|i: int, j: int|
            0 <= i < operations.len() && 0 <= j < operations.len() && (
            #[trigger] operations[i]).id == (#[trigger] operations[j]).id ==> operations[i]
                == operations[j],
        forall|i: int| 0 <= i < operations.len() ==> importable(#[trigger] operations[i]),
        operations.len() <= f.len(),
        operations.len() <= g.len(),
        unused_draws(s, f),
        unused_draws(s, g),
        s.operations_confirmed(operations, f),
        s.operations_confirmed(shuffled, g),
    ensures
        ({
            let (a, count) = s.operations_imported(operations, f);
            let (b, other) = s.operations_imported(shuffled, g);
            &&& count is Ok
            &&& other == count
            &&& a.registry() == b.registry()
            &&& a.log() == b.log()
        }),
{
    law_import_succeeds(s, operations, f);
    law_import_succeeds(s, operations, g);
    lemma_same_order(operations, shuffled);
    let sorted = ordered(operations, operation_order());
    lemma_ordered(operations, operation_order());
    let a = s.all_imported(sorted, f).0;
    let b = s.all_imported(sorted, g).0;
    let m = lemma_imports_alike(s, sorted, f, g);
    lemma_registry_alike(a, b, m);
    lemma_log_pairwise(a.operations, b.operations, a, b);
    lemma_log_pairwise(
        ordered(a.operations, log_order()),
        ordered(b.operations, log_order()),
        a,
        b,
    );
}

} // verus!
