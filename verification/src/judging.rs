//! What coverage, resolution, checks and runs tell of a store: by which secrets are assigned to
//! a project and which of them have a value in an environment.

use crate::commands::{
    check_reply, checked_all, checked_pair, checked_project, coverage_reply, coverage_text,
    gap_line, item_lines, listed_names, planned, CheckView, CommandErrorView, ReplyView, RunPlan,
};
use crate::domain::{
    complete, env_entries, lemma_missing_is_empty, missing, CoverageReportView, DomainErrorView,
    ResolvedSecretView, SecretCoverageView, SecretView,
};
use crate::envmap::{ascending, lemma_put, mapping};
use crate::error::StoreErrorView;
use crate::ids::Id;
use crate::listing::law_assignments_are_listed_once;
use crate::model::{lemma_named_unique, lemma_variant_some};
use crate::order::{
    distinct_by, lemma_ordered, lemma_ordered_contains, lemma_ordered_distinct, strict_order,
};
use crate::registry::{
    assigned_to, coverage_result, law_coverage_lists_assigned_secrets,
    law_resolution_is_all_or_nothing, resolve_result, statuses, ResolveFailure, SecretRegistry,
};
use crate::store::Store;
use crate::tables::{
    lemma_named_some, name_order, RecordView, StoreView, Table,
};
use crate::text::{
    joined, lemma_text_before_total, lemma_text_before_transitive, text_before, texts,
};
use vstd::prelude::*;

verus! {

/// Whether every secret that is assigned to a project has a value in an environment.
pub open spec fn all_set(s: StoreView, project: Seq<char>, environment: Seq<char>) -> bool {
    forall|k: Seq<char>| #[trigger]
        s.has_assignment(k, project) ==> s.shown(k, environment) is Some
}

proof fn lemma_name_order()
    ensures
        strict_order(name_order()),
{
    let before = name_order();
    assert forall|a: RecordView, b: RecordView| #[trigger] before(a, b) implies !before(b, a) by {
        lemma_text_before_total(a.name, b.name);
        lemma_text_before_total(b.name, a.name);
    }
    assert forall|a: RecordView, b: RecordView, c: RecordView| #[trigger]
        before(a, b) && !before(c, b) implies #[trigger] before(a, c) by {
        lemma_text_before_total(b.name, c.name);
        lemma_text_before_total(c.name, b.name);
        if b.name != c.name {
            lemma_text_before_transitive(a.name, b.name, c.name);
        }
    }
}

/// A table lists every one of its rows once, in the order of their names.
pub proof fn law_lists_hold_every_row_once(s: StoreView, table: Table)
    requires
        s.well_formed(),
    ensures
        forall|row: RecordView| #[trigger]
            s.listed(table).contains(row) <==> s.record(table, row.name) == Some(row),
        forall|i: int, j: int|
            0 <= i < j < s.listed(table).len() ==> text_before(
                (#[trigger] s.listed(table)[i]).name,
                (#[trigger] s.listed(table)[j]).name,
            ),
        forall|i: int|
            0 <= i < s.listed(table).len() ==> s.record(
                table,
                (#[trigger] s.listed(table)[i]).name,
            ) == Some(s.listed(table)[i]),
{
    let rows = s.rows(table);
    let list = s.listed(table);
    let name_of = |r: RecordView| r.name;
    lemma_name_order();
    lemma_ordered(rows, name_order());
    lemma_ordered_distinct(rows, name_order(), name_of);
    assert forall|row: RecordView| #[trigger] list.contains(row) <==> s.record(table, row.name)
        == Some(row) by {
        lemma_ordered_contains(rows, name_order(), row);
        lemma_named_some(rows, row.name);
        if rows.contains(row) {
            lemma_named_unique(rows, row);
        }
    }
    assert forall|i: int, j: int| 0 <= i < j < list.len() implies text_before(
        (#[trigger] list[i]).name,
        (#[trigger] list[j]).name,
    ) by {
        let before = name_order();
        assert(!before(list[j], list[i]));
        assert(name_of(list[i]) != name_of(list[j]));
        lemma_text_before_total(list[i].name, list[j].name);
    }
    assert forall|i: int| 0 <= i < list.len() implies s.record(table, (#[trigger] list[i]).name)
        == Some(list[i]) by {
        assert(list.contains(list[i]));
    }
}

proof fn lemma_assigned_to(secrets: Seq<SecretView>, project: Id)
    requires
        forall|i: int, j: int|
            0 <= i < j < secrets.len() ==> text_before(
                (#[trigger] secrets[i]).key,
                (#[trigger] secrets[j]).key,
            ),
    ensures
        forall|x: SecretView| #[trigger]
            assigned_to(secrets, project).contains(x) <==> secrets.contains(x)
                && x.assigned_project_ids.contains(project),
        forall|i: int, j: int|
            0 <= i < j < assigned_to(secrets, project).len() ==> text_before(
                (#[trigger] assigned_to(secrets, project)[i]).key,
                (#[trigger] assigned_to(secrets, project)[j]).key,
            ),
    decreases secrets.len(),
{
    let r = assigned_to(secrets, project);
    if secrets.len() > 0 {
        let rest = secrets.drop_last();
        let last = secrets.last();
        assert forall|i: int, j: int| 0 <= i < j < rest.len() implies text_before(
            (#[trigger] rest[i]).key,
            (#[trigger] rest[j]).key,
        ) by {
            assert(text_before(secrets[i].key, secrets[j].key));
        }
        lemma_assigned_to(rest, project);
        let part = assigned_to(rest, project);
        assert forall|x: SecretView| #[trigger] r.contains(x) <==> secrets.contains(x)
            && x.assigned_project_ids.contains(project) by {
            if secrets.contains(x) {
                let i = choose|i: int| 0 <= i < secrets.len() && secrets[i] == x;
                if i < rest.len() {
                    assert(rest[i] == x);
                }
            }
            if rest.contains(x) {
                let i = choose|i: int| 0 <= i < rest.len() && rest[i] == x;
                assert(secrets[i] == x);
            }
            if x == last {
                assert(secrets[secrets.len() - 1] == x);
                if last.assigned_project_ids.contains(project) {
                    assert(r[r.len() - 1] == x);
                }
            }
            if part.contains(x) {
                let i = choose|i: int| 0 <= i < part.len() && part[i] == x;
                assert(r[i] == x);
            }
            if r.contains(x) {
                let i = choose|i: int| 0 <= i < r.len() && r[i] == x;
                if i < part.len() {
                    assert(part[i] == x);
                }
            }
        }
        assert forall|i: int, j: int| 0 <= i < j < r.len() implies text_before(
            (#[trigger] r[i]).key,
            (#[trigger] r[j]).key,
        ) by {
            assert(r[i] == part[i]);
            if j < part.len() {
                assert(text_before(part[i].key, part[j].key));
            } else {
                assert(part.contains(part[i]));
                assert(rest.contains(part[i]));
                let k = choose|k: int| 0 <= k < rest.len() && rest[k] == part[i];
                assert(text_before(secrets[k].key, secrets[secrets.len() - 1].key));
            }
        }
    }
}

/// The secrets of a store that are assigned to a project.
proof fn lemma_assigned_secrets(store: &Store, project: Seq<char>)
    requires
        store@.well_formed(),
        store@.record(Table::Projects, project) is Some,
    ensures
        ({
            let s = store@;
            let id = s.record(Table::Projects, project)->0.id;
            let secrets = assigned_to(store.secrets_result()->Ok_0, id);
            &&& forall|i: int|
                0 <= i < secrets.len() ==> s.has_assignment(
                    (#[trigger] secrets[i]).key,
                    project,
                ) && s.record(Table::Secrets, secrets[i].key) is Some
            &&& forall|k: Seq<char>| #[trigger]
                s.has_assignment(k, project) ==> exists|i: int|
                    0 <= i < secrets.len() && (#[trigger] secrets[i]).key == k
            &&& forall|i: int, j: int|
                0 <= i < j < secrets.len() ==> text_before(
                    (#[trigger] secrets[i]).key,
                    (#[trigger] secrets[j]).key,
                )
        }),
{
    let s = store@;
    let owner = s.record(Table::Projects, project)->0;
    let list = s.listed(Table::Secrets);
    let all = store.secrets_result()->Ok_0;
    let secrets = assigned_to(all, owner.id);
    law_lists_hold_every_row_once(s, Table::Secrets);
    assert(all.len() == list.len());
    assert forall|i: int, j: int| 0 <= i < j < all.len() implies text_before(
        (#[trigger] all[i]).key,
        (#[trigger] all[j]).key,
    ) by {
        assert(text_before(list[i].name, list[j].name));
    }
    lemma_assigned_to(all, owner.id);
    assert forall|i: int| 0 <= i < secrets.len() implies s.has_assignment(
        (#[trigger] secrets[i]).key,
        project,
    ) && s.record(Table::Secrets, secrets[i].key) is Some by {
        assert(secrets.contains(secrets[i]));
        let k = choose|k: int| 0 <= k < all.len() && all[k] == secrets[i];
        assert(s.record(Table::Secrets, list[k].name) == Some(list[k]));
        law_assignments_are_listed_once(s, owner.id, list[k].id);
    }
    assert forall|key: Seq<char>| #[trigger] s.has_assignment(key, project) implies exists|i: int|
        0 <= i < secrets.len() && (#[trigger] secrets[i]).key == key by {
        let row = s.record(Table::Secrets, key)->0;
        lemma_named_some(s.secrets, key);
        assert(list.contains(row));
        let k = choose|k: int| 0 <= k < list.len() && list[k] == row;
        law_assignments_are_listed_once(s, owner.id, row.id);
        assert(all[k].assigned_project_ids.contains(owner.id));
        assert(all.contains(all[k]));
        assert(secrets.contains(all[k]));
        let i = choose|i: int| 0 <= i < secrets.len() && secrets[i] == all[k];
        assert(secrets[i].key == key);
    }
}

proof fn lemma_statuses_open(store: &Store, secrets: Seq<SecretView>, environment: Seq<char>)
    requires
        store@.well_formed(),
        store@.values_open(),
        store@.record(Table::Environments, environment) is Some,
        forall|i: int|
            0 <= i < secrets.len() ==> store@.record(
                Table::Secrets,
                (#[trigger] secrets[i]).key,
            ) is Some,
    ensures
        statuses(store, secrets, environment) is Ok,
    decreases secrets.len(),
{
    if secrets.len() > 0 {
        let rest = secrets.drop_last();
        assert forall|i: int| 0 <= i < rest.len() implies store@.record(
            Table::Secrets,
            (#[trigger] rest[i]).key,
        ) is Some by {
            assert(rest[i] == secrets[i]);
        }
        lemma_statuses_open(store, rest, environment);
        let s = store@;
        assert(s.record(Table::Secrets, secrets[secrets.len() - 1].key) is Some);
        let secret = s.record(Table::Secrets, secrets.last().key)->0;
        let place = s.record(Table::Environments, environment)->0;
        lemma_variant_some(s.variants, secret.id, place.id);
        if s.variant(secret.id, place.id) is Some {
            let v = s.variant(secret.id, place.id)->0;
            let i = choose|i: int| 0 <= i < s.variants.len() && s.variants[i] == v;
            assert(s.opened(s.variants[i].nonce, s.variants[i].ciphertext) is Ok);
        }
    }
}

/// The report of a project in an environment lists the secrets that are assigned to the
/// project, each of them once and in the order of their names, and says of each whether it has
/// a value there. It is given where both names are there and every value can be decrypted.
pub proof fn law_coverage_tells_which_values_are_set(
    store: &Store,
    project: Seq<char>,
    environment: Seq<char>,
)
    requires
        store@.well_formed(),
    ensures
        store@.values_open() && store@.record(Table::Projects, project) is Some && store@.record(
            Table::Environments,
            environment,
        ) is Some ==> coverage_result(store, project, environment) is Ok,
        store@.record(Table::Projects, project) is None ==> coverage_result(
            store,
            project,
            environment,
        ) == Err::<CoverageReportView, StoreErrorView>(
            StoreErrorView::Domain(DomainErrorView::ProjectNotFound(project)),
        ),
        store@.record(Table::Projects, project) is Some && store@.record(
            Table::Environments,
            environment,
        ) is None ==> coverage_result(store, project, environment) == Err::<
            CoverageReportView,
            StoreErrorView,
        >(StoreErrorView::Domain(DomainErrorView::EnvironmentNotFound(environment))),
        coverage_result(store, project, environment) matches Ok(report) ==> {
            let items = report.items;
            &&& report.project.name == project
            &&& report.environment.name == environment
            &&& forall|i: int|
                0 <= i < items.len() ==> {
                    &&& store@.has_assignment((#[trigger] items[i]).key, project)
                    &&& items[i].resolved == (store@.shown(items[i].key, environment) is Some)
                }
            &&& forall|k: Seq<char>| #[trigger]
                store@.has_assignment(k, project) ==> exists|i: int|
                    0 <= i < items.len() && (#[trigger] items[i]).key == k
            &&& forall|i: int, j: int|
                0 <= i < j < items.len() ==> text_before(
                    (#[trigger] items[i]).key,
                    (#[trigger] items[j]).key,
                )
            &&& complete(items) <==> all_set(store@, project, environment)
        },
{
    let s = store@;
    if s.record(Table::Projects, project) is Some {
        lemma_assigned_secrets(store, project);
        lemma_named_some(s.projects, project);
        lemma_named_some(s.environments, environment);
        let id = s.record(Table::Projects, project)->0.id;
        let secrets = assigned_to(store.secrets_result()->Ok_0, id);
        if s.values_open() && s.record(Table::Environments, environment) is Some {
            lemma_statuses_open(store, secrets, environment);
        }
        if coverage_result(store, project, environment) is Ok {
            let items = coverage_result(store, project, environment)->Ok_0.items;
            law_coverage_lists_assigned_secrets(store, project, environment);
            crate::registry::lemma_statuses_items(store, secrets, environment);
            assert forall|i: int| 0 <= i < items.len() implies {
                &&& s.has_assignment((#[trigger] items[i]).key, project)
                &&& items[i].resolved == (s.shown(items[i].key, environment) is Some)
            } by {
                assert(items[i].key == secrets[i].key);
            }
            assert forall|k: Seq<char>| #[trigger] s.has_assignment(k, project) implies exists|
                i: int,
            | 0 <= i < items.len() && (#[trigger] items[i]).key == k by {
                let i = choose|i: int| 0 <= i < secrets.len() && (#[trigger] secrets[i]).key == k;
                assert(items[i].key == k);
            }
            assert forall|i: int, j: int| 0 <= i < j < items.len() implies text_before(
                (#[trigger] items[i]).key,
                (#[trigger] items[j]).key,
            ) by {
                assert(text_before(secrets[i].key, secrets[j].key));
            }
            if complete(items) {
                assert forall|k: Seq<char>| #[trigger] s.has_assignment(k, project) implies s.shown(
                    k,
                    environment,
                ) is Some by {
                    let i = choose|i: int| 0 <= i < items.len() && (#[trigger] items[i]).key == k;
                    assert(items[i].resolved);
                }
            }
            if all_set(s, project, environment) {
                assert forall|i: int| 0 <= i < items.len() implies (
                #[trigger] items[i]).resolved by {
                    assert(s.has_assignment(items[i].key, project));
                }
            }
        }
    }
}

/// The keys that a report misses are those of its items without a value, in the same order.
pub proof fn law_missing_keys_have_no_value(items: Seq<SecretCoverageView>)
    ensures
        forall|k: Seq<char>| #[trigger]
            missing(items).contains(k) <==> exists|i: int|
                0 <= i < items.len() && (#[trigger] items[i]).key == k && !items[i].resolved,
        forall|item: SecretCoverageView| #[trigger]
            missing(items.push(item)) == if item.resolved {
                missing(items)
            } else {
                missing(items).push(item.key)
            },
    decreases items.len(),
{
    reveal(Seq::filter);
    assert forall|item: SecretCoverageView| #[trigger]
        missing(items.push(item)) == if item.resolved {
            missing(items)
        } else {
            missing(items).push(item.key)
        } by {
        assert(items.push(item).drop_last() =~= items);
        crate::domain::lemma_missing_last(items.push(item));
    }
    if items.len() > 0 {
        let rest = items.drop_last();
        law_missing_keys_have_no_value(rest);
        crate::domain::lemma_missing_last(items);
        let keys = missing(items);
        let fewer = missing(rest);
        assert forall|k: Seq<char>| #[trigger] keys.contains(k) <==> exists|i: int|
            0 <= i < items.len() && (#[trigger] items[i]).key == k && !items[i].resolved by {
            if keys.contains(k) {
                let j = choose|j: int| 0 <= j < keys.len() && keys[j] == k;
                if j < fewer.len() {
                    assert(fewer[j] == k);
                    assert(fewer.contains(k));
                    let i = choose|i: int|
                        0 <= i < rest.len() && (#[trigger] rest[i]).key == k && !rest[i].resolved;
                    assert(items[i].key == k);
                } else {
                    assert(items[items.len() - 1].key == k);
                }
            }
            if exists|i: int|
                0 <= i < items.len() && (#[trigger] items[i]).key == k && !items[i].resolved {
                let i = choose|i: int|
                    0 <= i < items.len() && (#[trigger] items[i]).key == k && !items[i].resolved;
                if i < rest.len() {
                    assert(rest[i].key == k);
                    assert(fewer.contains(k));
                    let j = choose|j: int| 0 <= j < fewer.len() && fewer[j] == k;
                    assert(keys[j] == k);
                } else {
                    assert(keys[keys.len() - 1] == k);
                }
            }
        }
    }
}

/// Resolved secrets as variables: with different keys every key has its own value, whole and
/// unchanged, and there is no other variable.
pub proof fn law_variables_are_the_resolved_values(secrets: Seq<ResolvedSecretView>)
    requires
        distinct_by(secrets, |r: ResolvedSecretView| r.key),
    ensures
        ascending(env_entries(secrets)),
        forall|i: int|
            0 <= i < secrets.len() ==> mapping(env_entries(secrets)).contains_key(
                (#[trigger] secrets[i]).key,
            ) && mapping(env_entries(secrets))[secrets[i].key] == secrets[i].value,
        forall|k: Seq<char>| #[trigger]
            mapping(env_entries(secrets)).contains_key(k) ==> exists|i: int|
                0 <= i < secrets.len() && (#[trigger] secrets[i]).key == k,
    decreases secrets.len(),
{
    let key_of = |r: ResolvedSecretView| r.key;
    if secrets.len() > 0 {
        let rest = secrets.drop_last();
        let last = secrets.last();
        assert forall|i: int, j: int| 0 <= i < j < rest.len() implies key_of(#[trigger] rest[i])
            != key_of(#[trigger] rest[j]) by {
            assert(key_of(secrets[i]) != key_of(secrets[j]));
        }
        law_variables_are_the_resolved_values(rest);
        lemma_put(env_entries(rest), last.key, last.value);
        let m = mapping(env_entries(secrets));
        assert forall|i: int| 0 <= i < secrets.len() implies m.contains_key(
            (#[trigger] secrets[i]).key,
        ) && m[secrets[i].key] == secrets[i].value by {
            if i < rest.len() {
                assert(rest[i] == secrets[i]);
                assert(key_of(secrets[i]) != key_of(secrets[secrets.len() - 1]));
            }
        }
        assert forall|k: Seq<char>| #[trigger] m.contains_key(k) implies exists|i: int|
            0 <= i < secrets.len() && (#[trigger] secrets[i]).key == k by {
            if k == last.key {
                assert(secrets[secrets.len() - 1].key == k);
            } else {
                assert(mapping(env_entries(rest)).contains_key(k));
                let i = choose|i: int| 0 <= i < rest.len() && (#[trigger] rest[i]).key == k;
                assert(secrets[i].key == k);
            }
        }
    }
}

/// A project is resolved in an environment if every secret that is assigned to it has a value
/// there: then just those secrets are given, each of them once and with its value. Otherwise
/// the keys without a value are told, and no value is given.
pub proof fn law_resolution_gives_every_assigned_value(
    store: &Store,
    project: Seq<char>,
    environment: Seq<char>,
)
    requires
        store@.well_formed(),
        store@.values_open(),
        store@.record(Table::Projects, project) is Some,
        store@.record(Table::Environments, environment) is Some,
    ensures
        all_set(store@, project, environment) <==> resolve_result(
            store,
            project,
            environment,
        ) is Ok,
        resolve_result(store, project, environment) matches Ok(resolution) ==> {
            let secrets = resolution.secrets;
            &&& forall|i: int|
                0 <= i < secrets.len() ==> {
                    &&& store@.has_assignment((#[trigger] secrets[i]).key, project)
                    &&& store@.shown(secrets[i].key, environment) == Some(secrets[i].value)
                }
            &&& forall|k: Seq<char>| #[trigger]
                store@.has_assignment(k, project) ==> exists|i: int|
                    0 <= i < secrets.len() && (#[trigger] secrets[i]).key == k
            &&& forall|i: int, j: int|
                0 <= i < j < secrets.len() ==> text_before(
                    (#[trigger] secrets[i]).key,
                    (#[trigger] secrets[j]).key,
                )
        },
        resolve_result(store, project, environment) matches Err(failure) ==> {
            &&& failure matches ResolveFailure::Missing(
                DomainErrorView::MissingVariants { project: p, environment: e, missing_keys },
            )
            &&& p == project
            &&& e == environment
            &&& missing_keys.len() > 0
            &&& forall|k: Seq<char>| #[trigger]
                missing_keys.contains(k) <==> store@.has_assignment(k, project) && store@.shown(
                    k,
                    environment,
                ) is None
        },
{
    let s = store@;
    law_coverage_tells_which_values_are_set(store, project, environment);
    law_resolution_is_all_or_nothing(store, project, environment);
    let report = coverage_result(store, project, environment)->Ok_0;
    let items = report.items;
    law_coverage_lists_assigned_secrets(store, project, environment);
    lemma_missing_is_empty(items);
    law_missing_keys_have_no_value(items);
    if resolve_result(store, project, environment) is Ok {
        let found = resolve_result(store, project, environment)->Ok_0.secrets;
        let secrets = assigned_to(store.secrets_result()->Ok_0, report.project.id);
        assert forall|i: int| 0 <= i < found.len() implies {
            &&& s.has_assignment((#[trigger] found[i]).key, project)
            &&& s.shown(found[i].key, environment) == Some(found[i].value)
        } by {
            assert(found[i].key == secrets[i].key);
            assert(items[i].key == secrets[i].key);
        }
        assert forall|k: Seq<char>| #[trigger] s.has_assignment(k, project) implies exists|i: int|
            0 <= i < found.len() && (#[trigger] found[i]).key == k by {
            let i = choose|i: int| 0 <= i < items.len() && (#[trigger] items[i]).key == k;
            assert(found[i].key == secrets[i].key);
        }
        assert forall|i: int, j: int| 0 <= i < j < found.len() implies text_before(
            (#[trigger] found[i]).key,
            (#[trigger] found[j]).key,
        ) by {
            assert(found[i].key == secrets[i].key && found[j].key == secrets[j].key);
            assert(items[i].key == secrets[i].key && items[j].key == secrets[j].key);
            assert(text_before(items[i].key, items[j].key));
        }
    } else {
        let keys = missing(items);
        assert forall|k: Seq<char>| #[trigger] keys.contains(k) <==> s.has_assignment(k, project)
            && s.shown(k, environment) is None by {
            if s.has_assignment(k, project) && s.shown(k, environment) is None {
                let i = choose|i: int| 0 <= i < items.len() && (#[trigger] items[i]).key == k;
                assert(!items[i].resolved);
            }
        }
    }
}

/// A program is started only without a wish for a check, and only if every secret that is
/// assigned to the project has a value: then its variables are just those secrets with their
/// values, whole and unchanged, and its program and arguments are those of the command. Where
/// all is there it is started.
pub proof fn law_run_gives_every_assigned_value(
    plan: RunPlan,
    store: &Store,
    project: Seq<char>,
    environment: Seq<char>,
    check: bool,
    command: Seq<Seq<char>>,
)
    requires
        store@.well_formed(),
        store@.values_open(),
        store@.record(Table::Projects, project) is Some,
        store@.record(Table::Environments, environment) is Some,
        planned(plan, store, project, environment, check, command),
    ensures
        plan is Start <==> !check && command.len() > 0 && all_set(store@, project, environment),
        plan matches RunPlan::Start { launch, variables } ==> {
            let given = mapping(variables@);
            &&& seq![launch.program@] + texts(launch.arguments@) == command
            &&& ascending(variables@)
            &&& forall|k: Seq<char>| #[trigger]
                given.contains_key(k) <==> store@.has_assignment(k, project)
            &&& forall|k: Seq<char>| #[trigger]
                given.contains_key(k) ==> store@.shown(k, environment) == Some(given[k])
        },
        plan matches RunPlan::Show(reply) ==> if check {
            reply@.result == Ok::<u8, CommandErrorView>(
                if all_set(store@, project, environment) {
                    0
                } else {
                    1
                },
            )
        } else {
            reply@.result is Err && reply@.output.len() == 0
        },
{
    law_resolution_gives_every_assigned_value(store, project, environment);
    law_coverage_tells_which_values_are_set(store, project, environment);
    if let RunPlan::Start { launch, variables } = plan {
        let secrets = resolve_result(store, project, environment)->Ok_0.secrets;
        let key_of = |r: ResolvedSecretView| r.key;
        assert forall|i: int, j: int| 0 <= i < j < secrets.len() implies key_of(
            #[trigger] secrets[i],
        ) != key_of(#[trigger] secrets[j]) by {
            lemma_text_before_total(secrets[i].key, secrets[j].key);
        }
        law_variables_are_the_resolved_values(secrets);
        let given = mapping(variables@);
        assert forall|k: Seq<char>| #[trigger] given.contains_key(k) <==> store@.has_assignment(
            k,
            project,
        ) by {
            if given.contains_key(k) {
                let i = choose|i: int| 0 <= i < secrets.len() && (#[trigger] secrets[i]).key == k;
                assert(store@.has_assignment(secrets[i].key, project));
            }
            if store@.has_assignment(k, project) {
                let i = choose|i: int| 0 <= i < secrets.len() && (#[trigger] secrets[i]).key == k;
                assert(given.contains_key(secrets[i].key));
            }
        }
        assert forall|k: Seq<char>| #[trigger] given.contains_key(k) implies store@.shown(
            k,
            environment,
        ) == Some(given[k]) by {
            let i = choose|i: int| 0 <= i < secrets.len() && (#[trigger] secrets[i]).key == k;
            assert(store@.shown(secrets[i].key, environment) == Some(secrets[i].value));
        }
        assert(seq![launch.program@] + texts(launch.arguments@) =~= command);
    }
}

/// Whether a text holds a part.
pub open spec fn holds(text: Seq<char>, part: Seq<char>) -> bool {
    exists|a: Seq<char>, b: Seq<char>| text == #[trigger] (a + part + b)
}

proof fn lemma_holds_longer(text: Seq<char>, part: Seq<char>, more: Seq<char>)
    requires
        holds(text, part),
    ensures
        holds(text + more, part),
{
    let (a, b) = choose|a: Seq<char>, b: Seq<char>| text == #[trigger] (a + part + b);
    assert(text + more =~= a + part + (b + more));
}

proof fn lemma_holds_end(text: Seq<char>, part: Seq<char>)
    ensures
        holds(text + part, part),
{
    assert(text + part =~= text + part + Seq::<char>::empty());
}

/// Whether a check of a project in an environment finds a gap.
#[verifier::opaque]
spec fn gap(store: &Store, project: Seq<char>, environment: Seq<char>) -> bool {
    !complete(coverage_result(store, project, environment)->Ok_0.items)
}

/// The line for a gap.
#[verifier::opaque]
spec fn gap_text(store: &Store, project: Seq<char>, environment: Seq<char>) -> Seq<char> {
    gap_line(coverage_result(store, project, environment)->Ok_0)
}

proof fn lemma_checked_pair(
    store: &Store,
    before: CheckView,
    project: Seq<char>,
    environment: Seq<char>,
)
    requires
        before.error is None,
        coverage_result(store, project, environment) is Ok,
    ensures
        checked_pair(store, before, project, environment) == if gap(store, project, environment) {
            CheckView {
                output: before.output + gap_text(store, project, environment),
                all_complete: false,
                error: None,
            }
        } else {
            before
        },
{
    reveal(gap);
    reveal(gap_text);
}

proof fn lemma_contains_last(list: Seq<Seq<char>>, x: Seq<char>)
    requires
        list.len() > 0,
    ensures
        list.contains(x) <==> list.drop_last().contains(x) || x == list.last(),
{
    let rest = list.drop_last();
    if list.contains(x) {
        let i = choose|i: int| 0 <= i < list.len() && list[i] == x;
        if i < rest.len() {
            assert(rest[i] == x);
        }
    }
    if rest.contains(x) {
        let i = choose|i: int| 0 <= i < rest.len() && rest[i] == x;
        assert(list[i] == x);
    }
    assert(list[list.len() - 1] == list.last());
}

/// What a check of one project adds.
proof fn lemma_checked_project(
    store: &Store,
    before: CheckView,
    project: Seq<char>,
    environments: Seq<Seq<char>>,
)
    requires
        before.error is None,
        forall|e: Seq<char>| #[trigger]
            environments.contains(e) ==> coverage_result(store, project, e) is Ok,
    ensures
        ({
            let after = checked_project(store, before, project, environments);
            &&& after.error is None
            &&& after.all_complete <==> before.all_complete && forall|e: Seq<char>|
                environments.contains(e) ==> !#[trigger] gap(store, project, e)
            &&& (forall|e: Seq<char>|
                environments.contains(e) ==> !#[trigger] gap(store, project, e)) ==> after.output
                == before.output
            &&& forall|part: Seq<char>| #[trigger]
                holds(before.output, part) ==> holds(after.output, part)
            &&& forall|e: Seq<char>|
                environments.contains(e) && #[trigger] gap(store, project, e) ==> holds(
                    after.output,
                    gap_text(store, project, e),
                )
        }),
    decreases environments.len(),
{
    if environments.len() > 0 {
        let rest = environments.drop_last();
        let last = environments.last();
        assert forall|e: Seq<char>| #[trigger] rest.contains(e) implies coverage_result(
            store,
            project,
            e,
        ) is Ok by {
            lemma_contains_last(environments, e);
            assert(environments.contains(e));
        }
        lemma_checked_project(store, before, project, rest);
        lemma_contains_last(environments, last);
        let middle = checked_project(store, before, project, rest);
        let after = checked_project(store, before, project, environments);
        lemma_checked_pair(store, middle, project, last);
        assert forall|e: Seq<char>| #[trigger] environments.contains(e) <==> rest.contains(e) || e
            == last by {
            lemma_contains_last(environments, e);
        }
        assert forall|part: Seq<char>| #[trigger] holds(middle.output, part) implies holds(
            after.output,
            part,
        ) by {
            if gap(store, project, last) {
                lemma_holds_longer(middle.output, part, gap_text(store, project, last));
            }
        }
        if gap(store, project, last) {
            lemma_holds_end(middle.output, gap_text(store, project, last));
        }
    }
}

/// What a check of several projects gives.
proof fn lemma_checked_all(store: &Store, projects: Seq<Seq<char>>, environments: Seq<Seq<char>>)
    requires
        forall|p: Seq<char>, e: Seq<char>|
            #![trigger coverage_result(store, p, e)]
            projects.contains(p) && environments.contains(e) ==> coverage_result(store, p, e) is Ok,
    ensures
        ({
            let done = checked_all(store, projects, environments);
            &&& done.error is None
            &&& done.all_complete <==> forall|p: Seq<char>, e: Seq<char>|
                projects.contains(p) && environments.contains(e) ==> !#[trigger] gap(store, p, e)
            &&& done.all_complete ==> done.output.len() == 0
            &&& forall|p: Seq<char>, e: Seq<char>|
                projects.contains(p) && environments.contains(e) && #[trigger] gap(store, p, e)
                    ==> holds(done.output, gap_text(store, p, e))
        }),
    decreases projects.len(),
{
    if projects.len() > 0 {
        let rest = projects.drop_last();
        let last = projects.last();
        assert forall|p: Seq<char>| #[trigger] projects.contains(p) <==> rest.contains(p) || p
            == last by {
            lemma_contains_last(projects, p);
        }
        lemma_checked_all(store, rest, environments);
        let middle = checked_all(store, rest, environments);
        lemma_checked_project(store, middle, last, environments);
    }
}

/// Whether a text tells a project and an environment with the keys that have no value there.
pub open spec fn tells_gap(
    s: StoreView,
    output: Seq<char>,
    project: Seq<char>,
    environment: Seq<char>,
) -> bool {
    exists|keys: Seq<Seq<char>>|
        {
            &&& holds(
                output,
                project + "\t"@ + environment + "\t"@ + #[trigger] joined(keys, ", "@) + "\n"@,
            )
            &&& forall|k: Seq<char>| #[trigger]
                keys.contains(k) <==> s.has_assignment(k, project) && s.shown(
                    k,
                    environment,
                ) is None
        }
}

proof fn lemma_gap_told(
    store: &Store,
    output: Seq<char>,
    project: Seq<char>,
    environment: Seq<char>,
)
    requires
        store@.well_formed(),
        coverage_result(store, project, environment) is Ok,
        holds(output, gap_text(store, project, environment)),
    ensures
        tells_gap(store@, output, project, environment),
{
    let s = store@;
    reveal(gap_text);
    law_coverage_tells_which_values_are_set(store, project, environment);
    let report = coverage_result(store, project, environment)->Ok_0;
    let items = report.items;
    let keys = missing(items);
    law_missing_keys_have_no_value(items);
    assert(gap_line(report) == project + "\t"@ + environment + "\t"@ + joined(keys, ", "@) + "\n"@);
    assert forall|k: Seq<char>| #[trigger] keys.contains(k) <==> s.has_assignment(k, project)
        && s.shown(k, environment) is None by {
        if s.has_assignment(k, project) && s.shown(k, environment) is None {
            let i = choose|i: int| 0 <= i < items.len() && (#[trigger] items[i]).key == k;
            assert(!items[i].resolved);
        }
    }
}

/// The names that a check goes through are those that are there.
proof fn lemma_listed_names(s: StoreView, table: Table)
    requires
        s.well_formed(),
    ensures
        forall|n: Seq<char>| #[trigger]
            s.record(table, n) is Some <==> listed_names(s, table).contains(n),
{
    let list = s.listed(table);
    let names = listed_names(s, table);
    law_lists_hold_every_row_once(s, table);
    assert forall|n: Seq<char>| #[trigger] s.record(table, n) is Some <==> names.contains(n) by {
        if s.record(table, n) is Some {
            let row = s.record(table, n)->0;
            lemma_named_some(s.rows(table), n);
            assert(list.contains(row));
            let i = choose|i: int| 0 <= i < list.len() && list[i] == row;
            assert(names[i] == n);
        }
        if names.contains(n) {
            let i = choose|i: int| 0 <= i < names.len() && names[i] == n;
            assert(s.record(table, list[i].name) == Some(list[i]));
        }
    }
}

/// What a check of all projects in all environments comes to.
proof fn lemma_check_sums_up(store: &Store)
    requires
        store@.well_formed(),
        store@.values_open(),
    ensures
        ({
            let projects = listed_names(store@, Table::Projects);
            let environments = listed_names(store@, Table::Environments);
            let done = checked_all(store, projects, environments);
            &&& done.error is None
            &&& done.all_complete <==> forall|p: Seq<char>, e: Seq<char>|
                projects.contains(p) && environments.contains(e) ==> !#[trigger] gap(store, p, e)
            &&& done.all_complete ==> done.output.len() == 0
            &&& forall|p: Seq<char>, e: Seq<char>|
                projects.contains(p) && environments.contains(e) && #[trigger] gap(store, p, e)
                    ==> holds(done.output, gap_text(store, p, e))
            &&& forall|p: Seq<char>, e: Seq<char>|
                #![trigger gap(store, p, e)]
                projects.contains(p) && environments.contains(e) ==> coverage_result(
                    store,
                    p,
                    e,
                ) is Ok && (gap(store, p, e) <==> !all_set(store@, p, e))
        }),
{
    let s = store@;
    let projects = listed_names(s, Table::Projects);
    let environments = listed_names(s, Table::Environments);
    lemma_listed_names(s, Table::Projects);
    lemma_listed_names(s, Table::Environments);
    assert forall|p: Seq<char>, e: Seq<char>|
        #![trigger gap(store, p, e)]
        #![trigger coverage_result(store, p, e)]
        projects.contains(p) && environments.contains(e) implies coverage_result(
        store,
        p,
        e,
    ) is Ok && (gap(store, p, e) <==> !all_set(s, p, e)) by {
        reveal(gap);
        assert(s.record(Table::Projects, p) is Some && s.record(Table::Environments, e) is Some);
        law_coverage_tells_which_values_are_set(store, p, e);
    }
    lemma_checked_all(store, projects, environments);
}

/// A check of all projects in all environments succeeds with code 0, and says that all is
/// complete and nothing else, exactly if every secret has a value in every environment for
/// every project that it is assigned to. Otherwise its code is 1, and it tells each project and
/// environment with the keys that have no value there.
pub proof fn law_check_tells_every_gap(store: &Store)
    requires
        store@.well_formed(),
        store@.values_open(),
    ensures
        ({
            let s = store@;
            let reply = check_reply(store, None, None);
            let full = forall|p: Seq<char>, e: Seq<char>|
                (#[trigger] s.record(Table::Projects, p)) is Some && (#[trigger] s.record(
                    Table::Environments,
                    e,
                )) is Some ==> all_set(s, p, e);
            &&& reply.result == Ok::<u8, CommandErrorView>(
                if full {
                    0
                } else {
                    1
                },
            )
            &&& full ==> reply.output == "All project/environment combinations are complete.\n"@
            &&& forall|p: Seq<char>, e: Seq<char>|
                (#[trigger] s.record(Table::Projects, p)) is Some && (#[trigger] s.record(
                    Table::Environments,
                    e,
                )) is Some && !all_set(s, p, e) ==> tells_gap(s, reply.output, p, e)
        }),
{
    let s = store@;
    let reply = check_reply(store, None, None);
    let projects = listed_names(s, Table::Projects);
    let environments = listed_names(s, Table::Environments);
    let done = checked_all(store, projects, environments);
    lemma_check_sums_up(store);
    lemma_listed_names(s, Table::Projects);
    lemma_listed_names(s, Table::Environments);
    let full = forall|p: Seq<char>, e: Seq<char>|
        (#[trigger] s.record(Table::Projects, p)) is Some && (#[trigger] s.record(
            Table::Environments,
            e,
        )) is Some ==> all_set(s, p, e);
    if done.all_complete {
        assert forall|p: Seq<char>, e: Seq<char>|
            (#[trigger] s.record(Table::Projects, p)) is Some && (#[trigger] s.record(
                Table::Environments,
                e,
            )) is Some implies all_set(s, p, e) by {
            assert(!gap(store, p, e));
        }
        assert(reply.output =~= "All project/environment combinations are complete.\n"@);
    } else {
        let (p, e) = choose|p: Seq<char>, e: Seq<char>|
            projects.contains(p) && environments.contains(e) && #[trigger] gap(store, p, e);
        assert(s.record(Table::Projects, p) is Some && s.record(Table::Environments, e) is Some);
        assert(!all_set(s, p, e));
    }
    assert forall|p: Seq<char>, e: Seq<char>|
        (#[trigger] s.record(Table::Projects, p)) is Some && (#[trigger] s.record(
            Table::Environments,
            e,
        )) is Some && !all_set(s, p, e) implies tells_gap(s, reply.output, p, e) by {
        assert(gap(store, p, e));
        lemma_gap_told(store, done.output, p, e);
    }
}

/// What is printed of a report: one line for each key, in the order of the report, which says
/// whether the key has a value, and never the value. The exit code tells a gap if it is asked
/// for.
pub proof fn law_report_has_a_line_for_each_key(
    report: CoverageReportView,
    a: Seq<SecretCoverageView>,
    b: Seq<SecretCoverageView>,
    item: SecretCoverageView,
    judged: bool,
)
    ensures
        item_lines(a + b) == item_lines(a) + item_lines(b),
        item_lines(seq![item]) == item.key + (if item.resolved {
            "\tresolved\n"@
        } else {
            "\tmissing\n"@
        }),
        report.items.len() > 0 ==> coverage_text(report) == "Project: "@ + report.project.name
            + "\nEnvironment: "@ + report.environment.name + "\n\n"@ + item_lines(report.items),
        report.items.len() == 0 ==> coverage_text(report) == "Project: "@ + report.project.name
            + "\nEnvironment: "@ + report.environment.name + "\n\nNo secrets assigned.\n"@,
        coverage_reply(Ok(report), judged) == (ReplyView {
            output: coverage_text(report),
            result: Ok(
                if judged && exists|i: int|
                    0 <= i < report.items.len() && !(#[trigger] report.items[i]).resolved {
                    1
                } else {
                    0
                },
            ),
        }),
    decreases b.len(),
{
    reveal_strlit("\t");
    reveal_strlit("\n");
    reveal_strlit("resolved");
    reveal_strlit("missing");
    reveal_strlit("\tresolved\n");
    reveal_strlit("\tmissing\n");
    reveal_strlit("\n\n");
    reveal_strlit("No secrets assigned.\n");
    reveal_strlit("\n\nNo secrets assigned.\n");
    if b.len() == 0 {
        assert(a + b =~= a);
        assert(item_lines(a) + item_lines(b) =~= item_lines(a));
    } else {
        law_report_has_a_line_for_each_key(report, a, b.drop_last(), item, judged);
        assert((a + b).drop_last() =~= a + b.drop_last());
        assert(item_lines(a + b) =~= item_lines(a) + item_lines(b));
    }
    let none = Seq::<SecretCoverageView>::empty();
    assert(seq![item].drop_last() =~= none);
    assert(seq![item].last() == item);
    assert(item_lines(none) =~= Seq::<char>::empty());
    assert(item_lines(seq![item]) =~= item.key + (if item.resolved {
        "\tresolved\n"@
    } else {
        "\tmissing\n"@
    }));
    if report.items.len() == 0 {
        assert(item_lines(report.items) =~= Seq::empty());
        assert(coverage_text(report) =~= "Project: "@ + report.project.name + "\nEnvironment: "@
            + report.environment.name + "\n\nNo secrets assigned.\n"@);
    } else {
        assert(coverage_text(report) =~= "Project: "@ + report.project.name + "\nEnvironment: "@
            + report.environment.name + "\n\n"@ + item_lines(report.items));
    }
}

/// A check of one project in one environment tells its gaps by the exit code; with one name
/// alone a check is refused with its usage.
pub proof fn law_check_of_one(store: &Store, project: Seq<char>, environment: Seq<char>)
    requires
        store@.well_formed(),
        store@.values_open(),
    ensures
        ({
            let s = store@;
            let reply = check_reply(store, Some(project), Some(environment));
            let usage = Err::<u8, CommandErrorView>(
                CommandErrorView::Other(
                    "Usage: envctl check or envctl check <project> <environment>"@,
                ),
            );
            &&& s.record(Table::Projects, project) is Some && s.record(
                Table::Environments,
                environment,
            ) is Some ==> reply.result == Ok::<u8, CommandErrorView>(
                if all_set(s, project, environment) {
                    0
                } else {
                    1
                },
            ) && reply.output == coverage_text(coverage_result(store, project, environment)->Ok_0)
            &&& s.record(Table::Projects, project) is None ==> reply.result == Err::<
                u8,
                CommandErrorView,
            >(
                CommandErrorView::Store(
                    StoreErrorView::Domain(DomainErrorView::ProjectNotFound(project)),
                ),
            )
            &&& s.record(Table::Projects, project) is Some && s.record(
                Table::Environments,
                environment,
            ) is None ==> reply.result == Err::<u8, CommandErrorView>(
                CommandErrorView::Store(
                    StoreErrorView::Domain(DomainErrorView::EnvironmentNotFound(environment)),
                ),
            )
            &&& check_reply(store, Some(project), None).result == usage
            &&& check_reply(store, None, Some(environment)).result == usage
        }),
{
    law_coverage_tells_which_values_are_set(store, project, environment);
}

/// Whether a command ends with an error of the registry.
pub open spec fn refused_with(
    result: Result<u8, CommandErrorView>,
    error: DomainErrorView,
) -> bool {
    result == Err::<u8, CommandErrorView>(CommandErrorView::Store(StoreErrorView::Domain(error)))
}

/// A run that starts no program says why: a check prints the report, a run without a command is
/// refused as such, a project or an environment that is not there by its name, and missing values
/// by their keys.
pub proof fn law_run_refusals(
    plan: RunPlan,
    store: &Store,
    project: Seq<char>,
    environment: Seq<char>,
    check: bool,
    command: Seq<Seq<char>>,
)
    requires
        store@.well_formed(),
        store@.values_open(),
        planned(plan, store, project, environment, check, command),
        plan is Show,
    ensures
        ({
            let s = store@;
            let result = plan->Show_0@.result;
            let there = s.record(Table::Projects, project) is Some && s.record(
                Table::Environments,
                environment,
            ) is Some;
            &&& check && there ==> plan->Show_0@.output == coverage_text(
                coverage_result(store, project, environment)->Ok_0,
            )
            &&& !check && command.len() == 0 ==> result == Err::<u8, CommandErrorView>(
                CommandErrorView::Domain(DomainErrorView::EmptyCommand),
            )
            &&& (check || command.len() > 0) && s.record(Table::Projects, project) is None
                ==> refused_with(result, DomainErrorView::ProjectNotFound(project))
            &&& (check || command.len() > 0) && s.record(Table::Projects, project) is Some
                && s.record(Table::Environments, environment) is None ==> refused_with(
                result,
                DomainErrorView::EnvironmentNotFound(environment),
            )
            &&& !check && command.len() > 0 && there ==> exists|keys: Seq<Seq<char>>|
                {
                    &&& #[trigger] refused_with(
                        result,
                        DomainErrorView::MissingVariants {
                            project,
                            environment,
                            missing_keys: keys,
                        },
                    )
                    &&& forall|k: Seq<char>| #[trigger]
                        keys.contains(k) <==> s.has_assignment(k, project) && s.shown(
                            k,
                            environment,
                        ) is None
                }
        }),
{
    let s = store@;
    law_coverage_tells_which_values_are_set(store, project, environment);
    if s.record(Table::Projects, project) is Some && s.record(
        Table::Environments,
        environment,
    ) is Some {
        law_resolution_gives_every_assigned_value(store, project, environment);
        if !check && command.len() > 0 {
            let failure = resolve_result(store, project, environment)->Err_0;
            let keys = failure->Missing_0->missing_keys;
            assert(refused_with(
                plan->Show_0@.result,
                DomainErrorView::MissingVariants { project, environment, missing_keys: keys },
            ));
        }
    }
}

} // verus!
