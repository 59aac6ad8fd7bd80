//! What importing a dotenv file does to a store, as it shows from outside.

use crate::change::Change;
use crate::commands::CommandErrorView;
use crate::domain::DomainErrorView;
use crate::dotenv::{
    entry_key, import_outcome, item_imported, items_imported, secret_ensured, ItemView,
};
use crate::effects::{same_names_but, same_values};
use crate::error::StoreErrorView;
use crate::laws::{lemma_logged, lemma_set_elsewhere};
use crate::model::lemma_variant_after_set;
use crate::requested::{law_adding, law_assigning};
use crate::requests::lemma_found_id;
use crate::store::FreshView;
use crate::tables::{RecordView, StoreView, Table};
use crate::text::decimal_text;
use crate::wellformed::{lemma_assignment_made, lemma_inserted, lemma_value_set};
use vstd::prelude::*;

verus! {

/// Whether the tables hold a value for a secret in an environment, be it readable or not.
pub open spec fn has_row(s: StoreView, key: Seq<char>, environment: Seq<char>) -> bool {
    s.record(Table::Secrets, key) is Some && s.record(Table::Environments, environment) is Some
        && s.variant(
        s.record(Table::Secrets, key)->0.id,
        s.record(Table::Environments, environment)->0.id,
    ) is Some
}

/// Whether a key is that of one of some entries.
pub open spec fn is_entry(items: Seq<ItemView>, key: Seq<char>) -> bool {
    exists|i: int|
        0 <= i < items.len() && (#[trigger] items[i] matches Some(entry) && entry.0 == key)
}

/// What importing leaves: projects, environments and the secrets that were there, values in
/// other environments, and what belongs to secrets and projects that it does not speak of.
pub open spec fn leaves_the_rest(
    s: StoreView,
    t: StoreView,
    items: Seq<ItemView>,
    project: Seq<char>,
    environment: Seq<char>,
) -> bool {
    &&& forall|n: Seq<char>| #[trigger]
        t.record(Table::Projects, n) == s.record(Table::Projects, n)
    &&& forall|n: Seq<char>| #[trigger]
        t.record(Table::Environments, n) == s.record(Table::Environments, n)
    &&& forall|k: Seq<char>|
        s.record(Table::Secrets, k) is Some || !is_entry(items, k) ==> #[trigger] t.record(
            Table::Secrets,
            k,
        ) == s.record(Table::Secrets, k)
    &&& forall|k: Seq<char>, e: Seq<char>|
        e != environment || !is_entry(items, k) ==> #[trigger] t.shown(k, e) == s.shown(k, e)
    &&& forall|k: Seq<char>, p: Seq<char>|
        p != project || !is_entry(items, k) ==> #[trigger] t.has_assignment(k, p)
            == s.has_assignment(k, p)
    &&& forall|k: Seq<char>, e: Seq<char>| has_row(s, k, e) ==> #[trigger] has_row(t, k, e)
    &&& forall|k: Seq<char>, p: Seq<char>|
        s.has_assignment(k, p) ==> #[trigger] t.has_assignment(k, p)
}

proof fn lemma_secret_ensured(s: StoreView, key: Seq<char>, fresh: FreshView)
    requires
        s.well_formed(),
        secret_ensured(s, key, fresh).1 is Ok,
    ensures
        ({
            let t = secret_ensured(s, key, fresh).0;
            &&& t.well_formed()
            &&& t.key == s.key
            &&& t.record(Table::Secrets, key) is Some
            &&& s.record(Table::Secrets, key) is Some ==> t == s
            &&& s.record(Table::Secrets, key) is None ==> t.record(Table::Secrets, key)
                == Some(
                RecordView {
                    id: fresh.id,
                    name: key,
                    description: None,
                    created_at: fresh.time,
                    updated_at: fresh.time,
                },
            )
            &&& t.variants == s.variants
            &&& same_names_but(s, t, Table::Secrets, key)
            &&& forall|n: Seq<char>| #[trigger]
                t.record(Table::Projects, n) == s.record(Table::Projects, n)
            &&& forall|n: Seq<char>| #[trigger]
                t.record(Table::Environments, n) == s.record(Table::Environments, n)
            &&& same_values(s, t)
            &&& forall|k: Seq<char>, p: Seq<char>| #[trigger]
                t.has_assignment(k, p) == s.has_assignment(k, p)
        }),
{
    if s.record(Table::Secrets, key) is None {
        let row = RecordView {
            id: fresh.id,
            name: key,
            description: None,
            created_at: fresh.time,
            updated_at: fresh.time,
        };
        law_adding(s, Table::Secrets, key, None, fresh);
        lemma_inserted(s, Table::Secrets, row);
        lemma_logged(
            s.inserted(Table::Secrets, row)->Ok_0,
            Change::SecretAdd { key, description: None },
            fresh,
        );
    }
}

/// What importing one entry does.
proof fn lemma_item(
    s: StoreView,
    project: Seq<char>,
    environment: Seq<char>,
    path: Seq<char>,
    yes: bool,
    item: ItemView,
    fresh: (FreshView, FreshView, FreshView),
)
    requires
        s.well_formed(),
        item_imported(s, project, environment, path, yes, item, fresh).1 is Ok,
    ensures
        ({
            let t = item_imported(s, project, environment, path, yes, item, fresh).0;
            &&& item is Some
            &&& t.well_formed()
            &&& t.record(Table::Secrets, entry_key(item)) is Some
            &&& t.has_assignment(entry_key(item), project)
            &&& has_row(t, entry_key(item), environment)
            &&& !yes ==> !has_row(s, entry_key(item), environment)
            &&& leaves_the_rest(s, t, seq![item], project, environment)
        }),
{
    let t = item_imported(s, project, environment, path, yes, item, fresh).0;
    let (key, value) = item->0;
    let s1 = secret_ensured(s, key, fresh.0).0;
    lemma_secret_ensured(s, key, fresh.0);
    let s2 = s1.variant_set(key, environment, value, fresh.1).0;
    let secret = s1.record(Table::Secrets, key)->0;
    let place = s1.record(Table::Environments, environment)->0;
    let time = fresh.1.operation_time;
    let step = s1.value_set(secret.id, place.id, value, fresh.1.id, fresh.1.nonce, time);
    lemma_found_id(s1, Table::Secrets, key);
    lemma_found_id(s1, Table::Environments, environment);
    lemma_value_set(s1, secret.id, place.id, value, fresh.1.id, fresh.1.nonce, time);
    lemma_logged(step->Ok_0, Change::VariantSet { key, environment, value }, fresh.1);
    assert(s2.well_formed());
    law_assigning(s2, key, project, fresh.2);
    let owner = s2.record(Table::Projects, project)->0;
    lemma_found_id(s2, Table::Secrets, key);
    lemma_found_id(s2, Table::Projects, project);
    lemma_assignment_made(s2, owner.id, secret.id, fresh.2.time);
    lemma_logged(
        s2.assignment_made(owner.id, secret.id, fresh.2.time),
        Change::SecretAssign { key, project },
        fresh.2,
    );
    assert(t == s2.secret_assigned(key, project, fresh.2).0);
    assert(t.well_formed());
    assert(is_entry(seq![item], key)) by {
        assert(seq![item][0] == item);
    }
    assert forall|k: Seq<char>| #[trigger] is_entry(seq![item], k) implies k == key by {
    }
    assert forall|k: Seq<char>, e: Seq<char>|
        e != environment || !is_entry(seq![item], k) implies #[trigger] t.shown(k, e) == s.shown(
        k,
        e,
    ) by {
        lemma_set_elsewhere(s1, key, environment, value, fresh.1, k, e);
        assert(t.shown(k, e) == s2.shown(k, e));
        assert(s1.shown(k, e) == s.shown(k, e));
    }
    assert forall|a: crate::ids::Id, b: crate::ids::Id|
        s1.variant(a, b) is Some || (a == secret.id && b == place.id) implies (
    #[trigger] t.variant(a, b)) is Some by {
        lemma_variant_after_set(
            s1,
            secret.id,
            place.id,
            value,
            fresh.1.id,
            fresh.1.nonce,
            time,
            a,
            b,
        );
    }
    assert(has_row(t, key, environment));
    assert forall|k: Seq<char>, e: Seq<char>| has_row(s, k, e) implies #[trigger] has_row(
        t,
        k,
        e,
    ) by {
        assert(s1.record(Table::Secrets, k) == s.record(Table::Secrets, k));
    }
    assert forall|k: Seq<char>, p: Seq<char>|
        p != project || !is_entry(seq![item], k) implies #[trigger] t.has_assignment(k, p)
        == s.has_assignment(k, p) by {
        assert(t.has_assignment(k, p) == s2.has_assignment(k, p));
        assert(s2.has_assignment(k, p) == s1.has_assignment(k, p));
    }
    assert forall|k: Seq<char>, p: Seq<char>| s.has_assignment(k, p) implies #[trigger]
        t.has_assignment(k, p) by {
        assert(s2.has_assignment(k, p) == s1.has_assignment(k, p));
        assert(s1.has_assignment(k, p) == s.has_assignment(k, p));
        if (k, p) != (key, project) {
            assert(t.has_assignment(k, p) == s2.has_assignment(k, p));
        }
    }
    assert forall|k: Seq<char>|
        s.record(Table::Secrets, k) is Some || !is_entry(seq![item], k) implies #[trigger] t.record(
        Table::Secrets,
        k,
    ) == s.record(Table::Secrets, k) by {
        assert(t.record(Table::Secrets, k) == s2.record(Table::Secrets, k));
        assert(s2.record(Table::Secrets, k) == s1.record(Table::Secrets, k));
    }
    assert forall|n: Seq<char>| #[trigger] t.record(Table::Projects, n) == s.record(
        Table::Projects,
        n,
    ) by {
        assert(s2.record(Table::Projects, n) == s1.record(Table::Projects, n));
    }
    assert forall|n: Seq<char>| #[trigger] t.record(Table::Environments, n) == s.record(
        Table::Environments,
        n,
    ) by {
        assert(s2.record(Table::Environments, n) == s1.record(Table::Environments, n));
    }
}

proof fn lemma_is_entry(items: Seq<ItemView>, key: Seq<char>)
    requires
        items.len() > 0,
    ensures
        is_entry(items, key) <==> is_entry(items.drop_last(), key) || is_entry(
            seq![items.last()],
            key,
        ),
{
    let rest = items.drop_last();
    let one = seq![items.last()];
    if is_entry(items, key) {
        let i = choose|i: int|
            0 <= i < items.len() && (#[trigger] items[i] matches Some(entry) && entry.0 == key);
        if i < rest.len() {
            assert(rest[i] == items[i]);
        } else {
            assert(one[0] == items[i]);
        }
    }
    if is_entry(rest, key) {
        let i = choose|i: int|
            0 <= i < rest.len() && (#[trigger] rest[i] matches Some(entry) && entry.0 == key);
        assert(items[i] == rest[i]);
    }
    if is_entry(one, key) {
        assert(items[items.len() - 1] == one[0]);
    }
}

/// After an import that succeeds every entry has a secret, a value in the environment and an
/// assignment to the project, whether or not the secret was there before. Without the wish to
/// overwrite no entry had a value before. Nothing else changes: the secrets that were there keep
/// their rows, values elsewhere stay, and so do the other assignments.
pub proof fn law_import_assigns_every_entry(
    s: StoreView,
    project: Seq<char>,
    environment: Seq<char>,
    path: Seq<char>,
    yes: bool,
    items: Seq<ItemView>,
    fresh: Seq<FreshView>,
)
    requires
        s.well_formed(),
        items_imported(s, project, environment, path, yes, items, fresh).1 is Ok,
    ensures
        ({
            let t = items_imported(s, project, environment, path, yes, items, fresh).0;
            &&& t.well_formed()
            &&& forall|i: int|
                0 <= i < items.len() ==> {
                    &&& (#[trigger] items[i]) is Some
                    &&& t.record(Table::Secrets, entry_key(items[i])) is Some
                    &&& t.has_assignment(entry_key(items[i]), project)
                    &&& has_row(t, entry_key(items[i]), environment)
                    &&& !yes ==> s.shown(entry_key(items[i]), environment) is None
                }
            &&& leaves_the_rest(s, t, items, project, environment)
        }),
    decreases items.len(),
{
    if items.len() > 0 {
        let n = items.len() - 1;
        let rest = items.drop_last();
        let last = items.last();
        let draws = (fresh[3 * n], fresh[3 * n + 1], fresh[3 * n + 2]);
        law_import_assigns_every_entry(s, project, environment, path, yes, rest, fresh);
        let u = items_imported(s, project, environment, path, yes, rest, fresh).0;
        let t = items_imported(s, project, environment, path, yes, items, fresh).0;
        lemma_item(u, project, environment, path, yes, last, draws);
        assert forall|k: Seq<char>| #[trigger] is_entry(items, k) <==> is_entry(rest, k)
            || is_entry(seq![last], k) by {
            lemma_is_entry(items, k);
        }
        assert forall|i: int| 0 <= i < items.len() implies {
            &&& (#[trigger] items[i]) is Some
            &&& t.record(Table::Secrets, entry_key(items[i])) is Some
            &&& t.has_assignment(entry_key(items[i]), project)
            &&& has_row(t, entry_key(items[i]), environment)
            &&& !yes ==> s.shown(entry_key(items[i]), environment) is None
        } by {
            if i < n {
                assert(rest[i] == items[i]);
                let k = entry_key(items[i]);
                assert(u.record(Table::Secrets, k) is Some);
                assert(t.record(Table::Secrets, k) == u.record(Table::Secrets, k));
                assert(has_row(u, k, environment));
            } else if !yes {
                let k = entry_key(last);
                assert(!has_row(u, k, environment));
                if s.shown(k, environment) is Some {
                    assert(has_row(s, k, environment));
                    assert(has_row(u, k, environment));
                }
            }
        }
        assert forall|k: Seq<char>|
            s.record(Table::Secrets, k) is Some || !is_entry(items, k) implies #[trigger] t.record(
            Table::Secrets,
            k,
        ) == s.record(Table::Secrets, k) by {
            assert(is_entry(items, k) <==> is_entry(rest, k) || is_entry(seq![last], k));
            assert(u.record(Table::Secrets, k) == s.record(Table::Secrets, k));
        }
        assert forall|k: Seq<char>, e: Seq<char>|
            e != environment || !is_entry(items, k) implies #[trigger] t.shown(k, e) == s.shown(
            k,
            e,
        ) by {
            assert(is_entry(items, k) <==> is_entry(rest, k) || is_entry(seq![last], k));
            assert(u.shown(k, e) == s.shown(k, e));
        }
        assert forall|k: Seq<char>, p: Seq<char>|
            p != project || !is_entry(items, k) implies #[trigger] t.has_assignment(k, p)
            == s.has_assignment(k, p) by {
            assert(is_entry(items, k) <==> is_entry(rest, k) || is_entry(seq![last], k));
            assert(u.has_assignment(k, p) == s.has_assignment(k, p));
        }
        assert forall|n: Seq<char>| #[trigger] t.record(Table::Projects, n) == s.record(
            Table::Projects,
            n,
        ) by {
            assert(u.record(Table::Projects, n) == s.record(Table::Projects, n));
        }
        assert forall|n: Seq<char>| #[trigger] t.record(Table::Environments, n) == s.record(
            Table::Environments,
            n,
        ) by {
            assert(u.record(Table::Environments, n) == s.record(Table::Environments, n));
        }
        assert forall|k: Seq<char>, e: Seq<char>| has_row(s, k, e) implies #[trigger] has_row(
            t,
            k,
            e,
        ) by {
            assert(has_row(u, k, e));
        }
        assert forall|k: Seq<char>, p: Seq<char>| s.has_assignment(k, p) implies #[trigger]
            t.has_assignment(k, p) by {
            assert(u.has_assignment(k, p));
        }
    }
}

/// An import into a project or an environment that is not there, or of a file that cannot be
/// read, changes nothing and fails. One that succeeds says how many entries there were.
pub proof fn law_import_command(
    s: StoreView,
    project: Seq<char>,
    environment: Seq<char>,
    path: Seq<char>,
    yes: bool,
    items: Option<Seq<ItemView>>,
    fresh: Seq<FreshView>,
)
    ensures
        ({
            let (t, reply) = import_outcome(s, project, environment, path, yes, items, fresh);
            &&& s.record(Table::Projects, project) is None || s.record(
                Table::Environments,
                environment,
            ) is None || items is None ==> t == s && reply.result is Err
            &&& reply.result is Ok ==> {
                &&& items is Some
                &&& items_imported(
                    s,
                    project,
                    environment,
                    path,
                    yes,
                    items->0,
                    fresh,
                ) == (t, Ok::<(), CommandErrorView>(()))
                &&& reply.result == Ok::<u8, CommandErrorView>(0)
                &&& reply.output == "Imported "@ + decimal_text(items->0.len())
                    + " secret(s) into project \""@ + project + "\" / environment \""@ + environment
                    + "\".\n"@
            }
            &&& reply.result is Err ==> reply.output.len() == 0
            &&& s.record(Table::Projects, project) is None ==> reply.result == Err::<
                u8,
                CommandErrorView,
            >(
                CommandErrorView::Store(
                    StoreErrorView::Domain(DomainErrorView::ProjectNotFound(project)),
                ),
            )
            &&& s.record(Table::Projects, project) is Some && s.record(
                Table::Environments,
                environment,
            ) is None ==> reply.result == Err::<u8, CommandErrorView>(
                CommandErrorView::Store(
                    StoreErrorView::Domain(DomainErrorView::EnvironmentNotFound(environment)),
                ),
            )
            &&& s.record(Table::Projects, project) is Some && s.record(
                Table::Environments,
                environment,
            ) is Some ==> {
                &&& items is None ==> reply.result == Err::<u8, CommandErrorView>(
                    CommandErrorView::Other("failed to read "@ + path),
                )
                &&& items matches Some(list) ==> {
                    let (u, r) = items_imported(
                        s,
                        project,
                        environment,
                        path,
                        yes,
                        list,
                        fresh,
                    );
                    t == u && (r matches Err(error) ==> reply.result == Err::<
                        u8,
                        CommandErrorView,
                    >(error)) && (r is Ok ==> reply.result is Ok)
                }
            }
        }),
{
}

/// Importing one entry is setting its value and assigning its secret to the project, and adding
/// the secret first where it is not there. A value that is there stays unless it may be
/// overwritten, and an entry that cannot be read changes nothing.
pub proof fn law_entry_is_set_and_assigned(
    s: StoreView,
    project: Seq<char>,
    environment: Seq<char>,
    path: Seq<char>,
    yes: bool,
    key: Seq<char>,
    value: Seq<char>,
    fresh: (FreshView, FreshView, FreshView),
)
    requires
        s.well_formed(),
    ensures
        ({
            let (t, r) = item_imported(
                s,
                project,
                environment,
                path,
                yes,
                Some((key, value)),
                fresh,
            );
            let (added, a) = s.record_added(Table::Secrets, key, None, fresh.0);
            let there = s.record(Table::Secrets, key) is Some;
            let s1 = if there {
                s
            } else {
                added
            };
            let (s2, b) = s1.variant_set(key, environment, value, fresh.1);
            let (s3, c) = s2.secret_assigned(key, project, fresh.2);
            let kept = s1.shown(key, environment) is Some && !yes;
            &&& kept && there ==> t == s && r == Err::<(), CommandErrorView>(
                CommandErrorView::Other(
                    "Variant \""@ + key + "\" for environment \""@ + environment
                        + "\" already exists. Re-run with --yes to overwrite."@,
                ),
            )
            &&& !there && a is Err ==> t == added && r is Err
            &&& (there || a is Ok) && !kept && s1.value(key, environment) is Ok ==> {
                &&& b is Ok && c is Ok ==> t == s3 && r is Ok
                &&& b matches Err(error) ==> t == s2 && r == Err::<(), CommandErrorView>(
                    CommandErrorView::Store(error),
                )
                &&& b is Ok && c is Err ==> t == s3 && r == Err::<(), CommandErrorView>(
                    CommandErrorView::Store(c->Err_0),
                )
            }
        }),
        item_imported(s, project, environment, path, yes, None, fresh) == (
            s,
            Err::<(), CommandErrorView>(
                CommandErrorView::Other("failed to parse dotenv entry in "@ + path),
            ),
        ),
{
    law_adding(s, Table::Secrets, key, None, fresh.0);
}

/// Importing a list ahead of one more entry, and that entry next, is importing the list with the
/// entry at its end; an import that has failed does not go on.
pub proof fn law_import_takes_every_entry(
    s: StoreView,
    project: Seq<char>,
    environment: Seq<char>,
    path: Seq<char>,
    yes: bool,
    items: Seq<ItemView>,
    next: ItemView,
    fresh: Seq<FreshView>,
)
    ensures
        ({
            let (t, r) = items_imported(s, project, environment, path, yes, items, fresh);
            let n = 3 * items.len() as int;
            let all = items_imported(
                s,
                project,
                environment,
                path,
                yes,
                items.push(next),
                fresh,
            );
            &&& r is Ok ==> all == item_imported(
                t,
                project,
                environment,
                path,
                yes,
                next,
                (fresh[n], fresh[n + 1], fresh[n + 2]),
            )
            &&& r is Err ==> all == (t, r)
        }),
        items_imported(s, project, environment, path, yes, Seq::empty(), fresh) == (
            s,
            Ok::<(), CommandErrorView>(()),
        ),
{
    assert(items.push(next).drop_last() =~= items);
}

} // verus!
