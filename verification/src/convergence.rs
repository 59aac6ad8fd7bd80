//! What devices that exchange operations agree on: of two updates of a value the later one
//! decides, and the order in which operations arrive does not matter.

use crate::change::{change_read, Change, ChangeView};
use crate::crypto::sealed_text;
use crate::error::StoreErrorView;
use crate::ids::Id;
use crate::laws::{
    law_success_is_one_logged_change, lemma_knows_pushed, lemma_replay_keeps_log,
    lemma_value_elsewhere,
};
use crate::model::{lemma_variant_after_set, lemma_variant_kept, lemma_variant_some};
use crate::order::{
    distinct_by, in_order, lemma_filter, lemma_filter_last, lemma_ordered, lemma_ordered_contains,
    lemma_ordered_distinct, lemma_ordered_filtered, ordered,
};
use crate::requests::lemma_found_id;
use crate::store::FreshView;
use crate::tables::{
    lemma_operation_order, operation_order, RemovalRow, StoreView, SyncOperationView, Table,
    VariantRowView,
};
use crate::time::{lemma_time_total, Timestamp};
use crate::wellformed::{
    lemma_recorded, lemma_removal_noted, lemma_value_set, lemma_value_unset,
};
use vstd::prelude::*;

verus! {

/// The change that an update of a value stands for: the value is set to a text, or taken away.
pub open spec fn update_of(
    key: Seq<char>,
    environment: Seq<char>,
    value: Option<Seq<char>>,
) -> ChangeView {
    match value {
        Some(value) => Change::VariantSet { key, environment, value },
        None => Change::VariantUnset { key, environment },
    }
}

/// Noting a removal notes its time, and keeps a later one.
proof fn lemma_removal_times(
    s: StoreView,
    secret_id: Id,
    environment_id: Id,
    time: Timestamp,
    since: Timestamp,
)
    ensures
        s.removal_noted(secret_id, environment_id, time).removed_after(
            secret_id,
            environment_id,
            since,
        ) == (s.removed_after(secret_id, environment_id, since) || since.earlier(time)),
{
    let t = s.removal_noted(secret_id, environment_id, time);
    let kept = |r: RemovalRow|
        !(r.secret_id == secret_id && r.environment_id == environment_id);
    if s.removed_after(secret_id, environment_id, time) {
        let i = choose|i: int|
            0 <= i < s.removals.len() && (#[trigger] s.removals[i]).secret_id == secret_id
                && s.removals[i].environment_id == environment_id && time.earlier(
                s.removals[i].removed_at,
            );
        if since.earlier(time) {
            assert(since.earlier(s.removals[i].removed_at));
        }
    } else {
        let others = s.removals.filter(kept);
        lemma_filter(s.removals, kept, |r: RemovalRow| r.secret_id);
        let last = t.removals.len() - 1;
        assert(t.removals[last] == RemovalRow { secret_id, environment_id, removed_at: time });
        if s.removed_after(secret_id, environment_id, since) {
            let i = choose|i: int|
                0 <= i < s.removals.len() && (#[trigger] s.removals[i]).secret_id == secret_id
                    && s.removals[i].environment_id == environment_id && since.earlier(
                    s.removals[i].removed_at,
                );
            assert(!time.earlier(s.removals[i].removed_at));
            assert(since.earlier(time));
        }
        if t.removed_after(secret_id, environment_id, since) {
            let i = choose|i: int|
                0 <= i < t.removals.len() && (#[trigger] t.removals[i]).secret_id == secret_id
                    && t.removals[i].environment_id == environment_id && since.earlier(
                    t.removals[i].removed_at,
                );
            if i < others.len() {
                assert(t.removals[i] == others[i]);
                assert(kept(others[i]));
            }
        }
    }
}

/// What replaying an update does to the value of its secret in its environment.
proof fn lemma_update(
    s: StoreView,
    key: Seq<char>,
    environment: Seq<char>,
    value: Option<Seq<char>>,
    time: Timestamp,
    fresh: FreshView,
)
    requires
        s.well_formed(),
        s.record(Table::Secrets, key) is Some,
        s.record(Table::Environments, environment) is Some,
        s.change_replayed(update_of(key, environment, value), time, fresh).1 is Ok,
    ensures
        ({
            let t = s.change_replayed(update_of(key, environment, value), time, fresh).0;
            let secret_id = s.record(Table::Secrets, key)->0.id;
            let environment_id = s.record(Table::Environments, environment)->0.id;
            let before = s.variant(secret_id, environment_id);
            let after = t.variant(secret_id, environment_id);
            &&& t.well_formed()
            &&& t == (StoreView { variants: t.variants, removals: t.removals, ..s })
            &&& forall|a: Id, b: Id|
                !(a == secret_id && b == environment_id) ==> #[trigger] t.variant(a, b)
                    == s.variant(a, b)
            &&& match value {
                Some(text) => if s.outdated(secret_id, environment_id, time) {
                    t == s
                } else {
                    &&& t.removals == s.removals
                    &&& after matches Some(row) && row.updated_at == time && row.nonce
                        == fresh.nonce && row.ciphertext == sealed_text(s.key, fresh.nonce, text)
                },
                None => {
                    &&& if before matches Some(row) && time.earlier(row.updated_at) {
                        after == before
                    } else {
                        after is None
                    }
                    &&& forall|since: Timestamp| #[trigger]
                        t.removed_after(secret_id, environment_id, since) == (s.removed_after(
                            secret_id,
                            environment_id,
                            since,
                        ) || since.earlier(time))
                },
            }
        }),
{
    let t = s.change_replayed(update_of(key, environment, value), time, fresh).0;
    let secret = s.record(Table::Secrets, key)->0;
    let place = s.record(Table::Environments, environment)->0;
    lemma_found_id(s, Table::Secrets, key);
    lemma_found_id(s, Table::Environments, environment);
    match value {
        Some(text) => {
            if !s.outdated(secret.id, place.id, time) {
                lemma_value_set(s, secret.id, place.id, text, fresh.id, fresh.nonce, time);
                lemma_variant_after_set(
                    s,
                    secret.id,
                    place.id,
                    text,
                    fresh.id,
                    fresh.nonce,
                    time,
                    secret.id,
                    place.id,
                );
                assert forall|a: Id, b: Id|
                    !(a == secret.id && b == place.id) implies #[trigger] t.variant(a, b)
                    == s.variant(a, b) by {
                    lemma_variant_after_set(
                        s,
                        secret.id,
                        place.id,
                        text,
                        fresh.id,
                        fresh.nonce,
                        time,
                        a,
                        b,
                    );
                }
            }
        },
        None => {
            let kept = |v: VariantRowView|
                !(v.secret_id == secret.id && v.environment_id == place.id);
            let stays = s.variant(secret.id, place.id) is None || time.earlier(
                s.variant(secret.id, place.id)->0.updated_at,
            );
            let u = if stays {
                s
            } else {
                s.value_unset(secret.id, place.id)
            };
            lemma_value_unset(s, secret.id, place.id);
            lemma_removal_noted(u, secret.id, place.id, time);
            assert(t == u.removal_noted(secret.id, place.id, time));
            assert forall|since: Timestamp| #[trigger]
                t.removed_after(secret.id, place.id, since) == (s.removed_after(
                    secret.id,
                    place.id,
                    since,
                ) || since.earlier(time)) by {
                lemma_removal_times(u, secret.id, place.id, time, since);
                assert(u.removed_after(secret.id, place.id, since) == s.removed_after(
                    secret.id,
                    place.id,
                    since,
                ));
            }
            lemma_variant_some(s.variants, secret.id, place.id);
            lemma_variant_kept(s.variants, kept, secret.id, place.id);
            assert forall|a: Id, b: Id|
                !(a == secret.id && b == place.id) implies #[trigger] t.variant(a, b)
                == s.variant(a, b) by {
                lemma_variant_some(s.variants, a, b);
                lemma_variant_kept(s.variants, kept, a, b);
            }
        },
    }
}

/// Of two updates of one secret in one environment, each a setting or a removal, that were
/// made at different times, the later one decides what the value is, whichever of them is
/// replayed first. The store must not know of an update that is later still, and a value must
/// be read back when it is replayed, as replaying promises.
pub proof fn law_latest_update_decides(
    s: StoreView,
    key: Seq<char>,
    environment: Seq<char>,
    older: (Option<Seq<char>>, Timestamp, FreshView),
    newer: (Option<Seq<char>>, Timestamp, FreshView),
)
    requires
        s.well_formed(),
        s.update_due(key, environment, newer.1),
        older.1.earlier(newer.1),
        s.replay_confirmed(update_of(key, environment, newer.0), newer.1, newer.2),
        s.change_replayed(
            update_of(key, environment, older.0),
            older.1,
            older.2,
        ).0.replay_confirmed(update_of(key, environment, newer.0), newer.1, newer.2),
    ensures
        ({
            let first = update_of(key, environment, older.0);
            let second = update_of(key, environment, newer.0);
            let (a, early) = s.change_replayed(first, older.1, older.2);
            let (b, late) = a.change_replayed(second, newer.1, newer.2);
            early is Ok && late is Ok ==> b.value(key, environment) == Ok::<
                Option<Seq<char>>,
                StoreErrorView,
            >(newer.0)
        }),
        ({
            let first = update_of(key, environment, newer.0);
            let second = update_of(key, environment, older.0);
            let (a, early) = s.change_replayed(first, newer.1, newer.2);
            let (b, late) = a.change_replayed(second, older.1, older.2);
            early is Ok ==> late is Ok && b.value(key, environment) == Ok::<
                Option<Seq<char>>,
                StoreErrorView,
            >(newer.0)
        }),
{
    let secret_id = s.record(Table::Secrets, key)->0.id;
    let environment_id = s.record(Table::Environments, environment)->0.id;
    let past = update_of(key, environment, older.0);
    let present = update_of(key, environment, newer.0);
    let (a, early) = s.change_replayed(past, older.1, older.2);
    if early is Ok {
        lemma_update(s, key, environment, older.0, older.1, older.2);
        assert(!a.removed_after(secret_id, environment_id, newer.1));
        assert(!a.outdated(secret_id, environment_id, newer.1));
        if a.change_replayed(present, newer.1, newer.2).1 is Ok {
            lemma_update(a, key, environment, newer.0, newer.1, newer.2);
        }
    }
    let (c, first) = s.change_replayed(present, newer.1, newer.2);
    if first is Ok {
        lemma_update(s, key, environment, newer.0, newer.1, newer.2);
        if newer.0 is None {
            assert(c.removed_after(secret_id, environment_id, older.1));
        }
        assert(c.outdated(secret_id, environment_id, older.1));
        assert(c.change_replayed(past, older.1, older.2).1 is Ok);
        lemma_update(c, key, environment, older.0, older.1, older.2);
    }
}

/// An update that was made on another device before one that was made here leaves what the
/// latter set, or that it took the value away.
pub proof fn law_older_update_leaves_a_local_one(
    s: StoreView,
    key: Seq<char>,
    environment: Seq<char>,
    value: Option<Seq<char>>,
    fresh: FreshView,
    older: (Option<Seq<char>>, Timestamp, FreshView),
)
    requires
        s.well_formed(),
        s.change_made(update_of(key, environment, value), fresh).1 is Ok,
        s.change_confirmed(update_of(key, environment, value), fresh),
        older.1.earlier(fresh.operation_time),
    ensures
        ({
            let t = s.change_made(update_of(key, environment, value), fresh).0;
            let (u, result) = t.change_replayed(
                update_of(key, environment, older.0),
                older.1,
                older.2,
            );
            &&& result is Ok
            &&& t.value(key, environment) == Ok::<Option<Seq<char>>, StoreErrorView>(value)
            &&& u.value(key, environment) == t.value(key, environment)
        }),
{
    let change = update_of(key, environment, value);
    let t = s.change_made(change, fresh).0;
    let secret_id = s.record(Table::Secrets, key)->0.id;
    let environment_id = s.record(Table::Environments, environment)->0.id;
    law_success_is_one_logged_change(s, change, fresh);
    match value {
        Some(text) => {
            lemma_variant_after_set(
                s,
                secret_id,
                environment_id,
                text,
                fresh.id,
                fresh.nonce,
                fresh.operation_time,
                secret_id,
                environment_id,
            );
        },
        None => {
            let unset = s.value_unset(secret_id, environment_id);
            let noted = unset.removal_noted(secret_id, environment_id, fresh.operation_time);
            let kept = |v: VariantRowView|
                !(v.secret_id == secret_id && v.environment_id == environment_id);
            lemma_variant_some(s.variants, secret_id, environment_id);
            lemma_variant_kept(s.variants, kept, secret_id, environment_id);
            lemma_removal_times(
                unset,
                secret_id,
                environment_id,
                fresh.operation_time,
                older.1,
            );
            assert(t.removed_after(secret_id, environment_id, older.1) == noted.removed_after(
                secret_id,
                environment_id,
                older.1,
            ));
        },
    }
    assert(t.outdated(secret_id, environment_id, older.1));
    lemma_update(t, key, environment, older.0, older.1, older.2);
}

/// Two devices that each updated a value, one after the other by their clocks, come to the same
/// value once each of them has replayed the operation of the other: that of the later update.
/// Neither must know of an update that is later still.
pub proof fn law_devices_come_to_the_same_value(
    s: StoreView,
    t: StoreView,
    key: Seq<char>,
    environment: Seq<char>,
    older: (Option<Seq<char>>, FreshView),
    newer: (Option<Seq<char>>, FreshView),
    draws: (FreshView, FreshView),
)
    requires
        s.well_formed(),
        t.well_formed(),
        s.change_made(update_of(key, environment, older.0), older.1).1 is Ok,
        s.change_confirmed(update_of(key, environment, older.0), older.1),
        t.change_made(update_of(key, environment, newer.0), newer.1).1 is Ok,
        t.change_confirmed(update_of(key, environment, newer.0), newer.1),
        older.1.operation_time.earlier(newer.1.operation_time),
        ({
            let time = newer.1.operation_time;
            let change = update_of(key, environment, newer.0);
            let here = s.change_made(update_of(key, environment, older.0), older.1).0;
            &&& here.update_due(key, environment, time)
            &&& here.change_replayed(change, time, draws.0).1 is Ok
            &&& here.replay_confirmed(change, time, draws.0)
        }),
    ensures
        ({
            let past = update_of(key, environment, older.0);
            let present = update_of(key, environment, newer.0);
            let here = s.change_made(past, older.1).0.change_replayed(
                present,
                newer.1.operation_time,
                draws.0,
            ).0;
            let there = t.change_made(present, newer.1).0.change_replayed(
                past,
                older.1.operation_time,
                draws.1,
            ).0;
            &&& here.value(key, environment) == Ok::<Option<Seq<char>>, StoreErrorView>(newer.0)
            &&& there.value(key, environment) == Ok::<Option<Seq<char>>, StoreErrorView>(newer.0)
        }),
{
    let past = update_of(key, environment, older.0);
    law_success_is_one_logged_change(s, past, older.1);
    let here = s.change_made(past, older.1).0;
    lemma_update(here, key, environment, newer.0, newer.1.operation_time, draws.0);
    law_older_update_leaves_a_local_one(
        t,
        key,
        environment,
        newer.0,
        newer.1,
        (older.0, older.1.operation_time, draws.1),
    );
}

/// An update of a value that is there counts if it was made no earlier than the value was
/// set; a removal in the meantime bars a setting too. One that does not count leaves the value
/// and its time. Nothing else changes but the times of removals.
pub proof fn law_update_is_weighed_by_its_time(
    s: StoreView,
    key: Seq<char>,
    environment: Seq<char>,
    value: Option<Seq<char>>,
    time: Timestamp,
    fresh: FreshView,
    other_key: Seq<char>,
    other_environment: Seq<char>,
)
    requires
        s.well_formed(),
        s.record(Table::Secrets, key) is Some,
        s.record(Table::Environments, environment) is Some,
        s.variant(
            s.record(Table::Secrets, key)->0.id,
            s.record(Table::Environments, environment)->0.id,
        ) is Some,
        s.change_replayed(update_of(key, environment, value), time, fresh).1 is Ok,
        s.replay_confirmed(update_of(key, environment, value), time, fresh),
    ensures
        ({
            let t = s.change_replayed(update_of(key, environment, value), time, fresh).0;
            let secret_id = s.record(Table::Secrets, key)->0.id;
            let environment_id = s.record(Table::Environments, environment)->0.id;
            let row = s.variant(secret_id, environment_id)->0;
            let barred = value is Some && s.removed_after(secret_id, environment_id, time);
            &&& t == (StoreView { variants: t.variants, removals: t.removals, ..s })
            &&& time.earlier(row.updated_at) || barred ==> t.variant(secret_id, environment_id)
                == Some(row) && t.value(key, environment) == s.value(key, environment)
            &&& !time.earlier(row.updated_at) && !barred ==> {
                &&& t.value(key, environment) == Ok::<Option<Seq<char>>, StoreErrorView>(value)
                &&& value is Some ==> t.variant(secret_id, environment_id)->0.updated_at == time
            }
            &&& (other_key, other_environment) != (key, environment) ==> t.value(
                other_key,
                other_environment,
            ) == s.value(other_key, other_environment)
        }),
{
    lemma_update(s, key, environment, value, time, fresh);
    let t = s.change_replayed(update_of(key, environment, value), time, fresh).0;
    if (other_key, other_environment) != (key, environment) {
        lemma_value_elsewhere(s, t, key, environment, other_key, other_environment);
    }
}

/// Two lists in order with the same items are the same list, if items of which neither comes
/// before the other are one.
proof fn lemma_in_order_unique<A>(a: Seq<A>, b: Seq<A>, before: spec_fn(A, A) -> bool)
    requires
        a.to_multiset() == b.to_multiset(),
        in_order(a, before),
        in_order(b, before),
        forall|x: A, y: A|
            a.contains(x) && a.contains(y) && !(#[trigger] before(x, y)) && !before(y, x) ==> x
                == y,
    ensures
        a == b,
    decreases a.len(),
{
    broadcast use vstd::seq_lib::group_to_multiset_ensures;

    assert(a.to_multiset().len() == a.len() && b.to_multiset().len() == b.len());
    if a.len() > 0 {
        let x = a.last();
        let y = b.last();
        assert(a.contains(x) && b.contains(y));
        assert(a.to_multiset().count(y) > 0 && b.to_multiset().count(x) > 0);
        assert(a.contains(y) && b.contains(x));
        let i = choose|i: int| 0 <= i < a.len() && a[i] == y;
        let j = choose|j: int| 0 <= j < b.len() && b[j] == x;
        if i < a.len() - 1 && j < b.len() - 1 {
            assert(!before(a[a.len() - 1], a[i]));
            assert(!before(b[b.len() - 1], b[j]));
            assert(!before(x, y));
        }
        assert(x == y);
        let rest = a.drop_last();
        let other = b.drop_last();
        assert(a =~= rest.push(x));
        assert(b =~= other.push(x));
        assert(rest.to_multiset() =~= a.to_multiset().remove(x));
        assert(other.to_multiset() =~= b.to_multiset().remove(x));
        assert forall|m: int, n: int| 0 <= m < n < rest.len() implies !before(
            #[trigger] rest[n],
            #[trigger] rest[m],
        ) by {
            assert(!before(a[n], a[m]));
        }
        assert forall|m: int, n: int| 0 <= m < n < other.len() implies !before(
            #[trigger] other[n],
            #[trigger] other[m],
        ) by {
            assert(!before(b[n], b[m]));
        }
        assert forall|p: A, q: A|
            rest.contains(p) && rest.contains(q) && !(#[trigger] before(p, q)) && !before(
                q,
                p,
            ) implies p == q by {
            assert(a.contains(p)) by {
                let m = choose|m: int| 0 <= m < rest.len() && rest[m] == p;
                assert(a[m] == p);
            }
            assert(a.contains(q)) by {
                let m = choose|m: int| 0 <= m < rest.len() && rest[m] == q;
                assert(a[m] == q);
            }
        }
        lemma_in_order_unique(rest, other, before);
    }
}

/// Lists of the same operations have one order.
pub proof fn lemma_same_order(
    operations: Seq<SyncOperationView>,
    shuffled: Seq<SyncOperationView>,
)
    requires
        operations.to_multiset() == shuffled.to_multiset(),
        forall|i: int, j: int|
            0 <= i < operations.len() && 0 <= j < operations.len() && (
            #[trigger] operations[i]).id == (#[trigger] operations[j]).id ==> operations[i]
                == operations[j],
    ensures
        ordered(shuffled, operation_order()) == ordered(operations, operation_order()),
{
    let before = operation_order();
    let a = ordered(operations, before);
    let b = ordered(shuffled, before);
    lemma_operation_order();
    lemma_ordered(operations, before);
    lemma_ordered(shuffled, before);
    assert forall|x: SyncOperationView, y: SyncOperationView|
        a.contains(x) && a.contains(y) && !(#[trigger] before(x, y)) && !before(y, x) implies x
        == y by {
        lemma_ordered_contains(operations, before, x);
        lemma_ordered_contains(operations, before, y);
        let i = choose|i: int| 0 <= i < operations.len() && operations[i] == x;
        let j = choose|j: int| 0 <= j < operations.len() && operations[j] == y;
        lemma_time_total(x.created_at, y.created_at);
        assert(operations[i].id == operations[j].id);
    }
    lemma_in_order_unique(a, b, before);
}

/// Importing does not depend on the order in which a list gives the operations: with the same
/// draws for each of them the outcome is the same. No two different operations must share an
/// identifier.
pub proof fn law_import_ignores_the_order(
    s: StoreView,
    operations: Seq<SyncOperationView>,
    shuffled: Seq<SyncOperationView>,
    fresh: Seq<FreshView>,
)
    requires
        operations.to_multiset() == shuffled.to_multiset(),
        forall|i: int, j: int|
            0 <= i < operations.len() && 0 <= j < operations.len() && (
            #[trigger] operations[i]).id == (#[trigger] operations[j]).id ==> operations[i]
                == operations[j],
    ensures
        s.operations_imported(shuffled, fresh) == s.operations_imported(operations, fresh),
{
    lemma_same_order(operations, shuffled);
}

/// Which operations are known after an import.
proof fn lemma_import_knows(
    s: StoreView,
    operations: Seq<SyncOperationView>,
    fresh: Seq<FreshView>,
    id: Id,
)
    requires
        s.all_imported(operations, fresh).1 is Ok,
    ensures
        s.all_imported(operations, fresh).0.knows(id) == (s.knows(id) || exists|i: int|
            0 <= i < operations.len() && (#[trigger] operations[i]).id == id),
    decreases operations.len(),
{
    if operations.len() > 0 {
        let rest = operations.drop_last();
        let n = operations.len() - 1;
        lemma_import_knows(s, rest, fresh, id);
        let before = s.all_imported(rest, fresh).0;
        let after = s.all_imported(operations, fresh).0;
        let last = operations.last();
        lemma_replay_keeps_log(before, last, fresh[n]);
        if !before.knows(last.id) {
            assert(after.operations.drop_last() =~= before.operations);
            lemma_knows_pushed(before.operations, after.operations, id);
        }
        if exists|i: int| 0 <= i < rest.len() && (#[trigger] rest[i]).id == id {
            let i = choose|i: int| 0 <= i < rest.len() && (#[trigger] rest[i]).id == id;
            assert(operations[i].id == id);
        }
        if exists|i: int| 0 <= i < operations.len() && (#[trigger] operations[i]).id == id {
            let i = choose|i: int| 0 <= i < operations.len() && (#[trigger] operations[i]).id
                == id;
            if i < n {
                assert(rest[i].id == id);
            }
        }
        assert(operations[n].id == last.id);
    }
}

proof fn lemma_import_counts(
    s: StoreView,
    operations: Seq<SyncOperationView>,
    fresh: Seq<FreshView>,
)
    requires
        s.all_imported(operations, fresh).1 is Ok,
        distinct_by(operations, |o: SyncOperationView| o.id),
    ensures
        s.all_imported(operations, fresh).1 == Ok::<nat, StoreErrorView>(
            operations.filter(|o: SyncOperationView| !s.knows(o.id)).len(),
        ),
    decreases operations.len(),
{
    let new = |o: SyncOperationView| !s.knows(o.id);
    let id_of = |o: SyncOperationView| o.id;
    if operations.len() > 0 {
        let rest = operations.drop_last();
        let last = operations.last();
        assert forall|i: int, j: int| 0 <= i < j < rest.len() implies id_of(#[trigger] rest[i])
            != id_of(#[trigger] rest[j]) by {
            assert(id_of(operations[i]) != id_of(operations[j]));
        }
        lemma_import_counts(s, rest, fresh);
        lemma_filter_last(operations, new);
        lemma_import_knows(s, rest, fresh, last.id);
        if exists|i: int| 0 <= i < rest.len() && (#[trigger] rest[i]).id == last.id {
            let i = choose|i: int| 0 <= i < rest.len() && (#[trigger] rest[i]).id == last.id;
            assert(id_of(operations[i]) != id_of(operations[operations.len() - 1]));
        }
    } else {
        reveal(Seq::filter);
    }
}

/// An import that succeeds counts the operations that were not known before.
pub proof fn law_import_counts_the_new(
    s: StoreView,
    operations: Seq<SyncOperationView>,
    fresh: Seq<FreshView>,
)
    requires
        distinct_by(operations, |o: SyncOperationView| o.id),
        s.operations_imported(operations, fresh).1 is Ok,
    ensures
        s.operations_imported(operations, fresh).1 == Ok::<nat, StoreErrorView>(
            operations.filter(|o: SyncOperationView| !s.knows(o.id)).len(),
        ),
{
    let id_of = |o: SyncOperationView| o.id;
    let new = |o: SyncOperationView| !s.knows(o.id);
    lemma_ordered_distinct(operations, operation_order(), id_of);
    lemma_ordered_filtered(operations, operation_order(), new);
    lemma_import_counts(s, ordered(operations, operation_order()), fresh);
}

/// Whether an operation updates the value of a secret in an environment.
pub open spec fn updates(
    operation: SyncOperationView,
    key: Seq<char>,
    environment: Seq<char>,
    value: Option<Seq<char>>,
) -> bool {
    change_read(operation.kind, operation.payload) == Ok::<Option<ChangeView>, StoreErrorView>(
        Some(update_of(key, environment, value)),
    )
}

/// An update of a value stays due while others are imported that are no later.
proof fn lemma_update_stays_due(
    s: StoreView,
    operations: Seq<SyncOperationView>,
    values: Seq<Option<Seq<char>>>,
    fresh: Seq<FreshView>,
    key: Seq<char>,
    environment: Seq<char>,
    time: Timestamp,
)
    requires
        s.well_formed(),
        s.update_due(key, environment, time),
        s.all_imported(operations, fresh).1 is Ok,
        values.len() == operations.len(),
        forall|i: int|
            0 <= i < operations.len() ==> updates(
                #[trigger] operations[i],
                key,
                environment,
                values[i],
            ) && !time.earlier(operations[i].created_at),
    ensures
        s.all_imported(operations, fresh).0.well_formed(),
        s.all_imported(operations, fresh).0.update_due(key, environment, time),
    decreases operations.len(),
{
    if operations.len() > 0 {
        let n = operations.len() - 1;
        let rest = operations.drop_last();
        let last = operations.last();
        assert forall|i: int| 0 <= i < rest.len() implies updates(
            #[trigger] rest[i],
            key,
            environment,
            values.drop_last()[i],
        ) && !time.earlier(rest[i].created_at) by {
            assert(rest[i] == operations[i]);
        }
        lemma_update_stays_due(s, rest, values.drop_last(), fresh, key, environment, time);
        let t = s.all_imported(rest, fresh).0;
        if !t.knows(last.id) {
            assert(updates(operations[n], key, environment, values[n]));
            lemma_update(t, key, environment, values[n], last.created_at, fresh[n]);
            let u = t.operation_replayed(last, fresh[n]).0;
            lemma_recorded(u, last, fresh[n].operation_nonce);
            let secret_id = t.record(Table::Secrets, key)->0.id;
            let environment_id = t.record(Table::Environments, environment)->0.id;
            let w = s.all_imported(operations, fresh).0;
            assert(!t.removed_after(secret_id, environment_id, time));
            assert(!u.removed_after(secret_id, environment_id, time));
            assert(w.removed_after(secret_id, environment_id, time) == u.removed_after(
                secret_id,
                environment_id,
                time,
            ));
        }
    }
}

/// Where a list of operations that are new holds updates of one value, the latest of them
/// decides what the value is once the list is imported, in whichever order it gives them. The
/// store must not know of an update that is later still.
pub proof fn law_latest_of_a_list_decides(
    s: StoreView,
    operations: Seq<SyncOperationView>,
    values: Seq<Option<Seq<char>>>,
    fresh: Seq<FreshView>,
    key: Seq<char>,
    environment: Seq<char>,
)
    requires
        s.well_formed(),
        operations.len() > 0,
        distinct_by(operations, |o: SyncOperationView| o.id),
        values.len() == operations.len(),
        forall|i: int|
            0 <= i < operations.len() ==> {
                &&& updates(
                    #[trigger] ordered(operations, operation_order())[i],
                    key,
                    environment,
                    values[i],
                )
                &&& !s.knows(ordered(operations, operation_order())[i].id)
            },
        s.update_due(
            key,
            environment,
            ordered(operations, operation_order()).last().created_at,
        ),
        s.operations_imported(operations, fresh).1 is Ok,
        s.operations_confirmed(operations, fresh),
    ensures
        s.operations_imported(operations, fresh).0.value(key, environment) == Ok::<
            Option<Seq<char>>,
            StoreErrorView,
        >(values.last()),
{
    let sorted = ordered(operations, operation_order());
    let id_of = |o: SyncOperationView| o.id;
    let before = operation_order();
    lemma_operation_order();
    lemma_ordered(operations, before);
    lemma_ordered_distinct(operations, before, id_of);
    let n = sorted.len() - 1;
    let rest = sorted.drop_last();
    let last = sorted.last();
    assert forall|i: int| 0 <= i < rest.len() implies updates(
        #[trigger] rest[i],
        key,
        environment,
        values.drop_last()[i],
    ) && !last.created_at.earlier(rest[i].created_at) by {
        assert(rest[i] == sorted[i]);
        assert(!before(sorted[n], sorted[i]));
    }
    let t = s.all_imported(rest, fresh).0;
    lemma_update_stays_due(
        s,
        rest,
        values.drop_last(),
        fresh,
        key,
        environment,
        last.created_at,
    );
    assert(updates(sorted[n], key, environment, values[n]));
    lemma_import_knows(s, rest, fresh, last.id);
    if exists|i: int| 0 <= i < rest.len() && (#[trigger] rest[i]).id == last.id {
        let i = choose|i: int| 0 <= i < rest.len() && (#[trigger] rest[i]).id == last.id;
        assert(id_of(sorted[i]) != id_of(sorted[n]));
    }
    lemma_update(t, key, environment, values[n], last.created_at, fresh[n]);
}

} // verus!
