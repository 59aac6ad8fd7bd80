//! What moving operations between devices does: every operation of a bundle is logged, in the
//! order in which the operations were made, and none of them is changed on the way.

use crate::error::StoreErrorView;
use crate::exchange::bundle_imported;
use crate::ids::{id_of_text, id_text};
use crate::laws::lemma_replay_keeps_log;
use crate::order::{lemma_collected, lemma_ordered, lemma_ordered_contains, ordered};
use crate::store::FreshView;
use crate::sync::{bundle_operations, operation_of, wire_of, SyncErrorView, WireOperationView};
use crate::tables::{
    lemma_operation_order, operation_order, OperationRowView, StoreView, SyncOperationView,
};
use crate::text::decimal_text;
use crate::time::time_of_text;
use vstd::prelude::*;

verus! {

/// Whether a row of the log is that of an operation.
pub open spec fn is_row_of(row: OperationRowView, operation: SyncOperationView) -> bool {
    row.id == operation.id && row.kind == operation.kind && row.created_at == operation.created_at
}

/// Whether a row of the log came with one of some operations.
pub open spec fn came_with(row: OperationRowView, operations: Seq<SyncOperationView>) -> bool {
    exists|i: int| 0 <= i < operations.len() && is_row_of(row, #[trigger] operations[i])
}

/// Whether a log has kept its rows and gained only rows of some operations, each of which it
/// has, no later one ahead of an earlier one.
pub open spec fn log_gains(
    s: StoreView,
    t: StoreView,
    operations: Seq<SyncOperationView>,
) -> bool {
    let n = s.operations.len() as int;
    &&& n <= t.operations.len() <= n + operations.len()
    &&& t.operations.take(n) == s.operations
    &&& forall|i: int|
        n <= i < t.operations.len() ==> came_with(#[trigger] t.operations[i], operations)
    &&& forall|i: int| 0 <= i < operations.len() ==> t.knows((#[trigger] operations[i]).id)
    &&& forall|i: int, j: int|
        n <= i < j < t.operations.len() ==> !(#[trigger] t.operations[j]).created_at.earlier(
            (#[trigger] t.operations[i]).created_at,
        )
}

/// Importing a list ahead of one more operation, and that operation next, is importing the list
/// with the operation at its end; an import that has failed does not go on.
pub proof fn law_import_goes_on(
    s: StoreView,
    operations: Seq<SyncOperationView>,
    next: SyncOperationView,
    fresh: Seq<FreshView>,
)
    ensures
        ({
            let (t, r) = s.all_imported(operations, fresh);
            let (u, x) = s.all_imported(operations.push(next), fresh);
            &&& r matches Ok(count) ==> {
                let (v, new) = t.operation_imported(next, fresh[operations.len() as int]);
                u == v && (new is Ok <==> x is Ok) && (new == Ok::<bool, StoreErrorView>(true)
                    ==> x == Ok::<nat, StoreErrorView>(count + 1)) && (new == Ok::<
                    bool,
                    StoreErrorView,
                >(false) ==> x == Ok::<nat, StoreErrorView>(count))
            }
            &&& r is Err ==> u == t && x == r
        }),
        s.all_imported(Seq::empty(), fresh) == (s, Ok::<nat, StoreErrorView>(0)),
{
    assert(operations.push(next).drop_last() =~= operations);
}

proof fn lemma_log_gains(s: StoreView, operations: Seq<SyncOperationView>, fresh: Seq<FreshView>)
    requires
        s.all_imported(operations, fresh).1 is Ok,
        forall|i: int, j: int|
            0 <= i < j < operations.len() ==> !(#[trigger] operations[j]).created_at.earlier(
                (#[trigger] operations[i]).created_at,
            ),
    ensures
        log_gains(s, s.all_imported(operations, fresh).0, operations),
        s.all_imported(operations, fresh).1 == Ok::<nat, StoreErrorView>(
            (s.all_imported(operations, fresh).0.operations.len() - s.operations.len()) as nat,
        ),
    decreases operations.len(),
{
    let n = s.operations.len() as int;
    if operations.len() == 0 {
        assert(s.operations.take(n) =~= s.operations);
    } else {
        let rest = operations.drop_last();
        let last = operations.last();
        let before = s.all_imported(rest, fresh).0;
        let t = s.all_imported(operations, fresh).0;
        let f = fresh[operations.len() - 1];
        assert forall|i: int, j: int| 0 <= i < j < rest.len() implies !(
        #[trigger] rest[j]).created_at.earlier((#[trigger] rest[i]).created_at) by {
            assert(rest[i] == operations[i] && rest[j] == operations[j]);
        }
        lemma_log_gains(s, rest, fresh);
        lemma_replay_keeps_log(before, last, f);
        let m = before.operations.len() as int;
        assert forall|i: int| n <= i < m implies came_with(
            #[trigger] before.operations[i],
            operations,
        ) by {
            assert(came_with(before.operations[i], rest));
            let k = choose|k: int|
                0 <= k < rest.len() && is_row_of(before.operations[i], #[trigger] rest[k]);
            assert(is_row_of(before.operations[i], operations[k]));
        }
        if before.knows(last.id) {
            assert(t == before);
        } else {
            assert(t.operations.len() == m + 1);
            assert(t.operations.drop_last() =~= before.operations);
            assert forall|i: int| 0 <= i < m implies t.operations[i] == before.operations[i] by {
                assert(t.operations.drop_last()[i] == before.operations[i]);
            }
            assert(is_row_of(t.operations[m], operations[operations.len() - 1]));
            assert(came_with(t.operations[m], operations));
            assert(t.operations.take(n) =~= s.operations) by {
                assert(before.operations.take(n) == s.operations);
                assert forall|i: int| 0 <= i < n implies t.operations[i] == s.operations[i] by {
                    assert(before.operations.take(n)[i] == s.operations[i]);
                }
            }
            assert forall|i: int, j: int| n <= i < j < t.operations.len() implies !(
            #[trigger] t.operations[j]).created_at.earlier(
                (#[trigger] t.operations[i]).created_at,
            ) by {
                if j == m {
                    assert(came_with(before.operations[i], rest));
                    let k = choose|k: int|
                        0 <= k < rest.len() && is_row_of(before.operations[i], #[trigger] rest[k]);
                    assert(rest[k] == operations[k]);
                    assert(!operations[operations.len() - 1].created_at.earlier(
                        operations[k].created_at,
                    ));
                } else {
                    assert(t.operations[i] == before.operations[i]);
                    assert(t.operations[j] == before.operations[j]);
                }
            }
        }
        assert forall|i: int| 0 <= i < operations.len() implies t.knows(
            (#[trigger] operations[i]).id,
        ) by {
            if i < rest.len() {
                assert(rest[i] == operations[i]);
                let k = choose|k: int|
                    0 <= k < m && (#[trigger] before.operations[k]).id == operations[i].id;
                assert(t.operations[k].id == operations[i].id);
            } else if before.knows(last.id) {
            } else {
                assert(t.operations[m].id == operations[i].id);
            }
        }
    }
}

/// An import that succeeds leaves every operation of the list in the log and nothing else there
/// that was not there before. What it adds stands in the order of the times at which it was
/// made, however the list was ordered, and the number that is given is that of the rows that
/// were added.
pub proof fn law_import_logs_the_list(
    s: StoreView,
    operations: Seq<SyncOperationView>,
    fresh: Seq<FreshView>,
)
    requires
        s.operations_imported(operations, fresh).1 is Ok,
    ensures
        log_gains(s, s.operations_imported(operations, fresh).0, operations),
        s.operations_imported(operations, fresh).1->Ok_0 == s.operations_imported(
            operations,
            fresh,
        ).0.operations.len() - s.operations.len(),
{
    let sorted = ordered(operations, operation_order());
    lemma_operation_order();
    lemma_ordered(operations, operation_order());
    assert forall|i: int, j: int| 0 <= i < j < sorted.len() implies !(
    #[trigger] sorted[j]).created_at.earlier((#[trigger] sorted[i]).created_at) by {
        assert(!operation_order()(sorted[j], sorted[i]));
    }
    lemma_log_gains(s, sorted, fresh);
    let t = s.all_imported(sorted, fresh).0;
    assert forall|i: int| s.operations.len() <= i < t.operations.len() implies came_with(
        #[trigger] t.operations[i],
        operations,
    ) by {
        assert(came_with(t.operations[i], sorted));
        let k = choose|k: int|
            0 <= k < sorted.len() && is_row_of(t.operations[i], #[trigger] sorted[k]);
        lemma_ordered_contains(operations, operation_order(), sorted[k]);
        assert(sorted.contains(sorted[k]));
        let o = choose|o: int| 0 <= o < operations.len() && operations[o] == sorted[k];
        assert(is_row_of(t.operations[i], operations[o]));
    }
    assert forall|i: int| 0 <= i < operations.len() implies t.knows(
        (#[trigger] operations[i]).id,
    ) by {
        lemma_ordered_contains(operations, operation_order(), operations[i]);
        assert(operations.contains(operations[i]));
        let k = choose|k: int| 0 <= k < sorted.len() && sorted[k] == operations[i];
        assert(t.knows(sorted[k].id));
    }
}

/// Operations go from device to device as they are: the texts of one hold its identifier, its
/// kind, its payload and its time, and what is read from texts is what they hold. Texts whose
/// time or identifier cannot be read give the error that quotes them.
pub proof fn law_operations_travel_as_they_are(
    operation: SyncOperationView,
    wire: WireOperationView,
)
    ensures
        wire_of(operation).id == id_text(operation.id),
        wire_of(operation).kind == operation.kind,
        wire_of(operation).payload == operation.payload,
        wire_of(operation).created_at == operation.created_at.rfc3339(),
        operation_of(wire) matches Ok(read) ==> {
            &&& id_of_text(wire.id) == Some(read.id)
            &&& time_of_text(wire.created_at) == Some(read.created_at)
            &&& read.kind == wire.kind
            &&& read.payload == wire.payload
        },
        time_of_text(wire.created_at) is Some && id_of_text(wire.id) is Some ==> operation_of(
            wire,
        ) is Ok,
        time_of_text(wire.created_at) is None ==> operation_of(wire) == Err::<
            SyncOperationView,
            SyncErrorView,
        >(SyncErrorView::InvalidTimestamp(wire.created_at)),
        time_of_text(wire.created_at) is Some && id_of_text(wire.id) is None ==> operation_of(wire)
            == Err::<SyncOperationView, SyncErrorView>(SyncErrorView::InvalidId(wire.id)),
{
}

/// Whether the texts of an operation can be read.
pub open spec fn readable(wire: WireOperationView) -> bool {
    id_of_text(wire.id) is Some && time_of_text(wire.created_at) is Some
}

/// Importing a bundle: one operation that cannot be read keeps the whole bundle out, and nothing
/// changes. A success logs every operation of the bundle with its kind and its time, keeps the
/// log that was there, and says how many operations were new and whose they are.
pub proof fn law_bundle_import(
    s: StoreView,
    device_id: Seq<char>,
    wires: Seq<WireOperationView>,
    fresh: Seq<FreshView>,
)
    ensures
        ({
            let (t, reply) = bundle_imported(s, device_id, wires, fresh);
            let added = t.operations.len() - s.operations.len();
            &&& (exists|i: int| 0 <= i < wires.len() && !readable(#[trigger] wires[i])) ==> t == s
                && reply.result is Err && reply.output.len() == 0
            &&& reply.result is Ok ==> {
                &&& s.operations.len() <= t.operations.len()
                &&& t.operations.take(s.operations.len() as int) == s.operations
                &&& forall|i: int|
                    0 <= i < wires.len() ==> readable(#[trigger] wires[i]) && t.knows(
                        id_of_text(wires[i].id)->0,
                    )
                &&& forall|i: int|
                    s.operations.len() <= i < t.operations.len() ==> (exists|k: int|
                        0 <= k < wires.len() && id_of_text((#[trigger] wires[k]).id) == Some(
                            t.operations[i].id,
                        ) && wires[k].kind == (#[trigger] t.operations[i]).kind && time_of_text(
                            wires[k].created_at,
                        ) == Some(t.operations[i].created_at))
                &&& reply.output == "Imported "@ + decimal_text(added as nat)
                    + " operation(s) from device "@ + device_id + ".\n"@
                &&& reply.result->Ok_0 == 0
            }
        }),
{
    let step = |wire: WireOperationView| operation_of(wire);
    lemma_collected(wires, step);
    if exists|i: int| 0 <= i < wires.len() && !readable(#[trigger] wires[i]) {
        let i = choose|i: int| 0 <= i < wires.len() && !readable(#[trigger] wires[i]);
        assert(step(wires[i]) is Err);
    }
    let (t, reply) = bundle_imported(s, device_id, wires, fresh);
    if reply.result is Ok {
        let read = bundle_operations(wires)->Ok_0;
        law_import_logs_the_list(s, read, fresh);
        assert forall|i: int| 0 <= i < wires.len() implies readable(#[trigger] wires[i])
            && t.knows(id_of_text(wires[i].id)->0) by {
            assert(step(wires[i]) == Ok::<SyncOperationView, SyncErrorView>(read[i]));
            assert(t.knows(read[i].id));
        }
        assert forall|i: int| s.operations.len() <= i < t.operations.len() implies (exists|k: int|
            0 <= k < wires.len() && id_of_text((#[trigger] wires[k]).id) == Some(
                t.operations[i].id,
            ) && wires[k].kind == (#[trigger] t.operations[i]).kind && time_of_text(
                wires[k].created_at,
            ) == Some(t.operations[i].created_at)) by {
            assert(came_with(t.operations[i], read));
            let k = choose|k: int|
                0 <= k < read.len() && is_row_of(t.operations[i], #[trigger] read[k]);
            assert(step(wires[k]) == Ok::<SyncOperationView, SyncErrorView>(read[k]));
        }
    }
}

} // verus!
