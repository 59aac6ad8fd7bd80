//! The commands that move operations between devices in bundles.

use crate::commands::{failed, refuse, CommandError, CommandErrorView, Reply, ReplyView};
use crate::order::views;
use crate::replay::{draw_many, drawn};
use crate::store::{Fresh, FreshView, Store};
use crate::sync::{
    bundle_operations, make_bundle, ordinary_operations, read_operations, wire_of, SyncBundle,
    SyncErrorView, WireOperationView,
};
use crate::tables::{StoreView, SyncOperationView};
use crate::text::{decimal, decimal_text};
use crate::wellformed::keeps;
use vstd::prelude::*;

verus! {

/// Puts the whole log of a store into a bundle, from which it is read back.
pub fn export_bundle(store: &Store, device_id: String) -> (r: Result<SyncBundle, CommandError>)
    ensures
        match store@.log() {
            Ok(operations) => r matches Ok(bundle) && bundle.version == 1 && bundle.device_id@
                == device_id@ && views(bundle.operations@) == operations.map_values(
                |o: SyncOperationView| wire_of(o),
            ) && (ordinary_operations(operations) ==> bundle_operations(views(bundle.operations@))
                == Ok::<Seq<SyncOperationView>, SyncErrorView>(operations)),
            Err(error) => r matches Err(e) && e@ == CommandErrorView::Store(error),
        },
{
    match store.list_sync_operations() {
        Err(error) => Err(CommandError::Store(error)),
        Ok(operations) => Ok(make_bundle(device_id, &operations)),
    }
}

/// What is printed after an export.
pub fn export_text(path: &str) -> (r: String)
    ensures
        r@ == "Exported encrypted sync bundle: "@ + path@ + "\n"@,
{
    let mut out = "Exported encrypted sync bundle: ".to_owned();
    out.append(path);
    out.append("\n");
    out
}

/// The outcome of importing a bundle: all its operations must be readable before any of them
/// is imported.
pub open spec fn bundle_imported(
    s: StoreView,
    device_id: Seq<char>,
    operations: Seq<WireOperationView>,
    fresh: Seq<FreshView>,
) -> (StoreView, ReplyView) {
    match bundle_operations(operations) {
        Err(error) => (s, failed(CommandErrorView::Other(error.message()))),
        Ok(read) => match s.operations_imported(read, fresh) {
            (t, Err(error)) => (t, failed(CommandErrorView::Store(error))),
            (t, Ok(count)) => (
                t,
                ReplyView {
                    output: "Imported "@ + decimal_text(count) + " operation(s) from device "@
                        + device_id + ".\n"@,
                    result: Ok(0),
                },
            ),
        },
    }
}

/// Imports a bundle, with given identifiers and nonces for what it writes: one set for each of
/// its operations.
pub fn import_bundle_with(store: &mut Store, bundle: &SyncBundle, fresh: &Vec<Fresh>) -> (r: Reply)
    requires
        fresh@.len() >= bundle.operations@.len(),
    ensures
        final(store)@ == bundle_imported(
            old(store)@,
            bundle.device_id@,
            views(bundle.operations@),
            views(fresh@),
        ).0,
        r@ == bundle_imported(
            old(store)@,
            bundle.device_id@,
            views(bundle.operations@),
            views(fresh@),
        ).1,
        keeps(old(store)@, final(store)@),
        old(store)@.well_formed() && r@.result is Ok ==> old(store)@.operations_confirmed(
            bundle_operations(views(bundle.operations@))->Ok_0,
            views(fresh@),
        ),
{
    let operations = match read_operations(bundle) {
        Ok(operations) => operations,
        Err(error) => return refuse(CommandError::Other(error.message())),
    };
    proof {
        crate::order::lemma_collected(
            views(bundle.operations@),
            |wire: WireOperationView| crate::sync::operation_of(wire),
        );
    }
    match store.import_operations_with(operations.as_slice(), fresh) {
        Err(error) => refuse(CommandError::Store(error)),
        Ok(count) => {
            let mut out = "Imported ".to_owned();
            out.append(decimal(count).as_str());
            out.append(" operation(s) from device ");
            out.append(bundle.device_id.as_str());
            out.append(".\n");
            Reply { output: out, result: Ok(0) }
        },
    }
}

/// Imports a bundle.
pub fn import_bundle(store: &mut Store, bundle: &SyncBundle) -> (r: Reply)
    ensures
        exists|fresh: Seq<FreshView>| #[trigger]
            drawn(fresh, bundle.operations@.len()) && final(store)@ == bundle_imported(
                old(store)@,
                bundle.device_id@,
                views(bundle.operations@),
                fresh,
            ).0 && r@ == bundle_imported(
                old(store)@,
                bundle.device_id@,
                views(bundle.operations@),
                fresh,
            ).1 && (old(store)@.well_formed() && r@.result is Ok
                ==> old(store)@.operations_confirmed(
                bundle_operations(views(bundle.operations@))->Ok_0,
                fresh,
            )),
        keeps(old(store)@, final(store)@),
{
    let fresh = draw_many(bundle.operations.len());
    import_bundle_with(store, bundle, &fresh)
}

} // verus!
