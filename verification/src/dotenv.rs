//! Importing the variables of a dotenv file into a project and an environment.

use crate::commands::{failed, refuse, CommandError, CommandErrorView, Reply, ReplyView};
use crate::error::StoreErrorView;
use crate::laws::lemma_set_elsewhere;
use crate::model::lemma_named_pushed;
use crate::order::views;
use crate::registry::{unit_view, SecretRegistry};
use crate::replay::{draw_another, drawn};
use crate::store::{answered, Fresh, FreshView, Store};
use crate::tables::{StoreView, Table};
use crate::text::{decimal, decimal_text};
use crate::wellformed::keeps;
use vstd::prelude::*;

verus! {

/// Whether a text can be the name of a variable: a letter or an underscore, followed by
/// letters, digits, underscores and dots.
pub open spec fn variable_name(text: Seq<char>) -> bool {
    &&& text.len() > 0
    &&& letter(text[0]) || text[0] == '_'
    &&& forall|i: int|
        0 <= i < text.len() ==> letter(#[trigger] text[i]) || '0' <= text[i] <= '9' || text[i]
            == '_' || text[i] == '.'
}

/// The ASCII letters.
pub open spec fn letter(c: char) -> bool {
    'a' <= c <= 'z' || 'A' <= c <= 'Z'
}

/// An entry of a dotenv text with its texts as character sequences; `None` is one that cannot
/// be read.
pub type ItemView = Option<(Seq<char>, Seq<char>)>;

/// Entries with their texts as character sequences.
pub open spec fn item_views(items: Seq<Option<(String, String)>>) -> Seq<ItemView> {
    items.map_values(
        |item: Option<(String, String)>|
            match item {
                Some(entry) => Some((entry.0@, entry.1@)),
                None => None,
            },
    )
}

/// The entries of a dotenv text that holds no dollar sign; `None` is one that cannot be read.
pub uninterp spec fn dotenv_entries(contents: Seq<u8>) -> Seq<Option<(Seq<char>, Seq<char>)>>;

/// Reads the entries of a dotenv text with `dotenvy::from_read_iter`; an entry that cannot be
/// read is `None`. The names that come out are names of variables. A text without a dollar sign
/// (36) alone decides on the entries. Behind a dollar sign `dotenvy` substitutes values of the
/// process environment: what such a text gives is not said.
#[verifier::external_body]
fn read_entries(contents: &[u8]) -> (r: Vec<Option<(String, String)>>)
    ensures
        forall|i: int|
            0 <= i < r@.len() ==> (#[trigger] r@[i] matches Some(entry) ==> variable_name(
                entry.0@,
            )),
        contents@.contains(36u8) || item_views(r@) == dotenv_entries(contents@),
{
    dotenvy::from_read_iter(contents).map(|item| item.ok()).collect()
}

/// The store and the result of importing one entry.
pub type ItemOutcome = (StoreView, Result<(), CommandErrorView>);

/// The refusal to overwrite a value.
pub open spec fn exists_already(key: Seq<char>, environment: Seq<char>) -> CommandErrorView {
    CommandErrorView::Other(
        "Variant \""@ + key + "\" for environment \""@ + environment
            + "\" already exists. Re-run with --yes to overwrite."@,
    )
}

/// The outcome of making sure that a secret is there.
pub open spec fn secret_ensured(s: StoreView, key: Seq<char>, fresh: FreshView) -> ItemOutcome {
    if s.record(Table::Secrets, key) is Some {
        (s, Ok(()))
    } else {
        let (t, r) = s.record_added(Table::Secrets, key, None, fresh);
        match answered(r, t.get(Table::Secrets, key)) {
            Ok(_) => (t, Ok(())),
            Err(error) => (t, Err(CommandErrorView::Store(error))),
        }
    }
}

/// The outcome of importing one entry: the secret is made if it is missing, its value is set,
/// and it is assigned to the project. A value that is there is overwritten only on demand.
pub open spec fn item_imported(
    s: StoreView,
    project: Seq<char>,
    environment: Seq<char>,
    path: Seq<char>,
    yes: bool,
    item: ItemView,
    fresh: (FreshView, FreshView, FreshView),
) -> ItemOutcome {
    match item {
        None => (s, Err(CommandErrorView::Other("failed to parse dotenv entry in "@ + path))),
        Some((key, value)) => match secret_ensured(s, key, fresh.0) {
            (s1, Err(error)) => (s1, Err(error)),
            (s1, Ok(_)) => match s1.value(key, environment) {
                Err(error) => (s1, Err(CommandErrorView::Store(error))),
                Ok(present) => if present is Some && !yes {
                    (s1, Err(exists_already(key, environment)))
                } else {
                    match s1.variant_set(key, environment, value, fresh.1) {
                        (s2, Err(error)) => (s2, Err(CommandErrorView::Store(error))),
                        (s2, Ok(_)) => match s2.secret_assigned(key, project, fresh.2) {
                            (s3, Err(error)) => (s3, Err(CommandErrorView::Store(error))),
                            (s3, Ok(_)) => (s3, Ok(())),
                        },
                    }
                },
            },
        },
    }
}

/// The outcome of importing entries one after another until one fails.
pub open spec fn items_imported(
    s: StoreView,
    project: Seq<char>,
    environment: Seq<char>,
    path: Seq<char>,
    yes: bool,
    items: Seq<ItemView>,
    fresh: Seq<FreshView>,
) -> ItemOutcome
    decreases items.len(),
{
    if items.len() == 0 {
        (s, Ok(()))
    } else {
        match items_imported(s, project, environment, path, yes, items.drop_last(), fresh) {
            (before, Err(error)) => (before, Err(error)),
            (before, Ok(_)) => {
                let n = 3 * (items.len() - 1);
                item_imported(
                    before,
                    project,
                    environment,
                    path,
                    yes,
                    items.last(),
                    (fresh[n], fresh[n + 1], fresh[n + 2]),
                )
            },
        }
    }
}

/// The key of an entry.
pub open spec fn entry_key(item: ItemView) -> Seq<char> {
    match item {
        Some((key, _)) => key,
        None => Seq::empty(),
    }
}

/// The value of an entry.
pub open spec fn entry_value(item: ItemView) -> Seq<char> {
    match item {
        Some((_, value)) => value,
        None => Seq::empty(),
    }
}

/// Whether an entry is the last of its key.
pub open spec fn last_of_key(items: Seq<ItemView>, i: int) -> bool {
    &&& items[i] is Some
    &&& forall|j: int|
        i < j < items.len() ==> !((#[trigger] items[j]) matches Some(later) && later.0
            == entry_key(items[i]))
}

/// Whether every entry, unless a later one has the same key, is the value of its secret in an
/// environment.
pub open spec fn entries_read_back(
    s: StoreView,
    items: Seq<ItemView>,
    environment: Seq<char>,
) -> bool {
    forall|i: int|
        0 <= i < items.len() && #[trigger] last_of_key(items, i) ==> s.value(
            entry_key(items[i]),
            environment,
        ) == Ok::<Option<Seq<char>>, StoreErrorView>(Some(entry_value(items[i])))
}

/// What is printed after an import.
pub open spec fn import_text(count: nat, project: Seq<char>, environment: Seq<char>) -> Seq<char> {
    "Imported "@ + decimal_text(count) + " secret(s) into project \""@ + project
        + "\" / environment \""@ + environment + "\".\n"@
}

/// The outcome of an import: the project and the environment must be there, and the file must
/// be readable (`Some`).
pub open spec fn import_outcome(
    s: StoreView,
    project: Seq<char>,
    environment: Seq<char>,
    path: Seq<char>,
    yes: bool,
    items: Option<Seq<ItemView>>,
    fresh: Seq<FreshView>,
) -> (StoreView, ReplyView) {
    match (s.get(Table::Projects, project), s.get(Table::Environments, environment)) {
        (Err(error), _) => (s, failed(CommandErrorView::Store(error))),
        (_, Err(error)) => (s, failed(CommandErrorView::Store(error))),
        _ => match items {
            None => (s, failed(CommandErrorView::Other("failed to read "@ + path))),
            Some(items) => match items_imported(
                s,
                project,
                environment,
                path,
                yes,
                items,
                fresh,
            ) {
                (t, Err(error)) => (t, failed(error)),
                (t, Ok(_)) => (
                    t,
                    ReplyView {
                        output: import_text(items.len(), project, environment),
                        result: Ok(0),
                    },
                ),
            },
        },
    }
}

proof fn lemma_import_prefix(
    s: StoreView,
    project: Seq<char>,
    environment: Seq<char>,
    path: Seq<char>,
    yes: bool,
    items: Seq<ItemView>,
    fresh: Seq<FreshView>,
    n: int,
)
    requires
        0 <= n <= items.len(),
        items_imported(s, project, environment, path, yes, items.take(n), fresh).1 is Err,
    ensures
        items_imported(s, project, environment, path, yes, items, fresh) == items_imported(
            s,
            project,
            environment,
            path,
            yes,
            items.take(n),
            fresh,
        ),
    decreases items.len(),
{
    if n == items.len() {
        assert(items.take(n) =~= items);
    } else {
        assert(items.drop_last().take(n) =~= items.take(n));
        lemma_import_prefix(
            s,
            project,
            environment,
            path,
            yes,
            items.drop_last(),
            fresh,
            n,
        );
    }
}

/// What decides where entries go and whether they overwrite.
struct Target<'a> {
    project: &'a str,
    environment: &'a str,
    path: &'a str,
    yes: bool,
}

fn ensure_secret(store: &mut Store, key: &str, fresh: &Fresh) -> (r: Result<(), CommandError>)
    ensures
        final(store)@ == secret_ensured(old(store)@, key@, fresh@).0,
        unit_view(r) == secret_ensured(old(store)@, key@, fresh@).1,
        keeps(old(store)@, final(store)@),
        r is Ok ==> forall|other: Seq<char>, environment: Seq<char>|
            other != key@ ==> #[trigger] final(store)@.value(other, environment)
                == old(store)@.value(other, environment),
{
    let ghost before = store@;
    if store.get_secret(key).is_ok() {
        return Ok(());
    }
    match store.add_secret_with(key, None, fresh) {
        Ok(_) => {
            proof {
                let row = store@.secrets.last();
                assert forall|other: Seq<char>, environment: Seq<char>|
                    other != key@ implies #[trigger] store@.value(other, environment)
                    == before.value(other, environment) by {
                    lemma_named_pushed(before.secrets, row, other);
                }
            }
            Ok(())
        },
        Err(error) => Err(CommandError::Store(error)),
    }
}

fn import_entry(
    store: &mut Store,
    target: &Target<'_>,
    key: &str,
    value: &str,
    fresh: (&Fresh, &Fresh, &Fresh),
) -> (r: Result<(), CommandError>)
    ensures
        final(store)@ == item_imported(
            old(store)@,
            target.project@,
            target.environment@,
            target.path@,
            target.yes,
            Some((key@, value@)),
            (fresh.0@, fresh.1@, fresh.2@),
        ).0,
        unit_view(r) == item_imported(
            old(store)@,
            target.project@,
            target.environment@,
            target.path@,
            target.yes,
            Some((key@, value@)),
            (fresh.0@, fresh.1@, fresh.2@),
        ).1,
        keeps(old(store)@, final(store)@),
        old(store)@.well_formed() && r is Ok ==> final(store)@.value(key@, target.environment@)
            == Ok::<Option<Seq<char>>, StoreErrorView>(Some(value@)),
        old(store)@.well_formed() && r is Ok ==> forall|other: Seq<char>|
            other != key@ ==> #[trigger] final(store)@.value(other, target.environment@) == old(
                store,
            )@.value(other, target.environment@),
{
    if let Err(error) = ensure_secret(store, key, fresh.0) {
        return Err(error);
    }
    match store.get_variant(key, target.environment) {
        Err(error) => return Err(CommandError::Store(error)),
        Ok(present) => {
            if present.is_some() && !target.yes {
                let mut text = "Variant \"".to_owned();
                text.append(key);
                text.append("\" for environment \"");
                text.append(target.environment);
                text.append("\" already exists. Re-run with --yes to overwrite.");
                return Err(CommandError::Other(text));
            }
        },
    }
    let ghost ready = store@;
    if let Err(error) = store.set_variant_with(key, target.environment, value, fresh.1) {
        return Err(CommandError::Store(error));
    }
    let ghost set = store@;
    match store.assign_secret_with(key, target.project, fresh.2) {
        Ok(_) => {
            proof {
                assert forall|other: Seq<char>| #[trigger]
                    store@.value(other, target.environment@) == set.value(
                        other,
                        target.environment@,
                    ) by {
                }
                if ready.well_formed() {
                    assert forall|other: Seq<char>|
                        other != key@ implies #[trigger] store@.value(other, target.environment@)
                        == ready.value(other, target.environment@) by {
                        lemma_set_elsewhere(
                            ready,
                            key@,
                            target.environment@,
                            value@,
                            fresh.1@,
                            other,
                            target.environment@,
                        );
                    }
                }
            }
            Ok(())
        },
        Err(error) => Err(CommandError::Store(error)),
    }
}

proof fn lemma_entry_read_back(
    s: StoreView,
    t: StoreView,
    items: Seq<ItemView>,
    n: int,
    environment: Seq<char>,
)
    requires
        0 <= n < items.len(),
        entries_read_back(s, items.take(n), environment),
        items[n] matches Some(entry) && t.value(entry.0, environment) == Ok::<
            Option<Seq<char>>,
            StoreErrorView,
        >(Some(entry.1)) && forall|other: Seq<char>|
            other != entry.0 ==> #[trigger] t.value(other, environment) == s.value(
                other,
                environment,
            ),
    ensures
        entries_read_back(t, items.take(n + 1), environment),
{
    let fewer = items.take(n);
    let more = items.take(n + 1);
    assert forall|i: int| 0 <= i < more.len() && #[trigger] last_of_key(more, i) implies t.value(
        entry_key(more[i]),
        environment,
    ) == Ok::<Option<Seq<char>>, StoreErrorView>(Some(entry_value(more[i]))) by {
        if i < n {
            assert(more[n] == items[n]);
            assert(fewer[i] == more[i]);
            assert forall|j: int| i < j < fewer.len() implies !((
            #[trigger] fewer[j]) matches Some(later) && later.0 == entry_key(fewer[i])) by {
                assert(fewer[j] == more[j]);
            }
            assert(last_of_key(fewer, i));
        }
    }
}

fn import_items(
    store: &mut Store,
    target: &Target<'_>,
    items: &Vec<Option<(String, String)>>,
    fresh: &Vec<Fresh>,
) -> (r: Result<(), CommandError>)
    requires
        fresh@.len() >= 3 * items@.len(),
    ensures
        final(store)@ == items_imported(
            old(store)@,
            target.project@,
            target.environment@,
            target.path@,
            target.yes,
            item_views(items@),
            views(fresh@),
        ).0,
        unit_view(r) == items_imported(
            old(store)@,
            target.project@,
            target.environment@,
            target.path@,
            target.yes,
            item_views(items@),
            views(fresh@),
        ).1,
        keeps(old(store)@, final(store)@),
        old(store)@.well_formed() && r is Ok ==> entries_read_back(
            final(store)@,
            item_views(items@),
            target.environment@,
        ),
{
    let ghost before = store@;
    let ghost all = item_views(items@);
    let mut i: usize = 0;
    assert(all.take(0) =~= Seq::empty());
    while i < items.len()
        invariant
            i <= items@.len(),
            fresh@.len() >= 3 * items@.len(),
            all == item_views(items@),
            before == old(store)@,
            items_imported(
                before,
                target.project@,
                target.environment@,
                target.path@,
                target.yes,
                all.take(i as int),
                views(fresh@),
            ) == (store@, Ok::<(), CommandErrorView>(())),
            keeps(before, store@),
            before.well_formed() ==> entries_read_back(
                store@,
                all.take(i as int),
                target.environment@,
            ),
        decreases items@.len() - i,
    {
        proof {
            assert(all.take(i + 1).drop_last() =~= all.take(i as int));
            assert(all.take(i + 1).last() == all[i as int]);
        }
        let ghost reached = store@;
        assert(3 * i + 2 < fresh.len());
        let n: usize = i * 3;
        let result = match &items[i] {
            None => {
                let mut text = "failed to parse dotenv entry in ".to_owned();
                text.append(target.path);
                Err(CommandError::Other(text))
            },
            Some((key, value)) => import_entry(
                store,
                target,
                key.as_str(),
                value.as_str(),
                (&fresh[n], &fresh[n + 1], &fresh[n + 2]),
            ),
        };
        if let Err(error) = result {
            proof {
                lemma_import_prefix(
                    before,
                    target.project@,
                    target.environment@,
                    target.path@,
                    target.yes,
                    all,
                    views(fresh@),
                    i + 1,
                );
            }
            return Err(error);
        }
        proof {
            if before.well_formed() {
                lemma_entry_read_back(reached, store@, all, i as int, target.environment@);
            }
        }
        i = i + 1;
    }
    assert(all.take(i as int) =~= all);
    Ok(())
}

/// Entries that are optional, with their texts as character sequences.
pub open spec fn optional_items(items: Option<Vec<Option<(String, String)>>>) -> Option<
    Seq<ItemView>,
> {
    match items {
        Some(list) => Some(item_views(list@)),
        None => None,
    }
}

/// Imports entries into a project and an environment, with given identifiers, times and
/// nonces: three sets for each entry. `None` stands for a file that could not be read.
pub fn import_items_with(
    store: &mut Store,
    project: &str,
    environment: &str,
    path: &str,
    yes: bool,
    items: &Option<Vec<Option<(String, String)>>>,
    fresh: &Vec<Fresh>,
) -> (r: Reply)
    requires
        items matches Some(list) ==> fresh@.len() >= 3 * list@.len(),
    ensures
        final(store)@ == import_outcome(
            old(store)@,
            project@,
            environment@,
            path@,
            yes,
            optional_items(*items),
            views(fresh@),
        ).0,
        r@ == import_outcome(
            old(store)@,
            project@,
            environment@,
            path@,
            yes,
            optional_items(*items),
            views(fresh@),
        ).1,
        keeps(old(store)@, final(store)@),
        old(store)@.well_formed() && r@.result is Ok ==> entries_read_back(
            final(store)@,
            optional_items(*items)->0,
            environment@,
        ),
{
    if let Err(error) = store.seek(Table::Projects, project) {
        return refuse(CommandError::Store(error));
    }
    if let Err(error) = store.seek(Table::Environments, environment) {
        return refuse(CommandError::Store(error));
    }
    match items {
        None => {
            let mut text = "failed to read ".to_owned();
            text.append(path);
            refuse(CommandError::Other(text))
        },
        Some(list) => {
            let target = Target { project, environment, path, yes };
            match import_items(store, &target, list, fresh) {
                Err(error) => refuse(error),
                Ok(_) => {
                    let mut out = "Imported ".to_owned();
                    out.append(decimal(list.len()).as_str());
                    out.append(" secret(s) into project \"");
                    out.append(project);
                    out.append("\" / environment \"");
                    out.append(environment);
                    out.append("\".\n");
                    Reply { output: out, result: Ok(0) }
                },
            }
        },
    }
}

/// Imports the text of a dotenv file into a project and an environment. `None` stands for a
/// file that could not be read.
pub fn import_dotenv(
    store: &mut Store,
    project: &str,
    environment: &str,
    path: &str,
    yes: bool,
    contents: Option<&[u8]>,
) -> (r: Reply)
    ensures
        exists|items: Option<Seq<ItemView>>, fresh: Seq<FreshView>| #[trigger]
            read_from(items, bytes_view(contents), fresh) && final(store)@ == import_outcome(
                old(store)@,
                project@,
                environment@,
                path@,
                yes,
                items,
                fresh,
            ).0 && r@ == import_outcome(
                old(store)@,
                project@,
                environment@,
                path@,
                yes,
                items,
                fresh,
            ).1 && (old(store)@.well_formed() && r@.result is Ok ==> entries_read_back(
                final(store)@,
                items->0,
                environment@,
            )),
        keeps(old(store)@, final(store)@),
{
    let items: Option<Vec<Option<(String, String)>>> = match contents {
        Some(bytes) => Some(read_entries(bytes)),
        None => None,
    };
    let mut fresh: Vec<Fresh> = Vec::new();
    if let Some(list) = &items {
        let mut i: usize = 0;
        while i < list.len()
            invariant
                i <= list@.len(),
                drawn(views(fresh@), 3 * i as nat),
            decreases list@.len() - i,
        {
            draw_another(&mut fresh);
            draw_another(&mut fresh);
            draw_another(&mut fresh);
            i = i + 1;
        }
    }
    proof {
        let given = optional_items(items);
        if items is Some {
            let list = items->0@;
            assert forall|i: int| 0 <= i < given->0.len() implies (#[trigger] given->0[i] matches Some(
                entry,
            ) ==> variable_name(entry.0)) by {
                assert(list[i] matches Some(entry) ==> variable_name(entry.0@));
            }
        }
        assert(read_from(given, bytes_view(contents), views(fresh@)));
    }
    import_items_with(store, project, environment, path, yes, &items, &fresh)
}

/// The bytes of a file that could be read.
pub open spec fn bytes_view(contents: Option<&[u8]>) -> Option<Seq<u8>> {
    match contents {
        Some(bytes) => Some(bytes@),
        None => None,
    }
}

/// Whether entries can have come from a dotenv text, with three sets of drawn values for each
/// of them; a file that could not be read gives none.
pub open spec fn read_from(
    items: Option<Seq<ItemView>>,
    contents: Option<Seq<u8>>,
    fresh: Seq<FreshView>,
) -> bool {
    match (items, contents) {
        (Some(list), Some(bytes)) => {
            &&& drawn(fresh, 3 * list.len())
            &&& bytes.contains(36u8) || list == dotenv_entries(bytes)
            &&& forall|i: int|
                0 <= i < list.len() ==> (#[trigger] list[i] matches Some(entry) ==> variable_name(
                    entry.0,
                ))
        },
        (None, None) => true,
        _ => false,
    }
}

} // verus!
