//! What the interface has of the store once it has read it: every secret a row, with the values
//! and the assignments that the store has.

use crate::change::Change;
use crate::domain::{SecretVariantView, SecretView};
use crate::error::StoreErrorView;
use crate::ids::Id;
use crate::judging::law_lists_hold_every_row_once;
use crate::laws::lemma_logged;
use crate::listing::law_assignments_are_listed_once;
use crate::order::{lemma_collected, lemma_filter_last, lemma_ordered};
use crate::reading::{
    has_own_row, law_value_is_that_of_its_row, law_values_of_a_secret_are_its_rows, lists_row,
    read_from_row,
};
use crate::requested::law_adding;
use crate::store::FreshView;
use crate::tables::{name_order, RecordView, StoreView, Table, VariantRowView};
use crate::text::{text_before, trimmed};
use crate::tui::editing::{environment_names, place_of, project_names};
use crate::tui::groups::{groups, is_shared, shared_values};
use crate::tui::select::{by_environment, covered, row_loaded, rows_loaded};
use crate::tui::state::{
    fine, value_in, AppView, EditorView, Level, Mode, SecretRowView, StatusView,
};
use crate::tui::update::{KeyCode, KeyEvent};
use crate::wellformed::lemma_inserted;
use vstd::prelude::*;

verus! {

proof fn lemma_by_environment(list: Seq<SecretVariantView>)
    requires
        forall|i: int, j: int|
            0 <= i < j < list.len() ==> (#[trigger] list[i]).environment_id < (
            #[trigger] list[j]).environment_id,
    ensures
        by_environment(list) == list.map_values(
            |v: SecretVariantView| (v.environment_id, v.value),
        ),
    decreases list.len(),
{
    let all = list.map_values(|v: SecretVariantView| (v.environment_id, v.value));
    if list.len() > 0 {
        let rest = list.drop_last();
        assert forall|i: int, j: int| 0 <= i < j < rest.len() implies (
        #[trigger] rest[i]).environment_id < (#[trigger] rest[j]).environment_id by {
            assert(list[i].environment_id < list[j].environment_id);
        }
        lemma_by_environment(rest);
        if rest.len() > 0 {
            assert(list[rest.len() - 1].environment_id < list[list.len() - 1].environment_id);
        }
    }
    assert(by_environment(list) =~= all);
}

proof fn lemma_value_in(list: Seq<(Id, Seq<char>)>, id: Id)
    ensures
        value_in(list, id) is None <==> forall|i: int|
            0 <= i < list.len() ==> (#[trigger] list[i]).0 != id,
        value_in(list, id) matches Some(value) ==> exists|i: int|
            0 <= i < list.len() && (#[trigger] list[i]) == (id, value),
    decreases list.len(),
{
    if list.len() > 0 {
        let rest = list.drop_last();
        lemma_value_in(rest, id);
        if list.last().0 == id {
            assert(list[list.len() - 1] == (id, list.last().1));
        } else {
            if let Some(value) = value_in(rest, id) {
                let i = choose|i: int|
                    0 <= i < rest.len() && (#[trigger] rest[i]) == (id, value);
                assert(list[i] == (id, value));
            }
            if forall|i: int| 0 <= i < rest.len() ==> (#[trigger] rest[i]).0 != id {
                assert forall|i: int| 0 <= i < list.len() implies (#[trigger] list[i]).0 != id by {
                    if i < rest.len() {
                        assert(rest[i].0 != id);
                    }
                }
            }
            if forall|i: int| 0 <= i < list.len() ==> (#[trigger] list[i]).0 != id {
                assert forall|i: int| 0 <= i < rest.len() implies (#[trigger] rest[i]).0 != id by {
                    assert(list[i].0 != id);
                }
            }
        }
    }
}

proof fn lemma_row_shows(s: StoreView, row: RecordView, environment: Seq<char>)
    requires
        s.well_formed(),
        s.record(Table::Secrets, row.name) == Some(row),
        s.record(Table::Environments, environment) is Some,
        row_loaded(s, s.secret(row)) is Ok,
    ensures
        value_in(
            row_loaded(s, s.secret(row))->Ok_0.variants,
            s.record(Table::Environments, environment)->0.id,
        ) == s.shown(row.name, environment),
{
    let key = row.name;
    let place = s.record(Table::Environments, environment)->0.id;
    let list = s.values_for(key)->Ok_0;
    let variants = by_environment(list);
    law_values_of_a_secret_are_its_rows(s, key);
    lemma_by_environment(list);
    lemma_value_in(variants, place);
    if let Some(value) = value_in(variants, place) {
        let i = choose|i: int|
            0 <= i < variants.len() && (#[trigger] variants[i]) == (place, value);
        assert(list[i].environment_id == place && list[i].value == value);
        assert(has_own_row(s, list[i], row.id));
        let own = choose|own: VariantRowView|
            s.variants.contains(own) && own.secret_id == row.id && #[trigger] read_from_row(
                s,
                list[i],
                own,
            );
        law_value_is_that_of_its_row(s, key, environment, own);
    } else {
        assert forall|i: int| 0 <= i < s.variants.len() implies !((
        #[trigger] s.variants[i]).secret_id == row.id && s.variants[i].environment_id == place) by {
            let own = s.variants[i];
            if own.secret_id == row.id && own.environment_id == place {
                assert(s.variants.contains(own));
                assert(lists_row(s, list, own));
                let k = choose|k: int|
                    0 <= k < list.len() && read_from_row(s, #[trigger] list[k], own);
                assert(variants[k].0 == place);
            }
        }
        law_value_is_that_of_its_row(s, key, environment, s.variants[0]);
    }
}

/// Whether a row tells of a secret what the store has of it.
pub open spec fn row_tells(s: StoreView, row: SecretRowView) -> bool {
    let key = row.secret.key;
    &&& s.record(Table::Secrets, key) is Some
    &&& row.secret.description == s.record(Table::Secrets, key)->0.description
    &&& forall|environment: Seq<char>|
        s.record(Table::Environments, environment) is Some ==> value_in(
            row.variants,
            s.record(Table::Environments, environment)->0.id,
        ) == #[trigger] s.shown(key, environment)
    &&& forall|project: Seq<char>|
        s.record(Table::Projects, project) is Some ==> row.secret.assigned_project_ids.contains(
            s.record(Table::Projects, project)->0.id,
        ) == #[trigger] s.has_assignment(key, project)
}

/// Reading the store again gives the projects and the environments by their names, and one row
/// for each secret, by its key, with the value of every environment that has one and with the
/// projects that it is assigned to.
pub proof fn law_rows_tell_what_the_store_has(app: AppView)
    requires
        app.store.well_formed(),
        app.reloaded().1 is Ok,
    ensures
        ({
            let s = app.store;
            let after = app.reloaded().0;
            &&& after.store == s
            &&& after.rows.len() == s.secrets.len()
            &&& after.projects.len() == s.projects.len()
            &&& after.environments.len() == s.environments.len()
            &&& forall|i: int| 0 <= i < after.rows.len() ==> row_tells(s, #[trigger] after.rows[i])
            &&& forall|i: int, j: int|
                0 <= i < j < after.rows.len() ==> text_before(
                    (#[trigger] after.rows[i]).secret.key,
                    (#[trigger] after.rows[j]).secret.key,
                )
            &&& forall|i: int|
                0 <= i < after.projects.len() ==> (s.record(
                    Table::Projects,
                    (#[trigger] after.projects[i]).name,
                ) matches Some(row) && row.id == after.projects[i].id)
            &&& forall|i: int|
                0 <= i < after.environments.len() ==> (s.record(
                    Table::Environments,
                    (#[trigger] after.environments[i]).name,
                ) matches Some(row) && row.id == after.environments[i].id)
        }),
{
    let s = app.store;
    let after = app.reloaded().0;
    law_lists_hold_every_row_once(s, Table::Projects);
    law_lists_hold_every_row_once(s, Table::Environments);
    law_lists_hold_every_row_once(s, Table::Secrets);
    lemma_ordered(s.projects, name_order());
    lemma_ordered(s.environments, name_order());
    lemma_ordered(s.secrets, name_order());
    let list = s.listed(Table::Secrets);
    let secrets = list.map_values(|row: RecordView| s.secret(row));
    let step = |secret: SecretView| row_loaded(s, secret);
    lemma_collected(secrets, step);
    let rows = rows_loaded(s)->Ok_0;
    assert forall|i: int| 0 <= i < rows.len() implies row_tells(s, #[trigger] rows[i])
        && rows[i].secret.key == list[i].name by {
        assert(step(secrets[i]) == Ok::<SecretRowView, StoreErrorView>(rows[i]));
        let row = list[i];
        assert(s.record(Table::Secrets, row.name) == Some(row));
        assert forall|environment: Seq<char>|
            s.record(Table::Environments, environment) is Some implies value_in(
            rows[i].variants,
            s.record(Table::Environments, environment)->0.id,
        ) == #[trigger] s.shown(row.name, environment) by {
            lemma_row_shows(s, row, environment);
        }
        assert forall|project: Seq<char>|
            s.record(
                Table::Projects,
                project,
            ) is Some implies rows[i].secret.assigned_project_ids.contains(
            s.record(Table::Projects, project)->0.id,
        ) == #[trigger] s.has_assignment(row.name, project) by {
            law_assignments_are_listed_once(s, s.record(Table::Projects, project)->0.id, row.id);
        }
    }
    assert forall|i: int, j: int| 0 <= i < j < rows.len() implies text_before(
        (#[trigger] rows[i]).secret.key,
        (#[trigger] rows[j]).secret.key,
    ) by {
        assert(rows[i].secret.key == list[i].name && rows[j].secret.key == list[j].name);
    }
    let projects = s.listed(Table::Projects);
    let environments = s.listed(Table::Environments);
    assert forall|i: int| 0 <= i < after.projects.len() implies (s.record(
        Table::Projects,
        (#[trigger] after.projects[i]).name,
    ) matches Some(row) && row.id == after.projects[i].id) by {
        assert(s.record(Table::Projects, projects[i].name) == Some(projects[i]));
    }
    assert forall|i: int| 0 <= i < after.environments.len() implies (s.record(
        Table::Environments,
        (#[trigger] after.environments[i]).name,
    ) matches Some(row) && row.id == after.environments[i].id) by {
        assert(s.record(Table::Environments, environments[i].name) == Some(environments[i]));
    }
}

proof fn lemma_place_of(names: Seq<Seq<char>>, name: Seq<char>)
    ensures
        place_of(names, name) matches Some(i) ==> i < names.len() && names[i as int] == name,
        place_of(names, name) is None ==> !names.contains(name),
    decreases names.len(),
{
    if names.len() > 0 && names[0] != name {
        let rest = names.drop_first();
        lemma_place_of(rest, name);
        if place_of(names, name) is None && names.contains(name) {
            let i = choose|i: int| 0 <= i < names.len() && names[i] == name;
            assert(rest[i - 1] == name);
        }
    }
}

/// What was just added becomes active where it is listed, and nothing else changes what is
/// active.
pub proof fn law_what_was_added_becomes_active(app: AppView)
    ensures
        ({
            let after = app.pending_selected();
            &&& app.pending_active_project matches Some(name) ==> (project_names(
                app.projects,
            ).contains(name) ==> after.active_project < app.projects.len()
                && app.projects[after.active_project as int].name == name)
            &&& app.pending_active_env matches Some(name) ==> (environment_names(
                app.environments,
            ).contains(name) ==> after.active_env < app.environments.len()
                && app.environments[after.active_env as int].name == name)
            &&& app.pending_active_project is None ==> after.active_project == app.active_project
            &&& app.pending_active_env is None ==> after.active_env == app.active_env
            &&& after.pending_active_project is None
            &&& after.pending_active_env is None
            &&& after.store == app.store
        }),
{
    if let Some(name) = app.pending_active_project {
        lemma_place_of(project_names(app.projects), name);
    }
    if let Some(name) = app.pending_active_env {
        lemma_place_of(environment_names(app.environments), name);
    }
}

/// The coverage of a project in an environment counts the rows that are assigned to the project,
/// and those of them that have a value there, and names those that have none, in their order.
pub proof fn law_coverage_counts_the_rows(
    rows: Seq<SecretRowView>,
    project_id: Id,
    environment_id: Id,
)
    ensures
        ({
            let needed = |row: SecretRowView| row.secret.assigned_project_ids.contains(project_id);
            let has = |row: SecretRowView|
                row.secret.assigned_project_ids.contains(project_id) && value_in(
                    row.variants,
                    environment_id,
                ) is Some;
            let lacks = |row: SecretRowView|
                row.secret.assigned_project_ids.contains(project_id) && value_in(
                    row.variants,
                    environment_id,
                ) is None;
            let (resolved, total, missing) = covered(rows, project_id, environment_id);
            &&& total == rows.filter(needed).len()
            &&& resolved == rows.filter(has).len()
            &&& missing == rows.filter(lacks).map_values(|row: SecretRowView| row.secret.key)
        }),
    decreases rows.len(),
{
    let needed = |row: SecretRowView| row.secret.assigned_project_ids.contains(project_id);
    let has = |row: SecretRowView|
        row.secret.assigned_project_ids.contains(project_id) && value_in(
            row.variants,
            environment_id,
        ) is Some;
    let lacks = |row: SecretRowView|
        row.secret.assigned_project_ids.contains(project_id) && value_in(
            row.variants,
            environment_id,
        ) is None;
    let key = |row: SecretRowView| row.secret.key;
    if rows.len() == 0 {
        reveal(Seq::filter);
        assert(rows.filter(lacks).map_values(key) =~= Seq::empty());
    } else {
        let rest = rows.drop_last();
        law_coverage_counts_the_rows(rest, project_id, environment_id);
        lemma_filter_last(rows, needed);
        lemma_filter_last(rows, has);
        lemma_filter_last(rows, lacks);
        let missing = covered(rows, project_id, environment_id).2;
        assert(missing =~= rows.filter(lacks).map_values(key));
    }
}

/// Reading the store again keeps what is active and selected where it still is in its list, and
/// takes the last of the list where it is not. The number of operations is that of the log.
pub proof fn law_reading_again_keeps_the_place(app: AppView)
    requires
        app.reloaded().1 is Ok,
    ensures
        ({
            let after = app.reloaded().0;
            let p = after.projects.len();
            let e = after.environments.len();
            let n = after.filtered().len();
            &&& app.active_project < p ==> after.active_project == app.active_project
            &&& 0 < p <= app.active_project ==> after.active_project == p - 1
            &&& app.active_env < e ==> after.active_env == app.active_env
            &&& 0 < e <= app.active_env ==> after.active_env == e - 1
            &&& app.selected_row < n ==> after.selected_row == app.selected_row
            &&& 0 < n <= app.selected_row ==> after.selected_row == n - 1
            &&& app.store.status() matches Ok(status) ==> after.sync_ops == status.operation_count
            &&& after.filter == app.filter && after.assigned_only == app.assigned_only
            &&& after.mode == app.mode && after.status == app.status
        }),
{
    let after = app.reloaded().0;
    let loaded = AppView { selected_row: app.selected_row, ..after };
    lemma_same_shown(loaded, after, after.rows.len());
}

proof fn lemma_same_shown(a: AppView, b: AppView, n: nat)
    requires
        a == (AppView { selected_row: a.selected_row, ..b }),
    ensures
        a.shown_among(n) == b.shown_among(n),
    decreases n,
{
    if n > 0 {
        lemma_same_shown(a, b, (n - 1) as nat);
        assert(a.shows(a.rows[n - 1]) == b.shows(b.rows[n - 1]));
    }
}

/// A store that cannot be read again is told, and the rows stay as they were.
pub proof fn law_failed_reading_is_told(app: AppView)
    requires
        rows_loaded(app.store) is Err,
    ensures
        app.refreshed().rows == app.rows,
        app.refreshed().store == app.store,
        app.refreshed().selected_row == app.selected_row,
        app.refreshed().status == (StatusView {
            text: "reload failed: "@ + rows_loaded(app.store)->Err_0.message(),
            level: Level::Error,
        }),
{
}

/// The groups of equal values have the letters of the alphabet in turn, in the order in which
/// their values come first, and only values that occur twice have one.
pub proof fn law_groups_are_lettered_in_turn(variants: Seq<(Id, Seq<char>)>, i: int)
    requires
        0 <= i < groups(variants).len(),
    ensures
        i < 26 ==> groups(variants)[i].1 as u32 == 'A' as u32 + i,
        exists|j: int, k: int|
            0 <= j < k < variants.len() && (#[trigger] variants[j]).1 == groups(variants)[i].0 && (
            #[trigger] variants[k]).1 == groups(variants)[i].0,
{
    lemma_shared(variants, variants.len());
    let value = groups(variants)[i].0;
    assert(shared_values(variants, variants.len())[i] == value);
    assert(is_shared(variants, value));
    if i < 26 {
        assert((65 + i) % 256 == 65 + i);
        assert(((65 + i) as u8) as char as u32 == 65 + i);
    }
}

proof fn lemma_shared(variants: Seq<(Id, Seq<char>)>, n: nat)
    requires
        n <= variants.len(),
    ensures
        forall|i: int|
            0 <= i < shared_values(variants, n).len() ==> is_shared(
                variants,
                #[trigger] shared_values(variants, n)[i],
            ),
    decreases n,
{
    if n > 0 {
        let rest = shared_values(variants, (n - 1) as nat);
        let all = shared_values(variants, n);
        lemma_shared(variants, (n - 1) as nat);
        assert forall|i: int| 0 <= i < all.len() implies is_shared(variants, #[trigger] all[i]) by {
            if i < rest.len() {
                assert(all[i] == rest[i]);
            }
        }
    }
}

proof fn lemma_added(s: StoreView, table: Table, name: Seq<char>, fresh: FreshView) -> (k: int)
    requires
        s.well_formed(),
        table == Table::Projects || table == Table::Environments,
        s.record_added(table, name, None, fresh).1 is Ok,
    ensures
        ({
            let list = s.record_added(table, name, None, fresh).0.listed(table);
            0 <= k < list.len() && list[k].name == name
        }),
{
    let t = s.record_added(table, name, None, fresh).0;
    let row = RecordView {
        id: fresh.id,
        name,
        description: None,
        created_at: fresh.time,
        updated_at: fresh.time,
    };
    law_adding(s, table, name, None, fresh);
    lemma_inserted(s, table, row);
    let change = match table {
        Table::Projects => Change::ProjectAdd { name, description: None },
        Table::Environments => Change::EnvironmentAdd { name, description: None },
        Table::Secrets => Change::SecretAdd { key: name, description: None },
    };
    lemma_logged(s.inserted(table, row)->Ok_0, change, fresh);
    law_lists_hold_every_row_once(t, table);
    assert(t.listed(table).contains(row));
    choose|k: int| 0 <= k < t.listed(table).len() && t.listed(table)[k] == row
}

/// A project that is added in its field is the active one then, and so is an environment.
pub proof fn law_added_name_becomes_active(
    app: AppView,
    editor: EditorView,
    key: KeyEvent,
    fresh: FreshView,
)
    requires
        app.mode == Mode::Editor,
        app.editor == Some(editor),
        key.code == KeyCode::Enter,
        app.store.well_formed(),
        trimmed(editor.buffer).len() > 0,
    ensures
        ({
            let after = app.keyed(key, fresh);
            let name = trimmed(editor.buffer);
            &&& editor.target is AddProject && app.store.record_added(
                Table::Projects,
                name,
                None,
                fresh,
            ).1 is Ok && rows_loaded(after.store) is Ok ==> after.active_project
                < after.projects.len() && after.projects[after.active_project as int].name == name
            &&& editor.target is AddEnvironment && app.store.record_added(
                Table::Environments,
                name,
                None,
                fresh,
            ).1 is Ok && rows_loaded(after.store) is Ok ==> after.active_env
                < after.environments.len() && after.environments[after.active_env as int].name
                == name
        }),
{
    reveal(AppView::concluded);
    reveal(AppView::carried_out);
    let name = trimmed(editor.buffer);
    let s = app.store;
    let closed = AppView { editor: None, ..app };
    let after = closed.committed(editor, fresh);
    if editor.target is AddProject && s.record_added(Table::Projects, name, None, fresh).1 is Ok {
        reveal(AppView::project_entered);
        law_adding(s, Table::Projects, name, None, fresh);
        let k = lemma_added(s, Table::Projects, name, fresh);
        let t = s.record_added(Table::Projects, name, None, fresh).0;
        let waiting = AppView {
            store: t,
            pending_active_project: Some(name),
            status: fine("Added project "@ + name),
            ..closed
        };
        if rows_loaded(t) is Ok {
            let loaded = waiting.refreshed();
            assert(after == loaded.pending_selected());
            assert(project_names(loaded.projects)[k] == name);
            law_what_was_added_becomes_active(loaded);
        }
    }
    if editor.target is AddEnvironment && s.record_added(
        Table::Environments,
        name,
        None,
        fresh,
    ).1 is Ok {
        reveal(AppView::environment_entered);
        law_adding(s, Table::Environments, name, None, fresh);
        let k = lemma_added(s, Table::Environments, name, fresh);
        let t = s.record_added(Table::Environments, name, None, fresh).0;
        let waiting = AppView {
            store: t,
            pending_active_env: Some(name),
            status: fine("Added environment "@ + name),
            ..closed
        };
        if rows_loaded(t) is Ok {
            let loaded = waiting.refreshed();
            assert(after == loaded.pending_selected());
            assert(environment_names(loaded.environments)[k] == name);
            law_what_was_added_becomes_active(loaded);
        }
    }
}

} // verus!
