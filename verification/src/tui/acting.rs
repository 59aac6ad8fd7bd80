//! What the keys do to the store: which secret is assigned, set, cleared, named or deleted, and
//! what the status line says of it.

use crate::error::StoreErrorView;
use crate::requested::{law_adding, law_assigning, law_describing, law_renaming};
use crate::store::FreshView;
use crate::tables::{StoreView, Table};
use crate::text::trimmed;
use crate::tui::select::rows_loaded;
use crate::tui::state::{
    AppView, ConfirmTarget, DetailView, EditTarget, EditorView, Level, Mode, StatusView, YankView,
};
use crate::tui::update::{KeyCode, KeyEvent};
use vstd::prelude::*;

verus! {

/// Whether the interface has the store that a request left, and tells a success by a text and a
/// failure by its message. A store that could not be read again is told instead.
pub open spec fn tells(
    after: AppView,
    outcome: (StoreView, Result<(), StoreErrorView>),
    text: Seq<char>,
) -> bool {
    &&& after.store == outcome.0
    &&& match outcome.1 {
        Ok(_) => rows_loaded(outcome.0) is Ok ==> after.status == (StatusView {
            text,
            level: Level::Success,
        }),
        Err(error) => after.status == (StatusView { text: error.message(), level: Level::Error }),
    }
}

/// Whether a key left the store alone and told that something is wrong.
pub open spec fn only_complains(before: AppView, after: AppView, text: Seq<char>) -> bool {
    &&& after.store == before.store
    &&& after.status == (StatusView { text, level: Level::Error })
}

proof fn lemma_concluded(
    app: AppView,
    store: StoreView,
    result: Result<(), StoreErrorView>,
    text: Seq<char>,
)
    ensures
        tells(app.concluded(store, result, text), (store, result), text),
        app.concluded(store, result, text).editor == app.editor,
        app.concluded(store, result, text).mode == app.mode,
        tells(app.carried_out(store, result, text), (store, result), text),
        app.carried_out(store, result, text).editor == app.editor,
{
    reveal(AppView::concluded);
    reveal(AppView::carried_out);
}

/// The space bar while browsing: the selected secret is assigned to the active project if it was
/// not, and taken from it if it was; no other secret and no other project is touched.
pub proof fn law_space_toggles_the_assignment(app: AppView, key: KeyEvent, fresh: FreshView)
    requires
        app.mode == Mode::Browse,
        key.code == KeyCode::Char(' '),
    ensures
        ({
            let after = app.keyed(key, fresh);
            &&& app.project() is None ==> only_complains(
                app,
                after,
                "No active project. Press p to pick one."@,
            )
            &&& app.project() is Some && app.focused() is None ==> only_complains(
                app,
                after,
                "No secret selected."@,
            )
            &&& app.project() is Some && app.focused() is Some ==> {
                let secret = app.focused()->0.secret;
                let project = app.project()->0;
                if secret.assigned_project_ids.contains(project.id) {
                    tells(
                        after,
                        app.store.secret_unassigned(secret.key, project.name, fresh),
                        "Unassigned "@ + secret.key + " from "@ + project.name,
                    )
                } else {
                    tells(
                        after,
                        app.store.secret_assigned(secret.key, project.name, fresh),
                        "Assigned "@ + secret.key + " to "@ + project.name,
                    )
                }
            }
        }),
{
    if app.project() is Some && app.focused() is Some {
        let secret = app.focused()->0.secret;
        let project = app.project()->0;
        if secret.assigned_project_ids.contains(project.id) {
            let (t, r) = app.store.secret_unassigned(secret.key, project.name, fresh);
            lemma_concluded(app, t, r, "Unassigned "@ + secret.key + " from "@ + project.name);
        } else {
            let (t, r) = app.store.secret_assigned(secret.key, project.name, fresh);
            lemma_concluded(app, t, r, "Assigned "@ + secret.key + " to "@ + project.name);
        }
    }
}

/// Pressing the space bar on a secret whose row tells its assignments: afterwards it is assigned
/// where it was not, and is not where it was.
pub proof fn law_space_turns_the_assignment_round(app: AppView, key: KeyEvent, fresh: FreshView)
    requires
        app.mode == Mode::Browse,
        key.code == KeyCode::Char(' '),
        app.project() is Some,
        app.focused() is Some,
        app.store.well_formed(),
        app.focused()->0.secret.assigned_project_ids.contains(app.project()->0.id)
            == app.store.has_assignment(app.focused()->0.secret.key, app.project()->0.name),
        app.keyed(key, fresh).status.level == Level::Success,
    ensures
        app.keyed(key, fresh).store.has_assignment(
            app.focused()->0.secret.key,
            app.project()->0.name,
        ) == !app.store.has_assignment(app.focused()->0.secret.key, app.project()->0.name),
{
    law_space_toggles_the_assignment(app, key, fresh);
    law_assigning(app.store, app.focused()->0.secret.key, app.project()->0.name, fresh);
}

/// Entering a value closes its field and goes back to where it was opened from. The value is set
/// as it stands, for the secret and the environment that the field is for; an empty one clears.
pub proof fn law_entered_value(
    app: AppView,
    editor: EditorView,
    name: Seq<char>,
    environment: Seq<char>,
    key: KeyEvent,
    fresh: FreshView,
)
    requires
        app.mode == Mode::Editor,
        app.editor == Some(editor),
        editor.target == (EditTarget::SecretValue { key: name, environment }),
        key.code == KeyCode::Enter,
    ensures
        app.keyed(key, fresh).editor is None,
        app.keyed(key, fresh).mode == editor.return_to,
        editor.buffer.len() == 0 ==> tells(
            app.keyed(key, fresh),
            app.store.variant_unset(name, environment, fresh),
            "Cleared "@ + name + " for "@ + environment,
        ),
        editor.buffer.len() > 0 ==> tells(
            app.keyed(key, fresh),
            app.store.variant_set(name, environment, editor.buffer, fresh),
            "Set "@ + name + " for "@ + environment,
        ),
{
    reveal(AppView::value_entered);
    let closed = AppView { editor: None, ..app };
    if editor.buffer.len() == 0 {
        let (t, r) = app.store.variant_unset(name, environment, fresh);
        lemma_concluded(closed, t, r, "Cleared "@ + name + " for "@ + environment);
    } else {
        let (t, r) = app.store.variant_set(name, environment, editor.buffer, fresh);
        lemma_concluded(closed, t, r, "Set "@ + name + " for "@ + environment);
    }
}

/// Entering a description sets it without white space around it; an empty one clears.
pub proof fn law_entered_description(
    app: AppView,
    editor: EditorView,
    name: Seq<char>,
    key: KeyEvent,
    fresh: FreshView,
)
    requires
        app.mode == Mode::Editor,
        app.editor == Some(editor),
        editor.target == (EditTarget::Description { key: name }),
        key.code == KeyCode::Enter,
        app.store.well_formed(),
    ensures
        app.keyed(key, fresh).editor is None,
        app.keyed(key, fresh).mode == editor.return_to,
        trimmed(editor.buffer).len() == 0 ==> tells(
            app.keyed(key, fresh),
            app.store.secret_described(name, None, fresh),
            "Updated description for "@ + name,
        ),
        trimmed(editor.buffer).len() > 0 ==> tells(
            app.keyed(key, fresh),
            app.store.secret_described(name, Some(trimmed(editor.buffer)), fresh),
            "Updated description for "@ + name,
        ),
{
    reveal(AppView::description_entered);
    let closed = AppView { editor: None, ..app };
    let text = trimmed(editor.buffer);
    let description = if text.len() == 0 {
        None
    } else {
        Some(text)
    };
    let (t, r) = app.store.secret_described(name, description, fresh);
    law_describing(app.store, name, description, fresh);
    lemma_concluded(closed, t, r, "Updated description for "@ + name);
}

/// A search goes on while it is typed, and entering it or leaving it asks nothing of the store:
/// what is searched for is the text of the field, and the first row that is found is selected.
pub proof fn law_search_is_live(app: AppView, editor: EditorView, key: KeyEvent, fresh: FreshView)
    requires
        app.mode == Mode::Editor,
        app.editor == Some(editor),
        editor.target is Search,
    ensures
        app.keyed(key, fresh).store == app.store,
        key.code != KeyCode::Esc ==> app.keyed(key, fresh).selected_row == 0,
        key.code == KeyCode::Enter ==> app.keyed(key, fresh).filter == editor.buffer && app.keyed(
            key,
            fresh,
        ).editor is None && app.keyed(key, fresh).mode == editor.return_to,
        key.code != KeyCode::Enter && key.code != KeyCode::Esc ==> (app.keyed(
            key,
            fresh,
        ).editor matches Some(open) && open.target is Search && app.keyed(key, fresh).filter
            == open.buffer),
        key.code == KeyCode::Esc ==> app.keyed(key, fresh).editor is None,
{
}

/// Entering a name: one that is blank is refused, and nothing is asked of the store. Any other
/// is added, or becomes the new name, without the white space around it, in the table that the
/// field is for.
#[verifier::rlimit(60)]
pub proof fn law_entered_names(app: AppView, editor: EditorView, key: KeyEvent, fresh: FreshView)
    requires
        app.mode == Mode::Editor,
        app.editor == Some(editor),
        key.code == KeyCode::Enter,
        app.store.well_formed(),
        !(editor.target is Search || editor.target is SecretValue || editor.target is Description),
    ensures
        ({
            let after = app.keyed(key, fresh);
            let s = app.store;
            let name = trimmed(editor.buffer);
            &&& after.editor is None
            &&& after.mode == editor.return_to
            &&& name.len() == 0 ==> only_complains(app, after, "Value cannot be empty."@)
            &&& name.len() > 0 ==> match editor.target {
                EditTarget::AddSecret => tells(
                    after,
                    s.record_added(Table::Secrets, name, None, fresh),
                    "Added secret "@ + name,
                ),
                EditTarget::AddProject => tells(
                    after,
                    s.record_added(Table::Projects, name, None, fresh),
                    "Added project "@ + name,
                ),
                EditTarget::AddEnvironment => tells(
                    after,
                    s.record_added(Table::Environments, name, None, fresh),
                    "Added environment "@ + name,
                ),
                EditTarget::RenameSecret { from } => tells(
                    after,
                    s.record_renamed(Table::Secrets, from, name, fresh),
                    "Renamed "@ + from + " to "@ + name,
                ),
                EditTarget::RenameProject { from } => tells(
                    after,
                    s.record_renamed(Table::Projects, from, name, fresh),
                    "Renamed project "@ + from + " to "@ + name,
                ),
                EditTarget::RenameEnvironment { from } => tells(
                    after,
                    s.record_renamed(Table::Environments, from, name, fresh),
                    "Renamed environment "@ + from + " to "@ + name,
                ),
                _ => true,
            }
        }),
{
    let s = app.store;
    let name = trimmed(editor.buffer);
    let closed = AppView { editor: None, ..app };
    match editor.target {
        EditTarget::AddSecret => {
            reveal(AppView::secret_entered);
            let (t, r) = s.record_added(Table::Secrets, name, None, fresh);
            law_adding(s, Table::Secrets, name, None, fresh);
            lemma_concluded(closed, t, r, "Added secret "@ + name);
        },
        EditTarget::AddProject => {
            reveal(AppView::project_entered);
            let (t, r) = s.record_added(Table::Projects, name, None, fresh);
            law_adding(s, Table::Projects, name, None, fresh);
            let pending = if r is Ok {
                Some(name)
            } else {
                app.pending_active_project
            };
            let waiting = AppView { pending_active_project: pending, ..closed };
            lemma_concluded(waiting, t, r, "Added project "@ + name);
        },
        EditTarget::AddEnvironment => {
            reveal(AppView::environment_entered);
            let (t, r) = s.record_added(Table::Environments, name, None, fresh);
            law_adding(s, Table::Environments, name, None, fresh);
            let pending = if r is Ok {
                Some(name)
            } else {
                app.pending_active_env
            };
            let waiting = AppView { pending_active_env: pending, ..closed };
            lemma_concluded(waiting, t, r, "Added environment "@ + name);
        },
        EditTarget::RenameSecret { from } => {
            reveal(AppView::secret_key_entered);
            let (t, r) = s.record_renamed(Table::Secrets, from, name, fresh);
            law_renaming(s, Table::Secrets, from, name, fresh);
            lemma_concluded(closed, t, r, "Renamed "@ + from + " to "@ + name);
        },
        EditTarget::RenameProject { from } => {
            reveal(AppView::project_name_entered);
            let (t, r) = s.record_renamed(Table::Projects, from, name, fresh);
            law_renaming(s, Table::Projects, from, name, fresh);
            lemma_concluded(closed, t, r, "Renamed project "@ + from + " to "@ + name);
        },
        EditTarget::RenameEnvironment { from } => {
            reveal(AppView::environment_name_entered);
            let (t, r) = s.record_renamed(Table::Environments, from, name, fresh);
            law_renaming(s, Table::Environments, from, name, fresh);
            lemma_concluded(closed, t, r, "Renamed environment "@ + from + " to "@ + name);
        },
        _ => {},
    }
}

/// In the dialog of a secret's values: `d` and the delete key clear the value in the selected
/// environment, `y` takes it, and `p` sets what was taken. The secret is that of the dialog,
/// which stays open.
pub proof fn law_dialog_keys(app: AppView, detail: DetailView, key: KeyEvent, fresh: FreshView)
    requires
        app.mode == Mode::Detail,
        app.detail == Some(detail),
    ensures
        ({
            let after = app.keyed(key, fresh);
            let there = detail.selected_env < app.environments.len();
            let environment = app.environments[detail.selected_env as int];
            &&& key.code == KeyCode::Char('d') || key.code == KeyCode::Delete ==> {
                &&& after.detail == app.detail
                &&& after.mode == Mode::Detail
                &&& there ==> tells(
                    after,
                    app.store.variant_unset(detail.secret_key, environment.name, fresh),
                    "Cleared "@ + detail.secret_key + " for "@ + environment.name,
                )
                &&& !there ==> after.store == app.store
            }
            &&& key.code == KeyCode::Char('y') ==> {
                let value = app.value_of(detail.secret_key, environment.id);
                &&& after.store == app.store
                &&& after.mode == Mode::Detail
                &&& there && value is Some ==> {
                    &&& after.detail == Some(
                        DetailView {
                            yank: Some(
                                YankView { source_env: environment.name, value: value->0 },
                            ),
                            ..detail
                        },
                    )
                    &&& after.status.level == Level::Success
                }
                &&& !(there && value is Some) ==> after.detail == app.detail
                    && after.status.level == Level::Error
            }
            &&& key.code == KeyCode::Char('p') ==> {
                &&& after.detail == app.detail
                &&& after.mode == Mode::Detail
                &&& there && detail.yank is Some ==> tells(
                    after,
                    app.store.variant_set(
                        detail.secret_key,
                        environment.name,
                        detail.yank->0.value,
                        fresh,
                    ),
                    "Copied "@ + detail.yank->0.source_env + " → "@ + environment.name,
                )
                &&& detail.yank is None ==> only_complains(
                    app,
                    after,
                    "Nothing to paste — press y to copy first."@,
                )
                &&& !there && detail.yank is Some ==> only_complains(
                    app,
                    after,
                    "No environment selected."@,
                )
            }
            &&& !(key.code == KeyCode::Char('p') || key.code == KeyCode::Char('d') || key.code
                == KeyCode::Delete) ==> after.store == app.store
        }),
{
    let closed = AppView { detail: None, ..app };
    if detail.selected_env < app.environments.len() {
        let environment = app.environments[detail.selected_env as int];
        if key.code == KeyCode::Char('d') || key.code == KeyCode::Delete {
            let (t, r) = app.store.variant_unset(detail.secret_key, environment.name, fresh);
            let text = "Cleared "@ + detail.secret_key + " for "@ + environment.name;
            lemma_concluded(closed, t, r, text);
        } else if key.code == KeyCode::Char('p') && detail.yank is Some {
            let yank = detail.yank->0;
            let (t, r) = app.store.variant_set(
                detail.secret_key,
                environment.name,
                yank.value,
                fresh,
            );
            let text = "Copied "@ + yank.source_env + " → "@ + environment.name;
            lemma_concluded(closed, t, r, text);
        }
    }
}

/// In the question before a deletion: `y` deletes what was asked about, an environment with its
/// values, and nothing but `y` does. `n` and the escape key close the question.
pub proof fn law_confirmation_keys(app: AppView, key: KeyEvent, fresh: FreshView)
    requires
        app.mode == Mode::Confirm,
    ensures
        ({
            let after = app.keyed(key, fresh);
            &&& key.code != KeyCode::Char('y') ==> after.store == app.store
            &&& key.code == KeyCode::Char('y') || key.code == KeyCode::Char('n') || key.code
                == KeyCode::Esc ==> after.confirm is None && after.mode == Mode::Browse
            &&& key.code == KeyCode::Char('y') ==> match app.confirm {
                None => after.store == app.store,
                Some(ConfirmTarget::Secret(name)) => tells(
                    after,
                    app.store.record_removed(Table::Secrets, name, fresh),
                    "Deleted secret "@ + name,
                ),
                Some(ConfirmTarget::Project(name)) => tells(
                    after,
                    app.store.record_removed(Table::Projects, name, fresh),
                    "Deleted project "@ + name,
                ),
                Some(ConfirmTarget::Environment(name)) => tells(
                    after,
                    app.store.environment_removed(name, true, fresh),
                    "Deleted environment "@ + name,
                ),
            }
        }),
{
    reveal(AppView::concluded);
}

} // verus!
