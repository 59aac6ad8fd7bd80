//! The keys of the interface in every mode, and what holds whatever key is pressed.

use crate::change::{Change, ChangeView};
use crate::error::StoreErrorView;
use crate::laws::law_value_is_read_back;
use crate::store::{answered, Fresh, FreshView};
use crate::tables::{StoreView, Table};
use crate::text::{lowered, trimmed};
use crate::tui::choosing::lemma_matching_inside;
use crate::tui::editing::{
    description_asked, environment_names, naming_asked, place_of, project_names, success,
};
use crate::tui::select::rows_loaded;
use crate::tui::state::{
    wrong, App, AppView, ConfirmTarget, DetailView, EditTarget, EditorView, Mode,
};
use crate::tui::update::{four, KeyCode, KeyEvent};
use crate::wellformed::keeps;
use vstd::prelude::*;

verus! {

impl AppView {
    /// The change that a key asks the store for.
    pub open spec fn asked(self, key: KeyEvent) -> Option<ChangeView> {
        match self.mode {
            Mode::Browse => self.browsing_asked(key.code),
            Mode::Detail => self.detail_asked(key.code),
            Mode::Editor => self.editing_asked(key),
            Mode::Confirm => self.confirmation_asked(key.code),
            _ => None,
        }
    }

    /// What a key does in the dialog that is open, or while browsing.
    pub open spec fn dispatched(self, key: KeyEvent, fresh: FreshView) -> AppView {
        match self.mode {
            Mode::Browse => self.browsed(key.code, fresh),
            Mode::Detail => self.detailed(key.code, fresh),
            Mode::Editor => self.edited(key, fresh),
            Mode::Switcher => self.switched(key),
            Mode::Confirm => self.confirmed(key.code, fresh),
            Mode::Help => if key.code == KeyCode::Char('?') || key.code == KeyCode::Esc || key.code
                == KeyCode::Char('q') {
                AppView { mode: Mode::Browse, ..self }
            } else {
                self
            },
        }
    }

    /// A key. Values that were revealed stay so only while the selection does.
    pub open spec fn keyed(self, key: KeyEvent, fresh: FreshView) -> AppView {
        let after = self.dispatched(key, fresh);
        if self.reveal_cell {
            after.hidden_unless(self.selection())
        } else {
            after
        }
    }
}

impl App {
    /// Handles a key. Whatever the store says, the interface goes on.
    pub fn handle_key_with(&mut self, key: KeyEvent, fresh: &Fresh)
        ensures
            final(self)@ == old(self)@.keyed(key, fresh@),
            keeps(old(self)@.store, final(self)@.store),
            old(self)@.store.well_formed() ==> old(self)@.store.promised(
                old(self)@.asked(key),
                fresh@,
            ),
    {
        proof {
            reveal(StoreView::promised);
        }
        let revealed = self.reveal_cell;
        let before = self.selection();
        match self.mode {
            Mode::Browse => self.browse_key(key.code, fresh),
            Mode::Detail => self.detail_key(key.code, fresh),
            Mode::Editor => self.editor_key(key, fresh),
            Mode::Switcher => self.switcher_key(key),
            Mode::Confirm => self.confirm_key(key.code, fresh),
            Mode::Help => {
                if key.code == KeyCode::Char('?') || key.code == KeyCode::Esc || key.code
                    == KeyCode::Char('q') {
                    self.mode = Mode::Browse;
                }
            },
        }
        if revealed {
            self.hide_unless(&before);
        }
    }

    /// Handles a key. Whatever the store says, the interface goes on.
    pub fn handle_key(&mut self, key: KeyEvent)
        ensures
            exists|fresh: FreshView| #[trigger]
                fresh.valid() && final(self)@ == old(self)@.keyed(key, fresh) && (old(
                    self,
                )@.store.well_formed() ==> old(self)@.store.promised(
                    old(self)@.asked(key),
                    fresh,
                )),
            keeps(old(self)@.store, final(self)@.store),
    {
        let fresh = Fresh::draw();
        self.handle_key_with(key, &fresh);
    }
}

impl AppView {
    /// Whether the active project and environment are among those that are listed, where any
    /// are.
    pub open spec fn in_context(self) -> bool {
        &&& self.projects.len() == 0 ==> self.active_project == 0
        &&& self.projects.len() > 0 ==> self.active_project < self.projects.len()
        &&& self.environments.len() == 0 ==> self.active_env == 0
        &&& self.environments.len() > 0 ==> self.active_env < self.environments.len()
    }
}

/// What the interface makes of the change that was asked for: the store is as the change
/// leaves it, and a failure is told in the status line, while nothing else but the open dialog
/// changes. Without a change the store stays as it is.
pub open spec fn responds(
    before: AppView,
    asked: Option<ChangeView>,
    fresh: FreshView,
    after: AppView,
) -> bool {
    match asked {
        None => after.store == before.store,
        Some(change) => {
            let (store, result) = before.store.change_made(change, fresh);
            &&& after.store == store
            &&& result matches Err(error) ==> after == (AppView {
                store,
                status: wrong(error.message()),
                mode: after.mode,
                editor: after.editor,
                confirm: after.confirm,
                detail: after.detail,
                ..before
            })
        },
    }
}

/// Values that are revealed before and after a key are those of the same selection: the same
/// row and secret, and the same environment. A key that reveals values is one that was pressed
/// while none were.
pub proof fn law_revealed_values_stay_selected(app: AppView, key: KeyEvent, fresh: FreshView)
    ensures
        app.reveal_cell && app.keyed(key, fresh).reveal_cell ==> {
            &&& app.keyed(key, fresh).selection() == app.selection()
            &&& app.keyed(key, fresh).selected_row == app.selected_row
            &&& app.keyed(key, fresh).active_env == app.active_env
        },
        !app.reveal_cell && app.keyed(key, fresh).reveal_cell ==> app.mode == Mode::Browse
            && key.code == KeyCode::Char('r'),
{
    let after = app.dispatched(key, fresh);
    if app.reveal_cell && app.keyed(key, fresh).reveal_cell {
        assert(app.keyed(key, fresh) == after);
    }
    lemma_dispatched(app, key, fresh);
}

/// Whichever key was pressed, the store is as the change leaves it that the key asks for. If
/// the store refuses the change, the status line tells the error, and nothing else of the
/// interface changes but the dialog that the key closes.
pub proof fn law_failures_are_only_told(app: AppView, key: KeyEvent, fresh: FreshView)
    ensures
        responds(app, app.asked(key), fresh, app.keyed(key, fresh)),
{
    lemma_dispatched(app, key, fresh);
    if let Some(change) = app.asked(key) {
        if app.store.change_made(change, fresh).1 is Err {
            let after = app.dispatched(key, fresh);
            lemma_same_focus(app, after, app.rows.len());
            assert(after.selection() == app.selection());
        }
    }
}

proof fn lemma_same_focus(a: AppView, b: AppView, n: nat)
    requires
        a.rows == b.rows,
        a.filter == b.filter,
        a.assigned_only == b.assigned_only,
        a.projects == b.projects,
        a.active_project == b.active_project,
    ensures
        a.shown_among(n) == b.shown_among(n),
    decreases n,
{
    if n > 0 {
        lemma_same_focus(a, b, (n - 1) as nat);
        assert(a.shows(a.rows[n - 1]) == b.shows(b.rows[n - 1]));
    }
}

/// What every key keeps: the interface goes on, and the active project and environment stay
/// among those that are listed, unless the store could not be read again.
pub open spec fn steady(before: AppView, after: AppView) -> bool {
    &&& after.should_quit == before.should_quit
    &&& before.in_context() ==> after.in_context() || rows_loaded(after.store) is Err
}

/// What becomes of the interface after a request: the store is as the request left it, and a
/// failure is told.
spec fn takes_over(
    before: AppView,
    store: StoreView,
    result: Result<(), StoreErrorView>,
    after: AppView,
) -> bool {
    &&& steady(before, after)
    &&& after.store == store
    &&& after.reveal_cell == before.reveal_cell
    &&& result matches Err(error) ==> after == (AppView {
        store,
        status: wrong(error.message()),
        ..before
    })
}

/// What a key keeps in a dialog or while browsing, with the change that it asks for, if any.
spec fn answers(
    before: AppView,
    asked: Option<ChangeView>,
    fresh: FreshView,
    after: AppView,
) -> bool {
    &&& steady(before, after)
    &&& responds(before, asked, fresh, after)
    &&& !before.reveal_cell ==> !after.reveal_cell
}

proof fn lemma_concluded(
    app: AppView,
    store: StoreView,
    result: Result<(), StoreErrorView>,
    message: Seq<char>,
)
    ensures
        takes_over(app, store, result, app.concluded(store, result, message)),
{
    reveal(AppView::concluded);
}

proof fn lemma_place_of(names: Seq<Seq<char>>, name: Seq<char>)
    ensures
        place_of(names, name) matches Some(i) ==> i < names.len(),
    decreases names.len(),
{
    if names.len() > 0 {
        lemma_place_of(names.drop_first(), name);
    }
}

proof fn lemma_carried_out(
    app: AppView,
    store: StoreView,
    result: Result<(), StoreErrorView>,
    message: Seq<char>,
)
    ensures
        takes_over(app, store, result, app.carried_out(store, result, message)),
{
    reveal(AppView::carried_out);
    lemma_concluded(app, store, result, message);
    let after = app.concluded(store, result, message);
    if let Some(name) = after.pending_active_project {
        lemma_place_of(project_names(after.projects), name);
    }
    if let Some(name) = after.pending_active_env {
        lemma_place_of(environment_names(after.environments), name);
    }
}

proof fn lemma_committed(app: AppView, editor: EditorView, fresh: FreshView)
    ensures
        answers(app, editor.asked(), fresh, app.committed(editor, fresh)),
{
    match editor.target {
        EditTarget::SecretValue { key, environment } => {
            reveal(AppView::value_entered);
            let (t, r) = app.store.variant_unset(key, environment, fresh);
            lemma_carried_out(app, t, r, four("Cleared "@, key, " for "@, environment));
            let (t, r) = app.store.variant_set(key, environment, editor.buffer, fresh);
            lemma_carried_out(app, t, r, four("Set "@, key, " for "@, environment));
        },
        EditTarget::Description { key } => {
            lemma_description_entered(app, key, trimmed(editor.buffer), fresh);
        },
        target => {
            lemma_name_entered(app, target, trimmed(editor.buffer), fresh);
        },
    }
}

proof fn lemma_description_entered(
    app: AppView,
    key: Seq<char>,
    text: Seq<char>,
    fresh: FreshView,
)
    ensures
        answers(
            app,
            Some(description_asked(key, text)),
            fresh,
            app.description_entered(key, text, fresh),
        ),
{
    reveal(AppView::description_entered);
    let description = if text.len() == 0 {
        None
    } else {
        Some(text)
    };
    let (t, r) = app.store.secret_described(key, description, fresh);
    lemma_carried_out(
        app,
        t,
        success(answered(r, t.secret_keyed(key))),
        "Updated description for "@ + key,
    );
}

proof fn lemma_name_entered(
    app: AppView,
    target: EditTarget<Seq<char>>,
    name: Seq<char>,
    fresh: FreshView,
)
    ensures
        answers(
            app,
            naming_asked(target, name),
            fresh,
            app.name_entered(target, name, fresh),
        ),
{
    match target {
        EditTarget::AddSecret => {
            reveal(AppView::secret_entered);
            let (t, r) = app.store.record_added(Table::Secrets, name, None, fresh);
            let result = success(answered(r, t.secret_keyed(name)));
            lemma_carried_out(app, t, result, "Added secret "@ + name);
        },
        EditTarget::RenameSecret { from } => {
            reveal(AppView::secret_key_entered);
            let (t, r) = app.store.record_renamed(Table::Secrets, from, name, fresh);
            let result = success(answered(r, t.secret_keyed(name)));
            lemma_carried_out(app, t, result, four("Renamed "@, from, " to "@, name));
        },
        EditTarget::AddProject => {
            reveal(AppView::project_entered);
            let (t, r) = app.store.record_added(Table::Projects, name, None, fresh);
            let result = success(answered(r, t.project_named(name)));
            let pending = if result is Ok {
                Some(name)
            } else {
                app.pending_active_project
            };
            let before = AppView { pending_active_project: pending, ..app };
            lemma_carried_out(before, t, result, "Added project "@ + name);
        },
        EditTarget::RenameProject { from } => {
            reveal(AppView::project_name_entered);
            let (t, r) = app.store.record_renamed(Table::Projects, from, name, fresh);
            let result = success(answered(r, t.project_named(name)));
            lemma_carried_out(app, t, result, four("Renamed project "@, from, " to "@, name));
        },
        EditTarget::AddEnvironment => {
            reveal(AppView::environment_entered);
            let (t, r) = app.store.record_added(Table::Environments, name, None, fresh);
            let result = success(answered(r, t.environment_named(name)));
            let pending = if result is Ok {
                Some(name)
            } else {
                app.pending_active_env
            };
            let before = AppView { pending_active_env: pending, ..app };
            lemma_carried_out(before, t, result, "Added environment "@ + name);
        },
        EditTarget::RenameEnvironment { from } => {
            reveal(AppView::environment_name_entered);
            let (t, r) = app.store.record_renamed(Table::Environments, from, name, fresh);
            let result = success(answered(r, t.environment_named(name)));
            lemma_carried_out(app, t, result, four("Renamed environment "@, from, " to "@, name));
        },
        _ => {},
    }
}

proof fn lemma_edited(app: AppView, key: KeyEvent, fresh: FreshView)
    ensures
        answers(app, app.editing_asked(key), fresh, app.edited(key, fresh)),
{
    if let Some(editor) = app.editor {
        lemma_committed(AppView { editor: None, ..app }, editor, fresh);
    }
}

proof fn lemma_detailed(app: AppView, code: KeyCode, fresh: FreshView)
    ensures
        answers(app, app.detail_asked(code), fresh, app.detailed(code, fresh)),
{
    if let Some(detail) = app.detail {
        let closed = AppView { detail: None, ..app };
        if let Some(target) = app.environment_at(detail.selected_env) {
            let (t, r) = app.store.variant_unset(detail.secret_key, target.name, fresh);
            lemma_concluded(
                closed,
                t,
                r,
                four("Cleared "@, detail.secret_key, " for "@, target.name),
            );
            if let Some(yank) = detail.yank {
                let (t, r) = app.store.variant_set(
                    detail.secret_key,
                    target.name,
                    yank.value,
                    fresh,
                );
                lemma_concluded(
                    closed,
                    t,
                    r,
                    four("Copied "@, yank.source_env, " → "@, target.name),
                );
            }
        }
        assert(closed.environment_at(detail.selected_env) == app.environment_at(
            detail.selected_env,
        ));
        assert(answers(
            app,
            app.clearing_asked(detail),
            fresh,
            closed.value_cleared(detail, fresh),
        ));
        assert(answers(app, app.pasting_asked(detail), fresh, closed.pasted(detail, fresh)));
        assert(steady(app, closed.yanked(detail)));
        assert(steady(app, app.detail_edit_started(detail)));
    }
}

proof fn lemma_switched(app: AppView, key: KeyEvent)
    requires
        app.projects.len() <= usize::MAX,
        app.environments.len() <= usize::MAX,
    ensures
        steady(app, app.switched(key)),
{
    if let Some(switcher) = app.switcher {
        let names = app.names(switcher.kind);
        let closed = AppView { switcher: None, ..app };
        assert(closed.items(switcher) == app.items(switcher));
        lemma_matching_inside(names, lowered(switcher.filter), names.len());
        assert(steady(app, closed.activated(switcher)));
    }
}

proof fn lemma_confirmed(app: AppView, code: KeyCode, fresh: FreshView)
    ensures
        answers(app, app.confirmation_asked(code), fresh, app.confirmed(code, fresh)),
{
    let asked = AppView { confirm: None, ..app };
    match app.confirm {
        None => {},
        Some(ConfirmTarget::Secret(key)) => {
            let (t, r) = app.store.record_removed(Table::Secrets, key, fresh);
            lemma_concluded(asked, t, r, "Deleted secret "@ + key);
        },
        Some(ConfirmTarget::Project(name)) => {
            let (t, r) = app.store.record_removed(Table::Projects, name, fresh);
            lemma_concluded(asked, t, r, "Deleted project "@ + name);
        },
        Some(ConfirmTarget::Environment(name)) => {
            let (t, r) = app.store.environment_removed(name, true, fresh);
            lemma_concluded(asked, t, r, "Deleted environment "@ + name);
        },
    }
}

proof fn lemma_browsed(app: AppView, code: KeyCode, fresh: FreshView)
    ensures
        code != KeyCode::Char('q') ==> steady(app, app.browsed(code, fresh)),
        responds(app, app.browsing_asked(code), fresh, app.browsed(code, fresh)),
        !app.reveal_cell && code != KeyCode::Char('r') ==> !app.browsed(code, fresh).reveal_cell,
{
    if let (Some(project), Some(row)) = (app.project(), app.focused()) {
        let key = row.secret.key;
        let (t, r) = app.store.secret_unassigned(key, project.name, fresh);
        lemma_concluded(app, t, r, four("Unassigned "@, key, " from "@, project.name));
        let (t, r) = app.store.secret_assigned(key, project.name, fresh);
        lemma_concluded(app, t, r, four("Assigned "@, key, " to "@, project.name));
    }
    assert(answers(app, app.toggling_asked(), fresh, app.assignment_toggled(fresh)));
    assert(steady(app, app.environment_moved(1)));
    assert(steady(app, app.environment_moved(-1)));
}

/// The interface ends by the key for it while browsing, and by nothing else.
pub proof fn law_only_the_quit_key_quits(app: AppView, key: KeyEvent, fresh: FreshView)
    requires
        app.projects.len() <= usize::MAX,
        app.environments.len() <= usize::MAX,
    ensures
        app.keyed(key, fresh).should_quit <==> app.should_quit || (app.mode == Mode::Browse
            && key.code == KeyCode::Char('q')),
{
    lemma_keyed(app, key, fresh);
}

/// Whatever key is pressed, the active project and environment stay among those that are
/// listed, as long as the store can be read.
pub proof fn law_context_stays_listed(app: AppView, key: KeyEvent, fresh: FreshView)
    requires
        app.in_context(),
        app.projects.len() <= usize::MAX,
        app.environments.len() <= usize::MAX,
    ensures
        app.keyed(key, fresh).in_context() || rows_loaded(app.keyed(key, fresh).store) is Err,
{
    lemma_keyed(app, key, fresh);
}

proof fn lemma_dispatched(app: AppView, key: KeyEvent, fresh: FreshView)
    ensures
        responds(app, app.asked(key), fresh, app.dispatched(key, fresh)),
        !app.reveal_cell && !(app.mode == Mode::Browse && key.code == KeyCode::Char('r'))
            ==> !app.dispatched(key, fresh).reveal_cell,
{
    match app.mode {
        Mode::Browse => lemma_browsed(app, key.code, fresh),
        Mode::Detail => lemma_detailed(app, key.code, fresh),
        Mode::Editor => lemma_edited(app, key, fresh),
        Mode::Switcher => {},
        Mode::Confirm => lemma_confirmed(app, key.code, fresh),
        Mode::Help => {},
    }
}

proof fn lemma_keyed(app: AppView, key: KeyEvent, fresh: FreshView)
    requires
        app.projects.len() <= usize::MAX,
        app.environments.len() <= usize::MAX,
    ensures
        app.mode == Mode::Browse && key.code == KeyCode::Char('q') ==> app.keyed(key, fresh) == (
        AppView { should_quit: true, ..app }),
        !(app.mode == Mode::Browse && key.code == KeyCode::Char('q')) ==> steady(
            app,
            app.keyed(key, fresh),
        ),
{
    if app.mode == Mode::Browse && key.code == KeyCode::Char('q') {
        let after = AppView { should_quit: true, ..app };
        lemma_same_focus(app, after, app.rows.len());
        assert(after.selection() == app.selection());
    }
    match app.mode {
        Mode::Browse => lemma_browsed(app, key.code, fresh),
        Mode::Detail => lemma_detailed(app, key.code, fresh),
        Mode::Editor => lemma_edited(app, key, fresh),
        Mode::Switcher => lemma_switched(app, key),
        Mode::Confirm => lemma_confirmed(app, key.code, fresh),
        Mode::Help => {},
    }
}

/// A value copied from one environment and pasted into another is the other's value then.
pub proof fn law_pasted_value_is_the_copied_one(
    app: AppView,
    detail: DetailView,
    target: nat,
    fresh: FreshView,
)
    requires
        app.store.well_formed(),
        detail.selected_env < app.environments.len(),
        target < app.environments.len(),
        app.value_of(detail.secret_key, app.environments[detail.selected_env as int].id) matches Some(
            value,
        ) ==> app.store.promised(
            Some(
                Change::VariantSet {
                    key: detail.secret_key,
                    environment: app.environments[target as int].name,
                    value,
                },
            ),
            fresh,
        ),
    ensures
        ({
            let value = app.value_of(
                detail.secret_key,
                app.environments[detail.selected_env as int].id,
            );
            let copied = app.yanked(detail).detail->0;
            let name = app.environments[target as int].name;
            let pasted = app.pasted(DetailView { selected_env: target, ..copied }, fresh);
            value is Some && app.store.variant_set(
                detail.secret_key,
                name,
                value->0,
                fresh,
            ).1 is Ok ==> pasted.store.value(detail.secret_key, name) == Ok::<
                Option<Seq<char>>,
                StoreErrorView,
            >(value)
        }),
{
    reveal(AppView::concluded);
    let environment = app.environments[detail.selected_env as int];
    if let Some(value) = app.value_of(detail.secret_key, environment.id) {
        law_value_is_read_back(
            app.store,
            detail.secret_key,
            app.environments[target as int].name,
            value,
            fresh,
            detail.secret_key,
            environment.name,
        );
    }
}

} // verus!
