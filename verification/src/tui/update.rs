//! What keys do. Failures of the store go to the status line and never end the interface.

use crate::change::{Change, ChangeView};
use crate::error::{StoreError, StoreErrorView};
use crate::ids::Id;
use crate::registry::unit_view;
use crate::store::{Fresh, FreshView};
use crate::tables::{StoreView, SyncStatusView};
use crate::text::{decimal, decimal_text};
use crate::tui::select::{move_index, moved};
use crate::tui::state::{
    fine, new_editor, value_in, wrong, App, AppView, ConfirmTarget, Detail, DetailView, EditTarget,
    Editor, EditorView, Mode, Status, Switcher, SwitcherKind, SwitcherView,
};
use crate::wellformed::keeps;
use vstd::prelude::*;

verus! {

/// A key.
#[derive(Debug, Clone, Copy, PartialEq, Eq, Structural)]
pub enum KeyCode {
    Char(char),
    Up,
    Down,
    Left,
    Right,
    PageUp,
    PageDown,
    Home,
    End,
    Enter,
    Esc,
    Backspace,
    Delete,
    Other,
}

/// A key that was pressed, with or without control.
#[derive(Debug, Clone, Copy, PartialEq, Eq, Structural)]
pub struct KeyEvent {
    pub code: KeyCode,
    pub ctrl: bool,
}

/// Three texts one after another.
pub open spec fn three(a: Seq<char>, b: Seq<char>, c: Seq<char>) -> Seq<char> {
    a + b + c
}

pub(crate) fn words(a: &str, b: &str, c: &str) -> (r: String)
    ensures
        r@ == three(a@, b@, c@),
{
    let mut out = a.to_owned();
    out.append(b);
    out.append(c);
    out
}

/// Four texts one after another.
pub open spec fn four(a: Seq<char>, b: Seq<char>, c: Seq<char>, d: Seq<char>) -> Seq<char> {
    a + b + c + d
}

pub(crate) fn more_words(a: &str, b: &str, c: &str, d: &str) -> (r: String)
    ensures
        r@ == four(a@, b@, c@, d@),
{
    let mut out = a.to_owned();
    out.append(b);
    out.append(c);
    out.append(d);
    out
}

pub(crate) fn two_words(a: &str, b: &str) -> (r: String)
    ensures
        r@ == a@ + b@,
{
    let mut out = a.to_owned();
    out.append(b);
    out
}

/// The title of the field for a value.
pub open spec fn value_title(key: Seq<char>, environment: Seq<char>) -> Seq<char> {
    four(key, " · "@, environment, "  (empty clears)"@)
}

/// What the status line says about the log.
pub open spec fn log_message(status: SyncStatusView) -> Seq<char> {
    match status.latest_operation {
        Some(operation) => "sync: "@ + decimal_text(status.operation_count) + " op(s), latest "@
            + operation.kind + " at "@ + operation.created_at.display(),
        None => "sync: no local operations yet"@,
    }
}

impl AppView {
    /// With a message that something went wrong.
    pub open spec fn complaining(self, text: Seq<char>) -> AppView {
        AppView { status: wrong(text), ..self }
    }

    /// With a field open.
    pub open spec fn editing(self, editor: EditorView) -> AppView {
        AppView { editor: Some(editor), mode: Mode::Editor, ..self }
    }

    /// After a request to the store: a success is told and the store is read again, a failure
    /// is told.
    #[verifier::opaque]
    pub open spec fn concluded(
        self,
        store: StoreView,
        result: Result<(), StoreErrorView>,
        message: Seq<char>,
    ) -> AppView {
        let after = AppView { store, ..self };
        match result {
            Ok(_) => (AppView { status: fine(message), ..after }).refreshed(),
            Err(error) => after.complaining(error.message()),
        }
    }

    /// The change that assigning the selected secret, or taking it from its project, asks for.
    pub open spec fn toggling_asked(self) -> Option<ChangeView> {
        match (self.project(), self.focused()) {
            (Some(project), Some(row)) => Some(
                if row.secret.assigned_project_ids.contains(project.id) {
                    Change::SecretUnassign { key: row.secret.key, project: project.name }
                } else {
                    Change::SecretAssign { key: row.secret.key, project: project.name }
                },
            ),
            _ => None,
        }
    }

    /// The change that a key asks for while browsing.
    pub open spec fn browsing_asked(self, code: KeyCode) -> Option<ChangeView> {
        if code == KeyCode::Char(' ') {
            self.toggling_asked()
        } else {
            None
        }
    }

    /// The selected secret is assigned to the active project, or taken from it.
    pub open spec fn assignment_toggled(self, fresh: FreshView) -> AppView {
        match (self.project(), self.focused()) {
            (None, _) => self.complaining("No active project. Press p to pick one."@),
            (_, None) => self.complaining("No secret selected."@),
            (Some(project), Some(row)) => {
                let key = row.secret.key;
                if row.secret.assigned_project_ids.contains(project.id) {
                    let (t, r) = self.store.secret_unassigned(key, project.name, fresh);
                    self.concluded(t, r, four("Unassigned "@, key, " from "@, project.name))
                } else {
                    let (t, r) = self.store.secret_assigned(key, project.name, fresh);
                    self.concluded(t, r, four("Assigned "@, key, " to "@, project.name))
                }
            },
        }
    }

    /// The field for the value of the selected secret in the active environment.
    pub open spec fn value_edit_started(self) -> AppView {
        match (self.environment(), self.focused()) {
            (None, _) => self.complaining("No active environment. Press e to pick one."@),
            (_, None) => self.complaining("No secret selected."@),
            (Some(environment), Some(row)) => {
                let key = row.secret.key;
                self.editing(
                    new_editor(
                        EditTarget::SecretValue { key, environment: environment.name },
                        value_title(key, environment.name),
                        match value_in(row.variants, environment.id) {
                            Some(value) => value,
                            None => Seq::empty(),
                        },
                        true,
                    ),
                )
            },
        }
    }

    /// The field for the new key of the selected secret.
    pub open spec fn renaming_started(self) -> AppView {
        match self.focused() {
            None => self.complaining("No secret selected."@),
            Some(row) => self.editing(
                new_editor(
                    EditTarget::RenameSecret { from: row.secret.key },
                    "Rename secret"@,
                    row.secret.key,
                    false,
                ),
            ),
        }
    }

    /// The field for the description of the selected secret.
    pub open spec fn describing_started(self) -> AppView {
        match self.focused() {
            None => self.complaining("No secret selected."@),
            Some(row) => self.editing(
                new_editor(
                    EditTarget::Description { key: row.secret.key },
                    "Description · "@ + row.secret.key,
                    match row.secret.description {
                        Some(text) => text,
                        None => Seq::empty(),
                    },
                    false,
                ),
            ),
        }
    }

    /// The question whether to delete the selected secret.
    pub open spec fn deletion_started(self) -> AppView {
        match self.focused() {
            None => self.complaining("No secret selected."@),
            Some(row) => AppView {
                confirm: Some(ConfirmTarget::Secret(row.secret.key)),
                mode: Mode::Confirm,
                ..self
            },
        }
    }

    /// The state of the log in the status line.
    pub open spec fn log_shown(self) -> AppView {
        match self.store.status() {
            Ok(status) => AppView { status: fine(log_message(status)), ..self },
            Err(error) => self.complaining(error.message()),
        }
    }

    /// The values of the selected secret.
    pub open spec fn detail_opened(self) -> AppView {
        match self.focused() {
            None => self.complaining("No secret selected."@),
            Some(row) => if self.environments.len() == 0 {
                self.complaining("No environments yet. Press e to add one."@)
            } else {
                AppView {
                    detail: Some(
                        DetailView {
                            secret_key: row.secret.key,
                            selected_env: self.active_env,
                            reveal: false,
                            yank: None,
                        },
                    ),
                    mode: Mode::Detail,
                    ..self
                }
            },
        }
    }

    /// The list of projects or environments to choose from.
    pub open spec fn switcher_opened(self, kind: SwitcherKind) -> AppView {
        AppView {
            switcher: Some(
                SwitcherView {
                    kind,
                    filter: Seq::empty(),
                    selected: match kind {
                        SwitcherKind::Project => self.active_project,
                        SwitcherKind::Environment => self.active_env,
                    },
                },
            ),
            mode: Mode::Switcher,
            ..self
        }
    }

    /// A row selected; values stay revealed only where it was selected already.
    pub open spec fn row_selected(self, row: nat) -> AppView {
        AppView {
            selected_row: row,
            reveal_cell: self.reveal_cell && row == self.selected_row,
            ..self
        }
    }

    /// The selection moved among the rows that are shown.
    pub open spec fn row_moved(self, delta: int) -> AppView {
        self.row_selected(moved(self.selected_row, self.filtered().len(), delta))
    }

    /// The last row that is shown selected.
    pub open spec fn last_selected(self) -> AppView {
        self.row_selected(
            if self.filtered().len() > 0 {
                (self.filtered().len() - 1) as nat
            } else {
                0
            },
        )
    }

    /// Another environment active; its values are hidden.
    pub open spec fn environment_moved(self, delta: int) -> AppView {
        AppView {
            active_env: moved(self.active_env, self.environments.len(), delta),
            reveal_cell: false,
            ..self
        }
    }

    /// A key while browsing.
    pub open spec fn browsed(self, code: KeyCode, fresh: FreshView) -> AppView {
        match code {
            KeyCode::Char(c) => if c == 'q' {
                AppView { should_quit: true, ..self }
            } else if c == '?' {
                AppView { mode: Mode::Help, ..self }
            } else if c == 'j' {
                self.row_moved(1)
            } else if c == 'k' {
                self.row_moved(-1)
            } else if c == 'h' {
                self.environment_moved(-1)
            } else if c == 'l' {
                self.environment_moved(1)
            } else if c == 'v' {
                self.value_edit_started()
            } else if c == ' ' {
                self.assignment_toggled(fresh)
            } else if c == 'p' {
                self.switcher_opened(SwitcherKind::Project)
            } else if c == 'e' {
                self.switcher_opened(SwitcherKind::Environment)
            } else if c == 'a' {
                self.editing(
                    new_editor(EditTarget::AddSecret, "New secret key"@, Seq::empty(), false),
                )
            } else if c == 'R' {
                self.renaming_started()
            } else if c == 'c' {
                self.describing_started()
            } else if c == 'd' {
                self.deletion_started()
            } else if c == 'f' {
                AppView {
                    assigned_only: !self.assigned_only,
                    status: fine(
                        if self.assigned_only {
                            "Showing all secrets"@
                        } else {
                            "Showing secrets assigned to the active project"@
                        },
                    ),
                    ..self.row_selected(0)
                }
            } else if c == 'r' {
                AppView { reveal_cell: !self.reveal_cell, ..self }
            } else if c == '/' {
                self.editing(
                    new_editor(EditTarget::Search, "Search secrets"@, self.filter, false),
                )
            } else if c == 'S' {
                self.log_shown()
            } else {
                self
            },
            KeyCode::Down => self.row_moved(1),
            KeyCode::Up => self.row_moved(-1),
            KeyCode::PageDown => self.row_moved(10),
            KeyCode::PageUp => self.row_moved(-10),
            KeyCode::Home => self.row_selected(0),
            KeyCode::End => self.last_selected(),
            KeyCode::Left => self.environment_moved(-1),
            KeyCode::Right => self.environment_moved(1),
            KeyCode::Enter => self.detail_opened(),
            _ => self,
        }
    }
}

impl App {
    pub(crate) fn complain(&mut self, text: &str)
        ensures
            final(self)@ == old(self)@.complaining(text@),
    {
        self.status = Status::error(text.to_owned());
    }

    pub(crate) fn open_editor(&mut self, editor: Editor)
        ensures
            final(self)@ == old(self)@.editing(editor@),
    {
        self.editor = Some(editor);
        self.mode = Mode::Editor;
    }

    pub(crate) fn conclude(&mut self, result: Result<(), StoreError>, message: String)
        ensures
            final(self)@ == old(self)@.concluded(old(self)@.store, unit_view(result), message@),
            final(self)@.store == old(self)@.store,
    {
        proof {
            reveal(AppView::concluded);
        }
        match result {
            Ok(_) => {
                self.status = Status::ok(message);
                self.refresh();
            },
            Err(error) => {
                self.status = Status::error(error.message());
            },
        }
    }

    /// Assigns the selected secret to the active project, or takes it from it.
    pub fn toggle_assignment_with(&mut self, fresh: &Fresh)
        ensures
            final(self)@ == old(self)@.assignment_toggled(fresh@),
            keeps(old(self)@.store, final(self)@.store),
            old(self)@.store.well_formed() ==> old(self)@.store.promised(
                old(self)@.toggling_asked(),
                fresh@,
            ),
    {
        proof {
            reveal(StoreView::promised);
            reveal(AppView::concluded);
        }
        let (project_id, project_name): (Id, String) = match self.active_project() {
            Some(project) => (project.id, project.name.clone()),
            None => {
                self.complain("No active project. Press p to pick one.");
                return;
            },
        };
        let (key, assigned): (String, bool) = match self.focused_row() {
            Some(row) => (
                row.secret.key.clone(),
                crate::tui::select::has_id(&row.secret.assigned_project_ids, project_id),
            ),
            None => {
                self.complain("No secret selected.");
                return;
            },
        };
        if assigned {
            let result = self.store.unassign_secret_with(
                key.as_str(),
                project_name.as_str(),
                fresh,
            );
            self.conclude(
                result,
                more_words("Unassigned ", key.as_str(), " from ", project_name.as_str()),
            );
        } else {
            let result = self.store.assign_secret_with(key.as_str(), project_name.as_str(), fresh);
            self.conclude(
                result,
                more_words("Assigned ", key.as_str(), " to ", project_name.as_str()),
            );
        }
    }

    /// Assigns the selected secret to the active project, or takes it from it.
    pub fn toggle_assignment(&mut self)
        ensures
            exists|fresh: FreshView| #[trigger]
                fresh.valid() && final(self)@ == old(self)@.assignment_toggled(fresh) && (old(
                    self,
                )@.store.well_formed() ==> old(self)@.store.promised(
                    old(self)@.toggling_asked(),
                    fresh,
                )),
            keeps(old(self)@.store, final(self)@.store),
    {
        let fresh = Fresh::draw();
        self.toggle_assignment_with(&fresh);
    }

    fn start_edit_value(&mut self)
        ensures
            final(self)@ == old(self)@.value_edit_started(),
    {
        let (environment_id, environment_name): (Id, String) = match self.active_environment() {
            Some(environment) => (environment.id, environment.name.clone()),
            None => {
                self.complain("No active environment. Press e to pick one.");
                return;
            },
        };
        let (key, current): (String, String) = match self.focused_row() {
            Some(row) => (
                row.secret.key.clone(),
                match row.value(environment_id) {
                    Some(value) => value.clone(),
                    None => String::new(),
                },
            ),
            None => {
                self.complain("No secret selected.");
                return;
            },
        };
        assert(current@ =~= match value_in(self@.focused()->0.variants, environment_id) {
            Some(value) => value,
            None => Seq::empty(),
        });
        let title = more_words(
            key.as_str(),
            " · ",
            environment_name.as_str(),
            "  (empty clears)",
        );
        let editor = Editor::new(
            EditTarget::SecretValue { key, environment: environment_name },
            title.as_str(),
            current.as_str(),
            true,
        );
        self.open_editor(editor);
    }

    fn start_rename_secret(&mut self)
        ensures
            final(self)@ == old(self)@.renaming_started(),
    {
        let key: String = match self.focused_row() {
            Some(row) => row.secret.key.clone(),
            None => {
                self.complain("No secret selected.");
                return;
            },
        };
        let editor = Editor::new(
            EditTarget::RenameSecret { from: key.clone() },
            "Rename secret",
            key.as_str(),
            false,
        );
        self.open_editor(editor);
    }

    fn start_edit_description(&mut self)
        ensures
            final(self)@ == old(self)@.describing_started(),
    {
        let (key, current): (String, String) = match self.focused_row() {
            Some(row) => (
                row.secret.key.clone(),
                match &row.secret.description {
                    Some(text) => text.clone(),
                    None => String::new(),
                },
            ),
            None => {
                self.complain("No secret selected.");
                return;
            },
        };
        assert(current@ =~= match self@.focused()->0.secret.description {
            Some(text) => text,
            None => Seq::empty(),
        });
        let mut title = "Description · ".to_owned();
        title.append(key.as_str());
        let editor = Editor::new(
            EditTarget::Description { key },
            title.as_str(),
            current.as_str(),
            false,
        );
        self.open_editor(editor);
    }

    fn start_delete_secret(&mut self)
        ensures
            final(self)@ == old(self)@.deletion_started(),
    {
        let key: String = match self.focused_row() {
            Some(row) => row.secret.key.clone(),
            None => {
                self.complain("No secret selected.");
                return;
            },
        };
        self.confirm = Some(ConfirmTarget::Secret(key));
        self.mode = Mode::Confirm;
    }

    fn show_sync_status(&mut self)
        ensures
            final(self)@ == old(self)@.log_shown(),
    {
        match self.store.sync_status() {
            Ok(status) => {
                let text = match &status.latest_operation {
                    Some(operation) => {
                        let mut text = "sync: ".to_owned();
                        text.append(decimal(status.operation_count).as_str());
                        text.append(" op(s), latest ");
                        text.append(operation.kind.as_str());
                        text.append(" at ");
                        text.append(operation.created_at.to_display().as_str());
                        text
                    },
                    None => "sync: no local operations yet".to_owned(),
                };
                assert(text@ == log_message(status@));
                self.status = Status::ok(text);
            },
            Err(error) => {
                self.status = Status::error(error.message());
            },
        }
    }

    fn open_detail(&mut self)
        ensures
            final(self)@ == old(self)@.detail_opened(),
    {
        let key: String = match self.focused_row() {
            Some(row) => row.secret.key.clone(),
            None => {
                self.complain("No secret selected.");
                return;
            },
        };
        if self.environments.len() == 0 {
            self.complain("No environments yet. Press e to add one.");
            return;
        }
        self.detail = Some(
            Detail { secret_key: key, selected_env: self.active_env, reveal: false, yank: None },
        );
        self.mode = Mode::Detail;
    }

    fn open_switcher(&mut self, kind: SwitcherKind)
        ensures
            final(self)@ == old(self)@.switcher_opened(kind),
    {
        let selected: usize = match kind {
            SwitcherKind::Project => self.active_project,
            SwitcherKind::Environment => self.active_env,
        };
        let filter = String::new();
        assert(filter@ =~= Seq::empty());
        self.switcher = Some(Switcher { kind, filter, selected });
        self.mode = Mode::Switcher;
    }

    pub(crate) fn select_row(&mut self, row: usize)
        ensures
            final(self)@ == old(self)@.row_selected(row as nat),
    {
        self.reveal_cell = self.reveal_cell && row == self.selected_row;
        self.selected_row = row;
    }

    fn move_row(&mut self, delta: isize)
        ensures
            final(self)@ == old(self)@.row_moved(delta as int),
    {
        let len: usize = self.filtered_rows().len();
        let row: usize = move_index(self.selected_row, len, delta);
        self.select_row(row);
    }

    fn move_env(&mut self, delta: isize)
        ensures
            final(self)@ == old(self)@.environment_moved(delta as int),
    {
        self.active_env = move_index(self.active_env, self.environments.len(), delta);
        self.reveal_cell = false;
    }

    fn select_last(&mut self)
        ensures
            final(self)@ == old(self)@.last_selected(),
    {
        let len: usize = self.filtered_rows().len();
        let row: usize = if len > 0 {
            len - 1
        } else {
            0
        };
        self.select_row(row);
    }

    fn browse_char(&mut self, c: char, fresh: &Fresh)
        ensures
            final(self)@ == old(self)@.browsed(KeyCode::Char(c), fresh@),
            keeps(old(self)@.store, final(self)@.store),
            old(self)@.store.well_formed() ==> old(self)@.store.promised(
                old(self)@.browsing_asked(KeyCode::Char(c)),
                fresh@,
            ),
    {
        proof {
            reveal(StoreView::promised);
        }
        if c == 'q' {
            self.should_quit = true;
        } else if c == '?' {
            self.mode = Mode::Help;
        } else if c == 'j' {
            self.move_row(1);
        } else if c == 'k' {
            self.move_row(-1);
        } else if c == 'h' {
            self.move_env(-1);
        } else if c == 'l' {
            self.move_env(1);
        } else if c == 'v' {
            self.start_edit_value();
        } else if c == ' ' {
            self.toggle_assignment_with(fresh);
        } else if c == 'p' {
            self.open_switcher(SwitcherKind::Project);
        } else if c == 'e' {
            self.open_switcher(SwitcherKind::Environment);
        } else if c == 'a' {
            proof {
                reveal_strlit("");
                assert(""@ =~= Seq::empty());
            }
            self.open_editor(Editor::new(EditTarget::AddSecret, "New secret key", "", false));
        } else if c == 'R' {
            self.start_rename_secret();
        } else if c == 'c' {
            self.start_edit_description();
        } else if c == 'd' {
            self.start_delete_secret();
        } else if c == 'f' {
            self.assigned_only = !self.assigned_only;
            self.select_row(0);
            self.status = Status::ok(
                if self.assigned_only {
                    "Showing secrets assigned to the active project".to_owned()
                } else {
                    "Showing all secrets".to_owned()
                },
            );
        } else if c == 'r' {
            self.reveal_cell = !self.reveal_cell;
        } else if c == '/' {
            let editor = Editor::new(
                EditTarget::Search,
                "Search secrets",
                self.filter.as_str(),
                false,
            );
            self.open_editor(editor);
        } else if c == 'S' {
            self.show_sync_status();
        }
    }

    pub(crate) fn browse_key(&mut self, code: KeyCode, fresh: &Fresh)
        ensures
            final(self)@ == old(self)@.browsed(code, fresh@),
            keeps(old(self)@.store, final(self)@.store),
            old(self)@.store.well_formed() ==> old(self)@.store.promised(
                old(self)@.browsing_asked(code),
                fresh@,
            ),
    {
        proof {
            reveal(StoreView::promised);
        }
        match code {
            KeyCode::Char(c) => self.browse_char(c, fresh),
            KeyCode::Down => self.move_row(1),
            KeyCode::Up => self.move_row(-1),
            KeyCode::PageDown => self.move_row(10),
            KeyCode::PageUp => self.move_row(-10),
            KeyCode::Home => self.select_row(0),
            KeyCode::End => self.select_last(),
            KeyCode::Left => self.move_env(-1),
            KeyCode::Right => self.move_env(1),
            KeyCode::Enter => self.open_detail(),
            _ => {},
        }
    }
}

} // verus!
