//! What keys do in an input field, and what its text is for once it is entered.

use crate::change::{Change, ChangeView};
use crate::domain::{EnvironmentView, ProjectView};
use crate::error::{StoreError, StoreErrorView};
use crate::registry::unit_view;
use crate::store::{addition, answered, renaming, Fresh, FreshView};
use crate::tables::{StoreView, Table};
use crate::text::{same, texts, trim, trimmed};
use crate::tui::state::{fine, App, AppView, EditTarget, Editor, EditorView, Mode};
use crate::tui::update::{four, more_words, two_words, KeyCode, KeyEvent};
use crate::wellformed::keeps;
use vstd::prelude::*;

verus! {

/// The first place of a name.
pub open spec fn place_of(names: Seq<Seq<char>>, name: Seq<char>) -> Option<nat>
    decreases names.len(),
{
    if names.len() == 0 {
        None
    } else if names[0] == name {
        Some(0)
    } else {
        match place_of(names.drop_first(), name) {
            Some(i) => Some(i + 1),
            None => None,
        }
    }
}

/// The place found for a name, or the one there was.
pub open spec fn place_or(names: Seq<Seq<char>>, name: Option<Seq<char>>, otherwise: nat) -> nat {
    match name {
        Some(name) => match place_of(names, name) {
            Some(i) => i,
            None => otherwise,
        },
        None => otherwise,
    }
}

/// The names of projects.
pub open spec fn project_names(projects: Seq<ProjectView>) -> Seq<Seq<char>> {
    projects.map_values(|p: ProjectView| p.name)
}

/// The names of environments.
pub open spec fn environment_names(environments: Seq<EnvironmentView>) -> Seq<Seq<char>> {
    environments.map_values(|e: EnvironmentView| e.name)
}

/// Whether a request succeeded, without what it returned.
pub open spec fn success<T>(result: Result<T, StoreErrorView>) -> Result<(), StoreErrorView> {
    match result {
        Ok(_) => Ok(()),
        Err(error) => Err(error),
    }
}

impl EditorView {
    /// A key other than those that close the field.
    pub open spec fn pressed(self, key: KeyEvent) -> EditorView {
        match key.code {
            KeyCode::Left => EditorView {
                cursor: if self.cursor > 0 {
                    (self.cursor - 1) as nat
                } else {
                    0
                },
                ..self
            },
            KeyCode::Right => EditorView {
                cursor: if self.cursor < self.buffer.len() {
                    self.cursor + 1
                } else {
                    self.buffer.len()
                },
                ..self
            },
            KeyCode::Home => EditorView { cursor: 0, ..self },
            KeyCode::End => EditorView { cursor: self.buffer.len(), ..self },
            KeyCode::Backspace => self.erased_before(),
            KeyCode::Delete => self.erased_at(),
            KeyCode::Char(c) => if key.ctrl && c == 'u' {
                EditorView { buffer: Seq::empty(), cursor: 0, ..self }
            } else if key.ctrl && c == 'r' && self.masked {
                EditorView { reveal: !self.reveal, ..self }
            } else {
                self.inserted(c)
            },
            _ => self,
        }
    }
}

/// Every key leaves the cursor in the text or at its end.
pub proof fn law_cursor_stays_in_text(editor: EditorView, key: KeyEvent)
    requires
        editor.valid(),
    ensures
        editor.pressed(key).valid(),
{
}

/// The change that a name entered in a field asks for, if it is not blank.
pub open spec fn naming_asked(
    target: EditTarget<Seq<char>>,
    name: Seq<char>,
) -> Option<ChangeView> {
    if name.len() == 0 {
        None
    } else {
        match target {
            EditTarget::AddSecret => Some(addition(Table::Secrets, name, None)),
            EditTarget::RenameSecret { from } => Some(renaming(Table::Secrets, from, name)),
            EditTarget::AddProject => Some(addition(Table::Projects, name, None)),
            EditTarget::RenameProject { from } => Some(renaming(Table::Projects, from, name)),
            EditTarget::AddEnvironment => Some(addition(Table::Environments, name, None)),
            EditTarget::RenameEnvironment { from } => Some(
                renaming(Table::Environments, from, name),
            ),
            _ => None,
        }
    }
}

/// The change that a value entered asks for.
pub open spec fn value_asked(
    key: Seq<char>,
    environment: Seq<char>,
    value: Seq<char>,
) -> ChangeView {
    if value.len() == 0 {
        Change::VariantUnset { key, environment }
    } else {
        Change::VariantSet { key, environment, value }
    }
}

/// The change that a description entered asks for.
pub open spec fn description_asked(key: Seq<char>, text: Seq<char>) -> ChangeView {
    Change::SecretDescribe {
        key,
        description: if text.len() == 0 {
            None
        } else {
            Some(text)
        },
    }
}

impl EditorView {
    /// The change that the field asks for when it is put to use.
    pub open spec fn asked(self) -> Option<ChangeView> {
        match self.target {
            EditTarget::Search => None,
            EditTarget::SecretValue { key, environment } => Some(
                value_asked(key, environment, self.buffer),
            ),
            EditTarget::Description { key } => Some(
                description_asked(key, trimmed(self.buffer)),
            ),
            target => naming_asked(target, trimmed(self.buffer)),
        }
    }
}

impl AppView {
    /// What was just added becomes active, where it is listed.
    pub open spec fn pending_selected(self) -> AppView {
        AppView {
            active_project: place_or(
                project_names(self.projects),
                self.pending_active_project,
                self.active_project,
            ),
            active_env: place_or(
                environment_names(self.environments),
                self.pending_active_env,
                self.active_env,
            ),
            pending_active_project: None,
            pending_active_env: None,
            ..self
        }
    }

    /// After the request that a field was for.
    #[verifier::opaque]
    pub open spec fn carried_out(
        self,
        store: StoreView,
        result: Result<(), StoreErrorView>,
        message: Seq<char>,
    ) -> AppView {
        match result {
            Ok(_) => self.concluded(store, result, message).pending_selected(),
            Err(_) => self.concluded(store, result, message),
        }
    }

    /// A value entered; none clears it.
    #[verifier::opaque]
    pub open spec fn value_entered(
        self,
        key: Seq<char>,
        environment: Seq<char>,
        value: Seq<char>,
        fresh: FreshView,
    ) -> AppView {
        if value.len() == 0 {
            let (t, r) = self.store.variant_unset(key, environment, fresh);
            self.carried_out(t, r, four("Cleared "@, key, " for "@, environment))
        } else {
            let (t, r) = self.store.variant_set(key, environment, value, fresh);
            self.carried_out(t, r, four("Set "@, key, " for "@, environment))
        }
    }

    /// A description entered; none clears it.
    #[verifier::opaque]
    pub open spec fn description_entered(
        self,
        key: Seq<char>,
        text: Seq<char>,
        fresh: FreshView,
    ) -> AppView {
        let description = if text.len() == 0 {
            None
        } else {
            Some(text)
        };
        let (t, r) = self.store.secret_described(key, description, fresh);
        self.carried_out(
            t,
            success(answered(r, t.secret_keyed(key))),
            "Updated description for "@ + key,
        )
    }

    /// The key of a new secret entered.
    #[verifier::opaque]
    pub open spec fn secret_entered(self, name: Seq<char>, fresh: FreshView) -> AppView {
        let (t, r) = self.store.record_added(Table::Secrets, name, None, fresh);
        self.carried_out(
            t,
            success(answered(r, t.secret_keyed(name))),
            "Added secret "@ + name,
        )
    }

    /// Another key of a secret entered.
    #[verifier::opaque]
    pub open spec fn secret_key_entered(
        self,
        from: Seq<char>,
        name: Seq<char>,
        fresh: FreshView,
    ) -> AppView {
        let (t, r) = self.store.record_renamed(Table::Secrets, from, name, fresh);
        self.carried_out(
            t,
            success(answered(r, t.secret_keyed(name))),
            four("Renamed "@, from, " to "@, name),
        )
    }

    /// The name of a new project entered; the project becomes active.
    #[verifier::opaque]
    pub open spec fn project_entered(self, name: Seq<char>, fresh: FreshView) -> AppView {
        let (t, r) = self.store.record_added(Table::Projects, name, None, fresh);
        let result = success(answered(r, t.project_named(name)));
        let pending = if result is Ok {
            Some(name)
        } else {
            self.pending_active_project
        };
        (AppView { pending_active_project: pending, ..self }).carried_out(
            t,
            result,
            "Added project "@ + name,
        )
    }

    /// Another name of a project entered.
    #[verifier::opaque]
    pub open spec fn project_name_entered(
        self,
        from: Seq<char>,
        name: Seq<char>,
        fresh: FreshView,
    ) -> AppView {
        let (t, r) = self.store.record_renamed(Table::Projects, from, name, fresh);
        self.carried_out(
            t,
            success(answered(r, t.project_named(name))),
            four("Renamed project "@, from, " to "@, name),
        )
    }

    /// The name of a new environment entered; the environment becomes active.
    #[verifier::opaque]
    pub open spec fn environment_entered(self, name: Seq<char>, fresh: FreshView) -> AppView {
        let (t, r) = self.store.record_added(Table::Environments, name, None, fresh);
        let result = success(answered(r, t.environment_named(name)));
        let pending = if result is Ok {
            Some(name)
        } else {
            self.pending_active_env
        };
        (AppView { pending_active_env: pending, ..self }).carried_out(
            t,
            result,
            "Added environment "@ + name,
        )
    }

    /// Another name of an environment entered.
    #[verifier::opaque]
    pub open spec fn environment_name_entered(
        self,
        from: Seq<char>,
        name: Seq<char>,
        fresh: FreshView,
    ) -> AppView {
        let (t, r) = self.store.record_renamed(Table::Environments, from, name, fresh);
        self.carried_out(
            t,
            success(answered(r, t.environment_named(name))),
            four("Renamed environment "@, from, " to "@, name),
        )
    }

    /// A name entered, for one of the fields that take one.
    pub open spec fn name_entered(
        self,
        target: EditTarget<Seq<char>>,
        name: Seq<char>,
        fresh: FreshView,
    ) -> AppView {
        if name.len() == 0 {
            self.complaining("Value cannot be empty."@)
        } else {
            match target {
                EditTarget::AddSecret => self.secret_entered(name, fresh),
                EditTarget::RenameSecret { from } => self.secret_key_entered(from, name, fresh),
                EditTarget::AddProject => self.project_entered(name, fresh),
                EditTarget::RenameProject { from } => self.project_name_entered(from, name, fresh),
                EditTarget::AddEnvironment => self.environment_entered(name, fresh),
                EditTarget::RenameEnvironment { from } => self.environment_name_entered(
                    from,
                    name,
                    fresh,
                ),
                _ => self,
            }
        }
    }

    /// The text of a field put to use: a value as it stands, anything else without white space
    /// around it. A name must not be blank.
    pub open spec fn committed(self, editor: EditorView, fresh: FreshView) -> AppView {
        let value = editor.buffer;
        match editor.target {
            EditTarget::Search => AppView { filter: value, ..self.row_selected(0) },
            EditTarget::SecretValue { key, environment } => self.value_entered(
                key,
                environment,
                value,
                fresh,
            ),
            EditTarget::Description { key } => self.description_entered(
                key,
                trimmed(value),
                fresh,
            ),
            target => self.name_entered(target, trimmed(value), fresh),
        }
    }

    /// The field stays open; the text of a search is what is searched for.
    pub open spec fn field_kept(self, editor: EditorView) -> AppView {
        let after = AppView { editor: Some(editor), ..self };
        if editor.target is Search {
            AppView { filter: editor.buffer, ..after.row_selected(0) }
        } else {
            after
        }
    }

    /// The change that a key in a field asks for.
    pub open spec fn editing_asked(self, key: KeyEvent) -> Option<ChangeView> {
        match (self.editor, key.code) {
            (Some(editor), KeyCode::Enter) => editor.asked(),
            _ => None,
        }
    }

    /// A key in a field.
    pub open spec fn edited(self, key: KeyEvent, fresh: FreshView) -> AppView {
        match self.editor {
            None => AppView { mode: Mode::Browse, ..self },
            Some(editor) => {
                let closed = AppView { editor: None, ..self };
                match key.code {
                    KeyCode::Esc => AppView { mode: editor.return_to, ..closed },
                    KeyCode::Enter => AppView {
                        mode: editor.return_to,
                        ..closed.committed(editor, fresh)
                    },
                    _ => closed.field_kept(editor.pressed(key)),
                }
            },
        }
    }
}

fn find_name(names: &Vec<String>, name: &str) -> (r: Option<usize>)
    ensures
        match r {
            Some(i) => place_of(texts(names@), name@) == Some(i as nat),
            None => place_of(texts(names@), name@) is None,
        },
{
    let ghost all = texts(names@);
    let mut i: usize = 0;
    assert(all.skip(0) =~= all);
    while i < names.len()
        invariant
            i <= names@.len(),
            all == texts(names@),
            place_of(all, name@) == (match place_of(all.skip(i as int), name@) {
                Some(j) => Some((i + j) as nat),
                None => None,
            }),
        decreases names@.len() - i,
    {
        proof {
            assert(all.skip(i as int)[0] == names@[i as int]@);
            assert(all.skip(i as int).drop_first() =~= all.skip(i + 1));
        }
        if same(names[i].as_str(), name) {
            return Some(i);
        }
        i = i + 1;
    }
    None
}

fn without_answer<T>(result: Result<T, StoreError>) -> (r: Result<(), StoreError>)
    ensures
        match result {
            Ok(_) => r is Ok,
            Err(error) => r == Err::<(), StoreError>(error),
        },
{
    match result {
        Ok(_) => Ok(()),
        Err(error) => Err(error),
    }
}

impl Editor {
    /// A key other than those that close the field.
    pub fn press(self, key: KeyEvent) -> (r: Editor)
        ensures
            r@ == self@.pressed(key),
    {
        let cursor: usize = self.cursor();
        let len: usize = self.buffer().len();
        match key.code {
            KeyCode::Left => {
                let to: usize = if cursor > 0 {
                    cursor - 1
                } else {
                    0
                };
                self.move_to(to)
            },
            KeyCode::Right => {
                let to: usize = if cursor < len {
                    cursor + 1
                } else {
                    len
                };
                self.move_to(to)
            },
            KeyCode::Home => self.move_to(0),
            KeyCode::End => self.move_to(len),
            KeyCode::Backspace => self.backspace(),
            KeyCode::Delete => self.delete(),
            KeyCode::Char(c) => if key.ctrl && c == 'u' {
                self.clear()
            } else if key.ctrl && c == 'r' && self.is_masked() {
                self.toggle_reveal()
            } else {
                self.insert(c)
            },
            _ => self,
        }
    }
}

impl App {
    /// The names of the projects.
    pub fn project_names(&self) -> (r: Vec<String>)
        ensures
            texts(r@) == project_names(self@.projects),
    {
        let mut out: Vec<String> = Vec::new();
        let mut i: usize = 0;
        while i < self.projects.len()
            invariant
                i <= self.projects@.len(),
                texts(out@) =~= project_names(self@.projects).take(i as int),
            decreases self.projects@.len() - i,
        {
            let ghost before = out@;
            out.push(self.projects[i].name.clone());
            proof {
                assert(texts(out@) =~= texts(before).push(self.projects@[i as int].name@));
                assert(project_names(self@.projects)[i as int] == self.projects@[i as int].name@);
            }
            i = i + 1;
        }
        assert(texts(out@) =~= project_names(self@.projects));
        out
    }

    /// The names of the environments.
    pub fn environment_names(&self) -> (r: Vec<String>)
        ensures
            texts(r@) == environment_names(self@.environments),
    {
        let mut out: Vec<String> = Vec::new();
        let mut i: usize = 0;
        while i < self.environments.len()
            invariant
                i <= self.environments@.len(),
                texts(out@) =~= environment_names(self@.environments).take(i as int),
            decreases self.environments@.len() - i,
        {
            let ghost before = out@;
            out.push(self.environments[i].name.clone());
            proof {
                assert(texts(out@) =~= texts(before).push(self.environments@[i as int].name@));
                assert(environment_names(self@.environments)[i as int]
                    == self.environments@[i as int].name@);
            }
            i = i + 1;
        }
        assert(texts(out@) =~= environment_names(self@.environments));
        out
    }

    fn apply_pending_selection(&mut self)
        ensures
            final(self)@ == old(self)@.pending_selected(),
    {
        if let Some(name) = self.pending_active_project.take() {
            if let Some(i) = find_name(&self.project_names(), name.as_str()) {
                self.active_project = i;
            }
        }
        if let Some(name) = self.pending_active_env.take() {
            if let Some(i) = find_name(&self.environment_names(), name.as_str()) {
                self.active_env = i;
            }
        }
    }

    fn carry_out(&mut self, result: Result<(), StoreError>, message: String)
        ensures
            final(self)@ == old(self)@.carried_out(old(self)@.store, unit_view(result), message@),
            final(self)@.store == old(self)@.store,
    {
        proof {
            reveal(AppView::concluded);
            reveal(AppView::carried_out);
        }
        let fine = result.is_ok();
        self.conclude(result, message);
        if fine {
            self.apply_pending_selection();
        }
    }

    fn enter_value(&mut self, key: &str, environment: &str, value: &str, fresh: &Fresh)
        ensures
            final(self)@ == old(self)@.value_entered(key@, environment@, value@, fresh@),
            keeps(old(self)@.store, final(self)@.store),
            old(self)@.store.well_formed() ==> old(self)@.store.promised(
                Some(value_asked(key@, environment@, value@)),
                fresh@,
            ),
    {
        proof {
            reveal(StoreView::promised);
            reveal(AppView::value_entered);
            reveal(AppView::concluded);
            reveal(AppView::carried_out);
        }
        if value.is_empty() {
            let result = self.store.unset_variant_with(key, environment, fresh);
            self.carry_out(result, more_words("Cleared ", key, " for ", environment));
        } else {
            let result = self.store.set_variant_with(key, environment, value, fresh);
            self.carry_out(result, more_words("Set ", key, " for ", environment));
        }
    }

    fn enter_description(&mut self, key: &str, text: &str, fresh: &Fresh)
        ensures
            final(self)@ == old(self)@.description_entered(key@, text@, fresh@),
            keeps(old(self)@.store, final(self)@.store),
            old(self)@.store.well_formed() ==> old(self)@.store.promised(
                Some(description_asked(key@, text@)),
                fresh@,
            ),
    {
        proof {
            reveal(StoreView::promised);
            reveal(AppView::description_entered);
            reveal(AppView::concluded);
            reveal(AppView::carried_out);
        }
        let description: Option<&str> = if text.is_empty() {
            None
        } else {
            Some(text)
        };
        let result = self.store.set_secret_description_with(key, description, fresh);
        self.carry_out(without_answer(result), two_words("Updated description for ", key));
    }

    fn enter_secret(&mut self, name: &str, fresh: &Fresh)
        ensures
            final(self)@ == old(self)@.secret_entered(name@, fresh@),
            keeps(old(self)@.store, final(self)@.store),
            old(self)@.store.well_formed() ==> old(self)@.store.promised(
                Some(addition(Table::Secrets, name@, None)),
                fresh@,
            ),
    {
        proof {
            reveal(StoreView::promised);
            reveal(AppView::secret_entered);
            reveal(AppView::concluded);
            reveal(AppView::carried_out);
        }
        let result = self.store.add_secret_with(name, None, fresh);
        self.carry_out(without_answer(result), two_words("Added secret ", name));
    }

    fn enter_secret_key(&mut self, from: &str, name: &str, fresh: &Fresh)
        ensures
            final(self)@ == old(self)@.secret_key_entered(from@, name@, fresh@),
            keeps(old(self)@.store, final(self)@.store),
            old(self)@.store.well_formed() ==> old(self)@.store.promised(
                Some(renaming(Table::Secrets, from@, name@)),
                fresh@,
            ),
    {
        proof {
            reveal(StoreView::promised);
            reveal(AppView::secret_key_entered);
            reveal(AppView::concluded);
            reveal(AppView::carried_out);
        }
        let result = self.store.rename_secret_with(from, name, fresh);
        self.carry_out(without_answer(result), more_words("Renamed ", from, " to ", name));
    }

    fn enter_project(&mut self, name: &str, fresh: &Fresh)
        ensures
            final(self)@ == old(self)@.project_entered(name@, fresh@),
            keeps(old(self)@.store, final(self)@.store),
            old(self)@.store.well_formed() ==> old(self)@.store.promised(
                Some(addition(Table::Projects, name@, None)),
                fresh@,
            ),
    {
        proof {
            reveal(StoreView::promised);
            reveal(AppView::project_entered);
            reveal(AppView::concluded);
            reveal(AppView::carried_out);
        }
        let result = self.store.add_project_with(name, None, fresh);
        if result.is_ok() {
            self.pending_active_project = Some(name.to_owned());
        }
        self.carry_out(without_answer(result), two_words("Added project ", name));
    }

    fn enter_project_name(&mut self, from: &str, name: &str, fresh: &Fresh)
        ensures
            final(self)@ == old(self)@.project_name_entered(from@, name@, fresh@),
            keeps(old(self)@.store, final(self)@.store),
            old(self)@.store.well_formed() ==> old(self)@.store.promised(
                Some(renaming(Table::Projects, from@, name@)),
                fresh@,
            ),
    {
        proof {
            reveal(StoreView::promised);
            reveal(AppView::project_name_entered);
            reveal(AppView::concluded);
            reveal(AppView::carried_out);
        }
        let result = self.store.rename_project_with(from, name, fresh);
        self.carry_out(without_answer(result), more_words("Renamed project ", from, " to ", name));
    }

    fn enter_environment(&mut self, name: &str, fresh: &Fresh)
        ensures
            final(self)@ == old(self)@.environment_entered(name@, fresh@),
            keeps(old(self)@.store, final(self)@.store),
            old(self)@.store.well_formed() ==> old(self)@.store.promised(
                Some(addition(Table::Environments, name@, None)),
                fresh@,
            ),
    {
        proof {
            reveal(StoreView::promised);
            reveal(AppView::environment_entered);
            reveal(AppView::concluded);
            reveal(AppView::carried_out);
        }
        let result = self.store.add_environment_with(name, None, fresh);
        if result.is_ok() {
            self.pending_active_env = Some(name.to_owned());
        }
        self.carry_out(without_answer(result), two_words("Added environment ", name));
    }

    fn enter_environment_name(&mut self, from: &str, name: &str, fresh: &Fresh)
        ensures
            final(self)@ == old(self)@.environment_name_entered(from@, name@, fresh@),
            keeps(old(self)@.store, final(self)@.store),
            old(self)@.store.well_formed() ==> old(self)@.store.promised(
                Some(renaming(Table::Environments, from@, name@)),
                fresh@,
            ),
    {
        proof {
            reveal(StoreView::promised);
            reveal(AppView::environment_name_entered);
            reveal(AppView::concluded);
            reveal(AppView::carried_out);
        }
        let result = self.store.rename_environment_with(from, name, fresh);
        self.carry_out(
            without_answer(result),
            more_words("Renamed environment ", from, " to ", name),
        );
    }

    fn enter_name(&mut self, target: &EditTarget<String>, name: &str, fresh: &Fresh)
        ensures
            final(self)@ == old(self)@.name_entered(target@, name@, fresh@),
            keeps(old(self)@.store, final(self)@.store),
            old(self)@.store.well_formed() ==> old(self)@.store.promised(
                naming_asked(target@, name@),
                fresh@,
            ),
    {
        proof {
            reveal(StoreView::promised);
        }
        if name.is_empty() {
            self.complain("Value cannot be empty.");
            return;
        }
        match target {
            EditTarget::AddSecret => self.enter_secret(name, fresh),
            EditTarget::RenameSecret { from } => self.enter_secret_key(from.as_str(), name, fresh),
            EditTarget::AddProject => self.enter_project(name, fresh),
            EditTarget::RenameProject { from } => self.enter_project_name(
                from.as_str(),
                name,
                fresh,
            ),
            EditTarget::AddEnvironment => self.enter_environment(name, fresh),
            EditTarget::RenameEnvironment { from } => self.enter_environment_name(
                from.as_str(),
                name,
                fresh,
            ),
            _ => {},
        }
    }

    /// Puts the text of a field to use.
    pub fn commit_editor_with(&mut self, editor: &Editor, fresh: &Fresh)
        ensures
            final(self)@ == old(self)@.committed(editor@, fresh@),
            keeps(old(self)@.store, final(self)@.store),
            old(self)@.store.well_formed() ==> old(self)@.store.promised(
                editor@.asked(),
                fresh@,
            ),
    {
        proof {
            reveal(StoreView::promised);
        }
        let value = editor.value();
        let text = trim(value.as_str());
        match editor.target() {
            EditTarget::Search => {
                self.filter = value;
                self.select_row(0);
            },
            EditTarget::SecretValue { key, environment } => self.enter_value(
                key.as_str(),
                environment.as_str(),
                value.as_str(),
                fresh,
            ),
            EditTarget::Description { key } => self.enter_description(
                key.as_str(),
                text.as_str(),
                fresh,
            ),
            target => self.enter_name(target, text.as_str(), fresh),
        }
    }

    /// Puts the text of a field to use.
    pub fn commit_editor(&mut self, editor: &Editor)
        ensures
            exists|fresh: FreshView| #[trigger]
                fresh.valid() && final(self)@ == old(self)@.committed(editor@, fresh) && (old(
                    self,
                )@.store.well_formed() ==> old(self)@.store.promised(editor@.asked(), fresh)),
            keeps(old(self)@.store, final(self)@.store),
    {
        let fresh = Fresh::draw();
        self.commit_editor_with(editor, &fresh);
    }

    fn keep_field(&mut self, editor: Editor)
        ensures
            final(self)@ == old(self)@.field_kept(editor@),
    {
        if let EditTarget::Search = editor.target() {
            self.filter = editor.value();
            self.select_row(0);
        }
        self.editor = Some(editor);
    }

    pub(crate) fn editor_key(&mut self, key: KeyEvent, fresh: &Fresh)
        ensures
            final(self)@ == old(self)@.edited(key, fresh@),
            keeps(old(self)@.store, final(self)@.store),
            old(self)@.store.well_formed() ==> old(self)@.store.promised(
                old(self)@.editing_asked(key),
                fresh@,
            ),
    {
        proof {
            reveal(StoreView::promised);
        }
        let editor = match self.editor.take() {
            Some(editor) => editor,
            None => {
                self.mode = Mode::Browse;
                return;
            },
        };
        match key.code {
            KeyCode::Esc => {
                self.mode = editor.return_to();
            },
            KeyCode::Enter => {
                self.commit_editor_with(&editor, fresh);
                self.mode = editor.return_to();
            },
            _ => self.keep_field(editor.press(key)),
        }
    }
}

} // verus!
