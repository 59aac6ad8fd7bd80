//! The state of the terminal interface: an active project and environment, and a table in
//! which every secret is a row and every environment a column.

use crate::domain::{Environment, EnvironmentView, Project, ProjectView, Secret, SecretView};
use crate::ids::Id;
use crate::order::views;
use crate::store::Store;
use crate::tables::StoreView;
use crate::text::opt_text;
use vstd::prelude::*;

verus! {

/// A secret with its values, in the order of their environments' identifiers.
#[derive(Debug)]
pub struct SecretRow {
    pub secret: Secret,
    pub variants: Vec<(Id, String)>,
}

/// Values by environment, as character sequences.
pub open spec fn variant_views(variants: Seq<(Id, String)>) -> Seq<(Id, Seq<char>)> {
    variants.map_values(|v: (Id, String)| (v.0, v.1@))
}

/// `SecretRow` over views.
pub struct SecretRowView {
    pub secret: SecretView,
    pub variants: Seq<(Id, Seq<char>)>,
}

impl View for SecretRow {
    type V = SecretRowView;

    open spec fn view(&self) -> SecretRowView {
        SecretRowView { secret: self.secret@, variants: variant_views(self.variants@) }
    }
}

/// The value for an environment; of two the later counts.
pub open spec fn value_in(variants: Seq<(Id, Seq<char>)>, environment_id: Id) -> Option<Seq<char>>
    decreases variants.len(),
{
    if variants.len() == 0 {
        None
    } else if variants.last().0 == environment_id {
        Some(variants.last().1)
    } else {
        value_in(variants.drop_last(), environment_id)
    }
}

impl SecretRow {
    /// The value for an environment.
    pub fn value(&self, environment_id: Id) -> (r: Option<&String>)
        ensures
            match r {
                Some(value) => value_in(self@.variants, environment_id) == Some(value@),
                None => value_in(self@.variants, environment_id) is None,
            },
    {
        let ghost all = self@.variants;
        let mut n: usize = self.variants.len();
        assert(all.take(n as int) =~= all);
        while n > 0
            invariant
                n <= self.variants@.len(),
                all == variant_views(self.variants@),
                value_in(all.take(n as int), environment_id) == value_in(all, environment_id),
            decreases n,
        {
            assert(all.take(n as int).last() == all[n - 1]);
            assert(all.take(n as int).drop_last() =~= all.take(n - 1));
            if self.variants[n - 1].0 == environment_id {
                return Some(&self.variants[n - 1].1);
            }
            n = n - 1;
        }
        None
    }
}

/// What the interface is doing.
#[derive(Debug, Clone, Copy, PartialEq, Eq, Structural)]
pub enum Mode {
    Browse,
    Detail,
    Editor,
    Switcher,
    Confirm,
    Help,
}

/// How a message is meant.
#[derive(Debug, Clone, Copy, PartialEq, Eq, Structural)]
pub enum Level {
    Info,
    Success,
    Error,
}

/// The message in the status line.
#[derive(Debug)]
pub struct Status {
    pub text: String,
    pub level: Level,
}

/// `Status` with its text as a character sequence.
pub struct StatusView {
    pub text: Seq<char>,
    pub level: Level,
}

impl View for Status {
    type V = StatusView;

    open spec fn view(&self) -> StatusView {
        StatusView { text: self.text@, level: self.level }
    }
}

/// A message about something that went well.
pub open spec fn fine(text: Seq<char>) -> StatusView {
    StatusView { text, level: Level::Success }
}

/// A message about something that went wrong.
pub open spec fn wrong(text: Seq<char>) -> StatusView {
    StatusView { text, level: Level::Error }
}

impl Status {
    /// No message.
    pub fn idle() -> (r: Status)
        ensures
            r@ == (StatusView { text: Seq::empty(), level: Level::Info }),
    {
        let text = String::new();
        assert(text@ =~= Seq::empty());
        Status { text, level: Level::Info }
    }

    /// A message about something that went well.
    pub fn ok(text: String) -> (r: Status)
        ensures
            r@ == fine(text@),
    {
        Status { text, level: Level::Success }
    }

    /// A message about something that went wrong.
    pub fn error(text: String) -> (r: Status)
        ensures
            r@ == wrong(text@),
    {
        Status { text, level: Level::Error }
    }
}

/// What an input field is for, over the type of its texts.
#[derive(Debug)]
pub enum EditTarget<S> {
    /// A live search.
    Search,
    /// The value of a secret in an environment; none clears it.
    SecretValue { key: S, environment: S },
    AddSecret,
    RenameSecret { from: S },
    Description { key: S },
    AddProject,
    RenameProject { from: S },
    AddEnvironment,
    RenameEnvironment { from: S },
}

impl View for EditTarget<String> {
    type V = EditTarget<Seq<char>>;

    open spec fn view(&self) -> EditTarget<Seq<char>> {
        match *self {
            EditTarget::Search => EditTarget::Search,
            EditTarget::SecretValue { key, environment } => EditTarget::SecretValue {
                key: key@,
                environment: environment@,
            },
            EditTarget::AddSecret => EditTarget::AddSecret,
            EditTarget::RenameSecret { from } => EditTarget::RenameSecret { from: from@ },
            EditTarget::Description { key } => EditTarget::Description { key: key@ },
            EditTarget::AddProject => EditTarget::AddProject,
            EditTarget::RenameProject { from } => EditTarget::RenameProject { from: from@ },
            EditTarget::AddEnvironment => EditTarget::AddEnvironment,
            EditTarget::RenameEnvironment { from } => EditTarget::RenameEnvironment { from: from@ },
        }
    }
}

/// An input field with a cursor.
#[derive(Debug)]
pub struct Editor {
    target: EditTarget<String>,
    title: String,
    buffer: Vec<char>,
    cursor: usize,
    masked: bool,
    reveal: bool,
    return_to: Mode,
}

/// `Editor` over views.
#[verifier::ext_equal]
pub struct EditorView {
    pub target: EditTarget<Seq<char>>,
    pub title: Seq<char>,
    pub buffer: Seq<char>,
    pub cursor: nat,
    pub masked: bool,
    pub reveal: bool,
    pub return_to: Mode,
}

impl View for Editor {
    type V = EditorView;

    closed spec fn view(&self) -> EditorView {
        EditorView {
            target: self.target@,
            title: self.title@,
            buffer: self.buffer@,
            cursor: self.cursor as nat,
            masked: self.masked,
            reveal: self.reveal,
            return_to: self.return_to,
        }
    }
}

/// A field with a text and the cursor at its end.
pub open spec fn new_editor(
    target: EditTarget<Seq<char>>,
    title: Seq<char>,
    initial: Seq<char>,
    masked: bool,
) -> EditorView {
    EditorView {
        target,
        title,
        buffer: initial,
        cursor: initial.len(),
        masked,
        reveal: false,
        return_to: Mode::Browse,
    }
}

impl EditorView {
    /// Whether the cursor is in the text or at its end.
    pub open spec fn valid(self) -> bool {
        self.cursor <= self.buffer.len()
    }

    /// A character typed at the cursor.
    pub open spec fn inserted(self, ch: char) -> EditorView {
        EditorView {
            buffer: self.buffer.insert(self.cursor as int, ch),
            cursor: self.cursor + 1,
            ..self
        }
    }

    /// The character before the cursor erased.
    pub open spec fn erased_before(self) -> EditorView {
        if self.cursor > 0 {
            EditorView {
                buffer: self.buffer.remove(self.cursor - 1),
                cursor: (self.cursor - 1) as nat,
                ..self
            }
        } else {
            self
        }
    }

    /// The character at the cursor erased.
    pub open spec fn erased_at(self) -> EditorView {
        if self.cursor < self.buffer.len() {
            EditorView { buffer: self.buffer.remove(self.cursor as int), ..self }
        } else {
            self
        }
    }
}

impl Editor {
    #[verifier::type_invariant]
    spec fn cursor_in_text(self) -> bool {
        self.cursor <= self.buffer@.len()
    }

    /// A field with a text and the cursor at its end.
    pub fn new(target: EditTarget<String>, title: &str, initial: &str, masked: bool) -> (r: Editor)
        ensures
            r@ == new_editor(target@, title@, initial@, masked),
    {
        let buffer = crate::text::chars_of(initial);
        let cursor: usize = buffer.len();
        Editor {
            target,
            title: title.to_owned(),
            buffer,
            cursor,
            masked,
            reveal: false,
            return_to: Mode::Browse,
        }
    }

    /// The field with another mode to go back to.
    pub fn returning_to(self, mode: Mode) -> (r: Editor)
        ensures
            r@ == (EditorView { return_to: mode, ..self@ }),
    {
        proof {
            use_type_invariant(&self);
        }
        Editor {
            target: self.target,
            title: self.title,
            buffer: self.buffer,
            cursor: self.cursor,
            masked: self.masked,
            reveal: self.reveal,
            return_to: mode,
        }
    }

    /// What the field is for.
    pub fn target(&self) -> (r: &EditTarget<String>)
        ensures
            r@ == self@.target,
    {
        &self.target
    }

    /// The title.
    pub fn title(&self) -> (r: &str)
        ensures
            r@ == self@.title,
    {
        self.title.as_str()
    }

    /// The characters.
    pub fn buffer(&self) -> (r: &Vec<char>)
        ensures
            r@ == self@.buffer,
    {
        &self.buffer
    }

    /// The place of the cursor.
    pub fn cursor(&self) -> (r: usize)
        ensures
            r == self@.cursor,
            self@.valid(),
    {
        proof {
            use_type_invariant(self);
        }
        self.cursor
    }

    /// Whether the text is hidden until it is revealed.
    pub fn is_masked(&self) -> (r: bool)
        ensures
            r == self@.masked,
    {
        self.masked
    }

    /// Whether the text is revealed.
    pub fn is_revealed(&self) -> (r: bool)
        ensures
            r == self@.reveal,
    {
        self.reveal
    }

    /// The mode to go back to.
    pub fn return_to(&self) -> (r: Mode)
        ensures
            r == self@.return_to,
    {
        self.return_to
    }

    /// The text.
    pub fn value(&self) -> (r: String)
        ensures
            r@ == self@.buffer,
    {
        crate::text::text_of(&self.buffer)
    }

    fn rebuilt(self, buffer: Vec<char>, cursor: usize, reveal: bool) -> (r: Editor)
        requires
            cursor <= buffer@.len(),
        ensures
            r@ == (EditorView { buffer: buffer@, cursor: cursor as nat, reveal, ..self@ }),
    {
        Editor {
            target: self.target,
            title: self.title,
            buffer,
            cursor,
            masked: self.masked,
            reveal,
            return_to: self.return_to,
        }
    }

    /// Types a character at the cursor.
    pub fn insert(self, ch: char) -> (r: Editor)
        ensures
            r@ == self@.inserted(ch),
    {
        proof {
            use_type_invariant(&self);
        }
        let mut buffer = self.buffer.clone();
        let cursor: usize = self.cursor;
        let reveal = self.reveal;
        buffer.insert(cursor, ch);
        assert(cursor + 1 <= buffer.len());
        self.rebuilt(buffer, cursor + 1, reveal)
    }

    /// Erases the character before the cursor.
    pub fn backspace(self) -> (r: Editor)
        ensures
            r@ == self@.erased_before(),
    {
        proof {
            use_type_invariant(&self);
        }
        if self.cursor > 0 {
            let mut buffer = self.buffer.clone();
            let cursor: usize = self.cursor - 1;
            let reveal = self.reveal;
            buffer.remove(cursor);
            self.rebuilt(buffer, cursor, reveal)
        } else {
            self
        }
    }

    /// Erases the character at the cursor.
    pub fn delete(self) -> (r: Editor)
        ensures
            r@ == self@.erased_at(),
    {
        proof {
            use_type_invariant(&self);
        }
        if self.cursor < self.buffer.len() {
            let mut buffer = self.buffer.clone();
            let cursor: usize = self.cursor;
            let reveal = self.reveal;
            buffer.remove(cursor);
            self.rebuilt(buffer, cursor, reveal)
        } else {
            self
        }
    }

    /// Moves the cursor, at most to the end of the text.
    pub fn move_to(self, cursor: usize) -> (r: Editor)
        ensures
            r@ == (EditorView {
                cursor: if cursor <= self@.buffer.len() {
                    cursor as nat
                } else {
                    self@.buffer.len()
                },
                ..self@
            }),
    {
        let buffer = self.buffer.clone();
        let reveal = self.reveal;
        let place: usize = if cursor <= buffer.len() {
            cursor
        } else {
            buffer.len()
        };
        self.rebuilt(buffer, place, reveal)
    }

    /// Erases the text.
    pub fn clear(self) -> (r: Editor)
        ensures
            r@ == (EditorView { buffer: Seq::empty(), cursor: 0, ..self@ }),
    {
        let reveal = self.reveal;
        let buffer: Vec<char> = Vec::new();
        assert(buffer@ =~= Seq::empty());
        self.rebuilt(buffer, 0, reveal)
    }

    /// Reveals the text or hides it again.
    pub fn toggle_reveal(self) -> (r: Editor)
        ensures
            r@ == (EditorView { reveal: !self@.reveal, ..self@ }),
    {
        proof {
            use_type_invariant(&self);
        }
        let buffer = self.buffer.clone();
        let cursor: usize = self.cursor;
        let reveal = self.reveal;
        self.rebuilt(buffer, cursor, !reveal)
    }
}

/// Erasing undoes typing, and the cursor stays in the text.
pub proof fn law_erasing_undoes_typing(editor: EditorView, ch: char)
    requires
        editor.valid(),
    ensures
        editor.inserted(ch).valid(),
        editor.inserted(ch).erased_before() == editor,
        editor.erased_before().valid(),
        editor.erased_at().valid(),
{
    let after = editor.inserted(ch).erased_before();
    assert(after.buffer =~= editor.buffer);
}

/// What a switcher chooses.
#[derive(Debug, Clone, Copy, PartialEq, Eq, Structural)]
pub enum SwitcherKind {
    Project,
    Environment,
}

/// A list of names to choose from.
#[derive(Debug)]
pub struct Switcher {
    pub kind: SwitcherKind,
    pub filter: String,
    pub selected: usize,
}

/// `Switcher` with its text as a character sequence.
#[verifier::ext_equal]
pub struct SwitcherView {
    pub kind: SwitcherKind,
    pub filter: Seq<char>,
    pub selected: nat,
}

impl View for Switcher {
    type V = SwitcherView;

    open spec fn view(&self) -> SwitcherView {
        SwitcherView {
            kind: self.kind,
            filter: self.filter@,
            selected: self.selected as nat,
        }
    }
}

/// What is about to be deleted, over the type of its name.
#[derive(Debug)]
pub enum ConfirmTarget<S> {
    Secret(S),
    Project(S),
    Environment(S),
}

impl View for ConfirmTarget<String> {
    type V = ConfirmTarget<Seq<char>>;

    open spec fn view(&self) -> ConfirmTarget<Seq<char>> {
        match *self {
            ConfirmTarget::Secret(key) => ConfirmTarget::Secret(key@),
            ConfirmTarget::Project(name) => ConfirmTarget::Project(name@),
            ConfirmTarget::Environment(name) => ConfirmTarget::Environment(name@),
        }
    }
}

/// A value taken from one environment to be put into another.
#[derive(Debug)]
pub struct Yank {
    pub source_env: String,
    pub value: String,
}

/// `Yank` with its texts as character sequences.
pub struct YankView {
    pub source_env: Seq<char>,
    pub value: Seq<char>,
}

impl View for Yank {
    type V = YankView;

    open spec fn view(&self) -> YankView {
        YankView { source_env: self.source_env@, value: self.value@ }
    }
}

/// The values of one secret, environment by environment.
#[derive(Debug)]
pub struct Detail {
    pub secret_key: String,
    pub selected_env: usize,
    pub reveal: bool,
    pub yank: Option<Yank>,
}

/// `Detail` over views.
#[verifier::ext_equal]
pub struct DetailView {
    pub secret_key: Seq<char>,
    pub selected_env: nat,
    pub reveal: bool,
    pub yank: Option<YankView>,
}

impl View for Detail {
    type V = DetailView;

    open spec fn view(&self) -> DetailView {
        DetailView {
            secret_key: self.secret_key@,
            selected_env: self.selected_env as nat,
            reveal: self.reveal,
            yank: opt_view(self.yank),
        }
    }
}

/// The view of what is there.
pub open spec fn opt_view<T: View>(x: Option<T>) -> Option<T::V> {
    match x {
        Some(x) => Some(x@),
        None => None,
    }
}

/// The interface.
#[derive(Debug)]
pub struct App {
    pub store: Store,
    pub projects: Vec<Project>,
    pub environments: Vec<Environment>,
    pub rows: Vec<SecretRow>,
    pub active_project: usize,
    pub active_env: usize,
    pub selected_row: usize,
    pub filter: String,
    pub assigned_only: bool,
    pub reveal_cell: bool,
    pub sync_ops: usize,
    pub mode: Mode,
    pub editor: Option<Editor>,
    pub switcher: Option<Switcher>,
    pub confirm: Option<ConfirmTarget<String>>,
    pub detail: Option<Detail>,
    pub status: Status,
    pub pending_active_project: Option<String>,
    pub pending_active_env: Option<String>,
    pub should_quit: bool,
}

/// `App` over views.
#[verifier::ext_equal]
pub struct AppView {
    pub store: StoreView,
    pub projects: Seq<ProjectView>,
    pub environments: Seq<EnvironmentView>,
    pub rows: Seq<SecretRowView>,
    pub active_project: nat,
    pub active_env: nat,
    pub selected_row: nat,
    pub filter: Seq<char>,
    pub assigned_only: bool,
    pub reveal_cell: bool,
    pub sync_ops: nat,
    pub mode: Mode,
    pub editor: Option<EditorView>,
    pub switcher: Option<SwitcherView>,
    pub confirm: Option<ConfirmTarget<Seq<char>>>,
    pub detail: Option<DetailView>,
    pub status: StatusView,
    pub pending_active_project: Option<Seq<char>>,
    pub pending_active_env: Option<Seq<char>>,
    pub should_quit: bool,
}

impl View for App {
    type V = AppView;

    open spec fn view(&self) -> AppView {
        AppView {
            store: self.store@,
            projects: views(self.projects@),
            environments: views(self.environments@),
            rows: views(self.rows@),
            active_project: self.active_project as nat,
            active_env: self.active_env as nat,
            selected_row: self.selected_row as nat,
            filter: self.filter@,
            assigned_only: self.assigned_only,
            reveal_cell: self.reveal_cell,
            sync_ops: self.sync_ops as nat,
            mode: self.mode,
            editor: opt_view(self.editor),
            switcher: opt_view(self.switcher),
            confirm: opt_view(self.confirm),
            detail: opt_view(self.detail),
            status: self.status@,
            pending_active_project: opt_text(self.pending_active_project),
            pending_active_env: opt_text(self.pending_active_env),
            should_quit: self.should_quit,
        }
    }
}

} // verus!
