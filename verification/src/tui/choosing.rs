//! What keys do in the lists of projects and environments and in the question before a
//! deletion.

use crate::change::ChangeView;
use crate::store::{removal, Fresh, FreshView};
use crate::tables::{StoreView, Table};
use crate::text::{
    chars_of, find_chars, lower_chars, lowered, occurs_in, slice_of, text_of, texts,
};
use crate::tui::editing::{environment_names, project_names};
use crate::tui::select::{clamp_index, clamped};
use crate::tui::state::{
    new_editor, App, AppView, ConfirmTarget, EditTarget, Editor, Mode, Switcher, SwitcherKind,
    SwitcherView,
};
use crate::tui::update::{two_words, KeyCode, KeyEvent};
use crate::wellformed::keeps;
use vstd::prelude::*;

verus! {

/// The names, among the first `n`, that hold a search text, each with its place.
pub open spec fn matching(names: Seq<Seq<char>>, query: Seq<char>, n: nat) -> Seq<
    (usize, Seq<char>),
>
    decreases n,
{
    if n == 0 {
        Seq::empty()
    } else {
        let rest = matching(names, query, (n - 1) as nat);
        if query.len() == 0 || occurs_in(query, lowered(names[n - 1])) {
            rest.push(((n - 1) as usize, names[n - 1]))
        } else {
            rest
        }
    }
}

/// Names with their places, as character sequences.
pub open spec fn item_views(items: Seq<(usize, String)>) -> Seq<(usize, Seq<char>)> {
    items.map_values(|item: (usize, String)| (item.0, item.1@))
}

/// The field for the name of something new.
pub open spec fn adding(kind: SwitcherKind) -> (EditTarget<Seq<char>>, Seq<char>) {
    match kind {
        SwitcherKind::Project => (EditTarget::AddProject, "New project"@),
        SwitcherKind::Environment => (EditTarget::AddEnvironment, "New environment"@),
    }
}

/// The field for another name.
pub open spec fn renaming(kind: SwitcherKind, name: Seq<char>) -> (
    EditTarget<Seq<char>>,
    Seq<char>,
) {
    match kind {
        SwitcherKind::Project => (EditTarget::RenameProject { from: name }, "Rename project"@),
        SwitcherKind::Environment => (
            EditTarget::RenameEnvironment { from: name },
            "Rename environment"@,
        ),
    }
}

/// What a deletion would take away.
pub open spec fn deleting(kind: SwitcherKind, name: Seq<char>) -> ConfirmTarget<Seq<char>> {
    match kind {
        SwitcherKind::Project => ConfirmTarget::Project(name),
        SwitcherKind::Environment => ConfirmTarget::Environment(name),
    }
}

/// The change that a deletion asks for.
pub open spec fn deletion_asked(target: Option<ConfirmTarget<Seq<char>>>) -> Option<ChangeView> {
    match target {
        None => None,
        Some(ConfirmTarget::Secret(key)) => Some(removal(Table::Secrets, key, false)),
        Some(ConfirmTarget::Project(name)) => Some(removal(Table::Projects, name, false)),
        Some(ConfirmTarget::Environment(name)) => Some(removal(Table::Environments, name, true)),
    }
}

impl AppView {
    /// The change that a key in the question before a deletion asks for.
    pub open spec fn confirmation_asked(self, code: KeyCode) -> Option<ChangeView> {
        if code == KeyCode::Char('y') {
            deletion_asked(self.confirm)
        } else {
            None
        }
    }

    /// The names to choose from.
    pub open spec fn names(self, kind: SwitcherKind) -> Seq<Seq<char>> {
        match kind {
            SwitcherKind::Project => project_names(self.projects),
            SwitcherKind::Environment => environment_names(self.environments),
        }
    }

    /// The names that a switcher lists, each with its place.
    pub open spec fn items(self, switcher: SwitcherView) -> Seq<(usize, Seq<char>)> {
        let names = self.names(switcher.kind);
        matching(names, lowered(switcher.filter), names.len())
    }

    /// The name that a switcher has selected.
    pub open spec fn chosen(self, switcher: SwitcherView) -> Option<(usize, Seq<char>)> {
        let items = self.items(switcher);
        if switcher.selected < items.len() {
            Some(items[switcher.selected as int])
        } else {
            None
        }
    }

    /// The switcher stays open, its selection inside the list.
    pub open spec fn switcher_kept(self, switcher: SwitcherView) -> AppView {
        AppView {
            switcher: Some(
                SwitcherView {
                    selected: clamped(switcher.selected, self.items(switcher).len()),
                    ..switcher
                },
            ),
            ..self
        }
    }

    /// The selected name becomes active.
    pub open spec fn activated(self, switcher: SwitcherView) -> AppView {
        let after = match self.chosen(switcher) {
            Some(item) => AppView {
                active_project: match switcher.kind {
                    SwitcherKind::Project => item.0 as nat,
                    SwitcherKind::Environment => self.active_project,
                },
                active_env: match switcher.kind {
                    SwitcherKind::Project => self.active_env,
                    SwitcherKind::Environment => item.0 as nat,
                },
                selected_row: 0,
                reveal_cell: false,
                ..self
            },
            None => self,
        };
        AppView { mode: Mode::Browse, ..after }
    }

    /// A letter typed with control in a switcher: something new, another name, a deletion.
    pub open spec fn switcher_command(self, switcher: SwitcherView, c: char) -> AppView {
        if c == 'n' {
            let (target, title) = adding(switcher.kind);
            self.editing(new_editor(target, title, Seq::empty(), false))
        } else {
            match self.chosen(switcher) {
                None => self,
                Some(item) => if c == 'r' {
                    let (target, title) = renaming(switcher.kind, item.1);
                    self.editing(new_editor(target, title, item.1, false))
                } else {
                    AppView {
                        confirm: Some(deleting(switcher.kind, item.1)),
                        mode: Mode::Confirm,
                        ..self
                    }
                },
            }
        }
    }

    /// A key in a switcher.
    pub open spec fn switched(self, key: KeyEvent) -> AppView {
        match self.switcher {
            None => AppView { mode: Mode::Browse, ..self },
            Some(switcher) => {
                let closed = AppView { switcher: None, ..self };
                let len = self.items(switcher).len();
                let last = if len > 0 {
                    (len - 1) as nat
                } else {
                    0
                };
                match key.code {
                    KeyCode::Esc => AppView { mode: Mode::Browse, ..closed },
                    KeyCode::Up => closed.switcher_kept(
                        SwitcherView {
                            selected: if switcher.selected > 0 {
                                (switcher.selected - 1) as nat
                            } else {
                                0
                            },
                            ..switcher
                        },
                    ),
                    KeyCode::Down => closed.switcher_kept(
                        SwitcherView {
                            selected: if switcher.selected < last {
                                switcher.selected + 1
                            } else {
                                last
                            },
                            ..switcher
                        },
                    ),
                    KeyCode::Enter => closed.activated(switcher),
                    KeyCode::Backspace => closed.switcher_kept(
                        SwitcherView {
                            filter: if switcher.filter.len() > 0 {
                                switcher.filter.drop_last()
                            } else {
                                switcher.filter
                            },
                            selected: 0,
                            ..switcher
                        },
                    ),
                    KeyCode::Char(c) => if key.ctrl && (c == 'n' || c == 'r' || c == 'd') {
                        closed.switcher_command(switcher, c)
                    } else {
                        closed.switcher_kept(
                            SwitcherView {
                                filter: switcher.filter.push(c),
                                selected: 0,
                                ..switcher
                            },
                        )
                    },
                    _ => closed.switcher_kept(switcher),
                }
            },
        }
    }

    /// What was asked about is deleted; an environment with its values.
    pub open spec fn deleted(
        self,
        target: Option<ConfirmTarget<Seq<char>>>,
        fresh: FreshView,
    ) -> AppView {
        match target {
            None => self,
            Some(ConfirmTarget::Secret(key)) => {
                let (t, r) = self.store.record_removed(Table::Secrets, key, fresh);
                self.concluded(t, r, "Deleted secret "@ + key)
            },
            Some(ConfirmTarget::Project(name)) => {
                let (t, r) = self.store.record_removed(Table::Projects, name, fresh);
                self.concluded(t, r, "Deleted project "@ + name)
            },
            Some(ConfirmTarget::Environment(name)) => {
                let (t, r) = self.store.environment_removed(name, true, fresh);
                self.concluded(t, r, "Deleted environment "@ + name)
            },
        }
    }

    /// A key in the question before a deletion.
    pub open spec fn confirmed(self, code: KeyCode, fresh: FreshView) -> AppView {
        if code == KeyCode::Char('y') {
            AppView {
                mode: Mode::Browse,
                ..(AppView { confirm: None, ..self }).deleted(self.confirm, fresh)
            }
        } else if code == KeyCode::Char('n') || code == KeyCode::Esc {
            AppView { confirm: None, mode: Mode::Browse, ..self }
        } else {
            self
        }
    }
}

/// What a switcher lists are places in the list of names, with the names at these places.
pub proof fn lemma_matching_inside(names: Seq<Seq<char>>, query: Seq<char>, n: nat)
    requires
        n <= names.len() <= usize::MAX,
    ensures
        matching(names, query, n).len() <= n,
        forall|j: int|
            0 <= j < matching(names, query, n).len() ==> {
                let item = #[trigger] matching(names, query, n)[j];
                item.0 < n && item.1 == names[item.0 as int]
            },
    decreases n,
{
    if n > 0 {
        lemma_matching_inside(names, query, (n - 1) as nat);
    }
}

fn items_among(names: &Vec<String>, filter: &str) -> (r: Vec<(usize, String)>)
    ensures
        item_views(r@) == matching(texts(names@), lowered(filter@), names@.len()),
{
    let query = lower_chars(filter);
    let ghost all = texts(names@);
    let mut out: Vec<(usize, String)> = Vec::new();
    let mut i: usize = 0;
    assert(item_views(out@) =~= Seq::empty());
    while i < names.len()
        invariant
            i <= names@.len(),
            all == texts(names@),
            query@ == lowered(filter@),
            item_views(out@) == matching(all, lowered(filter@), i as nat),
        decreases names@.len() - i,
    {
        let ghost before = out@;
        assert(all[i as int] == names@[i as int]@);
        if query.len() == 0 || find_chars(&query, &lower_chars(names[i].as_str())).is_some() {
            out.push((i, names[i].clone()));
            assert(item_views(out@) =~= item_views(before).push((i, all[i as int])));
        }
        i = i + 1;
    }
    out
}

impl App {
    /// The names that a switcher lists, each with its place.
    pub fn switcher_items(&self, switcher: &Switcher) -> (r: Vec<(usize, String)>)
        ensures
            item_views(r@) == self@.items(switcher@),
    {
        let names: Vec<String> = match switcher.kind {
            SwitcherKind::Project => self.project_names(),
            SwitcherKind::Environment => self.environment_names(),
        };
        assert(texts(names@).len() == names@.len());
        items_among(&names, switcher.filter.as_str())
    }

    fn chosen_item(&self, switcher: &Switcher) -> (r: Option<(usize, String)>)
        ensures
            match r {
                Some(item) => self@.chosen(switcher@) == Some((item.0, item.1@)),
                None => self@.chosen(switcher@) is None,
            },
    {
        let items = self.switcher_items(switcher);
        assert(item_views(items@).len() == items@.len());
        if switcher.selected < items.len() {
            let item = &items[switcher.selected];
            Some((item.0, item.1.clone()))
        } else {
            None
        }
    }

    fn keep_switcher(&mut self, switcher: Switcher)
        ensures
            final(self)@ == old(self)@.switcher_kept(switcher@),
    {
        let items = self.switcher_items(&switcher);
        assert(item_views(items@).len() == items@.len());
        let selected: usize = clamp_index(switcher.selected, items.len());
        self.switcher = Some(
            Switcher { kind: switcher.kind, filter: switcher.filter, selected },
        );
    }

    fn activate(&mut self, switcher: &Switcher)
        ensures
            final(self)@ == old(self)@.activated(switcher@),
    {
        if let Some((place, _)) = self.chosen_item(switcher) {
            match switcher.kind {
                SwitcherKind::Project => {
                    self.active_project = place;
                },
                SwitcherKind::Environment => {
                    self.active_env = place;
                },
            }
            self.selected_row = 0;
            self.reveal_cell = false;
        }
        self.mode = Mode::Browse;
    }

    fn run_switcher_command(&mut self, switcher: &Switcher, c: char)
        ensures
            final(self)@ == old(self)@.switcher_command(switcher@, c),
    {
        if c == 'n' {
            let (target, title): (EditTarget<String>, &str) = match switcher.kind {
                SwitcherKind::Project => (EditTarget::AddProject, "New project"),
                SwitcherKind::Environment => (EditTarget::AddEnvironment, "New environment"),
            };
            proof {
                reveal_strlit("");
                assert(""@ =~= Seq::empty());
            }
            self.open_editor(Editor::new(target, title, "", false));
            return;
        }
        let name: String = match self.chosen_item(switcher) {
            Some((_, name)) => name,
            None => return,
        };
        if c == 'r' {
            let (target, title): (EditTarget<String>, &str) = match switcher.kind {
                SwitcherKind::Project => (
                    EditTarget::RenameProject { from: name.clone() },
                    "Rename project",
                ),
                SwitcherKind::Environment => (
                    EditTarget::RenameEnvironment { from: name.clone() },
                    "Rename environment",
                ),
            };
            self.open_editor(Editor::new(target, title, name.as_str(), false));
        } else {
            self.confirm = Some(
                match switcher.kind {
                    SwitcherKind::Project => ConfirmTarget::Project(name),
                    SwitcherKind::Environment => ConfirmTarget::Environment(name),
                },
            );
            self.mode = Mode::Confirm;
        }
    }

    pub(crate) fn switcher_key(&mut self, key: KeyEvent)
        ensures
            final(self)@ == old(self)@.switched(key),
    {
        let switcher = match self.switcher.take() {
            Some(switcher) => switcher,
            None => {
                self.mode = Mode::Browse;
                return;
            },
        };
        let kind = switcher.kind;
        match key.code {
            KeyCode::Esc => {
                self.mode = Mode::Browse;
            },
            KeyCode::Up => {
                let selected: usize = if switcher.selected > 0 {
                    switcher.selected - 1
                } else {
                    0
                };
                self.keep_switcher(Switcher { kind, filter: switcher.filter, selected });
            },
            KeyCode::Down => {
                let items = self.switcher_items(&switcher);
                assert(item_views(items@).len() == items@.len());
                let last: usize = if items.len() > 0 {
                    items.len() - 1
                } else {
                    0
                };
                let selected: usize = if switcher.selected < last {
                    switcher.selected + 1
                } else {
                    last
                };
                self.keep_switcher(Switcher { kind, filter: switcher.filter, selected });
            },
            KeyCode::Enter => self.activate(&switcher),
            KeyCode::Backspace => {
                let chars = chars_of(switcher.filter.as_str());
                let to: usize = if chars.len() > 0 {
                    chars.len() - 1
                } else {
                    0
                };
                let filter = text_of(&slice_of(&chars, 0, to));
                assert(filter@ =~= if switcher@.filter.len() > 0 {
                    switcher@.filter.drop_last()
                } else {
                    switcher@.filter
                });
                self.keep_switcher(Switcher { kind, filter, selected: 0 });
            },
            KeyCode::Char(c) => {
                if key.ctrl && (c == 'n' || c == 'r' || c == 'd') {
                    self.run_switcher_command(&switcher, c);
                } else {
                    let mut filter = switcher.filter;
                    filter.push(c);
                    self.keep_switcher(Switcher { kind, filter, selected: 0 });
                }
            },
            _ => self.keep_switcher(switcher),
        }
    }

    fn apply_delete(&mut self, target: Option<ConfirmTarget<String>>, fresh: &Fresh)
        ensures
            final(self)@ == old(self)@.deleted(
                crate::tui::state::opt_view(target),
                fresh@,
            ),
            keeps(old(self)@.store, final(self)@.store),
            old(self)@.store.well_formed() ==> old(self)@.store.promised(
                deletion_asked(crate::tui::state::opt_view(target)),
                fresh@,
            ),
    {
        proof {
            reveal(StoreView::promised);
            reveal(AppView::concluded);
        }
        match target {
            None => {},
            Some(ConfirmTarget::Secret(key)) => {
                let result = self.store.remove_secret_with(key.as_str(), fresh);
                self.conclude(result, two_words("Deleted secret ", key.as_str()));
            },
            Some(ConfirmTarget::Project(name)) => {
                let result = self.store.remove_project_with(name.as_str(), fresh);
                self.conclude(result, two_words("Deleted project ", name.as_str()));
            },
            Some(ConfirmTarget::Environment(name)) => {
                let result = self.store.remove_environment_with(name.as_str(), true, fresh);
                self.conclude(result, two_words("Deleted environment ", name.as_str()));
            },
        }
    }

    pub(crate) fn confirm_key(&mut self, code: KeyCode, fresh: &Fresh)
        ensures
            final(self)@ == old(self)@.confirmed(code, fresh@),
            keeps(old(self)@.store, final(self)@.store),
            old(self)@.store.well_formed() ==> old(self)@.store.promised(
                old(self)@.confirmation_asked(code),
                fresh@,
            ),
    {
        proof {
            reveal(StoreView::promised);
        }
        if code == KeyCode::Char('y') {
            let target = self.confirm.take();
            self.apply_delete(target, fresh);
            self.mode = Mode::Browse;
        } else if code == KeyCode::Char('n') || code == KeyCode::Esc {
            self.confirm = None;
            self.mode = Mode::Browse;
        }
    }
}

} // verus!
