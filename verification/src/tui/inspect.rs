//! What keys do in the dialog of a secret's values.

use crate::change::{Change, ChangeView};
use crate::domain::EnvironmentView;
use crate::ids::Id;
use crate::order::views;
use crate::store::{Fresh, FreshView};
use crate::tables::StoreView;
use crate::text::{opt_text, same};
use crate::tui::select::{clamp_index, clamped};
use crate::tui::state::{
    fine, new_editor, value_in, App, AppView, Detail, DetailView, EditTarget, Editor, EditorView,
    Mode, SecretRow, SecretRowView, Status, Yank, YankView,
};
use crate::tui::update::{four, more_words, three, value_title, words, KeyCode};
use crate::wellformed::keeps;
use vstd::prelude::*;

verus! {

/// The first row of a key.
pub open spec fn row_keyed(rows: Seq<SecretRowView>, key: Seq<char>) -> Option<SecretRowView>
    decreases rows.len(),
{
    if rows.len() == 0 {
        None
    } else if rows[0].secret.key == key {
        Some(rows[0])
    } else {
        row_keyed(rows.drop_first(), key)
    }
}

impl AppView {
    /// The value of a secret in an environment.
    pub open spec fn value_of(self, key: Seq<char>, environment_id: Id) -> Option<Seq<char>> {
        match row_keyed(self.rows, key) {
            Some(row) => value_in(row.variants, environment_id),
            None => None,
        }
    }

    /// The environment at a place.
    pub open spec fn environment_at(self, index: nat) -> Option<EnvironmentView> {
        if index < self.environments.len() {
            Some(self.environments[index as int])
        } else {
            None
        }
    }

    /// The field for the value in the selected environment; it returns to the dialog.
    pub open spec fn detail_edit_started(self, detail: DetailView) -> AppView {
        match self.environment_at(detail.selected_env) {
            None => self.complaining("No environment selected."@),
            Some(environment) => self.editing(
                EditorView {
                    return_to: Mode::Detail,
                    ..new_editor(
                        EditTarget::SecretValue {
                            key: detail.secret_key,
                            environment: environment.name,
                        },
                        value_title(detail.secret_key, environment.name),
                        match self.value_of(detail.secret_key, environment.id) {
                            Some(value) => value,
                            None => Seq::empty(),
                        },
                        true,
                    )
                },
            ),
        }
    }

    /// The value in the selected environment is taken to be put elsewhere.
    pub open spec fn yanked(self, detail: DetailView) -> AppView {
        match self.environment_at(detail.selected_env) {
            None => (AppView { detail: Some(detail), ..self }).complaining(
                "No environment selected."@,
            ),
            Some(environment) => match self.value_of(detail.secret_key, environment.id) {
                Some(value) => AppView {
                    status: fine(
                        three(
                            "Copied "@,
                            environment.name,
                            " value — press p on another environment to paste"@,
                        ),
                    ),
                    detail: Some(
                        DetailView {
                            yank: Some(YankView { source_env: environment.name, value }),
                            ..detail
                        },
                    ),
                    ..self
                },
                None => (AppView { detail: Some(detail), ..self }).complaining(
                    environment.name + " has no value to copy."@,
                ),
            },
        }
    }

    /// The change that pasting asks for.
    pub open spec fn pasting_asked(self, detail: DetailView) -> Option<ChangeView> {
        match (self.environment_at(detail.selected_env), detail.yank) {
            (Some(target), Some(yank)) => Some(
                Change::VariantSet {
                    key: detail.secret_key,
                    environment: target.name,
                    value: yank.value,
                },
            ),
            _ => None,
        }
    }

    /// The change that clearing a value asks for.
    pub open spec fn clearing_asked(self, detail: DetailView) -> Option<ChangeView> {
        match self.environment_at(detail.selected_env) {
            Some(environment) => Some(
                Change::VariantUnset { key: detail.secret_key, environment: environment.name },
            ),
            None => None,
        }
    }

    /// The change that a key in the dialog of a secret's values asks for.
    pub open spec fn detail_asked(self, code: KeyCode) -> Option<ChangeView> {
        match self.detail {
            None => None,
            Some(detail) => if code == KeyCode::Delete || code == KeyCode::Char('d') {
                self.clearing_asked(detail)
            } else if code == KeyCode::Char('p') {
                self.pasting_asked(detail)
            } else {
                None
            },
        }
    }

    /// The value that was taken is put into the selected environment.
    pub open spec fn pasted(self, detail: DetailView, fresh: FreshView) -> AppView {
        let after = match (self.environment_at(detail.selected_env), detail.yank) {
            (Some(target), Some(yank)) => {
                let (t, r) = self.store.variant_set(
                    detail.secret_key,
                    target.name,
                    yank.value,
                    fresh,
                );
                self.concluded(t, r, four("Copied "@, yank.source_env, " → "@, target.name))
            },
            (_, None) => self.complaining("Nothing to paste — press y to copy first."@),
            (None, _) => self.complaining("No environment selected."@),
        };
        AppView { detail: Some(detail), ..after }
    }

    /// The value in the selected environment is taken away.
    pub open spec fn value_cleared(self, detail: DetailView, fresh: FreshView) -> AppView {
        let after = match self.environment_at(detail.selected_env) {
            Some(environment) => {
                let (t, r) = self.store.variant_unset(
                    detail.secret_key,
                    environment.name,
                    fresh,
                );
                self.concluded(
                    t,
                    r,
                    four("Cleared "@, detail.secret_key, " for "@, environment.name),
                )
            },
            None => self,
        };
        AppView { detail: Some(detail), ..after }
    }

    /// The dialog stays open, its selection inside the list.
    pub open spec fn detail_kept(self, detail: DetailView) -> AppView {
        AppView {
            detail: Some(
                DetailView {
                    selected_env: clamped(detail.selected_env, self.environments.len()),
                    ..detail
                },
            ),
            ..self
        }
    }

    /// A key in the dialog of a secret's values.
    pub open spec fn detailed(self, code: KeyCode, fresh: FreshView) -> AppView {
        match self.detail {
            None => AppView { mode: Mode::Browse, ..self },
            Some(detail) => {
                let closed = AppView { detail: None, ..self };
                let last = if self.environments.len() > 0 {
                    (self.environments.len() - 1) as nat
                } else {
                    0
                };
                let up = DetailView {
                    selected_env: if detail.selected_env > 0 {
                        (detail.selected_env - 1) as nat
                    } else {
                        0
                    },
                    ..detail
                };
                let down = DetailView {
                    selected_env: if detail.selected_env + 1 <= last {
                        detail.selected_env + 1
                    } else {
                        last
                    },
                    ..detail
                };
                match code {
                    KeyCode::Esc => AppView { mode: Mode::Browse, ..closed },
                    KeyCode::Up => closed.detail_kept(up),
                    KeyCode::Down => closed.detail_kept(down),
                    KeyCode::Enter => self.detail_edit_started(detail),
                    KeyCode::Delete => closed.value_cleared(detail, fresh),
                    KeyCode::Char(c) => if c == 'q' {
                        AppView { mode: Mode::Browse, ..closed }
                    } else if c == 'k' {
                        closed.detail_kept(up)
                    } else if c == 'j' {
                        closed.detail_kept(down)
                    } else if c == 'r' {
                        closed.detail_kept(DetailView { reveal: !detail.reveal, ..detail })
                    } else if c == 'v' {
                        self.detail_edit_started(detail)
                    } else if c == 'y' {
                        closed.yanked(detail)
                    } else if c == 'p' {
                        closed.pasted(detail, fresh)
                    } else if c == 'd' {
                        closed.value_cleared(detail, fresh)
                    } else {
                        closed.detail_kept(detail)
                    },
                    _ => closed.detail_kept(detail),
                }
            },
        }
    }
}

pub(crate) fn find_row<'a>(rows: &'a Vec<SecretRow>, key: &str) -> (r: Option<&'a SecretRow>)
    ensures
        match r {
            Some(row) => row_keyed(views(rows@), key@) == Some(row@),
            None => row_keyed(views(rows@), key@) is None,
        },
{
    let ghost all = views(rows@);
    let mut i: usize = 0;
    assert(all.skip(0) =~= all);
    while i < rows.len()
        invariant
            i <= rows@.len(),
            all == views(rows@),
            row_keyed(all.skip(i as int), key@) == row_keyed(all, key@),
        decreases rows@.len() - i,
    {
        proof {
            assert(all.skip(i as int)[0] == rows@[i as int]@);
            assert(all.skip(i as int).drop_first() =~= all.skip(i + 1));
        }
        if same(rows[i].secret.key.as_str(), key) {
            return Some(&rows[i]);
        }
        i = i + 1;
    }
    None
}

impl App {
    /// The value of a secret in an environment.
    pub fn variant_value(&self, secret_key: &str, environment_id: Id) -> (r: Option<String>)
        ensures
            opt_text(r) == self@.value_of(secret_key@, environment_id),
    {
        match find_row(&self.rows, secret_key) {
            Some(row) => match row.value(environment_id) {
                Some(value) => Some(value.clone()),
                None => None,
            },
            None => None,
        }
    }

    fn keep_detail(&mut self, detail: Detail)
        ensures
            final(self)@ == old(self)@.detail_kept(detail@),
    {
        let selected: usize = clamp_index(detail.selected_env, self.environments.len());
        self.detail = Some(
            Detail {
                secret_key: detail.secret_key,
                selected_env: selected,
                reveal: detail.reveal,
                yank: detail.yank,
            },
        );
    }

    fn start_detail_edit(&mut self, detail: Detail)
        ensures
            final(self)@ == (AppView { detail: Some(detail@), ..old(self)@ }).detail_edit_started(
                detail@,
            ),
    {
        let selected: usize = detail.selected_env;
        let key = detail.secret_key.clone();
        self.detail = Some(detail);
        if selected >= self.environments.len() {
            self.complain("No environment selected.");
            return;
        }
        let environment_id: Id = self.environments[selected].id;
        let name = self.environments[selected].name.clone();
        let current: String = match self.variant_value(key.as_str(), environment_id) {
            Some(value) => value,
            None => String::new(),
        };
        assert(current@ =~= match self@.value_of(key@, environment_id) {
            Some(value) => value,
            None => Seq::empty(),
        });
        let title = more_words(key.as_str(), " · ", name.as_str(), "  (empty clears)");
        let editor = Editor::new(
            EditTarget::SecretValue { key, environment: name },
            title.as_str(),
            current.as_str(),
            true,
        ).returning_to(Mode::Detail);
        self.open_editor(editor);
    }

    fn yank_value(&mut self, detail: Detail)
        ensures
            final(self)@ == old(self)@.yanked(detail@),
    {
        if detail.selected_env >= self.environments.len() {
            self.detail = Some(detail);
            self.complain("No environment selected.");
            return;
        }
        let environment_id: Id = self.environments[detail.selected_env].id;
        let name = self.environments[detail.selected_env].name.clone();
        match self.variant_value(detail.secret_key.as_str(), environment_id) {
            Some(value) => {
                self.status = Status::ok(
                    words(
                        "Copied ",
                        name.as_str(),
                        " value — press p on another environment to paste",
                    ),
                );
                self.detail = Some(
                    Detail {
                        secret_key: detail.secret_key,
                        selected_env: detail.selected_env,
                        reveal: detail.reveal,
                        yank: Some(Yank { source_env: name, value }),
                    },
                );
            },
            None => {
                self.detail = Some(detail);
                let mut text = name;
                text.append(" has no value to copy.");
                self.status = Status::error(text);
            },
        }
    }

    fn paste_value(&mut self, detail: Detail, fresh: &Fresh)
        ensures
            final(self)@ == old(self)@.pasted(detail@, fresh@),
            keeps(old(self)@.store, final(self)@.store),
            old(self)@.store.well_formed() ==> old(self)@.store.promised(
                old(self)@.pasting_asked(detail@),
                fresh@,
            ),
    {
        proof {
            reveal(StoreView::promised);
            reveal(AppView::concluded);
        }
        match &detail.yank {
            None => self.complain("Nothing to paste — press y to copy first."),
            Some(yank) => {
                if detail.selected_env < self.environments.len() {
                    let name = self.environments[detail.selected_env].name.clone();
                    let result = self.store.set_variant_with(
                        detail.secret_key.as_str(),
                        name.as_str(),
                        yank.value.as_str(),
                        fresh,
                    );
                    self.conclude(
                        result,
                        more_words("Copied ", yank.source_env.as_str(), " → ", name.as_str()),
                    );
                } else {
                    self.complain("No environment selected.");
                }
            },
        }
        self.detail = Some(detail);
    }

    fn clear_value(&mut self, detail: Detail, fresh: &Fresh)
        ensures
            final(self)@ == old(self)@.value_cleared(detail@, fresh@),
            keeps(old(self)@.store, final(self)@.store),
            old(self)@.store.well_formed() ==> old(self)@.store.promised(
                old(self)@.clearing_asked(detail@),
                fresh@,
            ),
    {
        proof {
            reveal(StoreView::promised);
            reveal(AppView::concluded);
        }
        if detail.selected_env < self.environments.len() {
            let name = self.environments[detail.selected_env].name.clone();
            let result = self.store.unset_variant_with(
                detail.secret_key.as_str(),
                name.as_str(),
                fresh,
            );
            self.conclude(
                result,
                more_words("Cleared ", detail.secret_key.as_str(), " for ", name.as_str()),
            );
        }
        self.detail = Some(detail);
    }

    fn select_above(&mut self, detail: Detail)
        ensures
            final(self)@ == old(self)@.detail_kept(
                DetailView {
                    selected_env: if detail@.selected_env > 0 {
                        (detail@.selected_env - 1) as nat
                    } else {
                        0
                    },
                    ..detail@
                },
            ),
    {
        let selected: usize = if detail.selected_env > 0 {
            detail.selected_env - 1
        } else {
            0
        };
        self.keep_detail(
            Detail {
                secret_key: detail.secret_key,
                selected_env: selected,
                reveal: detail.reveal,
                yank: detail.yank,
            },
        );
    }

    fn select_below(&mut self, detail: Detail)
        ensures
            ({
                let last = if old(self)@.environments.len() > 0 {
                    (old(self)@.environments.len() - 1) as nat
                } else {
                    0
                };
                final(self)@ == old(self)@.detail_kept(
                    DetailView {
                        selected_env: if detail@.selected_env + 1 <= last {
                            detail@.selected_env + 1
                        } else {
                            last
                        },
                        ..detail@
                    },
                )
            }),
    {
        let last: usize = if self.environments.len() > 0 {
            self.environments.len() - 1
        } else {
            0
        };
        let selected: usize = if detail.selected_env < last {
            detail.selected_env + 1
        } else {
            last
        };
        self.keep_detail(
            Detail {
                secret_key: detail.secret_key,
                selected_env: selected,
                reveal: detail.reveal,
                yank: detail.yank,
            },
        );
    }

    pub(crate) fn detail_key(&mut self, code: KeyCode, fresh: &Fresh)
        ensures
            final(self)@ == old(self)@.detailed(code, fresh@),
            keeps(old(self)@.store, final(self)@.store),
            old(self)@.store.well_formed() ==> old(self)@.store.promised(
                old(self)@.detail_asked(code),
                fresh@,
            ),
    {
        proof {
            reveal(StoreView::promised);
        }
        let detail = match self.detail.take() {
            Some(detail) => detail,
            None => {
                self.mode = Mode::Browse;
                return;
            },
        };
        match code {
            KeyCode::Esc => {
                self.mode = Mode::Browse;
            },
            KeyCode::Up => self.select_above(detail),
            KeyCode::Down => self.select_below(detail),
            KeyCode::Enter => self.start_detail_edit(detail),
            KeyCode::Delete => self.clear_value(detail, fresh),
            KeyCode::Char(c) => {
                if c == 'q' {
                    self.mode = Mode::Browse;
                } else if c == 'k' {
                    self.select_above(detail);
                } else if c == 'j' {
                    self.select_below(detail);
                } else if c == 'r' {
                    let reveal = !detail.reveal;
                    self.keep_detail(
                        Detail {
                            secret_key: detail.secret_key,
                            selected_env: detail.selected_env,
                            reveal,
                            yank: detail.yank,
                        },
                    );
                } else if c == 'v' {
                    self.start_detail_edit(detail);
                } else if c == 'y' {
                    self.yank_value(detail);
                } else if c == 'p' {
                    self.paste_value(detail, fresh);
                } else if c == 'd' {
                    self.clear_value(detail, fresh);
                } else {
                    self.keep_detail(detail);
                }
            },
            _ => self.keep_detail(detail),
        }
    }
}

} // verus!
