//! What is listed and what is selected: which rows a search shows, where the keys move the
//! selection, and what they open.

use crate::ids::Id;
use crate::store::FreshView;
use crate::text::{decimal_text, lower, lowered, occurs_in, stands_at};
use crate::tui::choosing::matching;
use crate::tui::inspect::row_keyed;
use crate::tui::state::{
    value_in, AppView, ConfirmTarget, DetailView, EditTarget, Level, Mode, SecretRowView,
    StatusView, SwitcherKind, SwitcherView,
};
use crate::tui::update::{KeyCode, KeyEvent};
use vstd::prelude::*;

verus! {

/// Whether a text stands in another at a place, capital and small letters being alike.
pub open spec fn reads_at(part: Seq<char>, text: Seq<char>, p: int) -> bool {
    &&& 0 <= p <= text.len() - part.len()
    &&& forall|j: int| 0 <= j < part.len() ==> lower(text[p + j]) == lower(#[trigger] part[j])
}

/// Whether a text holds another, capital and small letters being alike.
pub open spec fn reads_in(part: Seq<char>, text: Seq<char>) -> bool {
    exists|p: int| reads_at(part, text, p)
}

proof fn lemma_reads_in(part: Seq<char>, text: Seq<char>)
    ensures
        occurs_in(lowered(part), lowered(text)) <==> reads_in(part, text),
{
    let a = lowered(part);
    let b = lowered(text);
    if occurs_in(a, b) {
        let p = choose|p: int| stands_at(a, b, p);
        assert forall|j: int| 0 <= j < part.len() implies lower(text[p + j]) == lower(
            #[trigger] part[j],
        ) by {
            assert(b.subrange(p, p + a.len())[j] == a[j]);
        }
        assert(reads_at(part, text, p));
    }
    if reads_in(part, text) {
        let p = choose|p: int| reads_at(part, text, p);
        assert forall|j: int| 0 <= j < a.len() implies b.subrange(p, p + a.len())[j] == a[j] by {
            assert(lower(text[p + j]) == lower(part[j]));
        }
        assert(b.subrange(p, p + a.len()) =~= a);
        assert(stands_at(a, b, p));
    }
}

/// Capital letters are turned into the small ones, and every other character stays.
pub proof fn law_letters_are_lowered(c: char)
    ensures
        'A' <= c <= 'Z' ==> lower(c) as u32 == c as u32 + 32,
        !('A' <= c <= 'Z') ==> lower(c) == c,
{
}

proof fn lemma_shown(app: AppView, n: nat)
    requires
        n <= app.rows.len() <= usize::MAX,
    ensures
        forall|k: int|
            0 <= k < app.shown_among(n).len() ==> (#[trigger] app.shown_among(n)[k]) < n
                && app.shows(app.rows[app.shown_among(n)[k] as int]),
        forall|i: int|
            0 <= i < n && app.shows(#[trigger] app.rows[i]) ==> app.shown_among(n).contains(
                i as usize,
            ),
        forall|j: int, k: int|
            0 <= j < k < app.shown_among(n).len() ==> (#[trigger] app.shown_among(n)[j]) < (
            #[trigger] app.shown_among(n)[k]),
    decreases n,
{
    if n > 0 {
        let m = (n - 1) as nat;
        lemma_shown(app, m);
        let rest = app.shown_among(m);
        let all = app.shown_among(n);
        assert forall|i: int| 0 <= i < n && app.shows(#[trigger] app.rows[i]) implies all.contains(
            i as usize,
        ) by {
            if i < m {
                assert(rest.contains(i as usize));
                let k = choose|k: int| 0 <= k < rest.len() && rest[k] == i as usize;
                assert(all[k] == i as usize);
            } else {
                assert(all[rest.len() as int] == i as usize);
            }
        }
        assert forall|j: int, k: int| 0 <= j < k < all.len() implies (#[trigger] all[j]) < (
        #[trigger] all[k]) by {
            if k < rest.len() {
                assert(all[j] == rest[j] && all[k] == rest[k]);
            } else {
                assert(all[j] == rest[j]);
            }
        }
    }
}

/// The rows that are shown are those whose key or description holds the text that is searched
/// for, capital and small letters being alike, and, where only assigned secrets are asked for,
/// those that are assigned to the active project. They are shown in the order of the rows, each
/// of them once.
pub proof fn law_search_shows_what_matches(app: AppView, i: int)
    requires
        app.rows.len() <= usize::MAX,
        0 <= i < app.rows.len(),
    ensures
        app.filtered().contains(i as usize) <==> {
            let secret = app.rows[i].secret;
            &&& app.filter.len() == 0 || reads_in(app.filter, secret.key) || (
            secret.description is Some && reads_in(app.filter, secret.description->0))
            &&& app.assigned_only ==> app.active_project < app.projects.len()
                && secret.assigned_project_ids.contains(
                app.projects[app.active_project as int].id,
            )
        },
        forall|j: int, k: int|
            0 <= j < k < app.filtered().len() ==> (#[trigger] app.filtered()[j]) < (
            #[trigger] app.filtered()[k]),
        forall|k: int|
            0 <= k < app.filtered().len() ==> (#[trigger] app.filtered()[k]) < app.rows.len(),
{
    let secret = app.rows[i].secret;
    lemma_shown(app, app.rows.len());
    lemma_reads_in(app.filter, secret.key);
    if secret.description is Some {
        lemma_reads_in(app.filter, secret.description->0);
    } else {
        lemma_reads_in(app.filter, Seq::empty());
        if app.filter.len() > 0 {
            assert(!reads_in(app.filter, Seq::empty()));
        }
    }
    if app.filtered().contains(i as usize) {
        let k = choose|k: int|
            0 <= k < app.filtered().len() && app.filtered()[k] == i as usize;
        assert(app.shows(app.rows[app.filtered()[k] as int]));
        assert(app.shows(app.rows[i]));
    }
    assert(lowered(app.filter).len() == app.filter.len());
}

/// The row that has the focus is the one that is shown at the selected place.
pub proof fn law_focus_is_on_the_selected_row(app: AppView)
    requires
        app.rows.len() <= usize::MAX,
    ensures
        app.focused() is Some <==> app.selected_row < app.filtered().len(),
        app.focused() is Some ==> app.focused() == Some(
            app.rows[app.filtered()[app.selected_row as int] as int],
        ),
        app.project() == (if app.active_project < app.projects.len() {
            Some(app.projects[app.active_project as int])
        } else {
            None
        }),
        app.environment() == (if app.active_env < app.environments.len() {
            Some(app.environments[app.active_env as int])
        } else {
            None
        }),
{
}

/// The smaller of two places.
pub open spec fn at_most(a: int, b: int) -> int {
    if a < b {
        a
    } else {
        b
    }
}

/// Keys that move: one or ten rows down or up, to the first and to the last row that is shown,
/// to the next and to the previous environment. No place outside a list is reached. The store
/// stays as it is.
pub proof fn law_moving_keys(app: AppView, code: KeyCode, ctrl: bool, fresh: FreshView)
    requires
        app.mode == Mode::Browse,
        app.selected_row < app.filtered().len() || app.selected_row == 0,
        app.active_env < app.environments.len() || app.active_env == 0,
    ensures
        ({
            let after = app.keyed(KeyEvent { code, ctrl }, fresh);
            let last = if app.filtered().len() > 0 {
                app.filtered().len() - 1
            } else {
                0
            };
            let end = if app.environments.len() > 0 {
                app.environments.len() - 1
            } else {
                0
            };
            let row = app.selected_row as int;
            let env = app.active_env as int;
            &&& code == KeyCode::Down || code == KeyCode::Char('j') ==> after.selected_row
                == at_most(row + 1, last) && after.store == app.store
            &&& code == KeyCode::Up || code == KeyCode::Char('k') ==> after.selected_row == (
            if row > 0 {
                row - 1
            } else {
                0
            }) && after.store == app.store
            &&& code == KeyCode::PageDown ==> after.selected_row == at_most(row + 10, last)
                && after.store == app.store
            &&& code == KeyCode::PageUp ==> after.selected_row == (if row > 10 {
                row - 10
            } else {
                0
            }) && after.store == app.store
            &&& code == KeyCode::Home ==> after.selected_row == 0 && after.store == app.store
            &&& code == KeyCode::End ==> after.selected_row == last && after.store == app.store
            &&& code == KeyCode::Right || code == KeyCode::Char('l') ==> after.active_env
                == at_most(env + 1, end) && after.store == app.store
            &&& code == KeyCode::Left || code == KeyCode::Char('h') ==> after.active_env == (
            if env > 0 {
                env - 1
            } else {
                0
            }) && after.store == app.store
        }),
{
}

/// Whether a field is open, with a text and the cursor behind it.
pub open spec fn opens_field(
    after: AppView,
    target: EditTarget<Seq<char>>,
    title: Seq<char>,
    text: Seq<char>,
    masked: bool,
) -> bool {
    after.mode == Mode::Editor && (after.editor matches Some(editor) && editor.target == target
        && editor.title == title && editor.buffer == text && editor.cursor == text.len()
        && editor.masked == masked && !editor.reveal && editor.return_to == Mode::Browse)
}

/// Keys that open something for the selected secret: its value in the active environment, its
/// key, its description, the question whether to delete it, and its values. Without a selected
/// secret they only say so. None of them asks anything of the store.
pub proof fn law_keys_open_what_is_selected(
    app: AppView,
    code: KeyCode,
    ctrl: bool,
    fresh: FreshView,
)
    requires
        app.mode == Mode::Browse,
    ensures
        ({
            let after = app.keyed(KeyEvent { code, ctrl }, fresh);
            let secret = app.focused()->0.secret;
            let environment = app.environment()->0;
            let opening = code == KeyCode::Char('R') || code == KeyCode::Char('c') || code
                == KeyCode::Char('d') || code == KeyCode::Enter;
            &&& opening || code == KeyCode::Char('v') ==> after.store == app.store
            &&& opening && app.focused() is None ==> after.mode == Mode::Browse && after.status
                == (StatusView { text: "No secret selected."@, level: Level::Error })
            &&& app.focused() is Some && code == KeyCode::Char('R') ==> opens_field(
                after,
                EditTarget::RenameSecret { from: secret.key },
                "Rename secret"@,
                secret.key,
                false,
            )
            &&& app.focused() is Some && code == KeyCode::Char('c') ==> opens_field(
                after,
                EditTarget::Description { key: secret.key },
                "Description · "@ + secret.key,
                if secret.description is Some {
                    secret.description->0
                } else {
                    Seq::empty()
                },
                false,
            )
            &&& app.focused() is Some && code == KeyCode::Char('d') ==> after.mode
                == Mode::Confirm && after.confirm == Some(ConfirmTarget::Secret(secret.key))
            &&& app.focused() is Some && code == KeyCode::Enter && app.environments.len() > 0 ==> {
                &&& after.mode == Mode::Detail
                &&& after.detail == Some(
                    DetailView {
                        secret_key: secret.key,
                        selected_env: app.active_env,
                        reveal: false,
                        yank: None,
                    },
                )
            }
            &&& code == KeyCode::Char('v') && app.environment() is None ==> after.mode
                == Mode::Browse && after.status == (StatusView {
                text: "No active environment. Press e to pick one."@,
                level: Level::Error,
            })
            &&& code == KeyCode::Char('v') && app.environment() is Some && app.focused() is Some
                ==> opens_field(
                after,
                EditTarget::SecretValue { key: secret.key, environment: environment.name },
                secret.key + " · "@ + environment.name + "  (empty clears)"@,
                match value_in(app.focused()->0.variants, environment.id) {
                    Some(value) => value,
                    None => Seq::empty(),
                },
                true,
            )
        }),
{
}

/// Keys that need no selected secret: a field for a new secret and for a search, the lists of
/// projects and environments, the help, the scope of the table, and whether values are shown.
pub proof fn law_other_keys(app: AppView, c: char, ctrl: bool, fresh: FreshView)
    requires
        app.mode == Mode::Browse,
    ensures
        ({
            let after = app.keyed(KeyEvent { code: KeyCode::Char(c), ctrl }, fresh);
            &&& c != ' ' ==> after.store == app.store
            &&& c == 'a' ==> opens_field(
                after,
                EditTarget::AddSecret,
                "New secret key"@,
                Seq::empty(),
                false,
            )
            &&& c == '/' ==> opens_field(
                after,
                EditTarget::Search,
                "Search secrets"@,
                app.filter,
                false,
            )
            &&& c == 'p' ==> after.mode == Mode::Switcher && after.switcher == Some(
                SwitcherView {
                    kind: SwitcherKind::Project,
                    filter: Seq::empty(),
                    selected: app.active_project,
                },
            )
            &&& c == 'e' ==> after.mode == Mode::Switcher && after.switcher == Some(
                SwitcherView {
                    kind: SwitcherKind::Environment,
                    filter: Seq::empty(),
                    selected: app.active_env,
                },
            )
            &&& c == '?' ==> after.mode == Mode::Help
            &&& c == 'f' ==> after.assigned_only == !app.assigned_only && after.selected_row == 0
                && after.status.level == Level::Success && after.status.text == (
            if after.assigned_only {
                "Showing secrets assigned to the active project"@
            } else {
                "Showing all secrets"@
            })
            &&& c != 'f' && c != ' ' ==> after.assigned_only == app.assigned_only
            &&& c == 'r' && !app.reveal_cell ==> after.reveal_cell
            &&& c == 'r' && app.reveal_cell ==> !after.reveal_cell
        }),
{
}

proof fn lemma_matching(names: Seq<Seq<char>>, query: Seq<char>, n: nat)
    requires
        n <= names.len() <= usize::MAX,
    ensures
        ({
            let list = matching(names, query, n);
            &&& forall|k: int|
                0 <= k < list.len() ==> {
                    let place = (#[trigger] list[k]).0;
                    &&& place < n
                    &&& list[k].1 == names[place as int]
                    &&& query.len() == 0 || occurs_in(query, lowered(names[place as int]))
                }
            &&& forall|i: int|
                0 <= i < n && (query.len() == 0 || occurs_in(query, lowered(#[trigger] names[i])))
                    ==> list.contains((i as usize, names[i]))
            &&& forall|j: int, k: int|
                0 <= j < k < list.len() ==> (#[trigger] list[j]).0 < (#[trigger] list[k]).0
        }),
    decreases n,
{
    if n > 0 {
        let m = (n - 1) as nat;
        lemma_matching(names, query, m);
        let rest = matching(names, query, m);
        let list = matching(names, query, n);
        assert forall|i: int|
            0 <= i < n && (query.len() == 0 || occurs_in(query, lowered(
                #[trigger] names[i],
            ))) implies list.contains((i as usize, names[i])) by {
            if i < m {
                assert(rest.contains((i as usize, names[i])));
                let k = choose|k: int| 0 <= k < rest.len() && rest[k] == (i as usize, names[i]);
                assert(list[k] == (i as usize, names[i]));
            } else {
                assert(list[rest.len() as int] == (i as usize, names[i]));
            }
        }
        assert forall|j: int, k: int| 0 <= j < k < list.len() implies (#[trigger] list[j]).0 < (
        #[trigger] list[k]).0 by {
            if k < rest.len() {
                assert(list[j] == rest[j] && list[k] == rest[k]);
            } else {
                assert(list[j] == rest[j]);
            }
        }
    }
}

/// A switcher lists the names that hold what was typed, capital and small letters being alike,
/// each with its place, in their order.
pub proof fn law_switcher_lists_what_matches(app: AppView, switcher: SwitcherView, i: int)
    requires
        app.names(switcher.kind).len() <= usize::MAX,
        0 <= i < app.names(switcher.kind).len(),
    ensures
        ({
            let names = app.names(switcher.kind);
            let list = app.items(switcher);
            &&& list.contains((i as usize, names[i])) <==> switcher.filter.len() == 0 || reads_in(
                switcher.filter,
                names[i],
            )
            &&& forall|k: int|
                0 <= k < list.len() ==> (#[trigger] list[k]).0 < names.len() && list[k].1
                    == names[list[k].0 as int]
            &&& forall|j: int, k: int|
                0 <= j < k < list.len() ==> (#[trigger] list[j]).0 < (#[trigger] list[k]).0
            &&& match switcher.kind {
                SwitcherKind::Project => names.len() == app.projects.len() && names[i]
                    == app.projects[i].name,
                SwitcherKind::Environment => names.len() == app.environments.len() && names[i]
                    == app.environments[i].name,
            }
        }),
{
    let names = app.names(switcher.kind);
    let list = app.items(switcher);
    lemma_matching(names, lowered(switcher.filter), names.len());
    lemma_reads_in(switcher.filter, names[i]);
    assert(lowered(switcher.filter).len() == switcher.filter.len());
    if list.contains((i as usize, names[i])) {
        let k = choose|k: int| 0 <= k < list.len() && list[k] == (i as usize, names[i]);
        assert(list[k].0 == i as usize);
    }
}

/// The keys of a switcher: the enter key makes the selected name active, in the list that the
/// switcher is for, and goes back; a letter searches on; with control, `n` opens a field for a
/// new name, `r` one for another name, and `d` asks whether to delete. None of them asks
/// anything of the store.
pub proof fn law_switcher_keys(
    app: AppView,
    switcher: SwitcherView,
    key: KeyEvent,
    fresh: FreshView,
)
    requires
        app.mode == Mode::Switcher,
        app.switcher == Some(switcher),
    ensures
        ({
            let after = app.keyed(key, fresh);
            let list = app.items(switcher);
            let there = switcher.selected < list.len();
            let item = list[switcher.selected as int];
            let project = switcher.kind == SwitcherKind::Project;
            &&& after.store == app.store
            &&& key.code == KeyCode::Esc || key.code == KeyCode::Enter ==> after.mode
                == Mode::Browse && after.switcher is None
            &&& key.code == KeyCode::Enter && there ==> {
                &&& after.active_project == (if project {
                    item.0 as nat
                } else {
                    app.active_project
                })
                &&& after.active_env == (if project {
                    app.active_env
                } else {
                    item.0 as nat
                })
                &&& after.selected_row == 0
            }
            &&& key.code == KeyCode::Esc || (key.code == KeyCode::Enter && !there)
                ==> after.active_project == app.active_project && after.active_env
                == app.active_env
            &&& key.ctrl && key.code == KeyCode::Char('n') ==> opens_field(
                after,
                if project {
                    EditTarget::AddProject
                } else {
                    EditTarget::AddEnvironment
                },
                if project {
                    "New project"@
                } else {
                    "New environment"@
                },
                Seq::empty(),
                false,
            )
            &&& key.ctrl && key.code == KeyCode::Char('r') && there ==> opens_field(
                after,
                if project {
                    EditTarget::RenameProject { from: item.1 }
                } else {
                    EditTarget::RenameEnvironment { from: item.1 }
                },
                if project {
                    "Rename project"@
                } else {
                    "Rename environment"@
                },
                item.1,
                false,
            )
            &&& key.ctrl && key.code == KeyCode::Char('d') && there ==> after.mode
                == Mode::Confirm && after.confirm == Some(
                if project {
                    ConfirmTarget::Project(item.1)
                } else {
                    ConfirmTarget::Environment(item.1)
                },
            )
            &&& !key.ctrl && key.code is Char ==> (after.switcher matches Some(open)
                && open.filter == switcher.filter.push(key.code->Char_0) && open.selected == 0
                && open.kind == switcher.kind)
            &&& key.code == KeyCode::Backspace && switcher.filter.len() > 0 ==> (
            after.switcher matches Some(open) && open.filter == switcher.filter.drop_last())
            &&& key.code == KeyCode::Down && switcher.selected + 1 < list.len() ==> (
            after.switcher matches Some(open) && open.selected == switcher.selected + 1
                && open.filter == switcher.filter)
            &&& key.code == KeyCode::Up && 0 < switcher.selected < list.len() ==> (
            after.switcher matches Some(open) && open.selected == switcher.selected - 1
                && open.filter == switcher.filter)
        }),
{
    let closed = AppView { switcher: None, ..app };
    assert(closed.names(switcher.kind) == app.names(switcher.kind));
    assert(closed.items(switcher) == app.items(switcher));
    if key.code == KeyCode::Down && switcher.selected + 1 < app.items(switcher).len() {
        let next = SwitcherView { selected: switcher.selected + 1, ..switcher };
        assert(closed.items(next) == app.items(switcher));
    }
    if key.code == KeyCode::Up && switcher.selected > 0 {
        let next = SwitcherView { selected: (switcher.selected - 1) as nat, ..switcher };
        assert(closed.items(next) == app.items(switcher));
    }
}

/// The keys that move in the dialog of a secret's values: up and down among the environments,
/// no further than the first and the last; `r` shows or hides the values; the escape key and `q`
/// go back. `v` and the enter key open a field for the value of the selected environment, which
/// holds it as it is and comes back to the dialog.
pub proof fn law_dialog_moves(app: AppView, detail: DetailView, key: KeyEvent, fresh: FreshView)
    requires
        app.mode == Mode::Detail,
        app.detail == Some(detail),
        detail.selected_env < app.environments.len(),
    ensures
        ({
            let after = app.keyed(key, fresh);
            let environment = app.environments[detail.selected_env as int];
            let up = key.code == KeyCode::Up || key.code == KeyCode::Char('k');
            let down = key.code == KeyCode::Down || key.code == KeyCode::Char('j');
            let turn = key.code == KeyCode::Char('r');
            let back = key.code == KeyCode::Esc || key.code == KeyCode::Char('q');
            let edit = key.code == KeyCode::Enter || key.code == KeyCode::Char('v');
            &&& up ==> after.detail == Some(
                DetailView {
                    selected_env: if detail.selected_env > 0 {
                        (detail.selected_env - 1) as nat
                    } else {
                        0
                    },
                    ..detail
                },
            )
            &&& down ==> after.detail == Some(
                DetailView {
                    selected_env: at_most(
                        detail.selected_env as int + 1,
                        app.environments.len() - 1,
                    ) as nat,
                    ..detail
                },
            )
            &&& turn ==> after.detail == Some(DetailView { reveal: !detail.reveal, ..detail })
            &&& up || down || turn ==> after.mode == Mode::Detail && after.store == app.store
            &&& back ==> after.detail is None && after.mode == Mode::Browse && after.store
                == app.store
            &&& edit ==> {
                &&& after.mode == Mode::Editor
                &&& after.detail == app.detail
                &&& after.store == app.store
                &&& after.editor matches Some(editor) && {
                    &&& editor.target == (EditTarget::SecretValue {
                        key: detail.secret_key,
                        environment: environment.name,
                    })
                    &&& editor.buffer == (match app.value_of(
                        detail.secret_key,
                        environment.id,
                    ) {
                        Some(value) => value,
                        None => Seq::empty(),
                    })
                    &&& editor.cursor == editor.buffer.len()
                    &&& editor.masked && !editor.reveal
                    &&& editor.return_to == Mode::Detail
                }
            }
        }),
{
}

proof fn lemma_row_keyed(rows: Seq<SecretRowView>, i: int)
    requires
        0 <= i < rows.len(),
        forall|j: int| 0 <= j < i ==> (#[trigger] rows[j]).secret.key != rows[i].secret.key,
    ensures
        row_keyed(rows, rows[i].secret.key) == Some(rows[i]),
    decreases rows.len(),
{
    if i > 0 {
        assert(rows[0].secret.key != rows[i].secret.key);
        let rest = rows.drop_first();
        assert forall|j: int| 0 <= j < i - 1 implies (#[trigger] rest[j]).secret.key
            != rest[i - 1].secret.key by {
            assert(rows[j + 1].secret.key != rows[i].secret.key);
        }
        lemma_row_keyed(rest, i - 1);
    }
}

/// The value of a secret in an environment is the one in the row of its key.
pub proof fn law_value_is_in_the_row_of_its_key(app: AppView, i: int, environment_id: Id)
    requires
        0 <= i < app.rows.len(),
        forall|j: int|
            0 <= j < i ==> (#[trigger] app.rows[j]).secret.key != app.rows[i].secret.key,
    ensures
        app.value_of(app.rows[i].secret.key, environment_id) == value_in(
            app.rows[i].variants,
            environment_id,
        ),
{
    lemma_row_keyed(app.rows, i);
}

/// `S` tells the state of the log: how many operations there are, and the kind and the time of
/// the latest.
pub proof fn law_log_is_told(app: AppView, ctrl: bool, fresh: FreshView)
    requires
        app.mode == Mode::Browse,
    ensures
        ({
            let after = app.keyed(KeyEvent { code: KeyCode::Char('S'), ctrl }, fresh);
            match app.store.status() {
                Ok(status) => after.status.level == Level::Success && after.status.text == (
                match status.latest_operation {
                    Some(operation) => "sync: "@ + decimal_text(status.operation_count)
                        + " op(s), latest "@ + operation.kind + " at "@
                        + operation.created_at.display(),
                    None => "sync: no local operations yet"@,
                }),
                Err(error) => after.status.level == Level::Error && after.status.text
                    == error.message(),
            }
        }),
{
}

/// The help closes by the keys for it, and by no other, and asks nothing of the store.
pub proof fn law_help_keys(app: AppView, key: KeyEvent, fresh: FreshView)
    requires
        app.mode == Mode::Help,
    ensures
        app.keyed(key, fresh).store == app.store,
        app.keyed(key, fresh).mode == Mode::Browse <==> key.code == KeyCode::Char('?') || key.code
            == KeyCode::Esc || key.code == KeyCode::Char('q'),
{
}

} // verus!
