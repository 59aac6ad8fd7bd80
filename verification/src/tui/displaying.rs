//! What the screen shows: of every secret its key, its assignment and where it has values, and
//! of a value no more than was asked for.

use crate::domain::ProjectView;
use crate::ids::Id;
use crate::order::lemma_filter_last;
use crate::text::{decimal_text, joined};
use crate::tui::groups::{groups, letter_in};
use crate::tui::inspect::row_keyed;
use crate::tui::paint::{padded, truncated, Color, TextLineView};
use crate::tui::popups::{
    assigned_names, confirm_popup, detail_line, displayed, editor_popup, input_line,
};
use crate::tui::select::covered;
use crate::tui::state::{
    value_in, AppView, ConfirmTarget, DetailView, EditorView, Level, Mode, SecretRowView,
    SwitcherKind, SwitcherView,
};
use crate::tui::update::{KeyCode, KeyEvent};
use vstd::prelude::*;

verus! {

/// A text that is cut keeps its beginning: all of it where it fits, and otherwise as much as
/// fits ahead of an ellipsis.
pub proof fn law_cut_text_keeps_its_beginning(text: Seq<char>, max: nat)
    requires
        max > 0,
    ensures
        text.len() <= max ==> truncated(text, max) == text,
        text.len() > max ==> truncated(text, max).len() == max && truncated(text, max).last()
            == '…' && truncated(text, max).drop_last() == text.take(max - 1),
{
    if text.len() > max {
        assert(truncated(text, max).drop_last() =~= text.take(max - 1));
    }
}

/// A text that is filled up keeps its characters, and only spaces come behind them.
pub proof fn law_filled_text_ends_in_spaces(text: Seq<char>, len: nat)
    ensures
        text.len() >= len ==> padded(text, len) == text,
        text.len() < len ==> padded(text, len).len() == len,
        padded(text, len).take(text.len() as int) == text,
        forall|i: int|
            text.len() <= i < padded(text, len).len() ==> (#[trigger] padded(text, len)[i]) == ' ',
    decreases len - text.len(),
{
    let all = padded(text, len);
    if text.len() < len {
        law_filled_text_ends_in_spaces(text.push(' '), len);
        assert(all.take(text.len() as int) =~= text) by {
            assert forall|i: int| 0 <= i < text.len() implies all[i] == text[i] by {
                assert(all.take(text.len() as int + 1)[i] == text.push(' ')[i]);
            }
        }
        assert forall|i: int| text.len() <= i < all.len() implies (#[trigger] all[i]) == ' ' by {
            if i == text.len() {
                assert(all.take(text.len() as int + 1)[i] == text.push(' ')[i]);
            }
        }
    } else {
        assert(all.take(text.len() as int) =~= text);
    }
}

/// The row of a secret in the table tells its key, whether it is assigned to the active project,
/// for each environment whether it has a value there, and last the value in the active
/// environment: dots while values are hidden, its beginning while they are shown, and a dash
/// where there is none, with a warning where the project needs it.
pub proof fn law_table_row_tells_the_secret(app: AppView, row: SecretRowView, i: int)
    ensures
        ({
            let cells = app.table_row(row).cells;
            let n = app.environments.len() as int;
            let needed = app.active_project < app.projects.len()
                && row.secret.assigned_project_ids.contains(
                app.projects[app.active_project as int].id,
            );
            let value = value_in(row.variants, app.environments[app.active_env as int].id);
            let there = app.active_env < n && value is Some;
            &&& cells.len() == n + 3
            &&& cells[0].text == row.secret.key
            &&& cells[1].text == (if needed {
                "◆"@
            } else {
                " "@
            })
            &&& 0 <= i < n ==> cells[2 + i].text == (if value_in(
                row.variants,
                app.environments[i].id,
            ) is Some {
                "●"@
            } else {
                "○"@
            })
            &&& there && !app.reveal_cell ==> cells[n + 2].text == "••••••••"@
            &&& there && app.reveal_cell && value->0.len() <= 24 ==> cells[n + 2].text == value->0
            &&& there && app.reveal_cell && value->0.len() > 24 ==> cells[n + 2].text
                == value->0.take(23).push('…')
            &&& !there && needed ==> cells[n + 2].text == "— missing"@
            &&& !there && !needed ==> cells[n + 2].text == "—"@
            &&& app.table_row(row).style.dim == !needed
        }),
{
}

/// The table has a row for each secret that is shown, in their order, and the selected one is
/// marked. Its headings are those of its columns, and its title tells what it lists.
pub proof fn law_table_lists_what_is_shown(app: AppView, i: int)
    ensures
        ({
            let table = app.table();
            let shown = app.filtered();
            let n = app.environments.len() as int;
            &&& table.rows.len() == shown.len()
            &&& 0 <= i < shown.len() ==> table.rows[i] == app.table_row(app.rows[shown[i] as int])
            &&& app.selected_row < shown.len() <= usize::MAX ==> table.selected == Some(
                app.selected_row as usize,
            )
            &&& shown.len() == 0 ==> table.selected is None && table.hint == Some(
                if app.rows.len() == 0 {
                    "No secrets yet. Press a to add one."@
                } else {
                    "No secrets match. Press f to show all, or / to clear the search."@
                },
            )
            &&& shown.len() > 0 ==> table.hint is None
            &&& table.header.len() == n + 3
            &&& table.header[0].text == "KEY"@
            &&& 0 <= i < n && app.environments[i].name.len() <= 4 ==> table.header[2 + i].text
                == app.environments[i].name
            &&& 0 <= i < n && app.environments[i].name.len() > 4 ==> table.header[2 + i].text
                == app.environments[i].name.take(4)
            &&& app.active_env < n ==> table.header[n + 2].text == "value · "@
                + app.environments[app.active_env as int].name
            &&& !app.assigned_only && app.filter.len() == 0 ==> table.title == "Secrets · all"@
            &&& !app.assigned_only && app.filter.len() > 0 ==> table.title == "Secrets · all"@
                + "   /"@ + app.filter
            &&& app.assigned_only && app.filter.len() == 0 && app.active_project
                < app.projects.len() ==> table.title == "Secrets · assigned to "@
                + app.projects[app.active_project as int].name
        }),
{
}

/// The first line of the screen tells the active project and environment by their names, how
/// many of the secrets that the project needs have a value there, and how many operations are
/// logged. The keys without a value are named.
pub proof fn law_context_tells_the_coverage(app: AppView)
    requires
        app.active_project < app.projects.len(),
        app.active_env < app.environments.len(),
    ensures
        ({
            let project = app.projects[app.active_project as int];
            let environment = app.environments[app.active_env as int];
            let (resolved, total, missing) = covered(app.rows, project.id, environment.id);
            let spans = app.context_panel().lines[0]->Spans_0;
            let count = "Coverage "@ + decimal_text(resolved) + "/"@ + decimal_text(total);
            &&& app.context_panel().lines.len() == 1
            &&& spans[1].text == "   Project "@
            &&& spans[2].text == project.name
            &&& spans[3].text == "   Env "@
            &&& spans[4].text == environment.name
            &&& spans.last().text == "   sync "@ + decimal_text(app.sync_ops)
            &&& missing.len() == 0 ==> spans.len() == 8 && spans[6].text == count + " ✓"@
                && spans[6].style.color == Some(Color::Green)
            &&& missing.len() > 0 ==> spans.len() == 9 && spans[6].text == count + " ⚠ "@
                && spans[6].style.color == Some(Color::Red) && spans[7].text == truncated(
                joined(missing, ", "@),
                32,
            )
        }),
{
}

/// The line of an environment among the values of a secret tells its name, and its value: dots
/// while values are hidden, its beginning while they are shown, and that it is not set where
/// there is none.
pub proof fn law_value_lines(
    name: Seq<char>,
    selected: bool,
    value: Option<Seq<char>>,
    letter: Option<char>,
    reveal: bool,
)
    ensures
        ({
            let spans = detail_line(name, selected, value, letter, reveal)->Spans_0;
            &&& spans.len() == 3
            &&& spans[0].text == (if selected {
                "▸ "@
            } else {
                "  "@
            }) + padded(name, 14)
            &&& letter matches Some(letter) ==> spans[1].text == seq!['≡', letter, ' ']
            &&& letter is None ==> spans[1].text == seq![' ', ' ', ' ']
            &&& value is None ==> spans[2].text == "— not set"@
            &&& value is Some && !reveal ==> spans[2].text == "••••••••"@
            &&& value is Some && reveal && value->0.len() <= 44 ==> spans[2].text == value->0
            &&& value is Some && reveal && value->0.len() > 44 ==> spans[2].text
                == value->0.take(43).push('…')
        }),
{
    reveal_strlit("≡");
    reveal_strlit("   ");
    let spans = detail_line(name, selected, value, letter, reveal)->Spans_0;
    if let Some(letter) = letter {
        assert(spans[1].text =~= seq!['≡', letter, ' ']);
    } else {
        assert(spans[1].text =~= seq![' ', ' ', ' ']);
    }
}

/// A field shows its text as it is, or a dot for each of its characters while it is hidden. The
/// cursor stands on the character that comes next, and behind the last one on a space.
pub proof fn law_field_shows_its_text(editor: EditorView)
    requires
        editor.valid(),
    ensures
        ({
            let shown = displayed(editor);
            let spans = input_line(shown, editor.cursor)->Spans_0;
            &&& editor_popup(editor).panel.lines[0] == input_line(shown, editor.cursor)
            &&& editor_popup(editor).panel.title == Some(editor.title)
            &&& shown.len() == editor.buffer.len()
            &&& !editor.masked || editor.reveal ==> shown == editor.buffer
            &&& editor.masked && !editor.reveal ==> forall|i: int|
                0 <= i < shown.len() ==> (#[trigger] shown[i]) == '•'
            &&& spans.len() == 3
            &&& spans[1].style.reversed
            &&& editor.cursor < shown.len() ==> spans[0].text + spans[1].text + spans[2].text
                == shown && spans[0].text.len() == editor.cursor && spans[1].text.len() == 1
            &&& editor.cursor == shown.len() ==> spans[0].text == shown && spans[1].text
                == seq![' '] && spans[2].text.len() == 0
        }),
{
    reveal_strlit(" ");
    reveal_strlit("");
    let shown = displayed(editor);
    let spans = input_line(shown, editor.cursor)->Spans_0;
    if editor.cursor < shown.len() {
        assert(spans[0].text + spans[1].text + spans[2].text =~= shown);
    } else {
        assert(spans[0].text =~= shown);
        assert(spans[1].text =~= seq![' ']);
    }
}

/// Whether a question before a deletion asks a text.
pub open spec fn asks(target: ConfirmTarget<Seq<char>>, text: Seq<char>) -> bool {
    confirm_popup(Some(target)).panel.lines[0] matches TextLineView::Whole(line) && line.text
        == text
}

/// The question before a deletion names what would be deleted, and with it what else goes.
pub proof fn law_question_names_what_goes(name: Seq<char>)
    ensures
        asks(
            ConfirmTarget::Secret(name),
            "Delete secret \""@ + name + "\" and its variants?"@,
        ),
        asks(ConfirmTarget::Project(name), "Delete project \""@ + name + "\"?"@),
        asks(
            ConfirmTarget::Environment(name),
            "Delete environment \""@ + name + "\" and its variants?"@,
        ),
{
    reveal_strlit("Delete ");
    reveal_strlit("?");
    reveal_strlit("secret \"");
    reveal_strlit("project \"");
    reveal_strlit("environment \"");
    reveal_strlit("\"");
    reveal_strlit("\" and its variants");
    reveal_strlit("Delete secret \"");
    reveal_strlit("Delete project \"");
    reveal_strlit("Delete environment \"");
    reveal_strlit("\"?");
    reveal_strlit("\" and its variants?");
    assert("Delete "@ + ("secret \""@ + name + "\" and its variants"@) + "?"@
        =~= "Delete secret \""@ + name + "\" and its variants?"@);
    assert("Delete "@ + ("project \""@ + name + "\""@) + "?"@ =~= "Delete project \""@ + name
        + "\"?"@);
    assert("Delete "@ + ("environment \""@ + name + "\" and its variants"@) + "?"@
        =~= "Delete environment \""@ + name + "\" and its variants?"@);
}

/// Whether a line at the side is that of a name, marked where the name is active.
pub open spec fn names_line(line: TextLineView, name: Seq<char>, active: bool) -> bool {
    match line {
        TextLineView::Spans(spans) => active && spans.len() == 2 && spans[0].text == "▸ "@
            && spans[1].text == name,
        TextLineView::Whole(span) => !active && span.text == "  "@ + name,
    }
}

/// The names at the side: all projects and all environments, in their order, and the active ones
/// are marked.
pub proof fn law_side_lists_every_name(app: AppView, i: int)
    requires
        app.projects.len() > 0,
        app.environments.len() > 0,
    ensures
        ({
            let lines = app.rail_panel().lines;
            let p = app.projects.len() as int;
            let e = app.environments.len() as int;
            &&& lines.len() == p + e + 3
            &&& lines[0] matches TextLineView::Whole(line) && line.text == "PROJECTS"@
            &&& lines[p + 2] matches TextLineView::Whole(line) && line.text == "ENVIRONMENTS"@
            &&& 0 <= i < p ==> names_line(
                lines[1 + i],
                app.projects[i].name,
                i == app.active_project,
            )
            &&& 0 <= i < e ==> names_line(
                lines[p + 3 + i],
                app.environments[i].name,
                i == app.active_env,
            )
        }),
{
}

/// The status line tells the message, green where something went well and red where it did not.
pub proof fn law_status_line_tells_the_message(app: AppView)
    requires
        app.status.text.len() > 0,
    ensures
        app.footer_panel().lines[0] matches TextLineView::Whole(line) && line.text
            == app.status.text && (app.status.level == Level::Success ==> line.style.color == Some(
            Color::Green,
        )) && (app.status.level == Level::Error ==> line.style.color == Some(Color::Red)),
{
}

/// The keys of an input field: a character is typed at the cursor, the keys for it erase the
/// character before or behind the cursor, or move the cursor; with control, `u` clears the text
/// and `r` shows or hides a text that can be hidden. Nothing else of the field changes.
pub proof fn law_field_keys(editor: EditorView, key: KeyEvent)
    requires
        editor.valid(),
    ensures
        ({
            let after = editor.pressed(key);
            let a = editor.buffer.take(editor.cursor as int);
            let b = editor.buffer.skip(editor.cursor as int);
            let clears = key.ctrl && key.code == KeyCode::Char('u');
            let turns = key.ctrl && key.code == KeyCode::Char('r') && editor.masked;
            &&& after.target == editor.target && after.title == editor.title && after.masked
                == editor.masked && after.return_to == editor.return_to
            &&& after.reveal == (if turns {
                !editor.reveal
            } else {
                editor.reveal
            })
            &&& clears ==> after.buffer.len() == 0 && after.cursor == 0
            &&& turns ==> after.buffer == editor.buffer && after.cursor == editor.cursor
            &&& key.code is Char && !clears && !turns ==> after.buffer == a + seq![
                key.code->Char_0,
            ] + b && after.cursor == editor.cursor + 1
            &&& key.code == KeyCode::Backspace && a.len() > 0 ==> after.buffer == a.drop_last() + b
                && after.cursor == editor.cursor - 1
            &&& key.code == KeyCode::Backspace && a.len() == 0 ==> after == editor
            &&& key.code == KeyCode::Delete && b.len() > 0 ==> after.buffer == a + b.drop_first()
                && after.cursor == editor.cursor
            &&& key.code == KeyCode::Delete && b.len() == 0 ==> after == editor
            &&& key.code == KeyCode::Home ==> after.cursor == 0 && after.buffer == editor.buffer
            &&& key.code == KeyCode::End ==> after.cursor == editor.buffer.len() && after.buffer
                == editor.buffer
            &&& key.code == KeyCode::Left ==> after.buffer == editor.buffer && after.cursor == (
            if a.len() > 0 {
                editor.cursor - 1
            } else {
                0
            })
            &&& key.code == KeyCode::Right ==> after.buffer == editor.buffer && after.cursor == (
            if b.len() > 0 {
                editor.cursor + 1
            } else {
                editor.cursor
            })
        }),
{
    let after = editor.pressed(key);
    let a = editor.buffer.take(editor.cursor as int);
    let b = editor.buffer.skip(editor.cursor as int);
    if key.code is Char {
        assert(editor.inserted(key.code->Char_0).buffer =~= a + seq![key.code->Char_0] + b);
    }
    if key.code == KeyCode::Backspace && a.len() > 0 {
        assert(after.buffer =~= a.drop_last() + b);
    }
    if key.code == KeyCode::Delete && b.len() > 0 {
        assert(after.buffer =~= a + b.drop_first());
    }
}

/// The projects that a secret is assigned to are named in their order, and no others.
pub proof fn law_assigned_projects_are_named(projects: Seq<ProjectView>, ids: Seq<Id>, n: nat)
    requires
        n <= projects.len(),
    ensures
        assigned_names(projects, ids, n) == projects.take(n as int).filter(
            |p: ProjectView| ids.contains(p.id),
        ).map_values(|p: ProjectView| p.name),
    decreases n,
{
    let kept = |p: ProjectView| ids.contains(p.id);
    let name = |p: ProjectView| p.name;
    let first = projects.take(n as int);
    if n == 0 {
        reveal(Seq::filter);
        assert(first.filter(kept).map_values(name) =~= Seq::empty());
    } else {
        law_assigned_projects_are_named(projects, ids, (n - 1) as nat);
        lemma_filter_last(first, kept);
        assert(first.drop_last() =~= projects.take(n - 1));
        assert(assigned_names(projects, ids, n) =~= first.filter(kept).map_values(name));
    }
}

/// What lies over the screen is the dialog that the keys go to, and nothing lies over it while
/// browsing.
pub proof fn law_open_dialog_is_shown(app: AppView)
    ensures
        app.mode == Mode::Browse ==> app.popup() is None,
        app.mode == Mode::Editor && app.editor is Some ==> app.popup() == Some(
            editor_popup(app.editor->0),
        ),
        app.mode == Mode::Confirm ==> app.popup() == Some(confirm_popup(app.confirm)),
        app.mode == Mode::Switcher && app.switcher is Some ==> app.popup() == Some(
            app.switcher_popup(app.switcher->0),
        ),
        app.mode == Mode::Detail ==> app.popup() == app.detail_popup(),
        app.mode == Mode::Help ==> (app.popup() matches Some(popup) && popup.panel.title == Some(
            "Help"@,
        )),
{
}

/// The dialog of a secret's values tells its description and the projects that it is assigned
/// to, and has a line for each environment.
pub proof fn law_dialog_tells_the_secret(app: AppView, detail: DetailView, i: int)
    requires
        app.detail == Some(detail),
        row_keyed(app.rows, detail.secret_key) is Some,
    ensures
        ({
            let row = row_keyed(app.rows, detail.secret_key)->0;
            let lines = app.detail_popup()->0.panel.lines;
            let n = app.environments.len() as int;
            let top: int = if detail.yank is Some {
                5
            } else {
                4
            };
            let names = assigned_names(
                app.projects,
                row.secret.assigned_project_ids,
                app.projects.len(),
            );
            &&& app.detail_popup() is Some
            &&& app.detail_popup()->0.panel.title == Some(" "@ + detail.secret_key + " "@)
            &&& lines.len() == top + n + 2
            &&& lines[0]->Spans_0[0].text == "Description: "@
            &&& lines[0]->Spans_0[1].text == (match row.secret.description {
                Some(text) => text,
                None => "—"@,
            })
            &&& lines[1]->Spans_0[0].text == "Assigned to: "@
            &&& lines[1]->Spans_0[1].text == (if names.len() == 0 {
                "(no projects)"@
            } else {
                joined(names, ", "@)
            })
            &&& detail.yank matches Some(yank) ==> lines[2]->Spans_0[1].text == yank.source_env
                + " value (press p to paste)"@
            &&& 0 <= i < n ==> {
                let value = value_in(row.variants, app.environments[i].id);
                lines[top + i] == detail_line(
                    app.environments[i].name,
                    i == detail.selected_env,
                    value,
                    if value is Some {
                        letter_in(groups(row.variants), value->0)
                    } else {
                        None
                    },
                    detail.reveal,
                )
            }
        }),
{
}

/// A list to choose from tells what was typed and has a line for each name that is listed, the
/// selected one marked.
pub proof fn law_choices_are_listed(app: AppView, switcher: SwitcherView, i: int)
    ensures
        ({
            let items = app.items(switcher);
            let panel = app.switcher_popup(switcher).panel;
            &&& panel.title == Some(
                if switcher.kind == SwitcherKind::Project {
                    "Select project"@
                } else {
                    "Select environment"@
                },
            )
            &&& panel.lines[0]->Spans_0[1].text == (if switcher.filter.len() == 0 {
                "—"@
            } else {
                switcher.filter
            })
            &&& items.len() > 0 ==> panel.lines.len() == items.len() + 4
            &&& 0 <= i < items.len() && i == switcher.selected ==> panel.lines[2
                + i]->Spans_0[0].text == "▸ "@ + items[i].1
            &&& 0 <= i < items.len() && i != switcher.selected
                ==> panel.lines[2 + i]->Whole_0.text == "  "@ + items[i].1
        }),
{
}

} // verus!
