//! The panels over the screen: the values of a secret, input fields, lists to choose from, the
//! question before a deletion, and the help.

use crate::domain::ProjectView;
use crate::ids::Id;
use crate::order::views;
use crate::text::{join, joined, slice_of, text_of, texts};
use crate::tui::choosing::item_views;
use crate::tui::groups::{
    color_of, group_color, groups, law_letters_hide_values, letter_in, same_pattern, value_groups,
    ValueGroups,
};
use crate::tui::inspect::row_keyed;
use crate::tui::paint::{
    add_to, blank, bold, colored, join_to, nothing, pad, padded, plain, span, truncate, truncated,
    whole, Color, Panel, PanelView, Popup, PopupView, Span, SpanView, Style, TextLine, TextLineView,
};
use crate::tui::screen::{alike_but_for_values, or_dash};
use crate::tui::select::has_id;
use crate::tui::state::{
    value_in, App, AppView, ConfirmTarget, Detail, DetailView, Editor, EditorView, Mode, SecretRow,
    SecretRowView, Switcher, SwitcherKind, SwitcherView,
};
use crate::tui::update::{two_words, words};
use vstd::prelude::*;

verus! {

/// The names of the projects, among the first `n`, that a secret is assigned to.
pub open spec fn assigned_names(projects: Seq<ProjectView>, ids: Seq<Id>, n: nat) -> Seq<Seq<char>>
    decreases n,
{
    if n == 0 {
        Seq::empty()
    } else {
        let rest = assigned_names(projects, ids, (n - 1) as nat);
        if ids.contains(projects[n - 1].id) {
            rest.push(projects[n - 1].name)
        } else {
            rest
        }
    }
}

/// The mark of a value that environments share.
pub open spec fn badge(letter: Option<char>) -> SpanView {
    match letter {
        Some(letter) => span("≡"@.push(letter).push(' '), colored(color_of(letter))),
        None => span("   "@, plain()),
    }
}

/// The value of one environment, hidden unless it is revealed.
pub open spec fn detail_value(value: Option<Seq<char>>, reveal: bool) -> SpanView {
    match value {
        Some(value) => if reveal {
            span(truncated(value, 44), plain())
        } else {
            span("••••••••"@, colored(Color::DarkGray))
        },
        None => span("— not set"@, colored(Color::Red)),
    }
}

/// The line of one environment among the values of a secret.
pub open spec fn detail_line(
    name: Seq<char>,
    selected: bool,
    value: Option<Seq<char>>,
    letter: Option<char>,
    reveal: bool,
) -> TextLineView {
    let marker = if selected {
        "▸ "@
    } else {
        "  "@
    };
    let style = if selected {
        Style { bold: true, ..colored(Color::Cyan) }
    } else {
        plain()
    };
    TextLineView::Spans(
        seq![
            span(marker + padded(name, 14), style),
            badge(letter),
            detail_value(value, reveal),
        ],
    )
}

/// What a field shows: its text, or as many dots where the text is hidden.
pub open spec fn displayed(editor: EditorView) -> Seq<char> {
    if editor.masked && !editor.reveal {
        Seq::new(editor.buffer.len(), |i: int| '•')
    } else {
        editor.buffer
    }
}

/// The line of a field, with the cursor on a character or behind the last one.
pub open spec fn input_line(shown: Seq<char>, cursor: nat) -> TextLineView {
    let reversed = Style { reversed: true, ..plain() };
    if cursor < shown.len() {
        TextLineView::Spans(
            seq![
                span(shown.take(cursor as int), plain()),
                span(seq![shown[cursor as int]], reversed),
                span(shown.skip(cursor as int + 1), plain()),
            ],
        )
    } else {
        TextLineView::Spans(
            seq![
                span(shown.take(cursor as int), plain()),
                span(" "@, reversed),
                span(""@, plain()),
            ],
        )
    }
}

/// An input field.
pub open spec fn editor_popup(editor: EditorView) -> PopupView {
    let hint = if editor.masked {
        "enter save · esc cancel · ctrl-r reveal · ctrl-u clear"@
    } else {
        "enter save · esc cancel · ctrl-u clear"@
    };
    PopupView {
        width: 72,
        height: 24,
        panel: PanelView {
            title: Some(editor.title),
            lines: seq![
                input_line(displayed(editor), editor.cursor),
                blank(),
                whole(hint, colored(Color::DarkGray)),
            ],
            trim: false,
        },
    }
}

/// A line of a list to choose from.
pub open spec fn choice_line(name: Seq<char>, selected: bool) -> TextLineView {
    if selected {
        TextLineView::Spans(
            seq![span("▸ "@ + name, Style { bold: true, ..colored(Color::Cyan) })],
        )
    } else {
        whole("  "@ + name, plain())
    }
}

/// What a question before a deletion is about.
pub open spec fn deletion_text(target: Option<ConfirmTarget<Seq<char>>>) -> Seq<char> {
    match target {
        Some(ConfirmTarget::Secret(key)) => "secret \""@ + key + "\" and its variants"@,
        Some(ConfirmTarget::Project(name)) => "project \""@ + name + "\""@,
        Some(ConfirmTarget::Environment(name)) => "environment \""@ + name
            + "\" and its variants"@,
        None => "this item"@,
    }
}

/// The question before a deletion.
pub open spec fn confirm_popup(target: Option<ConfirmTarget<Seq<char>>>) -> PopupView {
    PopupView {
        width: 56,
        height: 22,
        panel: PanelView {
            title: Some("Confirm delete"@),
            lines: seq![
                whole("Delete "@ + deletion_text(target) + "?"@, plain()),
                blank(),
                whole("y: confirm   n/esc: cancel"@, colored(Color::DarkGray)),
            ],
            trim: true,
        },
    }
}

/// A key and what it does.
pub open spec fn help_line(keys: Seq<char>, text: Seq<char>) -> TextLineView {
    TextLineView::Spans(
        seq![
            span("  "@ + padded(keys, 20), colored(Color::Cyan)),
            span(text, plain()),
        ],
    )
}

/// The help.
pub open spec fn help_popup() -> PopupView {
    PopupView {
        width: 64,
        height: 80,
        panel: PanelView {
            title: Some("Help"@),
            lines: seq![
                whole("Keys"@, bold()),
                help_line("↑ ↓ / j k"@, "Move between secrets"@),
                help_line("← → / h l"@, "Change the active environment column"@),
                help_line("PgUp/PgDn Home/End"@, "Jump through the list"@),
                help_line("enter"@, "Detail view: per-env values, edit, copy (y/p), reveal"@),
                help_line("v"@, "Quick-edit the value for the active environment"@),
                help_line("r"@, "Reveal the active environment's value column"@),
                help_line("space"@, "Assign / unassign the secret to the active project"@),
                help_line("p"@, "Switch active project (ctrl-n/r/d inside to manage)"@),
                help_line("e"@, "Switch active environment (ctrl-n/r/d inside to manage)"@),
                help_line("a"@, "Add a secret"@),
                help_line("R"@, "Rename the focused secret"@),
                help_line("c"@, "Edit the focused secret's description"@),
                help_line("d"@, "Delete the focused secret"@),
                help_line("/"@, "Search secrets by key or description"@),
                help_line("f"@, "Toggle assigned-only / all secrets"@),
                help_line("S"@, "Show sync status"@),
                help_line("? / esc"@, "Close this help"@),
                help_line("q"@, "Quit"@),
            ],
            trim: false,
        },
    }
}

impl AppView {
    /// The lines above the values of a secret.
    pub open spec fn detail_top(self, detail: DetailView, row: SecretRowView) -> Seq<TextLineView> {
        let names = assigned_names(
            self.projects,
            row.secret.assigned_project_ids,
            self.projects.len(),
        );
        let first = seq![
            TextLineView::Spans(
                seq![
                    span("Description: "@, bold()),
                    span(or_dash(row.secret.description), plain()),
                ],
            ),
            TextLineView::Spans(
                seq![
                    span("Assigned to: "@, bold()),
                    span(
                        if names.len() == 0 {
                            "(no projects)"@
                        } else {
                            joined(names, ", "@)
                        },
                        plain(),
                    ),
                ],
            ),
        ];
        let second = match detail.yank {
            Some(yank) => first.push(
                TextLineView::Spans(
                    seq![
                        span("Clipboard:   "@, bold()),
                        span(
                            yank.source_env + " value (press p to paste)"@,
                            colored(Color::Yellow),
                        ),
                    ],
                ),
            ),
            None => first,
        };
        second.push(blank()).push(
            TextLineView::Spans(
                seq![
                    span("VALUES"@, bold()),
                    span(
                        if detail.reveal {
                            "   (revealed — r to hide)   ≡ = same value"@
                        } else {
                            "   (r to reveal)   ≡ = same value"@
                        },
                        colored(Color::DarkGray),
                    ),
                ],
            ),
        )
    }

    /// The values of a secret, environment by environment.
    pub open spec fn detail_values(
        self,
        detail: DetailView,
        row: SecretRowView,
    ) -> Seq<TextLineView> {
        Seq::new(
            self.environments.len(),
            |i: int|
                {
                    let value = value_in(row.variants, self.environments[i].id);
                    detail_line(
                        self.environments[i].name,
                        i == detail.selected_env,
                        value,
                        match value {
                            Some(value) => letter_in(groups(row.variants), value),
                            None => None,
                        },
                        detail.reveal,
                    )
                },
        )
    }

    /// The values of a secret.
    pub open spec fn detail_popup(self) -> Option<PopupView> {
        match self.detail {
            None => None,
            Some(detail) => match row_keyed(self.rows, detail.secret_key) {
                None => None,
                Some(row) => Some(
                    PopupView {
                        width: 78,
                        height: 74,
                        panel: PanelView {
                            title: Some(" "@ + detail.secret_key + " "@),
                            lines: (self.detail_top(detail, row) + self.detail_values(
                                detail,
                                row,
                            )).push(blank()).push(
                                whole(
                                    "↑↓ env · enter edit · y copy · p paste · r reveal · d clear · esc back"@,
                                    colored(Color::DarkGray),
                                ),
                            ),
                            trim: false,
                        },
                    },
                ),
            },
        }
    }

    /// A list to choose from.
    pub open spec fn switcher_popup(self, switcher: SwitcherView) -> PopupView {
        let items = self.items(switcher);
        let top = seq![
            TextLineView::Spans(
                seq![
                    span("filter: "@, colored(Color::DarkGray)),
                    span(
                        if switcher.filter.len() == 0 {
                            "—"@
                        } else {
                            switcher.filter
                        },
                        plain(),
                    ),
                ],
            ),
            blank(),
        ];
        let listed = if items.len() == 0 {
            top.push(whole("  (no matches — ctrl-n to add)"@, colored(Color::DarkGray)))
        } else {
            top + Seq::new(
                items.len(),
                |i: int| choice_line(items[i].1, i == switcher.selected),
            )
        };
        PopupView {
            width: 54,
            height: 60,
            panel: PanelView {
                title: Some(
                    match switcher.kind {
                        SwitcherKind::Project => "Select project"@,
                        SwitcherKind::Environment => "Select environment"@,
                    },
                ),
                lines: listed.push(blank()).push(
                    whole(
                        "enter select · type to filter · ctrl-n new · ctrl-r rename · ctrl-d delete · esc"@,
                        colored(Color::DarkGray),
                    ),
                ),
                trim: false,
            },
        }
    }

    /// The panel over the screen, if there is one.
    pub open spec fn popup(self) -> Option<PopupView> {
        match self.mode {
            Mode::Browse => None,
            Mode::Detail => self.detail_popup(),
            Mode::Editor => match self.editor {
                Some(editor) => Some(editor_popup(editor)),
                None => None,
            },
            Mode::Switcher => match self.switcher {
                Some(switcher) => Some(self.switcher_popup(switcher)),
                None => None,
            },
            Mode::Confirm => Some(confirm_popup(self.confirm)),
            Mode::Help => Some(help_popup()),
        }
    }
}

fn two_spans(a: Span, b: Span) -> (r: TextLine)
    ensures
        r@ == TextLineView::Spans(seq![a@, b@]),
{
    let mut spans = nothing();
    add_to(&mut spans, a);
    add_to(&mut spans, b);
    TextLine::Spans(spans)
}

fn three_spans(a: Span, b: Span, c: Span) -> (r: TextLine)
    ensures
        r@ == TextLineView::Spans(seq![a@, b@, c@]),
{
    let mut spans = nothing();
    add_to(&mut spans, a);
    add_to(&mut spans, b);
    add_to(&mut spans, c);
    TextLine::Spans(spans)
}

fn make_badge(letter: Option<char>) -> (r: Span)
    ensures
        r@ == badge(letter),
{
    match letter {
        Some(letter) => {
            let mut text = "≡".to_owned();
            text.push(letter);
            text.push(' ');
            Span::styled(text.as_str(), Style::colored(group_color(letter)))
        },
        None => Span::raw("   "),
    }
}

fn make_detail_value(value: Option<&String>, reveal: bool) -> (r: Span)
    ensures
        r@ == detail_value(
            match value {
                Some(value) => Some(value@),
                None => None,
            },
            reveal,
        ),
{
    match value {
        Some(value) => if reveal {
            Span::raw(truncate(value.as_str(), 44).as_str())
        } else {
            Span::styled("••••••••", Style::colored(Color::DarkGray))
        },
        None => Span::styled("— not set", Style::colored(Color::Red)),
    }
}

fn make_detail_line(
    name: &str,
    selected: bool,
    value: Option<&String>,
    groups: &ValueGroups,
    reveal: bool,
) -> (r: TextLine)
    ensures
        ({
            let shown = match value {
                Some(value) => Some(value@),
                None => None,
            };
            let letter = match value {
                Some(value) => letter_in(groups@, value@),
                None => None,
            };
            r@ == detail_line(name@, selected, shown, letter, reveal)
        }),
{
    let padded_name = pad(name, 14);
    let label: String;
    let style: Style;
    if selected {
        label = two_words("▸ ", padded_name.as_str());
        style = Style::colored(Color::Cyan).bold();
    } else {
        label = two_words("  ", padded_name.as_str());
        style = Style::plain();
    }
    let letter: Option<char> = match value {
        Some(value) => groups.get(value.as_str()),
        None => None,
    };
    three_spans(
        Span::styled(label.as_str(), style),
        make_badge(letter),
        make_detail_value(value, reveal),
    )
}

fn display(editor: &Editor) -> (r: Vec<char>)
    ensures
        r@ == displayed(editor@),
{
    let buffer = editor.buffer();
    let hidden = editor.is_masked() && !editor.is_revealed();
    if !hidden {
        return slice_of(buffer, 0, buffer.len());
    }
    let mut out: Vec<char> = Vec::new();
    let mut i: usize = 0;
    while i < buffer.len()
        invariant
            i <= buffer@.len(),
            out@ =~= Seq::new(i as nat, |i: int| '•'),
        decreases buffer@.len() - i,
    {
        out.push('•');
        i = i + 1;
    }
    out
}

fn make_input_line(shown: &Vec<char>, cursor: usize) -> (r: TextLine)
    requires
        cursor <= shown@.len(),
    ensures
        r@ == input_line(shown@, cursor as nat),
{
    let before = text_of(&slice_of(shown, 0, cursor));
    assert(before@ =~= shown@.take(cursor as int));
    let reversed = Style::plain().reversed();
    if cursor < shown.len() {
        let at = text_of(&slice_of(shown, cursor, cursor + 1));
        assert(at@ =~= seq![shown@[cursor as int]]);
        let after = text_of(&slice_of(shown, cursor + 1, shown.len()));
        assert(after@ =~= shown@.skip(cursor + 1));
        three_spans(
            Span::raw(before.as_str()),
            Span::styled(at.as_str(), reversed),
            Span::raw(after.as_str()),
        )
    } else {
        three_spans(Span::raw(before.as_str()), Span::styled(" ", reversed), Span::raw(""))
    }
}

/// An input field.
pub fn draw_editor(editor: &Editor) -> (r: Popup)
    ensures
        r@ == editor_popup(editor@),
{
    let cursor: usize = editor.cursor();
    let shown = display(editor);
    let hint = if editor.is_masked() {
        "enter save · esc cancel · ctrl-r reveal · ctrl-u clear"
    } else {
        "enter save · esc cancel · ctrl-u clear"
    };
    let mut lines = nothing();
    add_to(&mut lines, make_input_line(&shown, cursor));
    add_to(&mut lines, TextLine::blank());
    add_to(&mut lines, TextLine::whole(hint, Style::colored(Color::DarkGray)));
    Popup {
        width: 72,
        height: 24,
        panel: Panel { title: Some(editor.title().to_owned()), lines, trim: false },
    }
}

/// The question before a deletion.
pub fn draw_confirm(target: &Option<ConfirmTarget<String>>) -> (r: Popup)
    ensures
        r@ == confirm_popup(crate::tui::state::opt_view(*target)),
{
    let text: String = match target {
        Some(ConfirmTarget::Secret(key)) => words("secret \"", key.as_str(), "\" and its variants"),
        Some(ConfirmTarget::Project(name)) => words("project \"", name.as_str(), "\""),
        Some(ConfirmTarget::Environment(name)) => words(
            "environment \"",
            name.as_str(),
            "\" and its variants",
        ),
        None => "this item".to_owned(),
    };
    let mut lines = nothing();
    add_to(
        &mut lines,
        TextLine::whole(words("Delete ", text.as_str(), "?").as_str(), Style::plain()),
    );
    add_to(&mut lines, TextLine::blank());
    add_to(
        &mut lines,
        TextLine::whole("y: confirm   n/esc: cancel", Style::colored(Color::DarkGray)),
    );
    Popup {
        width: 56,
        height: 22,
        panel: Panel { title: Some("Confirm delete".to_owned()), lines, trim: true },
    }
}

fn add_help(lines: &mut Vec<TextLine>, keys: &str, text: &str)
    ensures
        views(final(lines)@) == views(old(lines)@).push(help_line(keys@, text@)),
{
    let label = two_words("  ", pad(keys, 20).as_str());
    let line = two_spans(
        Span::styled(label.as_str(), Style::colored(Color::Cyan)),
        Span::raw(text),
    );
    add_to(lines, line);
}

/// The help.
pub fn draw_help() -> (r: Popup)
    ensures
        r@ == help_popup(),
{
    let mut lines = nothing();
    add_to(&mut lines, TextLine::whole("Keys", Style::plain().bold()));
    add_help(&mut lines, "↑ ↓ / j k", "Move between secrets");
    add_help(&mut lines, "← → / h l", "Change the active environment column");
    add_help(&mut lines, "PgUp/PgDn Home/End", "Jump through the list");
    add_help(&mut lines, "enter", "Detail view: per-env values, edit, copy (y/p), reveal");
    add_help(&mut lines, "v", "Quick-edit the value for the active environment");
    add_help(&mut lines, "r", "Reveal the active environment's value column");
    add_help(&mut lines, "space", "Assign / unassign the secret to the active project");
    add_help(&mut lines, "p", "Switch active project (ctrl-n/r/d inside to manage)");
    add_help(&mut lines, "e", "Switch active environment (ctrl-n/r/d inside to manage)");
    add_help(&mut lines, "a", "Add a secret");
    add_help(&mut lines, "R", "Rename the focused secret");
    add_help(&mut lines, "c", "Edit the focused secret's description");
    add_help(&mut lines, "d", "Delete the focused secret");
    add_help(&mut lines, "/", "Search secrets by key or description");
    add_help(&mut lines, "f", "Toggle assigned-only / all secrets");
    add_help(&mut lines, "S", "Show sync status");
    add_help(&mut lines, "? / esc", "Close this help");
    add_help(&mut lines, "q", "Quit");
    Popup {
        width: 64,
        height: 80,
        panel: Panel { title: Some("Help".to_owned()), lines, trim: false },
    }
}

impl App {
    fn names_of_projects(&self, ids: &Vec<Id>) -> (r: Vec<String>)
        ensures
            texts(r@) == assigned_names(self@.projects, ids@, self@.projects.len()),
    {
        let ghost all = self@.projects;
        let mut out: Vec<String> = Vec::new();
        let mut i: usize = 0;
        assert(texts(out@) =~= Seq::empty());
        while i < self.projects.len()
            invariant
                i <= self.projects@.len(),
                all == views(self.projects@),
                texts(out@) == assigned_names(all, ids@, i as nat),
            decreases self.projects@.len() - i,
        {
            assert(all[i as int] == self.projects@[i as int]@);
            if has_id(ids, self.projects[i].id) {
                let ghost before = out@;
                out.push(self.projects[i].name.clone());
                assert(texts(out@) =~= texts(before).push(all[i as int].name));
            }
            i = i + 1;
        }
        out
    }

    fn lines_above_values(&self, detail: &Detail, row: &SecretRow) -> (r: Vec<TextLine>)
        ensures
            views(r@) == self@.detail_top(detail@, row@),
    {
        let bold = Style::plain().bold();
        let description: String = match &row.secret.description {
            Some(text) => text.clone(),
            None => "—".to_owned(),
        };
        let names = self.names_of_projects(&row.secret.assigned_project_ids);
        assert(texts(names@).len() == names@.len());
        let assigned: String = if names.len() == 0 {
            "(no projects)".to_owned()
        } else {
            join(&names, ", ")
        };
        let mut lines = nothing();
        add_to(
            &mut lines,
            two_spans(Span::styled("Description: ", bold), Span::raw(description.as_str())),
        );
        add_to(
            &mut lines,
            two_spans(Span::styled("Assigned to: ", bold), Span::raw(assigned.as_str())),
        );
        if let Some(yank) = &detail.yank {
            let text = two_words(yank.source_env.as_str(), " value (press p to paste)");
            add_to(
                &mut lines,
                two_spans(
                    Span::styled("Clipboard:   ", bold),
                    Span::styled(text.as_str(), Style::colored(Color::Yellow)),
                ),
            );
        }
        add_to(&mut lines, TextLine::blank());
        let hint = if detail.reveal {
            "   (revealed — r to hide)   ≡ = same value"
        } else {
            "   (r to reveal)   ≡ = same value"
        };
        add_to(
            &mut lines,
            two_spans(
                Span::styled("VALUES", bold),
                Span::styled(hint, Style::colored(Color::DarkGray)),
            ),
        );
        lines
    }

    fn lines_of_values(&self, detail: &Detail, row: &SecretRow) -> (r: Vec<TextLine>)
        ensures
            views(r@) == self@.detail_values(detail@, row@),
    {
        let groups = value_groups(row);
        let ghost app = self@;
        let ghost listed = app.detail_values(detail@, row@);
        let mut lines = nothing();
        let mut i: usize = 0;
        assert(listed.take(0) =~= Seq::empty());
        while i < self.environments.len()
            invariant
                i <= self.environments@.len(),
                app == self@,
                listed == app.detail_values(detail@, row@),
                groups@ == crate::tui::groups::groups(row@.variants),
                views(lines@) == listed.take(i as int),
            decreases self.environments@.len() - i,
        {
            let environment = &self.environments[i];
            let value = row.value(environment.id);
            let line = make_detail_line(
                environment.name.as_str(),
                i == detail.selected_env,
                value,
                &groups,
                detail.reveal,
            );
            proof {
                assert(app.environments[i as int] == environment@);
                assert(line@ == listed[i as int]);
                assert(listed.take(i + 1) =~= listed.take(i as int).push(listed[i as int]));
            }
            add_to(&mut lines, line);
            i = i + 1;
        }
        assert(listed.take(i as int) =~= listed);
        lines
    }

    /// The values of a secret.
    pub fn draw_detail(&self) -> (r: Option<Popup>)
        ensures
            crate::tui::state::opt_view(r) == self@.detail_popup(),
    {
        let detail = match &self.detail {
            Some(detail) => detail,
            None => return None,
        };
        let row = match crate::tui::inspect::find_row(&self.rows, detail.secret_key.as_str()) {
            Some(row) => row,
            None => return None,
        };
        let mut lines = self.lines_above_values(detail, row);
        join_to(&mut lines, self.lines_of_values(detail, row));
        add_to(&mut lines, TextLine::blank());
        add_to(
            &mut lines,
            TextLine::whole(
                "↑↓ env · enter edit · y copy · p paste · r reveal · d clear · esc back",
                Style::colored(Color::DarkGray),
            ),
        );
        Some(
            Popup {
                width: 78,
                height: 74,
                panel: Panel {
                    title: Some(words(" ", detail.secret_key.as_str(), " ")),
                    lines,
                    trim: false,
                },
            },
        )
    }

    fn lines_of_items(&self, switcher: &Switcher) -> (r: Vec<TextLine>)
        ensures
            ({
                let items = self@.items(switcher@);
                views(r@) == if items.len() == 0 {
                    seq![whole("  (no matches — ctrl-n to add)"@, colored(Color::DarkGray))]
                } else {
                    Seq::new(items.len(), |i: int| choice_line(items[i].1, i == switcher.selected))
                }
            }),
    {
        let items = self.switcher_items(switcher);
        let ghost all = item_views(items@);
        let mut lines = nothing();
        if items.len() == 0 {
            add_to(
                &mut lines,
                TextLine::whole("  (no matches — ctrl-n to add)", Style::colored(Color::DarkGray)),
            );
            return lines;
        }
        let ghost listed = Seq::new(
            all.len(),
            |i: int| choice_line(all[i].1, i == switcher.selected),
        );
        let mut i: usize = 0;
        assert(listed.take(0) =~= Seq::empty());
        while i < items.len()
            invariant
                i <= items@.len(),
                all == item_views(items@),
                listed == Seq::new(
                    all.len(),
                    |i: int| choice_line(all[i].1, i == switcher.selected),
                ),
                views(lines@) == listed.take(i as int),
            decreases items@.len() - i,
        {
            let name = items[i].1.as_str();
            assert(all[i as int].1 == name@);
            if i == switcher.selected {
                let mut spans = nothing();
                let text = two_words("▸ ", name);
                add_to(
                    &mut spans,
                    Span::styled(text.as_str(), Style::colored(Color::Cyan).bold()),
                );
                add_to(&mut lines, TextLine::Spans(spans));
            } else {
                let text = two_words("  ", name);
                add_to(&mut lines, TextLine::whole(text.as_str(), Style::plain()));
            }
            assert(listed.take(i + 1) =~= listed.take(i as int).push(listed[i as int]));
            i = i + 1;
        }
        assert(listed.take(i as int) =~= listed);
        lines
    }

    /// A list to choose from.
    pub fn draw_switcher(&self, switcher: &Switcher) -> (r: Popup)
        ensures
            r@ == self@.switcher_popup(switcher@),
    {
        let title = match switcher.kind {
            SwitcherKind::Project => "Select project",
            SwitcherKind::Environment => "Select environment",
        };
        let filter = if switcher.filter.as_str().is_empty() {
            "—"
        } else {
            switcher.filter.as_str()
        };
        let mut lines = nothing();
        add_to(
            &mut lines,
            two_spans(
                Span::styled("filter: ", Style::colored(Color::DarkGray)),
                Span::raw(filter),
            ),
        );
        add_to(&mut lines, TextLine::blank());
        let ghost top = views(lines@);
        let items = self.lines_of_items(switcher);
        join_to(&mut lines, items);
        proof {
            let line = whole("  (no matches — ctrl-n to add)"@, colored(Color::DarkGray));
            assert(top + seq![line] =~= top.push(line));
        }
        add_to(&mut lines, TextLine::blank());
        add_to(
            &mut lines,
            TextLine::whole(
                "enter select · type to filter · ctrl-n new · ctrl-r rename · ctrl-d delete · esc",
                Style::colored(Color::DarkGray),
            ),
        );
        Popup {
            width: 54,
            height: 60,
            panel: Panel { title: Some(title.to_owned()), lines, trim: false },
        }
    }

    /// The panel over the screen, if there is one.
    pub fn popup(&self) -> (r: Option<Popup>)
        ensures
            crate::tui::state::opt_view(r) == self@.popup(),
    {
        match self.mode {
            Mode::Browse => None,
            Mode::Detail => self.draw_detail(),
            Mode::Editor => match &self.editor {
                Some(editor) => Some(draw_editor(editor)),
                None => None,
            },
            Mode::Switcher => match &self.switcher {
                Some(switcher) => Some(self.draw_switcher(switcher)),
                None => None,
            },
            Mode::Confirm => Some(draw_confirm(&self.confirm)),
            Mode::Help => Some(draw_help()),
        }
    }
}

/// As long as the text of a masked field is not revealed, the field shows nothing of it but how
/// long it is and where the cursor stands.
pub proof fn law_field_hides_its_text(a: EditorView, b: EditorView)
    requires
        b == (EditorView { buffer: b.buffer, ..a }),
        a.buffer.len() == b.buffer.len(),
        a.masked && !a.reveal,
    ensures
        editor_popup(a) == editor_popup(b),
{
    assert(displayed(a) =~= displayed(b));
}

proof fn lemma_value_place(
    a: Seq<(Id, Seq<char>)>,
    b: Seq<(Id, Seq<char>)>,
    environment_id: Id,
) -> (p: int)
    requires
        a.len() == b.len(),
        forall|j: int| 0 <= j < a.len() ==> (#[trigger] a[j]).0 == b[j].0,
    ensures
        value_in(a, environment_id) is None ==> value_in(b, environment_id) is None,
        value_in(a, environment_id) is Some ==> 0 <= p < a.len() && value_in(a, environment_id)
            == Some(a[p].1) && value_in(b, environment_id) == Some(b[p].1),
    decreases a.len(),
{
    if a.len() == 0 {
        0
    } else if a.last().0 == environment_id {
        assert(b.last().0 == environment_id);
        a.len() - 1
    } else {
        let x = a.drop_last();
        let y = b.drop_last();
        assert(a[a.len() - 1].0 == b[b.len() - 1].0);
        assert forall|j: int| 0 <= j < x.len() implies (#[trigger] x[j]).0 == y[j].0 by {
            assert(a[j].0 == b[j].0);
        }
        lemma_value_place(x, y, environment_id)
    }
}

proof fn lemma_keyed_alike(a: Seq<SecretRowView>, b: Seq<SecretRowView>, key: Seq<char>) -> (i: int)
    requires
        a.len() == b.len(),
        forall|j: int| 0 <= j < a.len() ==> (#[trigger] a[j]).secret == b[j].secret,
    ensures
        row_keyed(a, key) is None ==> row_keyed(b, key) is None,
        row_keyed(a, key) is Some ==> 0 <= i < a.len() && row_keyed(a, key) == Some(a[i])
            && row_keyed(b, key) == Some(b[i]),
    decreases a.len(),
{
    if a.len() == 0 {
        0
    } else if a[0].secret.key == key {
        assert(a[0].secret == b[0].secret);
        0
    } else {
        let x = a.drop_first();
        let y = b.drop_first();
        assert(a[0].secret == b[0].secret);
        assert forall|j: int| 0 <= j < x.len() implies (#[trigger] x[j]).secret == y[j].secret by {
            assert(a[j + 1].secret == b[j + 1].secret);
        }
        let i = lemma_keyed_alike(x, y, key);
        i + 1
    }
}

/// As long as values are not revealed, the dialog of a secret says nothing of them but where
/// there are any and which of them are equal.
pub proof fn law_detail_hides_values(a: AppView, b: AppView)
    requires
        alike_but_for_values(a, b),
        forall|i: int|
            0 <= i < a.rows.len() ==> same_pattern(
                (#[trigger] a.rows[i]).variants,
                b.rows[i].variants,
            ),
        a.detail matches Some(detail) ==> !detail.reveal,
    ensures
        a.detail_popup() == b.detail_popup(),
{
    if let Some(detail) = a.detail {
        assert forall|j: int| 0 <= j < a.rows.len() implies (#[trigger] a.rows[j]).secret
            == b.rows[j].secret by {}
        let i = lemma_keyed_alike(a.rows, b.rows, detail.secret_key);
        if row_keyed(a.rows, detail.secret_key) is Some {
            let x = a.rows[i];
            let y = b.rows[i];
            assert(same_pattern(x.variants, y.variants));
            assert forall|k: int| 0 <= k < a.environments.len() implies a.detail_values(
                detail,
                x,
            )[k] == b.detail_values(detail, y)[k] by {
                let id = a.environments[k].id;
                let p = lemma_value_place(x.variants, y.variants, id);
                if value_in(x.variants, id) is Some {
                    law_letters_hide_values(x.variants, y.variants, p);
                }
            }
            assert(a.detail_values(detail, x) =~= b.detail_values(detail, y));
            assert(a.detail_top(detail, x) == b.detail_top(detail, y));
        }
    }
}

} // verus!
