//! The parts of the screen: the context, the lists of projects and environments, the table of
//! secrets and the status line.

use crate::ids::Id;
use crate::order::views;
use crate::text::{decimal, decimal_text, head, join, joined, texts};
use crate::tui::editing::{environment_names, project_names};
use crate::tui::paint::{
    add_to, blank, bold, colored, join_to, nothing, plain, short, span, truncate, truncated, whole,
    Color, Panel, PanelView, Span, SpanView, Style, TextLine, TextLineView,
};
use crate::tui::select::{covered, has_id, lemma_shown_inside};
use crate::tui::state::{value_in, App, AppView, Level, SecretRow, SecretRowView};
use crate::tui::update::{two_words, words};
use vstd::prelude::*;

verus! {

/// A name, or a dash where there is none.
pub open spec fn or_dash(name: Option<Seq<char>>) -> Seq<char> {
    match name {
        Some(name) => name,
        None => "—"@,
    }
}

/// A line of a list of names; the active one is marked.
pub open spec fn rail_line(name: Seq<char>, active: bool) -> TextLineView {
    if active {
        TextLineView::Spans(
            seq![
                span("▸ "@, colored(Color::Cyan)),
                span(name, Style { bold: true, ..colored(Color::Cyan) }),
            ],
        )
    } else {
        whole("  "@ + name, plain())
    }
}

/// A list of names under a heading.
pub open spec fn rail_section(
    heading: Seq<char>,
    names: Seq<Seq<char>>,
    active: nat,
) -> Seq<TextLineView> {
    let top = seq![whole(heading, bold())];
    if names.len() == 0 {
        top.push(whole("  (none)"@, colored(Color::DarkGray)))
    } else {
        top + Seq::new(names.len(), |i: int| rail_line(names[i], i == active))
    }
}

/// How a name of an environment stands above its column.
pub open spec fn column_style(active: bool) -> Style {
    if active {
        Style { bold: true, ..colored(Color::Cyan) }
    } else {
        Style { dim: true, ..plain() }
    }
}

/// The mark of a value in its column.
pub open spec fn value_mark(present: bool, active: bool) -> SpanView {
    let style = colored(
        if present {
            Color::Green
        } else {
            Color::DarkGray
        },
    );
    span(
        if present {
            "●"@
        } else {
            "○"@
        },
        Style { bold: active, ..style },
    )
}

/// The value in the active environment, hidden unless it is revealed.
pub open spec fn value_preview(value: Option<Seq<char>>, reveal: bool, assigned: bool) -> SpanView {
    match value {
        Some(value) => if reveal {
            span(truncated(value, 24), plain())
        } else {
            span("••••••••"@, colored(Color::DarkGray))
        },
        None => if assigned {
            span("— missing"@, colored(Color::Red))
        } else {
            span("—"@, colored(Color::DarkGray))
        },
    }
}

/// A row of the table.
#[derive(Debug)]
pub struct TableRow {
    pub cells: Vec<Span>,
    pub style: Style,
}

/// `TableRow` over views.
#[verifier::ext_equal]
pub struct TableRowView {
    pub cells: Seq<SpanView>,
    pub style: Style,
}

impl View for TableRow {
    type V = TableRowView;

    open spec fn view(&self) -> TableRowView {
        TableRowView { cells: views(self.cells@), style: self.style }
    }
}

/// The table of secrets.
#[derive(Debug)]
pub struct SecretTable {
    pub title: String,
    pub header: Vec<Span>,
    pub rows: Vec<TableRow>,
    pub selected: Option<usize>,
    /// What is told in place of rows.
    pub hint: Option<String>,
}

/// `SecretTable` over views.
#[verifier::ext_equal]
pub struct SecretTableView {
    pub title: Seq<char>,
    pub header: Seq<SpanView>,
    pub rows: Seq<TableRowView>,
    pub selected: Option<usize>,
    pub hint: Option<Seq<char>>,
}

impl View for SecretTable {
    type V = SecretTableView;

    open spec fn view(&self) -> SecretTableView {
        SecretTableView {
            title: self.title@,
            header: views(self.header@),
            rows: views(self.rows@),
            selected: self.selected,
            hint: crate::text::opt_text(self.hint),
        }
    }
}

impl AppView {
    /// The name of the active project.
    pub open spec fn project_name(self) -> Option<Seq<char>> {
        match self.project() {
            Some(project) => Some(project.name),
            None => None,
        }
    }

    /// The name of the active environment.
    pub open spec fn environment_name(self) -> Option<Seq<char>> {
        match self.environment() {
            Some(environment) => Some(environment.name),
            None => None,
        }
    }

    /// How much of what the active project needs has a value in the active environment.
    pub open spec fn coverage_spans(self) -> Seq<SpanView> {
        match (self.project(), self.environment()) {
            (Some(project), Some(environment)) => {
                let (resolved, total, missing) = covered(self.rows, project.id, environment.id);
                let count = "Coverage "@ + decimal_text(resolved) + "/"@ + decimal_text(total);
                if missing.len() == 0 {
                    seq![span(count + " ✓"@, colored(Color::Green))]
                } else {
                    seq![
                        span(count + " ⚠ "@, colored(Color::Red)),
                        span(truncated(joined(missing, ", "@), 32), colored(Color::Red)),
                    ]
                }
            },
            _ => seq![span("Coverage —"@, plain())],
        }
    }

    /// The context: the active project and environment, what is missing, and the log.
    pub open spec fn context_panel(self) -> PanelView {
        let spans = seq![
            span("envctl"@, Style { bold: true, ..colored(Color::Cyan) }),
            span("   Project "@, plain()),
            span(or_dash(self.project_name()), bold()),
            span("   Env "@, plain()),
            span(or_dash(self.environment_name()), bold()),
            span("   "@, plain()),
        ] + self.coverage_spans();
        PanelView {
            title: None,
            lines: seq![
                TextLineView::Spans(
                    spans.push(span("   sync "@ + decimal_text(self.sync_ops), plain())),
                ),
            ],
            trim: true,
        }
    }

    /// The projects and the environments.
    pub open spec fn rail_panel(self) -> PanelView {
        PanelView {
            title: None,
            lines: rail_section(
                "PROJECTS"@,
                project_names(self.projects),
                self.active_project,
            ).push(blank()) + rail_section(
                "ENVIRONMENTS"@,
                environment_names(self.environments),
                self.active_env,
            ),
            trim: false,
        }
    }

    /// The headings of the table.
    pub open spec fn table_header(self) -> Seq<SpanView> {
        let columns = Seq::new(
            self.environments.len(),
            |i: int|
                span(head(self.environments[i].name, 4), column_style(i == self.active_env)),
        );
        (seq![span("KEY"@, plain()), span("✓"@, plain())] + columns).push(
            span(
                match self.environment() {
                    Some(environment) => "value · "@ + environment.name,
                    None => "value"@,
                },
                plain(),
            ),
        )
    }

    /// Whether a secret is assigned to the active project.
    pub open spec fn assigned(self, row: SecretRowView) -> bool {
        match self.project() {
            Some(project) => row.secret.assigned_project_ids.contains(project.id),
            None => false,
        }
    }

    /// The row of a secret: its key, whether it is assigned, where it has values, and the value
    /// in the active environment.
    pub open spec fn table_row(self, row: SecretRowView) -> TableRowView {
        let assigned = self.assigned(row);
        let marks = Seq::new(
            self.environments.len(),
            |i: int|
                value_mark(
                    value_in(row.variants, self.environments[i].id) is Some,
                    i == self.active_env,
                ),
        );
        let preview = value_preview(
            match self.environment() {
                Some(environment) => value_in(row.variants, environment.id),
                None => None,
            },
            self.reveal_cell,
            assigned,
        );
        let mark = if assigned {
            "◆"@
        } else {
            " "@
        };
        TableRowView {
            cells: (seq![span(row.secret.key, plain()), span(mark, plain())] + marks).push(preview),
            style: Style { dim: !assigned, ..plain() },
        }
    }

    /// What the table lists, and what is searched for.
    pub open spec fn table_title(self) -> Seq<char> {
        let scope = if self.assigned_only {
            "Secrets · assigned to "@ + or_dash(self.project_name())
        } else {
            "Secrets · all"@
        };
        if self.filter.len() == 0 {
            scope
        } else {
            scope + "   /"@ + self.filter
        }
    }

    /// The table of the secrets that are shown.
    pub open spec fn table(self) -> SecretTableView {
        let shown = self.filtered();
        SecretTableView {
            title: self.table_title(),
            header: self.table_header(),
            rows: Seq::new(shown.len(), |i: int| self.table_row(self.rows[shown[i] as int])),
            selected: if shown.len() == 0 {
                None
            } else if self.selected_row < shown.len() {
                Some(self.selected_row as usize)
            } else {
                Some((shown.len() - 1) as usize)
            },
            hint: if shown.len() > 0 {
                None
            } else if self.rows.len() == 0 {
                Some("No secrets yet. Press a to add one."@)
            } else {
                Some("No secrets match. Press f to show all, or / to clear the search."@)
            },
        }
    }

    /// The message and the keys.
    pub open spec fn footer_panel(self) -> PanelView {
        let message = if self.status.text.len() == 0 {
            blank()
        } else {
            whole(
                self.status.text,
                colored(
                    match self.status.level {
                        Level::Success => Color::Green,
                        Level::Error => Color::Red,
                        Level::Info => Color::Gray,
                    },
                ),
            )
        };
        PanelView {
            title: None,
            lines: seq![message, whole(key_hints(), colored(Color::DarkGray))],
            trim: true,
        }
    }
}

/// The keys that the status line names.
pub open spec fn key_hints() -> Seq<char> {
    "↑↓ move  ←→ env  enter details  v edit  space assign  p project  e env  a add  d delete  / search  f scope  r reveal  ? help  q quit"@
}

fn name_line(name: &str, active: bool) -> (r: TextLine)
    ensures
        r@ == rail_line(name@, active),
{
    if active {
        let mut spans = nothing();
        add_to(&mut spans, Span::styled("▸ ", Style::colored(Color::Cyan)));
        add_to(&mut spans, Span::styled(name, Style::colored(Color::Cyan).bold()));
        TextLine::Spans(spans)
    } else {
        TextLine::whole(two_words("  ", name).as_str(), Style::plain())
    }
}

fn name_section(heading: &str, names: &Vec<String>, active: usize) -> (r: Vec<TextLine>)
    ensures
        views(r@) == rail_section(heading@, texts(names@), active as nat),
{
    let mut lines = nothing();
    add_to(&mut lines, TextLine::whole(heading, Style::plain().bold()));
    let ghost top = views(lines@);
    let ghost all = texts(names@);
    if names.len() == 0 {
        add_to(&mut lines, TextLine::whole("  (none)", Style::colored(Color::DarkGray)));
        return lines;
    }
    let ghost listed = Seq::new(all.len(), |i: int| rail_line(all[i], i == active));
    let mut i: usize = 0;
    assert(top + listed.take(0) =~= top);
    while i < names.len()
        invariant
            i <= names@.len(),
            all == texts(names@),
            listed == Seq::new(all.len(), |i: int| rail_line(all[i], i == active)),
            views(lines@) == top + listed.take(i as int),
        decreases names@.len() - i,
    {
        add_to(&mut lines, name_line(names[i].as_str(), i == active));
        proof {
            assert(all[i as int] == names@[i as int]@);
            assert(top + listed.take(i + 1) =~= (top + listed.take(i as int)).push(
                listed[i as int],
            ));
        }
        i = i + 1;
    }
    assert(listed.take(i as int) =~= listed);
    lines
}

fn mark_value(present: bool, active: bool) -> (r: Span)
    ensures
        r@ == value_mark(present, active),
{
    let style = if present {
        Style::colored(Color::Green)
    } else {
        Style::colored(Color::DarkGray)
    };
    let style = if active {
        style.bold()
    } else {
        style
    };
    if present {
        Span::styled("●", style)
    } else {
        Span::styled("○", style)
    }
}

fn preview_value(value: Option<&String>, reveal: bool, assigned: bool) -> (r: Span)
    ensures
        r@ == value_preview(
            match value {
                Some(value) => Some(value@),
                None => None,
            },
            reveal,
            assigned,
        ),
{
    match value {
        Some(value) => if reveal {
            Span::raw(truncate(value.as_str(), 24).as_str())
        } else {
            Span::styled("••••••••", Style::colored(Color::DarkGray))
        },
        None => if assigned {
            Span::styled("— missing", Style::colored(Color::Red))
        } else {
            Span::styled("—", Style::colored(Color::DarkGray))
        },
    }
}

impl App {
    fn active_project_name(&self) -> (r: String)
        ensures
            r@ == or_dash(self@.project_name()),
    {
        match self.active_project() {
            Some(project) => project.name.clone(),
            None => "—".to_owned(),
        }
    }

    fn active_environment_name(&self) -> (r: String)
        ensures
            r@ == or_dash(self@.environment_name()),
    {
        match self.active_environment() {
            Some(environment) => environment.name.clone(),
            None => "—".to_owned(),
        }
    }

    fn coverage_parts(&self) -> (r: Vec<Span>)
        ensures
            views(r@) == self@.coverage_spans(),
    {
        let mut spans = nothing();
        match self.coverage() {
            Some((resolved, total, missing)) => {
                let mut count = "Coverage ".to_owned();
                count.append(decimal(resolved).as_str());
                count.append("/");
                count.append(decimal(total).as_str());
                assert(texts(missing@).len() == missing@.len());
                if missing.len() == 0 {
                    count.append(" ✓");
                    add_to(&mut spans, Span::styled(count.as_str(), Style::colored(Color::Green)));
                } else {
                    count.append(" ⚠ ");
                    add_to(&mut spans, Span::styled(count.as_str(), Style::colored(Color::Red)));
                    let list = truncate(join(&missing, ", ").as_str(), 32);
                    add_to(&mut spans, Span::styled(list.as_str(), Style::colored(Color::Red)));
                }
            },
            None => add_to(&mut spans, Span::raw("Coverage —")),
        }
        spans
    }

    /// The context: the active project and environment, what is missing, and the log.
    pub fn context_panel(&self) -> (r: Panel)
        ensures
            r@ == self@.context_panel(),
    {
        let bold = Style::plain().bold();
        let mut spans = nothing();
        add_to(&mut spans, Span::styled("envctl", Style::colored(Color::Cyan).bold()));
        add_to(&mut spans, Span::raw("   Project "));
        add_to(&mut spans, Span::styled(self.active_project_name().as_str(), bold));
        add_to(&mut spans, Span::raw("   Env "));
        add_to(&mut spans, Span::styled(self.active_environment_name().as_str(), bold));
        add_to(&mut spans, Span::raw("   "));
        join_to(&mut spans, self.coverage_parts());
        add_to(
            &mut spans,
            Span::raw(two_words("   sync ", decimal(self.sync_ops).as_str()).as_str()),
        );
        let line = TextLine::Spans(spans);
        assert(line@ == self@.context_panel().lines[0]);
        let mut lines = nothing();
        add_to(&mut lines, line);
        Panel { title: None, lines, trim: true }
    }

    /// The projects and the environments.
    pub fn rail_panel(&self) -> (r: Panel)
        ensures
            r@ == self@.rail_panel(),
    {
        let mut lines = name_section("PROJECTS", &self.project_names(), self.active_project);
        add_to(&mut lines, TextLine::blank());
        join_to(
            &mut lines,
            name_section("ENVIRONMENTS", &self.environment_names(), self.active_env),
        );
        Panel { title: None, lines, trim: false }
    }

    fn header_cells(&self) -> (r: Vec<Span>)
        ensures
            views(r@) == self@.table_header(),
    {
        let ghost app = self@;
        let mut cells = nothing();
        add_to(&mut cells, Span::raw("KEY"));
        add_to(&mut cells, Span::raw("✓"));
        let ghost top = views(cells@);
        let ghost columns = Seq::new(
            app.environments.len(),
            |i: int| span(head(app.environments[i].name, 4), column_style(i == app.active_env)),
        );
        let mut i: usize = 0;
        assert(top + columns.take(0) =~= top);
        while i < self.environments.len()
            invariant
                i <= self.environments@.len(),
                app == self@,
                columns == Seq::new(
                    app.environments.len(),
                    |i: int|
                        span(head(app.environments[i].name, 4), column_style(i == app.active_env)),
                ),
                views(cells@) == top + columns.take(i as int),
            decreases self.environments@.len() - i,
        {
            let style = if i == self.active_env {
                Style::colored(Color::Cyan).bold()
            } else {
                Style::plain().dim()
            };
            let name = short(self.environments[i].name.as_str(), 4);
            add_to(&mut cells, Span::styled(name.as_str(), style));
            proof {
                assert(app.environments[i as int] == self.environments@[i as int]@);
                assert(top + columns.take(i + 1) =~= (top + columns.take(i as int)).push(
                    columns[i as int],
                ));
            }
            i = i + 1;
        }
        assert(columns.take(i as int) =~= columns);
        let value: String = match self.active_environment() {
            Some(environment) => two_words("value · ", environment.name.as_str()),
            None => "value".to_owned(),
        };
        add_to(&mut cells, Span::raw(value.as_str()));
        cells
    }

    fn secret_row(&self, row: &SecretRow) -> (r: TableRow)
        ensures
            r@ == self@.table_row(row@),
    {
        let ghost app = self@;
        let assigned: bool = match self.active_project() {
            Some(project) => has_id(&row.secret.assigned_project_ids, project.id),
            None => false,
        };
        let mut cells = nothing();
        add_to(&mut cells, Span::raw(row.secret.key.as_str()));
        add_to(
            &mut cells,
            Span::raw(
                if assigned {
                    "◆"
                } else {
                    " "
                },
            ),
        );
        let ghost top = views(cells@);
        let ghost marks = Seq::new(
            app.environments.len(),
            |i: int|
                value_mark(
                    value_in(row@.variants, app.environments[i].id) is Some,
                    i == app.active_env,
                ),
        );
        let mut i: usize = 0;
        assert(top + marks.take(0) =~= top);
        while i < self.environments.len()
            invariant
                i <= self.environments@.len(),
                app == self@,
                marks == Seq::new(
                    app.environments.len(),
                    |i: int|
                        value_mark(
                            value_in(row@.variants, app.environments[i].id) is Some,
                            i == app.active_env,
                        ),
                ),
                views(cells@) == top + marks.take(i as int),
            decreases self.environments@.len() - i,
        {
            let present = row.value(self.environments[i].id).is_some();
            add_to(&mut cells, mark_value(present, i == self.active_env));
            proof {
                assert(app.environments[i as int] == self.environments@[i as int]@);
                assert(top + marks.take(i + 1) =~= (top + marks.take(i as int)).push(
                    marks[i as int],
                ));
            }
            i = i + 1;
        }
        assert(marks.take(i as int) =~= marks);
        let value: Option<&String> = match self.active_environment() {
            Some(environment) => row.value(environment.id),
            None => None,
        };
        add_to(&mut cells, preview_value(value, self.reveal_cell, assigned));
        let style = if assigned {
            Style::plain()
        } else {
            Style::plain().dim()
        };
        TableRow { cells, style }
    }

    fn secret_rows(&self, shown: &Vec<usize>) -> (r: Vec<TableRow>)
        requires
            shown@ == self@.filtered(),
        ensures
            views(r@) == self@.table().rows,
    {
        let ghost app = self@;
        let ghost listed = app.table().rows;
        let mut rows = nothing();
        let mut i: usize = 0;
        assert(listed.take(0) =~= Seq::empty());
        proof {
            assert(app.rows.len() == self.rows.len());
            lemma_shown_inside(app, app.rows.len());
        }
        while i < shown.len()
            invariant
                i <= shown@.len(),
                app == self@,
                listed == app.table().rows,
                shown@ == app.filtered(),
                app.rows.len() == self.rows@.len(),
                forall|j: int| 0 <= j < shown@.len() ==> (#[trigger] shown@[j]) < self.rows@.len(),
                views(rows@) == listed.take(i as int),
            decreases shown@.len() - i,
        {
            let k: usize = shown[i];
            add_to(&mut rows, self.secret_row(&self.rows[k]));
            proof {
                assert(app.rows[k as int] == self.rows@[k as int]@);
                assert(listed[i as int] == app.table_row(app.rows[k as int]));
                assert(listed.take(i + 1) =~= listed.take(i as int).push(listed[i as int]));
            }
            i = i + 1;
        }
        assert(listed.take(i as int) =~= listed);
        rows
    }

    fn title_of_table(&self) -> (r: String)
        ensures
            r@ == self@.table_title(),
    {
        let scope: String = if self.assigned_only {
            two_words("Secrets · assigned to ", self.active_project_name().as_str())
        } else {
            "Secrets · all".to_owned()
        };
        if self.filter.as_str().is_empty() {
            scope
        } else {
            words(scope.as_str(), "   /", self.filter.as_str())
        }
    }

    /// The table of the secrets that are shown.
    pub fn table(&self) -> (r: SecretTable)
        ensures
            r@ == self@.table(),
    {
        let shown = self.filtered_rows();
        let rows = self.secret_rows(&shown);
        let selected: Option<usize> = if shown.len() == 0 {
            None
        } else if self.selected_row < shown.len() {
            Some(self.selected_row)
        } else {
            Some(shown.len() - 1)
        };
        let hint: Option<String> = if shown.len() > 0 {
            None
        } else if self.rows.len() == 0 {
            Some("No secrets yet. Press a to add one.".to_owned())
        } else {
            Some("No secrets match. Press f to show all, or / to clear the search.".to_owned())
        };
        SecretTable {
            title: self.title_of_table(),
            header: self.header_cells(),
            rows,
            selected,
            hint,
        }
    }

    /// The message and the keys.
    pub fn footer_panel(&self) -> (r: Panel)
        ensures
            r@ == self@.footer_panel(),
    {
        let mut lines = nothing();
        if self.status.text.as_str().is_empty() {
            add_to(&mut lines, TextLine::blank());
        } else {
            let color = match self.status.level {
                Level::Success => Color::Green,
                Level::Error => Color::Red,
                Level::Info => Color::Gray,
            };
            add_to(&mut lines, TextLine::whole(self.status.text.as_str(), Style::colored(color)));
        }
        add_to(
            &mut lines,
            TextLine::whole(
                "↑↓ move  ←→ env  enter details  v edit  space assign  p project  e env  a add  d delete  / search  f scope  r reveal  ? help  q quit",
                Style::colored(Color::DarkGray),
            ),
        );
        Panel { title: None, lines, trim: true }
    }
}

/// Whether two interfaces differ at most in the values of secrets, environment by environment.
pub open spec fn alike_but_for_values(a: AppView, b: AppView) -> bool {
    &&& b == (AppView { rows: b.rows, ..a })
    &&& a.rows.len() == b.rows.len()
    &&& forall|i: int|
        0 <= i < a.rows.len() ==> {
            let x = #[trigger] a.rows[i];
            let y = b.rows[i];
            &&& x.secret == y.secret
            &&& x.variants.len() == y.variants.len()
            &&& forall|j: int|
                0 <= j < x.variants.len() ==> (#[trigger] x.variants[j]).0 == y.variants[j].0
        }
}

proof fn lemma_value_present(
    a: Seq<(Id, Seq<char>)>,
    b: Seq<(Id, Seq<char>)>,
    environment_id: Id,
)
    requires
        a.len() == b.len(),
        forall|j: int| 0 <= j < a.len() ==> (#[trigger] a[j]).0 == b[j].0,
    ensures
        value_in(a, environment_id) is Some <==> value_in(b, environment_id) is Some,
    decreases a.len(),
{
    if a.len() > 0 {
        assert(a.last().0 == b.last().0);
        assert forall|j: int| 0 <= j < a.drop_last().len() implies (#[trigger] a.drop_last()[j]).0
            == b.drop_last()[j].0 by {
            assert(a[j].0 == b[j].0);
        }
        lemma_value_present(a.drop_last(), b.drop_last(), environment_id);
    }
}

proof fn lemma_same_shown(a: AppView, b: AppView, n: nat)
    requires
        alike_but_for_values(a, b),
        n <= a.rows.len(),
    ensures
        a.shown_among(n) == b.shown_among(n),
    decreases n,
{
    if n > 0 {
        lemma_same_shown(a, b, (n - 1) as nat);
        assert(a.rows[n - 1].secret == b.rows[n - 1].secret);
    }
}

/// As long as values are not revealed, the table says nothing of them but where there are any.
pub proof fn law_table_hides_values(a: AppView, b: AppView)
    requires
        alike_but_for_values(a, b),
        a.rows.len() <= usize::MAX,
        !a.reveal_cell,
    ensures
        a.table() == b.table(),
{
    lemma_same_shown(a, b, a.rows.len());
    lemma_shown_inside(a, a.rows.len());
    let shown = a.filtered();
    assert forall|i: int| 0 <= i < shown.len() implies a.table().rows[i] == b.table().rows[i] by {
        let x = a.rows[shown[i] as int];
        let y = b.rows[shown[i] as int];
        assert(x.secret == y.secret);
        assert forall|k: int| 0 <= k < a.environments.len() implies value_in(
            x.variants,
            (#[trigger] a.environments[k]).id,
        ) is Some == value_in(y.variants, a.environments[k].id) is Some by {
            lemma_value_present(x.variants, y.variants, a.environments[k].id);
        }
        if let Some(environment) = a.environment() {
            lemma_value_present(x.variants, y.variants, environment.id);
        }
        assert(a.table_row(x).cells =~= b.table_row(y).cells);
    }
    assert(a.table().rows =~= b.table().rows);
    assert(a.table().header =~= b.table().header);
}

} // verus!
