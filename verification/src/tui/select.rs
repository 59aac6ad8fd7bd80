//! What the interface reads from its state: which rows it shows, which one has the focus, and
//! how much of the active project is covered.

use crate::domain::{
    Environment, EnvironmentView, Project, ProjectView, SecretVariant, SecretVariantView,
    SecretView,
};
use crate::error::{StoreError, StoreErrorView};
use crate::ids::Id;
use crate::order::{
    collected, lemma_collected_prefix, lemma_views_push, views,
};
use crate::registry::{list_view, SecretRegistry};
use crate::store::Store;
use crate::tables::{StoreView, Table};
use crate::text::{find_chars, lower_chars, lowered, occurs_in, opt_text, same, texts};
use crate::tui::state::{
    value_in, variant_views, wrong, App, AppView, Mode, SecretRow, SecretRowView, Status,
};
use vstd::prelude::*;

verus! {

/// An index kept inside a list: the last one where it lies behind it, zero in an empty list.
pub open spec fn clamped(index: nat, len: nat) -> nat {
    if len == 0 {
        0
    } else if index >= len {
        (len - 1) as nat
    } else {
        index
    }
}

/// An index moved by a distance, inside a list.
pub open spec fn moved(index: nat, len: nat, delta: int) -> nat {
    if len == 0 || index + delta < 0 {
        0
    } else if index + delta >= len {
        (len - 1) as nat
    } else {
        (index + delta) as nat
    }
}

/// Keeps an index inside a list.
pub fn clamp_index(index: usize, len: usize) -> (r: usize)
    ensures
        r == clamped(index as nat, len as nat),
{
    if len == 0 {
        0
    } else if index >= len {
        len - 1
    } else {
        index
    }
}

/// Moves an index by a distance, inside a list.
pub fn move_index(index: usize, len: usize, delta: isize) -> (r: usize)
    ensures
        r == moved(index as nat, len as nat, delta as int),
{
    if len == 0 {
        return 0;
    }
    if delta < 0 {
        let back: usize = (-(delta + 1)) as usize;
        if index <= back {
            0
        } else if index - back - 1 >= len {
            len - 1
        } else {
            index - back - 1
        }
    } else {
        let forth: usize = delta as usize;
        if index >= len || len - 1 - index <= forth {
            len - 1
        } else {
            index + forth
        }
    }
}

/// Moving stays inside the list.
pub proof fn law_indices_stay_inside(index: nat, len: nat, delta: int)
    requires
        len > 0,
    ensures
        moved(index, len, delta) < len,
        clamped(index, len) < len,
        index < len ==> clamped(index, len) == index,
{
}

/// The values of a secret by environment. The list ascends by environment; of two values for
/// one environment the later counts.
pub open spec fn by_environment(list: Seq<SecretVariantView>) -> Seq<(Id, Seq<char>)>
    decreases list.len(),
{
    if list.len() == 0 {
        Seq::empty()
    } else {
        let rest = by_environment(list.drop_last());
        let entry = (list.last().environment_id, list.last().value);
        if rest.len() > 0 && rest.last().0 == entry.0 {
            rest.drop_last().push(entry)
        } else {
            rest.push(entry)
        }
    }
}

/// A secret with its values.
pub open spec fn row_loaded(store: StoreView, secret: SecretView) -> Result<
    SecretRowView,
    StoreErrorView,
> {
    match store.values_for(secret.key) {
        Err(error) => Err(error),
        Ok(list) => Ok(SecretRowView { secret, variants: by_environment(list) }),
    }
}

/// The secrets of a store with their values, in the order of their keys.
pub open spec fn rows_loaded(store: StoreView) -> Result<Seq<SecretRowView>, StoreErrorView> {
    collected(
        store.listed(Table::Secrets).map_values(
            |row: crate::tables::RecordView| store.secret(row),
        ),
        |secret: SecretView| row_loaded(store, secret),
    )
}

/// How many operations are logged; none where the log cannot be read.
pub open spec fn operations_counted(store: StoreView) -> nat {
    match store.status() {
        Ok(status) => status.operation_count,
        Err(_) => 0,
    }
}

impl AppView {
    /// The active project.
    pub open spec fn project(self) -> Option<ProjectView> {
        if self.active_project < self.projects.len() {
            Some(self.projects[self.active_project as int])
        } else {
            None
        }
    }

    /// The active environment.
    pub open spec fn environment(self) -> Option<EnvironmentView> {
        if self.active_env < self.environments.len() {
            Some(self.environments[self.active_env as int])
        } else {
            None
        }
    }

    /// Whether a row matches the search and the scope.
    pub open spec fn shows(self, row: SecretRowView) -> bool {
        let query = lowered(self.filter);
        let description = match row.secret.description {
            Some(text) => text,
            None => Seq::empty(),
        };
        &&& query.len() == 0 || occurs_in(query, lowered(row.secret.key)) || occurs_in(
            query,
            lowered(description),
        )
        &&& self.assigned_only ==> (self.project() matches Some(project)
            && row.secret.assigned_project_ids.contains(project.id))
    }

    /// The places of the rows that are shown, among the first rows.
    pub open spec fn shown_among(self, n: nat) -> Seq<usize>
        decreases n,
    {
        if n == 0 {
            Seq::empty()
        } else {
            let rest = self.shown_among((n - 1) as nat);
            if self.shows(self.rows[n - 1]) {
                rest.push((n - 1) as usize)
            } else {
                rest
            }
        }
    }

    /// The places of the rows that are shown.
    pub open spec fn filtered(self) -> Seq<usize> {
        self.shown_among(self.rows.len())
    }

    /// The row with the focus.
    pub open spec fn focused(self) -> Option<SecretRowView> {
        if self.selected_row < self.filtered().len() {
            Some(self.rows[self.filtered()[self.selected_row as int] as int])
        } else {
            None
        }
    }

    /// What is selected: the place of the row and its secret, and the place of the environment
    /// and its name.
    pub open spec fn selection(self) -> SelectionView {
        SelectionView {
            row: self.selected_row,
            key: match self.focused() {
                Some(row) => Some(row.secret.key),
                None => None,
            },
            env: self.active_env,
            environment: match self.environment() {
                Some(environment) => Some(environment.name),
                None => None,
            },
        }
    }

    /// With values hidden, unless what is selected was so before.
    pub open spec fn hidden_unless(self, before: SelectionView) -> AppView {
        AppView { reveal_cell: self.reveal_cell && self.selection() == before, ..self }
    }

    /// The state after the store is read again. Projects and environments are read before the
    /// rows; a row that cannot be read leaves the old rows.
    pub open spec fn reloaded(self) -> (AppView, Result<(), StoreErrorView>) {
        let lists = AppView {
            projects: self.store.listed(Table::Projects).map_values(
                |row: crate::tables::RecordView| self.store.project(row),
            ),
            environments: self.store.listed(Table::Environments).map_values(
                |row: crate::tables::RecordView| self.store.environment(row),
            ),
            ..self
        };
        match rows_loaded(self.store) {
            Err(error) => (lists, Err(error)),
            Ok(rows) => {
                let loaded = AppView {
                    rows,
                    sync_ops: operations_counted(self.store),
                    active_project: clamped(self.active_project, lists.projects.len()),
                    active_env: clamped(self.active_env, lists.environments.len()),
                    ..lists
                };
                (
                    AppView {
                        selected_row: clamped(loaded.selected_row, loaded.filtered().len()),
                        ..loaded
                    },
                    Ok(()),
                )
            },
        }
    }

    /// The state after the store is read again; a failure goes to the status line.
    pub open spec fn refreshed(self) -> AppView {
        match self.reloaded() {
            (after, Ok(_)) => after,
            (after, Err(error)) => AppView {
                status: wrong("reload failed: "@ + error.message()),
                ..after
            },
        }
    }
}

/// The rows with a value, those without, and all of them, among the first rows that are
/// assigned to a project.
pub open spec fn covered(
    rows: Seq<SecretRowView>,
    project_id: Id,
    environment_id: Id,
) -> (nat, nat, Seq<Seq<char>>)
    decreases rows.len(),
{
    if rows.len() == 0 {
        (0, 0, Seq::empty())
    } else {
        let (resolved, total, missing) = covered(rows.drop_last(), project_id, environment_id);
        let row = rows.last();
        if !row.secret.assigned_project_ids.contains(project_id) {
            (resolved, total, missing)
        } else if value_in(row.variants, environment_id) is Some {
            (resolved + 1, total + 1, missing)
        } else {
            (resolved, total + 1, missing.push(row.secret.key))
        }
    }
}

/// What is covered and what is missing adds up to what is assigned.
pub proof fn law_coverage_adds_up(rows: Seq<SecretRowView>, project_id: Id, environment_id: Id)
    ensures
        ({
            let (resolved, total, missing) = covered(rows, project_id, environment_id);
            resolved + missing.len() == total && total <= rows.len()
        }),
    decreases rows.len(),
{
    if rows.len() > 0 {
        law_coverage_adds_up(rows.drop_last(), project_id, environment_id);
    }
}

pub(crate) fn has_id(ids: &Vec<Id>, id: Id) -> (r: bool)
    ensures
        r == ids@.contains(id),
{
    let mut i: usize = 0;
    while i < ids.len()
        invariant
            i <= ids.len(),
            forall|j: int| 0 <= j < i ==> ids@[j] != id,
        decreases ids.len() - i,
    {
        if ids[i] == id {
            assert(ids@[i as int] == id);
            return true;
        }
        i = i + 1;
    }
    false
}

fn group_by_environment(list: Vec<SecretVariant>) -> (r: Vec<(Id, String)>)
    ensures
        variant_views(r@) == by_environment(views(list@)),
{
    let ghost all = views(list@);
    let mut out: Vec<(Id, String)> = Vec::new();
    let mut i: usize = 0;
    assert(variant_views(out@) =~= by_environment(all.take(0)));
    while i < list.len()
        invariant
            i <= list@.len(),
            all == views(list@),
            variant_views(out@) == by_environment(all.take(i as int)),
        decreases list@.len() - i,
    {
        proof {
            assert(all.take(i + 1).drop_last() =~= all.take(i as int));
            assert(all.take(i + 1).last() == list@[i as int]@);
        }
        let ghost before = variant_views(out@);
        let entry = (list[i].environment_id, list[i].value.clone());
        let n: usize = out.len();
        if n > 0 && out[n - 1].0 == entry.0 {
            assert(before.last() == (out@[n - 1].0, out@[n - 1].1@));
            out.set(n - 1, entry);
            assert(variant_views(out@) =~= before.drop_last().push((entry.0, entry.1@)));
        } else {
            if n > 0 {
                assert(before.last() == (out@[n - 1].0, out@[n - 1].1@));
            }
            out.push(entry);
            assert(variant_views(out@) =~= before.push((entry.0, entry.1@)));
        }
        i = i + 1;
    }
    assert(all.take(i as int) =~= all);
    out
}

fn load_rows(store: &Store) -> (r: Result<Vec<SecretRow>, StoreError>)
    ensures
        list_view(r) == rows_loaded(store@),
{
    let secrets = match store.list_secrets() {
        Ok(secrets) => secrets,
        Err(error) => return Err(error),
    };
    let ghost all = views(secrets@);
    let ghost step = |secret: SecretView| row_loaded(store@, secret);
    let mut out: Vec<SecretRow> = Vec::new();
    let mut i: usize = 0;
    assert(views(out@) =~= Seq::empty());
    while i < secrets.len()
        invariant
            i <= secrets@.len(),
            all == views(secrets@),
            all == store@.listed(Table::Secrets).map_values(
                |row: crate::tables::RecordView| store@.secret(row),
            ),
            step == (|secret: SecretView| row_loaded(store@, secret)),
            collected(all.take(i as int), step) == Ok::<Seq<SecretRowView>, StoreErrorView>(
                views(out@),
            ),
        decreases secrets@.len() - i,
    {
        proof {
            assert(all.take(i + 1).drop_last() =~= all.take(i as int));
            assert(all.take(i + 1).last() == secrets@[i as int]@);
        }
        match store.variants_for_secret(secrets[i].key.as_str()) {
            Err(error) => {
                proof {
                    lemma_collected_prefix(all, i + 1, step);
                }
                return Err(error);
            },
            Ok(list) => {
                let row = SecretRow {
                    secret: secrets[i].clone(),
                    variants: group_by_environment(list),
                };
                proof {
                    lemma_views_push(out@, row);
                }
                out.push(row);
            },
        }
        i = i + 1;
    }
    assert(all.take(i as int) =~= all);
    Ok(out)
}

impl App {
    /// The interface on a store.
    pub fn new(store: Store) -> (r: Result<App, StoreError>)
        ensures
            match start(store@).reloaded() {
                (app, Ok(_)) => r matches Ok(value) && value@ == app,
                (_, Err(error)) => r matches Err(e) && e@ == error,
            },
    {
        let mut app = App {
            store,
            projects: Vec::new(),
            environments: Vec::new(),
            rows: Vec::new(),
            active_project: 0,
            active_env: 0,
            selected_row: 0,
            filter: String::new(),
            assigned_only: false,
            reveal_cell: false,
            sync_ops: 0,
            mode: Mode::Browse,
            editor: None,
            switcher: None,
            confirm: None,
            detail: None,
            status: Status::idle(),
            pending_active_project: None,
            pending_active_env: None,
            should_quit: false,
        };
        assert(app@ =~= start(store@));
        match app.reload() {
            Ok(_) => Ok(app),
            Err(error) => Err(error),
        }
    }

    /// The active project.
    pub fn active_project(&self) -> (r: Option<&Project>)
        ensures
            match r {
                Some(project) => self@.project() == Some(project@),
                None => self@.project() is None,
            },
    {
        if self.active_project < self.projects.len() {
            Some(&self.projects[self.active_project])
        } else {
            None
        }
    }

    /// The active environment.
    pub fn active_environment(&self) -> (r: Option<&Environment>)
        ensures
            match r {
                Some(environment) => self@.environment() == Some(environment@),
                None => self@.environment() is None,
            },
    {
        if self.active_env < self.environments.len() {
            Some(&self.environments[self.active_env])
        } else {
            None
        }
    }

    fn shows_row(&self, row: &SecretRow, query: &Vec<char>, project_id: Option<Id>) -> (r: bool)
        requires
            query@ == lowered(self.filter@),
            project_id == (match self@.project() {
                Some(project) => Some(project.id),
                None => None,
            }),
        ensures
            r == self@.shows(row@),
    {
        let description: &str = match &row.secret.description {
            Some(text) => text.as_str(),
            None => "",
        };
        proof {
            reveal_strlit("");
            assert(""@ =~= Seq::empty());
        }
        let found = query.len() == 0 || find_chars(
            query,
            &lower_chars(row.secret.key.as_str()),
        ).is_some() || find_chars(query, &lower_chars(description)).is_some();
        if !found {
            return false;
        }
        if self.assigned_only {
            match project_id {
                Some(id) => has_id(&row.secret.assigned_project_ids, id),
                None => false,
            }
        } else {
            true
        }
    }

    /// The places of the rows that are shown.
    pub fn filtered_rows(&self) -> (r: Vec<usize>)
        ensures
            r@ == self@.filtered(),
    {
        let query = lower_chars(self.filter.as_str());
        let project_id: Option<Id> = match self.active_project() {
            Some(project) => Some(project.id),
            None => None,
        };
        let mut out: Vec<usize> = Vec::new();
        let mut i: usize = 0;
        while i < self.rows.len()
            invariant
                i <= self.rows@.len(),
                query@ == lowered(self.filter@),
                project_id == (match self@.project() {
                    Some(project) => Some(project.id),
                    None => None,
                }),
                out@ == self@.shown_among(i as nat),
            decreases self.rows@.len() - i,
        {
            assert(self@.rows[i as int] == self.rows@[i as int]@);
            if self.shows_row(&self.rows[i], &query, project_id) {
                out.push(i);
            }
            i = i + 1;
        }
        out
    }

    /// The row with the focus.
    pub fn focused_row(&self) -> (r: Option<&SecretRow>)
        ensures
            match r {
                Some(row) => self@.focused() == Some(row@),
                None => self@.focused() is None,
            },
    {
        let filtered = self.filtered_rows();
        proof {
            assert(self@.rows.len() == self.rows.len());
            lemma_shown_inside(self@, self@.rows.len());
        }
        if self.selected_row < filtered.len() {
            let index: usize = filtered[self.selected_row];
            Some(&self.rows[index])
        } else {
            None
        }
    }

    /// How many secrets of the active project have values in the active environment, how many
    /// there are, and the keys of those without a value.
    pub fn coverage(&self) -> (r: Option<(usize, usize, Vec<String>)>)
        ensures
            match (self@.project(), self@.environment()) {
                (Some(project), Some(environment)) => r matches Some((resolved, total, missing))
                    && (resolved as nat, total as nat, texts(missing@)) == covered(
                    self@.rows,
                    project.id,
                    environment.id,
                ),
                _ => r is None,
            },
    {
        let project_id: Id = match self.active_project() {
            Some(project) => project.id,
            None => return None,
        };
        let environment_id: Id = match self.active_environment() {
            Some(environment) => environment.id,
            None => return None,
        };
        let ghost all = self@.rows;
        let mut resolved: usize = 0;
        let mut total: usize = 0;
        let mut missing: Vec<String> = Vec::new();
        let mut i: usize = 0;
        assert(texts(missing@) =~= Seq::empty());
        assert(all.take(0) =~= Seq::empty());
        while i < self.rows.len()
            invariant
                i <= self.rows@.len(),
                all == views(self.rows@),
                resolved <= total <= i,
                (resolved as nat, total as nat, texts(missing@)) == covered(
                    all.take(i as int),
                    project_id,
                    environment_id,
                ),
            decreases self.rows@.len() - i,
        {
            let row = &self.rows[i];
            proof {
                assert(all.take(i + 1).drop_last() =~= all.take(i as int));
                assert(all.take(i + 1).last() == row@);
            }
            if has_id(&row.secret.assigned_project_ids, project_id) {
                total = total + 1;
                if row.value(environment_id).is_some() {
                    resolved = resolved + 1;
                } else {
                    let ghost before = texts(missing@);
                    missing.push(row.secret.key.clone());
                    assert(texts(missing@) =~= before.push(row@.secret.key));
                }
            }
            i = i + 1;
        }
        assert(all.take(i as int) =~= all);
        Some((resolved, total, missing))
    }

    /// Reads the store again.
    pub fn reload(&mut self) -> (r: Result<(), StoreError>)
        ensures
            final(self)@ == old(self)@.reloaded().0,
            crate::registry::unit_view(r) == old(self)@.reloaded().1,
    {
        match self.store.list_projects() {
            Ok(projects) => self.projects = projects,
            Err(error) => return Err(error),
        }
        match self.store.list_environments() {
            Ok(environments) => self.environments = environments,
            Err(error) => return Err(error),
        }
        match load_rows(&self.store) {
            Ok(rows) => self.rows = rows,
            Err(error) => return Err(error),
        }
        self.sync_ops = match self.store.sync_status() {
            Ok(status) => status.operation_count,
            Err(_) => 0,
        };
        self.active_project = clamp_index(self.active_project, self.projects.len());
        self.active_env = clamp_index(self.active_env, self.environments.len());
        let visible: usize = self.filtered_rows().len();
        self.selected_row = clamp_index(self.selected_row, visible);
        Ok(())
    }

    /// Reads the store again; a failure goes to the status line.
    pub fn refresh(&mut self)
        ensures
            final(self)@ == old(self)@.refreshed(),
    {
        if let Err(error) = self.reload() {
            let mut text = "reload failed: ".to_owned();
            text.append(error.message().as_str());
            self.status = Status::error(text);
        }
    }
}

/// Which value is selected.
#[derive(Debug)]
pub struct Selection {
    pub row: usize,
    pub key: Option<String>,
    pub env: usize,
    pub environment: Option<String>,
}

/// `Selection` with its texts as character sequences.
#[verifier::ext_equal]
pub struct SelectionView {
    pub row: nat,
    pub key: Option<Seq<char>>,
    pub env: nat,
    pub environment: Option<Seq<char>>,
}

impl View for Selection {
    type V = SelectionView;

    open spec fn view(&self) -> SelectionView {
        SelectionView {
            row: self.row as nat,
            key: opt_text(self.key),
            env: self.env as nat,
            environment: opt_text(self.environment),
        }
    }
}

impl Selection {
    fn matches_with(&self, other: &Selection) -> (r: bool)
        ensures
            r == (self@ == other@),
    {
        self.row == other.row && self.env == other.env && same_optional(&self.key, &other.key)
            && same_optional(&self.environment, &other.environment)
    }
}

fn same_optional(a: &Option<String>, b: &Option<String>) -> (r: bool)
    ensures
        r == (opt_text(*a) == opt_text(*b)),
{
    match (a, b) {
        (Some(a), Some(b)) => same(a.as_str(), b.as_str()),
        (None, None) => true,
        _ => false,
    }
}

impl App {
    /// Which value is selected.
    pub fn selection(&self) -> (r: Selection)
        ensures
            r@ == self@.selection(),
    {
        Selection {
            row: self.selected_row,
            key: match self.focused_row() {
                Some(row) => Some(row.secret.key.clone()),
                None => None,
            },
            env: self.active_env,
            environment: match self.active_environment() {
                Some(environment) => Some(environment.name.clone()),
                None => None,
            },
        }
    }

    /// Hides values, unless what is selected was so before.
    pub fn hide_unless(&mut self, before: &Selection)
        ensures
            final(self)@ == old(self)@.hidden_unless(before@),
    {
        let now = self.selection();
        self.reveal_cell = self.reveal_cell && now.matches_with(before);
    }
}

/// The interface before a store is read.
pub open spec fn start(store: StoreView) -> AppView {
    AppView {
        store,
        projects: Seq::empty(),
        environments: Seq::empty(),
        rows: Seq::empty(),
        active_project: 0,
        active_env: 0,
        selected_row: 0,
        filter: Seq::empty(),
        assigned_only: false,
        reveal_cell: false,
        sync_ops: 0,
        mode: Mode::Browse,
        editor: None,
        switcher: None,
        confirm: None,
        detail: None,
        status: crate::tui::state::StatusView {
            text: Seq::empty(),
            level: crate::tui::state::Level::Info,
        },
        pending_active_project: None,
        pending_active_env: None,
        should_quit: false,
    }
}

/// The places of the rows that are shown are places of rows, in order.
pub proof fn lemma_shown_inside(app: AppView, n: nat)
    requires
        n <= app.rows.len(),
        app.rows.len() <= usize::MAX,
    ensures
        app.shown_among(n).len() <= n,
        forall|i: int|
            0 <= i < app.shown_among(n).len() ==> (#[trigger] app.shown_among(n)[i]) < n && app.shows(
                app.rows[app.shown_among(n)[i] as int],
            ),
    decreases n,
{
    if n > 0 {
        lemma_shown_inside(app, (n - 1) as nat);
    }
}

} // verus!
