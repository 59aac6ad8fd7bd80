//! The commands of the command line: what they do to the store and what they print.

use crate::domain::{
    complete, env_entries, missing, CoverageReport, CoverageReportView, DomainError,
    DomainErrorView, SecretCoverageView,
};
use crate::envmap::{entry_views, EntryView, EnvMap};
use crate::error::{StoreError, StoreErrorView};
use crate::ids::{id_text, write_id};
use crate::order::views;
use crate::registry::{coverage, coverage_result, resolve, resolve_result, ResolveFailure};
use crate::runner::{split_command, Launch};
use crate::store::Store;
use crate::tables::{RecordView, StoreView, SyncStatusView, Table};
use crate::text::{decimal, decimal_text, join, joined, texts};
use vstd::prelude::*;

verus! {

/// Why a command fails.
#[derive(Debug)]
pub enum CommandError {
    Store(StoreError),
    Domain(DomainError),
    Other(String),
}

/// `CommandError` with its texts as character sequences.
pub enum CommandErrorView {
    Store(StoreErrorView),
    Domain(DomainErrorView),
    Other(Seq<char>),
}

impl View for CommandError {
    type V = CommandErrorView;

    open spec fn view(&self) -> CommandErrorView {
        match *self {
            CommandError::Store(error) => CommandErrorView::Store(error@),
            CommandError::Domain(error) => CommandErrorView::Domain(error@),
            CommandError::Other(text) => CommandErrorView::Other(text@),
        }
    }
}

/// One line for each missing key.
pub open spec fn key_lines(keys: Seq<Seq<char>>) -> Seq<char>
    decreases keys.len(),
{
    if keys.len() == 0 {
        Seq::empty()
    } else {
        key_lines(keys.drop_last()) + "- "@ + keys.last() + "\n"@
    }
}

/// What is printed for a domain error: missing values are listed by their keys.
pub open spec fn domain_error_text(error: DomainErrorView) -> Seq<char> {
    match error {
        DomainErrorView::MissingVariants { project, environment, missing_keys } => {
            "Cannot resolve secrets for project \""@ + project + "\" in environment \""@
                + environment + "\".\n\nMissing environment variants:\n"@ + key_lines(missing_keys)
        },
        _ => error.message() + "\n"@,
    }
}

impl CommandErrorView {
    /// What is printed for the error.
    pub open spec fn text(self) -> Seq<char> {
        match self {
            CommandErrorView::Store(StoreErrorView::Domain(error)) => domain_error_text(error),
            CommandErrorView::Store(error) => error.message() + "\n"@,
            CommandErrorView::Domain(error) => domain_error_text(error),
            CommandErrorView::Other(text) => text + "\n"@,
        }
    }
}

fn domain_text(error: &DomainError) -> (r: String)
    ensures
        r@ == domain_error_text(error@),
{
    match error {
        DomainError::MissingVariants { project, environment, missing_keys } => {
            let mut out = "Cannot resolve secrets for project \"".to_owned();
            out.append(project.as_str());
            out.append("\" in environment \"");
            out.append(environment.as_str());
            out.append("\".\n\nMissing environment variants:\n");
            let ghost start = out@;
            let ghost keys = texts(missing_keys@);
            let mut i: usize = 0;
            assert(keys.take(0) =~= Seq::empty());
            assert(out@ =~= start + key_lines(keys.take(0)));
            while i < missing_keys.len()
                invariant
                    i <= missing_keys@.len(),
                    keys == texts(missing_keys@),
                    out@ == start + key_lines(keys.take(i as int)),
                decreases missing_keys@.len() - i,
            {
                out.append("- ");
                out.append(missing_keys[i].as_str());
                out.append("\n");
                assert(keys.take(i + 1).drop_last() =~= keys.take(i as int));
                assert(out@ =~= start + key_lines(keys.take(i + 1)));
                i = i + 1;
            }
            assert(keys.take(i as int) =~= keys);
            out
        },
        _ => {
            let mut out = error.message();
            out.append("\n");
            out
        },
    }
}

impl CommandError {
    /// What is printed for the error.
    pub fn text(&self) -> (r: String)
        ensures
            r@ == self@.text(),
    {
        match self {
            CommandError::Store(StoreError::Domain(error)) => domain_text(error),
            CommandError::Store(error) => {
                let mut out = error.message();
                out.append("\n");
                out
            },
            CommandError::Domain(error) => domain_text(error),
            CommandError::Other(text) => {
                let mut out = text.clone();
                out.append("\n");
                out
            },
        }
    }
}

/// What a command prints, and the exit code or the error with which it ends.
#[derive(Debug)]
pub struct Reply {
    pub output: String,
    pub result: Result<u8, CommandError>,
}

/// `Reply` over views.
pub struct ReplyView {
    pub output: Seq<char>,
    pub result: Result<u8, CommandErrorView>,
}

impl View for Reply {
    type V = ReplyView;

    open spec fn view(&self) -> ReplyView {
        ReplyView {
            output: self.output@,
            result: match self.result {
                Ok(code) => Ok(code),
                Err(error) => Err(error@),
            },
        }
    }
}

/// The reply to a request: the given text if it succeeded.
pub open spec fn said(result: Result<(), StoreErrorView>, text: Seq<char>) -> ReplyView {
    match result {
        Ok(_) => ReplyView { output: text, result: Ok(0) },
        Err(error) => ReplyView {
            output: Seq::empty(),
            result: Err(CommandErrorView::Store(error)),
        },
    }
}

/// The reply that is an error and nothing else.
pub open spec fn failed(error: CommandErrorView) -> ReplyView {
    ReplyView { output: Seq::empty(), result: Err(error) }
}

pub(crate) fn reply<T>(result: Result<T, StoreError>, text: String) -> (r: Reply)
    ensures
        r@ == (match result {
            Ok(_) => ReplyView { output: text@, result: Ok(0) },
            Err(error) => failed(CommandErrorView::Store(error@)),
        }),
{
    match result {
        Ok(_) => Reply { output: text, result: Ok(0) },
        Err(error) => Reply { output: String::new(), result: Err(CommandError::Store(error)) },
    }
}

pub(crate) fn refuse(error: CommandError) -> (r: Reply)
    ensures
        r@ == failed(error@),
{
    Reply { output: String::new(), result: Err(error) }
}

/// The exit code of a check.
pub open spec fn code_for(is_complete: bool) -> u8 {
    if is_complete {
        0
    } else {
        1
    }
}

/// The exit code of a check.
pub fn exit_for_complete(is_complete: bool) -> (r: u8)
    ensures
        r == code_for(is_complete),
{
    if is_complete {
        0
    } else {
        1
    }
}

/// The exit code that a finished program's status becomes; a program without one has failed.
pub fn exit_status(code: Option<i32>) -> (r: u8)
    ensures
        match code {
            Some(code) => r == #[verifier::truncate] (code as u8),
            None => r == 1,
        },
{
    match code {
        Some(code) => #[verifier::truncate] (code as u8),
        None => 1,
    }
}

/// The refusal of a removal that is not confirmed.
pub open spec fn unconfirmed(command: Seq<char>) -> CommandErrorView {
    CommandErrorView::Other(
        "Destructive command requires --yes: envctl "@ + command + " ... --yes"@,
    )
}

/// Refuses a removal that is not confirmed.
pub fn require_yes(yes: bool, command: &str) -> (r: Result<(), CommandError>)
    ensures
        match r {
            Ok(_) => yes,
            Err(error) => !yes && error@ == unconfirmed(command@),
        },
{
    if yes {
        Ok(())
    } else {
        let mut text = "Destructive command requires --yes: envctl ".to_owned();
        text.append(command);
        text.append(" ... --yes");
        Err(CommandError::Other(text))
    }
}

/// The lines of a coverage report.
pub open spec fn item_lines(items: Seq<SecretCoverageView>) -> Seq<char>
    decreases items.len(),
{
    if items.len() == 0 {
        Seq::empty()
    } else {
        item_lines(items.drop_last()) + items.last().key + "\t"@ + (if items.last().resolved {
            "resolved"@
        } else {
            "missing"@
        }) + "\n"@
    }
}

/// What is printed for a coverage report. No value is in it.
pub open spec fn coverage_text(report: CoverageReportView) -> Seq<char> {
    "Project: "@ + report.project.name + "\nEnvironment: "@ + report.environment.name + "\n\n"@
        + item_lines(report.items) + (if report.items.len() == 0 {
        "No secrets assigned.\n"@
    } else {
        Seq::empty()
    })
}

fn report_text(report: &CoverageReport) -> (r: String)
    ensures
        r@ == coverage_text(report@),
{
    let mut out = "Project: ".to_owned();
    out.append(report.project.name.as_str());
    out.append("\nEnvironment: ");
    out.append(report.environment.name.as_str());
    out.append("\n\n");
    let ghost start = out@;
    let ghost items = views(report.items@);
    let mut i: usize = 0;
    assert(items.take(0) =~= Seq::empty());
    assert(out@ =~= start + item_lines(items.take(0)));
    while i < report.items.len()
        invariant
            i <= report.items@.len(),
            items == views(report.items@),
            out@ == start + item_lines(items.take(i as int)),
        decreases report.items@.len() - i,
    {
        out.append(report.items[i].key.as_str());
        out.append("\t");
        if report.items[i].resolved {
            out.append("resolved");
        } else {
            out.append("missing");
        }
        out.append("\n");
        assert(items.take(i + 1).drop_last() =~= items.take(i as int));
        assert(items.take(i + 1).last() == report.items@[i as int]@);
        assert(out@ =~= start + item_lines(items.take(i + 1)));
        i = i + 1;
    }
    assert(items.take(i as int) =~= items);
    if report.items.len() == 0 {
        out.append("No secrets assigned.\n");
    }
    assert(out@ =~= coverage_text(report@));
    out
}

/// The reply with a coverage report; a gap shows in the exit code if it is asked for.
pub open spec fn coverage_reply(
    report: Result<CoverageReportView, StoreErrorView>,
    judged: bool,
) -> ReplyView {
    match report {
        Err(error) => failed(CommandErrorView::Store(error)),
        Ok(report) => ReplyView {
            output: coverage_text(report),
            result: Ok(
                if judged {
                    code_for(complete(report.items))
                } else {
                    0
                },
            ),
        },
    }
}

fn report_coverage(store: &Store, project: &str, environment: &str, judged: bool) -> (r: Reply)
    ensures
        r@ == coverage_reply(coverage_result(store, project@, environment@), judged),
{
    match coverage(store, project, environment) {
        Err(error) => Reply { output: String::new(), result: Err(CommandError::Store(error)) },
        Ok(report) => {
            let code: u8 = if judged {
                exit_for_complete(report.is_complete())
            } else {
                0
            };
            Reply { output: report_text(&report), result: Ok(code) }
        },
    }
}

/// Shows which secrets of a project have values.
pub fn resolve_command(store: &Store, project: &str, environment: &str) -> (r: Reply)
    ensures
        r@ == coverage_reply(coverage_result(store, project@, environment@), false),
{
    report_coverage(store, project, environment, false)
}

/// How far a check of all projects has come: what is printed, whether all is complete so far,
/// and the error that stopped it.
pub struct CheckView {
    pub output: Seq<char>,
    pub all_complete: bool,
    pub error: Option<StoreErrorView>,
}

/// The line for a project and an environment with gaps.
pub open spec fn gap_line(report: CoverageReportView) -> Seq<char> {
    report.project.name + "\t"@ + report.environment.name + "\t"@ + joined(
        missing(report.items),
        ", "@,
    ) + "\n"@
}

/// A check goes on with one project and environment.
pub open spec fn checked_pair(
    store: &Store,
    before: CheckView,
    project: Seq<char>,
    environment: Seq<char>,
) -> CheckView {
    if before.error is Some {
        before
    } else {
        match coverage_result(store, project, environment) {
            Err(error) => CheckView { error: Some(error), ..before },
            Ok(report) => if complete(report.items) {
                before
            } else {
                CheckView {
                    output: before.output + gap_line(report),
                    all_complete: false,
                    error: None,
                }
            },
        }
    }
}

/// A check goes on with one project in several environments.
pub open spec fn checked_project(
    store: &Store,
    before: CheckView,
    project: Seq<char>,
    environments: Seq<Seq<char>>,
) -> CheckView
    decreases environments.len(),
{
    if environments.len() == 0 {
        before
    } else {
        checked_pair(
            store,
            checked_project(store, before, project, environments.drop_last()),
            project,
            environments.last(),
        )
    }
}

/// A check of several projects in several environments.
pub open spec fn checked_all(
    store: &Store,
    projects: Seq<Seq<char>>,
    environments: Seq<Seq<char>>,
) -> CheckView
    decreases projects.len(),
{
    if projects.len() == 0 {
        CheckView { output: Seq::empty(), all_complete: true, error: None }
    } else {
        checked_project(
            store,
            checked_all(store, projects.drop_last(), environments),
            projects.last(),
            environments,
        )
    }
}

/// The names of the rows of a table, in order.
pub open spec fn listed_names(store: StoreView, table: Table) -> Seq<Seq<char>> {
    store.listed(table).map_values(|row: RecordView| row.name)
}

/// The reply to a check: of one project in one environment, or of all of them.
pub open spec fn check_reply(
    store: &Store,
    project: Option<Seq<char>>,
    environment: Option<Seq<char>>,
) -> ReplyView {
    match (project, environment) {
        (Some(project), Some(environment)) => coverage_reply(
            coverage_result(store, project, environment),
            true,
        ),
        (None, None) => {
            let done = checked_all(
                store,
                listed_names(store@, Table::Projects),
                listed_names(store@, Table::Environments),
            );
            match done.error {
                Some(error) => ReplyView {
                    output: done.output,
                    result: Err(CommandErrorView::Store(error)),
                },
                None => ReplyView {
                    output: if done.all_complete {
                        done.output + "All project/environment combinations are complete.\n"@
                    } else {
                        done.output
                    },
                    result: Ok(code_for(done.all_complete)),
                },
            }
        },
        _ => failed(
            CommandErrorView::Other(
                "Usage: envctl check or envctl check <project> <environment>"@,
            ),
        ),
    }
}

proof fn lemma_check_stopped(
    store: &Store,
    before: CheckView,
    project: Seq<char>,
    environments: Seq<Seq<char>>,
)
    requires
        before.error is Some,
    ensures
        checked_project(store, before, project, environments) == before,
    decreases environments.len(),
{
    if environments.len() > 0 {
        lemma_check_stopped(store, before, project, environments.drop_last());
    }
}

proof fn lemma_project_prefix(
    store: &Store,
    before: CheckView,
    project: Seq<char>,
    environments: Seq<Seq<char>>,
    n: int,
)
    requires
        0 <= n <= environments.len(),
        checked_project(store, before, project, environments.take(n)).error is Some,
    ensures
        checked_project(store, before, project, environments) == checked_project(
            store,
            before,
            project,
            environments.take(n),
        ),
    decreases environments.len(),
{
    if n == environments.len() {
        assert(environments.take(n) =~= environments);
    } else {
        assert(environments.drop_last().take(n) =~= environments.take(n));
        lemma_project_prefix(store, before, project, environments.drop_last(), n);
    }
}

proof fn lemma_all_prefix(
    store: &Store,
    projects: Seq<Seq<char>>,
    environments: Seq<Seq<char>>,
    n: int,
)
    requires
        0 <= n <= projects.len(),
        checked_all(store, projects.take(n), environments).error is Some,
    ensures
        checked_all(store, projects, environments) == checked_all(
            store,
            projects.take(n),
            environments,
        ),
    decreases projects.len(),
{
    if n == projects.len() {
        assert(projects.take(n) =~= projects);
    } else {
        assert(projects.drop_last().take(n) =~= projects.take(n));
        lemma_all_prefix(store, projects.drop_last(), environments, n);
        lemma_check_stopped(
            store,
            checked_all(store, projects.drop_last(), environments),
            projects.last(),
            environments,
        );
    }
}

fn check_project(
    store: &Store,
    project: &str,
    environments: &Vec<String>,
    output: String,
    all_complete: bool,
) -> (r: (String, bool, Option<StoreError>))
    ensures
        ({
            let before = CheckView { output: output@, all_complete, error: None };
            let done = checked_project(store, before, project@, texts(environments@));
            &&& r.0@ == done.output
            &&& r.1 == done.all_complete
            &&& match r.2 {
                Some(error) => done.error == Some(error@),
                None => done.error is None,
            }
        }),
{
    let ghost before = CheckView { output: output@, all_complete, error: None };
    let ghost names = texts(environments@);
    let mut out = output;
    let mut fine = all_complete;
    let mut i: usize = 0;
    while i < environments.len()
        invariant
            i <= environments@.len(),
            names == texts(environments@),
            before == (CheckView { output: output@, all_complete, error: None }),
            checked_project(store, before, project@, names.take(i as int)) == (CheckView {
                output: out@,
                all_complete: fine,
                error: None,
            }),
        decreases environments@.len() - i,
    {
        proof {
            assert(names.take(i + 1).drop_last() =~= names.take(i as int));
            assert(names.take(i + 1).last() == environments@[i as int]@);
        }
        match coverage(store, project, environments[i].as_str()) {
            Err(error) => {
                proof {
                    lemma_project_prefix(store, before, project@, names, i + 1);
                }
                return (out, fine, Some(error));
            },
            Ok(report) => {
                if !report.is_complete() {
                    fine = false;
                    let ghost so_far = out@;
                    let keys = report.missing_keys();
                    out.append(report.project.name.as_str());
                    out.append("\t");
                    out.append(report.environment.name.as_str());
                    out.append("\t");
                    out.append(join(&keys, ", ").as_str());
                    out.append("\n");
                    assert(out@ =~= so_far + gap_line(report@));
                }
            },
        }
        i = i + 1;
    }
    assert(names.take(i as int) =~= names);
    (out, fine, None)
}

fn project_names(store: &Store) -> (r: Vec<String>)
    ensures
        texts(r@) == listed_names(store@, Table::Projects),
{
    let rows = store.sorted_rows(Table::Projects);
    names_of(&rows)
}

fn environment_names(store: &Store) -> (r: Vec<String>)
    ensures
        texts(r@) == listed_names(store@, Table::Environments),
{
    let rows = store.sorted_rows(Table::Environments);
    names_of(&rows)
}

fn names_of(rows: &Vec<crate::tables::Record>) -> (r: Vec<String>)
    ensures
        texts(r@) == views(rows@).map_values(|row: RecordView| row.name),
{
    let mut out: Vec<String> = Vec::new();
    let mut i: usize = 0;
    while i < rows.len()
        invariant
            i <= rows@.len(),
            out.len() == i,
            forall|j: int| 0 <= j < i ==> (#[trigger] out@[j])@ == rows@[j]@.name,
        decreases rows@.len() - i,
    {
        out.push(rows[i].name.clone());
        i = i + 1;
    }
    assert(texts(out@) =~= views(rows@).map_values(|row: RecordView| row.name));
    out
}

fn check_all(store: &Store) -> (r: Reply)
    ensures
        r@ == check_reply(store, None, None),
{
    let projects = project_names(store);
    let environments = environment_names(store);
    let ghost names = texts(projects@);
    let ghost places = texts(environments@);
    let mut output = String::new();
    let mut all_complete = true;
    let mut i: usize = 0;
    assert(output@ =~= Seq::empty());
    while i < projects.len()
        invariant
            i <= projects@.len(),
            names == texts(projects@),
            places == texts(environments@),
            names == listed_names(store@, Table::Projects),
            places == listed_names(store@, Table::Environments),
            checked_all(store, names.take(i as int), places) == (CheckView {
                output: output@,
                all_complete,
                error: None,
            }),
        decreases projects@.len() - i,
    {
        proof {
            assert(names.take(i + 1).drop_last() =~= names.take(i as int));
            assert(names.take(i + 1).last() == projects@[i as int]@);
        }
        let (text, fine, error) = check_project(
            store,
            projects[i].as_str(),
            &environments,
            output,
            all_complete,
        );
        if let Some(error) = error {
            proof {
                lemma_all_prefix(store, names, places, i + 1);
            }
            return Reply { output: text, result: Err(CommandError::Store(error)) };
        }
        output = text;
        all_complete = fine;
        i = i + 1;
    }
    assert(names.take(i as int) =~= names);
    if all_complete {
        output.append("All project/environment combinations are complete.\n");
    }
    Reply { output, result: Ok(exit_for_complete(all_complete)) }
}

/// Checks one project in one environment, or all of them.
pub fn check_command(store: &Store, project: Option<&str>, environment: Option<&str>) -> (r: Reply)
    ensures
        r@ == check_reply(
            store,
            crate::text::opt_str(project),
            crate::text::opt_str(environment),
        ),
{
    match (project, environment) {
        (Some(project), Some(environment)) => report_coverage(store, project, environment, true),
        (None, None) => check_all(store),
        _ => Reply {
            output: String::new(),
            result: Err(
                CommandError::Other(
                    "Usage: envctl check or envctl check <project> <environment>".to_owned(),
                ),
            ),
        },
    }
}

/// What running a command takes: nothing but a reply, or a program to start with variables.
#[derive(Debug)]
pub enum RunPlan {
    Show(Reply),
    Start { launch: Launch, variables: EnvMap },
}

/// Whether a plan is the one for running a command with the values of a project in an
/// environment. A program is started only if all the values are there; with `check` none is.
pub open spec fn planned(
    plan: RunPlan,
    store: &Store,
    project: Seq<char>,
    environment: Seq<char>,
    check: bool,
    command: Seq<Seq<char>>,
) -> bool {
    if check {
        plan matches RunPlan::Show(reply) && reply@ == coverage_reply(
            coverage_result(store, project, environment),
            true,
        )
    } else if command.len() == 0 {
        plan matches RunPlan::Show(reply) && reply@ == failed(
            CommandErrorView::Domain(DomainErrorView::EmptyCommand),
        )
    } else {
        match resolve_result(store, project, environment) {
            Err(ResolveFailure::Registry(error)) => plan matches RunPlan::Show(reply) && reply@
                == failed(CommandErrorView::Store(error)),
            Err(ResolveFailure::Missing(cause)) => plan matches RunPlan::Show(reply) && reply@
                == failed(CommandErrorView::Store(StoreErrorView::Domain(cause))),
            Ok(resolution) => plan matches RunPlan::Start { launch, variables }
                && launch.program@ == command[0] && texts(launch.arguments@) == command.skip(1)
                && variables@ == env_entries(resolution.secrets),
        }
    }
}

/// Plans the running of a command with the values of a project in an environment.
pub fn plan_run(
    store: &Store,
    project: &str,
    environment: &str,
    check: bool,
    command: &[String],
) -> (r: RunPlan)
    ensures
        planned(r, store, project@, environment@, check, texts(command@)),
{
    if check {
        return RunPlan::Show(report_coverage(store, project, environment, true));
    }
    let launch = match split_command(command) {
        Ok(launch) => launch,
        Err(_) => return RunPlan::Show(refuse(CommandError::Domain(DomainError::EmptyCommand))),
    };
    match resolve(store, project, environment) {
        Err(error) => RunPlan::Show(refuse(CommandError::Store(error))),
        Ok(resolution) => {
            let plan = RunPlan::Start { launch, variables: resolution.into_env_map() };
            assert(texts(command@.skip(1)) =~= texts(command@).skip(1));
            plan
        },
    }
}

/// Variables with every value replaced by a mask.
pub open spec fn masked(entries: Seq<EntryView>) -> Seq<EntryView> {
    entries.map_values(|entry: EntryView| (entry.0, "********"@))
}

/// Lists variables with every value replaced by a mask.
pub fn mask_map(map: &EnvMap) -> (r: Vec<(String, String)>)
    ensures
        entry_views(r@) == masked(map@),
{
    let mut out: Vec<(String, String)> = Vec::new();
    let mut i: usize = 0;
    while i < map.len()
        invariant
            i <= map@.len(),
            out.len() == i,
            forall|j: int|
                0 <= j < i ==> (#[trigger] out@[j]).0@ == map@[j].0 && out@[j].1@ == "********"@,
        decreases map@.len() - i,
    {
        let (name, _) = map.entry(i);
        out.push((name.to_owned(), "********".to_owned()));
        i = i + 1;
    }
    assert(entry_views(out@) =~= masked(map@));
    out
}

/// A text without line breaks at its end.
pub open spec fn without_line_end(text: Seq<char>) -> Seq<char>
    decreases text.len(),
{
    if text.len() > 0 && (text.last() == '\n' || text.last() == '\r') {
        without_line_end(text.drop_last())
    } else {
        text
    }
}

/// The value in a text that was piped in: line breaks at the end do not belong to it.
pub fn piped_value(text: &str) -> (r: String)
    ensures
        r@ == without_line_end(text@),
{
    let chars = crate::text::chars_of(text);
    let mut n: usize = chars.len();
    assert(text@.take(n as int) =~= text@);
    while n > 0 && (chars[n - 1] == '\n' || chars[n - 1] == '\r')
        invariant
            n <= chars.len(),
            chars@ == text@,
            without_line_end(text@.take(n as int)) == without_line_end(text@),
        decreases n,
    {
        assert(text@.take(n as int).drop_last() =~= text@.take(n - 1));
        n = n - 1;
    }
    let part = crate::text::slice_of(&chars, 0, n);
    assert(part@ =~= text@.take(n as int));
    crate::text::text_of(&part)
}

/// What asks for a value.
pub fn value_prompt(key: &str, environment: &str) -> (r: String)
    ensures
        r@ == "Value for "@ + key@ + " ["@ + environment@ + "]: "@,
{
    let mut out = "Value for ".to_owned();
    out.append(key);
    out.append(" [");
    out.append(environment);
    out.append("]: ");
    out
}

/// What is printed of the log.
pub open spec fn status_text(status: SyncStatusView) -> Seq<char> {
    "Operations: "@ + decimal_text(status.operation_count) + "\n"@ + (
    match status.latest_operation {
        Some(operation) => "Latest: "@ + operation.created_at.display() + "\t"@ + operation.kind
            + "\t"@ + id_text(operation.id) + "\n"@,
        None => "Latest: none\n"@,
    })
}

/// Shows the state of the log.
pub fn sync_status_command(store: &Store) -> (r: Reply)
    ensures
        r@ == (match store@.status() {
            Ok(status) => ReplyView { output: status_text(status), result: Ok(0) },
            Err(error) => failed(CommandErrorView::Store(error)),
        }),
{
    let status = match store.sync_status() {
        Ok(status) => status,
        Err(error) => return refuse(CommandError::Store(error)),
    };
    let mut out = "Operations: ".to_owned();
    out.append(decimal(status.operation_count).as_str());
    out.append("\n");
    let ghost start = out@;
    match &status.latest_operation {
        Some(operation) => {
            out.append("Latest: ");
            out.append(operation.created_at.to_display().as_str());
            out.append("\t");
            out.append(operation.kind.as_str());
            out.append("\t");
            out.append(write_id(operation.id).as_str());
            out.append("\n");
        },
        None => {
            out.append("Latest: none\n");
        },
    }
    assert(out@ =~= status_text(status@));
    Reply { output: out, result: Ok(0) }
}

/// Says how many operations wait to be exchanged.
pub fn sync_now_command(store: &Store) -> (r: Reply)
    ensures
        r@ == (match store@.status() {
            Ok(status) => ReplyView {
                output:
                    "No P2P peers configured in this build. Use sync export/import to move "@
                    + decimal_text(status.operation_count) + " local operation(s).\n"@,
                result: Ok(0),
            },
            Err(error) => failed(CommandErrorView::Store(error)),
        }),
{
    match store.sync_status() {
        Err(error) => refuse(CommandError::Store(error)),
        Ok(status) => {
            let mut out =
                "No P2P peers configured in this build. Use sync export/import to move ".to_owned();
            out.append(decimal(status.operation_count).as_str());
            out.append(" local operation(s).\n");
            Reply { output: out, result: Ok(0) }
        },
    }
}

/// What is printed when a device was initialised.
pub fn sync_init_text(key_file: &str, device_id: &str) -> (r: String)
    ensures
        r@ == "Initialized sync key: "@ + key_file@ + "\nDevice id: "@ + device_id@ + "\n"@,
{
    let mut out = "Initialized sync key: ".to_owned();
    out.append(key_file);
    out.append("\nDevice id: ");
    out.append(device_id);
    out.append("\n");
    out
}

/// What is printed with a pairing ticket.
pub fn sync_pair_text(code: &str, device_id: &str) -> (r: String)
    ensures
        r@ == "Pairing code: "@ + code@ + "\nDevice id: "@ + device_id@
            + "\nShare this code with the joining device while this device is online.\n"@,
{
    let mut out = "Pairing code: ".to_owned();
    out.append(code);
    out.append("\nDevice id: ");
    out.append(device_id);
    out.append("\nShare this code with the joining device while this device is online.\n");
    out
}

/// What is printed when a device has joined.
pub fn sync_join_text(device_id: &str, key_file: &str, code: &str, key_length: usize) -> (r: String)
    ensures
        r@ == "Joined trusted sync set as device "@ + device_id@ + ".\nUsing sync key: "@ + key_file@
            + "\nAccepted pairing code: "@ + code@ + "\nLoaded "@ + decimal_text(key_length as nat)
            + " bytes of sync key material.\n"@,
{
    let mut out = "Joined trusted sync set as device ".to_owned();
    out.append(device_id);
    out.append(".\nUsing sync key: ");
    out.append(key_file);
    out.append("\nAccepted pairing code: ");
    out.append(code);
    out.append("\nLoaded ");
    out.append(decimal(key_length).as_str());
    out.append(" bytes of sync key material.\n");
    out
}

} // verus!
