//! The registry's records and errors, and what holds for a project in an environment:
//! which of its secrets have values, and the values themselves.

use crate::envmap::{put, EntryView, EnvMap};
use crate::ids::Id;
use crate::order::views;
use crate::text::{decimal, decimal_text, opt_text, texts};
use crate::time::Timestamp;
use vstd::prelude::*;

verus! {

/// An application or workload.
#[derive(Debug, PartialEq, Eq)]
pub struct Project {
    pub id: Id,
    pub name: String,
    pub description: Option<String>,
    pub assigned_secret_ids: Vec<Id>,
    pub created_at: Timestamp,
    pub updated_at: Timestamp,
}

/// `Project` with its texts as character sequences.
pub struct ProjectView {
    pub id: Id,
    pub name: Seq<char>,
    pub description: Option<Seq<char>>,
    pub assigned_secret_ids: Seq<Id>,
    pub created_at: Timestamp,
    pub updated_at: Timestamp,
}

impl View for Project {
    type V = ProjectView;

    open spec fn view(&self) -> ProjectView {
        ProjectView {
            id: self.id,
            name: self.name@,
            description: opt_text(self.description),
            assigned_secret_ids: self.assigned_secret_ids@,
            created_at: self.created_at,
            updated_at: self.updated_at,
        }
    }
}

impl Clone for Project {
    fn clone(&self) -> (r: Project)
        ensures
            r@ == self@,
    {
        Project {
            id: self.id,
            name: self.name.clone(),
            description: self.description.clone(),
            assigned_secret_ids: self.assigned_secret_ids.clone(),
            created_at: self.created_at,
            updated_at: self.updated_at,
        }
    }
}

/// A deployment context.
#[derive(Debug, PartialEq, Eq)]
pub struct Environment {
    pub id: Id,
    pub name: String,
    pub description: Option<String>,
    pub created_at: Timestamp,
    pub updated_at: Timestamp,
}

/// `Environment` with its texts as character sequences.
pub struct EnvironmentView {
    pub id: Id,
    pub name: Seq<char>,
    pub description: Option<Seq<char>>,
    pub created_at: Timestamp,
    pub updated_at: Timestamp,
}

impl View for Environment {
    type V = EnvironmentView;

    open spec fn view(&self) -> EnvironmentView {
        EnvironmentView {
            id: self.id,
            name: self.name@,
            description: opt_text(self.description),
            created_at: self.created_at,
            updated_at: self.updated_at,
        }
    }
}

impl Clone for Environment {
    fn clone(&self) -> (r: Environment)
        ensures
            r@ == self@,
    {
        Environment {
            id: self.id,
            name: self.name.clone(),
            description: self.description.clone(),
            created_at: self.created_at,
            updated_at: self.updated_at,
        }
    }
}

/// A named secret; its values are kept per environment.
#[derive(Debug, PartialEq, Eq)]
pub struct Secret {
    pub id: Id,
    pub key: String,
    pub description: Option<String>,
    pub assigned_project_ids: Vec<Id>,
    pub created_at: Timestamp,
    pub updated_at: Timestamp,
}

/// `Secret` with its texts as character sequences.
pub struct SecretView {
    pub id: Id,
    pub key: Seq<char>,
    pub description: Option<Seq<char>>,
    pub assigned_project_ids: Seq<Id>,
    pub created_at: Timestamp,
    pub updated_at: Timestamp,
}

impl View for Secret {
    type V = SecretView;

    open spec fn view(&self) -> SecretView {
        SecretView {
            id: self.id,
            key: self.key@,
            description: opt_text(self.description),
            assigned_project_ids: self.assigned_project_ids@,
            created_at: self.created_at,
            updated_at: self.updated_at,
        }
    }
}

impl Clone for Secret {
    fn clone(&self) -> (r: Secret)
        ensures
            r@ == self@,
    {
        Secret {
            id: self.id,
            key: self.key.clone(),
            description: self.description.clone(),
            assigned_project_ids: self.assigned_project_ids.clone(),
            created_at: self.created_at,
            updated_at: self.updated_at,
        }
    }
}

/// The value of one secret in one environment.
#[derive(Debug, Clone, PartialEq, Eq)]
pub struct SecretVariant {
    pub id: Id,
    pub secret_id: Id,
    pub environment_id: Id,
    pub value: String,
    pub created_at: Timestamp,
    pub updated_at: Timestamp,
}

/// `SecretVariant` with its value as a character sequence.
pub struct SecretVariantView {
    pub id: Id,
    pub secret_id: Id,
    pub environment_id: Id,
    pub value: Seq<char>,
    pub created_at: Timestamp,
    pub updated_at: Timestamp,
}

impl View for SecretVariant {
    type V = SecretVariantView;

    open spec fn view(&self) -> SecretVariantView {
        SecretVariantView {
            id: self.id,
            secret_id: self.secret_id,
            environment_id: self.environment_id,
            value: self.value@,
            created_at: self.created_at,
            updated_at: self.updated_at,
        }
    }
}

/// Whether a project's secret has a value.
#[derive(Debug, Clone, PartialEq, Eq)]
pub struct SecretCoverage {
    pub key: String,
    pub resolved: bool,
}

/// `SecretCoverage` with its key as a character sequence.
pub struct SecretCoverageView {
    pub key: Seq<char>,
    pub resolved: bool,
}

impl View for SecretCoverage {
    type V = SecretCoverageView;

    open spec fn view(&self) -> SecretCoverageView {
        SecretCoverageView { key: self.key@, resolved: self.resolved }
    }
}

/// A secret with its value in the chosen environment.
#[derive(Debug, Clone, PartialEq, Eq)]
pub struct ResolvedSecret {
    pub key: String,
    pub value: String,
}

/// `ResolvedSecret` with its texts as character sequences.
pub struct ResolvedSecretView {
    pub key: Seq<char>,
    pub value: Seq<char>,
}

impl View for ResolvedSecret {
    type V = ResolvedSecretView;

    open spec fn view(&self) -> ResolvedSecretView {
        ResolvedSecretView { key: self.key@, value: self.value@ }
    }
}

/// The values of all the secrets of a project in an environment.
#[derive(Debug, Clone, PartialEq, Eq)]
pub struct Resolution {
    pub project: Project,
    pub environment: Environment,
    pub secrets: Vec<ResolvedSecret>,
}

/// `Resolution` over the views of its parts.
pub struct ResolutionView {
    pub project: ProjectView,
    pub environment: EnvironmentView,
    pub secrets: Seq<ResolvedSecretView>,
}

impl View for Resolution {
    type V = ResolutionView;

    open spec fn view(&self) -> ResolutionView {
        ResolutionView {
            project: self.project@,
            environment: self.environment@,
            secrets: views(self.secrets@),
        }
    }
}

/// The environment variables of resolved secrets; of two secrets with one key the later counts.
pub open spec fn env_entries(secrets: Seq<ResolvedSecretView>) -> Seq<EntryView>
    decreases secrets.len(),
{
    if secrets.len() == 0 {
        Seq::empty()
    } else {
        put(env_entries(secrets.drop_last()), secrets.last().key, secrets.last().value)
    }
}

impl Resolution {
    /// The resolved secrets as environment variables.
    pub fn into_env_map(self) -> (r: EnvMap)
        ensures
            r@ == env_entries(self@.secrets),
    {
        let ghost all = views(self.secrets@);
        let mut map = EnvMap::new();
        let mut i: usize = 0;
        while i < self.secrets.len()
            invariant
                i <= self.secrets.len(),
                all == views(self.secrets@),
                map@ == env_entries(all.take(i as int)),
            decreases self.secrets.len() - i,
        {
            map.insert(self.secrets[i].key.clone(), self.secrets[i].value.clone());
            assert(all.take(i + 1).drop_last() =~= all.take(i as int));
            i = i + 1;
        }
        assert(all.take(i as int) =~= all);
        map
    }
}

/// Which secrets of a project have values in an environment.
#[derive(Debug, Clone, PartialEq, Eq)]
pub struct CoverageReport {
    pub project: Project,
    pub environment: Environment,
    pub items: Vec<SecretCoverage>,
}

/// `CoverageReport` over the views of its parts.
pub struct CoverageReportView {
    pub project: ProjectView,
    pub environment: EnvironmentView,
    pub items: Seq<SecretCoverageView>,
}

impl View for CoverageReport {
    type V = CoverageReportView;

    open spec fn view(&self) -> CoverageReportView {
        CoverageReportView {
            project: self.project@,
            environment: self.environment@,
            items: views(self.items@),
        }
    }
}

/// The keys without a value, in the order of the report.
pub open spec fn missing(items: Seq<SecretCoverageView>) -> Seq<Seq<char>> {
    items.filter(|item: SecretCoverageView| !item.resolved).map_values(
        |item: SecretCoverageView| item.key,
    )
}

/// Whether every key has a value.
pub open spec fn complete(items: Seq<SecretCoverageView>) -> bool {
    forall|i: int| 0 <= i < items.len() ==> (#[trigger] items[i]).resolved
}

/// The last item of a report adds its key or does not.
pub proof fn lemma_missing_last(items: Seq<SecretCoverageView>)
    requires
        items.len() > 0,
    ensures
        missing(items) == if items.last().resolved {
            missing(items.drop_last())
        } else {
            missing(items.drop_last()).push(items.last().key)
        },
{
    reveal(Seq::filter);
    let open = |item: SecretCoverageView| !item.resolved;
    let key_of = |item: SecretCoverageView| item.key;
    let rest = items.drop_last().filter(open);
    if !items.last().resolved {
        assert(items.filter(open) == rest.push(items.last()));
        assert(rest.push(items.last()).map_values(key_of) =~= rest.map_values(key_of).push(
            items.last().key,
        ));
    }
}

/// No key is missing exactly when every key has a value.
pub proof fn lemma_missing_is_empty(items: Seq<SecretCoverageView>)
    ensures
        missing(items).len() == 0 <==> complete(items),
    decreases items.len(),
{
    reveal(Seq::filter);
    if items.len() > 0 {
        let rest = items.drop_last();
        lemma_missing_is_empty(rest);
        lemma_missing_last(items);
        if items.last().resolved {
            assert(complete(items) == complete(rest)) by {
                if complete(rest) {
                    assert forall|i: int| 0 <= i < items.len() implies (#[trigger] items[i]).resolved by {
                        if i < rest.len() {
                            assert(rest[i].resolved);
                        }
                    }
                }
                if complete(items) {
                    assert forall|i: int| 0 <= i < rest.len() implies (#[trigger] rest[i]).resolved by {
                        assert(items[i].resolved);
                    }
                }
            }
        } else {
            assert(!items[items.len() - 1].resolved);
        }
    }
}

impl CoverageReport {
    /// The keys without a value.
    pub fn missing_keys(&self) -> (r: Vec<String>)
        ensures
            texts(r@) == missing(self@.items),
    {
        let ghost all = views(self.items@);
        let mut keys: Vec<String> = Vec::new();
        let mut i: usize = 0;
        proof {
            reveal(Seq::filter);
            assert(texts(keys@) =~= missing(all.take(0)));
        }
        while i < self.items.len()
            invariant
                i <= self.items.len(),
                all == views(self.items@),
                texts(keys@) == missing(all.take(i as int)),
            decreases self.items.len() - i,
        {
            let ghost before = keys@;
            if !self.items[i].resolved {
                keys.push(self.items[i].key.clone());
            }
            proof {
                lemma_missing_last(all.take(i + 1));
                assert(all.take(i + 1).drop_last() =~= all.take(i as int));
                assert(all.take(i + 1).last() == self.items@[i as int]@);
                assert(texts(keys@) =~= missing(all.take(i + 1)));
            }
            i = i + 1;
        }
        assert(all.take(i as int) =~= all);
        keys
    }

    /// Whether every key has a value.
    pub fn is_complete(&self) -> (r: bool)
        ensures
            r == complete(self@.items),
    {
        let mut i: usize = 0;
        while i < self.items.len()
            invariant
                i <= self.items.len(),
                forall|j: int| 0 <= j < i ==> (#[trigger] self@.items[j]).resolved,
            decreases self.items.len() - i,
        {
            if !self.items[i].resolved {
                assert(!self@.items[i as int].resolved);
                return false;
            }
            i = i + 1;
        }
        true
    }
}

/// Why the registry refuses a request.
#[derive(Debug)]
pub enum DomainError {
    ProjectNotFound(String),
    EnvironmentNotFound(String),
    SecretNotFound(String),
    DuplicateProject { project: String },
    DuplicateEnvironment { environment: String },
    DuplicateSecret { key: String },
    MissingVariants { project: String, environment: String, missing_keys: Vec<String> },
    EmptyCommand,
    EnvironmentHasVariants { environment: String, variant_count: usize },
}

/// `DomainError` with its texts as character sequences.
pub enum DomainErrorView {
    ProjectNotFound(Seq<char>),
    EnvironmentNotFound(Seq<char>),
    SecretNotFound(Seq<char>),
    DuplicateProject { project: Seq<char> },
    DuplicateEnvironment { environment: Seq<char> },
    DuplicateSecret { key: Seq<char> },
    MissingVariants {
        project: Seq<char>,
        environment: Seq<char>,
        missing_keys: Seq<Seq<char>>,
    },
    EmptyCommand,
    EnvironmentHasVariants { environment: Seq<char>, variant_count: nat },
}

impl View for DomainError {
    type V = DomainErrorView;

    open spec fn view(&self) -> DomainErrorView {
        match *self {
            DomainError::ProjectNotFound(name) => DomainErrorView::ProjectNotFound(name@),
            DomainError::EnvironmentNotFound(name) => DomainErrorView::EnvironmentNotFound(name@),
            DomainError::SecretNotFound(key) => DomainErrorView::SecretNotFound(key@),
            DomainError::DuplicateProject { project } => DomainErrorView::DuplicateProject {
                project: project@,
            },
            DomainError::DuplicateEnvironment { environment } => {
                DomainErrorView::DuplicateEnvironment { environment: environment@ }
            },
            DomainError::DuplicateSecret { key } => DomainErrorView::DuplicateSecret { key: key@ },
            DomainError::MissingVariants { project, environment, missing_keys } => {
                DomainErrorView::MissingVariants {
                    project: project@,
                    environment: environment@,
                    missing_keys: texts(missing_keys@),
                }
            },
            DomainError::EmptyCommand => DomainErrorView::EmptyCommand,
            DomainError::EnvironmentHasVariants { environment, variant_count } => {
                DomainErrorView::EnvironmentHasVariants {
                    environment: environment@,
                    variant_count: variant_count as nat,
                }
            },
        }
    }
}

impl DomainErrorView {
    /// What the user reads.
    pub open spec fn message(self) -> Seq<char> {
        match self {
            DomainErrorView::ProjectNotFound(name) => "Project \""@ + name + "\" not found."@,
            DomainErrorView::EnvironmentNotFound(name) => "Environment \""@ + name
                + "\" not found."@,
            DomainErrorView::SecretNotFound(key) => "Secret \""@ + key + "\" not found."@,
            DomainErrorView::DuplicateProject { project } => "Project \""@ + project
                + "\" already exists."@,
            DomainErrorView::DuplicateEnvironment { environment } => "Environment \""@ + environment
                + "\" already exists."@,
            DomainErrorView::DuplicateSecret { key } => "Secret key \""@ + key
                + "\" already exists."@,
            DomainErrorView::MissingVariants { project, environment, .. } => {
                "Cannot resolve secrets for project \""@ + project + "\" in environment \""@
                    + environment + "\"."@
            },
            DomainErrorView::EmptyCommand => {
                "No command provided after --.\nUsage: envctl run <project> <env> -- <cmd>"@
            },
            DomainErrorView::EnvironmentHasVariants { environment, variant_count } => {
                "Cannot delete environment \""@ + environment + "\" because it has "@
                    + decimal_text(variant_count) + " variant(s)."@
            },
        }
    }
}

fn around(before: &str, text: &str, after: &str) -> (r: String)
    ensures
        r@ == before@ + text@ + after@,
{
    let mut out = before.to_owned();
    out.append(text);
    out.append(after);
    out
}

impl DomainError {
    /// What the user reads.
    pub fn message(&self) -> (r: String)
        ensures
            r@ == self@.message(),
    {
        match self {
            DomainError::ProjectNotFound(name) => around(
                "Project \"",
                name.as_str(),
                "\" not found.",
            ),
            DomainError::EnvironmentNotFound(name) => around(
                "Environment \"",
                name.as_str(),
                "\" not found.",
            ),
            DomainError::SecretNotFound(key) => around("Secret \"", key.as_str(), "\" not found."),
            DomainError::DuplicateProject { project } => around(
                "Project \"",
                project.as_str(),
                "\" already exists.",
            ),
            DomainError::DuplicateEnvironment { environment } => around(
                "Environment \"",
                environment.as_str(),
                "\" already exists.",
            ),
            DomainError::DuplicateSecret { key } => around(
                "Secret key \"",
                key.as_str(),
                "\" already exists.",
            ),
            DomainError::MissingVariants { project, environment, .. } => {
                let mut out = around(
                    "Cannot resolve secrets for project \"",
                    project.as_str(),
                    "\" in environment \"",
                );
                out.append(environment.as_str());
                out.append("\".");
                out
            },
            DomainError::EmptyCommand => {
                "No command provided after --.\nUsage: envctl run <project> <env> -- <cmd>".to_owned()
            },
            DomainError::EnvironmentHasVariants { environment, variant_count } => {
                let mut out = around(
                    "Cannot delete environment \"",
                    environment.as_str(),
                    "\" because it has ",
                );
                out.append(decimal(*variant_count).as_str());
                out.append(" variant(s).");
                out
            },
        }
    }
}

} // verus!
