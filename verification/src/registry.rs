//! What a secret registry offers, and what follows from any registry: which secrets of a
//! project have values in an environment, and the values, all of them or none.

use crate::domain::{
    complete, lemma_missing_is_empty, missing, CoverageReport, CoverageReportView, DomainError,
    DomainErrorView, Environment, EnvironmentView, Project, ProjectView, Resolution, ResolutionView,
    ResolvedSecret, ResolvedSecretView, Secret, SecretCoverage, SecretCoverageView, SecretVariant,
    SecretVariantView, SecretView,
};
use crate::ids::Id;
use crate::order::views;
use crate::text::opt_text;
use vstd::prelude::*;
use vstd::std_specs::convert::FromSpec;

verus! {

/// A result over the views of its two sides.
pub open spec fn result_view<T: View, E: View>(r: Result<T, E>) -> Result<T::V, E::V> {
    match r {
        Ok(value) => Ok(value@),
        Err(error) => Err(error@),
    }
}

/// The result of an act without a value.
pub open spec fn unit_view<E: View>(r: Result<(), E>) -> Result<(), E::V> {
    match r {
        Ok(_) => Ok(()),
        Err(error) => Err(error@),
    }
}

/// A list result over the views of its items.
pub open spec fn list_view<T: View, E: View>(r: Result<Vec<T>, E>) -> Result<Seq<T::V>, E::V> {
    match r {
        Ok(list) => Ok(views(list@)),
        Err(error) => Err(error@),
    }
}

/// An optional text result, the text as a character sequence.
pub open spec fn text_view<E: View>(r: Result<Option<String>, E>) -> Result<
    Option<Seq<char>>,
    E::V,
> {
    match r {
        Ok(text) => Ok(opt_text(text)),
        Err(error) => Err(error@),
    }
}

/// A count result as a natural number.
pub open spec fn count_view<E: View>(r: Result<usize, E>) -> Result<nat, E::V> {
    match r {
        Ok(count) => Ok(count as nat),
        Err(error) => Err(error@),
    }
}

/// A registry of projects, environments and secrets. What its reading methods return is a
/// function of its state, given by the specification functions.
pub trait SecretRegistry {
    type Error: View;

    /// What `list_projects` returns.
    spec fn projects_result(&self) -> Result<Seq<ProjectView>, <Self::Error as View>::V>;

    /// What `get_project` returns.
    spec fn project_result(&self, name: Seq<char>) -> Result<ProjectView, <Self::Error as View>::V>;

    /// What `list_environments` returns.
    spec fn environments_result(&self) -> Result<Seq<EnvironmentView>, <Self::Error as View>::V>;

    /// What `get_environment` returns.
    spec fn environment_result(&self, name: Seq<char>) -> Result<
        EnvironmentView,
        <Self::Error as View>::V,
    >;

    /// What `list_secrets` returns.
    spec fn secrets_result(&self) -> Result<Seq<SecretView>, <Self::Error as View>::V>;

    /// What `get_secret` returns.
    spec fn secret_result(&self, key: Seq<char>) -> Result<SecretView, <Self::Error as View>::V>;

    /// What `get_variant` returns.
    spec fn variant_result(&self, key: Seq<char>, environment: Seq<char>) -> Result<
        Option<Seq<char>>,
        <Self::Error as View>::V,
    >;

    /// What `variants_for_secret` returns.
    spec fn variants_result(&self, key: Seq<char>) -> Result<
        Seq<SecretVariantView>,
        <Self::Error as View>::V,
    >;

    /// What `variant_count_for_environment` returns.
    spec fn variant_count_result(&self, environment: Seq<char>) -> Result<
        nat,
        <Self::Error as View>::V,
    >;

    fn add_project(&mut self, name: &str, description: Option<&str>) -> Result<
        Project,
        Self::Error,
    >;

    fn rename_project(&mut self, old_name: &str, new_name: &str) -> Result<Project, Self::Error>;

    fn remove_project(&mut self, name: &str) -> Result<(), Self::Error>;

    fn list_projects(&self) -> (r: Result<Vec<Project>, Self::Error>)
        ensures
            list_view(r) == self.projects_result(),
    ;

    fn get_project(&self, name: &str) -> (r: Result<Project, Self::Error>)
        ensures
            result_view(r) == self.project_result(name@),
    ;

    fn add_environment(&mut self, name: &str, description: Option<&str>) -> Result<
        Environment,
        Self::Error,
    >;

    fn rename_environment(&mut self, old_name: &str, new_name: &str) -> Result<
        Environment,
        Self::Error,
    >;

    fn remove_environment(&mut self, name: &str, force: bool) -> Result<(), Self::Error>;

    fn list_environments(&self) -> (r: Result<Vec<Environment>, Self::Error>)
        ensures
            list_view(r) == self.environments_result(),
    ;

    fn get_environment(&self, name: &str) -> (r: Result<Environment, Self::Error>)
        ensures
            result_view(r) == self.environment_result(name@),
    ;

    fn add_secret(&mut self, key: &str, description: Option<&str>) -> Result<Secret, Self::Error>;

    fn rename_secret(&mut self, old_key: &str, new_key: &str) -> Result<Secret, Self::Error>;

    fn remove_secret(&mut self, key: &str) -> Result<(), Self::Error>;

    fn list_secrets(&self) -> (r: Result<Vec<Secret>, Self::Error>)
        ensures
            list_view(r) == self.secrets_result(),
    ;

    fn get_secret(&self, key: &str) -> (r: Result<Secret, Self::Error>)
        ensures
            result_view(r) == self.secret_result(key@),
    ;

    fn set_secret_description(&mut self, key: &str, description: Option<&str>) -> Result<
        Secret,
        Self::Error,
    >;

    fn set_variant(&mut self, key: &str, environment: &str, value: &str) -> Result<(), Self::Error>;

    fn unset_variant(&mut self, key: &str, environment: &str) -> Result<(), Self::Error>;

    fn get_variant(&self, key: &str, environment: &str) -> (r: Result<Option<String>, Self::Error>)
        ensures
            text_view(r) == self.variant_result(key@, environment@),
    ;

    fn assign_secret(&mut self, key: &str, project: &str) -> Result<(), Self::Error>;

    fn unassign_secret(&mut self, key: &str, project: &str) -> Result<(), Self::Error>;

    fn variants_for_secret(&self, key: &str) -> (r: Result<Vec<SecretVariant>, Self::Error>)
        ensures
            list_view(r) == self.variants_result(key@),
    ;

    fn variant_count_for_environment(&self, environment: &str) -> (r: Result<usize, Self::Error>)
        ensures
            count_view(r) == self.variant_count_result(environment@),
    ;
}

/// The secrets of a list that are assigned to a project, in order.
pub open spec fn assigned_to(secrets: Seq<SecretView>, project: Id) -> Seq<SecretView>
    decreases secrets.len(),
{
    if secrets.len() == 0 {
        secrets
    } else if secrets.last().assigned_project_ids.contains(project) {
        assigned_to(secrets.drop_last(), project).push(secrets.last())
    } else {
        assigned_to(secrets.drop_last(), project)
    }
}

/// Whether each of the secrets has a value in an environment; the first lookup that fails
/// decides.
pub open spec fn statuses<R: SecretRegistry>(
    registry: &R,
    secrets: Seq<SecretView>,
    environment: Seq<char>,
) -> Result<Seq<SecretCoverageView>, <R::Error as View>::V>
    decreases secrets.len(),
{
    if secrets.len() == 0 {
        Ok(Seq::empty())
    } else {
        match statuses(registry, secrets.drop_last(), environment) {
            Err(error) => Err(error),
            Ok(items) => match registry.variant_result(secrets.last().key, environment) {
                Err(error) => Err(error),
                Ok(value) => Ok(
                    items.push(
                        SecretCoverageView { key: secrets.last().key, resolved: value is Some },
                    ),
                ),
            },
        }
    }
}

/// What `coverage` returns.
pub open spec fn coverage_result<R: SecretRegistry>(
    registry: &R,
    project: Seq<char>,
    environment: Seq<char>,
) -> Result<CoverageReportView, <R::Error as View>::V> {
    match registry.project_result(project) {
        Err(error) => Err(error),
        Ok(project_record) => match registry.environment_result(environment) {
            Err(error) => Err(error),
            Ok(environment_record) => match registry.secrets_result() {
                Err(error) => Err(error),
                Ok(secrets) => match statuses(
                    registry,
                    assigned_to(secrets, project_record.id),
                    environment,
                ) {
                    Err(error) => Err(error),
                    Ok(items) => Ok(
                        CoverageReportView {
                            project: project_record,
                            environment: environment_record,
                            items,
                        },
                    ),
                },
            },
        },
    }
}

proof fn lemma_assigned_prefix(secrets: Seq<SecretView>, n: int, project: Id)
    requires
        0 <= n <= secrets.len(),
    ensures
        assigned_to(secrets.take(n), project).len() <= assigned_to(secrets, project).len(),
        assigned_to(secrets.take(n), project) == assigned_to(secrets, project).take(
            assigned_to(secrets.take(n), project).len() as int,
        ),
    decreases secrets.len(),
{
    let part = assigned_to(secrets.take(n), project);
    if n == secrets.len() {
        assert(secrets.take(n) =~= secrets);
        assert(part =~= part.take(part.len() as int));
    } else {
        lemma_assigned_prefix(secrets.drop_last(), n, project);
        assert(secrets.drop_last().take(n) =~= secrets.take(n));
        assert(assigned_to(secrets, project).take(part.len() as int) =~= assigned_to(
            secrets.drop_last(),
            project,
        ).take(part.len() as int));
    }
}

proof fn lemma_statuses_prefix<R: SecretRegistry>(
    registry: &R,
    secrets: Seq<SecretView>,
    n: int,
    environment: Seq<char>,
)
    requires
        0 <= n <= secrets.len(),
        statuses(registry, secrets.take(n), environment) is Err,
    ensures
        statuses(registry, secrets, environment) == statuses(
            registry,
            secrets.take(n),
            environment,
        ),
    decreases secrets.len(),
{
    if n == secrets.len() {
        assert(secrets.take(n) =~= secrets);
    } else {
        assert(secrets.drop_last().take(n) =~= secrets.take(n));
        lemma_statuses_prefix(registry, secrets.drop_last(), n, environment);
    }
}

fn holds_id(ids: &Vec<Id>, id: Id) -> (r: bool)
    ensures
        r == ids@.contains(id),
{
    let mut i: usize = 0;
    while i < ids.len()
        invariant
            i <= ids.len(),
            forall|j: int| 0 <= j < i ==> ids@[j] != id,
        decreases ids.len() - i,
    {
        if ids[i] == id {
            assert(ids@[i as int] == id);
            return true;
        }
        i = i + 1;
    }
    false
}

/// Reports which secrets of a project have a value in an environment.
pub fn coverage<R: SecretRegistry>(registry: &R, project: &str, environment: &str) -> (r: Result<
    CoverageReport,
    R::Error,
>)
    ensures
        result_view(r) == coverage_result(registry, project@, environment@),
{
    let project_record = match registry.get_project(project) {
        Ok(record) => record,
        Err(error) => return Err(error),
    };
    let environment_record = match registry.get_environment(environment) {
        Ok(record) => record,
        Err(error) => return Err(error),
    };
    let secrets = match registry.list_secrets() {
        Ok(secrets) => secrets,
        Err(error) => return Err(error),
    };
    let ghost all = views(secrets@);
    let ghost id = project_record@.id;
    let ghost assigned = assigned_to(all, id);
    let mut items: Vec<SecretCoverage> = Vec::new();
    let mut i: usize = 0;
    assert(views(items@) =~= Seq::empty());
    while i < secrets.len()
        invariant
            i <= secrets.len(),
            all == views(secrets@),
            id == project_record@.id,
            registry.project_result(project@) == Ok::<ProjectView, <R::Error as View>::V>(
                project_record@,
            ),
            registry.environment_result(environment@) == Ok::<
                EnvironmentView,
                <R::Error as View>::V,
            >(environment_record@),
            registry.secrets_result() == Ok::<Seq<SecretView>, <R::Error as View>::V>(all),
            statuses(registry, assigned_to(all.take(i as int), id), environment@) == Ok::<
                Seq<SecretCoverageView>,
                <R::Error as View>::V,
            >(views(items@)),
        decreases secrets.len() - i,
    {
        let ghost upto = assigned_to(all.take(i + 1), id);
        proof {
            assert(all.take(i + 1).drop_last() =~= all.take(i as int));
            assert(all.take(i + 1).last() == secrets@[i as int]@);
            lemma_assigned_prefix(all, i + 1, id);
        }
        if holds_id(&secrets[i].assigned_project_ids, project_record.id) {
            assert(upto.drop_last() =~= assigned_to(all.take(i as int), id));
            match registry.get_variant(secrets[i].key.as_str(), environment) {
                Ok(value) => {
                    let ghost before = views(items@);
                    items.push(
                        SecretCoverage { key: secrets[i].key.clone(), resolved: value.is_some() },
                    );
                    assert(views(items@) =~= before.push(items@.last()@));
                },
                Err(error) => {
                    proof {
                        lemma_statuses_prefix(
                            registry,
                            assigned_to(all, id),
                            upto.len() as int,
                            environment@,
                        );
                    }
                    return Err(error);
                },
            }
        }
        i = i + 1;
    }
    assert(all.take(i as int) =~= all);
    Ok(CoverageReport { project: project_record, environment: environment_record, items })
}

/// The values of the listed keys in an environment, without those that have none; the first
/// lookup that fails decides.
pub open spec fn values_of<R: SecretRegistry>(
    registry: &R,
    items: Seq<SecretCoverageView>,
    environment: Seq<char>,
) -> Result<Seq<ResolvedSecretView>, <R::Error as View>::V>
    decreases items.len(),
{
    if items.len() == 0 {
        Ok(Seq::empty())
    } else {
        match values_of(registry, items.drop_last(), environment) {
            Err(error) => Err(error),
            Ok(secrets) => match registry.variant_result(items.last().key, environment) {
                Err(error) => Err(error),
                Ok(None) => Ok(secrets),
                Ok(Some(value)) => Ok(
                    secrets.push(ResolvedSecretView { key: items.last().key, value }),
                ),
            },
        }
    }
}

/// Why a project is not resolved: the registry failed, or values are missing.
pub enum ResolveFailure<E> {
    Registry(E),
    Missing(DomainErrorView),
}

/// What `resolve` returns.
pub open spec fn resolve_result<R: SecretRegistry>(
    registry: &R,
    project: Seq<char>,
    environment: Seq<char>,
) -> Result<ResolutionView, ResolveFailure<<R::Error as View>::V>> {
    match coverage_result(registry, project, environment) {
        Err(error) => Err(ResolveFailure::Registry(error)),
        Ok(report) => if missing(report.items).len() > 0 {
            Err(
                ResolveFailure::Missing(
                    DomainErrorView::MissingVariants {
                        project: report.project.name,
                        environment: report.environment.name,
                        missing_keys: missing(report.items),
                    },
                ),
            )
        } else {
            match values_of(registry, report.items, environment) {
                Err(error) => Err(ResolveFailure::Registry(error)),
                Ok(secrets) => Ok(
                    ResolutionView {
                        project: report.project,
                        environment: report.environment,
                        secrets,
                    },
                ),
            }
        },
    }
}

/// Whether an error is the registry's own form of a domain error, as its `From` makes it.
pub open spec fn made_from<E: From<DomainError>>(error: E, cause: DomainErrorView) -> bool {
    <E as FromSpec<DomainError>>::obeys_from_spec() ==> exists|d: DomainError| #[trigger]
        d@ == cause && error == <E as FromSpec<DomainError>>::from_spec(d)
}

proof fn lemma_values_prefix<R: SecretRegistry>(
    registry: &R,
    items: Seq<SecretCoverageView>,
    n: int,
    environment: Seq<char>,
)
    requires
        0 <= n <= items.len(),
        values_of(registry, items.take(n), environment) is Err,
    ensures
        values_of(registry, items, environment) == values_of(registry, items.take(n), environment),
    decreases items.len(),
{
    if n == items.len() {
        assert(items.take(n) =~= items);
    } else {
        assert(items.drop_last().take(n) =~= items.take(n));
        lemma_values_prefix(registry, items.drop_last(), n, environment);
    }
}

/// Gives the values of all the secrets of a project in an environment, or none of them.
pub fn resolve<R: SecretRegistry>(registry: &R, project: &str, environment: &str) -> (r: Result<
    Resolution,
    R::Error,
>) where R::Error: From<DomainError>
    ensures
        match resolve_result(registry, project@, environment@) {
            Ok(resolution) => r matches Ok(value) && value@ == resolution,
            Err(ResolveFailure::Registry(error)) => r matches Err(e) && e@ == error,
            Err(ResolveFailure::Missing(cause)) => r matches Err(e) && made_from(e, cause),
        },
{
    let report = match coverage(registry, project, environment) {
        Ok(report) => report,
        Err(error) => return Err(error),
    };
    let missing_keys = report.missing_keys();
    if missing_keys.len() > 0 {
        let cause = DomainError::MissingVariants {
            project: report.project.name,
            environment: report.environment.name,
            missing_keys,
        };
        assert(cause@ == (DomainErrorView::MissingVariants {
            project: report@.project.name,
            environment: report@.environment.name,
            missing_keys: missing(report@.items),
        }));
        return Err(<R::Error as From<DomainError>>::from(cause));
    }
    let ghost all = views(report.items@);
    let mut secrets: Vec<ResolvedSecret> = Vec::new();
    let mut i: usize = 0;
    assert(views(secrets@) =~= Seq::empty());
    while i < report.items.len()
        invariant
            i <= report.items.len(),
            all == views(report.items@),
            coverage_result(registry, project@, environment@) == Ok::<
                CoverageReportView,
                <R::Error as View>::V,
            >(report@),
            missing(all).len() == 0,
            values_of(registry, all.take(i as int), environment@) == Ok::<
                Seq<ResolvedSecretView>,
                <R::Error as View>::V,
            >(views(secrets@)),
        decreases report.items.len() - i,
    {
        proof {
            assert(all.take(i + 1).drop_last() =~= all.take(i as int));
            assert(all.take(i + 1).last() == report.items@[i as int]@);
        }
        match registry.get_variant(report.items[i].key.as_str(), environment) {
            Ok(Some(value)) => {
                let ghost before = views(secrets@);
                secrets.push(ResolvedSecret { key: report.items[i].key.clone(), value });
                assert(views(secrets@) =~= before.push(secrets@.last()@));
            },
            Ok(None) => {},
            Err(error) => {
                proof {
                    lemma_values_prefix(registry, all, i + 1, environment@);
                }
                return Err(error);
            },
        }
        i = i + 1;
    }
    assert(all.take(i as int) =~= all);
    Ok(Resolution { project: report.project, environment: report.environment, secrets })
}

/// The items of a report, one by one.
pub proof fn lemma_statuses_items<R: SecretRegistry>(
    registry: &R,
    secrets: Seq<SecretView>,
    environment: Seq<char>,
)
    requires
        statuses(registry, secrets, environment) is Ok,
    ensures
        ({
            let items = statuses(registry, secrets, environment)->Ok_0;
            &&& items.len() == secrets.len()
            &&& forall|i: int|
                0 <= i < secrets.len() ==> {
                    &&& (#[trigger] items[i]).key == secrets[i].key
                    &&& registry.variant_result(secrets[i].key, environment) is Ok
                    &&& items[i].resolved == (registry.variant_result(
                        secrets[i].key,
                        environment,
                    )->Ok_0 is Some)
                }
        }),
    decreases secrets.len(),
{
    if secrets.len() > 0 {
        lemma_statuses_items(registry, secrets.drop_last(), environment);
        let items = statuses(registry, secrets, environment)->Ok_0;
        let rest = statuses(registry, secrets.drop_last(), environment)->Ok_0;
        assert forall|i: int| 0 <= i < secrets.len() implies {
            &&& (#[trigger] items[i]).key == secrets[i].key
            &&& registry.variant_result(secrets[i].key, environment) is Ok
            &&& items[i].resolved == (registry.variant_result(
                secrets[i].key,
                environment,
            )->Ok_0 is Some)
        } by {
            if i < rest.len() {
                assert(items[i] == rest[i]);
                assert(secrets.drop_last()[i] == secrets[i]);
            }
        }
    }
}

/// A coverage report has one item for each secret that is assigned to the project, in the
/// order of the registry's list, and it says whether that secret has a value.
pub proof fn law_coverage_lists_assigned_secrets<R: SecretRegistry>(
    registry: &R,
    project: Seq<char>,
    environment: Seq<char>,
)
    requires
        coverage_result(registry, project, environment) is Ok,
    ensures
        ({
            let report = coverage_result(registry, project, environment)->Ok_0;
            let secrets = assigned_to(registry.secrets_result()->Ok_0, report.project.id);
            &&& report.items.len() == secrets.len()
            &&& forall|i: int|
                0 <= i < secrets.len() ==> {
                    &&& (#[trigger] report.items[i]).key == secrets[i].key
                    &&& report.items[i].resolved == (registry.variant_result(
                        secrets[i].key,
                        environment,
                    )->Ok_0 is Some)
                }
        }),
{
    let report = coverage_result(registry, project, environment)->Ok_0;
    let secrets = assigned_to(registry.secrets_result()->Ok_0, report.project.id);
    lemma_statuses_items(registry, secrets, environment);
}

proof fn lemma_values_items<R: SecretRegistry>(
    registry: &R,
    items: Seq<SecretCoverageView>,
    environment: Seq<char>,
)
    requires
        forall|i: int|
            0 <= i < items.len() ==> registry.variant_result(
                (#[trigger] items[i]).key,
                environment,
            ) matches Ok(Some(_)),
    ensures
        values_of(registry, items, environment) is Ok,
        ({
            let secrets = values_of(registry, items, environment)->Ok_0;
            &&& secrets.len() == items.len()
            &&& forall|i: int|
                0 <= i < items.len() ==> {
                    &&& (#[trigger] secrets[i]).key == items[i].key
                    &&& registry.variant_result(items[i].key, environment) == Ok::<
                        Option<Seq<char>>,
                        <R::Error as View>::V,
                    >(Some(secrets[i].value))
                }
        }),
    decreases items.len(),
{
    if items.len() > 0 {
        let rest = items.drop_last();
        assert forall|i: int| 0 <= i < rest.len() implies registry.variant_result(
            (#[trigger] rest[i]).key,
            environment,
        ) matches Ok(Some(_)) by {
            assert(rest[i] == items[i]);
        }
        lemma_values_items(registry, rest, environment);
        assert(items[items.len() - 1] == items.last());
        let secrets = values_of(registry, items, environment)->Ok_0;
        let before = values_of(registry, rest, environment)->Ok_0;
        assert forall|i: int| 0 <= i < items.len() implies {
            &&& (#[trigger] secrets[i]).key == items[i].key
            &&& registry.variant_result(items[i].key, environment) == Ok::<
                Option<Seq<char>>,
                <R::Error as View>::V,
            >(Some(secrets[i].value))
        } by {
            if i < before.len() {
                assert(secrets[i] == before[i]);
                assert(rest[i] == items[i]);
            }
        }
    }
}

/// Resolution is all or nothing: it succeeds exactly when the coverage report has no gap,
/// and gives then the value of every secret assigned to the project, in the order of the
/// registry's list, and of no other.
pub proof fn law_resolution_is_all_or_nothing<R: SecretRegistry>(
    registry: &R,
    project: Seq<char>,
    environment: Seq<char>,
)
    requires
        coverage_result(registry, project, environment) is Ok,
    ensures
        resolve_result(registry, project, environment) is Ok <==> complete(
            coverage_result(registry, project, environment)->Ok_0.items,
        ),
        resolve_result(registry, project, environment) matches Ok(resolution) ==> {
            let secrets = assigned_to(registry.secrets_result()->Ok_0, resolution.project.id);
            &&& resolution.secrets.len() == secrets.len()
            &&& forall|i: int|
                0 <= i < secrets.len() ==> {
                    &&& (#[trigger] resolution.secrets[i]).key == secrets[i].key
                    &&& registry.variant_result(secrets[i].key, environment) == Ok::<
                        Option<Seq<char>>,
                        <R::Error as View>::V,
                    >(Some(resolution.secrets[i].value))
                }
        },
{
    let report = coverage_result(registry, project, environment)->Ok_0;
    let secrets = assigned_to(registry.secrets_result()->Ok_0, report.project.id);
    lemma_statuses_items(registry, secrets, environment);
    lemma_missing_is_empty(report.items);
    if complete(report.items) {
        assert forall|i: int| 0 <= i < report.items.len() implies registry.variant_result(
            (#[trigger] report.items[i]).key,
            environment,
        ) matches Ok(Some(_)) by {
            assert(report.items[i].resolved);
        }
        lemma_values_items(registry, report.items, environment);
        let values = values_of(registry, report.items, environment)->Ok_0;
        assert forall|i: int| 0 <= i < secrets.len() implies {
            &&& (#[trigger] values[i]).key == secrets[i].key
            &&& registry.variant_result(secrets[i].key, environment) == Ok::<
                Option<Seq<char>>,
                <R::Error as View>::V,
            >(Some(values[i].value))
        } by {
            assert(report.items[i].key == secrets[i].key);
        }
    }
}

} // verus!
