//! The changes that devices exchange: their kinds, their JSON payloads, and reading both back.

use crate::crypto::{CryptoError, CryptoErrorView};
use crate::error::{StoreError, StoreErrorView};
use crate::json::{
    json_read, members_view, object_text, read_json, string_member, string_members, text_members,
    write_object, Member, MemberView,
};
use crate::text::{opt_text, same};
use vstd::prelude::*;

verus! {

/// A change of the registry, over the type of its texts.
#[derive(Debug)]
pub enum Change<S> {
    /// A project was added.
    ProjectAdd { name: S, description: Option<S> },
    /// A project was renamed.
    ProjectRename { from: S, to: S },
    /// A project was removed.
    ProjectRemove { name: S },
    /// An environment was added.
    EnvironmentAdd { name: S, description: Option<S> },
    /// An environment was renamed.
    EnvironmentRename { from: S, to: S },
    /// An environment was removed, with its values if forced.
    EnvironmentRemove { name: S, force: bool },
    /// A secret was added.
    SecretAdd { key: S, description: Option<S> },
    /// A secret was renamed.
    SecretRename { from: S, to: S },
    /// A secret was removed.
    SecretRemove { key: S },
    /// A secret was described anew.
    SecretDescribe { key: S, description: Option<S> },
    /// A secret was given a value in an environment.
    VariantSet { key: S, environment: S, value: S },
    /// A secret lost its value in an environment.
    VariantUnset { key: S, environment: S },
    /// A secret was assigned to a project.
    SecretAssign { key: S, project: S },
    /// A secret was taken from a project.
    SecretUnassign { key: S, project: S },
}

/// A change with its texts as character sequences.
pub type ChangeView = Change<Seq<char>>;

impl View for Change<String> {
    type V = ChangeView;

    open spec fn view(&self) -> ChangeView {
        match *self {
            Change::ProjectAdd { name, description } => Change::ProjectAdd {
                name: name@,
                description: opt_text(description),
            },
            Change::ProjectRename { from, to } => Change::ProjectRename {
                from: from@,
                to: to@,
            },
            Change::ProjectRemove { name } => Change::ProjectRemove {
                name: name@,
            },
            Change::EnvironmentAdd { name, description } => Change::EnvironmentAdd {
                name: name@,
                description: opt_text(description),
            },
            Change::EnvironmentRename { from, to } => Change::EnvironmentRename {
                from: from@,
                to: to@,
            },
            Change::EnvironmentRemove { name, force } => Change::EnvironmentRemove {
                name: name@,
                force,
            },
            Change::SecretAdd { key, description } => Change::SecretAdd {
                key: key@,
                description: opt_text(description),
            },
            Change::SecretRename { from, to } => Change::SecretRename {
                from: from@,
                to: to@,
            },
            Change::SecretRemove { key } => Change::SecretRemove {
                key: key@,
            },
            Change::SecretDescribe { key, description } => Change::SecretDescribe {
                key: key@,
                description: opt_text(description),
            },
            Change::VariantSet { key, environment, value } => Change::VariantSet {
                key: key@,
                environment: environment@,
                value: value@,
            },
            Change::VariantUnset { key, environment } => Change::VariantUnset {
                key: key@,
                environment: environment@,
            },
            Change::SecretAssign { key, project } => Change::SecretAssign {
                key: key@,
                project: project@,
            },
            Change::SecretUnassign { key, project } => Change::SecretUnassign {
                key: key@,
                project: project@,
            },
        }
    }
}

/// The name of a change's kind.
pub open spec fn kind_of(change: ChangeView) -> Seq<char> {
    match change {
        Change::ProjectAdd { .. } => "project.add"@,
        Change::ProjectRename { .. } => "project.rename"@,
        Change::ProjectRemove { .. } => "project.remove"@,
        Change::EnvironmentAdd { .. } => "environment.add"@,
        Change::EnvironmentRename { .. } => "environment.rename"@,
        Change::EnvironmentRemove { .. } => "environment.remove"@,
        Change::SecretAdd { .. } => "secret.add"@,
        Change::SecretRename { .. } => "secret.rename"@,
        Change::SecretRemove { .. } => "secret.remove"@,
        Change::SecretDescribe { .. } => "secret.describe"@,
        Change::VariantSet { .. } => "variant.set"@,
        Change::VariantUnset { .. } => "variant.unset"@,
        Change::SecretAssign { .. } => "secret.assign"@,
        Change::SecretUnassign { .. } => "secret.unassign"@,
    }
}

/// A text as a member, or the null member without one.
pub open spec fn optional_member(text: Option<Seq<char>>) -> MemberView {
    match text {
        Some(t) => MemberView::Text(t),
        None => MemberView::Null,
    }
}

/// The members of a change's payload.
pub open spec fn members_of(change: ChangeView) -> Seq<(Seq<char>, MemberView)> {
    match change {
        Change::ProjectAdd { name, description } => seq![
            ("name"@, MemberView::Text(name)),
            ("description"@, optional_member(description)),
        ],
        Change::ProjectRename { from, to } => seq![
            ("old"@, MemberView::Text(from)),
            ("new"@, MemberView::Text(to)),
        ],
        Change::ProjectRemove { name } => seq![
            ("name"@, MemberView::Text(name)),
        ],
        Change::EnvironmentAdd { name, description } => seq![
            ("name"@, MemberView::Text(name)),
            ("description"@, optional_member(description)),
        ],
        Change::EnvironmentRename { from, to } => seq![
            ("old"@, MemberView::Text(from)),
            ("new"@, MemberView::Text(to)),
        ],
        Change::EnvironmentRemove { name, force } => seq![
            ("name"@, MemberView::Text(name)),
            ("force"@, MemberView::Flag(force)),
        ],
        Change::SecretAdd { key, description } => seq![
            ("key"@, MemberView::Text(key)),
            ("description"@, optional_member(description)),
        ],
        Change::SecretRename { from, to } => seq![
            ("old"@, MemberView::Text(from)),
            ("new"@, MemberView::Text(to)),
        ],
        Change::SecretRemove { key } => seq![
            ("key"@, MemberView::Text(key)),
        ],
        Change::SecretDescribe { key, description } => seq![
            ("key"@, MemberView::Text(key)),
            ("description"@, optional_member(description)),
        ],
        Change::VariantSet { key, environment, value } => seq![
            ("key"@, MemberView::Text(key)),
            ("environment"@, MemberView::Text(environment)),
            ("value"@, MemberView::Text(value)),
        ],
        Change::VariantUnset { key, environment } => seq![
            ("key"@, MemberView::Text(key)),
            ("environment"@, MemberView::Text(environment)),
        ],
        Change::SecretAssign { key, project } => seq![
            ("key"@, MemberView::Text(key)),
            ("project"@, MemberView::Text(project)),
        ],
        Change::SecretUnassign { key, project } => seq![
            ("key"@, MemberView::Text(key)),
            ("project"@, MemberView::Text(project)),
        ],
    }
}

/// The payload of a change.
pub open spec fn payload_of(change: ChangeView) -> Seq<char> {
    object_text(members_of(change))
}

/// A string member that a payload must have.
pub open spec fn field(members: Map<Seq<char>, Seq<char>>, name: Seq<char>) -> Result<
    Seq<char>,
    StoreErrorView,
> {
    if members.contains_key(name) {
        Ok(members[name])
    } else {
        Err(StoreErrorView::InvalidSyncPayload("missing string field "@ + name))
    }
}

/// A string member that a payload may have.
pub open spec fn optional_field(members: Map<Seq<char>, Seq<char>>, name: Seq<char>) -> Option<
    Seq<char>,
> {
    if members.contains_key(name) {
        Some(members[name])
    } else {
        None
    }
}

/// The change that a kind and the string members of a payload stand for. A kind that is not
/// known stands for none. A removal of an environment is carried out whether or not it was
/// forced.
pub open spec fn change_in(kind: Seq<char>, members: Map<Seq<char>, Seq<char>>) -> Result<
    Option<ChangeView>,
    StoreErrorView,
> {
    if kind == "project.add"@ {
        match field(members, "name"@) {
            Err(error) => Err(error),
            Ok(name) => Ok(
                Some(
                    Change::ProjectAdd {
                        name,
                        description: optional_field(members, "description"@),
                    },
                ),
            ),
        }
    } else if kind == "project.rename"@ {
        match field(members, "old"@) {
            Err(error) => Err(error),
            Ok(from) => match field(members, "new"@) {
                Err(error) => Err(error),
                Ok(to) => Ok(Some(Change::ProjectRename { from, to })),
            },
        }
    } else if kind == "project.remove"@ {
        match field(members, "name"@) {
            Err(error) => Err(error),
            Ok(name) => Ok(Some(Change::ProjectRemove { name })),
        }
    } else if kind == "environment.add"@ {
        match field(members, "name"@) {
            Err(error) => Err(error),
            Ok(name) => Ok(
                Some(
                    Change::EnvironmentAdd {
                        name,
                        description: optional_field(members, "description"@),
                    },
                ),
            ),
        }
    } else if kind == "environment.rename"@ {
        match field(members, "old"@) {
            Err(error) => Err(error),
            Ok(from) => match field(members, "new"@) {
                Err(error) => Err(error),
                Ok(to) => Ok(Some(Change::EnvironmentRename { from, to })),
            },
        }
    } else if kind == "environment.remove"@ {
        match field(members, "name"@) {
            Err(error) => Err(error),
            Ok(name) => Ok(Some(Change::EnvironmentRemove { name, force: true })),
        }
    } else if kind == "secret.add"@ {
        match field(members, "key"@) {
            Err(error) => Err(error),
            Ok(key) => Ok(
                Some(
                    Change::SecretAdd {
                        key,
                        description: optional_field(members, "description"@),
                    },
                ),
            ),
        }
    } else if kind == "secret.rename"@ {
        match field(members, "old"@) {
            Err(error) => Err(error),
            Ok(from) => match field(members, "new"@) {
                Err(error) => Err(error),
                Ok(to) => Ok(Some(Change::SecretRename { from, to })),
            },
        }
    } else if kind == "secret.remove"@ {
        match field(members, "key"@) {
            Err(error) => Err(error),
            Ok(key) => Ok(Some(Change::SecretRemove { key })),
        }
    } else if kind == "secret.describe"@ {
        match field(members, "key"@) {
            Err(error) => Err(error),
            Ok(key) => Ok(
                Some(
                    Change::SecretDescribe {
                        key,
                        description: optional_field(members, "description"@),
                    },
                ),
            ),
        }
    } else if kind == "variant.set"@ {
        match field(members, "key"@) {
            Err(error) => Err(error),
            Ok(key) => match field(members, "environment"@) {
                Err(error) => Err(error),
                Ok(environment) => match field(members, "value"@) {
                    Err(error) => Err(error),
                    Ok(value) => Ok(Some(Change::VariantSet { key, environment, value })),
                },
            },
        }
    } else if kind == "variant.unset"@ {
        match field(members, "key"@) {
            Err(error) => Err(error),
            Ok(key) => match field(members, "environment"@) {
                Err(error) => Err(error),
                Ok(environment) => Ok(Some(Change::VariantUnset { key, environment })),
            },
        }
    } else if kind == "secret.assign"@ {
        match field(members, "key"@) {
            Err(error) => Err(error),
            Ok(key) => match field(members, "project"@) {
                Err(error) => Err(error),
                Ok(project) => Ok(Some(Change::SecretAssign { key, project })),
            },
        }
    } else if kind == "secret.unassign"@ {
        match field(members, "key"@) {
            Err(error) => Err(error),
            Ok(key) => match field(members, "project"@) {
                Err(error) => Err(error),
                Ok(project) => Ok(Some(Change::SecretUnassign { key, project })),
            },
        }
    } else {
        Ok(None)
    }
}

/// The change that a kind and a payload stand for.
pub open spec fn change_read(kind: Seq<char>, payload: Seq<char>) -> Result<
    Option<ChangeView>,
    StoreErrorView,
> {
    match json_read(payload) {
        Err(message) => Err(StoreErrorView::Crypto(CryptoErrorView::Json(message))),
        Ok(members) => change_in(kind, members),
    }
}

/// A change as it is replayed: a removal of an environment is forced.
pub open spec fn replayed(change: ChangeView) -> ChangeView {
    match change {
        Change::EnvironmentRemove { name, .. } => Change::EnvironmentRemove { name, force: true },
        _ => change,
    }
}

/// The length, the first and the last but one character of a word, which tell the words of
/// this module apart.
spec fn mark(word: Seq<char>) -> (nat, char, char) {
    (word.len(), word[0], word[word.len() - 2])
}

proof fn lemma_kinds_differ()
    ensures
        mark("project.add"@) == (11nat, 'p', 'd'),
        mark("project.rename"@) == (14nat, 'p', 'm'),
        mark("project.remove"@) == (14nat, 'p', 'v'),
        mark("environment.add"@) == (15nat, 'e', 'd'),
        mark("environment.rename"@) == (18nat, 'e', 'm'),
        mark("environment.remove"@) == (18nat, 'e', 'v'),
        mark("secret.add"@) == (10nat, 's', 'd'),
        mark("secret.rename"@) == (13nat, 's', 'm'),
        mark("secret.remove"@) == (13nat, 's', 'v'),
        mark("secret.describe"@) == (15nat, 's', 'b'),
        mark("variant.set"@) == (11nat, 'v', 'e'),
        mark("variant.unset"@) == (13nat, 'v', 'e'),
        mark("secret.assign"@) == (13nat, 's', 'g'),
        mark("secret.unassign"@) == (15nat, 's', 'g'),
{
    reveal_strlit("project.add");
    reveal_strlit("project.rename");
    reveal_strlit("project.remove");
    reveal_strlit("environment.add");
    reveal_strlit("environment.rename");
    reveal_strlit("environment.remove");
    reveal_strlit("secret.add");
    reveal_strlit("secret.rename");
    reveal_strlit("secret.remove");
    reveal_strlit("secret.describe");
    reveal_strlit("variant.set");
    reveal_strlit("variant.unset");
    reveal_strlit("secret.assign");
    reveal_strlit("secret.unassign");
}

proof fn lemma_names_differ()
    ensures
        mark("name"@) == (4nat, 'n', 'm'),
        mark("description"@) == (11nat, 'd', 'o'),
        mark("old"@) == (3nat, 'o', 'l'),
        mark("new"@) == (3nat, 'n', 'e'),
        mark("force"@) == (5nat, 'f', 'c'),
        mark("key"@) == (3nat, 'k', 'e'),
        mark("environment"@) == (11nat, 'e', 'n'),
        mark("value"@) == (5nat, 'v', 'u'),
        mark("project"@) == (7nat, 'p', 'c'),
{
    reveal_strlit("name");
    reveal_strlit("description");
    reveal_strlit("old");
    reveal_strlit("new");
    reveal_strlit("force");
    reveal_strlit("key");
    reveal_strlit("environment");
    reveal_strlit("value");
    reveal_strlit("project");
}

proof fn lemma_text_members_two(a: (Seq<char>, MemberView), b: (Seq<char>, MemberView))
    requires
        a.0 != b.0,
    ensures
        text_members(seq![a]) == (match a.1 {
            MemberView::Text(text) => Map::empty().insert(a.0, text),
            _ => Map::<Seq<char>, Seq<char>>::empty(),
        }),
        text_members(seq![a, b]) == (match b.1 {
            MemberView::Text(text) => text_members(seq![a]).insert(b.0, text),
            _ => text_members(seq![a]),
        }),
{
    assert(seq![a].drop_last() =~= Seq::<(Seq<char>, MemberView)>::empty());
    assert(text_members(seq![a].drop_last()) == Map::<Seq<char>, Seq<char>>::empty());
    assert(text_members(seq![a]) =~= (match a.1 {
        MemberView::Text(text) => Map::empty().insert(a.0, text),
        _ => Map::<Seq<char>, Seq<char>>::empty(),
    }));
    assert(seq![a, b].drop_last() =~= seq![a]);
    assert(text_members(seq![a, b]) =~= (match b.1 {
        MemberView::Text(text) => text_members(seq![a]).insert(b.0, text),
        _ => text_members(seq![a]),
    }));
}

/// A change is written down as an operation of its kind with its texts as members of an object.
/// Other devices read this form.
pub proof fn law_change_is_written_as_an_object(change: ChangeView)
    ensures
        payload_of(change) == object_text(members_of(change)),
        match change {
            Change::ProjectAdd { name, description } => kind_of(change) == "project.add"@
                && members_of(change) =~= seq![
                ("name"@, MemberView::Text(name)),
                (
                    "description"@,
                    match description {
                        Some(text) => MemberView::Text(text),
                        None => MemberView::Null,
                    },
                ),
            ],
            Change::ProjectRename { from, to } => kind_of(change) == "project.rename"@
                && members_of(change) =~= seq![
                ("old"@, MemberView::Text(from)),
                ("new"@, MemberView::Text(to)),
            ],
            Change::ProjectRemove { name } => kind_of(change) == "project.remove"@
                && members_of(change) =~= seq![
                ("name"@, MemberView::Text(name)),
            ],
            Change::EnvironmentAdd { name, description } => kind_of(change) == "environment.add"@
                && members_of(change) =~= seq![
                ("name"@, MemberView::Text(name)),
                (
                    "description"@,
                    match description {
                        Some(text) => MemberView::Text(text),
                        None => MemberView::Null,
                    },
                ),
            ],
            Change::EnvironmentRename { from, to } => kind_of(change) == "environment.rename"@
                && members_of(change) =~= seq![
                ("old"@, MemberView::Text(from)),
                ("new"@, MemberView::Text(to)),
            ],
            Change::EnvironmentRemove { name, force } => kind_of(change) == "environment.remove"@
                && members_of(change) =~= seq![
                ("name"@, MemberView::Text(name)),
                ("force"@, MemberView::Flag(force)),
            ],
            Change::SecretAdd { key, description } => kind_of(change) == "secret.add"@
                && members_of(change) =~= seq![
                ("key"@, MemberView::Text(key)),
                (
                    "description"@,
                    match description {
                        Some(text) => MemberView::Text(text),
                        None => MemberView::Null,
                    },
                ),
            ],
            Change::SecretRename { from, to } => kind_of(change) == "secret.rename"@
                && members_of(change) =~= seq![
                ("old"@, MemberView::Text(from)),
                ("new"@, MemberView::Text(to)),
            ],
            Change::SecretRemove { key } => kind_of(change) == "secret.remove"@
                && members_of(change) =~= seq![
                ("key"@, MemberView::Text(key)),
            ],
            Change::SecretDescribe { key, description } => kind_of(change) == "secret.describe"@
                && members_of(change) =~= seq![
                ("key"@, MemberView::Text(key)),
                (
                    "description"@,
                    match description {
                        Some(text) => MemberView::Text(text),
                        None => MemberView::Null,
                    },
                ),
            ],
            Change::VariantSet { key, environment, value } => kind_of(change) == "variant.set"@
                && members_of(change) =~= seq![
                ("key"@, MemberView::Text(key)),
                ("environment"@, MemberView::Text(environment)),
                ("value"@, MemberView::Text(value)),
            ],
            Change::VariantUnset { key, environment } => kind_of(change) == "variant.unset"@
                && members_of(change) =~= seq![
                ("key"@, MemberView::Text(key)),
                ("environment"@, MemberView::Text(environment)),
            ],
            Change::SecretAssign { key, project } => kind_of(change) == "secret.assign"@
                && members_of(change) =~= seq![
                ("key"@, MemberView::Text(key)),
                ("project"@, MemberView::Text(project)),
            ],
            Change::SecretUnassign { key, project } => kind_of(change) == "secret.unassign"@
                && members_of(change) =~= seq![
                ("key"@, MemberView::Text(key)),
                ("project"@, MemberView::Text(project)),
            ],
        },
{
}

/// Whether an operation is read as a change.
pub open spec fn reads_as(kind: Seq<char>, payload: Seq<char>, change: ChangeView) -> bool {
    change_read(kind, payload) == Ok::<Option<ChangeView>, StoreErrorView>(Some(change))
}

/// Whether an operation is refused because its payload lacks a member.
pub open spec fn lacks_member(kind: Seq<char>, payload: Seq<char>, member: Seq<char>) -> bool {
    change_read(kind, payload) == Err::<Option<ChangeView>, StoreErrorView>(
        StoreErrorView::InvalidSyncPayload("missing string field "@ + member),
    )
}

/// An operation is read by its kind and the string members of its payload; one that lacks a
/// member that it needs is refused, and one of another kind says nothing.
#[verifier::rlimit(40)]
pub proof fn law_operation_is_read_by_its_kind(
    kind: Seq<char>,
    payload: Seq<char>,
    members: Map<Seq<char>, Seq<char>>,
)
    requires
        json_read(payload) == Ok::<Map<Seq<char>, Seq<char>>, Seq<char>>(members),
    ensures
        kind == "project.add"@ && members.contains_key("name"@) ==> reads_as(
            kind,
            payload,
            Change::ProjectAdd {
                name: members["name"@],
                description: if members.contains_key("description"@) {
                    Some(members["description"@])
                } else {
                    None
                },
            },
        ),
        kind == "project.add"@ && !members.contains_key("name"@) ==> lacks_member(
            kind,
            payload,
            "name"@,
        ),
        kind == "project.rename"@ && members.contains_key("old"@)
            && members.contains_key("new"@) ==> reads_as(
            kind,
            payload,
            Change::ProjectRename {
                from: members["old"@],
                to: members["new"@],
            },
        ),
        kind == "project.rename"@ && !members.contains_key("old"@) ==> lacks_member(
            kind,
            payload,
            "old"@,
        ),
        kind == "project.rename"@ && members.contains_key("old"@)
            && !members.contains_key("new"@) ==> lacks_member(
            kind,
            payload,
            "new"@,
        ),
        kind == "project.remove"@ && members.contains_key("name"@) ==> reads_as(
            kind,
            payload,
            Change::ProjectRemove {
                name: members["name"@],
            },
        ),
        kind == "project.remove"@ && !members.contains_key("name"@) ==> lacks_member(
            kind,
            payload,
            "name"@,
        ),
        kind == "environment.add"@ && members.contains_key("name"@) ==> reads_as(
            kind,
            payload,
            Change::EnvironmentAdd {
                name: members["name"@],
                description: if members.contains_key("description"@) {
                    Some(members["description"@])
                } else {
                    None
                },
            },
        ),
        kind == "environment.add"@ && !members.contains_key("name"@) ==> lacks_member(
            kind,
            payload,
            "name"@,
        ),
        kind == "environment.rename"@ && members.contains_key("old"@)
            && members.contains_key("new"@) ==> reads_as(
            kind,
            payload,
            Change::EnvironmentRename {
                from: members["old"@],
                to: members["new"@],
            },
        ),
        kind == "environment.rename"@ && !members.contains_key("old"@) ==> lacks_member(
            kind,
            payload,
            "old"@,
        ),
        kind == "environment.rename"@ && members.contains_key("old"@)
            && !members.contains_key("new"@) ==> lacks_member(
            kind,
            payload,
            "new"@,
        ),
        kind == "environment.remove"@ && members.contains_key("name"@) ==> reads_as(
            kind,
            payload,
            Change::EnvironmentRemove {
                name: members["name"@],
                force: true,
            },
        ),
        kind == "environment.remove"@ && !members.contains_key("name"@) ==> lacks_member(
            kind,
            payload,
            "name"@,
        ),
        kind == "secret.add"@ && members.contains_key("key"@) ==> reads_as(
            kind,
            payload,
            Change::SecretAdd {
                key: members["key"@],
                description: if members.contains_key("description"@) {
                    Some(members["description"@])
                } else {
                    None
                },
            },
        ),
        kind == "secret.add"@ && !members.contains_key("key"@) ==> lacks_member(
            kind,
            payload,
            "key"@,
        ),
        kind == "secret.rename"@ && members.contains_key("old"@)
            && members.contains_key("new"@) ==> reads_as(
            kind,
            payload,
            Change::SecretRename {
                from: members["old"@],
                to: members["new"@],
            },
        ),
        kind == "secret.rename"@ && !members.contains_key("old"@) ==> lacks_member(
            kind,
            payload,
            "old"@,
        ),
        kind == "secret.rename"@ && members.contains_key("old"@)
            && !members.contains_key("new"@) ==> lacks_member(
            kind,
            payload,
            "new"@,
        ),
        kind == "secret.remove"@ && members.contains_key("key"@) ==> reads_as(
            kind,
            payload,
            Change::SecretRemove {
                key: members["key"@],
            },
        ),
        kind == "secret.remove"@ && !members.contains_key("key"@) ==> lacks_member(
            kind,
            payload,
            "key"@,
        ),
        kind == "secret.describe"@ && members.contains_key("key"@) ==> reads_as(
            kind,
            payload,
            Change::SecretDescribe {
                key: members["key"@],
                description: if members.contains_key("description"@) {
                    Some(members["description"@])
                } else {
                    None
                },
            },
        ),
        kind == "secret.describe"@ && !members.contains_key("key"@) ==> lacks_member(
            kind,
            payload,
            "key"@,
        ),
        kind == "variant.set"@ && members.contains_key("key"@)
            && members.contains_key("environment"@) && members.contains_key("value"@) ==> reads_as(
            kind,
            payload,
            Change::VariantSet {
                key: members["key"@],
                environment: members["environment"@],
                value: members["value"@],
            },
        ),
        kind == "variant.set"@ && !members.contains_key("key"@) ==> lacks_member(
            kind,
            payload,
            "key"@,
        ),
        kind == "variant.set"@ && members.contains_key("key"@)
            && !members.contains_key("environment"@) ==> lacks_member(
            kind,
            payload,
            "environment"@,
        ),
        kind == "variant.set"@ && members.contains_key("key"@)
            && members.contains_key("environment"@)
            && !members.contains_key("value"@) ==> lacks_member(
            kind,
            payload,
            "value"@,
        ),
        kind == "variant.unset"@ && members.contains_key("key"@)
            && members.contains_key("environment"@) ==> reads_as(
            kind,
            payload,
            Change::VariantUnset {
                key: members["key"@],
                environment: members["environment"@],
            },
        ),
        kind == "variant.unset"@ && !members.contains_key("key"@) ==> lacks_member(
            kind,
            payload,
            "key"@,
        ),
        kind == "variant.unset"@ && members.contains_key("key"@)
            && !members.contains_key("environment"@) ==> lacks_member(
            kind,
            payload,
            "environment"@,
        ),
        kind == "secret.assign"@ && members.contains_key("key"@)
            && members.contains_key("project"@) ==> reads_as(
            kind,
            payload,
            Change::SecretAssign {
                key: members["key"@],
                project: members["project"@],
            },
        ),
        kind == "secret.assign"@ && !members.contains_key("key"@) ==> lacks_member(
            kind,
            payload,
            "key"@,
        ),
        kind == "secret.assign"@ && members.contains_key("key"@)
            && !members.contains_key("project"@) ==> lacks_member(
            kind,
            payload,
            "project"@,
        ),
        kind == "secret.unassign"@ && members.contains_key("key"@)
            && members.contains_key("project"@) ==> reads_as(
            kind,
            payload,
            Change::SecretUnassign {
                key: members["key"@],
                project: members["project"@],
            },
        ),
        kind == "secret.unassign"@ && !members.contains_key("key"@) ==> lacks_member(
            kind,
            payload,
            "key"@,
        ),
        kind == "secret.unassign"@ && members.contains_key("key"@)
            && !members.contains_key("project"@) ==> lacks_member(
            kind,
            payload,
            "project"@,
        ),
        kind != "project.add"@ && kind != "project.rename"@ && kind != "project.remove"@
            && kind != "environment.add"@ && kind != "environment.rename"@
            && kind != "environment.remove"@ && kind != "secret.add"@ && kind != "secret.rename"@
            && kind != "secret.remove"@ && kind != "secret.describe"@ && kind != "variant.set"@
            && kind != "variant.unset"@ && kind != "secret.assign"@
            && kind != "secret.unassign"@ ==> change_read(kind, payload) == Ok::<
            Option<ChangeView>,
            StoreErrorView,
        >(None),
{
    lemma_kinds_differ();
}

/// A change is read back from its kind and payload: nothing of it is lost on the way to
/// another device but whether a removal was forced.
pub proof fn law_change_survives_transport(change: ChangeView)
    requires
        json_read(payload_of(change)) == Ok::<Map<Seq<char>, Seq<char>>, Seq<char>>(
            text_members(members_of(change)),
        ),
    ensures
        change_read(kind_of(change), payload_of(change)) == Ok::<Option<ChangeView>, StoreErrorView>(
            Some(replayed(change)),
        ),
{
    lemma_kinds_differ();
    lemma_names_differ();
    let members = members_of(change);
    if members.len() == 3 {
        assert(members.drop_last() =~= seq![members[0], members[1]]);
        lemma_text_members_two(members[0], members[1]);
    } else if members.len() == 2 {
        assert(members =~= seq![members[0], members[1]]);
        lemma_text_members_two(members[0], members[1]);
    } else {
        assert(members =~= seq![members[0]]);
        lemma_text_members_two(members[0], ("value"@, MemberView::Null));
    }
}

fn text_field(name: &str, text: &String) -> (r: (String, Member))
    ensures
        r.0@ == name@,
        r.1@ == MemberView::Text(text@),
{
    (name.to_owned(), Member::Text(text.clone()))
}

fn optional_text_field(name: &str, text: &Option<String>) -> (r: (String, Member))
    ensures
        r.0@ == name@,
        r.1@ == optional_member(opt_text(*text)),
{
    match text {
        Some(t) => (name.to_owned(), Member::Text(t.clone())),
        None => (name.to_owned(), Member::Null),
    }
}

impl Change<String> {
    /// The name of the change's kind.
    pub fn kind(&self) -> (r: String)
        ensures
            r@ == kind_of(self@),
    {
        match self {
            Change::ProjectAdd { .. } => "project.add".to_owned(),
            Change::ProjectRename { .. } => "project.rename".to_owned(),
            Change::ProjectRemove { .. } => "project.remove".to_owned(),
            Change::EnvironmentAdd { .. } => "environment.add".to_owned(),
            Change::EnvironmentRename { .. } => "environment.rename".to_owned(),
            Change::EnvironmentRemove { .. } => "environment.remove".to_owned(),
            Change::SecretAdd { .. } => "secret.add".to_owned(),
            Change::SecretRename { .. } => "secret.rename".to_owned(),
            Change::SecretRemove { .. } => "secret.remove".to_owned(),
            Change::SecretDescribe { .. } => "secret.describe".to_owned(),
            Change::VariantSet { .. } => "variant.set".to_owned(),
            Change::VariantUnset { .. } => "variant.unset".to_owned(),
            Change::SecretAssign { .. } => "secret.assign".to_owned(),
            Change::SecretUnassign { .. } => "secret.unassign".to_owned(),
        }
    }

    /// The change's payload, which holds all its texts.
    pub fn payload(&self) -> (r: String)
        ensures
            r@ == payload_of(self@),
            json_read(r@) == Ok::<Map<Seq<char>, Seq<char>>, Seq<char>>(
                text_members(members_of(self@)),
            ),
    {
        let members: Vec<(String, Member)> = match self {
            Change::ProjectAdd { name, description } => vec![
                text_field("name", name),
                optional_text_field("description", description),
            ],
            Change::ProjectRename { from, to } => vec![
                text_field("old", from),
                text_field("new", to),
            ],
            Change::ProjectRemove { name } => vec![
                text_field("name", name),
            ],
            Change::EnvironmentAdd { name, description } => vec![
                text_field("name", name),
                optional_text_field("description", description),
            ],
            Change::EnvironmentRename { from, to } => vec![
                text_field("old", from),
                text_field("new", to),
            ],
            Change::EnvironmentRemove { name, force } => vec![
                text_field("name", name),
                ("force".to_owned(), Member::Flag(*force)),
            ],
            Change::SecretAdd { key, description } => vec![
                text_field("key", key),
                optional_text_field("description", description),
            ],
            Change::SecretRename { from, to } => vec![
                text_field("old", from),
                text_field("new", to),
            ],
            Change::SecretRemove { key } => vec![
                text_field("key", key),
            ],
            Change::SecretDescribe { key, description } => vec![
                text_field("key", key),
                optional_text_field("description", description),
            ],
            Change::VariantSet { key, environment, value } => vec![
                text_field("key", key),
                text_field("environment", environment),
                text_field("value", value),
            ],
            Change::VariantUnset { key, environment } => vec![
                text_field("key", key),
                text_field("environment", environment),
            ],
            Change::SecretAssign { key, project } => vec![
                text_field("key", key),
                text_field("project", project),
            ],
            Change::SecretUnassign { key, project } => vec![
                text_field("key", key),
                text_field("project", project),
            ],
        };
        assert(members_view(members@) =~= members_of(self@));
        write_object(members)
    }

    /// Reads a change from its kind and payload.
    pub fn read(kind: &str, payload: &str) -> (r: Result<Option<Change<String>>, StoreError>)
        ensures
            match r {
                Ok(Some(change)) => change_read(kind@, payload@) == Ok::<
                    Option<ChangeView>,
                    StoreErrorView,
                >(Some(change@)),
                Ok(None) => change_read(kind@, payload@) == Ok::<
                    Option<ChangeView>,
                    StoreErrorView,
                >(None),
                Err(error) => change_read(kind@, payload@) == Err::<
                    Option<ChangeView>,
                    StoreErrorView,
                >(error@),
            },
    {
        let value = match read_json(payload) {
            Ok(value) => value,
            Err(message) => return Err(StoreError::Crypto(CryptoError::Json(message))),
        };
        proof {
            lemma_kinds_differ();
        }
        if same(kind, "project.add") {
            let name = match required(&value, "name") {
                Ok(text) => text,
                Err(error) => return Err(error),
            };
            let description = optional(&value, "description");
            Ok(Some(Change::ProjectAdd { name, description }))
        } else if same(kind, "project.rename") {
            let from = match required(&value, "old") {
                Ok(text) => text,
                Err(error) => return Err(error),
            };
            let to = match required(&value, "new") {
                Ok(text) => text,
                Err(error) => return Err(error),
            };
            Ok(Some(Change::ProjectRename { from, to }))
        } else if same(kind, "project.remove") {
            let name = match required(&value, "name") {
                Ok(text) => text,
                Err(error) => return Err(error),
            };
            Ok(Some(Change::ProjectRemove { name }))
        } else if same(kind, "environment.add") {
            let name = match required(&value, "name") {
                Ok(text) => text,
                Err(error) => return Err(error),
            };
            let description = optional(&value, "description");
            Ok(Some(Change::EnvironmentAdd { name, description }))
        } else if same(kind, "environment.rename") {
            let from = match required(&value, "old") {
                Ok(text) => text,
                Err(error) => return Err(error),
            };
            let to = match required(&value, "new") {
                Ok(text) => text,
                Err(error) => return Err(error),
            };
            Ok(Some(Change::EnvironmentRename { from, to }))
        } else if same(kind, "environment.remove") {
            let name = match required(&value, "name") {
                Ok(text) => text,
                Err(error) => return Err(error),
            };
            Ok(Some(Change::EnvironmentRemove { name, force: true }))
        } else if same(kind, "secret.add") {
            let key = match required(&value, "key") {
                Ok(text) => text,
                Err(error) => return Err(error),
            };
            let description = optional(&value, "description");
            Ok(Some(Change::SecretAdd { key, description }))
        } else if same(kind, "secret.rename") {
            let from = match required(&value, "old") {
                Ok(text) => text,
                Err(error) => return Err(error),
            };
            let to = match required(&value, "new") {
                Ok(text) => text,
                Err(error) => return Err(error),
            };
            Ok(Some(Change::SecretRename { from, to }))
        } else if same(kind, "secret.remove") {
            let key = match required(&value, "key") {
                Ok(text) => text,
                Err(error) => return Err(error),
            };
            Ok(Some(Change::SecretRemove { key }))
        } else if same(kind, "secret.describe") {
            let key = match required(&value, "key") {
                Ok(text) => text,
                Err(error) => return Err(error),
            };
            let description = optional(&value, "description");
            Ok(Some(Change::SecretDescribe { key, description }))
        } else if same(kind, "variant.set") {
            let key = match required(&value, "key") {
                Ok(text) => text,
                Err(error) => return Err(error),
            };
            let environment = match required(&value, "environment") {
                Ok(text) => text,
                Err(error) => return Err(error),
            };
            let value = match required(&value, "value") {
                Ok(text) => text,
                Err(error) => return Err(error),
            };
            Ok(Some(Change::VariantSet { key, environment, value }))
        } else if same(kind, "variant.unset") {
            let key = match required(&value, "key") {
                Ok(text) => text,
                Err(error) => return Err(error),
            };
            let environment = match required(&value, "environment") {
                Ok(text) => text,
                Err(error) => return Err(error),
            };
            Ok(Some(Change::VariantUnset { key, environment }))
        } else if same(kind, "secret.assign") {
            let key = match required(&value, "key") {
                Ok(text) => text,
                Err(error) => return Err(error),
            };
            let project = match required(&value, "project") {
                Ok(text) => text,
                Err(error) => return Err(error),
            };
            Ok(Some(Change::SecretAssign { key, project }))
        } else if same(kind, "secret.unassign") {
            let key = match required(&value, "key") {
                Ok(text) => text,
                Err(error) => return Err(error),
            };
            let project = match required(&value, "project") {
                Ok(text) => text,
                Err(error) => return Err(error),
            };
            Ok(Some(Change::SecretUnassign { key, project }))
        } else {
            Ok(None)
        }
    }
}

fn required(value: &serde_json::Value, name: &str) -> (r: Result<String, StoreError>)
    ensures
        match r {
            Ok(text) => field(string_members(*value), name@) == Ok::<Seq<char>, StoreErrorView>(
                text@,
            ),
            Err(error) => field(string_members(*value), name@) == Err::<Seq<char>, StoreErrorView>(
                error@,
            ),
        },
{
    match string_member(value, name) {
        Some(text) => Ok(text.to_owned()),
        None => Err(
            StoreError::InvalidSyncPayload("missing string field ".to_owned().concat(name)),
        ),
    }
}

fn optional(value: &serde_json::Value, name: &str) -> (r: Option<String>)
    ensures
        opt_text(r) == optional_field(string_members(*value), name@),
{
    match string_member(value, name) {
        Some(text) => Some(text.to_owned()),
        None => None,
    }
}

} // verus!
