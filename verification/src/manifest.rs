//! Kubernetes Secret manifests.

use crate::domain::{env_entries, DomainError};
use crate::envmap::{EntryView, EnvMap};
use crate::order::lemma_filter_last;
use crate::registry::{made_from, resolve, resolve_result, ResolveFailure, SecretRegistry};
use crate::text::texts;
use vstd::prelude::*;

verus! {

/// Where a Secret is to be created.
#[derive(Debug, Clone, PartialEq, Eq)]
pub struct SecretManifestOptions {
    pub name: String,
    pub namespace: String,
}

/// A character inside a double-quoted YAML scalar.
pub open spec fn escape(c: char) -> Seq<char> {
    if c == '\\' {
        seq!['\\', '\\']
    } else if c == '"' {
        seq!['\\', '"']
    } else if c == '\n' {
        seq!['\\', 'n']
    } else if c == '\r' {
        seq!['\\', 'r']
    } else if c == '\t' {
        seq!['\\', 't']
    } else {
        seq![c]
    }
}

/// A text inside a double-quoted YAML scalar.
pub open spec fn escaped(text: Seq<char>) -> Seq<char>
    decreases text.len(),
{
    if text.len() == 0 {
        Seq::empty()
    } else {
        escaped(text.drop_last()) + escape(text.last())
    }
}

/// A text as a double-quoted YAML scalar.
pub open spec fn scalar(text: Seq<char>) -> Seq<char> {
    seq!['"'] + escaped(text) + seq!['"']
}

/// The characters of keys that stand without quotes.
pub open spec fn plain(c: char) -> bool {
    ||| 'a' <= c <= 'z'
    ||| 'A' <= c <= 'Z'
    ||| '0' <= c <= '9'
    ||| c == '_'
    ||| c == '-'
    ||| c == '.'
}

/// A mapping key: plain where it can be, quoted otherwise.
pub open spec fn mapping_key(text: Seq<char>) -> Seq<char> {
    if forall|i: int| 0 <= i < text.len() ==> plain(#[trigger] text[i]) {
        text
    } else {
        scalar(text)
    }
}

/// Lines, each of them ended.
pub open spec fn joined(lines: Seq<Seq<char>>) -> Seq<char>
    decreases lines.len(),
{
    if lines.len() == 0 {
        Seq::empty()
    } else {
        joined(lines.drop_last()) + lines.last() + seq!['\n']
    }
}

/// The lines of a manifest before its data.
pub open spec fn heading(
    project: Seq<char>,
    environment: Seq<char>,
    name: Seq<char>,
    namespace: Seq<char>,
) -> Seq<Seq<char>> {
    seq![
        "apiVersion: v1"@,
        "kind: Secret"@,
        "metadata:"@,
        "  name: "@ + scalar(name),
        "  namespace: "@ + scalar(namespace),
        "  labels:"@,
        "    app.kubernetes.io/managed-by: envctl"@,
        "  annotations:"@,
        "    envctl.io/project: "@ + scalar(project),
        "    envctl.io/environment: "@ + scalar(environment),
        "type: Opaque"@,
        "stringData:"@,
    ]
}

/// The line of a value.
pub open spec fn data_line(entry: EntryView) -> Seq<char> {
    "  "@ + mapping_key(entry.0) + ": "@ + scalar(entry.1)
}

/// The lines of a manifest.
pub open spec fn manifest_lines(
    project: Seq<char>,
    environment: Seq<char>,
    entries: Seq<EntryView>,
    name: Seq<char>,
    namespace: Seq<char>,
) -> Seq<Seq<char>> {
    heading(project, environment, name, namespace) + entries.map_values(
        |entry: EntryView| data_line(entry),
    )
}

/// The manifest of a Secret.
pub open spec fn manifest(
    project: Seq<char>,
    environment: Seq<char>,
    entries: Seq<EntryView>,
    name: Seq<char>,
    namespace: Seq<char>,
) -> Seq<char> {
    joined(manifest_lines(project, environment, entries, name, namespace))
}

fn push_escaped(out: &mut String, c: char)
    ensures
        final(out)@ == old(out)@ + escape(c),
{
    let ghost before = out@;
    if c == '\\' {
        out.push('\\');
        out.push('\\');
    } else if c == '"' {
        out.push('\\');
        out.push('"');
    } else if c == '\n' {
        out.push('\\');
        out.push('n');
    } else if c == '\r' {
        out.push('\\');
        out.push('r');
    } else if c == '\t' {
        out.push('\\');
        out.push('t');
    } else {
        out.push(c);
    }
    assert(out@ =~= before + escape(c));
}

/// Writes a text as a double-quoted YAML scalar.
pub fn yaml_scalar(value: &str) -> (r: String)
    ensures
        r@ == scalar(value@),
{
    let mut out = String::new();
    out.push('"');
    assert(value@.take(0) =~= Seq::empty());
    assert(out@ =~= seq!['"'] + escaped(value@.take(0)));
    for c in it: value.chars()
        invariant
            it.seq() == value@,
            0 <= it.index() <= value@.len(),
            out@ == seq!['"'] + escaped(value@.take(it.index())),
    {
        assert(value@.take(it.index() + 1).drop_last() =~= value@.take(it.index()));
        let ghost before = out@;
        push_escaped(&mut out, c);
        assert(out@ =~= seq!['"'] + escaped(value@.take(it.index() + 1)));
    }
    assert(value@.take(value@.len() as int) =~= value@);
    out.push('"');
    assert(out@ =~= scalar(value@));
    out
}

/// Writes a mapping key.
pub fn yaml_key(value: &str) -> (r: String)
    ensures
        r@ == mapping_key(value@),
{
    let chars = crate::text::chars_of(value);
    let mut i: usize = 0;
    while i < chars.len()
        invariant
            i <= chars.len(),
            chars@ == value@,
            forall|j: int| 0 <= j < i ==> plain(#[trigger] chars@[j]),
        decreases chars.len() - i,
    {
        let c = chars[i];
        if !(('a' <= c && c <= 'z') || ('A' <= c && c <= 'Z') || ('0' <= c && c <= '9') || c == '_'
            || c == '-' || c == '.') {
            assert(!plain(value@[i as int]));
            return yaml_scalar(value);
        }
        i = i + 1;
    }
    value.to_owned()
}

fn two_texts(first: &str, second: &str) -> (r: String)
    ensures
        r@ == first@ + second@,
{
    let mut out = first.to_owned();
    out.append(second);
    out
}

fn write_heading(
    project: &str,
    environment: &str,
    options: &SecretManifestOptions,
) -> (r: Vec<String>)
    ensures
        texts(r@) == heading(project@, environment@, options.name@, options.namespace@),
{
    let lines: Vec<String> = vec![
        "apiVersion: v1".to_owned(),
        "kind: Secret".to_owned(),
        "metadata:".to_owned(),
        two_texts("  name: ", yaml_scalar(options.name.as_str()).as_str()),
        two_texts("  namespace: ", yaml_scalar(options.namespace.as_str()).as_str()),
        "  labels:".to_owned(),
        "    app.kubernetes.io/managed-by: envctl".to_owned(),
        "  annotations:".to_owned(),
        two_texts("    envctl.io/project: ", yaml_scalar(project).as_str()),
        two_texts("    envctl.io/environment: ", yaml_scalar(environment).as_str()),
        "type: Opaque".to_owned(),
        "stringData:".to_owned(),
    ];
    assert(texts(lines@) =~= heading(project@, environment@, options.name@, options.namespace@));
    lines
}

fn write_lines(lines: &Vec<String>) -> (r: String)
    ensures
        r@ == joined(texts(lines@)),
{
    let ghost all = texts(lines@);
    let mut out = String::new();
    let mut i: usize = 0;
    assert(all.take(0) =~= Seq::empty());
    assert(out@ =~= joined(all.take(0)));
    while i < lines.len()
        invariant
            i <= lines@.len(),
            all == texts(lines@),
            out@ == joined(all.take(i as int)),
        decreases lines@.len() - i,
    {
        out.append(lines[i].as_str());
        out.push('\n');
        assert(all.take(i + 1).drop_last() =~= all.take(i as int));
        assert(out@ =~= joined(all.take(i + 1)));
        i = i + 1;
    }
    assert(all.take(i as int) =~= all);
    out
}

/// Writes the manifest of a Secret with given values.
pub fn render_secret_from_map(
    project: &str,
    environment: &str,
    values: &EnvMap,
    options: &SecretManifestOptions,
) -> (r: String)
    ensures
        r@ == manifest(project@, environment@, values@, options.name@, options.namespace@),
{
    let mut lines = write_heading(project, environment, options);
    let ghost start = texts(lines@);
    let ghost data = values@.map_values(|entry: EntryView| data_line(entry));
    let mut i: usize = 0;
    assert(data.take(0) =~= Seq::empty());
    assert(texts(lines@) =~= start + data.take(0));
    while i < values.len()
        invariant
            i <= values@.len(),
            data == values@.map_values(|entry: EntryView| data_line(entry)),
            texts(lines@) == start + data.take(i as int),
        decreases values@.len() - i,
    {
        let (key, value) = values.entry(i);
        let mut line = two_texts("  ", yaml_key(key).as_str());
        line.append(": ");
        line.append(yaml_scalar(value).as_str());
        let ghost before = lines@;
        lines.push(line);
        assert(data[i as int] == line@);
        assert(texts(lines@) =~= texts(before).push(line@));
        assert(texts(lines@) =~= start + data.take(i + 1));
        i = i + 1;
    }
    assert(data.take(i as int) =~= data);
    write_lines(&lines)
}

/// Writes the manifest of a Secret with the values of a project in an environment; all of
/// them must be set.
pub fn render_secret<R: SecretRegistry>(
    registry: &R,
    project: &str,
    environment: &str,
    options: &SecretManifestOptions,
) -> (r: Result<String, R::Error>) where R::Error: From<DomainError>
    ensures
        match resolve_result(registry, project@, environment@) {
            Ok(resolution) => r matches Ok(text) && text@ == manifest(
                project@,
                environment@,
                env_entries(resolution.secrets),
                options.name@,
                options.namespace@,
            ),
            Err(ResolveFailure::Registry(error)) => r matches Err(e) && e@ == error,
            Err(ResolveFailure::Missing(cause)) => r matches Err(e) && made_from(e, cause),
        },
{
    match resolve(registry, project, environment) {
        Err(error) => Err(error),
        Ok(resolution) => {
            let values = resolution.into_env_map();
            Ok(render_secret_from_map(project, environment, &values, options))
        },
    }
}

/// The character that a backslash and a letter stand for in a double-quoted YAML scalar.
pub open spec fn escaped_char(c: char) -> Option<char> {
    if c == '\\' || c == '"' {
        Some(c)
    } else if c == 'n' {
        Some('\n')
    } else if c == 'r' {
        Some('\r')
    } else if c == 't' {
        Some('\t')
    } else {
        None
    }
}

/// The text that the inside of a double-quoted YAML scalar stands for. Quotes, line breaks and
/// tabs stand in it only as escapes, and so do backslashes.
pub open spec fn unescaped(text: Seq<char>) -> Option<Seq<char>>
    decreases text.len(),
{
    if text.len() == 0 {
        Some(Seq::empty())
    } else if text[0] == '\\' {
        if text.len() == 1 {
            None
        } else {
            match (escaped_char(text[1]), unescaped(text.skip(2))) {
                (Some(c), Some(rest)) => Some(seq![c] + rest),
                _ => None,
            }
        }
    } else if text[0] == '"' || text[0] == '\n' || text[0] == '\r' || text[0] == '\t' {
        None
    } else {
        match unescaped(text.skip(1)) {
            Some(rest) => Some(seq![text[0]] + rest),
            None => None,
        }
    }
}

proof fn lemma_unescaped(text: Seq<char>, rest: Seq<char>)
    requires
        unescaped(rest) is Some,
    ensures
        unescaped(escaped(text) + rest) == Some(text + unescaped(rest)->0),
    decreases text.len(),
{
    if text.len() == 0 {
        assert(escaped(text) + rest =~= rest);
        assert(text + unescaped(rest)->0 =~= unescaped(rest)->0);
    } else {
        let c = text.last();
        let e = escape(c);
        let next = e + rest;
        if e.len() == 2 {
            assert(next.skip(2) =~= rest);
        } else {
            assert(next.skip(1) =~= rest);
        }
        assert(unescaped(next) == Some(seq![c] + unescaped(rest)->0));
        lemma_unescaped(text.drop_last(), next);
        assert(escaped(text) + rest =~= escaped(text.drop_last()) + next);
        assert(text.drop_last() + (seq![c] + unescaped(rest)->0) =~= text + unescaped(rest)->0);
    }
}

proof fn lemma_one_line(text: Seq<char>)
    ensures
        forall|i: int|
            0 <= i < escaped(text).len() ==> (#[trigger] escaped(text)[i]) != '\n' && escaped(
                text,
            )[i] != '\r' && escaped(text)[i] != '\t',
    decreases text.len(),
{
    if text.len() > 0 {
        let p = escaped(text.drop_last());
        let e = escape(text.last());
        lemma_one_line(text.drop_last());
        assert forall|i: int| 0 <= i < escaped(text).len() implies (#[trigger] escaped(text)[i])
            != '\n' && escaped(text)[i] != '\r' && escaped(text)[i] != '\t' by {
            if i < p.len() {
                assert(escaped(text)[i] == p[i]);
            } else {
                assert(escaped(text)[i] == e[i - p.len()]);
            }
        }
    }
}

/// A text stands between quotes in its scalar, on one line and without tabs, and undoing the
/// escapes gives it back.
pub proof fn law_scalar_is_read_back(text: Seq<char>)
    ensures
        ({
            let r = scalar(text);
            &&& r.len() >= 2
            &&& r.first() == '"'
            &&& r.last() == '"'
            &&& forall|i: int|
                0 <= i < r.len() ==> (#[trigger] r[i]) != '\n' && r[i] != '\r' && r[i] != '\t'
            &&& unescaped(r.subrange(1, r.len() - 1)) == Some(text)
        }),
{
    let r = scalar(text);
    lemma_one_line(text);
    lemma_unescaped(text, Seq::empty());
    assert(r.subrange(1, r.len() - 1) =~= escaped(text));
    assert(escaped(text) + Seq::<char>::empty() =~= escaped(text));
    assert(text + Seq::<char>::empty() =~= text);
    assert forall|i: int| 0 <= i < r.len() implies (#[trigger] r[i]) != '\n' && r[i] != '\r'
        && r[i] != '\t' by {
        if 0 < i < r.len() - 1 {
            assert(r[i] == escaped(text)[i - 1]);
        }
    }
}

/// Quoting is unambiguous: different texts have different scalars.
pub proof fn law_scalars_are_unambiguous(a: Seq<char>, b: Seq<char>)
    requires
        scalar(a) == scalar(b),
    ensures
        a == b,
{
    law_scalar_is_read_back(a);
    law_scalar_is_read_back(b);
}

/// How many lines a text ends.
pub open spec fn line_ends(text: Seq<char>) -> nat {
    text.filter(|c: char| c == '\n').len()
}

/// Whether a text is part of one line.
pub open spec fn within_a_line(text: Seq<char>) -> bool {
    forall|i: int| 0 <= i < text.len() ==> (#[trigger] text[i]) != '\n'
}

proof fn lemma_joined_ends(lines: Seq<Seq<char>>)
    requires
        forall|i: int| 0 <= i < lines.len() ==> within_a_line(#[trigger] lines[i]),
    ensures
        line_ends(joined(lines)) == lines.len(),
        lines.len() > 0 ==> joined(lines).last() == '\n',
    decreases lines.len(),
{
    let end = |c: char| c == '\n';
    if lines.len() == 0 {
        reveal(Seq::filter);
    } else {
        let rest = lines.drop_last();
        let line = lines.last();
        assert forall|i: int| 0 <= i < rest.len() implies within_a_line(#[trigger] rest[i]) by {
            assert(rest[i] == lines[i]);
        }
        lemma_joined_ends(rest);
        assert(within_a_line(lines[lines.len() - 1]));
        lemma_no_ends(joined(rest), line);
        let before = joined(rest) + line;
        assert(joined(lines) =~= before.push('\n'));
        assert(before.push('\n').drop_last() =~= before);
        lemma_filter_last(before.push('\n'), end);
    }
}

proof fn lemma_no_ends(text: Seq<char>, line: Seq<char>)
    requires
        within_a_line(line),
    ensures
        line_ends(text + line) == line_ends(text),
    decreases line.len(),
{
    let end = |c: char| c == '\n';
    if line.len() == 0 {
        assert(text + line =~= text);
    } else {
        let rest = line.drop_last();
        assert(within_a_line(rest)) by {
            assert forall|i: int| 0 <= i < rest.len() implies (#[trigger] rest[i]) != '\n' by {
                assert(rest[i] == line[i]);
            }
        }
        lemma_no_ends(text, rest);
        assert(line[line.len() - 1] != '\n');
        assert((text + line).drop_last() =~= text + rest);
        lemma_filter_last(text + line, end);
    }
}

proof fn lemma_joined_parts(a: Seq<char>, b: Seq<char>)
    requires
        within_a_line(a),
        within_a_line(b),
    ensures
        within_a_line(a + b),
{
}

proof fn lemma_scalar_line(text: Seq<char>)
    ensures
        within_a_line(scalar(text)),
        within_a_line(mapping_key(text)),
{
    law_scalar_is_read_back(text);
    if mapping_key(text) == text && mapping_key(text) != scalar(text) {
        assert forall|i: int| 0 <= i < text.len() implies (#[trigger] text[i]) != '\n' by {
            assert(plain(text[i]));
        }
    }
}

proof fn lemma_heading_lines(
    project: Seq<char>,
    environment: Seq<char>,
    name: Seq<char>,
    namespace: Seq<char>,
)
    ensures
        forall|i: int|
            0 <= i < heading(project, environment, name, namespace).len() ==> within_a_line(
                #[trigger] heading(project, environment, name, namespace)[i],
            ),
{
    reveal_strlit("apiVersion: v1");
    reveal_strlit("kind: Secret");
    reveal_strlit("metadata:");
    reveal_strlit("  name: ");
    reveal_strlit("  namespace: ");
    reveal_strlit("  labels:");
    reveal_strlit("    app.kubernetes.io/managed-by: envctl");
    reveal_strlit("  annotations:");
    reveal_strlit("    envctl.io/project: ");
    reveal_strlit("    envctl.io/environment: ");
    reveal_strlit("type: Opaque");
    reveal_strlit("stringData:");
    lemma_scalar_line(name);
    lemma_scalar_line(namespace);
    lemma_scalar_line(project);
    lemma_scalar_line(environment);
    assert(within_a_line("  name: "@ + scalar(name)));
    assert(within_a_line("  namespace: "@ + scalar(namespace)));
    assert(within_a_line("    envctl.io/project: "@ + scalar(project)));
    assert(within_a_line("    envctl.io/environment: "@ + scalar(environment)));
}

/// A manifest has twelve lines and one for each value, whatever the texts hold: the lines
/// before the values do not depend on the values, and no text adds a line.
pub proof fn law_no_text_adds_a_line(
    project: Seq<char>,
    environment: Seq<char>,
    entries: Seq<EntryView>,
    name: Seq<char>,
    namespace: Seq<char>,
)
    ensures
        ({
            let lines = manifest_lines(project, environment, entries, name, namespace);
            let text = manifest(project, environment, entries, name, namespace);
            &&& text == joined(lines)
            &&& lines.len() == 12 + entries.len()
            &&& line_ends(text) == 12 + entries.len()
            &&& text.last() == '\n'
            &&& forall|i: int| 0 <= i < lines.len() ==> within_a_line(#[trigger] lines[i])
            &&& lines.take(12) == heading(project, environment, name, namespace)
            &&& lines[11] == "stringData:"@
            &&& forall|i: int|
                0 <= i < entries.len() ==> lines[12 + i] == data_line(#[trigger] entries[i])
        }),
{
    let lines = manifest_lines(project, environment, entries, name, namespace);
    let top = heading(project, environment, name, namespace);
    lemma_heading_lines(project, environment, name, namespace);
    reveal_strlit("  ");
    reveal_strlit(": ");
    assert(lines.take(12) =~= top);
    assert forall|i: int| 0 <= i < lines.len() implies within_a_line(#[trigger] lines[i]) by {
        if i < 12 {
            assert(lines[i] == top[i]);
        } else {
            let entry = entries[i - 12];
            assert(lines[i] == data_line(entry));
            lemma_scalar_line(entry.0);
            lemma_scalar_line(entry.1);
            lemma_joined_parts("  "@, mapping_key(entry.0));
            lemma_joined_parts("  "@ + mapping_key(entry.0), ": "@);
            lemma_joined_parts("  "@ + mapping_key(entry.0) + ": "@, scalar(entry.1));
        }
    }
    lemma_joined_ends(lines);
}

} // verus!
