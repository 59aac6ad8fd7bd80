//! What the user reads: lists, reports of the log, refusals and masks.

use crate::commands::{
    code_for, domain_error_text, key_lines, masked, status_text, unconfirmed, without_line_end,
    CommandErrorView,
};
use crate::domain::DomainErrorView;
use crate::entity_commands::{count_lines, environment_list, project_list, secret_list};
use crate::envmap::EntryView;
use crate::error::StoreErrorView;
use crate::ids::id_text;
use crate::judging::holds;
use crate::manifest::{
    escape, escaped, law_scalar_is_read_back, manifest_lines, plain, scalar, unescaped,
};
use crate::order::{lemma_ordered, lemma_ordered_contains};
use crate::reading::law_names_find_their_rows;
use crate::runner::RunnerErrorView;
use crate::sync::SyncErrorView;
use crate::tables::{
    id_order, AssignmentRow, RecordView, StoreView, SyncOperationView, SyncStatusView, Table,
    VariantRowView,
};
use crate::text::{
    decimal_text, joined, text_before, trimmed, trimmed_end, trimmed_start, white_space,
};
use crate::time::Timestamp;
use vstd::prelude::*;

verus! {

/// The lines of a list are those of its rows, one after another.
pub proof fn law_list_has_one_line_for_each_row(
    a: Seq<RecordView>,
    b: Seq<RecordView>,
    row: RecordView,
    count: spec_fn(RecordView) -> nat,
    unit: Seq<char>,
)
    ensures
        count_lines(a + b, count, unit) == count_lines(a, count, unit) + count_lines(
            b,
            count,
            unit,
        ),
        count_lines(seq![row], count, unit) == row.name + "\t"@ + decimal_text(count(row)) + unit,
        count_lines(Seq::empty(), count, unit) == Seq::<char>::empty(),
    decreases b.len(),
{
    if b.len() == 0 {
        assert(a + b =~= a);
        assert(count_lines(a, count, unit) + count_lines(b, count, unit) =~= count_lines(
            a,
            count,
            unit,
        ));
    } else {
        law_list_has_one_line_for_each_row(a, b.drop_last(), row, count, unit);
        assert((a + b).drop_last() =~= a + b.drop_last());
        assert(count_lines(a + b, count, unit) =~= count_lines(a, count, unit) + count_lines(
            b,
            count,
            unit,
        ));
    }
    let none = Seq::<RecordView>::empty();
    assert(seq![row].drop_last() =~= none);
    assert(seq![row].last() == row);
    assert(count_lines(none, count, unit) =~= Seq::empty());
    assert(count_lines(seq![row], count, unit) =~= row.name + "\t"@ + decimal_text(count(row))
        + unit);
}

proof fn lemma_line_there(
    rows: Seq<RecordView>,
    i: int,
    count: spec_fn(RecordView) -> nat,
    unit: Seq<char>,
)
    requires
        0 <= i < rows.len(),
    ensures
        holds(
            count_lines(rows, count, unit),
            rows[i].name + "\t"@ + decimal_text(count(rows[i])) + unit,
        ),
{
    let a = rows.take(i);
    let b = rows.skip(i + 1);
    let row = rows[i];
    law_list_has_one_line_for_each_row(a, seq![row], row, count, unit);
    law_list_has_one_line_for_each_row(a + seq![row], b, row, count, unit);
    assert(rows =~= a + seq![row] + b);
    let line = row.name + "\t"@ + decimal_text(count(row)) + unit;
    assert(count_lines(rows, count, unit) == count_lines(a, count, unit) + line + count_lines(
        b,
        count,
        unit,
    ));
}

/// The lists of projects, environments and secrets tell of every one of them by its name how
/// many secrets are assigned to it, how many values it has, and how many projects it is assigned
/// to.
pub proof fn law_lists_tell_every_count(s: StoreView, i: int)
    requires
        s.well_formed(),
    ensures
        0 <= i < s.projects.len() ==> holds(
            project_list(s),
            s.projects[i].name + "\t"@ + decimal_text(
                s.assignments.filter(
                    |a: AssignmentRow| a.project_id == s.projects[i].id,
                ).len(),
            ) + " secrets\n"@,
        ),
        0 <= i < s.environments.len() ==> holds(
            environment_list(s),
            s.environments[i].name + "\t"@ + decimal_text(
                s.variants.filter(
                    |v: VariantRowView| v.environment_id == s.environments[i].id,
                ).len(),
            ) + " variants\n"@,
        ),
        0 <= i < s.secrets.len() ==> holds(
            secret_list(s),
            s.secrets[i].name + "\t"@ + decimal_text(
                s.assignments.filter(|a: AssignmentRow| a.secret_id == s.secrets[i].id).len(),
            ) + " projects\n"@,
        ),
        s.projects.len() == 0 ==> project_list(s).len() == 0,
        s.environments.len() == 0 ==> environment_list(s).len() == 0,
        s.secrets.len() == 0 ==> secret_list(s).len() == 0,
{
    lemma_list_lines(
        s,
        Table::Projects,
        i,
        |row: RecordView| s.secret_ids(row.id).len(),
        " secrets\n"@,
    );
    lemma_list_lines(
        s,
        Table::Environments,
        i,
        |row: RecordView| s.variant_count(s.record(Table::Environments, row.name)->0.id),
        " variants\n"@,
    );
    lemma_list_lines(
        s,
        Table::Secrets,
        i,
        |row: RecordView| s.project_ids(row.id).len(),
        " projects\n"@,
    );
    if 0 <= i < s.projects.len() {
        let p = s.assignments.filter(|a: AssignmentRow| a.project_id == s.projects[i].id);
        lemma_ordered(p.map_values(|a: AssignmentRow| a.secret_id), id_order());
    }
    if 0 <= i < s.secrets.len() {
        let p = s.assignments.filter(|a: AssignmentRow| a.secret_id == s.secrets[i].id);
        lemma_ordered(p.map_values(|a: AssignmentRow| a.project_id), id_order());
    }
    if 0 <= i < s.environments.len() {
        let row = s.environments[i];
        law_names_find_their_rows(s, row.name, row);
    }
}

proof fn lemma_list_lines(
    s: StoreView,
    table: Table,
    i: int,
    count: spec_fn(RecordView) -> nat,
    unit: Seq<char>,
)
    ensures
        0 <= i < s.rows(table).len() ==> holds(
            count_lines(s.listed(table), count, unit),
            s.rows(table)[i].name + "\t"@ + decimal_text(count(s.rows(table)[i])) + unit,
        ),
        s.rows(table).len() == 0 ==> count_lines(s.listed(table), count, unit).len() == 0,
{
    let rows = s.rows(table);
    let list = s.listed(table);
    lemma_ordered(rows, crate::tables::name_order());
    if 0 <= i < rows.len() {
        lemma_ordered_contains(rows, crate::tables::name_order(), rows[i]);
        assert(rows.contains(rows[i]));
        let k = choose|k: int| 0 <= k < list.len() && list[k] == rows[i];
        lemma_line_there(list, k, count, unit);
    }
}

/// The refusals name what is wrong and what it is wrong with.
pub proof fn law_refusals_name_their_cause(
    name: Seq<char>,
    other: Seq<char>,
    keys: Seq<Seq<char>>,
    count: nat,
)
    ensures
        DomainErrorView::ProjectNotFound(name).message() == "Project \""@ + name
            + "\" not found."@,
        DomainErrorView::EnvironmentNotFound(name).message() == "Environment \""@ + name
            + "\" not found."@,
        DomainErrorView::SecretNotFound(name).message() == "Secret \""@ + name + "\" not found."@,
        (DomainErrorView::DuplicateProject { project: name }).message() == "Project \""@ + name
            + "\" already exists."@,
        (DomainErrorView::DuplicateEnvironment { environment: name }).message()
            == "Environment \""@ + name + "\" already exists."@,
        (DomainErrorView::DuplicateSecret { key: name }).message() == "Secret key \""@ + name
            + "\" already exists."@,
        (DomainErrorView::MissingVariants {
            project: name,
            environment: other,
            missing_keys: keys,
        }).message() == "Cannot resolve secrets for project \""@ + name
            + "\" in environment \""@ + other + "\"."@,
        DomainErrorView::EmptyCommand.message()
            == "No command provided after --.\nUsage: envctl run <project> <env> -- <cmd>"@,
        (DomainErrorView::EnvironmentHasVariants {
            environment: name,
            variant_count: count,
        }).message() == "Cannot delete environment \""@ + name + "\" because it has "@
            + decimal_text(count) + " variant(s)."@,
        StoreErrorView::Sql(name).message() == "database error: "@ + name,
        StoreErrorView::InvalidTimestamp(name).message() == "invalid timestamp in database: "@
            + name,
        StoreErrorView::InvalidId(name).message() == "invalid id in database: "@ + name,
        StoreErrorView::InvalidSyncPayload(name).message() == "invalid sync payload: "@ + name,
        RunnerErrorView::Spawn(name).message() == "failed to spawn command: "@ + name,
        SyncErrorView::InvalidTimestamp(name).message() == "invalid operation timestamp "@ + name,
        SyncErrorView::InvalidId(name).message() == "invalid operation id "@ + name,
        unconfirmed(name) == CommandErrorView::Other(
            "Destructive command requires --yes: envctl "@ + name + " ... --yes"@,
        ),
{
}

proof fn lemma_key_lines(a: Seq<Seq<char>>, b: Seq<Seq<char>>, key: Seq<char>)
    ensures
        key_lines(a + b) == key_lines(a) + key_lines(b),
        key_lines(seq![key]) == "- "@ + key + "\n"@,
    decreases b.len(),
{
    if b.len() == 0 {
        assert(a + b =~= a);
        assert(key_lines(a) + key_lines(b) =~= key_lines(a));
    } else {
        lemma_key_lines(a, b.drop_last(), key);
        assert((a + b).drop_last() =~= a + b.drop_last());
        assert(key_lines(a + b) =~= key_lines(a) + key_lines(b));
    }
    let none = Seq::<Seq<char>>::empty();
    assert(seq![key].drop_last() =~= none);
    assert(seq![key].last() == key);
    assert(key_lines(none) =~= Seq::empty());
    assert(key_lines(seq![key]) =~= "- "@ + key + "\n"@);
}

/// What is printed where values are missing.
pub open spec fn missing_text(
    project: Seq<char>,
    environment: Seq<char>,
    keys: Seq<Seq<char>>,
) -> Seq<char> {
    CommandErrorView::Domain(
        DomainErrorView::MissingVariants { project, environment, missing_keys: keys },
    ).text()
}

/// An error is printed as its message on a line. Where values are missing, every key without one
/// has a line of its own below.
pub proof fn law_errors_are_printed(
    error: CommandErrorView,
    project: Seq<char>,
    environment: Seq<char>,
    keys: Seq<Seq<char>>,
    i: int,
)
    ensures
        match error {
            CommandErrorView::Other(text) => error.text() == text + "\n"@,
            CommandErrorView::Domain(domain) => error.text() == CommandErrorView::Store(
                StoreErrorView::Domain(domain),
            ).text() && (!(domain is MissingVariants) ==> error.text() == domain.message()
                + "\n"@),
            CommandErrorView::Store(store) => !(store is Domain) ==> error.text()
                == store.message() + "\n"@,
        },
        0 <= i < keys.len() ==> holds(
            missing_text(project, environment, keys),
            "\n- "@ + keys[i] + "\n"@,
        ),
        missing_text(project, environment, keys).take(
            ("Cannot resolve secrets for project \""@ + project + "\" in environment \""@
                + environment + "\".\n\nMissing environment variants:\n"@).len() as int,
        ) == "Cannot resolve secrets for project \""@ + project + "\" in environment \""@
            + environment + "\".\n\nMissing environment variants:\n"@,
{
    let missing = DomainErrorView::MissingVariants { project, environment, missing_keys: keys };
    let text = domain_error_text(missing);
    let top = "Cannot resolve secrets for project \""@ + project + "\" in environment \""@
        + environment + "\".\n\nMissing environment variants:\n"@;
    assert(text == top + key_lines(keys));
    assert(text.take(top.len() as int) =~= top);
    if 0 <= i < keys.len() {
        let a = keys.take(i);
        let b = keys.skip(i + 1);
        lemma_key_lines(a, seq![keys[i]], keys[i]);
        lemma_key_lines(a + seq![keys[i]], b, keys[i]);
        assert(keys =~= a + seq![keys[i]] + b);
        let before = top + key_lines(a);
        reveal_strlit("\".\n\nMissing environment variants:\n");
        reveal_strlit("\n");
        reveal_strlit("- ");
        reveal_strlit("\n- ");
        assert(before.last() == '\n') by {
            if a.len() > 0 {
                assert(key_lines(a).last() == '\n');
            } else {
                assert(before =~= top);
            }
        }
        assert(text =~= before.drop_last() + ("\n- "@ + keys[i] + "\n"@) + key_lines(b));
    }
}

/// What is told of the log: how many operations it has, and of the latest its time, its kind and
/// its identifier.
pub proof fn law_status_is_told(count: nat, operation: SyncOperationView)
    ensures
        status_text(
            (SyncStatusView { operation_count: count, latest_operation: Some(operation) }),
        )
            == "Operations: "@ + decimal_text(count) + "\nLatest: "@
            + operation.created_at.display() + "\t"@ + operation.kind + "\t"@ + id_text(
            operation.id,
        ) + "\n"@,
        status_text((SyncStatusView { operation_count: count, latest_operation: None }))
            == "Operations: "@ + decimal_text(count) + "\nLatest: none\n"@,
{
    reveal_strlit("\n");
    reveal_strlit("Latest: ");
    reveal_strlit("\nLatest: ");
    reveal_strlit("Latest: none\n");
    reveal_strlit("\nLatest: none\n");
    assert(status_text(
        SyncStatusView { operation_count: count, latest_operation: Some(operation) },
    ) =~= "Operations: "@ + decimal_text(count) + "\nLatest: "@ + operation.created_at.display()
        + "\t"@ + operation.kind + "\t"@ + id_text(operation.id) + "\n"@);
    assert(status_text(SyncStatusView { operation_count: count, latest_operation: None })
        =~= "Operations: "@ + decimal_text(count) + "\nLatest: none\n"@);
}

/// A mask tells the names and nothing of the values: other values under the same names are
/// masked alike.
pub proof fn law_masks_tell_no_value(a: Seq<EntryView>, b: Seq<EntryView>)
    ensures
        masked(a).len() == a.len(),
        forall|i: int| 0 <= i < a.len() ==> (#[trigger] masked(a)[i]).0 == a[i].0,
        forall|i: int| 0 <= i < a.len() ==> (#[trigger] masked(a)[i]).1 == "********"@,
        a.len() == b.len() && (forall|i: int| 0 <= i < a.len() ==> #[trigger] a[i].0 == b[i].0)
            ==> masked(a) == masked(b),
        code_for(true) == 0,
        code_for(false) == 1,
{
    if a.len() == b.len() && (forall|i: int| 0 <= i < a.len() ==> #[trigger] a[i].0 == b[i].0) {
        assert(masked(a) =~= masked(b));
    }
}

/// A value that is piped in is what stands ahead of the line breaks at the end of the text: it
/// ends in none, and nothing else is left out.
pub proof fn law_piped_value_lacks_only_line_ends(text: Seq<char>)
    ensures
        ({
            let value = without_line_end(text);
            &&& value.len() <= text.len()
            &&& value == text.take(value.len() as int)
            &&& value.len() > 0 ==> value.last() != '\n' && value.last() != '\r'
            &&& forall|i: int|
                value.len() <= i < text.len() ==> (#[trigger] text[i]) == '\n' || text[i] == '\r'
        }),
    decreases text.len(),
{
    if text.len() > 0 && (text.last() == '\n' || text.last() == '\r') {
        law_piped_value_lacks_only_line_ends(text.drop_last());
        let value = without_line_end(text);
        assert(value =~= text.take(value.len() as int));
        assert forall|i: int| value.len() <= i < text.len() implies (#[trigger] text[i]) == '\n'
            || text[i] == '\r' by {
            if i < text.len() - 1 {
                assert(text.drop_last()[i] == text[i]);
            }
        }
    } else {
        assert(text =~= text.take(text.len() as int));
    }
}

proof fn lemma_trimmed_start(text: Seq<char>) -> (from: int)
    ensures
        0 <= from <= text.len(),
        trimmed_start(text) == text.skip(from),
        forall|i: int| 0 <= i < from ==> white_space(#[trigger] text[i]),
        from < text.len() ==> !white_space(text[from]),
    decreases text.len(),
{
    if text.len() > 0 && white_space(text[0]) {
        let rest = text.drop_first();
        let from = lemma_trimmed_start(rest);
        assert(rest.skip(from) =~= text.skip(from + 1));
        assert forall|i: int| 0 <= i < from + 1 implies white_space(#[trigger] text[i]) by {
            if i > 0 {
                assert(rest[i - 1] == text[i]);
            }
        }
        if from < rest.len() {
            assert(rest[from] == text[from + 1]);
        }
        from + 1
    } else {
        assert(text.skip(0) =~= text);
        0
    }
}

proof fn lemma_trimmed_end(text: Seq<char>)
    ensures
        trimmed_end(text).len() <= text.len(),
        trimmed_end(text) == text.take(trimmed_end(text).len() as int),
        trimmed_end(text).len() > 0 ==> !white_space(trimmed_end(text).last()),
        forall|i: int|
            trimmed_end(text).len() <= i < text.len() ==> white_space(#[trigger] text[i]),
    decreases text.len(),
{
    if text.len() > 0 && white_space(text.last()) {
        lemma_trimmed_end(text.drop_last());
        let kept = trimmed_end(text);
        assert(kept =~= text.take(kept.len() as int));
        assert forall|i: int| kept.len() <= i < text.len() implies white_space(
            #[trigger] text[i],
        ) by {
            if i < text.len() - 1 {
                assert(text.drop_last()[i] == text[i]);
            }
        }
    } else {
        assert(text =~= text.take(text.len() as int));
    }
}

/// Whether a text is what is left of another between two places, with white space alone left
/// out.
pub open spec fn cut_out(part: Seq<char>, text: Seq<char>, from: int, to: int) -> bool {
    &&& 0 <= from <= to <= text.len()
    &&& part == text.subrange(from, to)
    &&& forall|i: int|
        0 <= i < text.len() && !(from <= i < to) ==> white_space(#[trigger] text[i])
}

/// Trimming leaves out white space at the ends and nothing else; what is left begins and ends
/// with something else, and trimming it again changes nothing.
pub proof fn law_trimming(text: Seq<char>)
    ensures
        exists|from: int, to: int| cut_out(trimmed(text), text, from, to),
        trimmed(text).len() > 0 ==> !white_space(trimmed(text).first()) && !white_space(
            trimmed(text).last(),
        ),
        trimmed(trimmed(text)) == trimmed(text),
{
    let from = lemma_trimmed_start(text);
    let rest = trimmed_start(text);
    lemma_trimmed_end(rest);
    let part = trimmed(text);
    let to = from + part.len();
    assert(part =~= text.subrange(from, to));
    assert forall|i: int| 0 <= i < text.len() && !(from <= i < to) implies white_space(
        #[trigger] text[i],
    ) by {
        if i >= to {
            assert(rest[i - from] == text[i]);
        }
    }
    assert(cut_out(part, text, from, to));
    if part.len() > 0 {
        assert(part[0] == text[from]);
    }
    assert(trimmed_start(part) == part);
    assert(trimmed_end(part) == part);
}

/// A manifest tells what it is a manifest of, and below `stringData:` every entry on a line of
/// its own: its name, plain or quoted, and its value in quotes, from which undoing the escapes
/// gives the value.
pub proof fn law_manifest_tells_every_value(
    project: Seq<char>,
    environment: Seq<char>,
    entries: Seq<EntryView>,
    name: Seq<char>,
    namespace: Seq<char>,
    i: int,
)
    ensures
        ({
            let lines = manifest_lines(project, environment, entries, name, namespace);
            let quoted = |text: Seq<char>, t: Seq<char>|
                t.len() >= 2 && t.first() == '"' && t.last() == '"' && unescaped(
                    t.subrange(1, t.len() - 1),
                ) == Some(text);
            &&& lines.len() == 12 + entries.len()
            &&& lines[0] == "apiVersion: v1"@
            &&& lines[1] == "kind: Secret"@
            &&& lines[2] == "metadata:"@
            &&& lines[3] == "  name: "@ + scalar(name)
            &&& lines[4] == "  namespace: "@ + scalar(namespace)
            &&& lines[5] == "  labels:"@
            &&& lines[6] == "    app.kubernetes.io/managed-by: envctl"@
            &&& lines[7] == "  annotations:"@
            &&& lines[8] == "    envctl.io/project: "@ + scalar(project)
            &&& lines[9] == "    envctl.io/environment: "@ + scalar(environment)
            &&& lines[10] == "type: Opaque"@
            &&& lines[11] == "stringData:"@
            &&& 0 <= i < entries.len() ==> exists|k: Seq<char>, v: Seq<char>|
                {
                    &&& lines[12 + i] == #[trigger] ("  "@ + k + ": "@ + v)
                    &&& quoted(entries[i].1, v)
                    &&& quoted(entries[i].0, k) || (k == entries[i].0 && forall|c: int|
                        0 <= c < k.len() ==> plain(#[trigger] k[c]))
                }
        }),
{
    let lines = manifest_lines(project, environment, entries, name, namespace);
    if 0 <= i < entries.len() {
        law_scalar_is_read_back(entries[i].0);
        law_scalar_is_read_back(entries[i].1);
        let k = crate::manifest::mapping_key(entries[i].0);
        let v = scalar(entries[i].1);
        assert(lines[12 + i] == "  "@ + k + ": "@ + v);
    }
}

/// The number that decimal digits stand for.
pub open spec fn number_in(text: Seq<char>) -> int
    decreases text.len(),
{
    if text.len() == 0 {
        0
    } else {
        10 * number_in(text.drop_last()) + (text.last() as u32 - '0' as u32)
    }
}

/// A number is written with digits alone, without a zero ahead of others, and is read back from
/// them.
pub proof fn law_numbers_are_read_back(n: nat)
    ensures
        number_in(decimal_text(n)) == n,
        decimal_text(n).len() > 0,
        forall|i: int|
            0 <= i < decimal_text(n).len() ==> '0' <= (#[trigger] decimal_text(n)[i]) <= '9',
        decimal_text(n).len() > 1 ==> decimal_text(n)[0] != '0',
    decreases n,
{
    let text = decimal_text(n);
    if n < 10 {
        assert(text.drop_last() =~= Seq::empty());
        assert(number_in(text.drop_last()) == 0);
        assert(text.last() as u32 - '0' as u32 == n);
    } else {
        law_numbers_are_read_back(n / 10);
        let rest = decimal_text(n / 10);
        assert(text.drop_last() =~= rest);
        assert(text.last() as u32 - '0' as u32 == n % 10);
        assert(text[0] == rest[0]);
        if rest.len() == 1 {
            assert(rest.drop_last() =~= Seq::empty());
            assert(number_in(rest.drop_last()) == 0);
            assert(rest.last() == rest[0]);
        }
    }
}

/// Whether two texts have their first characters in common, and the first text ends there, or
/// goes on with a smaller character.
pub open spec fn parts_at(a: Seq<char>, b: Seq<char>, i: int) -> bool {
    &&& 0 <= i <= a.len()
    &&& i < b.len()
    &&& a.take(i) == b.take(i)
    &&& i == a.len() || a[i] < b[i]
}

/// Texts are ordered by the first character in which they differ, and a text comes ahead of the
/// longer ones that begin with it.
pub proof fn law_text_order(a: Seq<char>, b: Seq<char>)
    ensures
        text_before(a, b) <==> exists|i: int| parts_at(a, b, i),
    decreases a.len(),
{
    if b.len() > 0 && a.len() > 0 && a[0] == b[0] {
        let (c, d) = (a.drop_first(), b.drop_first());
        law_text_order(c, d);
        if text_before(a, b) {
            let i = choose|i: int| parts_at(c, d, i);
            assert(a.take(i + 1) =~= seq![a[0]] + c.take(i));
            assert(b.take(i + 1) =~= seq![a[0]] + d.take(i));
            assert(parts_at(a, b, i + 1));
        }
        if exists|i: int| parts_at(a, b, i) {
            let i = choose|i: int| parts_at(a, b, i);
            assert(c.take(i - 1) =~= a.take(i).drop_first());
            assert(d.take(i - 1) =~= b.take(i).drop_first());
            assert(parts_at(c, d, i - 1));
        }
    } else {
        if text_before(a, b) {
            assert(a.take(0) =~= b.take(0));
            assert(parts_at(a, b, 0));
        }
        if exists|i: int| parts_at(a, b, i) {
            let i = choose|i: int| parts_at(a, b, i);
            if i > 0 {
                assert(a.take(i)[0] == b.take(i)[0]);
            }
        }
    }
}

/// One time is earlier than another by its seconds, and by the fraction where the seconds are
/// equal.
pub proof fn law_time_order(a: Timestamp, b: Timestamp)
    ensures
        a.seconds_spec() < b.seconds_spec() ==> a.earlier(b) && !b.earlier(a),
        a.seconds_spec() == b.seconds_spec() ==> (a.earlier(b) <==> a.nanos_spec()
            < b.nanos_spec()),
{
}

/// Texts that are joined stand in their order, with the separator between neighbours and nothing
/// else.
pub proof fn law_joined_texts(
    parts: Seq<Seq<char>>,
    next: Seq<char>,
    separator: Seq<char>,
)
    ensures
        joined(Seq::empty(), separator) == Seq::<char>::empty(),
        joined(seq![next], separator) == next,
        parts.len() > 0 ==> joined(parts.push(next), separator) == joined(parts, separator)
            + separator + next,
{
    assert(seq![next][0] == next);
    assert(parts.push(next).drop_last() =~= parts);
}

/// In quotes a backslash and a quotation mark stand behind a backslash, and line ends and tabs as
/// a backslash and a letter; every other character stands for itself. A key stands without
/// quotes where it has letters, digits, underscores, hyphens and dots alone.
pub proof fn law_quoting(text: Seq<char>, c: char)
    ensures
        scalar(Seq::empty()) == seq!['"', '"'],
        ({
            let before = scalar(text).drop_last();
            let after = scalar(text.push(c));
            &&& c == '\\' || c == '"' ==> after == before + seq!['\\', c, '"']
            &&& c == '\n' ==> after == before + seq!['\\', 'n', '"']
            &&& c == '\r' ==> after == before + seq!['\\', 'r', '"']
            &&& c == '\t' ==> after == before + seq!['\\', 't', '"']
            &&& c != '\\' && c != '"' && c != '\n' && c != '\r' && c != '\t' ==> after == before
                + seq![c, '"']
        }),
        plain(c) <==> 'a' <= c <= 'z' || 'A' <= c <= 'Z' || '0' <= c <= '9' || c == '_' || c == '-'
            || c == '.',
{
    let before = scalar(text).drop_last();
    let after = scalar(text.push(c));
    assert(text.push(c).drop_last() =~= text);
    assert(before =~= seq!['"'] + escaped(text));
    assert(after =~= before + (escape(c) + seq!['"']));
    assert(scalar(Seq::empty()) =~= seq!['"', '"']);
    if c == '\\' {
        assert(escape(c) + seq!['"'] =~= seq!['\\', '\\', '"']);
    } else if c == '"' {
        assert(escape(c) + seq!['"'] =~= seq!['\\', '"', '"']);
    } else if c == '\n' {
        assert(escape(c) + seq!['"'] =~= seq!['\\', 'n', '"']);
    } else if c == '\r' {
        assert(escape(c) + seq!['"'] =~= seq!['\\', 'r', '"']);
    } else if c == '\t' {
        assert(escape(c) + seq!['"'] =~= seq!['\\', 't', '"']);
    } else {
        assert(escape(c) + seq!['"'] =~= seq![c, '"']);
    }
}

/// Of the ASCII characters the space, the tab, the line ends and the feeds are white space, and
/// no letter, digit or mark.
pub proof fn law_white_space(c: char)
    ensures
        c == ' ' || c == '\t' || c == '\n' || c == '\r' ==> white_space(c),
        ' ' < c <= '~' ==> !white_space(c),
        c as u32 == 0xa0 || c as u32 == 0x85 || c as u32 == 0x3000 ==> white_space(c),
{
}

} // verus!
