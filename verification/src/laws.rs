//! What holds of every line and of every load.

use crate::line::{before_comment, is_skipped, parse, Line};
use crate::load::{load, step, Run};
use crate::text::{is_first_occurrence, lemma_first_occurrence, occurs_at};
use vstd::prelude::*;

verus! {

/// The number of lines that a load took in before it ended: all of them, or
/// those before the malformed line.
pub open spec fn lines_taken(run: Run, lines: Seq<Seq<char>>) -> int {
    match run.failure {
        Some(failure) => failure.line_number - 1,
        None => lines.len() as int,
    }
}

/// Whether `line` is an entry with the key `key`.
pub open spec fn has_key(
    line: Seq<char>,
    comment: Seq<char>,
    delimiter: Seq<char>,
    key: Seq<char>,
) -> bool {
    parse(line, comment, delimiter) is Entry && parse(line, comment, delimiter)->key == key
}

/// The variables after the writes `writes` have been made in order.
pub open spec fn replay(vars: Map<Seq<char>, Seq<char>>, writes: Seq<(Seq<char>, Seq<char>)>) -> Map<
    Seq<char>,
    Seq<char>,
>
    decreases writes.len(),
{
    if writes.len() == 0 {
        vars
    } else {
        replay(vars, writes.drop_last()).insert(writes.last().0, writes.last().1)
    }
}

/// A line that is not skipped, and that holds the delimiter before its
/// comment, is an entry. Its key ends where the delimiter first stands, and
/// the key, the delimiter and the value make up the line as far as its
/// comment.
pub proof fn lemma_entry_rejoins(
    line: Seq<char>,
    comment: Seq<char>,
    delimiter: Seq<char>,
    at: int,
)
    requires
        !is_skipped(line, comment),
        occurs_at(before_comment(line, comment), delimiter, at),
    ensures
        parse(line, comment, delimiter) is Entry,
        ({
            let key = parse(line, comment, delimiter)->key;
            let value = parse(line, comment, delimiter)->value;
            &&& is_first_occurrence(before_comment(line, comment), delimiter, key.len() as int)
            &&& key + delimiter + value == before_comment(line, comment)
        }),
{
    lemma_first_occurrence(before_comment(line, comment), delimiter);
}

/// A line that is not skipped, and that does not hold the delimiter before
/// its comment, is malformed.
pub proof fn lemma_malformed_without_delimiter(
    line: Seq<char>,
    comment: Seq<char>,
    delimiter: Seq<char>,
)
    requires
        !is_skipped(line, comment),
        forall|at: int| !occurs_at(before_comment(line, comment), delimiter, at),
    ensures
        parse(line, comment, delimiter) is Malformed,
{
    lemma_first_occurrence(before_comment(line, comment), delimiter);
}

/// A load stops at the first malformed line and nowhere else. The failure
/// names that line by its number, counted from 1, and holds its text; where no
/// line is malformed there is no failure.
pub proof fn lemma_failure_is_first_malformed(
    vars: Map<Seq<char>, Seq<char>>,
    lines: Seq<Seq<char>>,
    comment: Seq<char>,
    delimiter: Seq<char>,
    overwrite: bool,
)
    ensures
        match load(vars, lines, comment, delimiter, overwrite).failure {
            Some(failure) => {
                &&& 1 <= failure.line_number <= lines.len()
                &&& parse(lines[failure.line_number - 1], comment, delimiter) is Malformed
                &&& failure.content == lines[failure.line_number - 1]
                &&& forall|i: int|
                    0 <= i < failure.line_number - 1 ==> !(parse(
                        #[trigger] lines[i],
                        comment,
                        delimiter,
                    ) is Malformed)
            },
            None => forall|i: int|
                0 <= i < lines.len() ==> !(parse(#[trigger] lines[i], comment, delimiter)
                    is Malformed),
        },
    decreases lines.len(),
{
    if lines.len() > 0 {
        let before = lines.drop_last();
        lemma_failure_is_first_malformed(vars, before, comment, delimiter, overwrite);
        assert forall|i: int| 0 <= i < before.len() implies before[i] == lines[i] by {}
    }
}

/// A line that is blank, or a comment as a whole, gives no entry and changes
/// nothing: not the variables, not the writes, not the failure.
pub proof fn lemma_skipped_line_changes_nothing(
    run: Run,
    number: nat,
    line: Seq<char>,
    comment: Seq<char>,
    delimiter: Seq<char>,
    overwrite: bool,
)
    requires
        is_skipped(line, comment),
    ensures
        parse(line, comment, delimiter) is Skipped,
        step(run, number, line, comment, delimiter, overwrite) == run,
{
}

/// The variables after a load are the variables before it with the reported
/// writes made in order.
pub proof fn lemma_writes_give_variables(
    vars: Map<Seq<char>, Seq<char>>,
    lines: Seq<Seq<char>>,
    comment: Seq<char>,
    delimiter: Seq<char>,
    overwrite: bool,
)
    ensures
        load(vars, lines, comment, delimiter, overwrite).vars == replay(
            vars,
            load(vars, lines, comment, delimiter, overwrite).written,
        ),
    decreases lines.len(),
{
    if lines.len() > 0 {
        let before = load(vars, lines.drop_last(), comment, delimiter, overwrite);
        let after = load(vars, lines, comment, delimiter, overwrite);
        lemma_writes_give_variables(vars, lines.drop_last(), comment, delimiter, overwrite);
        if after.written != before.written {
            assert(after.written.drop_last() =~= before.written);
        }
    }
}

/// A load never removes a variable.
pub proof fn lemma_variables_stay_set(
    vars: Map<Seq<char>, Seq<char>>,
    lines: Seq<Seq<char>>,
    comment: Seq<char>,
    delimiter: Seq<char>,
    overwrite: bool,
)
    ensures
        vars.dom().subset_of(load(vars, lines, comment, delimiter, overwrite).vars.dom()),
    decreases lines.len(),
{
    if lines.len() > 0 {
        lemma_variables_stay_set(vars, lines.drop_last(), comment, delimiter, overwrite);
    }
}

/// Without overwriting, a variable that was set before a load has the same
/// value after it.
pub proof fn lemma_set_variables_kept(
    vars: Map<Seq<char>, Seq<char>>,
    lines: Seq<Seq<char>>,
    comment: Seq<char>,
    delimiter: Seq<char>,
    name: Seq<char>,
)
    requires
        vars.contains_key(name),
    ensures
        load(vars, lines, comment, delimiter, false).vars.contains_key(name),
        load(vars, lines, comment, delimiter, false).vars[name] == vars[name],
    decreases lines.len(),
{
    if lines.len() > 0 {
        lemma_set_variables_kept(vars, lines.drop_last(), comment, delimiter, name);
    }
}

/// Without overwriting, loading into variables that already hold every name
/// that a load of the same lines leaves set writes nothing, and stops where
/// that load stopped.
pub proof fn lemma_reload_writes_nothing(
    first: Map<Seq<char>, Seq<char>>,
    overwrite: bool,
    vars: Map<Seq<char>, Seq<char>>,
    lines: Seq<Seq<char>>,
    comment: Seq<char>,
    delimiter: Seq<char>,
)
    requires
        load(first, lines, comment, delimiter, overwrite).vars.dom().subset_of(vars.dom()),
    ensures
        load(vars, lines, comment, delimiter, false) == (Run {
            vars,
            written: Seq::empty(),
            failure: load(first, lines, comment, delimiter, overwrite).failure,
        }),
    decreases lines.len(),
{
    if lines.len() > 0 {
        // The first load never removes a name, so `vars` holds what it left
        // after all lines but the last, too. If the last line is an entry,
        // the first load left its key set, and the second finds it set.
        let before = load(first, lines.drop_last(), comment, delimiter, overwrite);
        let after = load(first, lines, comment, delimiter, overwrite);
        assert(before.vars.dom().subset_of(after.vars.dom()));
        lemma_reload_writes_nothing(
            first,
            overwrite,
            vars,
            lines.drop_last(),
            comment,
            delimiter,
        );
    }
}

/// Loading the same lines a second time without overwriting leaves the
/// variables as the first load left them.
pub proof fn lemma_second_load_changes_nothing(
    vars: Map<Seq<char>, Seq<char>>,
    lines: Seq<Seq<char>>,
    comment: Seq<char>,
    delimiter: Seq<char>,
)
    ensures
        ({
            let once = load(vars, lines, comment, delimiter, false);
            let twice = load(once.vars, lines, comment, delimiter, false);
            &&& twice.vars == once.vars
            &&& twice.written == Seq::<(Seq<char>, Seq<char>)>::empty()
            &&& twice.failure == once.failure
        }),
{
    let once = load(vars, lines, comment, delimiter, false);
    lemma_reload_writes_nothing(vars, false, once.vars, lines, comment, delimiter);
}

/// Without overwriting, a name that was not set before a load gets the value
/// of the first entry that gives it one: a later entry with the same key is
/// refused.
pub proof fn lemma_first_entry_wins(
    vars: Map<Seq<char>, Seq<char>>,
    lines: Seq<Seq<char>>,
    comment: Seq<char>,
    delimiter: Seq<char>,
    at: int,
    key: Seq<char>,
    value: Seq<char>,
)
    requires
        0 <= at < lines_taken(load(vars, lines, comment, delimiter, false), lines),
        parse(lines[at], comment, delimiter) == (Line::Entry { key, value }),
        !vars.contains_key(key),
        forall|i: int| 0 <= i < at ==> !has_key(#[trigger] lines[i], comment, delimiter, key),
    ensures
        load(vars, lines, comment, delimiter, false).vars.contains_key(key),
        load(vars, lines, comment, delimiter, false).vars[key] == value,
    decreases lines.len(),
{
    let before = lines.drop_last();
    lemma_failure_is_first_malformed(vars, lines, comment, delimiter, false);
    lemma_failure_is_first_malformed(vars, before, comment, delimiter, false);
    if at == lines.len() - 1 {
        lemma_key_unset_without_entry(vars, before, comment, delimiter, false, key);
    } else {
        lemma_first_entry_wins(vars, before, comment, delimiter, at, key, value);
    }
}

/// A name that was not set before a load, and that no line has for its key,
/// is not set after it.
pub proof fn lemma_key_unset_without_entry(
    vars: Map<Seq<char>, Seq<char>>,
    lines: Seq<Seq<char>>,
    comment: Seq<char>,
    delimiter: Seq<char>,
    overwrite: bool,
    name: Seq<char>,
)
    requires
        !vars.contains_key(name),
        forall|i: int|
            0 <= i < lines.len() ==> !has_key(#[trigger] lines[i], comment, delimiter, name),
    ensures
        !load(vars, lines, comment, delimiter, overwrite).vars.contains_key(name),
    decreases lines.len(),
{
    if lines.len() > 0 {
        lemma_key_unset_without_entry(
            vars,
            lines.drop_last(),
            comment,
            delimiter,
            overwrite,
            name,
        );
    }
}

/// With overwriting, a name has after a load the value of the last entry,
/// among the lines taken in, that gives it one.
pub proof fn lemma_last_entry_wins(
    vars: Map<Seq<char>, Seq<char>>,
    lines: Seq<Seq<char>>,
    comment: Seq<char>,
    delimiter: Seq<char>,
    at: int,
    key: Seq<char>,
    value: Seq<char>,
)
    requires
        0 <= at < lines_taken(load(vars, lines, comment, delimiter, true), lines),
        parse(lines[at], comment, delimiter) == (Line::Entry { key, value }),
        forall|i: int|
            at < i < lines_taken(load(vars, lines, comment, delimiter, true), lines) ==> !has_key(
                #[trigger] lines[i],
                comment,
                delimiter,
                key,
            ),
    ensures
        load(vars, lines, comment, delimiter, true).vars.contains_key(key),
        load(vars, lines, comment, delimiter, true).vars[key] == value,
    decreases lines.len(),
{
    let before = lines.drop_last();
    lemma_failure_is_first_malformed(vars, lines, comment, delimiter, true);
    lemma_failure_is_first_malformed(vars, before, comment, delimiter, true);
    if at < lines.len() - 1 {
        lemma_last_entry_wins(vars, before, comment, delimiter, at, key, value);
    }
}

} // verus!
