//! Loading the lines of a file into an environment.
//!
//! Lines are taken in order. Each entry is written under the overwrite
//! policy as it is met, so that a key given twice in one file is tested the
//! second time against what the first line left. The first malformed line
//! ends the load: the lines before it have been loaded, those after it are
//! not looked at.

use crate::config::EnvLoader;
use crate::environment::{after_put, may_write, Environment};
use crate::error::{MalformedLine, MalformedLineView};
use crate::line::{parse, parse_line, Line};
use crate::lines::{lines, split_lines};
use vstd::prelude::*;

verus! {

/// What a load did to an environment, short of the environment itself.
#[derive(Debug, PartialEq, Eq)]
pub struct Report {
    /// The variables that were written, each with the value it was given, in
    /// the order of the writes.
    pub written: Vec<(String, String)>,
    /// The line at which the load stopped, if it did not reach the end.
    pub failure: Option<MalformedLine>,
}

/// The state of a load after some lines.
pub ghost struct Run {
    /// The variables and their values.
    pub vars: Map<Seq<char>, Seq<char>>,
    /// The writes so far, in order.
    pub written: Seq<(Seq<char>, Seq<char>)>,
    /// The line at which the load stopped.
    pub failure: Option<MalformedLineView>,
}

/// The state after the line `line` with number `number` has been met in state
/// `run`. A load that has stopped stays as it is.
pub open spec fn step(
    run: Run,
    number: nat,
    line: Seq<char>,
    comment: Seq<char>,
    delimiter: Seq<char>,
    overwrite: bool,
) -> Run {
    if run.failure is Some {
        run
    } else {
        match parse(line, comment, delimiter) {
            Line::Skipped => run,
            Line::Entry { key, value } => if may_write(run.vars, key, overwrite) {
                Run {
                    vars: run.vars.insert(key, value),
                    written: run.written.push((key, value)),
                    failure: None,
                }
            } else {
                run
            },
            Line::Malformed => Run {
                failure: Some(MalformedLineView { line_number: number, content: line }),
                ..run
            },
        }
    }
}

/// The state after `lines` have been loaded, one after the other, into the
/// variables `vars`.
pub open spec fn load(
    vars: Map<Seq<char>, Seq<char>>,
    lines: Seq<Seq<char>>,
    comment: Seq<char>,
    delimiter: Seq<char>,
    overwrite: bool,
) -> Run
    decreases lines.len(),
{
    if lines.len() == 0 {
        Run { vars, written: Seq::empty(), failure: None }
    } else {
        step(
            load(vars, lines.drop_last(), comment, delimiter, overwrite),
            lines.len(),
            lines.last(),
            comment,
            delimiter,
            overwrite,
        )
    }
}

/// Once a load has stopped, further lines change nothing.
pub proof fn lemma_stopped_load_stays(
    vars: Map<Seq<char>, Seq<char>>,
    lines: Seq<Seq<char>>,
    upto: int,
    comment: Seq<char>,
    delimiter: Seq<char>,
    overwrite: bool,
)
    requires
        0 <= upto <= lines.len(),
        load(vars, lines.subrange(0, upto), comment, delimiter, overwrite).failure is Some,
    ensures
        load(vars, lines, comment, delimiter, overwrite) == load(
            vars,
            lines.subrange(0, upto),
            comment,
            delimiter,
            overwrite,
        ),
    decreases lines.len() - upto,
{
    if upto == lines.len() {
        assert(lines.subrange(0, upto) =~= lines);
    } else {
        assert(lines.drop_last().subrange(0, upto) =~= lines.subrange(0, upto));
        lemma_stopped_load_stays(vars, lines.drop_last(), upto, comment, delimiter, overwrite);
    }
}

/// Loads the line `line`, which stands at index `ind` of its file, into
/// `env`.
///
/// A line to skip leaves `env` as it is. An entry is written under the
/// overwrite policy, and is returned where it was written. A malformed line
/// leaves `env` as it is and is reported with its number, `ind + 1`.
pub fn load_line(
    line: &str,
    comment: &str,
    delimiter: &str,
    overwrite: bool,
    ind: usize,
    env: &mut Environment,
) -> (r: Result<Option<(String, String)>, MalformedLine>)
    requires
        ind < usize::MAX,
    ensures
        match parse(line@, comment@, delimiter@) {
            Line::Skipped => {
                &&& final(env)@ == old(env)@
                &&& r == Ok::<Option<(String, String)>, MalformedLine>(None)
            },
            Line::Entry { key, value } => {
                &&& final(env)@ == after_put(old(env)@, key, value, overwrite)
                &&& r matches Ok(written)
                &&& written.deep_view() == if may_write(old(env)@, key, overwrite) {
                    Some((key, value))
                } else {
                    None
                }
            },
            Line::Malformed => {
                &&& final(env)@ == old(env)@
                &&& r matches Err(e)
                &&& e@ == (MalformedLineView { line_number: (ind + 1) as nat, content: line@ })
            },
        },
{
    match parse_line(line, comment, delimiter) {
        Line::Skipped => Ok(None),
        Line::Entry { key, value } => {
            let pair = (key.clone(), value.clone());
            if env.put(key, value, overwrite) {
                Ok(Some(pair))
            } else {
                Ok(None)
            }
        },
        Line::Malformed => Err(MalformedLine { line_number: ind + 1, content: line.to_owned() }),
    }
}

/// Loads `content`, the text of the file that `envs` names, into `env`, with
/// the comment marker, the delimiter and the overwrite policy of `envs`.
///
/// The report lists the writes that were made and, where a line was
/// malformed, that line: `env` then holds what the lines before it gave.
pub fn load_file(envs: &EnvLoader, content: &str, env: &mut Environment) -> (r: Report)
    ensures
        ({
            let run = load(
                old(env)@,
                split_lines(content@),
                envs@.comment,
                envs@.delimiter,
                envs@.overwrite,
            );
            &&& final(env)@ == run.vars
            &&& r.written.deep_view() == run.written
            &&& r.failure.deep_view() == run.failure
        }),
{
    let all = lines(content);
    let comment = envs.comment();
    let delimiter = envs.delimiter();
    let overwrite = envs.overwrites();
    let mut written: Vec<(String, String)> = Vec::new();
    let mut i: usize = 0;
    assert(written.deep_view() =~= Seq::<(Seq<char>, Seq<char>)>::empty());
    while i < all.len()
        invariant
            i <= all@.len(),
            comment@ == envs@.comment,
            delimiter@ == envs@.delimiter,
            overwrite == envs@.overwrite,
            all.deep_view() == split_lines(content@),
            load(old(env)@, all.deep_view().subrange(0, i as int), comment@, delimiter@, overwrite)
                == (Run { vars: env@, written: written.deep_view(), failure: None }),
        decreases all@.len() - i,
    {
        let ghost before = all.deep_view().subrange(0, i as int);
        let ghost upto = all.deep_view().subrange(0, i + 1);
        let ghost done = written.deep_view();
        assert(upto.drop_last() =~= before);
        match load_line(all[i].as_str(), comment, delimiter, overwrite, i, env) {
            Ok(Some(pair)) => {
                written.push(pair);
                assert(written.deep_view() =~= done.push(pair.deep_view()));
            },
            Ok(None) => {},
            Err(e) => {
                proof {
                    lemma_stopped_load_stays(
                        old(env)@,
                        all.deep_view(),
                        i + 1,
                        comment@,
                        delimiter@,
                        overwrite,
                    );
                }
                return Report { written, failure: Some(e) };
            },
        }
        i += 1;
    }
    assert(all.deep_view().subrange(0, i as int) =~= all.deep_view());
    Report { written, failure: None }
}

} // verus!
