//! The line-oriented profile parser: consumes profile text line by line,
//! classifies each line (blank, comment, assignment, malformed), splits
//! key from value at the first `=`, validates the key, parses the value,
//! and accumulates the bindings, failing fast on the first error with
//! file and line context.

use vstd::prelude::*;
use vstd::string::StringExecFns;

use crate::errors::{ErrorKind, ParseError};
use crate::name::{find_name_violation, offending_name_char, valid_env_name};
use crate::text::{
    chars_to_string, copy_range, find_char, first_index_of, seq_contains_char, split_lines,
    split_lines_vec, str_to_chars, trim_chars, trimmed,
};
use crate::value::{parse_value_chars, parsed_value};
use crate::varmap::VarMap;

verus! {

/// What one physical line contributes to the parse.
pub enum LineOutcome {
    /// Blank or comment: no entry.
    Skip,
    /// A well-formed assignment: validated key and decoded value.
    Entry(Seq<char>, Seq<char>),
    /// A malformed line.
    Fail(ErrorKind),
}

/// The meaning of one physical line: trim it, skip a blank or `#` line,
/// split the rest at the first `=`, trim and validate the key, and parse
/// the raw value.
pub open spec fn line_step(line: Seq<char>) -> LineOutcome {
    let t = trimmed(line);
    if t.len() == 0 || t[0] == '#' {
        LineOutcome::Skip
    } else if !seq_contains_char(t, '=') {
        LineOutcome::Fail(ErrorKind::MissingAssignmentOperator)
    } else {
        let e = first_index_of(t, '=');
        let key = trimmed(t.subrange(0, e));
        let raw = trimmed(t.subrange(e + 1, t.len() as int));
        if key.len() == 0 {
            LineOutcome::Fail(ErrorKind::EmptyVariableName)
        } else if !valid_env_name(key) {
            LineOutcome::Fail(ErrorKind::InvalidVariableName(offending_name_char(key)))
        } else {
            match parsed_value(raw) {
                Option::Some(v) => LineOutcome::Entry(key, v),
                Option::None => LineOutcome::Fail(ErrorKind::UnclosedQuote),
            }
        }
    }
}

/// Folds [`line_step`] over the lines, numbering them from `lineno` and
/// overwriting earlier bindings, stopping at the first failure.
pub open spec fn parse_lines(
    lines: Seq<Seq<char>>,
    lineno: int,
    acc: Map<Seq<char>, Seq<char>>,
) -> Result<Map<Seq<char>, Seq<char>>, (int, ErrorKind)>
    decreases lines.len(),
{
    if lines.len() == 0 {
        Result::Ok(acc)
    } else {
        match line_step(lines[0]) {
            LineOutcome::Skip => parse_lines(lines.drop_first(), lineno + 1, acc),
            LineOutcome::Entry(k, v) => parse_lines(lines.drop_first(), lineno + 1, acc.insert(k, v)),
            LineOutcome::Fail(kind) => Result::Err((lineno, kind)),
        }
    }
}

/// The meaning of a whole profile text: its lines folded from line 1
/// into an initially empty mapping.
pub open spec fn parse_env_spec(content: Seq<char>) -> Result<
    Map<Seq<char>, Seq<char>>,
    (int, ErrorKind),
> {
    parse_lines(split_lines(content), 1, Map::<Seq<char>, Seq<char>>::empty())
}

/// Parses profile text into a mapping from variable name to decoded
/// value, or fails on the first malformed line with `path` and the
/// 1-based line number.
pub fn parse_env_file(content: &str, path: &str) -> (r: Result<VarMap, ParseError>)
    ensures
        match r {
            Result::Ok(m) => {
                &&& m.wf()
                &&& parse_env_spec(content@) matches Result::Ok(sm) && sm == m.map_view()
            },
            Result::Err(e) => {
                &&& parse_env_spec(content@) matches Result::Err(se) && se == (
                e.line as int,
                e.kind,
                )
                &&& e.path@ == path@
            },
        },
{
    let chars = str_to_chars(content);
    let lines = split_lines_vec(&chars);
    let ghost lseq = lines.deep_view();
    let mut vars = VarMap::new();
    let n = lines.len();
    let mut i: usize = 0;
    proof {
        assert(lseq.subrange(0, n as int) =~= lseq);
    }
    while i < n
        invariant
            i <= n,
            n == lseq.len(),
            lseq == lines.deep_view(),
            vars.wf(),
            parse_lines(lseq.subrange(i as int, n as int), i + 1, vars.map_view())
                == parse_env_spec(content@),
        decreases n - i,
    {
        let ghost sub = lseq.subrange(i as int, n as int);
        proof {
            assert(sub[0] == lseq[i as int]);
            assert(sub.drop_first() =~= lseq.subrange(i + 1, n as int));
        }
        let line = &lines[i];
        proof {
            assert(line@ == lseq[i as int]);
        }
        let t = trim_chars(line);
        let tn = t.len();
        if tn == 0 || t[0] == '#' {
            // blank or comment: nothing to do
        } else {
            match find_char(&t, '=') {
                Option::None => {
                    return Result::Err(
                        ParseError {
                            path: String::from_str(path),
                            line: i + 1,
                            kind: ErrorKind::MissingAssignmentOperator,
                        },
                    );
                },
                Option::Some(e) => {
                    let left = copy_range(&t, 0, e);
                    let key = trim_chars(&left);
                    let right = copy_range(&t, e + 1, tn);
                    let raw = trim_chars(&right);
                    if key.len() == 0 {
                        return Result::Err(
                            ParseError {
                                path: String::from_str(path),
                                line: i + 1,
                                kind: ErrorKind::EmptyVariableName,
                            },
                        );
                    }
                    match find_name_violation(&key) {
                        Option::Some(c) => {
                            return Result::Err(
                                ParseError {
                                    path: String::from_str(path),
                                    line: i + 1,
                                    kind: ErrorKind::InvalidVariableName(c),
                                },
                            );
                        },
                        Option::None => {
                            match parse_value_chars(&raw) {
                                Option::None => {
                                    return Result::Err(
                                        ParseError {
                                            path: String::from_str(path),
                                            line: i + 1,
                                            kind: ErrorKind::UnclosedQuote,
                                        },
                                    );
                                },
                                Option::Some(val) => {
                                    let ks = chars_to_string(&key);
                                    let vs = chars_to_string(&val);
                                    vars.insert(ks, vs);
                                },
                            }
                        },
                    }
                },
            }
        }
        i = i + 1;
    }
    proof {
        assert(lseq.subrange(n as int, n as int) =~= Seq::<Seq<char>>::empty());
    }
    Result::Ok(vars)
}

/// Every key of `m` is a valid environment-variable name.
pub open spec fn all_keys_valid(m: Map<Seq<char>, Seq<char>>) -> bool {
    forall|k: Seq<char>| m.contains_key(k) ==> valid_env_name(k)
}

proof fn lemma_parse_lines_keys_valid(
    lines: Seq<Seq<char>>,
    lineno: int,
    acc: Map<Seq<char>, Seq<char>>,
)
    requires
        all_keys_valid(acc),
    ensures
        parse_lines(lines, lineno, acc) matches Result::Ok(m) ==> all_keys_valid(m),
    decreases lines.len(),
{
    if lines.len() == 0 {
    } else {
        match line_step(lines[0]) {
            LineOutcome::Skip => {
                lemma_parse_lines_keys_valid(lines.drop_first(), lineno + 1, acc);
            },
            LineOutcome::Entry(k, v) => {
                assert(valid_env_name(k));
                assert(all_keys_valid(acc.insert(k, v)));
                lemma_parse_lines_keys_valid(lines.drop_first(), lineno + 1, acc.insert(k, v));
            },
            LineOutcome::Fail(kind) => {
            },
        }
    }
}

/// Law: every key of a successfully parsed profile satisfies the
/// name-validity rule.
pub proof fn lemma_parsed_keys_valid(content: Seq<char>)
    ensures
        parse_env_spec(content) matches Result::Ok(m) ==> all_keys_valid(m),
{
    lemma_parse_lines_keys_valid(
        split_lines(content),
        1,
        Map::<Seq<char>, Seq<char>>::empty(),
    );
}

/// A parsed profile: a validated mapping from variable name to value.
#[derive(Debug, Clone)]
pub struct Profile {
    pub vars: VarMap,
}

impl Profile {
    /// Parses profile content from a string; `path` is the display path
    /// used in error positions.
    pub fn parse(content: &str, path: &str) -> (r: Result<Profile, ParseError>)
        ensures
            match r {
                Result::Ok(p) => {
                    &&& p.vars.wf()
                    &&& parse_env_spec(content@) matches Result::Ok(sm) && sm == p.vars.map_view()
                },
                Result::Err(e) => {
                    &&& parse_env_spec(content@) matches Result::Err(se) && se == (
                    e.line as int,
                    e.kind,
                    )
                    &&& e.path@ == path@
                },
            },
    {
        match parse_env_file(content, path) {
            Result::Ok(vars) => Result::Ok(Profile { vars }),
            Result::Err(e) => Result::Err(e),
        }
    }
}

} // verus!
