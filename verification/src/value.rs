//! The value parser: decides the quoting style of a raw (already trimmed)
//! value and decodes escape sequences, which apply to double-quoted
//! values only. All decoding is defined over Unicode scalar values, so a
//! multi-byte character is never split.

use vstd::prelude::*;
use vstd::string::StringExecFns;

use crate::errors::{ErrorKind, ParseError};
use crate::text::{chars_to_string, copy_range, str_to_chars};

verus! {

/// What a backslash escape decodes to: `n` and `t` become newline and
/// tab; `"` and `\` stand for themselves.
pub open spec fn escape_code(c: char) -> char {
    if c == 'n' {
        '\n'
    } else if c == 't' {
        '\t'
    } else {
        c
    }
}

/// Whether `c` is recognized after a backslash.
pub open spec fn is_escapable(c: char) -> bool {
    c == '"' || c == '\\' || c == 'n' || c == 't'
}

/// The decoded form of the interior of a double-quoted value: a
/// backslash before `"`, `\`, `n` or `t` decodes to one character; a
/// backslash before any other character, or at the end, is kept
/// literally.
pub open spec fn unescaped(s: Seq<char>) -> Seq<char>
    decreases s.len(),
{
    if s.len() == 0 {
        Seq::<char>::empty()
    } else if s[0] == '\\' && s.len() >= 2 && is_escapable(s[1]) {
        seq![escape_code(s[1])] + unescaped(s.subrange(2, s.len() as int))
    } else {
        seq![s[0]] + unescaped(s.drop_first())
    }
}

/// The meaning of a raw (trimmed) value: `None` is an unclosed quote;
/// otherwise the fully decoded value string.
pub open spec fn parsed_value(raw: Seq<char>) -> Option<Seq<char>> {
    if raw.len() == 0 {
        Some(Seq::<char>::empty())
    } else if raw.len() >= 2 && raw[0] == '"' && raw[raw.len() - 1] == '"' {
        Some(unescaped(raw.subrange(1, raw.len() - 1)))
    } else if raw.len() >= 2 && raw[0] == '\'' && raw[raw.len() - 1] == '\'' {
        Some(raw.subrange(1, raw.len() - 1))
    } else if raw[0] == '"' || raw[0] == '\'' {
        None
    } else {
        Some(raw)
    }
}

/// Decodes escape sequences in a character vector.
pub fn unescape_chars(v: &Vec<char>) -> (r: Vec<char>)
    ensures
        r@ == unescaped(v@),
{
    let n = v.len();
    let mut out: Vec<char> = Vec::new();
    let mut i: usize = 0;
    proof {
        assert(v@.subrange(0, n as int) =~= v@);
    }
    while i < n
        invariant
            i <= n,
            n == v@.len(),
            out@ + unescaped(v@.subrange(i as int, n as int)) == unescaped(v@),
        decreases n - i,
    {
        let ghost rem = v@.subrange(i as int, n as int);
        let ghost old_out = out@;
        let c = v[i];
        assert(rem[0] == c);
        if c == '\\' && i + 1 < n && (v[i + 1] == '"' || v[i + 1] == '\\' || v[i + 1] == 'n' || v[
            i + 1] == 't') {
            let d = v[i + 1];
            let e = if d == 'n' {
                '\n'
            } else if d == 't' {
                '\t'
            } else {
                d
            };
            out.push(e);
            proof {
                assert(rem.len() >= 2 && rem[1] == d);
                assert(rem.subrange(2, rem.len() as int) =~= v@.subrange(i + 2, n as int));
                assert(unescaped(rem) == seq![e] + unescaped(v@.subrange(i + 2, n as int)));
                assert(out@ + unescaped(v@.subrange(i + 2, n as int)) =~= old_out + unescaped(rem));
            }
            i = i + 2;
        } else {
            out.push(c);
            proof {
                if c == '\\' && rem.len() >= 2 {
                    assert(rem[1] == v@[i + 1]);
                    assert(!is_escapable(rem[1]));
                }
                assert(rem.drop_first() =~= v@.subrange(i + 1, n as int));
                assert(unescaped(rem) == seq![c] + unescaped(v@.subrange(i + 1, n as int)));
                assert(out@ + unescaped(v@.subrange(i + 1, n as int)) =~= old_out + unescaped(rem));
            }
            i = i + 1;
        }
    }
    proof {
        assert(v@.subrange(n as int, n as int) =~= Seq::<char>::empty());
        assert(out@ + Seq::<char>::empty() =~= out@);
    }
    out
}

/// Decodes the escape sequences of a double-quoted value's interior.
pub fn unescape_double_quoted(s: &str) -> (r: String)
    ensures
        r@ == unescaped(s@),
{
    let v = str_to_chars(s);
    let out = unescape_chars(&v);
    chars_to_string(&out)
}

/// Parses a raw (trimmed) value held as a character vector: strips and
/// decodes double quotes, strips single quotes verbatim, rejects an
/// unclosed quote, and passes anything else through unchanged.
pub fn parse_value_chars(raw: &Vec<char>) -> (r: Option<Vec<char>>)
    ensures
        match r {
            Some(v) => parsed_value(raw@) == Some(v@),
            None => parsed_value(raw@) is None,
        },
{
    let n = raw.len();
    if n == 0 {
        let empty: Vec<char> = Vec::new();
        assert(empty@ =~= Seq::<char>::empty());
        return Some(empty);
    }
    let first = raw[0];
    let last = raw[n - 1];
    if n >= 2 && first == '"' && last == '"' {
        let inner = copy_range(raw, 1, n - 1);
        Some(unescape_chars(&inner))
    } else if n >= 2 && first == '\'' && last == '\'' {
        Some(copy_range(raw, 1, n - 1))
    } else if first == '"' || first == '\'' {
        None
    } else {
        let out = copy_range(raw, 0, n);
        assert(out@ =~= raw@);
        Some(out)
    }
}

/// Parses a raw (trimmed) value string; `path` and `line_num` only
/// position the error when the value's quote is unclosed.
pub fn parse_value(value: &str, path: &str, line_num: usize) -> (r: Result<String, ParseError>)
    ensures
        match r {
            Ok(s) => parsed_value(value@) == Some(s@),
            Err(e) => {
                &&& parsed_value(value@) is None
                &&& e.path@ == path@
                &&& e.line == line_num
                &&& e.kind == ErrorKind::UnclosedQuote
            },
        },
{
    let v = str_to_chars(value);
    match parse_value_chars(&v) {
        Some(out) => Ok(chars_to_string(&out)),
        None => Err(
            ParseError { path: String::from_str(path), line: line_num, kind: ErrorKind::UnclosedQuote },
        ),
    }
}

} // verus!
