//! The display form of a profile: one `KEY=value` line per entry, the
//! value re-quoted (with `"` escaped) when it contains a space or a
//! quote. The round-trip law at the end shows that re-parsing this form
//! recovers the same mapping, for the values the form can carry.

use vstd::prelude::*;

use crate::errors::ErrorKind;
use crate::name::{is_name_char, is_name_start_char, valid_env_name};
use crate::profile::{line_step, parse_env_spec, parse_lines, LineOutcome};
use crate::text::{
    chars_to_string, find_char, first_index_of, is_space_char, lemma_contains_concat,
    lemma_first_index_of, lemma_split_lines_prefix, lemma_split_lines_whole, lemma_trim_stable,
    push_all, seq_contains_char, split_lines, str_to_chars, trimmed,
};
use crate::value::{escape_code, is_escapable, parsed_value, unescaped};
use crate::varmap::{
    lemma_seq_to_map_contains, lemma_seq_to_map_index, seq_to_map, unique_keys, VarMap,
};

verus! {

/// Whether a shown value must be double-quoted: it holds a space or a
/// quote character.
pub open spec fn needs_quoting(v: Seq<char>) -> bool {
    seq_contains_char(v, ' ') || seq_contains_char(v, '"') || seq_contains_char(v, '\'')
}

/// `v` with a backslash put before every `"`.
pub open spec fn escaped_quotes(v: Seq<char>) -> Seq<char>
    decreases v.len(),
{
    if v.len() == 0 {
        Seq::<char>::empty()
    } else if v[0] == '"' {
        seq!['\\', '"'] + escaped_quotes(v.drop_first())
    } else {
        seq![v[0]] + escaped_quotes(v.drop_first())
    }
}

/// The shown line for one entry.
pub open spec fn rendered_entry(k: Seq<char>, v: Seq<char>) -> Seq<char> {
    if needs_quoting(v) {
        k + seq!['='] + seq!['"'] + escaped_quotes(v) + seq!['"']
    } else {
        k + seq!['='] + v
    }
}

/// The whole shown profile: entry lines joined with newlines.
pub open spec fn rendered_profile(entries: Seq<(Seq<char>, Seq<char>)>) -> Seq<char>
    decreases entries.len(),
{
    if entries.len() == 0 {
        Seq::<char>::empty()
    } else if entries.len() == 1 {
        rendered_entry(entries[0].0, entries[0].1)
    } else {
        rendered_entry(entries[0].0, entries[0].1) + seq!['\n'] + rendered_profile(
            entries.drop_first(),
        )
    }
}

/// A value the display form carries faithfully through a re-parse: no
/// line break; when shown quoted, no backslash (the display escapes only
/// `"`); when shown bare, no whitespace at either end (a re-parse would
/// trim it away).
pub open spec fn renderable_value(v: Seq<char>) -> bool {
    &&& !seq_contains_char(v, '\n')
    &&& if needs_quoting(v) {
        !seq_contains_char(v, '\\')
    } else {
        v.len() > 0 ==> (!is_space_char(v[0]) && !is_space_char(v[v.len() - 1]))
    }
}

/// Renders one entry as its profile line.
pub fn render_entry(key: &str, value: &str) -> (r: String)
    ensures
        r@ == rendered_entry(key@, value@),
{
    let kv = str_to_chars(key);
    let vv = str_to_chars(value);
    let mut out: Vec<char> = Vec::new();
    push_all(&mut out, &kv);
    out.push('=');
    assert(out@ =~= key@ + seq!['=']);
    let quoted = match find_char(&vv, ' ') {
        Option::Some(i) => true,
        Option::None => match find_char(&vv, '"') {
            Option::Some(i) => true,
            Option::None => match find_char(&vv, '\'') {
                Option::Some(i) => true,
                Option::None => false,
            },
        },
    };
    assert(quoted == needs_quoting(value@));
    if quoted {
        out.push('"');
        let n = vv.len();
        let mut i: usize = 0;
        proof {
            assert(vv@.subrange(0, n as int) =~= value@);
            assert(out@ + escaped_quotes(value@) =~= key@ + seq!['='] + seq!['"'] + escaped_quotes(
                value@,
            ));
        }
        while i < n
            invariant
                i <= n,
                n == vv@.len(),
                vv@ == value@,
                out@ + escaped_quotes(vv@.subrange(i as int, n as int)) == key@ + seq!['=']
                    + seq!['"'] + escaped_quotes(value@),
            decreases n - i,
        {
            let ghost rem = vv@.subrange(i as int, n as int);
            let ghost old_out = out@;
            let c = vv[i];
            assert(rem[0] == c);
            proof {
                assert(rem.drop_first() =~= vv@.subrange(i + 1, n as int));
            }
            if c == '"' {
                out.push('\\');
                out.push('"');
                proof {
                    assert(escaped_quotes(rem) == seq!['\\', '"'] + escaped_quotes(
                        vv@.subrange(i + 1, n as int),
                    ));
                    assert(out@ + escaped_quotes(vv@.subrange(i + 1, n as int)) =~= old_out
                        + escaped_quotes(rem));
                }
            } else {
                out.push(c);
                proof {
                    assert(escaped_quotes(rem) == seq![c] + escaped_quotes(
                        vv@.subrange(i + 1, n as int),
                    ));
                    assert(out@ + escaped_quotes(vv@.subrange(i + 1, n as int)) =~= old_out
                        + escaped_quotes(rem));
                }
            }
            i = i + 1;
        }
        proof {
            assert(vv@.subrange(n as int, n as int) =~= Seq::<char>::empty());
            assert(escaped_quotes(Seq::<char>::empty()) =~= Seq::<char>::empty());
            assert(out@ + Seq::<char>::empty() =~= out@);
        }
        out.push('"');
        assert(out@ =~= key@ + seq!['='] + seq!['"'] + escaped_quotes(value@) + seq!['"']);
    } else {
        push_all(&mut out, &vv);
        assert(out@ =~= key@ + seq!['='] + value@);
    }
    chars_to_string(&out)
}

/// Renders a whole profile mapping in its stored entry order.
pub fn render_profile(vars: &VarMap) -> (r: String)
    ensures
        r@ == rendered_profile(vars.entries_view()),
{
    let ghost ev = vars.entries_view();
    let n = vars.len();
    let mut out: Vec<char> = Vec::new();
    let mut i: usize = 0;
    proof {
        assert(ev.subrange(0, n as int) =~= ev);
        assert(out@ + rendered_profile(ev) =~= rendered_profile(ev));
    }
    while i < n
        invariant
            i <= n,
            n == ev.len(),
            ev == vars.entries_view(),
            out@ + rendered_profile(ev.subrange(i as int, n as int)) == rendered_profile(ev),
        decreases n - i,
    {
        let ghost sub = ev.subrange(i as int, n as int);
        let ghost old_out = out@;
        let entry = vars.entry_at(i);
        let line = render_entry(entry.0.as_str(), entry.1.as_str());
        let lc = str_to_chars(line.as_str());
        proof {
            assert(sub[0] == ev[i as int]);
            assert(lc@ == rendered_entry(sub[0].0, sub[0].1));
            assert(sub.drop_first() =~= ev.subrange(i + 1, n as int));
        }
        push_all(&mut out, &lc);
        if i + 1 < n {
            out.push('\n');
            proof {
                assert(rendered_profile(sub) == rendered_entry(sub[0].0, sub[0].1) + seq!['\n']
                    + rendered_profile(ev.subrange(i + 1, n as int)));
                assert(out@ + rendered_profile(ev.subrange(i + 1, n as int)) =~= old_out
                    + rendered_profile(sub));
            }
        } else {
            proof {
                assert(sub.len() == 1);
                assert(rendered_profile(sub) == rendered_entry(sub[0].0, sub[0].1));
                assert(ev.subrange(i + 1, n as int) =~= Seq::<(Seq<char>, Seq<char>)>::empty());
                assert(rendered_profile(ev.subrange(i + 1, n as int)) =~= Seq::<char>::empty());
                assert(out@ + Seq::<char>::empty() =~= old_out + rendered_profile(sub));
            }
        }
        i = i + 1;
    }
    proof {
        if n == 0 {
            assert(rendered_profile(ev) =~= Seq::<char>::empty());
            assert(out@ =~= rendered_profile(ev));
        } else {
            assert(ev.subrange(n as int, n as int) =~= Seq::<(Seq<char>, Seq<char>)>::empty());
            assert(rendered_profile(ev.subrange(n as int, n as int)) =~= Seq::<char>::empty());
            assert(out@ + Seq::<char>::empty() =~= out@);
        }
    }
    chars_to_string(&out)
}

/// A one-character sequence contains exactly its character.
proof fn lemma_contains_singleton(c: char, d: char)
    ensures
        seq_contains_char(seq![c], d) <==> c == d,
{
    if seq_contains_char(seq![c], d) {
        let i = choose|i: int| 0 <= i < seq![c].len() && seq![c][i] == d;
        assert(i == 0);
    }
    if c == d {
        assert(seq![c][0] == d);
    }
}

/// Escaping quotes introduces only backslashes and quote characters.
proof fn lemma_escaped_keeps_out(v: Seq<char>, c: char)
    requires
        c != '\\',
        c != '"',
        !seq_contains_char(v, c),
    ensures
        !seq_contains_char(escaped_quotes(v), c),
    decreases v.len(),
{
    if v.len() == 0 {
    } else {
        let t = v.drop_first();
        assert(!seq_contains_char(t, c)) by {
            if seq_contains_char(t, c) {
                let i = choose|i: int| 0 <= i < t.len() && t[i] == c;
                assert(v[i + 1] == c);
            }
        }
        lemma_escaped_keeps_out(t, c);
        if v[0] == '"' {
            lemma_contains_concat(seq!['\\', '"'], escaped_quotes(t), c);
            assert(!seq_contains_char(seq!['\\', '"'], c)) by {
                if seq_contains_char(seq!['\\', '"'], c) {
                    let i = choose|i: int|
                        0 <= i < seq!['\\', '"'].len() && seq!['\\', '"'][i] == c;
                    assert(i == 0 || i == 1);
                }
            }
        } else {
            lemma_contains_concat(seq![v[0]], escaped_quotes(t), c);
            lemma_contains_singleton(v[0], c);
            assert(v[0] != c) by {
                if v[0] == c {
                    assert(seq_contains_char(v, c));
                }
            }
        }
    }
}

/// Decoding undoes quote-escaping, for values without a backslash.
proof fn lemma_unescape_escaped(v: Seq<char>)
    requires
        !seq_contains_char(v, '\\'),
    ensures
        unescaped(escaped_quotes(v)) == v,
    decreases v.len(),
{
    if v.len() == 0 {
        assert(unescaped(escaped_quotes(v)) =~= v);
    } else {
        let t = v.drop_first();
        assert(!seq_contains_char(t, '\\')) by {
            if seq_contains_char(t, '\\') {
                let i = choose|i: int| 0 <= i < t.len() && t[i] == '\\';
                assert(v[i + 1] == '\\');
            }
        }
        lemma_unescape_escaped(t);
        assert(v[0] != '\\') by {
            if v[0] == '\\' {
                assert(seq_contains_char(v, '\\'));
            }
        }
        if v[0] == '"' {
            let e = seq!['\\', '"'] + escaped_quotes(t);
            assert(e[0] == '\\' && e.len() >= 2 && e[1] == '"');
            assert(is_escapable(e[1]));
            assert(e.subrange(2, e.len() as int) =~= escaped_quotes(t));
            assert(unescaped(e) == seq![escape_code('"')] + unescaped(escaped_quotes(t)));
            assert(seq!['"'] + t =~= v);
        } else {
            let e = seq![v[0]] + escaped_quotes(t);
            assert(e[0] == v[0]);
            assert(e.drop_first() =~= escaped_quotes(t));
            assert(unescaped(e) == seq![v[0]] + unescaped(escaped_quotes(t)));
            assert(seq![v[0]] + t =~= v);
        }
    }
}

/// A rendered entry line never holds a newline.
proof fn lemma_rendered_entry_no_newline(k: Seq<char>, v: Seq<char>)
    requires
        valid_env_name(k),
        renderable_value(v),
    ensures
        !seq_contains_char(rendered_entry(k, v), '\n'),
{
    assert(!seq_contains_char(k, '\n')) by {
        if seq_contains_char(k, '\n') {
            let i = choose|i: int| 0 <= i < k.len() && k[i] == '\n';
            if i == 0 {
                assert(is_name_start_char(k[0]));
            } else {
                assert(is_name_char(k[i]));
            }
        }
    }
    if needs_quoting(v) {
        lemma_escaped_keeps_out(v, '\n');
        lemma_contains_concat(k, seq!['='], '\n');
        lemma_contains_concat(k + seq!['='], seq!['"'], '\n');
        lemma_contains_concat(k + seq!['='] + seq!['"'], escaped_quotes(v), '\n');
        lemma_contains_concat(k + seq!['='] + seq!['"'] + escaped_quotes(v), seq!['"'], '\n');
        lemma_contains_singleton('=', '\n');
        lemma_contains_singleton('"', '\n');
    } else {
        lemma_contains_concat(k, seq!['='], '\n');
        lemma_contains_concat(k + seq!['='], v, '\n');
        lemma_contains_singleton('=', '\n');
    }
}

/// The parse meaning of a rendered entry line: exactly the entry back.
proof fn lemma_line_step_entry(k: Seq<char>, v: Seq<char>)
    requires
        valid_env_name(k),
        renderable_value(v),
    ensures
        line_step(rendered_entry(k, v)) == LineOutcome::Entry(k, v),
{
    let line = rendered_entry(k, v);
    let kn = k.len() as int;
    let rv: Seq<char> = if needs_quoting(v) {
        seq!['"'] + escaped_quotes(v) + seq!['"']
    } else {
        v
    };
    assert(line =~= k + seq!['='] + rv);
    assert(line.len() == kn + 1 + rv.len());
    assert forall|j: int| 0 <= j < kn implies line[j] == k[j] by {}
    assert(line[kn] == '=');
    assert forall|j: int| kn + 1 <= j < line.len() implies line[j] == rv[j - kn - 1] by {}
    // the line trims to itself
    assert(!is_space_char(line[0])) by {
        assert(line[0] == k[0]);
        assert(is_name_start_char(k[0]));
    }
    assert(!is_space_char(line[line.len() - 1])) by {
        if needs_quoting(v) {
            assert(line[line.len() - 1] == '"');
        } else if v.len() == 0 {
            assert(line[line.len() - 1] == '=');
        } else {
            assert(line[line.len() - 1] == v[v.len() - 1]);
        }
    }
    lemma_trim_stable(line);
    let t = trimmed(line);
    assert(t == line);
    // neither blank nor a comment
    assert(t[0] == k[0]);
    assert(t[0] != '#') by {
        assert(is_name_start_char(k[0]));
    }
    // the first `=` sits right after the key
    assert forall|j: int| 0 <= j < kn implies t[j] != '=' by {
        if j == 0 {
            assert(is_name_start_char(k[0]));
        } else {
            assert(is_name_char(k[j]));
        }
    }
    lemma_first_index_of(t, '=', kn);
    // the key side is the key, already trimmed
    assert(t.subrange(0, kn) =~= k);
    assert(!is_space_char(k[0])) by {
        assert(is_name_start_char(k[0]));
    }
    assert(!is_space_char(k[kn - 1])) by {
        if kn == 1 {
            assert(is_name_start_char(k[0]));
        } else {
            assert(is_name_char(k[kn - 1]));
        }
    }
    lemma_trim_stable(k);
    // the value side is the rendered value, already trimmed
    assert(t.subrange(kn + 1, t.len() as int) =~= rv);
    assert(rv.len() > 0 ==> !is_space_char(rv[0]) && !is_space_char(rv[rv.len() - 1])) by {
        if needs_quoting(v) {
            assert(rv[0] == '"');
            assert(rv[rv.len() - 1] == '"');
        }
    }
    lemma_trim_stable(rv);
    // the raw value parses back to the value itself
    if needs_quoting(v) {
        assert(rv.len() >= 2);
        assert(rv[0] == '"');
        assert(rv[rv.len() - 1] == '"');
        assert(rv.subrange(1, rv.len() - 1) =~= escaped_quotes(v));
        lemma_unescape_escaped(v);
        assert(parsed_value(rv) == Option::Some(v));
    } else {
        if v.len() == 0 {
            assert(v =~= Seq::<char>::empty());
            assert(parsed_value(rv) == Option::Some(v));
        } else {
            assert(v[0] != '"') by {
                if v[0] == '"' {
                    assert(seq_contains_char(v, '"'));
                }
            }
            assert(v[0] != '\'') by {
                if v[0] == '\'' {
                    assert(seq_contains_char(v, '\''));
                }
            }
            assert(parsed_value(rv) == Option::Some(v));
        }
    }
}

/// The shown lines, one per entry.
pub open spec fn rendered_lines(entries: Seq<(Seq<char>, Seq<char>)>) -> Seq<Seq<char>> {
    entries.map(|i: int, e: (Seq<char>, Seq<char>)| rendered_entry(e.0, e.1))
}

proof fn lemma_split_rendered(entries: Seq<(Seq<char>, Seq<char>)>)
    requires
        entries.len() >= 1,
        forall|i: int| 0 <= i < entries.len() ==> valid_env_name((#[trigger] entries[i]).0),
        forall|i: int| 0 <= i < entries.len() ==> renderable_value((#[trigger] entries[i]).1),
    ensures
        split_lines(rendered_profile(entries)) == rendered_lines(entries),
    decreases entries.len(),
{
    let line0 = rendered_entry(entries[0].0, entries[0].1);
    lemma_rendered_entry_no_newline(entries[0].0, entries[0].1);
    if entries.len() == 1 {
        lemma_split_lines_whole(line0);
        assert(rendered_lines(entries) =~= seq![line0]);
    } else {
        let t = entries.drop_first();
        assert(forall|i: int| 0 <= i < t.len() ==> #[trigger] t[i] == entries[i + 1]);
        lemma_split_rendered(t);
        lemma_split_lines_prefix(line0, rendered_profile(t));
        assert(rendered_lines(entries) =~= seq![line0] + rendered_lines(t));
    }
}

/// Whether some entry binds key `k`.
pub open spec fn key_in(s: Seq<(Seq<char>, Seq<char>)>, k: Seq<char>) -> bool {
    exists|i: int| 0 <= i < s.len() && (#[trigger] s[i]).0 == k
}

/// The parse accumulator after inserting the entries front to back.
pub open spec fn fold_insert(
    acc: Map<Seq<char>, Seq<char>>,
    s: Seq<(Seq<char>, Seq<char>)>,
) -> Map<Seq<char>, Seq<char>>
    decreases s.len(),
{
    if s.len() == 0 {
        acc
    } else {
        fold_insert(acc.insert(s[0].0, s[0].1), s.drop_first())
    }
}

proof fn lemma_parse_rendered(
    entries: Seq<(Seq<char>, Seq<char>)>,
    lineno: int,
    acc: Map<Seq<char>, Seq<char>>,
)
    requires
        forall|i: int|
            0 <= i < entries.len() ==> line_step(rendered_lines(entries)[i])
                == LineOutcome::Entry((#[trigger] entries[i]).0, entries[i].1),
    ensures
        parse_lines(rendered_lines(entries), lineno, acc) == Result::<
            Map<Seq<char>, Seq<char>>,
            (int, ErrorKind),
        >::Ok(fold_insert(acc, entries)),
    decreases entries.len(),
{
    if entries.len() == 0 {
        assert(rendered_lines(entries) =~= Seq::<Seq<char>>::empty());
    } else {
        let lines = rendered_lines(entries);
        assert(line_step(lines[0]) == LineOutcome::Entry(entries[0].0, entries[0].1));
        let t = entries.drop_first();
        assert(forall|i: int| 0 <= i < t.len() ==> #[trigger] t[i] == entries[i + 1]);
        assert(lines.drop_first() =~= rendered_lines(t));
        assert forall|i: int| 0 <= i < t.len() implies line_step(rendered_lines(t)[i])
            == LineOutcome::Entry((#[trigger] t[i]).0, t[i].1) by {
            assert(rendered_lines(t)[i] == rendered_entry(t[i].0, t[i].1));
            assert(rendered_lines(entries)[i + 1] == rendered_entry(
                entries[i + 1].0,
                entries[i + 1].1,
            ));
        }
        lemma_parse_rendered(t, lineno + 1, acc.insert(entries[0].0, entries[0].1));
    }
}

proof fn lemma_fold_insert_props(acc: Map<Seq<char>, Seq<char>>, s: Seq<(Seq<char>, Seq<char>)>)
    requires
        unique_keys(s),
    ensures
        forall|k: Seq<char>|
            #[trigger] fold_insert(acc, s).contains_key(k) <==> (acc.contains_key(k) || key_in(
                s,
                k,
            )),
        forall|j: int|
            0 <= j < s.len() ==> fold_insert(acc, s)[(#[trigger] s[j]).0] == s[j].1,
        forall|k: Seq<char>|
            !key_in(s, k) && acc.contains_key(k) ==> #[trigger] fold_insert(acc, s)[k] == acc[k],
    decreases s.len(),
{
    if s.len() == 0 {
        assert(forall|k: Seq<char>| !key_in(s, k));
    } else {
        let k0 = s[0].0;
        let v0 = s[0].1;
        let acc2 = acc.insert(k0, v0);
        let t = s.drop_first();
        assert(forall|i: int| 0 <= i < t.len() ==> #[trigger] t[i] == s[i + 1]);
        assert(forall|i1: int, j1: int|
            0 <= i1 < j1 < t.len() ==> (#[trigger] t[i1]).0 != (#[trigger] t[j1]).0);
        lemma_fold_insert_props(acc2, t);
        assert(fold_insert(acc, s) == fold_insert(acc2, t));
        // a key of the tail is a key of the whole; and conversely
        assert forall|k: Seq<char>| #[trigger] key_in(t, k) implies key_in(s, k) by {
            let i = choose|i: int| 0 <= i < t.len() && (#[trigger] t[i]).0 == k;
            assert(s[i + 1].0 == k);
        }
        assert forall|k: Seq<char>| key_in(s, k) && k != k0 implies key_in(t, k) by {
            let i = choose|i: int| 0 <= i < s.len() && (#[trigger] s[i]).0 == k;
            assert(i > 0);
            assert(t[i - 1].0 == k);
        }
        assert(!key_in(t, k0)) by {
            if key_in(t, k0) {
                let i = choose|i: int| 0 <= i < t.len() && (#[trigger] t[i]).0 == k0;
                assert(s[i + 1].0 == s[0].0);
            }
        }
        assert(fold_insert(acc, s)[k0] == v0) by {
            assert(acc2.contains_key(k0) && acc2[k0] == v0);
        }
        assert forall|j: int| 0 <= j < s.len() implies fold_insert(acc, s)[(#[trigger] s[j]).0]
            == s[j].1 by {
            if j > 0 {
                assert(t[j - 1] == s[j]);
                assert(fold_insert(acc2, t)[t[j - 1].0] == t[j - 1].1);
            }
        }
        assert forall|k: Seq<char>| #[trigger] fold_insert(acc, s).contains_key(k) implies (
        acc.contains_key(k) || key_in(s, k)) by {
            if !acc.contains_key(k) && !key_in(s, k) {
                assert(k != k0);
                assert(!acc2.contains_key(k));
                assert(!key_in(t, k));
            }
        }
        assert forall|k: Seq<char>| acc.contains_key(k) || key_in(s, k) implies #[trigger]
            fold_insert(acc, s).contains_key(k) by {
            if key_in(s, k) {
                if k == k0 {
                    assert(acc2.contains_key(k));
                } else {
                    assert(key_in(t, k));
                }
            } else {
                assert(acc2.contains_key(k));
            }
        }
        assert forall|k: Seq<char>| !key_in(s, k) && acc.contains_key(k) implies #[trigger]
            fold_insert(acc, s)[k] == acc[k] by {
            assert(k != k0);
            assert(!key_in(t, k));
            assert(acc2.contains_key(k) && acc2[k] == acc[k]);
        }
    }
}

proof fn lemma_fold_is_seq_to_map(s: Seq<(Seq<char>, Seq<char>)>)
    requires
        unique_keys(s),
    ensures
        fold_insert(Map::<Seq<char>, Seq<char>>::empty(), s) == seq_to_map(s),
{
    let f = fold_insert(Map::<Seq<char>, Seq<char>>::empty(), s);
    let m = seq_to_map(s);
    lemma_fold_insert_props(Map::<Seq<char>, Seq<char>>::empty(), s);
    assert forall|k: Seq<char>| f.contains_key(k) <==> m.contains_key(k) by {
        lemma_seq_to_map_contains(s, k);
    }
    assert forall|k: Seq<char>| #[trigger] f.contains_key(k) implies f[k] == m[k] by {
        lemma_seq_to_map_contains(s, k);
        let j = choose|j: int| 0 <= j < s.len() && (#[trigger] s[j]).0 == k;
        lemma_seq_to_map_index(s, j);
        assert(f[s[j].0] == s[j].1);
    }
    assert(f =~= m);
}

/// Law: showing entries with valid, unique keys and renderable values
/// and re-parsing the result yields exactly the mapping the entries
/// denote.
pub proof fn lemma_render_parse_round_trip(entries: Seq<(Seq<char>, Seq<char>)>)
    requires
        unique_keys(entries),
        forall|i: int| 0 <= i < entries.len() ==> valid_env_name((#[trigger] entries[i]).0),
        forall|i: int| 0 <= i < entries.len() ==> renderable_value((#[trigger] entries[i]).1),
    ensures
        parse_env_spec(rendered_profile(entries)) == Result::<
            Map<Seq<char>, Seq<char>>,
            (int, ErrorKind),
        >::Ok(seq_to_map(entries)),
{
    if entries.len() == 0 {
        let content = rendered_profile(entries);
        assert(content =~= Seq::<char>::empty());
        assert(split_lines(content) == seq![Seq::<char>::empty()]);
        lemma_trim_stable(Seq::<char>::empty());
        assert(line_step(Seq::<char>::empty()) == LineOutcome::Skip);
        assert(seq![Seq::<char>::empty()].drop_first() =~= Seq::<Seq<char>>::empty());
        assert(seq![Seq::<char>::empty()][0] == Seq::<char>::empty());
        assert(parse_lines(Seq::<Seq<char>>::empty(), 2, Map::<Seq<char>, Seq<char>>::empty())
            == Result::<Map<Seq<char>, Seq<char>>, (int, ErrorKind)>::Ok(
            Map::<Seq<char>, Seq<char>>::empty(),
        ));
        assert(parse_lines(seq![Seq::<char>::empty()], 1, Map::<Seq<char>, Seq<char>>::empty())
            == parse_lines(Seq::<Seq<char>>::empty(), 2, Map::<Seq<char>, Seq<char>>::empty()));
        assert(parse_env_spec(content) == Result::<
            Map<Seq<char>, Seq<char>>,
            (int, ErrorKind),
        >::Ok(Map::<Seq<char>, Seq<char>>::empty()));
    } else {
        assert forall|i: int| 0 <= i < entries.len() implies line_step(rendered_lines(entries)[i])
            == LineOutcome::Entry((#[trigger] entries[i]).0, entries[i].1) by {
            lemma_line_step_entry(entries[i].0, entries[i].1);
            assert(rendered_lines(entries)[i] == rendered_entry(entries[i].0, entries[i].1));
        }
        lemma_split_rendered(entries);
        lemma_parse_rendered(entries, 1, Map::<Seq<char>, Seq<char>>::empty());
        lemma_fold_is_seq_to_map(entries);
    }
}

/// Law, stated on a mapping value: rendering a well-formed mapping whose
/// keys are valid names and whose values the display form carries, and
/// re-parsing the result, yields that very mapping.
pub proof fn lemma_show_round_trip(m: VarMap)
    requires
        m.wf(),
        forall|i: int|
            0 <= i < m.entries_view().len() ==> valid_env_name(
                (#[trigger] m.entries_view()[i]).0,
            ),
        forall|i: int|
            0 <= i < m.entries_view().len() ==> renderable_value(
                (#[trigger] m.entries_view()[i]).1,
            ),
    ensures
        parse_env_spec(rendered_profile(m.entries_view())) == Result::<
            Map<Seq<char>, Seq<char>>,
            (int, ErrorKind),
        >::Ok(m.map_view()),
{
    lemma_render_parse_round_trip(m.entries_view());
}

} // verus!
