//! Character-sequence utilities shared by the parser: whitespace
//! classification, trimming, searching, splitting into lines, and the
//! conversions between `&str`/`String` and `Vec<char>` that let the rest
//! of the library work over plain character vectors.

use vstd::prelude::*;

verus! {

/// A character with the Unicode `White_Space` property, i.e. exactly the
/// characters that `str::trim` removes.
pub open spec fn is_space_char(c: char) -> bool {
    let u = c as u32;
    u == 0x09 || u == 0x0A || u == 0x0B || u == 0x0C || u == 0x0D || u == 0x20 || u == 0x85
        || u == 0xA0 || u == 0x1680 || (0x2000 <= u && u <= 0x200A) || u == 0x2028 || u == 0x2029
        || u == 0x202F || u == 0x205F || u == 0x3000
}

/// Runtime test for [`is_space_char`].
pub fn space_char(c: char) -> (r: bool)
    ensures
        r == is_space_char(c),
{
    let u = c as u32;
    u == 0x09 || u == 0x0A || u == 0x0B || u == 0x0C || u == 0x0D || u == 0x20 || u == 0x85
        || u == 0xA0 || u == 0x1680 || (0x2000 <= u && u <= 0x200A) || u == 0x2028 || u == 0x2029
        || u == 0x202F || u == 0x205F || u == 0x3000
}

/// The sequence with leading whitespace removed.
pub open spec fn trimmed_start(s: Seq<char>) -> Seq<char>
    decreases s.len(),
{
    if s.len() > 0 && is_space_char(s[0]) {
        trimmed_start(s.drop_first())
    } else {
        s
    }
}

/// The sequence with trailing whitespace removed.
pub open spec fn trimmed_end(s: Seq<char>) -> Seq<char>
    decreases s.len(),
{
    if s.len() > 0 && is_space_char(s[s.len() - 1]) {
        trimmed_end(s.drop_last())
    } else {
        s
    }
}

/// The sequence with leading and trailing whitespace removed.
pub open spec fn trimmed(s: Seq<char>) -> Seq<char> {
    trimmed_end(trimmed_start(s))
}

pub proof fn lemma_trimmed_start_range(s: Seq<char>, lo: int)
    requires
        0 <= lo <= s.len(),
        forall|j: int| 0 <= j < lo ==> is_space_char(s[j]),
        lo == s.len() || !is_space_char(s[lo]),
    ensures
        trimmed_start(s) == s.subrange(lo, s.len() as int),
    decreases lo,
{
    if lo == 0 {
        assert(s.subrange(0, s.len() as int) =~= s);
    } else {
        assert(is_space_char(s[0]));
        let t = s.drop_first();
        assert(forall|j: int| 0 <= j < lo - 1 ==> s[j + 1] == t[j] && is_space_char(#[trigger] t[j]));
        lemma_trimmed_start_range(t, lo - 1);
        assert(t.subrange(lo - 1, t.len() as int) =~= s.subrange(lo, s.len() as int));
    }
}

pub proof fn lemma_trimmed_end_range(s: Seq<char>, hi: int)
    requires
        0 <= hi <= s.len(),
        forall|j: int| hi <= j < s.len() ==> is_space_char(s[j]),
        hi == 0 || !is_space_char(s[hi - 1]),
    ensures
        trimmed_end(s) == s.subrange(0, hi),
    decreases s.len() - hi,
{
    if hi == s.len() {
        if s.len() > 0 {
            assert(!is_space_char(s[s.len() - 1]));
        }
        assert(s.subrange(0, s.len() as int) =~= s);
    } else {
        assert(is_space_char(s[s.len() - 1]));
        let t = s.drop_last();
        assert(forall|j: int| hi <= j < t.len() ==> s[j] == t[j] && is_space_char(#[trigger] t[j]));
        lemma_trimmed_end_range(t, hi);
        assert(t.subrange(0, hi) =~= s.subrange(0, hi));
    }
}

/// Trims leading and trailing whitespace from a character vector.
pub fn trim_chars(v: &Vec<char>) -> (r: Vec<char>)
    ensures
        r@ == trimmed(v@),
{
    let n = v.len();
    let mut lo: usize = 0;
    while lo < n && space_char(v[lo])
        invariant
            lo <= n,
            n == v@.len(),
            forall|j: int| 0 <= j < lo ==> is_space_char(v@[j]),
        decreases n - lo,
    {
        lo = lo + 1;
    }
    let mut hi: usize = n;
    while hi > lo && space_char(v[hi - 1])
        invariant
            lo <= hi <= n,
            n == v@.len(),
            forall|j: int| hi <= j < n ==> is_space_char(v@[j]),
        decreases hi,
    {
        hi = hi - 1;
    }
    let mut r: Vec<char> = Vec::new();
    let mut i: usize = lo;
    while i < hi
        invariant
            lo <= i <= hi <= n,
            n == v@.len(),
            r@ == v@.subrange(lo as int, i as int),
        decreases hi - i,
    {
        let c = v[i];
        r.push(c);
        assert(r@ =~= v@.subrange(lo as int, i + 1));
        i = i + 1;
    }
    proof {
        lemma_trimmed_start_range(v@, lo as int);
        let mid = v@.subrange(lo as int, n as int);
        assert(forall|j: int|
            hi - lo <= j < mid.len() ==> mid[j] == v@[j + lo] && is_space_char(#[trigger] mid[j]));
        lemma_trimmed_end_range(mid, hi - lo);
        assert(mid.subrange(0, hi - lo) =~= v@.subrange(lo as int, hi as int));
    }
    r
}

/// Whether `c` occurs anywhere in `s`.
pub open spec fn seq_contains_char(s: Seq<char>, c: char) -> bool {
    exists|i: int| 0 <= i < s.len() && s[i] == c
}

/// The index of the first occurrence of `c` in `s` (equal to `s.len()`
/// when `c` does not occur).
pub open spec fn first_index_of(s: Seq<char>, c: char) -> int
    decreases s.len(),
{
    if s.len() == 0 {
        0
    } else if s[0] == c {
        0
    } else {
        1 + first_index_of(s.drop_first(), c)
    }
}

pub proof fn lemma_first_index_of(s: Seq<char>, c: char, k: int)
    requires
        0 <= k < s.len(),
        s[k] == c,
        forall|j: int| 0 <= j < k ==> s[j] != c,
    ensures
        seq_contains_char(s, c),
        first_index_of(s, c) == k,
    decreases k,
{
    if k == 0 {
    } else {
        let t = s.drop_first();
        assert(forall|j: int| 0 <= j < k - 1 ==> #[trigger] t[j] == s[j + 1]);
        lemma_first_index_of(t, c, k - 1);
    }
}

/// Finds the first occurrence of `c` in `v`.
pub fn find_char(v: &Vec<char>, c: char) -> (r: Option<usize>)
    ensures
        match r {
            Some(i) => {
                &&& i < v@.len()
                &&& v@[i as int] == c
                &&& forall|j: int| 0 <= j < i ==> v@[j] != c
                &&& seq_contains_char(v@, c)
                &&& first_index_of(v@, c) == i as int
            },
            None => !seq_contains_char(v@, c),
        },
{
    let n = v.len();
    let mut i: usize = 0;
    while i < n
        invariant
            i <= n,
            n == v@.len(),
            forall|j: int| 0 <= j < i ==> v@[j] != c,
        decreases n - i,
    {
        if v[i] == c {
            proof {
                lemma_first_index_of(v@, c, i as int);
            }
            return Some(i);
        }
        i = i + 1;
    }
    None
}

/// `s` split at every newline character: always one more line than there
/// are newlines, so empty input gives one empty line.
pub open spec fn split_lines(s: Seq<char>) -> Seq<Seq<char>>
    decreases s.len(),
{
    if s.len() == 0 {
        seq![Seq::<char>::empty()]
    } else if s[0] == '\n' {
        seq![Seq::<char>::empty()] + split_lines(s.drop_first())
    } else {
        let rest = split_lines(s.drop_first());
        seq![seq![s[0]] + rest[0]] + rest.drop_first()
    }
}

pub proof fn lemma_split_lines_len(s: Seq<char>)
    ensures
        split_lines(s).len() >= 1,
    decreases s.len(),
{
    if s.len() == 0 {
    } else {
        lemma_split_lines_len(s.drop_first());
    }
}

/// A sequence without a newline splits into the single line it is.
pub proof fn lemma_split_lines_whole(a: Seq<char>)
    requires
        !seq_contains_char(a, '\n'),
    ensures
        split_lines(a) == seq![a],
    decreases a.len(),
{
    if a.len() == 0 {
        assert(a =~= Seq::<char>::empty());
        assert(split_lines(a) =~= seq![a]);
    } else {
        assert(a[0] != '\n');
        let t = a.drop_first();
        assert(forall|j: int| 0 <= j < t.len() ==> #[trigger] t[j] == a[j + 1]);
        lemma_split_lines_whole(t);
        let rest = split_lines(t);
        assert(rest[0] == t);
        assert(rest.drop_first() =~= Seq::<Seq<char>>::empty());
        assert(seq![a[0]] + t =~= a);
        assert(split_lines(a) == seq![seq![a[0]] + rest[0]] + rest.drop_first());
        assert(seq![a] + Seq::<Seq<char>>::empty() =~= seq![a]);
    }
}

/// Splitting `a + '\n' + b`, with `a` newline-free, yields `a` followed by
/// the lines of `b`.
pub proof fn lemma_split_lines_prefix(a: Seq<char>, b: Seq<char>)
    requires
        !seq_contains_char(a, '\n'),
    ensures
        split_lines(a + seq!['\n'] + b) == seq![a] + split_lines(b),
    decreases a.len(),
{
    let s = a + seq!['\n'] + b;
    if a.len() == 0 {
        assert(a =~= Seq::<char>::empty());
        assert(s[0] == '\n');
        assert(s.drop_first() =~= b);
        assert(split_lines(s) =~= seq![a] + split_lines(b));
    } else {
        assert(s[0] == a[0]);
        assert(a[0] != '\n');
        let t = a.drop_first();
        assert(forall|j: int| 0 <= j < t.len() ==> #[trigger] t[j] == a[j + 1]);
        lemma_split_lines_prefix(t, b);
        assert(s.drop_first() =~= t + seq!['\n'] + b);
        let rest = split_lines(s.drop_first());
        assert(rest == seq![t] + split_lines(b));
        assert(rest[0] == t);
        assert(seq![s[0]] + rest[0] =~= a);
        assert(rest.drop_first() =~= split_lines(b));
        assert(split_lines(s) == seq![seq![s[0]] + rest[0]] + rest.drop_first());
        assert(seq![seq![s[0]] + rest[0]] + rest.drop_first() =~= seq![a] + split_lines(b));
    }
}

/// Splits a character vector into its lines.
pub fn split_lines_vec(v: &Vec<char>) -> (r: Vec<Vec<char>>)
    ensures
        r.deep_view() == split_lines(v@),
        forall|k: int| 0 <= k < r.deep_view().len() ==> !seq_contains_char(r.deep_view()[k], '\n'),
{
    let n = v.len();
    let mut r: Vec<Vec<char>> = Vec::new();
    let mut cur: Vec<char> = Vec::new();
    let mut i: usize = 0;
    proof {
        assert(r.deep_view() =~~= Seq::<Seq<char>>::empty());
        assert(cur@ + v@.subrange(0, n as int) =~= v@);
        assert(r.deep_view() + split_lines(v@) =~= split_lines(v@));
    }
    while i < n
        invariant
            i <= n,
            n == v@.len(),
            !seq_contains_char(cur@, '\n'),
            split_lines(v@) == r.deep_view() + split_lines(cur@ + v@.subrange(i as int, n as int)),
            forall|k: int|
                0 <= k < r.deep_view().len() ==> !seq_contains_char(
                    #[trigger] r.deep_view()[k],
                    '\n',
                ),
        decreases n - i,
    {
        let c = v[i];
        if c == '\n' {
            proof {
                lemma_split_lines_prefix(cur@, v@.subrange(i + 1, n as int));
                assert(cur@ + v@.subrange(i as int, n as int) =~= cur@ + seq!['\n'] + v@.subrange(
                    i + 1,
                    n as int,
                ));
                assert(r.deep_view().push(cur@) =~= r.deep_view() + seq![cur@]);
            }
            let ghost old_r = r.deep_view();
            let ghost old_cur = cur@;
            r.push(cur);
            proof {
                assert(r.deep_view() =~~= old_r.push(old_cur));
            }
            cur = Vec::new();
            proof {
                assert(cur@ + v@.subrange(i + 1, n as int) =~= v@.subrange(i + 1, n as int));
                assert(split_lines(v@) =~= r.deep_view() + split_lines(
                    cur@ + v@.subrange(i + 1, n as int),
                ));
            }
        } else {
            let ghost old_cur = cur@;
            cur.push(c);
            proof {
                assert(cur@ + v@.subrange(i + 1, n as int) =~= old_cur + v@.subrange(
                    i as int,
                    n as int,
                ));
            }
        }
        i = i + 1;
    }
    proof {
        assert(cur@ + v@.subrange(n as int, n as int) =~= cur@);
        lemma_split_lines_whole(cur@);
    }
    let ghost old_r = r.deep_view();
    let ghost old_cur = cur@;
    r.push(cur);
    proof {
        assert(r.deep_view() =~~= old_r.push(old_cur));
        assert(old_r + seq![old_cur] =~= old_r.push(old_cur));
    }
    r
}

/// Appends all characters of `src` to `out`.
pub fn push_all(out: &mut Vec<char>, src: &Vec<char>)
    ensures
        final(out)@ == old(out)@ + src@,
{
    let n = src.len();
    let mut i: usize = 0;
    proof {
        assert(out@ + src@.subrange(0, 0) =~= out@);
    }
    while i < n
        invariant
            i <= n,
            n == src@.len(),
            out@ == old(out)@ + src@.subrange(0, i as int),
        decreases n - i,
    {
        let c = src[i];
        out.push(c);
        assert(out@ =~= old(out)@ + src@.subrange(0, i + 1));
        i = i + 1;
    }
    proof {
        assert(old(out)@ + src@.subrange(0, n as int) =~= old(out)@ + src@);
    }
}

/// Whether `c` occurs in `a + b`: in one of the parts.
pub proof fn lemma_contains_concat(a: Seq<char>, b: Seq<char>, c: char)
    ensures
        seq_contains_char(a + b, c) <==> (seq_contains_char(a, c) || seq_contains_char(b, c)),
{
    if seq_contains_char(a + b, c) {
        let i = choose|i: int| 0 <= i < (a + b).len() && (a + b)[i] == c;
        if i < a.len() {
            assert(a[i] == c);
        } else {
            assert(b[i - a.len()] == c);
        }
    }
    if seq_contains_char(a, c) {
        let i = choose|i: int| 0 <= i < a.len() && a[i] == c;
        assert((a + b)[i] == c);
    }
    if seq_contains_char(b, c) {
        let i = choose|i: int| 0 <= i < b.len() && b[i] == c;
        assert((a + b)[a.len() + i] == c);
    }
}

/// A sequence whose end characters are not whitespace trims to itself.
pub proof fn lemma_trim_stable(s: Seq<char>)
    requires
        s.len() > 0 ==> !is_space_char(s[0]),
        s.len() > 0 ==> !is_space_char(s[s.len() - 1]),
    ensures
        trimmed(s) == s,
{
}

/// Copies the characters of `v` in the index range `from..to`.
pub fn copy_range(v: &Vec<char>, from: usize, to: usize) -> (r: Vec<char>)
    requires
        from <= to <= v@.len(),
    ensures
        r@ == v@.subrange(from as int, to as int),
{
    let mut r: Vec<char> = Vec::new();
    let mut i: usize = from;
    while i < to
        invariant
            from <= i <= to <= v@.len(),
            r@ == v@.subrange(from as int, i as int),
        decreases to - i,
    {
        let c = v[i];
        r.push(c);
        assert(r@ =~= v@.subrange(from as int, i + 1));
        i = i + 1;
    }
    r
}

/// Collects the characters of `s` into a vector.
pub fn str_to_chars(s: &str) -> (r: Vec<char>)
    ensures
        r@ == s@,
{
    let n = s.unicode_len();
    let mut r: Vec<char> = Vec::new();
    let mut i: usize = 0;
    while i < n
        invariant
            i <= n,
            n == s@.len(),
            r@ == s@.subrange(0, i as int),
        decreases n - i,
    {
        let c = s.get_char(i);
        r.push(c);
        assert(r@ =~= s@.subrange(0, i + 1));
        i = i + 1;
    }
    proof {
        assert(s@.subrange(0, n as int) =~= s@);
    }
    r
}

/// Relies on `String`'s `FromIterator<char>` implementation: collecting an
/// iterator of characters yields the string of exactly those characters,
/// in order.
#[verifier::external_body]
pub fn chars_to_string(v: &Vec<char>) -> (r: String)
    ensures
        r@ == v@,
{
    v.iter().collect()
}

} // verus!
