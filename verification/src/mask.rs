//! Masking of sensitive values for display: short values become all
//! asterisks, longer ones keep their first two and last two characters.
//! Counting is per Unicode scalar value, never per byte.

use vstd::prelude::*;

use crate::text::{chars_to_string, str_to_chars};

verus! {

/// `n` asterisks.
pub open spec fn stars(n: nat) -> Seq<char>
    decreases n,
{
    if n == 0 {
        Seq::<char>::empty()
    } else {
        stars((n - 1) as nat).push('*')
    }
}

/// The masked form of a value: all asterisks up to four characters,
/// otherwise the first two and last two characters around asterisks.
pub open spec fn masked(s: Seq<char>) -> Seq<char> {
    if s.len() <= 4 {
        stars(s.len())
    } else {
        s.subrange(0, 2) + stars((s.len() - 4) as nat) + s.subrange(s.len() - 2, s.len() as int)
    }
}

/// Masks a value for display.
pub fn mask_value(value: &str) -> (r: String)
    ensures
        r@ == masked(value@),
{
    let v = str_to_chars(value);
    let n = v.len();
    let mut out: Vec<char> = Vec::new();
    if n <= 4 {
        let mut i: usize = 0;
        while i < n
            invariant
                i <= n,
                out@ == stars(i as nat),
            decreases n - i,
        {
            out.push('*');
            i = i + 1;
        }
    } else {
        out.push(v[0]);
        out.push(v[1]);
        assert(out@ =~= v@.subrange(0, 2));
        let mut i: usize = 0;
        while i < n - 4
            invariant
                i <= n - 4,
                n == v@.len(),
                out@ == v@.subrange(0, 2) + stars(i as nat),
            decreases n - 4 - i,
        {
            out.push('*');
            assert(out@ =~= v@.subrange(0, 2) + stars((i + 1) as nat));
            i = i + 1;
        }
        out.push(v[n - 2]);
        out.push(v[n - 1]);
        assert(out@ =~= v@.subrange(0, 2) + stars((n - 4) as nat) + v@.subrange(
            n - 2,
            n as int,
        ));
    }
    chars_to_string(&out)
}

} // verus!
