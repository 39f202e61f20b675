//! The environment-variable name validator: a name is valid when its
//! first character is an ASCII letter or underscore and every later
//! character is an ASCII alphanumeric or underscore. Empty names are
//! invalid; no Unicode identifiers are permitted.

use vstd::prelude::*;

use crate::text::str_to_chars;

verus! {

/// A character allowed to start a name: ASCII letter or underscore.
pub open spec fn is_name_start_char(c: char) -> bool {
    let u = c as u32;
    (0x41 <= u && u <= 0x5A) || (0x61 <= u && u <= 0x7A) || u == 0x5F
}

/// A character allowed after the first: ASCII alphanumeric or underscore.
pub open spec fn is_name_char(c: char) -> bool {
    let u = c as u32;
    is_name_start_char(c) || (0x30 <= u && u <= 0x39)
}

/// A valid environment-variable name.
pub open spec fn valid_env_name(s: Seq<char>) -> bool {
    &&& s.len() > 0
    &&& is_name_start_char(s[0])
    &&& forall|i: int| 1 <= i < s.len() ==> is_name_char(s[i])
}

/// The least index at or after `i` whose character is not a valid
/// name character (`s.len()` when there is none).
pub open spec fn first_bad_rest(s: Seq<char>, i: int) -> int
    decreases s.len() - i,
{
    if i < 0 || i >= s.len() {
        s.len() as int
    } else if !is_name_char(s[i]) {
        i
    } else {
        first_bad_rest(s, i + 1)
    }
}

/// The first character of an invalid (nonempty) name that breaks the rule.
pub open spec fn offending_name_char(s: Seq<char>) -> char
    recommends
        s.len() > 0,
        !valid_env_name(s),
{
    if !is_name_start_char(s[0]) {
        s[0]
    } else {
        s[first_bad_rest(s, 1)]
    }
}

proof fn lemma_first_bad_rest_from(s: Seq<char>, i: int, k: int)
    requires
        0 <= i <= k < s.len(),
        forall|j: int| i <= j < k ==> is_name_char(s[j]),
        !is_name_char(s[k]),
    ensures
        first_bad_rest(s, i) == k,
    decreases k - i,
{
    if i < k {
        lemma_first_bad_rest_from(s, i + 1, k);
    }
}

/// Runtime test for [`is_name_start_char`].
pub fn name_start_char(c: char) -> (r: bool)
    ensures
        r == is_name_start_char(c),
{
    let u = c as u32;
    (0x41 <= u && u <= 0x5A) || (0x61 <= u && u <= 0x7A) || u == 0x5F
}

/// Runtime test for [`is_name_char`].
pub fn name_char(c: char) -> (r: bool)
    ensures
        r == is_name_char(c),
{
    let u = c as u32;
    (0x41 <= u && u <= 0x5A) || (0x61 <= u && u <= 0x7A) || u == 0x5F || (0x30 <= u && u <= 0x39)
}

/// Scans a nonempty candidate name and returns the first character that
/// breaks the naming rule, or `None` when the name is valid.
pub fn find_name_violation(v: &Vec<char>) -> (r: Option<char>)
    requires
        v@.len() > 0,
    ensures
        match r {
            None => valid_env_name(v@),
            Some(c) => !valid_env_name(v@) && c == offending_name_char(v@),
        },
{
    if !name_start_char(v[0]) {
        return Some(v[0]);
    }
    let n = v.len();
    let mut i: usize = 1;
    while i < n
        invariant
            1 <= i <= n,
            n == v@.len(),
            is_name_start_char(v@[0]),
            forall|j: int| 1 <= j < i ==> is_name_char(v@[j]),
        decreases n - i,
    {
        if !name_char(v[i]) {
            proof {
                lemma_first_bad_rest_from(v@, 1, i as int);
            }
            return Some(v[i]);
        }
        i = i + 1;
    }
    None
}

/// Checks a candidate environment-variable name: valid iff nonempty, the
/// first character is an ASCII letter or underscore, and every later
/// character is an ASCII alphanumeric or underscore.
pub fn is_valid_env_name(name: &str) -> (r: bool)
    ensures
        r == valid_env_name(name@),
{
    let v = str_to_chars(name);
    if v.len() == 0 {
        return false;
    }
    match find_name_violation(&v) {
        None => true,
        Some(_) => false,
    }
}

} // verus!
