//! Profile-name validation and profile-path construction. A profile name
//! must be safe against path traversal and shell injection: only ASCII
//! alphanumerics, underscore, hyphen and dot are allowed, the name must
//! not be `.` or `..`, and it must not start with `-`.

use vstd::prelude::*;

use crate::errors::NameError;
use crate::text::{chars_to_string, str_to_chars};

verus! {

/// A character allowed in a profile name.
pub open spec fn is_profile_name_char(c: char) -> bool {
    let u = c as u32;
    (0x30 <= u && u <= 0x39) || (0x41 <= u && u <= 0x5A) || (0x61 <= u && u <= 0x7A) || u == 0x5F
        || u == 0x2D || u == 0x2E
}

/// A safe profile name: nonempty, not `.` or `..`, not starting with
/// `-`, made only of allowed characters.
pub open spec fn valid_profile_name(s: Seq<char>) -> bool {
    &&& s.len() > 0
    &&& s != seq!['.']
    &&& s != seq!['.', '.']
    &&& s[0] != '-'
    &&& forall|i: int| 0 <= i < s.len() ==> is_profile_name_char(s[i])
}

/// The least index at or after `i` whose character is not allowed in a
/// profile name (`s.len()` when there is none).
pub open spec fn first_bad_profile_index(s: Seq<char>, i: int) -> int
    decreases s.len() - i,
{
    if i < 0 || i >= s.len() {
        s.len() as int
    } else if !is_profile_name_char(s[i]) {
        i
    } else {
        first_bad_profile_index(s, i + 1)
    }
}

/// The error an invalid profile name is rejected with, checks in order:
/// empty, reserved dot name, leading dash, first disallowed character.
pub open spec fn name_error_of(s: Seq<char>) -> NameError
    recommends
        !valid_profile_name(s),
{
    if s.len() == 0 {
        NameError::Empty
    } else if s == seq!['.'] || s == seq!['.', '.'] {
        NameError::Reserved
    } else if s[0] == '-' {
        NameError::LeadingDash
    } else {
        NameError::InvalidChar(s[first_bad_profile_index(s, 0)])
    }
}

proof fn lemma_first_bad_profile_from(s: Seq<char>, i: int, k: int)
    requires
        0 <= i <= k < s.len(),
        forall|j: int| i <= j < k ==> is_profile_name_char(s[j]),
        !is_profile_name_char(s[k]),
    ensures
        first_bad_profile_index(s, i) == k,
    decreases k - i,
{
    if i < k {
        lemma_first_bad_profile_from(s, i + 1, k);
    }
}

/// Runtime test for [`is_profile_name_char`].
pub fn profile_name_char(c: char) -> (r: bool)
    ensures
        r == is_profile_name_char(c),
{
    let u = c as u32;
    (0x30 <= u && u <= 0x39) || (0x41 <= u && u <= 0x5A) || (0x61 <= u && u <= 0x7A) || u == 0x5F
        || u == 0x2D || u == 0x2E
}

/// Validates that a profile name is safe to use as a file name and a
/// command-line argument: `Ok` exactly on valid names, and each rejection
/// carries why.
pub fn validate_profile_name(name: &str) -> (r: Result<(), NameError>)
    ensures
        match r {
            Result::Ok(u) => valid_profile_name(name@),
            Result::Err(e) => !valid_profile_name(name@) && e == name_error_of(name@),
        },
{
    let v = str_to_chars(name);
    let n = v.len();
    if n == 0 {
        return Result::Err(NameError::Empty);
    }
    if n == 1 && v[0] == '.' {
        proof {
            assert(v@ =~= seq!['.']);
        }
        return Result::Err(NameError::Reserved);
    }
    if n == 2 && v[0] == '.' && v[1] == '.' {
        proof {
            assert(v@ =~= seq!['.', '.']);
        }
        return Result::Err(NameError::Reserved);
    }
    if v[0] == '-' {
        return Result::Err(NameError::LeadingDash);
    }
    let mut i: usize = 0;
    while i < n
        invariant
            i <= n,
            n == v@.len(),
            v@ == name@,
            n > 0,
            v@ != seq!['.'],
            v@ != seq!['.', '.'],
            v@[0] != '-',
            forall|j: int| 0 <= j < i ==> is_profile_name_char(v@[j]),
        decreases n - i,
    {
        if !profile_name_char(v[i]) {
            proof {
                lemma_first_bad_profile_from(v@, 0, i as int);
            }
            return Result::Err(NameError::InvalidChar(v[i]));
        }
        i = i + 1;
    }
    Result::Ok(())
}

/// Builds the full path of a profile file below `profile_dir`, first
/// validating the profile name so no unsafe name reaches the filesystem.
pub fn get_profile_path(profile_dir: &str, profile_name: &str) -> (r: Result<String, NameError>)
    ensures
        match r {
            Result::Ok(p) => valid_profile_name(profile_name@) && p@ == profile_dir@ + seq!['/']
                + profile_name@,
            Result::Err(e) => !valid_profile_name(profile_name@) && e == name_error_of(
                profile_name@,
            ),
        },
{
    match validate_profile_name(profile_name) {
        Result::Ok(u) => {
            let mut out = str_to_chars(profile_dir);
            out.push('/');
            let name_chars = str_to_chars(profile_name);
            let n = name_chars.len();
            let mut i: usize = 0;
            assert(out@ =~= profile_dir@ + seq!['/'] + profile_name@.subrange(0, 0));
            while i < n
                invariant
                    i <= n,
                    n == name_chars@.len(),
                    name_chars@ == profile_name@,
                    out@ == profile_dir@ + seq!['/'] + profile_name@.subrange(0, i as int),
                decreases n - i,
            {
                let c = name_chars[i];
                out.push(c);
                assert(out@ =~= profile_dir@ + seq!['/'] + profile_name@.subrange(0, i + 1));
                i = i + 1;
            }
            proof {
                assert(profile_name@.subrange(0, n as int) =~= profile_name@);
            }
            Result::Ok(chars_to_string(&out))
        },
        Result::Err(e) => Result::Err(e),
    }
}

/// Whether a directory entry named `name` should be offered as a
/// completion for the typed prefix `partial`: the name is not hidden
/// (no leading dot) and starts with the prefix.
pub open spec fn completion_match(name: Seq<char>, partial: Seq<char>) -> bool {
    &&& !(name.len() > 0 && name[0] == '.')
    &&& partial.len() <= name.len()
    &&& name.subrange(0, partial.len() as int) == partial
}

/// Decides whether a profile file name is offered for shell completion
/// of the partially typed name `partial`.
pub fn is_completion_match(name: &str, partial: &str) -> (r: bool)
    ensures
        r == completion_match(name@, partial@),
{
    let nv = str_to_chars(name);
    let pv = str_to_chars(partial);
    let pn = pv.len();
    if nv.len() > 0 && nv[0] == '.' {
        return false;
    }
    if pn > nv.len() {
        return false;
    }
    let mut i: usize = 0;
    while i < pn
        invariant
            i <= pn,
            pn == pv@.len(),
            pn <= nv@.len(),
            nv@ == name@,
            pv@ == partial@,
            forall|j: int| 0 <= j < i ==> nv@[j] == pv@[j],
        decreases pn - i,
    {
        if nv[i] != pv[i] {
            assert(name@.subrange(0, pn as int)[i as int] != partial@[i as int]);
            return false;
        }
        i = i + 1;
    }
    proof {
        assert(name@.subrange(0, pn as int) =~= partial@);
    }
    true
}

} // verus!
