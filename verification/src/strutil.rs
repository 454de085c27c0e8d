//! Small verified string predicates used by the storage layer.

use vstd::prelude::*;
use vstd::string::{StrSliceExecFns, StringExecFns};

verus! {

/// `p` is a prefix of `s`.
pub open spec fn spec_is_prefix(s: Seq<char>, p: Seq<char>) -> bool {
    p.len() <= s.len() && s.subrange(0, p.len() as int) == p
}

/// `p` occurs somewhere in `s` as a contiguous run.
pub open spec fn spec_contains_sub(s: Seq<char>, p: Seq<char>) -> bool {
    exists|i: int|
        0 <= i && i + p.len() <= s.len() && #[trigger] s.subrange(i, i + p.len() as int) == p
}

/// The character `c` occurs in `s`.
pub open spec fn spec_contains_char(s: Seq<char>, c: char) -> bool {
    exists|i: int| 0 <= i < s.len() && s[i] == c
}

/// Whether `prefix` starts `s`.
pub fn str_starts_with(s: &str, prefix: &str) -> (b: bool)
    ensures
        b == spec_is_prefix(s@, prefix@),
{
    let plen = prefix.unicode_len();
    let slen = s.unicode_len();
    if plen > slen {
        return false;
    }
    let head = s.substring_char(0, plen);
    String::from_str(head) == String::from_str(prefix)
}

/// Whether `pat` occurs in `s` as a contiguous run.
pub fn str_contains_sub(s: &str, pat: &str) -> (b: bool)
    ensures
        b == spec_contains_sub(s@, pat@),
{
    let plen = pat.unicode_len();
    let slen = s.unicode_len();
    if plen > slen {
        proof {
            assert(!spec_contains_sub(s@, pat@));
        }
        return false;
    }
    if plen == 0 {
        proof {
            assert(s@.subrange(0, 0 + pat@.len() as int) =~= pat@);
            assert(spec_contains_sub(s@, pat@));
        }
        return true;
    }
    let mut i: usize = 0;
    while i <= slen - plen
        invariant
            1 <= plen,
            plen == pat@.len(),
            slen == s@.len(),
            plen <= slen,
            i <= slen - plen + 1,
            forall|j: int| 0 <= j < i ==> #[trigger] s@.subrange(j, j + pat@.len() as int) != pat@,
        decreases slen - plen - i + 1,
    {
        let window = s.substring_char(i, i + plen);
        if String::from_str(window) == String::from_str(pat) {
            proof {
                assert(s@.subrange(i as int, i as int + pat@.len() as int) == pat@);
            }
            return true;
        }
        i = i + 1;
    }
    proof {
        assert forall|j: int| 0 <= j && j + pat@.len() <= s@.len() implies #[trigger] s@.subrange(
            j,
            j + pat@.len() as int,
        ) != pat@ by {
            assert(j < i);
        }
    }
    false
}

/// Whether the character `c` occurs in `s`.
pub fn str_contains_char(s: &str, c: char) -> (b: bool)
    ensures
        b == spec_contains_char(s@, c),
{
    let slen = s.unicode_len();
    let mut i: usize = 0;
    while i < slen
        invariant
            slen == s@.len(),
            i <= slen,
            forall|j: int| 0 <= j < i ==> s@[j] != c,
        decreases slen - i,
    {
        if s.get_char(i) == c {
            return true;
        }
        i = i + 1;
    }
    false
}

} // verus!
