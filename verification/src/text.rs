//! Character-level string matching for the small name parsers.

use vstd::prelude::*;

verus! {

/// The character `c` lowered, when it is an ASCII capital, as an
/// integer code point.
pub open spec fn ascii_lower_int(c: char) -> int {
    if 'A' <= c && c <= 'Z' {
        c as int + 32
    } else {
        c as int
    }
}

/// The text `s`, lowered ASCII-wise, reads exactly as `t`.
pub open spec fn eq_lowered(s: Seq<char>, t: Seq<char>) -> bool {
    s.len() == t.len() && forall|i: int|
        0 <= i < s.len() ==> ascii_lower_int(#[trigger] s[i]) == t[i] as int
}

/// Whether the input, lowered ASCII-wise, reads exactly as the given
/// pattern.
pub(crate) fn eq_ignore_case(s: &str, t: &str) -> (r: bool)
    ensures
        r == eq_lowered(s@, t@),
{
    let n = s.unicode_len();
    if n != t.unicode_len() {
        return false;
    }
    let mut i: usize = 0;
    while i < n
        invariant
            i <= n,
            n == s@.len(),
            n == t@.len(),
            forall|j: int| 0 <= j < i ==> ascii_lower_int(#[trigger] s@[j]) == t@[j] as int,
        decreases n - i,
    {
        let a = s.get_char(i);
        let b = t.get_char(i);
        let av = a as u32;
        let bv = b as u32;
        let la = if a >= 'A' && a <= 'Z' {
            av + 32
        } else {
            av
        };
        if la != bv {
            return false;
        }
        i += 1;
    }
    true
}

/// Whether the input reads exactly as the given pattern.
pub(crate) fn str_eq(s: &str, t: &str) -> (r: bool)
    ensures
        r == (s@ == t@),
{
    let n = s.unicode_len();
    if n != t.unicode_len() {
        proof {
            assert(s@ != t@);
        }
        return false;
    }
    let mut i: usize = 0;
    while i < n
        invariant
            i <= n,
            n == s@.len(),
            n == t@.len(),
            forall|j: int| 0 <= j < i ==> s@[j] == t@[j],
        decreases n - i,
    {
        let a = s.get_char(i);
        let b = t.get_char(i);
        if a != b {
            proof {
                assert(s@ != t@);
            }
            return false;
        }
        i += 1;
    }
    proof {
        assert(s@ =~= t@);
    }
    true
}

} // verus!
