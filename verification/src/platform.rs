//! The target platform, as far as runtime resolution depends on it.

use vstd::prelude::*;
use vstd::string::StrSliceExecFns;

verus! {

/// Operating system family.
#[derive(Clone, Copy, PartialEq, Eq, Structural)]
pub enum Os {
    Linux,
    Windows,
    Other,
}

/// The platform the runtime libraries are resolved for.
#[derive(Clone, Copy)]
pub struct Platform {
    pub os: Os,
    pub x86_64: bool,
}

/// `s` begins with `prefix`.
pub open spec fn has_prefix(s: Seq<char>, prefix: Seq<char>) -> bool {
    prefix.len() <= s.len() && s.subrange(0, prefix.len() as int) == prefix
}

/// Whether `s` starts with `prefix`.
pub fn str_starts_with(s: &str, prefix: &str) -> (r: bool)
    ensures
        r == has_prefix(s@, prefix@),
{
    let n = prefix.unicode_len();
    let m = s.unicode_len();
    if n > m {
        return false;
    }
    let mut i: usize = 0;
    while i < n
        invariant
            n == prefix@.len(),
            m == s@.len(),
            n <= m,
            i <= n,
            forall|k: int| 0 <= k < i ==> s@[k] == prefix@[k],
        decreases n - i,
    {
        if s.get_char(i) != prefix.get_char(i) {
            assert(s@.subrange(0, n as int)[i as int] != prefix@[i as int]);
            return false;
        }
        i += 1;
    }
    assert(s@.subrange(0, n as int) =~= prefix@);
    true
}

} // verus!
