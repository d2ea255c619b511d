//! Decisions about the model provider that do not depend on its wire format.
use vstd::prelude::*;
use crate::permission::lower_of;

verus! {

/// `needle` occurs in `hay` at some position.
pub open spec fn occurs_in(hay: Seq<char>, needle: Seq<char>) -> bool {
    exists|i: int| 0 <= i <= hay.len() - needle.len() && #[trigger] hay.subrange(i, i + needle.len()) == needle
}

/// Whether `needle` occurs in `hay`.
pub fn contains(hay: &str, needle: &str) -> (r: bool)
    ensures
        r == occurs_in(hay@, needle@),
{
    let n = hay.unicode_len();
    let m = needle.unicode_len();
    if m > n {
        return false;
    }
    let mut i: usize = 0;
    while i <= n - m
        invariant
            n == hay@.len(),
            m == needle@.len(),
            m <= n,
            i <= n - m + 1,
            forall|k: int| 0 <= k < i ==> #[trigger] hay@.subrange(k, k + m) != needle@,
        decreases n - m + 1 - i,
    {
        let mut j: usize = 0;
        while j < m && hay.get_char(i + j) == needle.get_char(j)
            invariant
                n == hay@.len(),
                m == needle@.len(),
                m <= n,
                i <= n - m,
                j <= m,
                forall|q: int| 0 <= q < j ==> hay@[i + q] == needle@[q],
            decreases m - j,
        {
            j = j + 1;
        }
        if j == m {
            proof {
                assert(hay@.subrange(i as int, i + m) =~= needle@);
            }
            return true;
        }
        proof {
            assert(hay@.subrange(i as int, i + m)[j as int] != needle@[j as int]);
        }
        i = i + 1;
    }
    proof {
        assert forall|k: int| 0 <= k <= n - m implies #[trigger] hay@.subrange(k, k + m) != needle@ by {}
    }
    false
}

/// The model families that are sent no tools, because they are known to
/// mishandle them: names holding `gemini-2.0-flash` or `gemini-2.0-pro-exp`
/// in any case.
pub open spec fn skips_tools(lower_name: Seq<char>) -> bool {
    occurs_in(lower_name, "gemini-2.0-flash"@) || occurs_in(lower_name, "gemini-2.0-pro-exp"@)
}

/// Whether the model of this name is sent the tool list, by its lower-cased name.
pub fn tools_supported_lowercase(lower_name: &str) -> (r: bool)
    ensures
        r == !skips_tools(lower_name@),
{
    !(contains(lower_name, "gemini-2.0-flash") || contains(lower_name, "gemini-2.0-pro-exp"))
}

/// Whether the model of this name is sent the tool list.
pub fn tools_supported(model_name: &str) -> (r: bool)
    ensures
        r == !skips_tools(lower_of(model_name@)),
{
    let lower = crate::permission::lowercase(model_name);
    tools_supported_lowercase(lower.as_str())
}

} // verus!
