use vstd::prelude::*;
use vstd::string::StrSliceExecFns;

verus! {

/// Image of a string under Unicode lowercasing, exactly as
/// `str::to_lowercase` computes it.
pub uninterp spec fn lower_of(s: Seq<char>) -> Seq<char>;

/// Relies on `str::to_lowercase`: its result is a function of the
/// characters alone.
#[verifier::external_body]
fn lowercase(s: &str) -> (r: String)
    ensures
        r@ == lower_of(s@),
{
    s.to_lowercase()
}

/// `needle` occurs contiguously somewhere inside `hay`.
pub open spec fn is_substring(needle: Seq<char>, hay: Seq<char>) -> bool {
    exists|k: int|
        0 <= k <= hay.len() - needle.len() && #[trigger] hay.subrange(
            k,
            k + needle.len() as int,
        ) == needle
}

/// A filter matches a field when the lowercased filter text occurs inside
/// the lowercased field text.
pub open spec fn ci_contains(pat: Seq<char>, text: Seq<char>) -> bool {
    is_substring(lower_of(pat), lower_of(text))
}

/// `needle` matches `hay` starting at character position `k`.
///
/// The caller passes the two character counts it already holds, so that the
/// index arithmetic below stays within `usize`.
fn matches_at(hay: &str, needle: &str, k: usize, n: usize, m: usize) -> (b: bool)
    requires
        n == hay@.len(),
        m == needle@.len(),
        k + m <= n,
    ensures
        b == (hay@.subrange(k as int, k as int + m as int) == needle@),
{
    let mut j: usize = 0;
    while j < m
        invariant
            n == hay@.len(),
            m == needle@.len(),
            k + m <= n,
            j <= m,
            forall|t: int| 0 <= t < j ==> hay@[k + t] == needle@[t],
        decreases m - j,
    {
        if hay.get_char(k + j) != needle.get_char(j) {
            proof {
                assert(hay@.subrange(k as int, k as int + m as int)[j as int] != needle@[j as int]);
            }
            return false;
        }
        j += 1;
    }
    proof {
        assert(hay@.subrange(k as int, k as int + m as int) =~= needle@);
    }
    true
}

/// `needle` occurs inside `hay`, by checking every starting position.
fn contains_str(hay: &str, needle: &str) -> (b: bool)
    ensures
        b == is_substring(needle@, hay@),
{
    let n = hay.unicode_len();
    let m = needle.unicode_len();
    if m > n {
        return false;
    }
    if m == 0 {
        proof {
            assert(hay@.subrange(0, 0 + needle@.len() as int) =~= needle@);
        }
        return true;
    }
    let mut i: usize = 0;
    while i <= n - m
        invariant
            1 <= m <= n,
            n == hay@.len(),
            m == needle@.len(),
            i <= n - m + 1,
            forall|k: int|
                0 <= k < i ==> #[trigger] hay@.subrange(k, k + m as int) != needle@,
        decreases n - m + 1 - i,
    {
        if matches_at(hay, needle, i, n, m) {
            return true;
        }
        i += 1;
    }
    false
}

/// Case-insensitive containment of `pat` in `text`, the match rule that
/// search filters use.
pub fn contains_ci(text: &str, pat: &str) -> (b: bool)
    ensures
        b == ci_contains(pat@, text@),
{
    let lt = lowercase(text);
    let lp = lowercase(pat);
    contains_str(lt.as_str(), lp.as_str())
}

} // verus!
