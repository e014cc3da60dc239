use vstd::prelude::*;
use vstd::string::StrSliceExecFns;

verus! {

/// Relies on `core::iter::Iterator::collect` for `String`: collecting the
/// characters of `v` yields the string whose character sequence is `v`.
#[verifier::external_body]
pub(crate) fn string_from_chars(v: &Vec<char>) -> (r: String)
    ensures
        r@ == v@,
{
    v.iter().collect()
}

/// Character-wise string equality.
pub fn str_eq(a: &str, b: &str) -> (r: bool)
    ensures
        r == (a@ == b@),
{
    let n = a.unicode_len();
    if n != b.unicode_len() {
        return false;
    }
    let mut i: usize = 0;
    while i < n
        invariant
            n == a@.len(),
            n == b@.len(),
            i <= n,
            forall|j: int| 0 <= j < i ==> a@[j] == b@[j],
        decreases n - i,
    {
        if a.get_char(i) != b.get_char(i) {
            return false;
        }
        i = i + 1;
    }
    proof {
        assert(a@ =~= b@);
    }
    true
}

/// True when `k` is a prefix of `s`.
pub open spec fn is_prefix(k: Seq<char>, s: Seq<char>) -> bool {
    k.len() <= s.len() && k == s.subrange(0, k.len() as int)
}

/// True when `k` occurs in `s` starting at position `j`.
pub open spec fn occurs_at(s: Seq<char>, k: Seq<char>, j: int) -> bool {
    0 <= j && j + k.len() <= s.len() && k == s.subrange(j, j + k.len())
}

/// True when `k` occurs somewhere in `s`.
pub open spec fn occurs(s: Seq<char>, k: Seq<char>) -> bool {
    exists|j: int| occurs_at(s, k, j)
}

/// True when `k` is a prefix of `s` from position `i` on.
pub fn matches_at(s: &str, i: usize, k: &str) -> (r: bool)
    requires
        i <= s@.len(),
    ensures
        r == is_prefix(k@, s@.skip(i as int)),
{
    let n = s.unicode_len();
    let m = k.unicode_len();
    if m > n - i {
        proof {
            assert(!is_prefix(k@, s@.skip(i as int)));
        }
        return false;
    }
    let mut j: usize = 0;
    while j < m
        invariant
            n == s@.len(),
            m == k@.len(),
            i + m <= n,
            j <= m,
            forall|x: int| 0 <= x < j ==> k@[x] == s@[i + x],
        decreases m - j,
    {
        if k.get_char(j) != s.get_char(i + j) {
            proof {
                assert(s@.skip(i as int).subrange(0, k@.len() as int)[j as int] == s@[i + j]);
            }
            return false;
        }
        j = j + 1;
    }
    proof {
        assert(k@ =~= s@.skip(i as int).subrange(0, k@.len() as int));
    }
    true
}

/// True when `k` occurs somewhere in `s`.
pub fn contains_str(s: &str, k: &str) -> (r: bool)
    ensures
        r == occurs(s@, k@),
{
    let n = s.unicode_len();
    let m = k.unicode_len();
    if m > n {
        proof {
            assert(forall|j: int| !occurs_at(s@, k@, j));
        }
        return false;
    }
    if m == 0 {
        proof {
            assert(k@ =~= s@.subrange(0, 0));
            assert(occurs_at(s@, k@, 0));
        }
        return true;
    }
    let mut i: usize = 0;
    while i <= n - m
        invariant
            n == s@.len(),
            m == k@.len(),
            0 < m <= n,
            i <= n - m + 1,
            forall|j: int| 0 <= j < i ==> !occurs_at(s@, k@, j),
        decreases n - m + 1 - i,
    {
        if matches_at(s, i, k) {
            proof {
                assert(k@ == s@.skip(i as int).subrange(0, m as int));
                assert(s@.skip(i as int).subrange(0, m as int) =~= s@.subrange(
                    i as int,
                    i + m,
                ));
                assert(occurs_at(s@, k@, i as int));
            }
            return true;
        }
        proof {
            assert(s@.skip(i as int).subrange(0, m as int) =~= s@.subrange(i as int, i + m));
            assert(!occurs_at(s@, k@, i as int));
        }
        i = i + 1;
    }
    proof {
        assert(forall|j: int| j > n - m ==> !occurs_at(s@, k@, j));
    }
    false
}

/// Character-wise equality of a char vector and a string.
pub fn chars_eq_str(v: &Vec<char>, s: &str) -> (r: bool)
    ensures
        r == (v@ == s@),
{
    let n = v.len();
    if n != s.unicode_len() {
        return false;
    }
    let mut i: usize = 0;
    while i < n
        invariant
            n == v@.len(),
            n == s@.len(),
            i <= n,
            forall|j: int| 0 <= j < i ==> v@[j] == s@[j],
        decreases n - i,
    {
        if v[i] != s.get_char(i) {
            return false;
        }
        i = i + 1;
    }
    proof {
        assert(v@ =~= s@);
    }
    true
}

} // verus!
