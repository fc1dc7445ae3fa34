//! Finding one text inside another.

use vstd::prelude::*;

verus! {

/// Whether `pat` stands in `s` at position `i`.
pub open spec fn occurs_at(s: Seq<char>, pat: Seq<char>, i: int) -> bool {
    0 <= i && i + pat.len() <= s.len() && s.subrange(i, i + pat.len()) == pat
}

/// Whether `pat` stands somewhere in `s`.
pub open spec fn contains(s: Seq<char>, pat: Seq<char>) -> bool {
    exists|i: int| occurs_at(s, pat, i)
}

/// The first position at or after `from` at which `pat` stands in `s`.
pub open spec fn find_from(s: Seq<char>, pat: Seq<char>, from: int) -> Option<int>
    decreases s.len() + 1 - from,
{
    if from < 0 || from + pat.len() > s.len() {
        None
    } else if occurs_at(s, pat, from) {
        Some(from)
    } else {
        find_from(s, pat, from + 1)
    }
}

/// The first position at which `pat` stands in `s`.
pub open spec fn find(s: Seq<char>, pat: Seq<char>) -> Option<int> {
    find_from(s, pat, 0)
}

/// The last position below `bound` at which `pat` stands in `s`.
pub open spec fn rfind_below(s: Seq<char>, pat: Seq<char>, bound: int) -> Option<int>
    decreases bound,
{
    if bound <= 0 {
        None
    } else if occurs_at(s, pat, bound - 1) {
        Some(bound - 1)
    } else {
        rfind_below(s, pat, bound - 1)
    }
}

/// The last position at which `pat` stands in `s`.
pub open spec fn rfind(s: Seq<char>, pat: Seq<char>) -> Option<int> {
    rfind_below(s, pat, s.len() - pat.len() + 1)
}

/// `find_from` gives the least position at or after `from`, and `None`
/// exactly when there is none.
pub proof fn lemma_find_from(s: Seq<char>, pat: Seq<char>, from: int)
    requires
        0 <= from,
    ensures
        match find_from(s, pat, from) {
            Some(i) => from <= i && occurs_at(s, pat, i) && forall|j: int|
                from <= j < i ==> !occurs_at(s, pat, j),
            None => forall|j: int| from <= j ==> !occurs_at(s, pat, j),
        },
    decreases s.len() + 1 - from,
{
    if from + pat.len() <= s.len() && !occurs_at(s, pat, from) {
        lemma_find_from(s, pat, from + 1);
    }
}

/// `find` gives the least position of `pat` in `s`, and `None` exactly when
/// `s` does not contain `pat`.
pub proof fn lemma_find(s: Seq<char>, pat: Seq<char>)
    ensures
        match find(s, pat) {
            Some(i) => occurs_at(s, pat, i) && forall|j: int| j < i ==> !occurs_at(s, pat, j),
            None => !contains(s, pat),
        },
        find(s, pat) is Some <==> contains(s, pat),
{
    lemma_find_from(s, pat, 0);
}

/// `rfind_below` gives the greatest position below `bound`, and `None`
/// exactly when there is none.
pub proof fn lemma_rfind_below(s: Seq<char>, pat: Seq<char>, bound: int)
    ensures
        match rfind_below(s, pat, bound) {
            Some(i) => i < bound && occurs_at(s, pat, i) && forall|j: int|
                i < j < bound ==> !occurs_at(s, pat, j),
            None => forall|j: int| j < bound ==> !occurs_at(s, pat, j),
        },
    decreases bound,
{
    if bound > 0 && !occurs_at(s, pat, bound - 1) {
        lemma_rfind_below(s, pat, bound - 1);
    }
}

/// `rfind` gives the greatest position of `pat` in `s`, and `None` exactly
/// when `s` does not contain `pat`.
pub proof fn lemma_rfind(s: Seq<char>, pat: Seq<char>)
    ensures
        match rfind(s, pat) {
            Some(i) => occurs_at(s, pat, i) && forall|j: int| i < j ==> !occurs_at(s, pat, j),
            None => !contains(s, pat),
        },
        rfind(s, pat) is Some <==> contains(s, pat),
{
    lemma_rfind_below(s, pat, s.len() - pat.len() + 1);
}

/// Whether `pat` stands in `s` at position `i`; see `occurs_at`.
pub fn matches_at(s: &Vec<char>, pat: &Vec<char>, i: usize) -> (b: bool)
    ensures
        b == occurs_at(s@, pat@, i as int),
{
    let n: usize = s.len();
    let m: usize = pat.len();
    if i > n || m > n - i {
        return false;
    }
    let mut k: usize = 0;
    while k < m
        invariant
            n == s@.len(),
            m == pat@.len(),
            i + m <= n,
            k <= m,
            s@.subrange(i as int, i + k) == pat@.take(k as int),
        decreases m - k,
    {
        if s[i + k] != pat[k] {
            assert(s@.subrange(i as int, i + m)[k as int] != pat@[k as int]);
            return false;
        }
        assert(s@.subrange(i as int, i + k + 1) =~= s@.subrange(i as int, i + k).push(
            s@[i + k],
        ));
        assert(pat@.take(k + 1) =~= pat@.take(k as int).push(pat@[k as int]));
        k += 1;
    }
    assert(pat@.take(m as int) =~= pat@);
    true
}

/// The first position at which `pat` stands in `s`; see `find`.
pub fn find_first(s: &Vec<char>, pat: &Vec<char>) -> (found: Option<usize>)
    ensures
        match found {
            Some(i) => find(s@, pat@) == Some(i as int),
            None => find(s@, pat@) is None,
        },
{
    let n: usize = s.len();
    let m: usize = pat.len();
    if m > n {
        return None;
    }
    let last: usize = n - m;
    let mut i: usize = 0;
    loop
        invariant
            n == s@.len(),
            m == pat@.len(),
            last == n - m,
            i <= last,
            find(s@, pat@) == find_from(s@, pat@, i as int),
        decreases last - i,
    {
        if matches_at(s, pat, i) {
            return Some(i);
        }
        if i == last {
            assert(find_from(s@, pat@, i + 1) is None);
            return None;
        }
        i += 1;
    }
}

/// The last position at which `pat` stands in `s`; see `rfind`.
pub fn find_last(s: &Vec<char>, pat: &Vec<char>) -> (found: Option<usize>)
    ensures
        match found {
            Some(i) => rfind(s@, pat@) == Some(i as int),
            None => rfind(s@, pat@) is None,
        },
{
    let n: usize = s.len();
    let m: usize = pat.len();
    if m > n {
        return None;
    }
    let mut i: usize = n - m;
    loop
        invariant
            n == s@.len(),
            m == pat@.len(),
            i <= n - m,
            rfind(s@, pat@) == rfind_below(s@, pat@, i + 1),
        decreases i,
    {
        if matches_at(s, pat, i) {
            return Some(i);
        }
        if i == 0 {
            assert(rfind_below(s@, pat@, 0) is None);
            return None;
        }
        i -= 1;
    }
}

} // verus!
