use vstd::prelude::*;

verus! {

/// `true` when `pat` occurs in `s` at index `i`.
pub open spec fn occurs_at(s: Seq<char>, pat: Seq<char>, i: int) -> bool {
    0 <= i && i + pat.len() <= s.len() && s.subrange(i, i + pat.len()) == pat
}

/// Index of the first occurrence of `pat` in `s` at or after `i`, or -1.
pub open spec fn find_from(s: Seq<char>, pat: Seq<char>, i: int) -> int
    decreases s.len() - i,
{
    if i < 0 || i >= s.len() || i + pat.len() > s.len() {
        -1
    } else if occurs_at(s, pat, i) {
        i
    } else {
        find_from(s, pat, i + 1)
    }
}

/// `j` is the first occurrence from `i` when none lies between them.
pub proof fn lemma_find_first(s: Seq<char>, pat: Seq<char>, i: int, j: int)
    requires
        0 <= i <= j,
        pat.len() > 0,
        occurs_at(s, pat, j),
        forall|k: int| i <= k < j ==> !occurs_at(s, pat, k),
    ensures
        find_from(s, pat, i) == j,
    decreases j - i,
{
    if i < j {
        lemma_find_first(s, pat, i + 1, j);
    }
}

/// No occurrence from `i` on means the search from `i` fails.
pub proof fn lemma_find_none(s: Seq<char>, pat: Seq<char>, i: int)
    requires
        0 <= i,
        forall|k: int| i <= k ==> !occurs_at(s, pat, k),
    ensures
        find_from(s, pat, i) == -1,
    decreases s.len() - i,
{
    if i < s.len() && i + pat.len() <= s.len() {
        lemma_find_none(s, pat, i + 1);
    }
}

/// A successful search lands at or after its start, on an occurrence.
pub proof fn lemma_find_props(s: Seq<char>, pat: Seq<char>, i: int)
    ensures
        find_from(s, pat, i) >= 0 ==> i <= find_from(s, pat, i) && occurs_at(
            s,
            pat,
            find_from(s, pat, i),
        ),
    decreases s.len() - i,
{
    if !(i < 0 || i >= s.len() || i + pat.len() > s.len()) && !occurs_at(s, pat, i) {
        lemma_find_props(s, pat, i + 1);
    }
}

/// Whether `pat` occurs in `s` at index `i`.
pub fn occurs_here(s: &str, pat: &str, i: usize) -> (r: bool)
    requires
        i + pat@.len() <= s@.len(),
    ensures
        r == occurs_at(s@, pat@, i as int),
{
    let n = s.unicode_len();
    let m = pat.unicode_len();
    let mut k: usize = 0;
    while k < m
        invariant
            n == s@.len(),
            m == pat@.len(),
            i + m <= s@.len(),
            k <= m,
            forall|t: int| 0 <= t < k ==> s@[i + t] == pat@[t],
        decreases m - k,
    {
        if s.get_char(i + k) != pat.get_char(k) {
            assert(s@.subrange(i as int, i + m)[k as int] == s@[i + k]);
            return false;
        }
        k = k + 1;
    }
    assert(s@.subrange(i as int, i + m) =~= pat@);
    true
}

/// The first index at or after `from` where `pat` occurs in `s`.
pub fn find_in(s: &str, pat: &str, from: usize) -> (r: Option<usize>)
    requires
        pat@.len() > 0,
    ensures
        (match r {
            Some(i) => i as int,
            None => -1,
        }) == find_from(s@, pat@, from as int),
        r matches Some(i) ==> i + pat@.len() <= s@.len() <= usize::MAX,
{
    let n = s.unicode_len();
    let m = pat.unicode_len();
    let mut i: usize = from;
    while i < n && m <= n - i
        invariant
            n == s@.len(),
            m == pat@.len(),
            m > 0,
            from <= i,
            forall|k: int| from <= k < i ==> !occurs_at(s@, pat@, k),
        decreases n - i,
    {
        if occurs_here(s, pat, i) {
            proof {
                lemma_find_first(s@, pat@, from as int, i as int);
            }
            return Some(i);
        }
        i = i + 1;
    }
    proof {
        lemma_find_none(s@, pat@, from as int);
    }
    None
}

} // verus!
