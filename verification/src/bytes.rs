//! Byte-sequence searching: occurrence tests and leftmost-match search.

use vstd::prelude::*;

verus! {

/// `pat` occurs in `s` starting exactly at index `i`.
pub open spec fn is_match_at(s: Seq<u8>, pat: Seq<u8>, i: int) -> bool {
    0 <= i && i + pat.len() <= s.len() && s.subrange(i, i + pat.len() as int) == pat
}

/// Some occurrence of `pat` starts at or after `from`.
pub open spec fn has_match_from(s: Seq<u8>, pat: Seq<u8>, from: int) -> bool {
    exists|i: int| from <= i && is_match_at(s, pat, i)
}

/// `pat` occurs somewhere in `s`.
pub open spec fn contains_seq(s: Seq<u8>, pat: Seq<u8>) -> bool {
    has_match_from(s, pat, 0)
}

/// Index of the leftmost occurrence of `pat` at or after `from`, if any.
pub open spec fn find_match(s: Seq<u8>, pat: Seq<u8>, from: int) -> Option<int>
    decreases s.len() - from when 0 <= from <= s.len()
{
    if from + pat.len() > s.len() {
        None
    } else if is_match_at(s, pat, from) {
        Some(from)
    } else if from < s.len() {
        find_match(s, pat, from + 1)
    } else {
        None
    }
}

/// What `find_match` returns: the leftmost match at or after `from`,
/// or the guarantee that no such match exists.
pub proof fn lemma_find_match_spec(s: Seq<u8>, pat: Seq<u8>, from: int)
    requires
        0 <= from <= s.len(),
    ensures
        match find_match(s, pat, from) {
            Some(i) => from <= i && is_match_at(s, pat, i) && forall|j: int|
                from <= j < i ==> !is_match_at(s, pat, j),
            None => forall|j: int| from <= j ==> !is_match_at(s, pat, j),
        },
    decreases s.len() - from,
{
    if from + pat.len() > s.len() {
        assert forall|j: int| from <= j implies !is_match_at(s, pat, j) by {
            if is_match_at(s, pat, j) {
                assert(j + pat.len() <= s.len());
            }
        }
    } else if is_match_at(s, pat, from) {
    } else if from < s.len() {
        lemma_find_match_spec(s, pat, from + 1);
    } else {
        assert forall|j: int| from <= j implies !is_match_at(s, pat, j) by {
            if is_match_at(s, pat, j) && j == from {
                assert(s.subrange(from, from + pat.len() as int) =~= pat);
            }
        }
    }
}

/// `find_match` finds something exactly when an occurrence exists.
pub proof fn lemma_find_match_iff(s: Seq<u8>, pat: Seq<u8>, from: int)
    requires
        0 <= from <= s.len(),
    ensures
        find_match(s, pat, from) is Some <==> has_match_from(s, pat, from),
{
    lemma_find_match_spec(s, pat, from);
    if find_match(s, pat, from) is Some {
        let i = find_match(s, pat, from)->Some_0;
        assert(has_match_from(s, pat, from));
    }
}

/// Whether `pat` occurs in `s` starting exactly at `i`.
pub fn matches_at(s: &[u8], i: usize, pat: &[u8]) -> (r: bool)
    ensures
        r == is_match_at(s@, pat@, i as int),
{
    if i > s.len() || s.len() - i < pat.len() {
        return false;
    }
    let mut k: usize = 0;
    while k < pat.len()
        invariant
            i + pat.len() <= s.len(),
            k <= pat.len(),
            forall|j: int| 0 <= j < k ==> s@[i + j] == pat@[j],
        decreases pat.len() - k,
    {
        if s[i + k] != pat[k] {
            proof {
                assert(s@.subrange(i as int, i + pat@.len() as int)[k as int] == s@[i + k]);
            }
            return false;
        }
        k += 1;
    }
    proof {
        assert(s@.subrange(i as int, i + pat@.len() as int) =~= pat@);
    }
    true
}

/// Leftmost occurrence of `pat` in `s` at or after `from`.
pub fn find_from(s: &[u8], from: usize, pat: &[u8]) -> (r: Option<usize>)
    requires
        from <= s.len(),
    ensures
        match r {
            Some(i) => find_match(s@, pat@, from as int) == Some(i as int),
            None => find_match(s@, pat@, from as int) is None,
        },
{
    let mut i: usize = from;
    while s.len() - i >= pat.len()
        invariant
            from <= i <= s.len(),
            find_match(s@, pat@, from as int) == find_match(s@, pat@, i as int),
        decreases s.len() - i,
    {
        if matches_at(s, i, pat) {
            return Some(i);
        }
        proof {
            if pat@.len() == 0 {
                assert(s@.subrange(i as int, i as int) =~= pat@);
            }
        }
        i += 1;
    }
    None
}

/// Whether `pat` occurs anywhere in `s`.
pub fn contains_bytes(s: &[u8], pat: &[u8]) -> (r: bool)
    ensures
        r == contains_seq(s@, pat@),
{
    proof {
        lemma_find_match_iff(s@, pat@, 0);
    }
    match find_from(s, 0, pat) {
        Some(_) => true,
        None => false,
    }
}

/// Whether `s` begins with `pat`.
pub fn starts_with_bytes(s: &[u8], pat: &[u8]) -> (r: bool)
    ensures
        r == is_match_at(s@, pat@, 0),
{
    matches_at(s, 0, pat)
}

/// Appends every byte of `s` to `out`.
pub fn append_bytes(out: &mut Vec<u8>, s: &[u8])
    ensures
        final(out)@ == old(out)@ + s@,
{
    let mut k: usize = 0;
    while k < s.len()
        invariant
            k <= s.len(),
            out@ == old(out)@ + s@.take(k as int),
        decreases s.len() - k,
    {
        proof {
            s@.lemma_take_succ_push(k as int);
        }
        out.push(s[k]);
        k += 1;
    }
    proof {
        assert(s@.take(s@.len() as int) =~= s@);
    }
}

/// Whether two byte strings hold the same bytes.
pub fn eq_bytes(a: &[u8], b: &[u8]) -> (r: bool)
    ensures
        r == (a@ == b@),
{
    if a.len() != b.len() {
        return false;
    }
    let r = matches_at(a, 0, b);
    proof {
        assert(a@.subrange(0, a@.len() as int) =~= a@);
    }
    r
}

} // verus!
