use vstd::prelude::*;

verus! {

/// `needle` occurs in `haystack` starting at byte `i`.
pub open spec fn occurs_at(haystack: Seq<u8>, needle: Seq<u8>, i: int) -> bool {
    &&& 0 <= i
    &&& i + needle.len() <= haystack.len()
    &&& haystack.subrange(i, i + needle.len()) == needle
}

/// `r` is the lowest index at which `needle` occurs, or `None` when it occurs nowhere.
pub open spec fn is_first_occurrence(haystack: Seq<u8>, needle: Seq<u8>, r: Option<usize>) -> bool {
    match r {
        Some(i) => {
            &&& occurs_at(haystack, needle, i as int)
            &&& forall|j: int| 0 <= j < i ==> !#[trigger] occurs_at(haystack, needle, j)
        },
        None => forall|j: int| !#[trigger] occurs_at(haystack, needle, j),
    }
}

/// Compares `needle` with the bytes of `haystack` that start at `start`.
fn matches_at(haystack: &[u8], needle: &[u8], start: usize) -> (r: bool)
    requires
        start + needle@.len() <= haystack@.len(),
    ensures
        r == occurs_at(haystack@, needle@, start as int),
{
    let hay_len: usize = haystack.len();
    let mut k: usize = 0;
    while k < needle.len()
        invariant
            k <= needle@.len(),
            hay_len == haystack@.len(),
            start + needle@.len() <= haystack@.len(),
            forall|m: int| 0 <= m < k ==> haystack@[start + m] == needle@[m],
        decreases needle@.len() - k,
    {
        if haystack[start + k] != needle[k] {
            assert(haystack@.subrange(start as int, start + needle@.len())[k as int] != needle@[k as int]);
            return false;
        }
        k = k + 1;
    }
    assert(haystack@.subrange(start as int, start + needle@.len()) =~= needle@);
    true
}

/// Byte-exact search: the lowest offset at which `needle` occurs in `haystack`.
pub fn find_subsequence(haystack: &[u8], needle: &[u8]) -> (r: Option<usize>)
    ensures
        is_first_occurrence(haystack@, needle@, r),
{
    if needle.len() > haystack.len() {
        return None;
    }
    let last: usize = haystack.len() - needle.len();
    let mut i: usize = 0;
    loop
        invariant
            i <= last,
            last + needle@.len() == haystack@.len(),
            forall|j: int| 0 <= j < i ==> !#[trigger] occurs_at(haystack@, needle@, j),
        decreases last - i,
    {
        if matches_at(haystack, needle, i) {
            return Some(i);
        }
        if i == last {
            assert forall|j: int| !#[trigger] occurs_at(haystack@, needle@, j) by {
                if 0 <= j && j < i {
                }
            }
            return None;
        }
        i = i + 1;
    }
}

/// The search is stable: any two results that meet its contract on the same
/// inputs are the same result, so repeated searches agree.
pub proof fn lemma_scan_stable(haystack: Seq<u8>, needle: Seq<u8>, r1: Option<usize>, r2: Option<usize>)
    requires
        is_first_occurrence(haystack, needle, r1),
        is_first_occurrence(haystack, needle, r2),
    ensures
        r1 == r2,
{
    match (r1, r2) {
        (Some(a), Some(b)) => {
            if a < b {
                assert(!occurs_at(haystack, needle, a as int));
            } else if b < a {
                assert(!occurs_at(haystack, needle, b as int));
            }
        },
        (Some(a), None) => {
            assert(!occurs_at(haystack, needle, a as int));
        },
        (None, Some(b)) => {
            assert(!occurs_at(haystack, needle, b as int));
        },
        (None, None) => {},
    }
}

/// A haystack that starts with the needle is matched at offset zero.
pub proof fn lemma_prefix_found_at_start(haystack: Seq<u8>, needle: Seq<u8>, r: Option<usize>)
    requires
        needle.len() <= haystack.len(),
        haystack.subrange(0, needle.len() as int) == needle,
        is_first_occurrence(haystack, needle, r),
    ensures
        r == Some(0usize),
{
    assert(occurs_at(haystack, needle, 0));
}

} // verus!
