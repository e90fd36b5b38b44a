//! Knuth–Morris–Pratt search for a contiguous run of items.

use vstd::laws_eq::{obeys_eq, obeys_eq_spec_properties};
use vstd::prelude::*;
use vstd::std_specs::cmp::PartialEqSpec;

verus! {

/// `a[ai..ai + len]` and `b[bi..bi + len]` are equal item by item.
pub open spec fn agree<T: PartialEq>(a: Seq<T>, ai: int, b: Seq<T>, bi: int, len: int) -> bool {
    forall|k: int| 0 <= k < len ==> #[trigger] a[ai + k].eq_spec(&b[bi + k])
}

/// `needle` occurs in `haystack` starting at position `p`.
pub open spec fn occurs_at<T: PartialEq>(haystack: Seq<T>, needle: Seq<T>, p: int) -> bool {
    &&& 0 <= p
    &&& p + needle.len() <= haystack.len()
    &&& agree(haystack, p, needle, 0, needle.len() as int)
}

/// `needle` occurs in `haystack` as a contiguous run.
pub open spec fn contains_run<T: PartialEq>(haystack: Seq<T>, needle: Seq<T>) -> bool {
    exists|p: int| occurs_at(haystack, needle, p)
}

/// `pattern[0..q]` ends with its own prefix of length `b`, and `b < q`.
pub open spec fn is_border<T: PartialEq>(pattern: Seq<T>, q: int, b: int) -> bool {
    &&& 0 <= b < q
    &&& agree(pattern, q - b, pattern, 0, b)
}

/// Each entry `t[i]` is the length of the longest proper border of `pattern[0..i + 1]`.
pub open spec fn is_failure_table<T: PartialEq>(pattern: Seq<T>, t: Seq<usize>) -> bool {
    &&& t.len() == pattern.len()
    &&& forall|i: int|
        0 <= i < pattern.len() ==> {
            &&& is_border(pattern, i + 1, #[trigger] t[i] as int)
            &&& forall|b: int| t[i] < b < i + 1 ==> !#[trigger] agree(pattern, i + 1 - b, pattern, 0, b)
        }
}

/// A run that agrees with the needle's prefix of length `j`, and a shorter run
/// ending at the same place that agrees with its prefix of length `m`, make
/// `m` a border of `needle[0..j]`.
proof fn lemma_border_between<T: PartialEq>(h: Seq<T>, n: Seq<T>, end: int, j: int, m: int)
    requires
        obeys_eq::<T>(),
        0 <= m < j <= n.len(),
        j <= end <= h.len(),
        agree(h, end - j, n, 0, j),
        agree(h, end - m, n, 0, m),
    ensures
        agree(n, j - m, n, 0, m),
{
    reveal(obeys_eq_spec_properties);
    assert forall|k: int| 0 <= k < m implies #[trigger] n[j - m + k].eq_spec(&n[0 + k]) by {
        let x = h[end - m + k];
        assert(h[end - j + (j - m + k)].eq_spec(&n[0 + (j - m + k)]));
        assert(h[end - m + k].eq_spec(&n[0 + k]));
        assert(n[j - m + k].eq_spec(&x));
    }
}

/// A border of `needle[0..j]` carries a run that agrees with `needle[0..j]`
/// over to a shorter one that agrees with `needle[0..b]`.
proof fn lemma_border_shift<T: PartialEq>(h: Seq<T>, n: Seq<T>, end: int, j: int, b: int)
    requires
        obeys_eq::<T>(),
        0 <= b < j <= n.len(),
        j <= end <= h.len(),
        agree(h, end - j, n, 0, j),
        agree(n, j - b, n, 0, b),
    ensures
        agree(h, end - b, n, 0, b),
{
    reveal(obeys_eq_spec_properties);
    assert forall|k: int| 0 <= k < b implies #[trigger] h[end - b + k].eq_spec(&n[0 + k]) by {
        assert(h[end - j + (j - b + k)].eq_spec(&n[0 + (j - b + k)]));
        assert(n[j - b + k].eq_spec(&n[0 + k]));
    }
}

/// A run agreeing with `needle[0..m]` ending at `end` agrees with
/// `needle[0..m - 1]` ending at `end - 1`.
proof fn lemma_agree_shorter<T: PartialEq>(h: Seq<T>, n: Seq<T>, end: int, m: int)
    requires
        1 <= m,
        agree(h, end - m, n, 0, m),
    ensures
        agree(h, (end - 1) - (m - 1), n, 0, m - 1),
        h[end - 1].eq_spec(&n[m - 1]),
{
    assert(h[end - m + (m - 1)].eq_spec(&n[0 + (m - 1)]));
    assert forall|k: int| 0 <= k < m - 1 implies #[trigger] h[(end - 1) - (m - 1) + k].eq_spec(
        &n[0 + k],
    ) by {
        assert(h[end - m + k].eq_spec(&n[0 + k]));
    }
}

/// A run agreeing with `needle[0..j]` ending at `end`, followed by an item
/// equal to `needle[j]`, agrees with `needle[0..j + 1]`.
proof fn lemma_agree_longer<T: PartialEq>(h: Seq<T>, n: Seq<T>, end: int, j: int)
    requires
        0 <= j < n.len(),
        j <= end < h.len(),
        agree(h, end - j, n, 0, j),
        h[end].eq_spec(&n[j]),
    ensures
        agree(h, (end + 1) - (j + 1), n, 0, j + 1),
{
    assert forall|k: int| 0 <= k < j + 1 implies #[trigger] h[(end + 1) - (j + 1) + k].eq_spec(
        &n[0 + k],
    ) by {
        if k < j {
            assert(h[end - j + k].eq_spec(&n[0 + k]));
        } else {
            assert(h[end - j + j] == h[end]);
        }
    }
}

/// The failure table of `pattern`: entry `i` is the length of the longest
/// proper prefix of `pattern[0..=i]` that is also a suffix of it.
pub fn kmp_table<T: PartialEq>(pattern: &[T]) -> (prefix: Vec<usize>)
    requires
        obeys_eq::<T>(),
    ensures
        is_failure_table(pattern@, prefix@),
{
    let ghost n = pattern@;
    let mut prefix: Vec<usize> = vec![0; pattern.len()];
    let mut j: usize = 0;
    if pattern.len() == 0 {
        return prefix;
    }
    assert(is_border(n, 1, 0));
    let mut i: usize = 1;
    while i < pattern.len()
        invariant
            obeys_eq::<T>(),
            n == pattern@,
            1 <= i <= pattern.len(),
            prefix.len() == pattern.len(),
            forall|k: int| i <= k < prefix.len() ==> prefix@[k] == 0,
            forall|k: int|
                0 <= k < i ==> {
                    &&& is_border(n, k + 1, #[trigger] prefix@[k] as int)
                    &&& forall|b: int|
                        prefix@[k] < b < k + 1 ==> !#[trigger] agree(n, k + 1 - b, n, 0, b)
                },
            is_border(n, i as int, j as int),
            forall|m: int| j < m < i ==> !#[trigger] agree(n, i - m, n, 0, m),
        decreases pattern.len() - i,
    {
        let ghost j0 = j;
        while j > 0 && pattern[i] != pattern[j]
            invariant
                obeys_eq::<T>(),
                n == pattern@,
                1 <= i < pattern.len(),
                prefix.len() == pattern.len(),
                forall|k: int|
                    0 <= k < i ==> {
                        &&& is_border(n, k + 1, #[trigger] prefix@[k] as int)
                        &&& forall|b: int|
                            prefix@[k] < b < k + 1 ==> !#[trigger] agree(n, k + 1 - b, n, 0, b)
                    },
                is_border(n, i as int, j as int),
                forall|m: int|
                    j < m < i && #[trigger] agree(n, i - m, n, 0, m) ==> !n[i as int].eq_spec(&n[m]),
            decreases j,
        {
            let ghost jj = j as int;
            let t = prefix[j - 1];
            proof {
                assert(is_border(n, jj, t as int));
                lemma_border_shift(n, n, i as int, jj, t as int);
                assert forall|m: int|
                    t < m < i && #[trigger] agree(n, i - m, n, 0, m) implies !n[i as int].eq_spec(&n[m]) by {
                    if m < jj {
                        lemma_border_between(n, n, i as int, jj, m);
                        assert(agree(n, jj - m, n, 0, m));
                    }
                }
            }
            j = t;
        }
        if pattern[i] == pattern[j] {
            proof {
                lemma_agree_longer(n, n, i as int, j as int);
                assert forall|m: int| j + 1 < m < i + 1 implies !#[trigger] agree(n, i + 1 - m, n, 0, m) by {
                    if agree(n, i + 1 - m, n, 0, m) {
                        lemma_agree_shorter(n, n, i + 1, m);
                    }
                }
            }
            j = j + 1;
            prefix.set(i, j);
        } else {
            proof {
                assert forall|m: int| 0 < m < i + 1 implies !#[trigger] agree(n, i + 1 - m, n, 0, m) by {
                    if agree(n, i + 1 - m, n, 0, m) {
                        lemma_agree_shorter(n, n, i + 1, m);
                    }
                }
            }
        }
        i = i + 1;
    }
    prefix
}

/// Whether `needle` occurs in `haystack` as a contiguous run; an empty needle
/// occurs everywhere.
pub fn kmp_search<T: PartialEq>(haystack: &[T], needle: &[T]) -> (found: bool)
    requires
        obeys_eq::<T>(),
    ensures
        found == contains_run(haystack@, needle@),
{
    let ghost h = haystack@;
    let ghost n = needle@;
    if needle.len() == 0 {
        assert(occurs_at(h, n, 0));
        return true;
    }
    let prefix_table = kmp_table(needle);
    let mut j: usize = 0;
    let mut i: usize = 0;
    while i < haystack.len()
        invariant
            obeys_eq::<T>(),
            h == haystack@,
            n == needle@,
            n.len() > 0,
            is_failure_table(n, prefix_table@),
            i <= h.len(),
            j < n.len(),
            j <= i,
            agree(h, i - j, n, 0, j as int),
            forall|m: int| j < m < n.len() && m <= i ==> !#[trigger] agree(h, i - m, n, 0, m),
            forall|p: int| 0 <= p && p + n.len() <= i ==> !#[trigger] occurs_at(h, n, p),
        decreases h.len() - i,
    {
        while j > 0 && haystack[i] != needle[j]
            invariant
                obeys_eq::<T>(),
                h == haystack@,
                n == needle@,
                is_failure_table(n, prefix_table@),
                i < h.len(),
                j < n.len(),
                j <= i,
                agree(h, i - j, n, 0, j as int),
                forall|m: int|
                    j < m < n.len() && m <= i && #[trigger] agree(h, i - m, n, 0, m) ==> !h[i as int].eq_spec(
                        &n[m],
                    ),
            decreases j,
        {
            let ghost jj = j as int;
            let t = prefix_table[j - 1];
            proof {
                assert(is_border(n, jj, t as int));
                lemma_border_shift(h, n, i as int, jj, t as int);
                assert forall|m: int|
                    t < m < n.len() && m <= i && #[trigger] agree(h, i - m, n, 0, m) implies !h[i as int].eq_spec(
                        &n[m],
                    ) by {
                    if m < jj {
                        lemma_border_between(h, n, i as int, jj, m);
                        assert(agree(n, jj - m, n, 0, m));
                    }
                }
            }
            j = t;
        }
        if haystack[i] == needle[j] {
            proof {
                lemma_agree_longer(h, n, i as int, j as int);
            }
            if j == needle.len() - 1 {
                assert(occurs_at(h, n, i - j));
                return true;
            }
            proof {
                assert forall|m: int| j + 1 < m < n.len() && m <= i + 1 implies !#[trigger] agree(
                    h,
                    i + 1 - m,
                    n,
                    0,
                    m,
                ) by {
                    if agree(h, i + 1 - m, n, 0, m) {
                        lemma_agree_shorter(h, n, i + 1, m);
                    }
                }
                assert forall|p: int| 0 <= p && p + n.len() <= i + 1 implies !#[trigger] occurs_at(h, n, p) by {
                    if p + n.len() == i + 1 && occurs_at(h, n, p) {
                        lemma_agree_shorter(h, n, i + 1, n.len() as int);
                    }
                }
            }
            j = j + 1;
        } else {
            proof {
                assert forall|m: int| 0 < m < n.len() && m <= i + 1 implies !#[trigger] agree(
                    h,
                    i + 1 - m,
                    n,
                    0,
                    m,
                ) by {
                    if agree(h, i + 1 - m, n, 0, m) {
                        lemma_agree_shorter(h, n, i + 1, m);
                    }
                }
                assert forall|p: int| 0 <= p && p + n.len() <= i + 1 implies !#[trigger] occurs_at(h, n, p) by {
                    if p + n.len() == i + 1 && occurs_at(h, n, p) {
                        lemma_agree_shorter(h, n, i + 1, n.len() as int);
                    }
                }
            }
        }
        i = i + 1;
    }
    assert forall|p: int| !occurs_at(h, n, p) by {
        if occurs_at(h, n, p) {
            assert(p + n.len() <= i);
        }
    }
    false
}

} // verus!
