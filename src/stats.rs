use vstd::prelude::*;
use vstd::relations::{sorted_by, total_ordering};
use vstd::seq_lib::lemma_sorted_unique;

verus! {

broadcast use vstd::seq_lib::group_to_multiset_ensures;

/// Why a median and a mode could not be computed.
#[derive(Debug, Clone, Copy, PartialEq, Eq)]
pub enum SummaryError {
    /// The list holds no number.
    EmptyInput,
}

/// The ascending order on `i32`.
pub open spec fn ascending() -> spec_fn(i32, i32) -> bool {
    |a: i32, b: i32| a <= b
}

/// The numbers of `s` in ascending order.
pub open spec fn sorted_seq(s: Seq<i32>) -> Seq<i32> {
    s.sort_by(ascending())
}

/// How many times `x` occurs in `s`.
pub open spec fn occurrences(s: Seq<i32>, x: i32) -> nat {
    s.to_multiset().count(x)
}

/// `m` occurs in `s`, no value occurs more often, and every value that occurs
/// as often is at least `m`: ties go to the smallest value.
pub open spec fn is_mode(s: Seq<i32>, m: i32) -> bool {
    &&& s.contains(m)
    &&& forall|x: i32| #[trigger] occurrences(s, x) <= occurrences(s, m)
    &&& forall|x: i32| #[trigger] occurrences(s, x) == occurrences(s, m) ==> m <= x
}

/// The mode of a non-empty list.
pub open spec fn mode_of(s: Seq<i32>) -> i32 {
    choose|m: i32| is_mode(s, m)
}

/// Half of `x`, rounded toward zero.
pub open spec fn half_toward_zero(x: int) -> int {
    if x >= 0 {
        x / 2
    } else {
        -((-x) / 2)
    }
}

/// The median of a sorted non-empty list: the middle element when the length
/// is odd, else the mean of the two middle elements, rounded toward zero.
pub open spec fn median_of_sorted(t: Seq<i32>) -> int {
    let n = t.len() as int;
    if n % 2 == 1 {
        t[n / 2] as int
    } else {
        half_toward_zero(t[n / 2 - 1] + t[n / 2])
    }
}

/// Median and mode of a list, or the error for an empty one.
pub open spec fn summary_of(s: Seq<i32>) -> Result<(i32, i32), SummaryError> {
    if s.len() == 0 {
        Err(SummaryError::EmptyInput)
    } else {
        Ok((median_of_sorted(sorted_seq(s)) as i32, mode_of(s)))
    }
}

proof fn lemma_ascending_total()
    ensures
        total_ordering(ascending()),
{
}

/// The sorted form of a list is sorted and holds the same numbers.
proof fn lemma_sorted_seq(s: Seq<i32>)
    ensures
        sorted_by(sorted_seq(s), ascending()),
        sorted_seq(s).to_multiset() == s.to_multiset(),
        sorted_seq(s).len() == s.len(),
{
    s.lemma_sort_by_ensures(ascending());
    assert(sorted_seq(s).to_multiset().len() == s.to_multiset().len());
}

/// A sorted list with the numbers of `s` is the sorted form of `s`.
proof fn lemma_sorted_is_sorted_seq(s: Seq<i32>, t: Seq<i32>)
    requires
        sorted_by(t, ascending()),
        t.to_multiset() == s.to_multiset(),
    ensures
        t == sorted_seq(s),
{
    lemma_sorted_seq(s);
    lemma_ascending_total();
    lemma_sorted_unique(t, sorted_seq(s), ascending());
}

/// Relies on `slice::sort`: afterwards the vector holds the same numbers, in
/// ascending order.
#[verifier::external_body]
fn sort_ascending(v: &mut Vec<i32>)
    ensures
        sorted_by(final(v)@, ascending()),
        final(v)@.to_multiset() == old(v)@.to_multiset(),
{
    v.sort();
}

/// How many times `x` occurs in `v`.
fn count_of(v: &Vec<i32>, x: i32) -> (r: usize)
    ensures
        r == occurrences(v@, x),
{
    let mut count: usize = 0;
    let mut i: usize = 0;
    while i < v.len()
        invariant
            i <= v.len(),
            count <= i,
            count == occurrences(v@.subrange(0, i as int), x),
        decreases v.len() - i,
    {
        assert(v@.subrange(0, i + 1) == v@.subrange(0, i as int).push(v@[i as int]));
        if v[i] == x {
            count = count + 1;
        }
        i = i + 1;
    }
    assert(v@.subrange(0, v.len() as int) == v@);
    count
}

/// The most frequent number of a non-empty list, the smallest one among ties.
fn mode(v: &Vec<i32>) -> (m: i32)
    requires
        v.len() > 0,
    ensures
        is_mode(v@, m),
{
    let mut best = v[0];
    let mut best_count = count_of(v, v[0]);
    let mut i: usize = 1;
    while i < v.len()
        invariant
            1 <= i <= v.len(),
            v@.contains(best),
            best_count == occurrences(v@, best),
            forall|j: int|
                0 <= j < i ==> occurrences(v@, #[trigger] v@[j]) < best_count || (occurrences(
                    v@,
                    v@[j],
                ) == best_count && best <= v@[j]),
        decreases v.len() - i,
    {
        let c = count_of(v, v[i]);
        if c > best_count || (c == best_count && v[i] < best) {
            best = v[i];
            best_count = c;
        }
        i = i + 1;
    }
    proof {
        lemma_best_is_mode(v@, best);
    }
    best
}

/// The median of a sorted non-empty vector.
fn median_sorted(t: &Vec<i32>) -> (r: i32)
    requires
        t.len() > 0,
    ensures
        r as int == median_of_sorted(t@),
{
    let n = t.len();
    if n % 2 == 1 {
        t[n / 2]
    } else {
        let sum: i64 = t[n / 2 - 1] as i64 + t[n / 2] as i64;
        if sum >= 0 {
            (sum / 2) as i32
        } else {
            -((-sum) / 2) as i32
        }
    }
}

/// The median and the mode of a list of numbers.
///
/// The median is the middle element of the sorted list when its length is
/// odd, and the mean of the two middle elements, rounded toward zero, when it
/// is even. The mode is the most frequent number; among numbers that occur
/// equally often, the smallest. An empty list has neither.
pub fn exercise1(numbers: Vec<i32>) -> (r: Result<(i32, i32), SummaryError>)
    ensures
        r == summary_of(numbers@),
{
    if numbers.len() == 0 {
        return Err(SummaryError::EmptyInput);
    }
    let mut sorted = numbers;
    sort_ascending(&mut sorted);
    proof {
        lemma_sorted_is_sorted_seq(numbers@, sorted@);
        lemma_sorted_seq(numbers@);
    }
    let median = median_sorted(&sorted);
    let m = mode(&sorted);
    proof {
        assert(is_mode(numbers@, m)) by {
            assert forall|x: i32| #[trigger] occurrences(numbers@, x) == occurrences(sorted@, x) by {}
            assert(sorted@.contains(m));
            assert(occurrences(sorted@, m) > 0);
        }
        lemma_mode_unique(numbers@, m);
    }
    Ok((median, m))
}

/// An element of `s` that beats every element on count, or ties on count and
/// is no greater, is the mode of `s`.
proof fn lemma_best_is_mode(s: Seq<i32>, m: i32)
    requires
        s.contains(m),
        forall|j: int|
            0 <= j < s.len() ==> occurrences(s, #[trigger] s[j]) < occurrences(s, m) || (
            occurrences(s, s[j]) == occurrences(s, m) && m <= s[j]),
    ensures
        is_mode(s, m),
{
    vstd::seq_lib::to_multiset_contains(s, m);
    assert forall|x: i32| #[trigger] occurrences(s, x) <= occurrences(s, m) && (occurrences(
        s,
        x,
    ) == occurrences(s, m) ==> m <= x) by {
        vstd::seq_lib::to_multiset_contains(s, x);
        if occurrences(s, x) > 0 {
            let j = choose|j: int| 0 <= j < s.len() && s[j] == x;
            assert(occurrences(s, s[j]) == occurrences(s, x));
        }
    }
}

/// The element of `s[0..i]` that the scan for a mode keeps.
proof fn best_of_prefix(s: Seq<i32>, i: int) -> (m: i32)
    requires
        1 <= i <= s.len(),
    ensures
        s.contains(m),
        forall|j: int|
            0 <= j < i ==> occurrences(s, #[trigger] s[j]) < occurrences(s, m) || (occurrences(
                s,
                s[j],
            ) == occurrences(s, m) && m <= s[j]),
    decreases i,
{
    if i == 1 {
        s[0]
    } else {
        let p = best_of_prefix(s, i - 1);
        let x = s[i - 1];
        if occurrences(s, x) > occurrences(s, p) || (occurrences(s, x) == occurrences(s, p) && x
            < p) {
            x
        } else {
            p
        }
    }
}

/// A non-empty list has a mode.
proof fn lemma_mode_exists(s: Seq<i32>)
    requires
        s.len() > 0,
    ensures
        is_mode(s, mode_of(s)),
{
    let m = best_of_prefix(s, s.len() as int);
    lemma_best_is_mode(s, m);
}

/// A list has at most one mode, and `mode_of` names it.
proof fn lemma_mode_unique(s: Seq<i32>, m: i32)
    requires
        is_mode(s, m),
    ensures
        mode_of(s) == m,
{
    let c = mode_of(s);
    assert(is_mode(s, c));
    assert(occurrences(s, c) <= occurrences(s, m));
    assert(occurrences(s, m) <= occurrences(s, c));
    assert(m <= c && c <= m);
}

/// Reordering a list changes neither its median nor its mode: two lists that
/// hold the same numbers, each as often, have the same summary.
pub proof fn lemma_summary_ignores_order(a: Seq<i32>, b: Seq<i32>)
    requires
        a.to_multiset() == b.to_multiset(),
    ensures
        summary_of(a) == summary_of(b),
{
    vstd::seq_lib::to_multiset_len(a);
    vstd::seq_lib::to_multiset_len(b);
    if a.len() > 0 {
        lemma_sorted_seq(a);
        lemma_sorted_is_sorted_seq(b, sorted_seq(a));
        assert(forall|x: i32| #[trigger] occurrences(a, x) == occurrences(b, x));
        assert forall|m: i32| is_mode(a, m) implies is_mode(b, m) by {
            vstd::seq_lib::to_multiset_contains(a, m);
            vstd::seq_lib::to_multiset_contains(b, m);
            assert forall|x: i32| #[trigger] occurrences(b, x) <= occurrences(b, m) by {
                assert(occurrences(a, x) <= occurrences(a, m));
            }
            assert forall|x: i32| #[trigger] occurrences(b, x) == occurrences(b, m) implies m <= x by {
                assert(occurrences(a, x) == occurrences(b, x));
            }
        }
        lemma_mode_exists(a);
        lemma_mode_unique(b, mode_of(a));
    }
}

} // verus!
