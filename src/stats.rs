//! Median and mode of a sample of integers.

use std::collections::{HashMap, HashSet};
use vstd::prelude::*;
use vstd::relations::{sorted_by, total_ordering};
use vstd::std_specs::hash::group_hash_axioms;
use vstd::seq_lib::{lemma_sorted_unique, lemma_seq_contains_after_push, group_to_multiset_ensures};

verus! {

broadcast use {group_to_multiset_ensures, lemma_seq_contains_after_push, group_hash_axioms};

/// The usual order on `i32`, as a relation for sorting.
pub open spec fn ascending() -> spec_fn(i32, i32) -> bool {
    |a: i32, b: i32| a <= b
}

/// The sample in ascending order.
pub open spec fn sorted_sample(s: Seq<i32>) -> Seq<i32> {
    s.sort_by(ascending())
}

/// How many times `x` occurs in the sample.
pub open spec fn count_of(s: Seq<i32>, x: i32) -> nat {
    s.to_multiset().count(x)
}

proof fn lemma_ascending_total()
    ensures
        total_ordering(ascending()),
{
}

/// The ascending copy of a sample is the only sorted arrangement of its values.
proof fn lemma_sorted_sample_unique(s: Seq<i32>, t: Seq<i32>)
    requires
        sorted_by(t, ascending()),
        t.to_multiset() == s.to_multiset(),
    ensures
        t == sorted_sample(s),
        t.len() == s.len(),
{
    lemma_ascending_total();
    s.lemma_sort_by_ensures(ascending());
    lemma_sorted_unique(t, sorted_sample(s), ascending());
    assert(t.len() == t.to_multiset().len());
    assert(s.len() == s.to_multiset().len());
}

/// A fresh vector holding the values of `s`, in the same order.
fn copy_of(s: &[i32]) -> (r: Vec<i32>)
    ensures
        r@ == s@,
{
    let mut r: Vec<i32> = Vec::new();
    let mut i: usize = 0;
    while i < s.len()
        invariant
            i <= s.len(),
            r@ == s@.subrange(0, i as int),
        decreases s.len() - i,
    {
        r.push(s[i]);
        i = i + 1;
    }
    assert(r@ =~= s@);
    r
}

/// Sorts `v` in place, in ascending order.
fn sort_ascending(v: &mut Vec<i32>)
    ensures
        final(v)@.to_multiset() == old(v)@.to_multiset(),
        sorted_by(final(v)@, ascending()),
{
    let n = v.len();
    if n == 0 {
        return;
    }
    let mut i: usize = 1;
    while i < n
        invariant
            1 <= i <= n,
            v.len() == n,
            v@.to_multiset() == old(v)@.to_multiset(),
            forall|a: int, b: int| 0 <= a < b < i ==> v[a] <= v[b],
        decreases n - i,
    {
        let mut j: usize = i;
        while j > 0 && v[j - 1] > v[j]
            invariant
                0 <= j <= i < n,
                v.len() == n,
                v@.to_multiset() == old(v)@.to_multiset(),
                forall|a: int, b: int| 0 <= a < b <= i && a != j && b != j ==> v[a] <= v[b],
                forall|k: int| j < k <= i ==> v[j as int] < v[k],
            decreases j,
        {
            let lo = v[j - 1];
            let hi = v[j];
            proof {
                let s0 = v@;
                let s1 = s0.update(j as int, lo);
                let s2 = s1.update(j - 1, hi);
                assert(s1.to_multiset() == s0.to_multiset().insert(lo).remove(hi));
                assert(s2.to_multiset() == s1.to_multiset().insert(hi).remove(lo));
                assert(s0.to_multiset().contains(hi));
                assert(s2.to_multiset() =~= s0.to_multiset());
            }
            v.set(j, lo);
            v.set(j - 1, hi);
            j = j - 1;
        }
        i = i + 1;
    }
}

/// The median of a sample, kept exact.
///
/// `Int(x)` is a median of `x`; `Half(d)` is a median of `d / 2`, the mean of
/// the two central values of an even-sized sample, whose sum is `d`.
#[derive(PartialEq, Eq, Structural, Debug, Clone, Copy)]
pub enum Median {
    Int(i32),
    Half(i64),
}

/// The median of a sample: the central value of its ascending arrangement
/// when it has odd size, the mean of the two central values otherwise, and
/// nothing when it is empty.
pub open spec fn median_of(s: Seq<i32>) -> Option<Median> {
    let t = sorted_sample(s);
    let n = s.len() as int;
    if n == 0 {
        None
    } else if n % 2 == 1 {
        Some(Median::Int(t[n / 2]))
    } else {
        Some(Median::Half((t[n / 2 - 1] + t[n / 2]) as i64))
    }
}

/// Returns the median of the sample, or `None` for an empty sample.
/// The caller's data is left as it is; the sorting is done on a copy.
pub fn median(vector_slice: &[i32]) -> (r: Option<Median>)
    ensures
        r == median_of(vector_slice@),
{
    let mut vector = copy_of(vector_slice);
    let length = vector.len();
    match length {
        0 => None,
        1 => {
            proof {
                lemma_sorted_sample_unique(vector_slice@, vector_slice@);
            }
            Some(Median::Int(vector[0]))
        },
        _ => compute_median(&mut vector, length),
    }
}

fn compute_median(vector: &mut Vec<i32>, length: usize) -> (r: Option<Median>)
    requires
        length == old(vector).len(),
        length >= 1,
    ensures
        r == median_of(old(vector)@),
        final(vector)@.to_multiset() == old(vector)@.to_multiset(),
        sorted_by(final(vector)@, ascending()),
{
    sort_ascending(vector);
    proof {
        lemma_sorted_sample_unique(old(vector)@, vector@);
    }
    let median = if length % 2 == 1 {
        Median::Int(vector[length / 2])
    } else {
        let a = vector[length / 2 - 1];
        let b = vector[length / 2];
        Median::Half(a as i64 + b as i64)
    };
    Some(median)
}

/// Reordering a sample never changes its median: two samples that hold the
/// same values, each as many times, have the same median.
pub proof fn lemma_median_ignores_order(s1: Seq<i32>, s2: Seq<i32>)
    requires
        s1.to_multiset() == s2.to_multiset(),
    ensures
        median_of(s1) == median_of(s2),
{
    lemma_ascending_total();
    s2.lemma_sort_by_ensures(ascending());
    lemma_sorted_sample_unique(s1, sorted_sample(s2));
    lemma_sorted_sample_unique(s2, sorted_sample(s2));
}

/// `x` occurs in the sample, and no value occurs more often.
pub open spec fn is_mode(s: Seq<i32>, x: i32) -> bool {
    count_of(s, x) > 0 && forall|y: i32| count_of(s, y) <= count_of(s, x)
}

/// Each value is smaller than the next: ascending, with no repeats.
pub open spec fn strictly_ascending(m: Seq<i32>) -> bool {
    forall|a: int, b: int| 0 <= a < b < m.len() ==> m[a] < m[b]
}

/// The modes of a sample: every most frequent value, once each, in
/// ascending order.
pub open spec fn are_modes(s: Seq<i32>, m: Seq<i32>) -> bool {
    &&& strictly_ascending(m)
    &&& forall|x: i32| m.contains(x) <==> is_mode(s, x)
}

/// A sample of a single value has that value as its median and as its only
/// mode.
pub proof fn lemma_single_value(x: i32)
    ensures
        median_of(seq![x]) == Some(Median::Int(x)),
        are_modes(seq![x], seq![x]),
{
    lemma_sorted_sample_unique(seq![x], seq![x]);
    assert(seq![x] =~= Seq::<i32>::empty().push(x));
    assert(seq![x].to_multiset() =~= vstd::multiset::Multiset::<i32>::empty().insert(x));
    assert forall|y: i32| seq![x].contains(y) <==> is_mode(seq![x], y) by {
        if y == x {
            assert(seq![x][0] == y);
        }
    }
}

/// Returns the modes of the sample in ascending order, or `None` for an
/// empty sample.
pub fn mode(vector_slice: &[i32]) -> (r: Option<Vec<i32>>)
    ensures
        vector_slice@.len() == 0 <==> r is None,
        r matches Some(m) ==> are_modes(vector_slice@, m@),
{
    let length = vector_slice.len();
    match length {
        0 => None,
        _ => compute_mode(vector_slice),
    }
}

fn compute_mode(vector: &[i32]) -> (r: Option<Vec<i32>>)
    ensures
        r is None <==> vector@.len() == 0,
        r matches Some(m) ==> are_modes(vector@, m@),
{
    let s = Ghost(vector@);
    let n = vector.len();
    if n == 0 {
        return None;
    }
    // How many times each value occurs.
    let mut num_to_count: HashMap<i32, usize> = HashMap::new();
    let mut i: usize = 0;
    while i < n
        invariant
            n == vector@.len(),
            s@ == vector@,
            i <= n,
            forall|x: i32|
                #[trigger] num_to_count@.contains_key(x) <==> count_of(
                    s@.subrange(0, i as int),
                    x,
                ) > 0,
            forall|x: i32|
                #[trigger] num_to_count@.contains_key(x) ==> num_to_count@[x] == count_of(
                    s@.subrange(0, i as int),
                    x,
                ),
        decreases n - i,
    {
        let x = vector[i];
        proof {
            assert(s@.subrange(0, i + 1) =~= s@.subrange(0, i as int).push(x));
            assert(s@.subrange(0, i as int).to_multiset().len() == i);
        }
        let c = match num_to_count.get(&x) {
            Some(c) => *c,
            None => 0,
        };
        num_to_count.insert(x, c + 1);
        i = i + 1;
    }
    assert(s@.subrange(0, n as int) =~= s@);
    // The largest number of occurrences of any value.
    let mut max_count: usize = 0;
    let ghost mut most: int = 0;
    let mut i: usize = 0;
    while i < n
        invariant
            n == vector@.len(),
            s@ == vector@,
            i <= n,
            forall|x: i32| #[trigger] num_to_count@.contains_key(x) <==> count_of(s@, x) > 0,
            forall|x: i32| #[trigger] num_to_count@.contains_key(x) ==> num_to_count@[x] == count_of(s@, x),
            forall|k: int| 0 <= k < i ==> count_of(s@, #[trigger] s@[k]) <= max_count,
            i == 0 ==> max_count == 0,
            i > 0 ==> 0 <= most < i && count_of(s@, s@[most]) == max_count,
        decreases n - i,
    {
        assert(s@.to_multiset().contains(s@[i as int]));
        let c = *num_to_count.get(&vector[i]).unwrap();
        if c > max_count {
            max_count = c;
            proof {
                most = i as int;
            }
        }
        i = i + 1;
    }
    proof {
        assert(count_of(s@, s@[most]) == max_count);
        assert forall|y: i32| count_of(s@, y) <= max_count by {
            if count_of(s@, y) > 0 {
                assert(s@.to_multiset().contains(y));
                let k = choose|k: int| 0 <= k < n && s@[k] == y;
                assert(count_of(s@, s@[k]) <= max_count);
            }
        }
    }
    // Every value that occurs that often, once each.
    let mut mode_set: HashSet<i32> = HashSet::new();
    let mut modes: Vec<i32> = Vec::new();
    let mut i: usize = 0;
    while i < n
        invariant
            n == vector@.len(),
            s@ == vector@,
            i <= n,
            forall|x: i32| #[trigger] num_to_count@.contains_key(x) <==> count_of(s@, x) > 0,
            forall|x: i32| #[trigger] num_to_count@.contains_key(x) ==> num_to_count@[x] == count_of(s@, x),
            forall|y: i32| count_of(s@, y) <= max_count,
            count_of(s@, s@[most]) == max_count,
            0 <= most < n,
            modes@.no_duplicates(),
            forall|x: i32| #[trigger] mode_set@.contains(x) <==> modes@.contains(x),
            forall|x: i32|
                #[trigger] modes@.contains(x) <==> (is_mode(s@, x) && s@.subrange(0, i as int).contains(x)),
        decreases n - i,
    {
        let x = vector[i];
        proof {
            assert(s@.subrange(0, i + 1) =~= s@.subrange(0, i as int).push(x));
            assert(s@.to_multiset().contains(s@[most]));
            assert(s@.to_multiset().contains(x));
        }
        let c = *num_to_count.get(&x).unwrap();
        assert(is_mode(s@, x) <==> c == max_count);
        let ghost before = modes@;
        let fresh = c == max_count && !mode_set.contains(&x);
        if fresh {
            mode_set.insert(x);
            modes.push(x);
        }
        proof {
            if fresh {
                assert(modes@ == before.push(x));
            } else {
                assert(modes@ == before);
            }
            assert forall|y: i32|
                modes@.contains(y) <==> (is_mode(s@, y) && s@.subrange(0, i + 1).contains(y)) by {
                assert(s@.subrange(0, i + 1).contains(y) <==> (s@.subrange(0, i as int).contains(y)
                    || y == x));
            }
        }
        i = i + 1;
    }
    assert(s@.subrange(0, n as int) =~= s@);
    let ghost found = modes@;
    proof {
        found.lemma_multiset_has_no_duplicates();
        assert forall|x: i32| found.contains(x) <==> is_mode(s@, x) by {
            assert(modes@.contains(x) <==> (is_mode(s@, x) && s@.subrange(0, n as int).contains(x)));
            if is_mode(s@, x) {
                assert(s@.to_multiset().contains(x));
            }
        }
    }
    sort_ascending(&mut modes);
    proof {
        assert forall|x: i32| #[trigger] modes@.contains(x) <==> found.contains(x) by {
            assert(modes@.to_multiset().count(x) == found.to_multiset().count(x));
        }
        assert forall|a: int, b: int| 0 <= a < b < modes@.len() implies modes@[a] < modes@[b] by {
            assert(ascending()(modes@[a], modes@[b]));
            if modes@[a] == modes@[b] {
                let x = modes@[a];
                assert(modes@.remove(a).contains(x)) by {
                    assert(modes@.remove(a)[b - 1] == x);
                }
                assert(modes@.to_multiset().count(x) >= 2) by {
                    assert(modes@.remove(a).to_multiset() == modes@.to_multiset().remove(x));
                    assert(modes@.remove(a).to_multiset().count(x) > 0);
                }
                assert(found.to_multiset().count(x) <= 1);
            }
        }
    }
    Some(modes)
}

} // verus!
