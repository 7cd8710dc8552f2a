use std::collections::BTreeMap;
use vstd::prelude::*;
use vstd::relations::{sorted_by, total_ordering};

verus! {

broadcast use vstd::laws_cmp::group_laws_cmp;

/// Each element is at most the next one.
pub open spec fn non_decreasing(values: Seq<i16>) -> bool {
    forall|i: int, j: int| 0 <= i < j < values.len() ==> #[trigger] values[i] <= #[trigger] values[j]
}

/// `counts` maps exactly the values that occur in `values` to the number of
/// their occurrences.
pub open spec fn is_histogram(counts: Map<i16, usize>, values: Seq<i16>) -> bool {
    &&& forall|v: i16| #[trigger] counts.contains_key(v) <==> values.to_multiset().count(v) > 0
    &&& forall|v: i16| #[trigger] counts.contains_key(v) ==> counts[v] == values.to_multiset().count(v)
}

/// Two sequences with the same elements, counted with multiplicity, have
/// the same histogram.
pub proof fn lemma_histogram_unique(
    first: Map<i16, usize>,
    first_values: Seq<i16>,
    second: Map<i16, usize>,
    second_values: Seq<i16>,
)
    requires
        is_histogram(first, first_values),
        is_histogram(second, second_values),
        first_values.to_multiset() == second_values.to_multiset(),
    ensures
        first == second,
{
    assert forall|v: i16| #[trigger] first.contains_key(v) <==> second.contains_key(v) by {
        assert(first.contains_key(v) <==> first_values.to_multiset().count(v) > 0);
        assert(second.contains_key(v) <==> second_values.to_multiset().count(v) > 0);
    }
    assert forall|v: i16| first.contains_key(v) implies #[trigger] first[v] == second[v] by {
        assert(second.contains_key(v));
    }
    assert(first =~= second);
}

/// `std::cmp::PartialEq::eq` on two histograms: two maps are equal when they
/// hold the same keys with the same values.
#[verifier::external_body]
fn histograms_equal(first: &BTreeMap<i16, usize>, second: &BTreeMap<i16, usize>) -> (equal: bool)
    ensures
        equal == (first@ == second@),
{
    first == second
}

/// `slice::sort_unstable` on a vector of `i16`: afterwards the elements
/// are in ascending order and are the same elements, counted with
/// multiplicity.
#[verifier::external_body]
fn sort_ascending(values: &mut Vec<i16>)
    ensures
        non_decreasing(final(values)@),
        final(values)@.to_multiset() == old(values)@.to_multiset(),
{
    values.sort_unstable();
}

/// Counts how often each value occurs.
pub fn histogram(values: &[i16]) -> (counts: BTreeMap<i16, usize>)
    ensures
        is_histogram(counts@, values@),
{
    let mut counts: BTreeMap<i16, usize> = BTreeMap::new();
    let mut i: usize = 0;
    proof {
        values@.take(0).to_multiset_ensures();
    }
    while i < values.len()
        invariant
            i <= values@.len(),
            is_histogram(counts@, values@.take(i as int)),
        decreases values@.len() - i,
    {
        let value = values[i];
        let ghost done = values@.take(i as int);
        assert(values@.take(i + 1) =~= done.push(value));
        proof {
            done.to_multiset_ensures();
        }
        assert(done.to_multiset().count(value) <= done.len()) by {
            vstd::multiset::axiom_count_le_len(done.to_multiset(), value);
        }
        assert(done.push(value).to_multiset() =~= done.to_multiset().insert(value));
        let current: usize = match counts.get(&value) {
            Some(count) => *count,
            None => 0,
        };
        counts.insert(value, current + 1);
        i = i + 1;
    }
    assert(values@.take(values@.len() as int) =~= values@);
    counts
}

/// Whether two sequences hold the same elements in the same order.
fn same_values(first: &Vec<i16>, second: &Vec<i16>) -> (same: bool)
    ensures
        same == (first@ == second@),
{
    if first.len() != second.len() {
        return false;
    }
    let mut i: usize = 0;
    while i < first.len()
        invariant
            i <= first@.len() == second@.len(),
            first@.take(i as int) == second@.take(i as int),
        decreases first@.len() - i,
    {
        if first[i] != second[i] {
            return false;
        }
        assert(first@.take(i + 1) =~= first@.take(i as int).push(first@[i as int]));
        assert(second@.take(i + 1) =~= second@.take(i as int).push(second@[i as int]));
        i = i + 1;
    }
    assert(first@ =~= first@.take(i as int));
    assert(second@ =~= second@.take(i as int));
    true
}

/// Whether each element is at most the next one.
fn is_non_decreasing(values: &Vec<i16>) -> (ordered: bool)
    ensures
        ordered == non_decreasing(values@),
{
    let mut i: usize = 1;
    while i < values.len()
        invariant
            1 <= i,
            forall|a: int, b: int| 0 <= a < b < i && b < values@.len() ==> #[trigger] values@[a] <= #[trigger] values@[b],
        decreases values@.len() - i,
    {
        if values[i - 1] > values[i] {
            return false;
        }
        i = i + 1;
    }
    true
}

/// A non-decreasing sequence is sorted by the total order `<=`.
proof fn lemma_sorted_by_le(values: Seq<i16>)
    requires
        non_decreasing(values),
    ensures
        total_ordering(|a: i16, b: i16| a <= b),
        sorted_by(values, |a: i16, b: i16| a <= b),
{
    assert forall|i: int, j: int| 0 <= i < j < values.len() implies (|a: i16, b: i16| a <= b)(values[i], values[j]) by {
        assert(values[i] <= values[j]);
    }
}

/// Checks a sorted copy of `input`: it is in ascending order, it has the
/// histogram of the input, and sorting it again changes nothing. The check
/// passes on every input.
pub fn sorting_property(input: &[i16]) -> (holds: bool)
    ensures
        holds,
{
    let mut sorted: Vec<i16> = Vec::new();
    let mut i: usize = 0;
    while i < input.len()
        invariant
            i <= input@.len(),
            sorted@ == input@.take(i as int),
        decreases input@.len() - i,
    {
        sorted.push(input[i]);
        assert(input@.take(i + 1) =~= input@.take(i as int).push(input@[i as int]));
        i = i + 1;
    }
    assert(sorted@ =~= input@);
    sort_ascending(&mut sorted);
    let mut sorted_twice: Vec<i16> = Vec::new();
    let mut k: usize = 0;
    while k < sorted.len()
        invariant
            k <= sorted@.len(),
            sorted_twice@ == sorted@.take(k as int),
        decreases sorted@.len() - k,
    {
        sorted_twice.push(sorted[k]);
        assert(sorted@.take(k + 1) =~= sorted@.take(k as int).push(sorted@[k as int]));
        k = k + 1;
    }
    assert(sorted_twice@ =~= sorted@);
    sort_ascending(&mut sorted_twice);
    let input_counts = histogram(input);
    let sorted_counts = histogram(sorted.as_slice());
    proof {
        lemma_histogram_unique(input_counts@, input@, sorted_counts@, sorted@);
        lemma_sorted_by_le(sorted@);
        lemma_sorted_by_le(sorted_twice@);
        vstd::seq_lib::lemma_sorted_unique(sorted@, sorted_twice@, |a: i16, b: i16| a <= b);
    }
    is_non_decreasing(&sorted) && histograms_equal(&input_counts, &sorted_counts) && same_values(&sorted, &sorted_twice)
}

} // verus!
