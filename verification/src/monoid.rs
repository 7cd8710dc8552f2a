use vstd::prelude::*;
use vstd::string::StringExecFns;

verus! {

/// A monoid: an associative combination with a two-sided identity, stated
/// over the values' views. Implementations prove the laws.
pub trait Monoid: Sized + View {
    /// The identity's view.
    spec fn spec_empty() -> Self::V;

    /// The view of the combination of two values, by their views.
    spec fn spec_combine(left: Self::V, right: Self::V) -> Self::V;

    /// `empty` is a left and a right identity.
    proof fn lemma_identity(value: Self::V)
        ensures
            Self::spec_combine(Self::spec_empty(), value) == value,
            Self::spec_combine(value, Self::spec_empty()) == value,
    ;

    /// Combination is associative.
    proof fn lemma_associative(a: Self::V, b: Self::V, c: Self::V)
        ensures
            Self::spec_combine(Self::spec_combine(a, b), c) == Self::spec_combine(
                a,
                Self::spec_combine(b, c),
            ),
    ;

    /// The identity.
    fn empty() -> (identity: Self)
        ensures
            identity@ == Self::spec_empty(),
    ;

    /// Combines `self` then `other`, in that order.
    fn combine(self, other: Self) -> (combined: Self)
        ensures
            combined@ == Self::spec_combine(self@, other@),
    ;
}

/// A sum modulo 2^64: a checksum-like total, not an exact count.
#[derive(Debug, Clone, Copy, PartialEq, Eq)]
pub struct ModularSum(pub u64);

impl View for ModularSum {
    type V = u64;

    open spec fn view(&self) -> u64 {
        self.0
    }
}

/// Addition modulo 2^64.
pub open spec fn add_mod_2_64(a: u64, b: u64) -> u64 {
    if a + b > u64::MAX {
        (a + b - 0x1_0000_0000_0000_0000) as u64
    } else {
        (a + b) as u64
    }
}

impl Monoid for ModularSum {
    open spec fn spec_empty() -> u64 {
        0
    }

    open spec fn spec_combine(left: u64, right: u64) -> u64 {
        add_mod_2_64(left, right)
    }

    proof fn lemma_identity(value: u64) {
    }

    proof fn lemma_associative(a: u64, b: u64, c: u64) {
    }

    fn empty() -> (identity: Self) {
        ModularSum(0)
    }

    fn combine(self, other: Self) -> (combined: Self) {
        ModularSum(self.0.wrapping_add(other.0))
    }
}

/// Text under ordered concatenation.
#[derive(Debug, Clone, PartialEq, Eq)]
pub struct Text(pub String);

impl View for Text {
    type V = Seq<char>;

    open spec fn view(&self) -> Seq<char> {
        self.0@
    }
}

impl Monoid for Text {
    open spec fn spec_empty() -> Seq<char> {
        Seq::empty()
    }

    open spec fn spec_combine(left: Seq<char>, right: Seq<char>) -> Seq<char> {
        left + right
    }

    proof fn lemma_identity(value: Seq<char>) {
        assert(Seq::<char>::empty() + value =~= value);
        assert(value + Seq::<char>::empty() =~= value);
    }

    proof fn lemma_associative(a: Seq<char>, b: Seq<char>, c: Seq<char>) {
        assert((a + b) + c =~= a + (b + c));
    }

    fn empty() -> (identity: Self) {
        Text(String::new())
    }

    /// Appends `other` to the storage that `self` owns.
    fn combine(self, other: Self) -> (combined: Self) {
        let mut text = self.0;
        text.append(other.0.as_str());
        Text(text)
    }
}

/// The product of two monoids, combined componentwise.
impl<A: Monoid, B: Monoid> Monoid for (A, B) {
    open spec fn spec_empty() -> (A::V, B::V) {
        (A::spec_empty(), B::spec_empty())
    }

    open spec fn spec_combine(left: (A::V, B::V), right: (A::V, B::V)) -> (A::V, B::V) {
        (A::spec_combine(left.0, right.0), B::spec_combine(left.1, right.1))
    }

    proof fn lemma_identity(value: (A::V, B::V)) {
        A::lemma_identity(value.0);
        B::lemma_identity(value.1);
    }

    proof fn lemma_associative(a: (A::V, B::V), b: (A::V, B::V), c: (A::V, B::V)) {
        A::lemma_associative(a.0, b.0, c.0);
        B::lemma_associative(a.1, b.1, c.1);
    }

    fn empty() -> (identity: Self) {
        (A::empty(), B::empty())
    }

    fn combine(self, other: Self) -> (combined: Self) {
        let (a1, b1) = self;
        let (a2, b2) = other;
        (a1.combine(a2), b1.combine(b2))
    }
}

/// The left-to-right combination of a sequence of views, starting from the
/// identity.
pub open spec fn spec_fold<M: Monoid>(values: Seq<M::V>) -> M::V
    decreases values.len(),
{
    if values.len() == 0 {
        M::spec_empty()
    } else {
        M::spec_combine(spec_fold::<M>(values.drop_last()), values.last())
    }
}

/// The views of a sequence of monoid values.
pub open spec fn views<M: Monoid>(values: Seq<M>) -> Seq<M::V> {
    values.map_values(|m: M| m@)
}

/// Folding a concatenation combines the folds of its parts, in order; the
/// fold of the empty sequence is the identity.
pub proof fn law_fold_partition<M: Monoid>(xs: Seq<M::V>, ys: Seq<M::V>)
    ensures
        spec_fold::<M>(xs + ys) == M::spec_combine(spec_fold::<M>(xs), spec_fold::<M>(ys)),
        spec_fold::<M>(Seq::empty()) == M::spec_empty(),
    decreases ys.len(),
{
    if ys.len() == 0 {
        assert(xs + ys =~= xs);
        M::lemma_identity(spec_fold::<M>(xs));
    } else {
        let init = ys.drop_last();
        assert((xs + ys).drop_last() =~= xs + init);
        assert((xs + ys).last() == ys.last());
        law_fold_partition::<M>(xs, init);
        M::lemma_associative(spec_fold::<M>(xs), spec_fold::<M>(init), ys.last());
    }
}

/// Maps each input to a monoid value and combines the results in input
/// order, starting from the identity.
pub fn fold_map<T, M: Monoid, F: Fn(&T) -> M>(input: &[T], transform: F) -> (summary: M)
    requires
        forall|i: int| 0 <= i < input@.len() ==> transform.requires((&input@[i],)),
    ensures
        exists|results: Seq<M>|
            {
                &&& results.len() == input@.len()
                &&& forall|i: int|
                    0 <= i < input@.len() ==> transform.ensures((&input@[i],), #[trigger] results[i])
                &&& summary@ == spec_fold::<M>(views(results))
            },
{
    let mut summary = M::empty();
    let ghost mut results: Seq<M> = Seq::empty();
    let mut i: usize = 0;
    assert(views(results) =~= Seq::<M::V>::empty());
    while i < input.len()
        invariant
            i <= input@.len(),
            results.len() == i,
            forall|j: int| 0 <= j < input@.len() ==> transform.requires((&input@[j],)),
            forall|j: int| 0 <= j < i ==> transform.ensures((&input@[j],), #[trigger] results[j]),
            summary@ == spec_fold::<M>(views(results)),
        decreases input@.len() - i,
    {
        let item = transform(&input[i]);
        proof {
            let next = results.push(item);
            assert(views(next).drop_last() =~= views(results));
            assert(views(next).last() == item@);
            results = next;
        }
        summary = summary.combine(item);
        i = i + 1;
    }
    summary
}

} // verus!
