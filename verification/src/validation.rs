use vstd::prelude::*;
use crate::digits::{all_digits, chars_of, decimal_at_most, decimal_value, digits_only};
use crate::nonzero::NonZero16;
use crate::text::{spec_trim, trim};

verus! {

/// A nonempty list of errors, in the order they were found.
#[derive(Debug, Clone, PartialEq, Eq)]
pub struct Errors<E> {
    pub first: E,
    pub rest: Vec<E>,
}

impl<E> View for Errors<E> {
    type V = Seq<E>;

    open spec fn view(&self) -> Seq<E> {
        seq![self.first] + self.rest@
    }
}

impl<E> Errors<E> {
    /// A single error.
    pub fn one(error: E) -> (errors: Self)
        ensures
            errors@ == seq![error],
    {
        Errors { first: error, rest: Vec::new() }
    }

    /// `self`'s errors followed by `other`'s.
    pub fn append(self, other: Self) -> (errors: Self)
        ensures
            errors@ == self@ + other@,
            errors.first == self.first,
    {
        let Errors { first, mut rest } = self;
        let Errors { first: other_first, rest: mut other_rest } = other;
        let ghost old_rest = rest@;
        let ghost tail = other_rest@;
        rest.push(other_first);
        rest.append(&mut other_rest);
        assert(seq![first] + rest@ =~= (seq![first] + old_rest) + (seq![other_first] + tail));
        Errors { first, rest }
    }
}

/// Either a valid value or every error found.
#[derive(Debug, Clone, PartialEq, Eq)]
pub enum Validation<T, E> {
    Valid(T),
    Invalid(Errors<E>),
}

/// What a validation denotes: its value, or its errors in order.
pub open spec fn outcome<T, E>(v: Validation<T, E>) -> Result<T, Seq<E>> {
    match v {
        Validation::Valid(value) => Ok(value),
        Validation::Invalid(errors) => Err(errors@),
    }
}

/// Mapping over outcomes: transforms a value and keeps errors.
pub open spec fn spec_map<A, B, E>(x: Result<A, Seq<E>>, f: spec_fn(A) -> B) -> Result<B, Seq<E>> {
    match x {
        Ok(a) => Ok(f(a)),
        Err(e) => Err(e),
    }
}

/// Independent combination of outcomes: both values combined, or the
/// errors of the left then of the right.
pub open spec fn spec_map2<A, B, C, E>(
    x: Result<A, Seq<E>>,
    y: Result<B, Seq<E>>,
    f: spec_fn(A, B) -> C,
) -> Result<C, Seq<E>> {
    match (x, y) {
        (Ok(a), Ok(b)) => Ok(f(a, b)),
        (Err(e1), Err(e2)) => Err(e1 + e2),
        (Err(e1), Ok(_)) => Err(e1),
        (Ok(_), Err(e2)) => Err(e2),
    }
}

/// The pair of two outcomes.
pub open spec fn spec_product<A, B, E>(x: Result<A, Seq<E>>, y: Result<B, Seq<E>>) -> Result<
    (A, B),
    Seq<E>,
> {
    spec_map2(x, y, |a: A, b: B| (a, b))
}

impl<T, E> Validation<T, E> {
    /// Transforms a valid value; errors pass through unchanged.
    pub fn map<U, F: FnOnce(T) -> U>(self, transform: F) -> (mapped: Validation<U, E>)
        requires
            self matches Validation::Valid(value) ==> transform.requires((value,)),
        ensures
            match self {
                Validation::Valid(value) => mapped matches Validation::Valid(u)
                    && transform.ensures((value,), u),
                Validation::Invalid(errors) => mapped == Validation::<U, E>::Invalid(errors),
            },
    {
        match self {
            Validation::Valid(value) => Validation::Valid(transform(value)),
            Validation::Invalid(errors) => Validation::Invalid(errors),
        }
    }

    /// Combines two independent validations: both values through `combine`,
    /// or every error, those of `self` first.
    pub fn map2<U, V, F: FnOnce(T, U) -> V>(self, other: Validation<U, E>, combine: F) -> (combined:
        Validation<V, E>)
        requires
            self matches Validation::Valid(a) ==> other matches Validation::Valid(b)
                ==> combine.requires((a, b)),
        ensures
            match (self, other) {
                (Validation::Valid(a), Validation::Valid(b)) => combined matches Validation::Valid(
                    c,
                ) && combine.ensures((a, b), c),
                (Validation::Invalid(e1), Validation::Invalid(e2)) => combined matches Validation::Invalid(
                    e,
                ) && e@ == e1@ + e2@,
                (Validation::Invalid(e1), Validation::Valid(_)) => combined
                    == Validation::<V, E>::Invalid(e1),
                (Validation::Valid(_), Validation::Invalid(e2)) => combined
                    == Validation::<V, E>::Invalid(e2),
            },
    {
        match (self, other) {
            (Validation::Valid(a), Validation::Valid(b)) => Validation::Valid(combine(a, b)),
            (Validation::Invalid(a), Validation::Invalid(b)) => Validation::Invalid(a.append(b)),
            (Validation::Invalid(errors), Validation::Valid(_)) => Validation::Invalid(errors),
            (Validation::Valid(_), Validation::Invalid(errors)) => Validation::Invalid(errors),
        }
    }
}

/// Combining with a valid unit on the left gives back the other outcome.
pub proof fn law_left_identity<A, E>(x: Result<A, Seq<E>>)
    ensures
        spec_map2(Ok::<(), Seq<E>>(()), x, |u: (), a: A| a) == x,
{
}

/// Combining with a valid unit on the right gives back the other outcome.
pub proof fn law_right_identity<A, E>(x: Result<A, Seq<E>>)
    ensures
        spec_map2(x, Ok::<(), Seq<E>>(()), |a: A, u: ()| a) == x,
{
}

/// Combining two valid outcomes applies the function.
pub proof fn law_combine_valid<A, B, C, E>(a: A, b: B, f: spec_fn(A, B) -> C)
    ensures
        spec_map2(Ok::<A, Seq<E>>(a), Ok::<B, Seq<E>>(b), f) == Ok::<C, Seq<E>>(f(a, b)),
{
}

/// Pairing is associative up to regrouping the tuple, and keeps the errors
/// of `x`, then `y`, then `z`.
pub proof fn law_associative<A, B, C, E>(
    x: Result<A, Seq<E>>,
    y: Result<B, Seq<E>>,
    z: Result<C, Seq<E>>,
)
    ensures
        spec_product(spec_product(x, y), z) == spec_map(
            spec_product(x, spec_product(y, z)),
            |t: (A, (B, C))| ((t.0, t.1.0), t.1.1),
        ),
{
    match (x, y, z) {
        (Err(e1), Err(e2), Err(e3)) => {
            assert((e1 + e2) + e3 =~= e1 + (e2 + e3));
        },
        _ => {},
    }
}

/// Pairing mapped outcomes is mapping the pair.
pub proof fn law_product_naturality<A, B, C, D, E>(
    x: Result<A, Seq<E>>,
    y: Result<B, Seq<E>>,
    f: spec_fn(A) -> C,
    g: spec_fn(B) -> D,
)
    ensures
        spec_product(spec_map(x, f), spec_map(y, g)) == spec_map(
            spec_product(x, y),
            |p: (A, B)| (f(p.0), g(p.1)),
        ),
{
}

/// Combining is pairing followed by mapping.
pub proof fn law_coherence<A, B, C, E>(x: Result<A, Seq<E>>, y: Result<B, Seq<E>>, f: spec_fn(A, B) -> C)
    ensures
        spec_map2(x, y, f) == spec_map(spec_product(x, y), |p: (A, B)| f(p.0, p.1)),
{
}

/// Mapping the identity changes nothing; mapping twice maps the
/// composition.
pub proof fn law_map_identity_and_composition<A, B, C, E>(
    x: Result<A, Seq<E>>,
    f: spec_fn(A) -> B,
    g: spec_fn(B) -> C,
)
    ensures
        spec_map(x, |a: A| a) == x,
        spec_map(spec_map(x, f), g) == spec_map(x, |a: A| g(f(a))),
{
}

/// The outcome of validating each input in order: every value when all are
/// valid, otherwise every error in input order.
pub open spec fn spec_traverse<U, E>(results: Seq<Result<U, Seq<E>>>) -> Result<Seq<U>, Seq<E>>
    decreases results.len(),
{
    if results.len() == 0 {
        Ok(Seq::empty())
    } else {
        spec_map2(
            spec_traverse(results.drop_last()),
            results.last(),
            |values: Seq<U>, value: U| values.push(value),
        )
    }
}

/// The errors of a sequence of outcomes, concatenated in order.
pub open spec fn all_errors<U, E>(results: Seq<Result<U, Seq<E>>>) -> Seq<E>
    decreases results.len(),
{
    if results.len() == 0 {
        Seq::empty()
    } else {
        all_errors(results.drop_last()) + match results.last() {
            Ok(_) => Seq::empty(),
            Err(e) => e,
        }
    }
}

/// Traversal fails exactly when some element fails, and then reports the
/// errors of every failing element in input order.
pub proof fn law_traverse_accumulates<U, E>(results: Seq<Result<U, Seq<E>>>)
    ensures
        (spec_traverse(results) is Ok) <==> (forall|i: int|
            0 <= i < results.len() ==> #[trigger] results[i] is Ok),
        spec_traverse(results) matches Err(errors) ==> errors == all_errors(results),
        spec_traverse(results) matches Ok(values) ==> values.len() == results.len() && forall|
            i: int,
        |
            0 <= i < results.len() ==> results[i] == Ok::<U, Seq<E>>(#[trigger] values[i]),
    decreases results.len(),
{
    if results.len() > 0 {
        let init = results.drop_last();
        law_traverse_accumulates(init);
        assert forall|i: int| 0 <= i < init.len() implies init[i] == results[i] by {}
        match (spec_traverse(init), results.last()) {
            (Err(e1), Ok(_)) => {
                assert(e1 + Seq::<E>::empty() =~= e1);
            },
            (Ok(vs), Err(e2)) => {
                assert(all_errors(init) =~= Seq::<E>::empty()) by {
                    lemma_no_errors(init);
                }
                assert(Seq::<E>::empty() + e2 =~= e2);
            },
            (Ok(vs), Ok(v)) => {
                assert(forall|i: int| 0 <= i < init.len() ==> results[i] == init[i]);
            },
            _ => {},
        }
    }
}

/// Traversing with a validation that always succeeds yields every mapped
/// value, in order.
pub proof fn law_traverse_of_valid<A, U, E>(inputs: Seq<A>, f: spec_fn(A) -> U)
    ensures
        spec_traverse(inputs.map_values(|a: A| Ok::<U, Seq<E>>(f(a)))) == Ok::<Seq<U>, Seq<E>>(
            inputs.map_values(f),
        ),
    decreases inputs.len(),
{
    if inputs.len() > 0 {
        let init = inputs.drop_last();
        let mapped = inputs.map_values(|a: A| Ok::<U, Seq<E>>(f(a)));
        law_traverse_of_valid::<A, U, E>(init, f);
        assert(mapped.drop_last() =~= init.map_values(|a: A| Ok::<U, Seq<E>>(f(a))));
        assert(mapped.last() == Ok::<U, Seq<E>>(f(inputs.last())));
        assert(init.map_values(f).push(f(inputs.last())) =~= inputs.map_values(f));
    } else {
        assert(inputs.map_values(f) =~= Seq::<U>::empty());
    }
}

proof fn lemma_no_errors<U, E>(results: Seq<Result<U, Seq<E>>>)
    requires
        forall|i: int| 0 <= i < results.len() ==> #[trigger] results[i] is Ok,
    ensures
        all_errors(results) == Seq::<E>::empty(),
    decreases results.len(),
{
    if results.len() > 0 {
        let init = results.drop_last();
        assert forall|i: int| 0 <= i < init.len() implies #[trigger] init[i] is Ok by {
            assert(init[i] == results[i]);
        }
        lemma_no_errors(init);
        assert(Seq::<E>::empty() + Seq::<E>::empty() =~= Seq::<E>::empty());
    }
}

/// The outcome of a validation of a vector, by the vector's view.
pub open spec fn vec_outcome<U, E>(v: Validation<Vec<U>, E>) -> Result<Seq<U>, Seq<E>> {
    match v {
        Validation::Valid(values) => Ok(values@),
        Validation::Invalid(errors) => Err(errors@),
    }
}

/// Validates every input in order, without stopping at a failure, and
/// combines the results: all values when every input is valid, otherwise
/// every error in input order.
pub fn traverse_validation<A, U, E, F: Fn(A) -> Validation<U, E>>(input: Vec<A>, validate: F) -> (all:
    Validation<Vec<U>, E>)
    requires
        forall|i: int| 0 <= i < input@.len() ==> validate.requires((#[trigger] input@[i],)),
    ensures
        exists|results: Seq<Validation<U, E>>|
            {
                &&& results.len() == input@.len()
                &&& forall|i: int|
                    0 <= i < input@.len() ==> validate.ensures(
                        (input@[i],),
                        #[trigger] results[i],
                    )
                &&& vec_outcome(all) == spec_traverse(results.map_values(|r| outcome(r)))
            },
{
    let ghost original = input@;
    let mut acc: Validation<Vec<U>, E> = Validation::Valid(Vec::new());
    let ghost mut results: Seq<Validation<U, E>> = Seq::empty();
    assert(results.map_values(|r| outcome(r)) =~= Seq::<Result<U, Seq<E>>>::empty());
    for item in it: input.into_iter()
        invariant
            it.seq() == original,
            results.len() == it.index(),
            forall|i: int| 0 <= i < original.len() ==> validate.requires((#[trigger] original[i],)),
            forall|i: int|
                0 <= i < results.len() ==> validate.ensures((original[i],), #[trigger] results[i]),
            vec_outcome(acc) == spec_traverse(results.map_values(|r| outcome(r))),
    {
        let validated = validate(item);
        let ghost next = results.push(validated);
        assert(next.map_values(|r| outcome(r)).drop_last() =~= results.map_values(|r| outcome(r)));
        let push_value = |values: Vec<U>, value: U| -> (pushed: Vec<U>)
            ensures
                pushed@ == values@.push(value),
            {
                let mut values = values;
                values.push(value);
                values
            };
        acc = acc.map2(validated, push_value);
        proof {
            results = next;
        }
    }
    acc
}

/// Validates a name: surrounding whitespace is trimmed, and a blank name
/// is rejected.
pub fn validate_name(text: &str) -> (result: Validation<String, &'static str>)
    ensures
        spec_trim(text@).len() == 0 ==> outcome(result) == Err::<String, Seq<&'static str>>(
            seq!["name must not be blank"],
        ),
        spec_trim(text@).len() > 0 ==> (result matches Validation::Valid(name) && name@
            == spec_trim(text@)),
{
    let trimmed = trim(text);
    if trimmed.unicode_len() == 0 {
        Validation::Invalid(Errors::one("name must not be blank"))
    } else {
        Validation::Valid(trimmed.to_owned())
    }
}

/// The digits of a `u16` text in the standard syntax: an optional `+`
/// followed by one or more ASCII digits.
pub open spec fn unsigned_digits(text: Seq<char>) -> Seq<char> {
    if text.len() > 0 && text[0] == '+' {
        text.drop_first()
    } else {
        text
    }
}

/// Whether a text is a nonzero `u16` in the standard syntax.
pub open spec fn is_nonzero_u16_text(text: Seq<char>) -> bool {
    let digits = unsigned_digits(text);
    digits.len() > 0 && all_digits(digits) && 0 < decimal_value(digits) <= u16::MAX
}

/// Validates a limit in the standard `NonZeroU16` syntax; any rejection is
/// reported as one field-level error.
pub fn validate_limit(text: &str) -> (result: Validation<NonZero16, &'static str>)
    ensures
        is_nonzero_u16_text(text@) ==> (result matches Validation::Valid(limit)
            && limit.spec_get() == decimal_value(unsigned_digits(text@))),
        !is_nonzero_u16_text(text@) ==> outcome(result) == Err::<NonZero16, Seq<&'static str>>(
            seq!["limit must be a nonzero u16"],
        ),
{
    let chars = chars_of(text);
    let start: usize = if chars.len() > 0 && chars[0] == '+' {
        1
    } else {
        0
    };
    assert(chars@.skip(start as int) =~= unsigned_digits(text@));
    if start == chars.len() || !digits_only(&chars, start) {
        return Validation::Invalid(Errors::one("limit must be a nonzero u16"));
    }
    match decimal_at_most(&chars, start, 0xffff) {
        None => Validation::Invalid(Errors::one("limit must be a nonzero u16")),
        Some(value) => match NonZero16::new(value as u16) {
            None => Validation::Invalid(Errors::one("limit must be a nonzero u16")),
            Some(limit) => Validation::Valid(limit),
        },
    }
}

} // verus!
