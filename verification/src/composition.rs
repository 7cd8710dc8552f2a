use vstd::prelude::*;
use vstd::string::StringExecFns;

verus! {

/// One-shot composition: applies `first`, then `second` to its result.
pub fn then<A, B, C, F: FnOnce(A) -> B, G: FnOnce(B) -> C>(first: F, second: G) -> (composed:
    impl FnOnce(A) -> C)
    requires
        forall|a: A| first.requires((a,)),
        forall|a: A, b: B| first.ensures((a,), b) ==> second.requires((b,)),
    ensures
        forall|a: A| composed.requires((a,)),
        forall|a: A, c: C|
            composed.ensures((a,), c) ==> exists|b: B| first.ensures((a,), b) && second.ensures(
                (b,),
                c,
            ),
{
    move |value: A| -> (c: C)
        requires
            first.requires((value,)),
            forall|b: B| first.ensures((value,), b) ==> second.requires((b,)),
        ensures
            exists|b: B| first.ensures((value,), b) && second.ensures((b,), c),
        {
            let b = first(value);
            second(b)
        }
}

/// A reusable function that puts `prefix` in front of its argument.
pub fn prefixed(prefix: String) -> (label: impl Fn(&str) -> String)
    ensures
        forall|suffix: &str| label.requires((suffix,)),
        forall|suffix: &str, text: String| label.ensures((suffix,), text) ==> text@ == prefix@ + suffix@,
{
    move |suffix: &str| -> (text: String)
        ensures
            text@ == prefix@ + suffix@,
        {
            let mut text = prefix.clone();
            text.append(suffix);
            text
        }
}

/// The position of the first value that satisfies `predicate`, consulting
/// the values in order and stopping at the first match.
pub fn first_position<T, P: Fn(&T) -> bool>(values: &[T], predicate: P) -> (position: Option<usize>)
    requires
        forall|i: int| 0 <= i < values@.len() ==> predicate.requires((&values@[i],)),
    ensures
        match position {
            Some(i) => i < values@.len() && predicate.ensures((&values@[i as int],), true) && forall|
                j: int,
            |
                0 <= j < i ==> predicate.ensures((&values@[j],), false),
            None => forall|j: int| 0 <= j < values@.len() ==> predicate.ensures((&values@[j],), false),
        },
{
    let mut i: usize = 0;
    while i < values.len()
        invariant
            i <= values@.len(),
            forall|j: int| 0 <= j < values@.len() ==> predicate.requires((&values@[j],)),
            forall|j: int| 0 <= j < i ==> predicate.ensures((&values@[j],), false),
        decreases values@.len() - i,
    {
        if predicate(&values[i]) {
            return Some(i);
        }
        i = i + 1;
    }
    None
}

/// Evaluates only the selected branch: `yes` when `condition` holds,
/// otherwise `no`.
pub fn choose_branch<T, Y: FnOnce() -> T, N: FnOnce() -> T>(condition: bool, yes: Y, no: N) -> (chosen: T)
    requires
        condition ==> yes.requires(()),
        !condition ==> no.requires(()),
    ensures
        condition ==> yes.ensures((), chosen),
        !condition ==> no.ensures((), chosen),
{
    if condition {
        yes()
    } else {
        no()
    }
}

} // verus!
