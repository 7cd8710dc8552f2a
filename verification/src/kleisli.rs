use vstd::prelude::*;
use crate::counts::{parse_u32, spec_u32_text};
use crate::nonzero::NonZero32;

verus! {

/// Mapping an optional value.
pub open spec fn option_map<A, B>(x: Option<A>, f: spec_fn(A) -> B) -> Option<B> {
    match x {
        Some(a) => Some(f(a)),
        None => None,
    }
}

/// Binding an optional value into a function that may return nothing.
pub open spec fn option_bind<A, B>(x: Option<A>, f: spec_fn(A) -> Option<B>) -> Option<B> {
    match x {
        Some(a) => f(a),
        None => None,
    }
}

/// Mapping the identity changes nothing; mapping twice maps the composition.
pub proof fn law_option_map<A, B, C>(x: Option<A>, f: spec_fn(A) -> B, g: spec_fn(B) -> C)
    ensures
        option_map(x, |a: A| a) == x,
        option_map(option_map(x, f), g) == option_map(x, |a: A| g(f(a))),
{
}

/// Binding into `Some` changes nothing, binding `Some(a)` applies the
/// function, and binding is associative.
pub proof fn law_option_bind<A, B, C>(
    x: Option<A>,
    a: A,
    f: spec_fn(A) -> Option<B>,
    g: spec_fn(B) -> Option<C>,
)
    ensures
        option_bind(x, |v: A| Some(v)) == x,
        option_bind(Some(a), f) == f(a),
        option_bind(option_bind(x, f), g) == option_bind(x, |v: A| option_bind(f(v), g)),
{
}

/// Flattening a nested optional value.
pub open spec fn option_flatten<A>(nested: Option<Option<A>>) -> Option<A> {
    match nested {
        Some(inner) => inner,
        None => None,
    }
}

/// Mapping is binding into `Some`, flattening is binding the identity, and
/// binding is mapping then flattening.
pub proof fn law_option_map_bind_flatten<A, B>(
    x: Option<A>,
    nested: Option<Option<A>>,
    f: spec_fn(A) -> B,
    g: spec_fn(A) -> Option<B>,
)
    ensures
        option_map(x, f) == option_bind(x, |a: A| Some(f(a))),
        option_flatten(nested) == option_bind(nested, |inner: Option<A>| inner),
        option_bind(x, g) == option_flatten(option_map(x, g)),
{
}

/// Even values increase by two when that fits in a `u8`; odd values give
/// nothing.
pub open spec fn spec_first_stage(value: u8) -> Option<u8> {
    if value % 2 == 0 && value + 2 <= u8::MAX {
        Some((value + 2) as u8)
    } else {
        None
    }
}

/// Triples a value when that fits in a `u8`.
pub open spec fn spec_second_stage(value: u8) -> Option<u8> {
    if value * 3 <= u8::MAX {
        Some((value * 3) as u8)
    } else {
        None
    }
}

/// The first stage of the optional pipeline.
pub fn first(value: u8) -> (result: Option<u8>)
    ensures
        result == spec_first_stage(value),
{
    if value % 2 == 0 {
        value.checked_add(2)
    } else {
        None
    }
}

/// The second stage of the optional pipeline.
pub fn second(value: u8) -> (result: Option<u8>)
    ensures
        result == spec_second_stage(value),
{
    value.checked_mul(3)
}

/// Why a value was rejected.
#[derive(Debug, Clone, Copy, PartialEq, Eq)]
pub enum ValueError {
    Parse,
    Zero,
}

/// Composition of two fallible stages: the second runs on the first's value,
/// and the first's error is returned unchanged.
pub open spec fn kleisli<A, B, C, E>(
    f: spec_fn(A) -> Result<B, E>,
    g: spec_fn(B) -> Result<C, E>,
) -> spec_fn(A) -> Result<C, E> {
    |a: A|
        match f(a) {
            Ok(b) => g(b),
            Err(e) => Err(e),
        }
}

/// Kleisli composition is associative, and `Ok` is its identity arrow.
pub proof fn law_kleisli<A, B, C, D, E>(
    f: spec_fn(A) -> Result<B, E>,
    g: spec_fn(B) -> Result<C, E>,
    h: spec_fn(C) -> Result<D, E>,
    a: A,
)
    ensures
        kleisli(kleisli(f, g), h)(a) == kleisli(f, kleisli(g, h))(a),
        kleisli(|x: A| Ok::<A, E>(x), f)(a) == f(a),
        kleisli(f, |x: B| Ok::<B, E>(x))(a) == f(a),
{
}

/// Composes two fallible stages into one: `first`, then `second` on its
/// value; an error of `first` is returned without running `second`.
pub fn chain_result<A, B, C, E, F: FnOnce(A) -> Result<B, E>, G: FnOnce(B) -> Result<C, E>>(
    first: F,
    second: G,
) -> (composed: impl FnOnce(A) -> Result<C, E>)
    requires
        forall|a: A| first.requires((a,)),
        forall|b: B| second.requires((b,)),
    ensures
        forall|a: A| composed.requires((a,)),
        forall|a: A, result: Result<C, E>|
            composed.ensures((a,), result) ==> exists|staged: Result<B, E>|
                first.ensures((a,), staged) && match staged {
                    Ok(b) => second.ensures((b,), result),
                    Err(e) => result == Err::<C, E>(e),
                },
{
    move |input: A| -> (result: Result<C, E>)
        requires
            first.requires((input,)),
            forall|b: B| second.requires((b,)),
        ensures
            exists|staged: Result<B, E>|
                first.ensures((input,), staged) && match staged {
                    Ok(b) => second.ensures((b,), result),
                    Err(e) => result == Err::<C, E>(e),
                },
        {
            let staged = first(input);
            match staged {
                Ok(b) => second(b),
                Err(e) => Err(e),
            }
        }
}

/// Parses a `u32` with the standard syntax; every failure is `Parse`.
pub fn parse_value(text: &str) -> (result: Result<u32, ValueError>)
    ensures
        match spec_u32_text(text@) {
            Some(value) => result == Ok::<u32, ValueError>(value),
            None => result == Err::<u32, ValueError>(ValueError::Parse),
        },
{
    match parse_u32(text) {
        Ok(value) => Ok(value),
        Err(_) => Err(ValueError::Parse),
    }
}

/// Accepts nonzero values; zero is `Zero`.
pub fn require_nonzero(value: u32) -> (result: Result<NonZero32, ValueError>)
    ensures
        match result {
            Ok(n) => value != 0 && n.spec_get() == value,
            Err(e) => value == 0 && e == ValueError::Zero,
        },
{
    match NonZero32::new(value) {
        Some(n) => Ok(n),
        None => Err(ValueError::Zero),
    }
}

} // verus!
