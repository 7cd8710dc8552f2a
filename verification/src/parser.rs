use vstd::prelude::*;
use vstd::utf8::encode_utf8;

verus! {

/// A parse failure: where it was detected, what was expected there, and
/// whether the grammar had committed, which forbids ordinary fallback.
#[derive(Debug, Clone, Copy, PartialEq, Eq)]
pub struct ParseError {
    pub offset: usize,
    pub expected: &'static str,
    pub committed: bool,
}

/// A parser: a function from a text's bytes and a byte offset into it to a
/// value and the offset after it, or a failure.
pub struct Parser<P>(pub P);

/// Whether `run`, called on `text` at `offset`, may return `result`.
pub open spec fn ran<A, P: Fn(&[u8], usize) -> Result<(A, usize), ParseError>>(
    run: &P,
    text: &[u8],
    offset: usize,
    result: Result<(A, usize), ParseError>,
) -> bool {
    run.ensures((text, offset), result)
}

/// A well-formed parse function: it accepts every offset within the text,
/// and a success ends at an offset between its start and the text's end.
pub open spec fn well_formed<A, P: Fn(&[u8], usize) -> Result<(A, usize), ParseError>>(
    run: &P,
) -> bool {
    &&& forall|text: &[u8], offset: usize|
        offset <= text.len() ==> #[trigger] run.requires((text, offset))
    &&& forall|text: &[u8], offset: usize, result: Result<(A, usize), ParseError>|
        offset <= text.len() && #[trigger] run.ensures((text, offset), result) ==> (
        result matches Ok((_, next)) ==> offset <= next <= text.len())
}

/// A function that accepts every argument.
pub open spec fn total<A, B, F: Fn(A) -> B>(f: &F) -> bool {
    forall|a: A| #[trigger] f.requires((a,))
}

/// Whether `f` may return `b` for `a`.
pub open spec fn gives<A, B, F: Fn(A) -> B>(f: &F, a: A, b: B) -> bool {
    f.ensures((a,), b)
}

/// The UTF-8 bytes of a token.
pub open spec fn token_bytes(token: &'static str) -> Seq<u8> {
    encode_utf8(token@)
}

/// A literal at `offset`: it matches when the text continues with the
/// token's bytes; a mismatch is reported at `offset` and is uncommitted.
pub open spec fn spec_literal(token: &'static str, text: Seq<u8>, offset: usize) -> Result<
    ((), usize),
    ParseError,
> {
    let t = token_bytes(token);
    if offset + t.len() <= text.len() && text.subrange(offset as int, offset + t.len()) == t {
        Ok(((), (offset + t.len()) as usize))
    } else {
        Err(ParseError { offset, expected: token, committed: false })
    }
}

/// Mapping: a success's value goes through `transform`; position and
/// failures are kept.
pub open spec fn map_step<A, B, F: Fn(A) -> B>(
    inner: Result<(A, usize), ParseError>,
    transform: &F,
    result: Result<(B, usize), ParseError>,
) -> bool {
    match inner {
        Ok((a, next)) => result matches Ok((b, after)) && after == next && gives(transform, a, b),
        Err(error) => result == Err::<(B, usize), ParseError>(error),
    }
}

/// The outcomes of a mapped parser.
pub open spec fn mapped<A, B, P: Fn(&[u8], usize) -> Result<(A, usize), ParseError>, F: Fn(A) -> B>(
    run: &P,
    transform: &F,
    text: &[u8],
    offset: usize,
    result: Result<(B, usize), ParseError>,
) -> bool {
    exists|inner: Result<(A, usize), ParseError>|
        ran(run, text, offset, inner) && map_step(inner, transform, result)
}

/// What parsing a whole text gives from the parse at offset 0: the value
/// when the parse ends at the end of the text; trailing input is an "end of
/// input" failure, committed when anything was consumed.
pub open spec fn whole_step<A>(inner: Result<(A, usize), ParseError>, length: nat, result: Result<
    A,
    ParseError,
>) -> bool {
    match inner {
        Ok((value, next)) => if next == length {
            result == Ok::<A, ParseError>(value)
        } else {
            result == Err::<A, ParseError>(
                ParseError { offset: next, expected: "end of input", committed: next > 0 },
            )
        },
        Err(error) => result == Err::<A, ParseError>(error),
    }
}

/// Sequencing: a failure of the second parser becomes committed when the
/// first parser consumed input.
pub open spec fn commit_if_consumed(error: ParseError, start: usize, mid: usize) -> ParseError {
    ParseError { committed: error.committed || mid > start, ..error }
}

/// A continuation that accepts every value and builds well-formed parsers.
pub open spec fn builds_parsers<A, B, Q: Fn(&[u8], usize) -> Result<(B, usize), ParseError>, F: Fn(
    A,
) -> Parser<Q>>(next: &F) -> bool {
    &&& total(next)
    &&& forall|a: A, second: Parser<Q>| #[trigger] gives(next, a, second) ==> well_formed(&second.0)
}

/// Sequencing after the first parser's outcome: its failure is the result;
/// its value chooses the second parser, which runs where the first stopped.
pub open spec fn then_step<A, B, Q: Fn(&[u8], usize) -> Result<(B, usize), ParseError>, F: Fn(
    A,
) -> Parser<Q>>(
    inner: Result<(A, usize), ParseError>,
    next: &F,
    text: &[u8],
    offset: usize,
    result: Result<(B, usize), ParseError>,
) -> bool {
    match inner {
        Err(error) => result == Err::<(B, usize), ParseError>(error),
        Ok((value, mid)) => exists|second: Parser<Q>, outcome: Result<(B, usize), ParseError>|
            gives(next, value, second) && ran(&second.0, text, mid, outcome) && match outcome {
                Ok(success) => result == Ok::<(B, usize), ParseError>(success),
                Err(error) => result == Err::<(B, usize), ParseError>(
                    commit_if_consumed(error, offset, mid),
                ),
            },
    }
}

/// The outcomes of a sequenced parser.
pub open spec fn sequenced<
    A,
    B,
    P: Fn(&[u8], usize) -> Result<(A, usize), ParseError>,
    Q: Fn(&[u8], usize) -> Result<(B, usize), ParseError>,
    F: Fn(A) -> Parser<Q>,
>(run: &P, next: &F, text: &[u8], offset: usize, result: Result<(B, usize), ParseError>) -> bool {
    exists|inner: Result<(A, usize), ParseError>|
        ran(run, text, offset, inner) && then_step(inner, next, text, offset, result)
}

/// Ordered choice between two failures: the farther diagnostic, the left
/// one on a tie, with the right failure's commitment.
pub open spec fn choose_failure(left: ParseError, right: ParseError) -> ParseError {
    let selected = if left.offset >= right.offset {
        left
    } else {
        right
    };
    ParseError { committed: right.committed, ..selected }
}

/// Ordered choice after the left parser's outcome: a success or a committed
/// failure decides; after an uncommitted failure the alternative runs at
/// the same offset.
pub open spec fn choice_step<A, Q: Fn(&[u8], usize) -> Result<(A, usize), ParseError>>(
    left: Result<(A, usize), ParseError>,
    alternative: &Q,
    text: &[u8],
    offset: usize,
    result: Result<(A, usize), ParseError>,
) -> bool {
    match left {
        Ok(success) => result == Ok::<(A, usize), ParseError>(success),
        Err(left_error) => if left_error.committed {
            result == Err::<(A, usize), ParseError>(left_error)
        } else {
            exists|right: Result<(A, usize), ParseError>|
                ran(alternative, text, offset, right) && match right {
                    Ok(success) => result == Ok::<(A, usize), ParseError>(success),
                    Err(right_error) => result == Err::<(A, usize), ParseError>(
                        choose_failure(left_error, right_error),
                    ),
                }
        },
    }
}

/// The outcomes of an ordered choice.
pub open spec fn chosen<
    A,
    P: Fn(&[u8], usize) -> Result<(A, usize), ParseError>,
    Q: Fn(&[u8], usize) -> Result<(A, usize), ParseError>,
>(run: &P, alternative: &Q, text: &[u8], offset: usize, result: Result<(A, usize), ParseError>) -> bool {
    exists|left: Result<(A, usize), ParseError>|
        ran(run, text, offset, left) && choice_step(left, alternative, text, offset, result)
}

/// `attempt`: successes are kept; a failure keeps its offset and expectation
/// and becomes uncommitted.
pub open spec fn attempt_step<A>(inner: Result<(A, usize), ParseError>, result: Result<
    (A, usize),
    ParseError,
>) -> bool {
    match inner {
        Ok(success) => result == Ok::<(A, usize), ParseError>(success),
        Err(error) => result == Err::<(A, usize), ParseError>(
            ParseError { committed: false, ..error },
        ),
    }
}

/// The outcomes of bounded repetition: up to `remaining` more items after
/// `done`. Each success must consume input; an uncommitted failure ends the
/// repetition with the items so far, a committed one fails it.
pub open spec fn repeated<A, P: Fn(&[u8], usize) -> Result<(A, usize), ParseError>>(
    run: &P,
    text: &[u8],
    offset: usize,
    remaining: nat,
    done: Seq<A>,
    result: Result<(Seq<A>, usize), ParseError>,
) -> bool
    decreases remaining,
{
    if remaining == 0 {
        result == Ok::<(Seq<A>, usize), ParseError>((done, offset))
    } else {
        exists|inner: Result<(A, usize), ParseError>|
            #[trigger] ran(run, text, offset, inner) && match inner {
                Ok((value, next)) => if next <= offset {
                    result == Err::<(Seq<A>, usize), ParseError>(
                        ParseError { offset, expected: "input progress", committed: true },
                    )
                } else {
                    repeated(run, text, next, (remaining - 1) as nat, done.push(value), result)
                },
                Err(error) => if !error.committed {
                    result == Ok::<(Seq<A>, usize), ParseError>((done, offset))
                } else {
                    result == Err::<(Seq<A>, usize), ParseError>(error)
                },
            }
    }
}

/// A repetition's result with its items by their sequence.
pub open spec fn item_sequence<A>(result: Result<(Vec<A>, usize), ParseError>) -> Result<
    (Seq<A>, usize),
    ParseError,
> {
    match result {
        Ok((items, next)) => Ok((items@, next)),
        Err(error) => Err(error),
    }
}

/// A parser that matches `token` exactly.
pub fn literal(token: &'static str) -> (parser: Parser<
    impl Fn(&[u8], usize) -> Result<((), usize), ParseError>,
>)
    ensures
        well_formed(&parser.0),
        forall|text: &[u8], offset: usize, result: Result<((), usize), ParseError>|
            offset <= text@.len() && #[trigger] ran(&parser.0, text, offset, result) ==> result
                == spec_literal(token, text@, offset),
{
    let parse = move |text: &[u8], offset| -> (result: Result<((), usize), ParseError>)
            requires
                text@.len() >= offset,
            ensures
                result == spec_literal(token, text@, offset),
            {
                let bytes = token.as_bytes();
                let width = bytes.len();
                let total = text.len();
                if literal_matches(bytes, text, offset) {
                    assert(offset + width <= total);
                    Ok(((), offset + width))
                } else {
                    Err(ParseError { offset, expected: token, committed: false })
                }
            };
    Parser(parse)
}

fn literal_matches(bytes: &[u8], text: &[u8], offset: usize) -> (matched: bool)
    requires
        offset <= text@.len(),
    ensures
        matched == (offset + bytes@.len() <= text@.len() && text@.subrange(
            offset as int,
            offset + bytes@.len(),
        ) == bytes@),
{
    if bytes.len() > text.len() - offset {
        return false;
    }
    let mut i: usize = 0;
    while i < bytes.len()
        invariant
            i <= bytes@.len(),
            offset + bytes@.len() <= text@.len(),
            text@.len() == text.len(),
            forall|j: int| 0 <= j < i ==> text@[offset + j] == bytes@[j],
        decreases bytes@.len() - i,
    {
        if text[offset + i] != bytes[i] {
            assert(text@.subrange(offset as int, offset + bytes@.len())[i as int] != bytes@[i as int]);
            return false;
        }
        i = i + 1;
    }
    assert(text@.subrange(offset as int, offset + bytes@.len()) =~= bytes@);
    true
}

impl<P> Parser<P> {
    /// A parser from its parse function.
    pub fn new(parse: P) -> (parser: Self)
        ensures
            parser.0 == parse,
    {
        Parser(parse)
    }

    /// Runs the parser on `text` from byte `offset`.
    pub fn run<A>(&self, text: &[u8], offset: usize) -> (result: Result<(A, usize), ParseError>) where
        P: Fn(&[u8], usize) -> Result<(A, usize), ParseError>,

        requires
            well_formed(&self.0),
            offset <= text@.len(),
        ensures
            ran(&self.0, text, offset, result),
            result matches Ok((_, next)) ==> offset <= next <= text@.len(),
    {
        (self.0)(text, offset)
    }

    /// Transforms a successful value; consumption and failures are kept.
    pub fn map<A, B, F: Fn(A) -> B>(self, transform: F) -> (parser: Parser<
        impl Fn(&[u8], usize) -> Result<(B, usize), ParseError>,
    >) where P: Fn(&[u8], usize) -> Result<(A, usize), ParseError>
        requires
            well_formed(&self.0),
            total(&transform),
        ensures
            well_formed(&parser.0),
            forall|text: &[u8], offset: usize, result: Result<(B, usize), ParseError>|
                #[trigger] ran(&parser.0, text, offset, result) ==> mapped(
                    &self.0,
                    &transform,
                    text,
                    offset,
                    result,
                ),
    {
        let run = self.0;
        let parse = move |text: &[u8], offset| -> (result: Result<(B, usize), ParseError>)
                requires
                    text@.len() >= offset,
                    well_formed(&run),
                    total(&transform),
                ensures
                    mapped(&run, &transform, text, offset, result),
                    result matches Ok((_, next)) ==> next >= offset && text@.len() >= next,
                {
                    let inner = run(text, offset);
                    assert(ran(&run, text, offset, inner));
                    match inner {
                        Ok((value, next)) => {
                            let result = Ok((transform(value), next));
                            assert(map_step(inner, &transform, result));
                            result
                        },
                        Err(error) => {
                            assert(map_step(inner, &transform, Err(error)));
                            Err(error)
                        },
                    }
                };
        Parser(parse)
    }

    /// Runs the parser that `next` builds from this parser's value where
    /// this parser stopped; its failure becomes committed when this parser
    /// consumed input.
    pub fn and_then<A, B, Q, F: Fn(A) -> Parser<Q>>(self, next: F) -> (parser: Parser<
        impl Fn(&[u8], usize) -> Result<(B, usize), ParseError>,
    >) where
        P: Fn(&[u8], usize) -> Result<(A, usize), ParseError>,
        Q: Fn(&[u8], usize) -> Result<(B, usize), ParseError>,

        requires
            well_formed(&self.0),
            builds_parsers(&next),
        ensures
            well_formed(&parser.0),
            forall|text: &[u8], offset: usize, result: Result<(B, usize), ParseError>|
                #[trigger] ran(&parser.0, text, offset, result) ==> sequenced(
                    &self.0,
                    &next,
                    text,
                    offset,
                    result,
                ),
    {
        let run = self.0;
        let parse = move |text: &[u8], offset| -> (result: Result<(B, usize), ParseError>)
            requires
                text@.len() >= offset,
                well_formed(&run),
                builds_parsers(&next),
            ensures
                sequenced(&run, &next, text, offset, result),
                result matches Ok((_, after)) ==> after >= offset && text@.len() >= after,
            {
                let inner = run(text, offset);
                assert(ran(&run, text, offset, inner));
                match inner {
                    Err(error) => {
                        assert(then_step(inner, &next, text, offset, Err::<(B, usize), ParseError>(error)));
                        Err(error)
                    },
                    Ok((value, mid)) => {
                        let ghost chosen_value = value;
                        let second = next(value);
                        assert(gives(&next, chosen_value, second));
                        let outcome = (second.0)(text, mid);
                        assert(ran(&second.0, text, mid, outcome));
                        match outcome {
                            Ok(success) => {
                                assert(then_step(inner, &next, text, offset, Ok::<(B, usize), ParseError>(success)));
                                Ok(success)
                            },
                            Err(error) => {
                                let committed = ParseError {
                                    committed: error.committed || mid > offset,
                                    ..error
                                };
                                assert(then_step(inner, &next, text, offset, Err::<(B, usize), ParseError>(committed)));
                                Err(committed)
                            },
                        }
                    },
                }
            };
        Parser(parse)
    }

    /// Ordered choice: this parser, then `alternative` at the same offset
    /// after an uncommitted failure of this parser.
    pub fn or<A, Q>(self, alternative: Parser<Q>) -> (parser: Parser<
        impl Fn(&[u8], usize) -> Result<(A, usize), ParseError>,
    >) where
        P: Fn(&[u8], usize) -> Result<(A, usize), ParseError>,
        Q: Fn(&[u8], usize) -> Result<(A, usize), ParseError>,

        requires
            well_formed(&self.0),
            well_formed(&alternative.0),
        ensures
            well_formed(&parser.0),
            forall|text: &[u8], offset: usize, result: Result<(A, usize), ParseError>|
                #[trigger] ran(&parser.0, text, offset, result) ==> chosen(
                    &self.0,
                    &alternative.0,
                    text,
                    offset,
                    result,
                ),
    {
        let run = self.0;
        let other = alternative.0;
        let parse = move |text: &[u8], offset| -> (result: Result<(A, usize), ParseError>)
            requires
                text@.len() >= offset,
                well_formed(&run),
                well_formed(&other),
            ensures
                chosen(&run, &other, text, offset, result),
                result matches Ok((_, after)) ==> after >= offset && text@.len() >= after,
            {
                let left = run(text, offset);
                assert(ran(&run, text, offset, left));
                match left {
                    Ok(success) => {
                        assert(choice_step(left, &other, text, offset, Ok::<(A, usize), ParseError>(success)));
                        Ok(success)
                    },
                    Err(left_error) => {
                        if left_error.committed {
                            assert(choice_step(left, &other, text, offset, Err::<(A, usize), ParseError>(left_error)));
                            Err(left_error)
                        } else {
                            let right = other(text, offset);
                            assert(ran(&other, text, offset, right));
                            match right {
                                Ok(success) => {
                                    assert(choice_step(left, &other, text, offset, Ok::<(A, usize), ParseError>(success)));
                                    Ok(success)
                                },
                                Err(right_error) => {
                                    let committed = right_error.committed;
                                    let selected = if left_error.offset >= right_error.offset {
                                        left_error
                                    } else {
                                        right_error
                                    };
                                    let failure = ParseError { committed, ..selected };
                                    assert(choice_step(left, &other, text, offset, Err::<(A, usize), ParseError>(failure)));
                                    Err(failure)
                                },
                            }
                        }
                    },
                }
            };
        Parser(parse)
    }

    /// Permits fallback after a failure of this parser, keeping its
    /// diagnostic.
    pub fn attempt<A>(self) -> (parser: Parser<impl Fn(&[u8], usize) -> Result<(A, usize), ParseError>>) where
        P: Fn(&[u8], usize) -> Result<(A, usize), ParseError>,

        requires
            well_formed(&self.0),
        ensures
            well_formed(&parser.0),
            forall|text: &[u8], offset: usize, result: Result<(A, usize), ParseError>|
                #[trigger] ran(&parser.0, text, offset, result) ==> exists|
                    inner: Result<(A, usize), ParseError>,
                | ran(&self.0, text, offset, inner) && attempt_step(inner, result),
    {
        let run = self.0;
        let parse = move |text: &[u8], offset| -> (result: Result<(A, usize), ParseError>)
            requires
                text@.len() >= offset,
                well_formed(&run),
            ensures
                exists|inner: Result<(A, usize), ParseError>|
                    ran(&run, text, offset, inner) && attempt_step(inner, result),
                result matches Ok((_, after)) ==> after >= offset && text@.len() >= after,
            {
                let inner = run(text, offset);
                assert(ran(&run, text, offset, inner));
                match inner {
                    Ok(success) => {
                        assert(attempt_step(inner, Ok::<(A, usize), ParseError>(success)));
                        Ok(success)
                    },
                    Err(error) => {
                        let failure = ParseError { committed: false, ..error };
                        assert(attempt_step(inner, Err::<(A, usize), ParseError>(failure)));
                        Err(failure)
                    },
                }
            };
        Parser(parse)
    }

    /// Up to `limit` successes of this parser, each of which must consume
    /// input.
    pub fn repeat_at_most<A>(self, limit: usize) -> (parser: Parser<
        impl Fn(&[u8], usize) -> Result<(Vec<A>, usize), ParseError>,
    >) where P: Fn(&[u8], usize) -> Result<(A, usize), ParseError>
        requires
            well_formed(&self.0),
        ensures
            well_formed(&parser.0),
            forall|text: &[u8], offset: usize, result: Result<(Vec<A>, usize), ParseError>|
                #[trigger] ran(&parser.0, text, offset, result) ==> repeated(
                    &self.0,
                    text,
                    offset,
                    limit as nat,
                    Seq::empty(),
                    item_sequence(result),
                ),
    {
        let run = self.0;
        let parse = move |text: &[u8], offset| -> (result: Result<(Vec<A>, usize), ParseError>)
            requires
                text@.len() >= offset,
                well_formed(&run),
            ensures
                repeated(&run, text, offset, limit as nat, Seq::empty(), item_sequence(result)),
                result matches Ok((_, after)) ==> after >= offset && text@.len() >= after,
            { repeat_from(&run, limit, text, offset) };
        Parser(parse)
    }

    /// Parses the whole of `text`; input left after the parse is a failure.
    pub fn parse_all<A>(&self, text: &str) -> (result: Result<A, ParseError>) where
        P: Fn(&[u8], usize) -> Result<(A, usize), ParseError>,

        requires
            well_formed(&self.0),
        ensures
            exists|bytes: &[u8], inner: Result<(A, usize), ParseError>|
                bytes@ == encode_utf8(text@) && ran(&self.0, bytes, 0, inner) && whole_step(
                    inner,
                    bytes@.len(),
                    result,
                ),
    {
        let bytes = text.as_bytes();
        let inner = (self.0)(bytes, 0);
        assert(ran(&self.0, bytes, 0, inner));
        match inner {
            Err(error) => {
                assert(whole_step(inner, bytes@.len(), Err::<A, ParseError>(error)));
                Err(error)
            },
            Ok((value, next)) => {
                if next == bytes.len() {
                    let result = Ok(value);
                    assert(whole_step(inner, bytes@.len(), result));
                    result
                } else {
                    let result = Err(
                        ParseError { offset: next, expected: "end of input", committed: next > 0 },
                    );
                    assert(whole_step(inner, bytes@.len(), result));
                    result
                }
            },
        }
    }
}

/// Mapping the identity keeps the outcome: with a transform that returns
/// its argument, a mapped parser's outcome is the inner parser's.
pub proof fn law_map_identity<A, F: Fn(A) -> A>(
    inner: Result<(A, usize), ParseError>,
    transform: F,
    result: Result<(A, usize), ParseError>,
)
    requires
        forall|a: A, b: A| #[trigger] gives(&transform, a, b) ==> b == a,
    ensures
        map_step(inner, &transform, result) ==> result == inner,
{
}

/// Mapping twice is mapping once with the composition: `h` gives exactly
/// what `g` gives on some value that `f` gives.
pub proof fn law_map_composition<A, B, C, F: Fn(A) -> B, G: Fn(B) -> C, H: Fn(A) -> C>(
    inner: Result<(A, usize), ParseError>,
    f: F,
    g: G,
    h: H,
    result: Result<(C, usize), ParseError>,
)
    requires
        forall|a: A, c: C|
            #[trigger] gives(&h, a, c) <==> exists|b: B| gives(&f, a, b) && gives(&g, b, c),
    ensures
        (exists|mid: Result<(B, usize), ParseError>|
            map_step(inner, &f, mid) && map_step(mid, &g, result)) <==> map_step(
            inner,
            &h,
            result,
        ),
{
    match inner {
        Ok((a, next)) => {
            if map_step(inner, &h, result) {
                let c = result->Ok_0.0;
                assert(gives(&h, a, c));
                let b = choose|b: B| gives(&f, a, b) && gives(&g, b, c);
                let mid = Ok::<(B, usize), ParseError>((b, next));
                assert(map_step(inner, &f, mid) && map_step(mid, &g, result));
            }
            if exists|mid: Result<(B, usize), ParseError>|
                map_step(inner, &f, mid) && map_step(mid, &g, result) {
                let mid = choose|mid: Result<(B, usize), ParseError>|
                    map_step(inner, &f, mid) && map_step(mid, &g, result);
                let b = mid->Ok_0.0;
                let c = result->Ok_0.0;
                assert(gives(&f, a, b) && gives(&g, b, c));
                assert(gives(&h, a, c));
            }
        },
        Err(error) => {
            let mid = Err::<(B, usize), ParseError>(error);
            if map_step(inner, &h, result) {
                assert(map_step(inner, &f, mid) && map_step(mid, &g, result));
            }
        },
    }
}

/// A repetition yields at most its limit of further items, each of which
/// consumed input, and never ends before it started.
pub proof fn law_repeat_is_bounded<A, P: Fn(&[u8], usize) -> Result<(A, usize), ParseError>>(
    run: &P,
    text: &[u8],
    offset: usize,
    remaining: nat,
    done: Seq<A>,
    result: Result<(Seq<A>, usize), ParseError>,
)
    requires
        well_formed(run),
        offset <= text.len(),
        repeated(run, text, offset, remaining, done, result),
    ensures
        result matches Ok((items, after)) ==> done.len() <= items.len() <= done.len() + remaining
            && offset <= after <= text.len() && (items.len() > done.len() ==> after > offset),
    decreases remaining,
{
    if remaining > 0 {
        let inner = choose|inner: Result<(A, usize), ParseError>|
            #[trigger] ran(run, text, offset, inner) && match inner {
                Ok((value, next)) => if next <= offset {
                    result == Err::<(Seq<A>, usize), ParseError>(
                        ParseError { offset, expected: "input progress", committed: true },
                    )
                } else {
                    repeated(run, text, next, (remaining - 1) as nat, done.push(value), result)
                },
                Err(error) => if !error.committed {
                    result == Ok::<(Seq<A>, usize), ParseError>((done, offset))
                } else {
                    result == Err::<(Seq<A>, usize), ParseError>(error)
                },
            };
        if let Ok((value, next)) = inner {
            if next > offset {
                law_repeat_is_bounded(run, text, next, (remaining - 1) as nat, done.push(value), result);
            }
        }
    }
}

/// When the item parser fails at the current offset, bounded repetition
/// with items still allowed fails with exactly that error if it is
/// committed, and otherwise succeeds with the items so far, ending at that
/// offset.
pub proof fn law_repeat_stops_at_item_failure<A, P: Fn(&[u8], usize) -> Result<(A, usize), ParseError>>(
    run: &P,
    text: &[u8],
    offset: usize,
    remaining: nat,
    done: Seq<A>,
    error: ParseError,
    result: Result<(Seq<A>, usize), ParseError>,
)
    requires
        remaining > 0,
        forall|inner: Result<(A, usize), ParseError>|
            #[trigger] ran(run, text, offset, inner) ==> inner == Err::<(A, usize), ParseError>(error),
        repeated(run, text, offset, remaining, done, result),
    ensures
        error.committed ==> result == Err::<(Seq<A>, usize), ParseError>(error),
        !error.committed ==> result == Ok::<(Seq<A>, usize), ParseError>((done, offset)),
{
    let inner = choose|inner: Result<(A, usize), ParseError>|
        #[trigger] ran(run, text, offset, inner) && match inner {
            Ok((value, next)) => if next <= offset {
                result == Err::<(Seq<A>, usize), ParseError>(
                    ParseError { offset, expected: "input progress", committed: true },
                )
            } else {
                repeated(run, text, next, (remaining - 1) as nat, done.push(value), result)
            },
            Err(error) => if !error.committed {
                result == Ok::<(Seq<A>, usize), ParseError>((done, offset))
            } else {
                result == Err::<(Seq<A>, usize), ParseError>(error)
            },
        };
    assert(inner == Err::<(A, usize), ParseError>(error));
}

/// Sequencing commits a failure of the second parser only when the first
/// parser consumed input: after a first parser that stopped where it
/// started, the second parser's failure is the result unchanged; after one
/// that advanced, it is the same failure, committed.
pub proof fn law_sequencing_commits_only_after_consumption<
    A,
    B,
    Q: Fn(&[u8], usize) -> Result<(B, usize), ParseError>,
    F: Fn(A) -> Parser<Q>,
>(
    value: A,
    mid: usize,
    next: &F,
    text: &[u8],
    offset: usize,
    error: ParseError,
    result: Result<(B, usize), ParseError>,
)
    requires
        offset <= mid,
        forall|second: Parser<Q>, outcome: Result<(B, usize), ParseError>|
            gives(next, value, second) && #[trigger] ran(&second.0, text, mid, outcome) ==> outcome
                == Err::<(B, usize), ParseError>(error),
        then_step(Ok::<(A, usize), ParseError>((value, mid)), next, text, offset, result),
    ensures
        mid == offset ==> result == Err::<(B, usize), ParseError>(error),
        mid > offset ==> result == Err::<(B, usize), ParseError>(
            ParseError { offset: error.offset, expected: error.expected, committed: true },
        ),
{
    let (second, outcome) = choose|second: Parser<Q>, outcome: Result<(B, usize), ParseError>|
        gives(next, value, second) && ran(&second.0, text, mid, outcome) && match outcome {
            Ok(success) => result == Ok::<(B, usize), ParseError>(success),
            Err(e) => result == Err::<(B, usize), ParseError>(commit_if_consumed(e, offset, mid)),
        };
    assert(outcome == Err::<(B, usize), ParseError>(error));
}

/// Runs `run` up to `limit` times from `offset`, each success starting where
/// the previous one stopped.
fn repeat_from<A, P: Fn(&[u8], usize) -> Result<(A, usize), ParseError>>(
    run: &P,
    limit: usize,
    text: &[u8],
    offset: usize,
) -> (result: Result<(Vec<A>, usize), ParseError>)
    requires
        well_formed(run),
        offset <= text@.len(),
    ensures
        repeated(run, text, offset, limit as nat, Seq::empty(), item_sequence(result)),
        result matches Ok((_, after)) ==> offset <= after <= text@.len(),
{
    let mut values: Vec<A> = Vec::new();
    let mut position = offset;
    let mut count: usize = 0;
    while count < limit
        invariant
            count <= limit,
            offset <= position <= text@.len(),
            well_formed(run),
            forall|r: Result<(Seq<A>, usize), ParseError>|
                #[trigger] repeated(run, text, position, (limit - count) as nat, values@, r)
                    ==> repeated(run, text, offset, limit as nat, Seq::empty(), r),
        decreases limit - count,
    {
        let inner = run(text, position);
        assert(ran(run, text, position, inner));
        let ghost remaining = (limit - count) as nat;
        match inner {
            Ok((value, next)) => {
                if next <= position {
                    let result = Err(
                        ParseError { offset: position, expected: "input progress", committed: true },
                    );
                    assert(repeated(run, text, position, remaining, values@, item_sequence(result)));
                    assert(repeated(run, text, offset, limit as nat, Seq::empty(), item_sequence(result)));
                    return result;
                }
                let ghost before = values@;
                let ghost item = value;
                values.push(value);
                assert forall|r: Result<(Seq<A>, usize), ParseError>|
                    #[trigger] repeated(run, text, next, (limit - (count + 1)) as nat, values@, r)
                        implies repeated(run, text, offset, limit as nat, Seq::empty(), r) by {
                    assert(values@ == before.push(item));
                    assert(repeated(run, text, position, remaining, before, r));
                }
                position = next;
            },
            Err(error) => {
                let result = if !error.committed {
                    Ok((values, position))
                } else {
                    Err(error)
                };
                assert(repeated(run, text, position, remaining, values@, item_sequence(result)));
                assert(repeated(run, text, offset, limit as nat, Seq::empty(), item_sequence(result)));
                return result;
            },
        }
        count = count + 1;
    }
    let result = Ok((values, position));
    assert(repeated(run, text, position, (limit - count) as nat, values@, item_sequence(result)));
    assert(repeated(run, text, offset, limit as nat, Seq::empty(), item_sequence(result)));
    result
}

} // verus!
