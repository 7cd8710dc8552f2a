use functional_rust::parser::{literal, ParseError, Parser};

fn branch(
    suffix: &'static str,
) -> Parser<impl Fn(&[u8], usize) -> Result<(&'static str, usize), ParseError>> {
    literal("a").and_then(move |_| literal(suffix).map(move |_| suffix))
}

#[test]
fn successful_left_choice_does_not_evaluate_the_alternative() {
    let alternative = Parser::new(|_: &[u8], _: usize| -> Result<((), usize), ParseError> {
        panic!("a successful left branch must suppress the alternative")
    });
    assert_eq!(literal("a").or(alternative).parse_all("a"), Ok(()));
}

#[test]
fn farther_diagnostics_keep_the_attempted_right_branches_commitment() {
    let left = literal("abc").and_then(|_| literal("x")).attempt();
    let right = literal("a").and_then(|_| literal("z"));
    let parser = left.or(right).or(literal("abc?"));
    assert_eq!(
        parser.parse_all("abc?"),
        Err(ParseError {
            offset: 3,
            expected: "x",
            committed: true
        }),
    );
}

#[test]
fn unicode_offsets_and_repetition_boundaries_are_explicit() {
    assert_eq!(
        literal("\u{03bb}")
            .and_then(|_| literal("!"))
            .parse_all("\u{03bb}?"),
        Err(ParseError {
            offset: 2,
            expected: "!",
            committed: true
        }),
    );
    assert_eq!(literal("a").repeat_at_most(0).parse_all(""), Ok(vec![]));
    assert_eq!(
        literal("").repeat_at_most(1).parse_all(""),
        Err(ParseError {
            offset: 0,
            expected: "input progress",
            committed: true
        }),
    );
    assert_eq!(
        literal("a")
            .repeat_at_most(1)
            .parse_all("aa")
            .unwrap_err()
            .offset,
        1,
    );
}

#[test]
fn mapping_transforms_values_and_committed_choice_stops_fallback() {
    assert_eq!(literal("record").map(|_| 7_u64).parse_all("record"), Ok(7));
    assert!(literal("record").parse_all("record!").is_err());
    assert!(branch("b").or(branch("c")).parse_all("ac").is_err());
    assert_eq!(branch("b").attempt().or(branch("c")).parse_all("ac"), Ok("c"));
}

#[test]
fn mapping_laws_hold_on_samples() {
    for text in ["", "ab", "abab", "abx"] {
        let plain = literal("ab").repeat_at_most(3).parse_all(text);
        let identity = literal("ab")
            .repeat_at_most(3)
            .map(|items: Vec<()>| items)
            .parse_all(text);
        assert_eq!(identity, plain);
        let twice = literal("ab")
            .repeat_at_most(3)
            .map(|items: Vec<()>| items.len())
            .map(|count: usize| count * 10)
            .parse_all(text);
        let once = literal("ab")
            .repeat_at_most(3)
            .map(|items: Vec<()>| items.len() * 10)
            .parse_all(text);
        assert_eq!(twice, once);
    }
}

#[test]
fn the_next_parser_depends_on_the_first_value() {
    let counted = literal("a")
        .repeat_at_most(2)
        .and_then(|items: Vec<()>| literal(if items.len() == 1 { "!" } else { "?" }));
    assert_eq!(counted.parse_all("a!"), Ok(()));
    assert_eq!(counted.parse_all("aa?"), Ok(()));
    assert_eq!(
        counted.parse_all("a?"),
        Err(ParseError {
            offset: 1,
            expected: "!",
            committed: true
        })
    );
}

#[test]
fn bounded_repetition_returns_the_prefix_up_to_the_limit() {
    let repeated = literal("λ").repeat_at_most(3);
    assert_eq!(repeated.parse_all("λλλ").unwrap().len(), 3);
    assert_eq!(
        repeated.parse_all("λλλλ"),
        Err(ParseError {
            offset: 6,
            expected: "end of input",
            committed: true
        })
    );
}

#[test]
fn literal_mismatch_is_uncommitted_at_its_start() {
    assert_eq!(
        literal("ab").parse_all("ax"),
        Err(ParseError {
            offset: 0,
            expected: "ab",
            committed: false
        })
    );
    assert_eq!(literal("a").run(b"ba", 1), Ok(((), 2)));
}

#[test]
fn trailing_input_after_nothing_consumed_is_uncommitted() {
    assert_eq!(
        literal("").parse_all("x"),
        Err(ParseError {
            offset: 0,
            expected: "end of input",
            committed: false
        })
    );
}

#[test]
fn choice_restarts_the_alternative_at_the_original_position() {
    let parser = literal("ab").or(literal("a").and_then(|_| literal("c")));
    assert_eq!(parser.parse_all("ac"), Ok(()));
    // Ties prefer the left diagnostic but take the right commitment.
    let tie = literal("x").or(literal("y"));
    assert_eq!(
        tie.parse_all("z"),
        Err(ParseError {
            offset: 0,
            expected: "x",
            committed: false
        })
    );
}

#[test]
fn custom_parsers_take_part_in_the_combinators() {
    let digit = Parser::new(|text: &[u8], offset: usize| -> Result<(u8, usize), ParseError> {
        match text.get(offset) {
            Some(byte) if byte.is_ascii_digit() => Ok((byte - b'0', offset + 1)),
            _ => Err(ParseError {
                offset,
                expected: "digit",
                committed: false,
            }),
        }
    });
    let digits = digit.repeat_at_most(4).map(|values: Vec<u8>| {
        values.iter().fold(0_u32, |total, value| total * 10 + u32::from(*value))
    });
    assert_eq!(digits.parse_all("0427"), Ok(427));
    assert_eq!(digits.parse_all(""), Ok(0));
    assert_eq!(
        digits.parse_all("12x"),
        Err(ParseError {
            offset: 2,
            expected: "end of input",
            committed: true
        })
    );
}
