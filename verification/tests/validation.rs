use functional_rust::validation::{traverse_validation, Errors, Validation};

#[test]
fn applicative_identity_and_associativity_preserve_ordered_errors() {
    let cases = [
        Validation::Valid(3),
        Validation::Invalid(Errors::one("a")),
        Validation::Invalid(Errors::one("b")),
    ];
    for a in &cases {
        assert_eq!(Validation::Valid(()).map2(a.clone(), |(), value| value), *a);
        assert_eq!(a.clone().map2(Validation::Valid(()), |value, ()| value), *a);
        for b in &cases {
            for c in &cases {
                let left = a
                    .clone()
                    .map2(b.clone(), |x, y| (x, y))
                    .map2(c.clone(), |xy, z| (xy, z));
                let right = a
                    .clone()
                    .map2(b.clone().map2(c.clone(), |y, z| (y, z)), |x, yz| (x, yz))
                    .map(|(x, (y, z))| ((x, y), z));
                assert_eq!(left, right);
            }
        }
    }
}

#[test]
fn traversal_accumulates_every_error_in_input_order() {
    let result = traverse_validation(vec!["first", "second", "third"], |value| {
        Validation::<(), _>::Invalid(Errors::one(value))
    });
    assert_eq!(
        result,
        Validation::Invalid(Errors {
            first: "first",
            rest: vec!["second", "third"]
        })
    );
    assert_eq!(
        traverse_validation(Vec::<u8>::new(), Validation::<_, &str>::Valid),
        Validation::Valid(vec![])
    );
}

#[test]
fn fusing_validation_phases_can_change_the_first_error() {
    let first = |value| {
        if value == 2 {
            Err("first-phase")
        } else {
            Ok(value)
        }
    };
    let second = |value| {
        if value == 1 {
            Err("second-phase")
        } else {
            Ok(value)
        }
    };
    let phased: Result<Vec<_>, _> = [1, 2]
        .into_iter()
        .map(first)
        .collect::<Result<Vec<_>, _>>()
        .and_then(|values| values.into_iter().map(second).collect());
    let fused: Result<Vec<_>, _> = [1, 2]
        .into_iter()
        .map(|value| first(value).and_then(second))
        .collect();
    assert_eq!(phased, Err("first-phase"));
    assert_eq!(fused, Err("second-phase"));
}

fn validate_limit(text: &str) -> Validation<u16, &'static str> {
    match text.parse::<u16>() {
        Ok(value) if value != 0 => Validation::Valid(value),
        _ => Validation::Invalid(Errors::one("limit must be a nonzero u16")),
    }
}

#[test]
fn traversal_visits_every_input_and_keeps_both_errors() {
    let visited = std::cell::Cell::new(0);
    let batch = traverse_validation(vec!["0", "7", "invalid"], |text| {
        visited.set(visited.get() + 1);
        validate_limit(text)
    });
    assert_eq!(visited.get(), 3);
    match batch {
        Validation::Invalid(errors) => assert_eq!(errors.rest.len(), 1),
        Validation::Valid(_) => panic!("two invalid fields should have been reported"),
    }
    assert_eq!(
        traverse_validation(vec!["3", "4"], validate_limit),
        Validation::Valid(vec![3, 4])
    );
}

#[test]
fn combining_independent_failures_keeps_both_in_order() {
    let invalid: Validation<(u8, u8), &str> = Validation::Invalid(Errors::one("name"))
        .map2(Validation::Invalid(Errors::one("limit")), |a: u8, b: u8| (a, b));
    assert_eq!(
        invalid,
        Validation::Invalid(Errors {
            first: "name",
            rest: vec!["limit"],
        })
    );
    assert_eq!(
        Errors::one(1).append(Errors { first: 2, rest: vec![3] }),
        Errors { first: 1, rest: vec![2, 3] }
    );
}

#[test]
fn combining_is_pairing_then_mapping_and_valid_traversal_maps_every_input() {
    let cases = [
        Validation::Valid(4),
        Validation::Invalid(Errors::one("x")),
        Validation::Invalid(Errors::one("y")),
    ];
    for a in &cases {
        for b in &cases {
            let combined = a.clone().map2(b.clone(), |x, y| x * 10 + y);
            let paired = a
                .clone()
                .map2(b.clone(), |x, y| (x, y))
                .map(|(x, y)| x * 10 + y);
            assert_eq!(combined, paired);
        }
    }
    let doubled = traverse_validation(vec![1, 2, 3], |n: i32| Validation::<i32, &str>::Valid(n * 2));
    assert_eq!(doubled, Validation::Valid(vec![2, 4, 6]));
}
