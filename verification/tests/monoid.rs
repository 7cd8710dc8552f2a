use functional_rust::monoid::{fold_map, ModularSum, Monoid, Text};

#[test]
fn ordered_partitions_preserve_text_and_modular_summaries() {
    let input = [("a", u64::MAX), ("", 2), ("b", 3)];
    let summarize = |items: &[(&str, u64)]| -> (Text, ModularSum) {
        fold_map(items, |&(text, number)| {
            (Text(text.to_owned()), ModularSum(number))
        })
    };
    for split in 0..=input.len() {
        assert_eq!(
            summarize(&input[..split]).combine(summarize(&input[split..])),
            summarize(&input),
        );
    }
    assert_ne!(
        Text("a".into()).combine(Text("b".into())),
        Text("b".into()).combine(Text("a".into()))
    );
}

#[test]
fn checked_signed_and_floating_addition_have_regrouping_counterexamples() {
    let left = i8::MAX.checked_add(1).and_then(|sum| sum.checked_add(-1));
    let right = 1_i8
        .checked_add(-1)
        .and_then(|sum| i8::MAX.checked_add(sum));
    assert_eq!(left, None);
    assert_eq!(right, Some(i8::MAX));
    let (a, b, c) = (1e16_f64, -1e16_f64, 1.0_f64);
    assert_eq!((a + b) + c, 1.0);
    assert_eq!(a + (b + c), 0.0);
}

#[test]
fn product_summary_renders_text_and_wraps_the_sum() {
    let summary: (Text, ModularSum) = fold_map(&[("a", u64::MAX), ("b", 1)], |&(text, value)| {
        (Text(text.to_owned()), ModularSum(value))
    });
    assert_eq!(summary.0, Text(String::from("ab")));
    assert_eq!(summary.1, ModularSum(0));
}

#[test]
fn modular_sum_identity_and_associativity_on_samples() {
    let samples = [0, 1, u64::MAX].map(ModularSum);
    for a in samples {
        assert_eq!(ModularSum::empty().combine(a), a);
        assert_eq!(a.combine(ModularSum::empty()), a);
        for b in samples {
            for c in samples {
                assert_eq!(a.combine(b).combine(c), a.combine(b.combine(c)));
            }
        }
    }
}

#[test]
fn empty_input_folds_to_the_identity() {
    let summary: (Text, ModularSum) = fold_map(&[] as &[(&str, u64)], |&(text, value)| {
        (Text(text.to_owned()), ModularSum(value))
    });
    assert_eq!(summary, (Text(String::new()), ModularSum(0)));
}
