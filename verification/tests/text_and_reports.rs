use functional_rust::generator::{generate_vec, next_word};
use functional_rust::report::{line_text, plan_labels, render, InvalidLabel, ReportCommand};
use functional_rust::sorting::{histogram, sorting_property};
use functional_rust::state::{parity_step, running_parity};
use functional_rust::text::{ascii_lowercase, normalize_label, to_ascii_lowercase, trim, Lowercased};
use functional_rust::unique::{sorted_unique, sorted_unique_copy};

#[test]
fn lowercasing_borrows_when_nothing_changes() {
    assert!(matches!(ascii_lowercase("record"), Lowercased::Borrowed(_)));
    assert!(matches!(ascii_lowercase("Record"), Lowercased::Owned(_)));
    assert_eq!(ascii_lowercase("Record-Δ").as_str(), "record-Δ");
    assert_eq!(ascii_lowercase("").as_str(), "");
    assert_eq!(to_ascii_lowercase("ÀBC"), "Àbc");
}

#[test]
fn trimming_removes_unicode_whitespace_at_both_ends() {
    assert_eq!(trim("  RECORD  "), "RECORD");
    assert_eq!(trim("\u{3000}a b\t\n"), "a b");
    assert_eq!(trim("   "), "");
    assert_eq!(normalize_label("  RECORD  "), "record");
    assert_eq!(normalize_label("\tMixed Case\n"), "mixed case");
}

#[test]
fn report_plans_render_in_order_and_reject_bad_labels() {
    let plan = plan_labels(&["alpha", "beta"]).expect("valid fixture");
    let expected = b"Labels\n\nalpha\nbeta\n";
    assert_eq!(render(&plan).as_slice(), expected);
    assert_eq!(
        plan_labels(&["alpha", "bad\nlabel"]),
        Err(InvalidLabel { index: 1 })
    );
    assert_eq!(plan_labels(&["", "x\r"]), Err(InvalidLabel { index: 0 }));
    assert_eq!(line_text(&ReportCommand::Blank), "");
    assert_eq!(line_text(&ReportCommand::Line(String::from("x"))), "x");
    assert_eq!(render(&[]), Vec::<u8>::new());
}

#[test]
fn rendering_a_joined_plan_concatenates_the_renderings() {
    let first = plan_labels(&["one"]).unwrap();
    let second = plan_labels(&["two", "three"]).unwrap();
    let mut joined = first.clone();
    joined.extend(second.iter().cloned());
    let mut expected = render(&first);
    expected.extend(render(&second));
    assert_eq!(render(&joined), expected);
}

#[test]
fn parity_steps_and_running_parity() {
    assert_eq!(parity_step(false, true), (true, true));
    assert_eq!(parity_step(true, false), (true, true));
    assert_eq!(parity_step(true, true), (false, false));
    let input = [true, false, true, true];
    assert_eq!(running_parity(input).collect::<Vec<_>>(), vec![true, true, false, true]);
    assert_eq!(running_parity(input).take(2).collect::<Vec<_>>(), vec![true, true]);
    assert_eq!(running_parity([]).count(), 0);
}

#[test]
fn generator_steps_are_the_documented_congruence() {
    assert_eq!(next_word(0), (1_442_695_040_888_963_407, 1_442_695_040_888_963_407));
    let (values, state) = generate_vec(0, 2);
    assert_eq!(values, vec![31614, -4591]);
    assert_eq!(state, 1_876_011_003_808_476_466);
    let (empty, unchanged) = generate_vec(42, 0);
    assert!(empty.is_empty());
    assert_eq!(unchanged, 42);
}

#[test]
fn generated_inputs_satisfy_the_sorting_property() {
    let mut state = 0x9a37_041f_8520_6bd1_u64;
    for case in 0..512 {
        let case_seed = state;
        let (input, next) = generate_vec(state, case % 65);
        state = next;
        assert!(
            sorting_property(&input),
            "seed={case_seed}, case={case}, input={input:?}",
        );
    }

    for input in [vec![], vec![0], vec![i16::MAX, i16::MIN, i16::MAX]] {
        assert!(sorting_property(&input));
    }
}

#[test]
fn histograms_count_each_value() {
    let counts = histogram(&[3, -1, 3, 3, 0]);
    assert_eq!(counts.into_iter().collect::<Vec<_>>(), vec![(-1, 1), (0, 1), (3, 3)]);
    assert!(histogram(&[]).is_empty());
}

#[test]
fn distinct_sorted_strings_from_owned_and_borrowed_input() {
    let original = vec![
        String::from("beta"),
        String::from("alpha"),
        String::from("beta"),
    ];
    let snapshot = original.clone();
    let result = sorted_unique_copy(&original);
    assert_eq!(original, snapshot);
    assert_eq!(result, vec!["alpha", "beta"]);
    assert_eq!(sorted_unique(result.clone()), result);
    assert!(sorted_unique(Vec::new()).is_empty());
    let mixed = vec![
        String::from("b"),
        String::from("ab"),
        String::from("a"),
        String::from("é"),
        String::from("z"),
        String::from("a"),
    ];
    assert_eq!(sorted_unique(mixed), vec!["a", "ab", "b", "z", "é"]);
}
