use std::collections::VecDeque;
use std::num::IntErrorKind;

use functional_rust::frame_io;
use functional_rust::framing::{LineFramer, FRAME_CAP};
use functional_rust::pipeline_io::{self, FailingReader, ReadFault};
use functional_rust::staged::{PendingOnce, Progress};

use functional_rust::budget::{required_bytes, BudgetError};
use functional_rust::composition::{choose_branch, first_position, prefixed, then};
use functional_rust::counter::{transition, Counter, Event, TransitionError};
use functional_rust::kleisli::{chain_result, first, parse_value, require_nonzero, second, ValueError};
use functional_rust::limits::{parse_limit, parse_optional, LimitError};
use functional_rust::state::{and_then_state, map_accum, map_state, pop_front, state_pure};
use functional_rust::unfold::unfold_next;

#[test]
fn required_bytes_reports_overflow_of_either_operation() {
    assert_eq!(required_bytes(3, 64, 16), Ok(208));
    assert_eq!(required_bytes(0, 64, 16), Ok(16));
    assert_eq!(required_bytes(u64::MAX, 2, 0), Err(BudgetError::Overflow));
    assert_eq!(required_bytes(1, 1, u64::MAX), Err(BudgetError::Overflow));
    assert_eq!(required_bytes(1, u64::MAX, 0), Ok(u64::MAX));
}

#[test]
fn composition_configuration_and_search() {
    let byte_length = then(String::into_bytes, |bytes: Vec<u8>| bytes.len());
    assert_eq!(byte_length(String::from("λ")), 2);

    let label = prefixed(String::from("kind:"));
    assert_eq!(label("record"), "kind:record");
    assert_eq!(label("field"), "kind:field");

    let values = [String::from("north"), String::from("south")];
    assert_eq!(first_position(&values, |s: &String| s.starts_with('s')), Some(1));
    assert_eq!(first_position(&values, |s: &String| s.is_empty()), None);
    assert_eq!(values[0], "north");
}

#[test]
fn only_the_chosen_branch_is_evaluated() {
    let selected = choose_branch(false, || String::from("left"), || String::from("right"));
    assert_eq!(selected, "right");
    let selected = choose_branch(true, || String::from("left"), || -> String { panic!("not chosen") });
    assert_eq!(selected, "left");
}

#[test]
fn limits_follow_the_grammar_then_the_range() {
    assert_eq!(parse_limit("12").map(|n| n.get()), Ok(12));
    assert_eq!(parse_limit("00012").map(|n| n.get()), Ok(12));
    assert_eq!(parse_limit("65535").map(|n| n.get()), Ok(65535));
    assert_eq!(parse_limit("0"), Err(LimitError::Zero));
    assert_eq!(parse_limit("65536"), Err(LimitError::OutOfRange));
    assert_eq!(parse_limit("+12"), Err(LimitError::InvalidDigits));
    assert_eq!(parse_limit(" 12"), Err(LimitError::InvalidDigits));
    assert_eq!(parse_limit(""), Err(LimitError::InvalidDigits));
}

#[test]
fn optional_parsing_keeps_absence_and_reports_failure() {
    assert_eq!(parse_optional(None).unwrap(), None);
    assert_eq!(parse_optional(Some("17")).unwrap(), Some(17));
    assert!(parse_optional(Some("invalid")).is_err());
}

#[test]
fn counter_rejections_keep_the_state() {
    let initial = Counter::new(10);
    let (value, advanced) = transition(initial, Event::Add(7)).unwrap();
    assert_eq!(value, 7);
    assert_eq!(initial.value, 0);
    assert_eq!(
        transition(advanced, Event::Add(4)),
        Err((TransitionError::LimitExceeded, advanced)),
    );
    assert_eq!(transition(advanced, Event::Reset), Ok((0, initial)));

    let (_, full) = transition(Counter::new(u32::MAX), Event::Add(u32::MAX)).unwrap();
    assert_eq!(
        transition(full, Event::Add(1)),
        Err((TransitionError::Overflow, full)),
    );
    assert_eq!(transition(advanced, Event::Add(0)), Ok((7, advanced)));
}

#[test]
fn optional_stages_obey_the_bind_laws() {
    let values = std::iter::once(None).chain((u8::MIN..=u8::MAX).map(Some));
    for value in values {
        assert_eq!(value.and_then(Some), value);
        assert_eq!(
            value.and_then(first).and_then(second),
            value.and_then(|n| first(n).and_then(second)),
        );
    }
    for value in u8::MIN..=u8::MAX {
        assert_eq!(Some(value).and_then(first), first(value));
    }
    assert_eq!(first(4), Some(6));
    assert_eq!(first(3), None);
    assert_eq!(first(254), None);
    assert_eq!(second(85), Some(255));
    assert_eq!(second(86), None);
}

#[test]
fn fallible_stages_compose_and_stop_at_the_first_error() {
    let checked = chain_result(parse_value, require_nonzero);
    assert_eq!(checked("23").map(|n| n.get()), Ok(23));
    assert_eq!(chain_result(parse_value, require_nonzero)("0"), Err(ValueError::Zero));
    assert_eq!(chain_result(parse_value, require_nonzero)("x"), Err(ValueError::Parse));
    assert_eq!(parse_value("4294967296"), Err(ValueError::Parse));
}

#[test]
fn state_programs_thread_the_queue() {
    let queue: VecDeque<String> = ["alpha", "beta", "gamma"]
        .into_iter()
        .map(String::from)
        .collect();

    let first_two = and_then_state(pop_front, |first: Option<String>| {
        map_state(pop_front, move |second: Option<String>| (first, second))
    });
    let ((first, second), remaining) = first_two(queue);
    assert_eq!(first.as_deref(), Some("alpha"));
    assert_eq!(second.as_deref(), Some("beta"));
    assert_eq!(remaining.front().map(String::as_str), Some("gamma"));

    let (value, state) = state_pure(String::from("fixed"))(7_u8);
    assert_eq!(value, "fixed");
    assert_eq!(state, 7);

    let (nothing, empty) = pop_front(VecDeque::new());
    assert_eq!(nothing, None);
    assert!(empty.is_empty());
}

#[test]
fn map_accum_keeps_each_output_and_the_final_state() {
    let (prefixes, final_text) = map_accum(
        String::new(),
        vec!['r', 'u', 's', 't'],
        |mut text: String, character: char| {
            text.push(character);
            (text.clone(), text)
        },
    );
    assert_eq!(prefixes, vec!["r", "ru", "rus", "rust"]);
    assert_eq!(final_text, "rust");
}

/// Collects every item of an unfold, then asks twice more.
fn drain_countdown(start: u8) -> (Vec<u8>, Option<u8>, Option<u8>) {
    let step = |remaining: u8| match remaining {
        0 => None,
        n => Some((n, n - 1)),
    };
    let mut state = Some(start);
    let mut items = Vec::new();
    while let Some(item) = unfold_next(&mut state, step) {
        items.push(item);
    }
    let after = unfold_next(&mut state, step);
    let again = unfold_next(&mut state, step);
    (items, after, again)
}

#[test]
fn unfold_ends_permanently() {
    assert_eq!(drain_countdown(3), (vec![3, 2, 1], None, None));
    assert_eq!(drain_countdown(0), (vec![], None, None));
    let mut state = Some(5_u64);
    assert_eq!(unfold_next(&mut state, |n: u64| n.checked_mul(2).map(|m| (n, m))), Some(5));
    assert_eq!(state, Some(10));
}

#[test]
fn frame_headers_decode_to_the_payload_length() {
    let header = functional_rust::frame::frame_header(&[7_u8; 300]).unwrap();
    assert_eq!(header, [0, 0, 1, 44]);
    assert_eq!(u32::from_be_bytes(header), 300);
    let largest = vec![0_u8; functional_rust::frame::MAX_FRAME_LEN];
    assert_eq!(functional_rust::frame::frame_header(&largest), Some([0, 16, 0, 0]));
    assert_eq!(functional_rust::frame::frame_header(&vec![0_u8; functional_rust::frame::MAX_FRAME_LEN + 1]), None);
}

#[test]
fn optional_map_is_bind_into_some() {
    for value in [None, Some(0_u8), Some(3), Some(84), Some(254)] {
        assert_eq!(value.map(|n| n / 2), value.and_then(|n| Some(n / 2)));
        assert_eq!(value.and_then(first), value.map(first).flatten());
    }
}

#[test]
fn scripted_writers_take_at_most_two_bytes() {
    let mut counting = pipeline_io::ShortWriter {
        bytes: Vec::new(),
        flushes: 0,
        fail_flush: true,
    };
    assert_eq!(counting.write(b"abcde"), 2);
    assert_eq!(counting.write(b"z"), 1);
    assert_eq!(counting.write(b""), 0);
    assert_eq!(counting.bytes, b"abz");
    assert!(counting.flush());
    assert_eq!(counting.flushes, 1);

    let mut interrupting = frame_io::ShortWriter {
        output: Vec::new(),
        interrupted: false,
        flushed: false,
    };
    assert_eq!(interrupting.write(b"abc"), None);
    assert!(interrupting.output.is_empty());
    assert_eq!(interrupting.write(b"abc"), Some(2));
    assert_eq!(interrupting.write(b"c"), Some(1));
    assert_eq!(interrupting.output, b"abc");
    assert!(!interrupting.flushed);
    interrupting.flush();
    assert!(interrupting.flushed);
}

#[test]
fn failing_reader_delivers_its_prefix_then_a_reset() {
    let mut reader = FailingReader {
        prefix: b"a,1\n".to_vec(),
        position: 0,
    };
    assert_eq!(reader.read(0), Ok(vec![]));
    assert_eq!(reader.read(3), Ok(b"a,1".to_vec()));
    assert_eq!(reader.read(8), Ok(b"\n".to_vec()));
    assert_eq!(reader.read(8), Err(ReadFault::ConnectionReset));
    assert_eq!(reader.read(0), Ok(vec![]));
    assert_eq!(reader.position, 4);
    let mut beyond = FailingReader {
        prefix: vec![1],
        position: 5,
    };
    assert_eq!(beyond.read(4), Ok(vec![]));
}

#[test]
fn pending_once_waits_once_then_yields() {
    let mut stage = PendingOnce {
        waited: false,
        value: 9,
    };
    assert_eq!(stage.poll(), (Progress::Pending, true));
    assert_eq!(stage.poll(), (Progress::Ready(Ok(9)), false));
    assert_eq!(stage.poll(), (Progress::Ready(Ok(9)), false));
}

#[test]
fn parse_errors_are_those_of_the_failing_text() {
    let overflow = parse_optional(Some("4294967296")).unwrap_err();
    assert_eq!(overflow.kind(), &IntErrorKind::PosOverflow);
    let empty = parse_optional(Some("")).unwrap_err();
    assert_eq!(empty.kind(), &IntErrorKind::Empty);
    let first = functional_rust::counts::parse_counts(&["1", "x", "4294967296"]).unwrap_err();
    assert_eq!(first.kind(), &IntErrorKind::InvalidDigit);
}

/// Frames of `input` cut into chunks of `size` bytes, the last one included.
fn frames_in_chunks(input: &[u8], size: usize) -> Vec<Vec<u8>> {
    let mut framer = LineFramer::new();
    let mut frames = Vec::new();
    for chunk in input.chunks(size) {
        frames.extend(framer.feed(chunk));
    }
    frames.extend(framer.finish());
    frames
}

#[test]
fn framing_does_not_depend_on_chunk_boundaries() {
    let input = b"a,002\r\nb_1,3\n\nc-2,4";
    let expected: Vec<Vec<u8>> = vec![
        b"a,002\r\n".to_vec(),
        b"b_1,3\n".to_vec(),
        b"\n".to_vec(),
        b"c-2,4".to_vec(),
    ];
    for size in 1..=input.len() {
        assert_eq!(frames_in_chunks(input, size), expected);
    }
    let mut framer = LineFramer::new();
    assert!(framer.feed(b"").is_empty());
    assert!(!framer.has_pending());
    assert_eq!(framer.finish(), None);
}

#[test]
fn overlong_records_are_cut_one_byte_past_the_limit() {
    let mut input = vec![b'x'; FRAME_CAP + 2];
    input.push(b'\n');
    for size in [1, 7, 4096, 10_000] {
        let frames = frames_in_chunks(&input, size);
        assert_eq!(frames.len(), 2);
        assert_eq!(frames[0].len(), FRAME_CAP);
        assert_eq!(frames[1], b"xx\n");
    }
    assert_eq!(FRAME_CAP, functional_rust::records::MAX_RECORD_BYTES + 1);
}
