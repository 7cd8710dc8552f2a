use std::io::{self, Write};
use std::ops::Deref;

use functional_rust::counts::parse_counts;
use functional_rust::frame::{frame_header, MAX_FRAME_LEN};
use functional_rust::frame_io;
use functional_rust::lookup::find_value;

/// Writes a frame as the application does: the library's header, then the
/// payload.
fn write_frame<W: Write>(mut writer: W, payload: &[u8]) -> io::Result<()> {
    let header = frame_header(payload).ok_or_else(|| {
        io::Error::new(
            io::ErrorKind::InvalidInput,
            "payload exceeds the frame-size limit",
        )
    })?;
    writer.write_all(&header)?;
    writer.write_all(payload)
}

#[test]
fn lookup_borrows_from_entries_after_the_key_is_dropped() {
    let entries = vec![("name".to_owned(), "value".to_owned())];
    let value = {
        let key = "name".to_owned();
        find_value(&entries, &key).expect("the entry exists")
    };
    assert_eq!(value, "value");
    assert_eq!(value.as_ptr(), entries[0].1.as_ptr());
}

#[test]
fn lookup_returns_the_first_exact_match_or_none() {
    let entries = vec![
        ("name".to_owned(), "first".to_owned()),
        ("name".to_owned(), "second".to_owned()),
    ];
    assert_eq!(find_value(&entries, "name"), Some("first"));
    assert_eq!(find_value(&entries, "NAME"), None);
    assert_eq!(find_value(&[], "name"), None);
}

#[test]
fn parsing_accepts_empty_input_and_rejects_overflow() {
    assert_eq!(parse_counts(&[]), Ok(vec![]));
    let error = parse_counts(&["4294967296"]).expect_err("the value exceeds u32::MAX");
    assert_eq!(error.kind(), &std::num::IntErrorKind::PosOverflow);
}

#[test]
fn preserves_all_valid_values() {
    assert_eq!(parse_counts(&["3", "5"]), Ok(vec![3, 5]));
    assert_eq!(parse_counts(&["+7", "0"]), Ok(vec![7, 0]));
}

#[test]
fn reports_an_invalid_value_instead_of_skipping_it() {
    let error =
        parse_counts(&["3", "invalid", "5"]).expect_err("the second input is not an integer");
    assert_eq!(error.kind(), &std::num::IntErrorKind::InvalidDigit);
}

#[test]
fn oversized_payload_is_rejected_before_any_write() {
    let mut output = Vec::new();
    let error = write_frame(&mut output, &vec![0; 1_048_577])
        .expect_err("the payload exceeds the frame limit");
    assert_eq!(error.kind(), io::ErrorKind::InvalidInput);
    assert!(output.is_empty());
}

#[test]
fn empty_payload_still_writes_a_header() -> io::Result<()> {
    let mut output = Vec::new();
    write_frame(&mut output, b"")?;
    assert_eq!(output, [0, 0, 0, 0]);
    Ok(())
}

#[test]
fn writer_failure_preserves_partial_effects() {
    let mut output = [0; 5];
    let error = write_frame(&mut output[..], b"abc")
        .expect_err("the destination cannot hold the full frame");
    assert_eq!(error.kind(), io::ErrorKind::WriteZero);
    assert_eq!(&output, b"\0\0\0\x03a");
}

/// The library's interrupting short writer behind the `Write` trait.
struct ShortWriter(frame_io::ShortWriter);

impl Default for ShortWriter {
    fn default() -> Self {
        ShortWriter(frame_io::ShortWriter {
            output: Vec::new(),
            interrupted: false,
            flushed: false,
        })
    }
}

impl Deref for ShortWriter {
    type Target = frame_io::ShortWriter;

    fn deref(&self) -> &Self::Target {
        &self.0
    }
}

impl Write for ShortWriter {
    fn write(&mut self, bytes: &[u8]) -> io::Result<usize> {
        match self.0.write(bytes) {
            Some(count) => Ok(count),
            None => Err(io::ErrorKind::Interrupted.into()),
        }
    }

    fn flush(&mut self) -> io::Result<()> {
        self.0.flush();
        Ok(())
    }
}

#[test]
fn short_and_interrupted_writes_complete_without_flushing() -> io::Result<()> {
    let mut writer = ShortWriter::default();
    write_frame(&mut writer, b"abc")?;
    assert_eq!(writer.output, b"\0\0\0\x03abc");
    assert!(!writer.flushed);
    Ok(())
}

#[test]
fn writes_the_length_before_the_payload() -> io::Result<()> {
    let mut output = Vec::new();
    write_frame(&mut output, b"abc")?;
    assert_eq!(output.as_slice(), b"\0\0\0\x03abc");
    Ok(())
}

#[test]
fn header_is_big_endian_and_the_limit_is_inclusive() {
    assert_eq!(frame_header(&vec![0; 0x0102]), Some([0, 0, 1, 2]));
    assert_eq!(frame_header(&vec![0; MAX_FRAME_LEN]), Some([0, 16, 0, 0]));
    assert_eq!(frame_header(&vec![0; MAX_FRAME_LEN + 1]), None);
}
