use vstd::prelude::*;
use vstd::utf8::{decode_utf8, encode_utf8, valid_utf8};
use std::io::Error as IoError;
use std::str::Utf8Error;
use crate::nonzero::NonZero32;
use crate::digits::{all_digits, chars_of, decimal_at_most, decimal_value, digit_value, digits_only, is_digit};

verus! {

/// The largest accepted record, terminator included, in bytes.
pub const MAX_RECORD_BYTES: usize = 4096;

/// Why a record's text does not match the `label,count` grammar.
#[derive(Debug, Clone, Copy, PartialEq, Eq)]
pub enum RecordError {
    /// The record has no comma.
    Fields,
    /// The label is not 1–32 characters of `[a-z][a-z0-9_-]*`.
    Label,
    /// The count is not a nonzero `u32` written in ASCII decimal digits.
    Count,
}

/// Whether `c` is one of `a` through `z`.
pub open spec fn is_lowercase(c: char) -> bool {
    'a' <= c && c <= 'z'
}

/// A character that may follow the first one of a label.
pub open spec fn is_label_char(c: char) -> bool {
    is_lowercase(c) || is_digit(c) || c == '_' || c == '-'
}

/// A label: 1 to 32 characters, a lowercase letter first, then lowercase
/// letters, digits, underscores or hyphens.
pub open spec fn valid_label(label: Seq<char>) -> bool {
    &&& 1 <= label.len() <= 32
    &&& is_lowercase(label[0])
    &&& forall|i: int| 0 <= i < label.len() ==> is_label_char(#[trigger] label[i])
}

/// Whether `text` holds no comma.
pub open spec fn comma_free(text: Seq<char>) -> bool {
    forall|i: int| 0 <= i < text.len() ==> text[i] != ','
}

/// The position of the first comma, for a text that holds one.
pub open spec fn first_comma(text: Seq<char>) -> int {
    choose|i: int| 0 <= i < text.len() && text[i] == ',' && comma_free(text.take(i))
}

/// What a record's text denotes: its label and its count, or the first rule
/// that it breaks.
pub open spec fn spec_parse_record(text: Seq<char>) -> Result<(Seq<char>, u32), RecordError> {
    if comma_free(text) {
        Err(RecordError::Fields)
    } else {
        let comma = first_comma(text);
        let label = text.take(comma);
        let count = text.skip(comma + 1);
        if !valid_label(label) {
            Err(RecordError::Label)
        } else if count.len() == 0 || !all_digits(count) || decimal_value(count) == 0
            || decimal_value(count) > u32::MAX {
            Err(RecordError::Count)
        } else {
            Ok((label, decimal_value(count) as u32))
        }
    }
}

/// A parsed record.
#[derive(Debug, PartialEq, Eq)]
pub struct Record {
    pub label: String,
    pub count: NonZero32,
}

/// Whether `chars[1..end]` are all label characters.
fn label_chars_valid(chars: &Vec<char>, end: usize) -> (valid: bool)
    requires
        end <= chars@.len(),
    ensures
        valid == forall|i: int| 1 <= i < end ==> is_label_char(#[trigger] chars@[i]),
{
    let mut j: usize = 1;
    while j < end
        invariant
            end <= chars@.len(),
            1 <= j,
            forall|i: int| 1 <= i < j ==> is_label_char(#[trigger] chars@[i]),
        decreases end - j,
    {
        let c = chars[j];
        if !((c >= 'a' && c <= 'z') || (c >= '0' && c <= '9') || c == '_' || c == '-') {
            assert(!is_label_char(chars@[j as int]));
            return false;
        }
        j = j + 1;
    }
    true
}

/// Parses `label,count`: the text before the first comma is the label, the
/// rest is the count. Leading zeroes in the count are accepted.
pub fn parse_record(text: &str) -> (result: Result<Record, RecordError>)
    ensures
        match spec_parse_record(text@) {
            Ok((label, count)) => result matches Ok(record) && record.label@ == label
                && record.count.spec_get() == count,
            Err(error) => result matches Err(e) && e == error,
        },
{
    let chars = chars_of(text);
    let len = chars.len();
    let mut comma: usize = 0;
    while comma < len && chars[comma] != ','
        invariant
            comma <= len,
            len == chars@.len(),
            comma_free(chars@.take(comma as int)),
        decreases len - comma,
    {
        assert(chars@.take(comma + 1) =~= chars@.take(comma as int).push(chars@[comma as int]));
        comma = comma + 1;
    }
    if comma == len {
        assert(chars@.take(comma as int) =~= chars@);
        return Err(RecordError::Fields);
    }
    assert(first_comma(text@) == comma) by {
        let c = first_comma(text@);
        assert(0 <= comma < text@.len() && text@[comma as int] == ','
            && comma_free(text@.take(comma as int)));
        if c < comma {
            assert(text@.take(comma as int)[c] == ',');
        } else if c > comma {
            assert(text@.take(c)[comma as int] == ',');
        }
    }
    let ghost label = text@.take(comma as int);
    assert(chars@.take(comma as int) =~= label);
    if comma == 0 || comma > 32 || !(chars[0] >= 'a' && chars[0] <= 'z') {
        return Err(RecordError::Label);
    }
    if !label_chars_valid(&chars, comma) {
        let ghost w = choose|i: int| 1 <= i < comma && !is_label_char(#[trigger] chars@[i]);
        assert(label[w] == chars@[w]);
        return Err(RecordError::Label);
    }
    assert(is_label_char(label[0]));
    let start = comma + 1;
    if start == len {
        assert(text@.skip(start as int).len() == 0);
        return Err(RecordError::Count);
    }
    assert(chars@.skip(start as int) =~= text@.skip(start as int));
    if !digits_only(&chars, start) {
        return Err(RecordError::Count);
    }
    let count = match decimal_at_most(&chars, start, 0xffff_ffff) {
        None => return Err(RecordError::Count),
        Some(v) => match NonZero32::new(v as u32) {
            None => return Err(RecordError::Count),
            Some(count) => count,
        },
    };
    let label_text = text.substring_char(0, comma);
    Ok(Record {
        label: label_text.to_owned(),
        count,
    })
}

/// The decimal digits of `n`, without leading zeroes.
pub open spec fn decimal_text(n: nat) -> Seq<char>
    decreases n,
{
    if n < 10 {
        seq![(n + 48) as char]
    } else {
        decimal_text(n / 10) + seq![((n % 10) + 48) as char]
    }
}

/// The rendered count is the count's decimal numeral: it has only ASCII
/// digits, they denote the count, and it has no leading zero except for the
/// count zero itself.
pub proof fn law_decimal_text_is_the_numeral(n: nat)
    ensures
        decimal_text(n).len() >= 1,
        n >= 10 ==> decimal_text(n).len() >= 2,
        all_digits(decimal_text(n)),
        decimal_value(decimal_text(n)) == n,
        decimal_text(n).len() > 1 ==> decimal_text(n)[0] != '0',
    decreases n,
{
    if n < 10 {
        let digit = (n + 48) as char;
        assert(decimal_text(n) =~= seq![digit]);
        assert(digit as int == n + 48);
        assert('0' as int == 48);
        assert(seq![digit].drop_last() =~= Seq::<char>::empty());
        assert(seq![digit].last() == digit);
        assert(decimal_value(Seq::<char>::empty()) == 0);
        assert(digit_value(digit) == n);
    } else {
        law_decimal_text_is_the_numeral(n / 10);
        let prefix = decimal_text(n / 10);
        let digit = ((n % 10) + 48) as char;
        assert(digit as int == (n % 10) + 48);
        let whole = prefix + seq![digit];
        assert(decimal_text(n) == whole);
        assert(whole.drop_last() =~= prefix);
        assert(whole.last() == digit);
        assert forall|i: int| 0 <= i < whole.len() implies is_digit(#[trigger] whole[i]) by {
            if i < prefix.len() {
                assert(whole[i] == prefix[i]);
            }
        }
        assert(whole[0] == prefix[0]);
        assert('0' as int == 48);
        assert(digit_value(digit) == n % 10);
        assert(decimal_value(whole) == decimal_value(prefix) * 10 + digit_value(digit));
        assert(n == (n / 10) * 10 + n % 10) by (nonlinear_arith);
        assert(decimal_value(prefix) * 10 == (n / 10) * 10);
        assert(decimal_value(whole) == n);
        assert(n / 10 >= 1);
        if n / 10 < 10 {
            let lead = ((n / 10) + 48) as char;
            assert(prefix =~= seq![lead]);
            assert(lead as int == (n / 10) + 48);
        }
    }
}

/// The output line for a record: `label=count` and a line feed.
pub open spec fn spec_render(label: Seq<char>, count: u32) -> Seq<char> {
    label + seq!['='] + decimal_text(count as nat) + seq!['\n']
}

fn digit_char(d: u32) -> (c: char)
    requires
        d < 10,
    ensures
        c == (d + 48) as char,
{
    let byte: u8 = (d + 48) as u8;
    byte as char
}

fn push_decimal(out: &mut String, n: u32)
    ensures
        final(out)@ == old(out)@ + decimal_text(n as nat),
    decreases n,
{
    if n < 10 {
        out.push(digit_char(n));
    } else {
        push_decimal(out, n / 10);
        out.push(digit_char(n % 10));
    }
}

/// Renders `label=count` followed by a line feed; the count has no leading
/// zeroes.
pub fn render_record(record: &Record) -> (rendered: String)
    ensures
        rendered@ == spec_render(record.label@, record.count.spec_get()),
{
    let mut out = String::new();
    out.append(record.label.as_str());
    out.push('=');
    push_decimal(&mut out, record.count.get());
    out.push('\n');
    out
}

/// Running totals: records written and the sum of their counts.
#[derive(Debug, Default, Clone, Copy, PartialEq, Eq)]
pub struct Summary {
    pub records: u64,
    pub units: u64,
}

/// `std::io::Error`, carried as the cause of a read, write or flush failure.
#[verifier::external_type_specification]
#[verifier::external_body]
pub struct ExIoError(IoError);

/// `std::str::Utf8Error`, carried as the cause of a UTF-8 failure.
#[verifier::external_type_specification]
#[verifier::external_body]
pub struct ExUtf8Error(Utf8Error);

/// Why the record pipeline stopped.
#[derive(Debug)]
#[allow(inconsistent_fields)]
pub enum PipelineError {
    Read(IoError),
    RecordTooLong { line: u64 },
    Utf8 { line: u64, cause: Utf8Error },
    Malformed { line: u64, cause: RecordError },
    SummaryOverflow,
    Write(IoError),
    Flush(IoError),
}

/// The error that `std::str::from_utf8` reports for bytes that are not
/// valid UTF-8; it depends on the bytes alone.
pub uninterp spec fn utf8_error(bytes: Seq<u8>) -> Utf8Error;

/// Calls `std::str::from_utf8`, which succeeds exactly when the bytes are
/// valid UTF-8 and then returns a text whose bytes are those bytes; its
/// error is named by `utf8_error`.
#[verifier::external_body]
fn utf8_text(bytes: &[u8]) -> (text: Result<&str, Utf8Error>)
    ensures
        text is Ok <==> valid_utf8(bytes@),
        text matches Ok(t) ==> encode_utf8(t@) == bytes@,
        text matches Err(e) ==> e == utf8_error(bytes@),
{
    std::str::from_utf8(bytes)
}

/// A framed line without its terminator: a final LF is removed, and then a
/// CR just before it.
pub open spec fn record_body(raw: Seq<u8>) -> Seq<u8> {
    if raw.len() > 0 && raw.last() == 10u8 {
        let rest = raw.drop_last();
        if rest.len() > 0 && rest.last() == 13u8 {
            rest.drop_last()
        } else {
            rest
        }
    } else {
        raw
    }
}

fn strip_terminator(raw: &[u8]) -> (end: usize)
    ensures
        end <= raw@.len(),
        raw@.take(end as int) == record_body(raw@),
{
    let mut end = raw.len();
    assert(raw@.take(end as int) =~= raw@);
    if end > 0 && raw[end - 1] == 10u8 {
        end = end - 1;
        assert(raw@.drop_last() =~= raw@.take(end as int));
        if end > 0 && raw[end - 1] == 13u8 {
            end = end - 1;
            assert(raw@.drop_last().drop_last() =~= raw@.take(end as int));
        }
    }
    end
}

fn prefix_of(raw: &[u8], end: usize) -> (prefix: Vec<u8>)
    requires
        end <= raw@.len(),
    ensures
        prefix@ == raw@.take(end as int),
{
    let mut out: Vec<u8> = Vec::new();
    let mut i: usize = 0;
    while i < end
        invariant
            i <= end <= raw@.len(),
            out@ == raw@.take(i as int),
        decreases end - i,
    {
        out.push(raw[i]);
        i = i + 1;
        assert(out@ =~= raw@.take(i as int));
    }
    out
}

/// Decides what one framed line does to the pipeline. `raw` is what one read
/// delivered: at most one line, its terminator included, cut off after more
/// than `MAX_RECORD_BYTES` bytes. The line's number is one more than the
/// records written so far. On success the result holds the output line and
/// the totals after this record.
pub fn process_line(summary: Summary, raw: &[u8]) -> (result: Result<(String, Summary), PipelineError>)
    requires
        raw@.len() > 0,
    ensures
        ({
            let line = summary.records + 1;
            let body = record_body(raw@);
            if summary.records == u64::MAX {
                result matches Err(PipelineError::SummaryOverflow)
            } else if raw@.len() > MAX_RECORD_BYTES {
                result matches Err(PipelineError::RecordTooLong { line: l }) && l == line
            } else if !valid_utf8(body) {
                result matches Err(PipelineError::Utf8 { line: l, cause }) && l == line
                    && cause == utf8_error(body)
            } else {
                match spec_parse_record(decode_utf8(body)) {
                    Err(e) => result matches Err(PipelineError::Malformed { line: l, cause })
                        && l == line && cause == e,
                    Ok((label, count)) => if summary.units + count > u64::MAX {
                        result matches Err(PipelineError::SummaryOverflow)
                    } else {
                        result matches Ok((text, next)) && text@ == spec_render(label, count)
                            && next == (Summary { records: line as u64, units: (summary.units + count) as u64 })
                    },
                }
            }
        }),
{
    let line = match summary.records.checked_add(1) {
        None => return Err(PipelineError::SummaryOverflow),
        Some(line) => line,
    };
    if raw.len() > MAX_RECORD_BYTES {
        return Err(PipelineError::RecordTooLong { line });
    }
    let end = strip_terminator(raw);
    let body = prefix_of(raw, end);
    let text = match utf8_text(body.as_slice()) {
        Err(cause) => return Err(PipelineError::Utf8 { line, cause }),
        Ok(text) => text,
    };
    proof {
        vstd::utf8::encode_utf8_decode_utf8(text@);
    }
    let record = match parse_record(text) {
        Err(cause) => return Err(PipelineError::Malformed { line, cause }),
        Ok(record) => record,
    };
    let units = match summary.units.checked_add(record.count.get() as u64) {
        None => return Err(PipelineError::SummaryOverflow),
        Some(units) => units,
    };
    let rendered = render_record(&record);
    Ok((rendered, Summary { records: line, units }))
}

} // verus!
