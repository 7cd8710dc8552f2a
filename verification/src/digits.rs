use vstd::prelude::*;

verus! {

/// Whether `c` is one of the ASCII digits `0` through `9`.
pub open spec fn is_digit(c: char) -> bool {
    '0' <= c && c <= '9'
}

/// Whether every character of `text` is an ASCII digit.
pub open spec fn all_digits(text: Seq<char>) -> bool {
    forall|i: int| 0 <= i < text.len() ==> is_digit(#[trigger] text[i])
}

/// The value of an ASCII digit.
pub open spec fn digit_value(c: char) -> nat {
    ((c as int) - ('0' as int)) as nat
}

/// The number that a string of decimal digits denotes.
pub open spec fn decimal_value(digits: Seq<char>) -> nat
    decreases digits.len(),
{
    if digits.len() == 0 {
        0
    } else {
        decimal_value(digits.drop_last()) * 10 + digit_value(digits.last())
    }
}

/// The characters of `text`, in order.
pub(crate) fn chars_of(text: &str) -> (chars: Vec<char>)
    ensures
        chars@ == text@,
{
    let mut chars: Vec<char> = Vec::new();
    for c in it: text.chars()
        invariant
            chars@ == it.seq().take(it.index() as int),
    {
        chars.push(c);
    }
    chars
}

proof fn lemma_decimal_prefix_le(digits: Seq<char>, k: int)
    requires
        0 <= k <= digits.len(),
    ensures
        decimal_value(digits.take(k)) <= decimal_value(digits),
    decreases digits.len(),
{
    if k < digits.len() {
        let shorter = digits.drop_last();
        assert(shorter.take(k) =~= digits.take(k));
        lemma_decimal_prefix_le(shorter, k);
    } else {
        assert(digits.take(k) =~= digits);
    }
}

/// Whether `chars[start..]` are all decimal digits.
pub(crate) fn digits_only(chars: &Vec<char>, start: usize) -> (digits: bool)
    requires
        start <= chars@.len(),
    ensures
        digits == all_digits(chars@.skip(start as int)),
{
    let ghost tail = chars@.skip(start as int);
    let mut k: usize = start;
    while k < chars.len()
        invariant
            start <= k <= chars@.len(),
            tail == chars@.skip(start as int),
            forall|i: int| 0 <= i < k - start ==> is_digit(#[trigger] tail[i]),
        decreases chars@.len() - k,
    {
        let c = chars[k];
        if !(c >= '0' && c <= '9') {
            assert(!is_digit(tail[k - start]));
            return false;
        }
        k = k + 1;
    }
    true
}

/// The value of the digits `chars[start..]` when it is at most `bound`;
/// `None` when it is larger.
pub(crate) fn decimal_at_most(chars: &Vec<char>, start: usize, bound: u64) -> (value: Option<u64>)
    requires
        start <= chars@.len(),
        all_digits(chars@.skip(start as int)),
        bound <= u32::MAX,
    ensures
        match value {
            Some(v) => v == decimal_value(chars@.skip(start as int)) && v <= bound,
            None => decimal_value(chars@.skip(start as int)) > bound,
        },
{
    let len = chars.len();
    let ghost count = chars@.skip(start as int);
    let mut k: usize = start;
    let mut value: u64 = 0;
    while k < len
        invariant
            start <= k <= len,
            len == chars@.len(),
            bound <= u32::MAX,
            count == chars@.skip(start as int),
            all_digits(count),
            value == decimal_value(count.take(k - start)),
            value <= bound,
        decreases len - k,
    {
        let c = chars[k];
        assert(is_digit(count[k - start]));
        let ghost prefix = count.take(k - start);
        let ghost longer = count.take(k + 1 - start);
        assert(longer.drop_last() =~= prefix);
        assert(longer.last() == c);
        let digit = ((c as u32) - ('0' as u32)) as u64;
        let next = value * 10 + digit;
        if next > bound {
            proof {
                lemma_decimal_prefix_le(count, k + 1 - start);
            }
            return None;
        }
        value = next;
        k = k + 1;
    }
    assert(count.take(len - start) =~= count);
    Some(value)
}

} // verus!
