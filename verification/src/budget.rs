use vstd::prelude::*;

verus! {

/// A calculation that does not fit in a `u64`.
#[derive(Debug, Clone, Copy, PartialEq, Eq)]
pub enum BudgetError {
    Overflow,
}

/// The bytes needed for `records` records of `bytes_per_record` bytes and a
/// header, or `Overflow` when the product or the sum exceeds `u64::MAX`.
pub fn required_bytes(records: u64, bytes_per_record: u64, header_bytes: u64) -> (result: Result<
    u64,
    BudgetError,
>)
    ensures
        match result {
            Ok(total) => total == records * bytes_per_record + header_bytes,
            Err(_) => records * bytes_per_record > u64::MAX || records * bytes_per_record
                + header_bytes > u64::MAX,
        },
{
    match records.checked_mul(bytes_per_record) {
        None => Err(BudgetError::Overflow),
        Some(body) => match body.checked_add(header_bytes) {
            None => Err(BudgetError::Overflow),
            Some(total) => Ok(total),
        },
    }
}

} // verus!
