use vstd::prelude::*;

verus! {

/// The largest accepted batch size.
pub const MAX_BATCH_SIZE: usize = 4_096;

/// A batch size between 1 and 4,096, inclusive.
#[derive(Clone, Copy, Debug, Eq, PartialEq)]
pub struct BatchSize {
    size: usize,
}

/// A value outside the supported batch-size range.
#[derive(Clone, Copy, Debug, Eq, PartialEq)]
pub struct InvalidBatchSize {
    pub value: usize,
}

impl BatchSize {
    #[verifier::type_invariant]
    spec fn in_range(self) -> bool {
        1 <= self.size <= MAX_BATCH_SIZE
    }

    /// The number of items in a batch.
    pub closed spec fn spec_get(self) -> usize {
        self.size
    }

    /// Returns the validated number of items in a batch.
    pub fn get(self) -> (size: usize)
        ensures
            size == self.spec_get(),
            1 <= size <= MAX_BATCH_SIZE,
    {
        proof {
            use_type_invariant(&self);
        }
        self.size
    }
}

impl TryFrom<usize> for BatchSize {
    type Error = InvalidBatchSize;

    /// Validates that the size is within the supported range.
    ///
    /// # Errors
    ///
    /// Returns an error when `value` is zero or greater than 4,096.
    fn try_from(value: usize) -> (result: Result<Self, Self::Error>) {
        if 1 <= value && value <= MAX_BATCH_SIZE {
            Ok(BatchSize { size: value })
        } else {
            Err(InvalidBatchSize { value })
        }
    }
}

impl vstd::std_specs::convert::TryFromSpecImpl<usize> for BatchSize {
    open spec fn obeys_try_from_spec() -> bool {
        true
    }

    closed spec fn try_from_spec(value: usize) -> Result<Self, InvalidBatchSize> {
        if 1 <= value <= MAX_BATCH_SIZE {
            Ok(BatchSize { size: value })
        } else {
            Err(InvalidBatchSize { value })
        }
    }
}

/// A conversion succeeds exactly for sizes 1 through 4,096 and keeps the
/// size; a rejection reports the value it was given.
pub proof fn law_batch_size_range(value: usize)
    ensures
        match <BatchSize as vstd::std_specs::convert::TryFromSpec<usize>>::try_from_spec(value) {
            Ok(batch) => 1 <= value <= MAX_BATCH_SIZE && batch.spec_get() == value,
            Err(error) => !(1 <= value <= MAX_BATCH_SIZE) && error.value == value,
        },
{
}

} // verus!
