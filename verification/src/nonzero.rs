use vstd::prelude::*;

verus! {

/// A `u32` that is never zero.
#[derive(Debug, Clone, Copy, PartialEq, Eq)]
pub struct NonZero32 {
    value: u32,
}

impl NonZero32 {
    #[verifier::type_invariant]
    spec fn nonzero(self) -> bool {
        self.value != 0
    }

    /// The value, which is never zero.
    pub closed spec fn spec_get(self) -> u32 {
        self.value
    }

    /// The value, or `None` for zero.
    pub fn new(value: u32) -> (result: Option<Self>)
        ensures
            match result {
                Some(n) => value != 0 && n.spec_get() == value,
                None => value == 0,
            },
    {
        if value == 0 {
            None
        } else {
            Some(NonZero32 { value })
        }
    }

    /// The value, which is never zero.
    pub fn get(&self) -> (value: u32)
        ensures
            value == self.spec_get(),
            value != 0,
    {
        proof {
            use_type_invariant(self);
        }
        self.value
    }
}

/// A `u16` that is never zero.
#[derive(Debug, Clone, Copy, PartialEq, Eq)]
pub struct NonZero16 {
    value: u16,
}

impl NonZero16 {
    #[verifier::type_invariant]
    spec fn nonzero(self) -> bool {
        self.value != 0
    }

    /// The value, which is never zero.
    pub closed spec fn spec_get(self) -> u16 {
        self.value
    }

    /// The value, or `None` for zero.
    pub fn new(value: u16) -> (result: Option<Self>)
        ensures
            match result {
                Some(n) => value != 0 && n.spec_get() == value,
                None => value == 0,
            },
    {
        if value == 0 {
            None
        } else {
            Some(NonZero16 { value })
        }
    }

    /// The value, which is never zero.
    pub fn get(&self) -> (value: u16)
        ensures
            value == self.spec_get(),
            value != 0,
    {
        proof {
            use_type_invariant(self);
        }
        self.value
    }
}

} // verus!
