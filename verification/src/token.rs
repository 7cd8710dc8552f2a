use vstd::prelude::*;
use vstd::string::StringExecFns;

verus! {

/// An opaque token whose diagnostic rendering omits its contents.
pub struct AccessToken {
    secret: String,
}

impl AccessToken {
    /// The stored token text.
    pub closed spec fn spec_secret(&self) -> Seq<char> {
        self.secret@
    }

    /// Stores a token without validating its contents.
    pub fn new(value: String) -> (token: Self)
        ensures
            token.spec_secret() == value@,
    {
        AccessToken { secret: value }
    }

    /// Exposes the token for an operation that explicitly requires it.
    ///
    /// The returned text is sensitive and is not suitable for logging.
    pub fn expose_secret(&self) -> (secret: &str)
        ensures
            secret@ == self.spec_secret(),
    {
        self.secret.as_str()
    }

    /// The token's diagnostic rendering, in the form a derived `Debug`
    /// would have, with the contents replaced by `[REDACTED]`.
    pub fn debug_text(&self) -> (text: String)
        ensures
            text@ == "AccessToken { value: \"[REDACTED]\" }"@,
    {
        String::from_str("AccessToken { value: \"[REDACTED]\" }")
    }
}

} // verus!
