//! A configuration value that is kept apart from ordinary text, such as a
//! password.

use vstd::prelude::*;

verus! {

/// A secret configuration value.
#[derive(Debug, Clone)]
pub struct SecretField {
    value: String,
}

impl View for SecretField {
    type V = Seq<char>;

    closed spec fn view(&self) -> Seq<char> {
        self.value@
    }
}

impl SecretField {
    /// Wraps `value`.
    pub fn new(value: String) -> (r: SecretField)
        ensures
            r@ == value@,
    {
        SecretField { value }
    }

    /// The secret text.
    pub fn as_str(&self) -> (r: &str)
        ensures
            r@ == self@,
    {
        self.value.as_str()
    }

    /// True when no secret is set.
    pub fn is_empty(&self) -> (r: bool)
        ensures
            r == (self@.len() == 0),
    {
        self.value.as_str().is_empty()
    }
}

} // verus!
