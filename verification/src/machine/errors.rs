//! Why a command is refused.
use vstd::prelude::*;

verus! {

/// A setting that cannot be used.
#[derive(Debug, PartialEq, Eq)]
pub struct ConfigError {
    /// The setting or the step.
    pub what: String,
    /// What is wrong with it.
    pub reason: String,
}

impl View for ConfigError {
    type V = (Seq<char>, Seq<char>);

    open spec fn view(&self) -> (Seq<char>, Seq<char>) {
        (self.what@, self.reason@)
    }
}

/// A setting that cannot be used, and why.
pub fn config_error(what: &str, reason: String) -> (r: ConfigError)
    ensures
        r@ == (what@, reason@),
{
    ConfigError { what: what.to_owned(), reason }
}

} // verus!
