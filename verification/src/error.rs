//! Error taxonomy of the library.

use vstd::prelude::*;

verus! {

/// Why an operation of the library failed.
#[derive(Debug)]
pub enum UpgradeError {
    /// Content did not have the expected shape; names what was being parsed.
    Parse(String),
    /// A registry search found no entry for the named package.
    NoCrate(String),
    /// Any other failure, described in words.
    Gen(String),
}

/// The message text of an error.
pub open spec fn spec_message(e: &UpgradeError) -> Seq<char> {
    match e {
        UpgradeError::Parse(s) => "Parse Error "@ + s@,
        UpgradeError::NoCrate(s) => s@,
        UpgradeError::Gen(s) => s@,
    }
}

impl UpgradeError {
    /// Renders the error as a line of text.
    pub fn message(&self) -> (r: String)
        ensures
            r@ == spec_message(self),
    {
        match self {
            UpgradeError::Parse(s) => {
                let mut m = "Parse Error ".to_owned();
                m.append(s.as_str());
                m
            },
            UpgradeError::NoCrate(s) => s.clone(),
            UpgradeError::Gen(s) => s.clone(),
        }
    }
}

impl UpgradeError {
    /// A bare message makes a general error.
    pub fn general(s: &str) -> (r: UpgradeError)
        ensures
            r matches UpgradeError::Gen(m) && m@ == s@,
    {
        UpgradeError::Gen(s.to_owned())
    }
}

} // verus!
