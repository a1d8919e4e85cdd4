//! The choices offered when the stored session token is managed by hand.

use vstd::prelude::*;

verus! {

/// What can be done with the stored session token.
#[derive(Clone, Copy, Debug, PartialEq, Eq)]
pub enum CredentialsOption {
    ViewToken,
    SetToken,
}

/// The line that offers a choice.
pub open spec fn label_spec(option: CredentialsOption) -> Seq<char> {
    match option {
        CredentialsOption::ViewToken => "View stored token"@,
        CredentialsOption::SetToken => "Set a new token"@,
    }
}

impl CredentialsOption {
    /// The line that offers this choice.
    pub fn label(&self) -> (text: &'static str)
        ensures
            text@ == label_spec(*self),
    {
        match self {
            CredentialsOption::ViewToken => "View stored token",
            CredentialsOption::SetToken => "Set a new token",
        }
    }
}

} // verus!
