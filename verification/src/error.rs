//! The ways an operation on a story can fail.

use vstd::prelude::*;

verus! {

/// Why an operation on a story failed. Every failure leaves the story as it was.
#[derive(Clone, Copy, Debug, PartialEq, Eq, Structural)]
pub enum StoryError {
    /// A condition or an action names a flag that no action of the story declares.
    UnknownFlag,
    /// The handle is not among the links that can be selected now.
    InvalidSelection,
    /// Two page records have the same id.
    DuplicatePageId,
    /// No page of the story has the id that was asked for.
    UnknownPage,
    /// An `Add` would take a flag's value out of the range of `i32`.
    FlagOverflow,
}

impl StoryError {
    /// A short description for messages to the user.
    pub fn message(&self) -> (text: &'static str)
        ensures
            text@ == match *self {
                StoryError::UnknownFlag => "Invalid flag"@,
                StoryError::InvalidSelection => "Invalid selection"@,
                StoryError::DuplicatePageId => "Duplicate page id"@,
                StoryError::UnknownPage => "Unknown page"@,
                StoryError::FlagOverflow => "Flag value out of range"@,
            },
    {
        match self {
            StoryError::UnknownFlag => "Invalid flag",
            StoryError::InvalidSelection => "Invalid selection",
            StoryError::DuplicatePageId => "Duplicate page id",
            StoryError::UnknownPage => "Unknown page",
            StoryError::FlagOverflow => "Flag value out of range",
        }
    }
}

} // verus!
