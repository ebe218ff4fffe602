//! What an operation on the tree or on the view can refuse.

use vstd::prelude::*;
use vstd::string::*;

verus! {

/// The reasons for which an operation leaves the state as it was.
#[derive(Clone, Copy, Debug, PartialEq, Eq, Structural)]
pub enum Error {
    /// No node of the tree equals the node looked for.
    NotFound,
    /// A path leads out of the tree.
    PathNotFound,
    /// The path to the parent does not resolve.
    ParentNotFound,
    /// The selected row is no subheading.
    NoSubheadingOnLine,
    /// A subheading row cannot be completed.
    CannotCompleteSubheading,
    /// A subheading row cannot be timed.
    CannotTimeSubheading,
    /// A completed task cannot be timed.
    CannotTimeCompletedTask,
}

impl Error {
    /// The text of the message for each error.
    pub open spec fn message_text(self) -> Seq<char> {
        match self {
            Error::NotFound =>
                "Comparing nodes that do not belong on the same tree when collecting display data"@,
            Error::PathNotFound => "Node path not present on the given root node"@,
            Error::ParentNotFound =>
                "Failed to convert node path to node when entering previous heading"@,
            Error::NoSubheadingOnLine => "No subheading found on selected line"@,
            Error::CannotCompleteSubheading => "Cannot complete a subheading"@,
            Error::CannotTimeSubheading => "Cannot start a subheading time"@,
            Error::CannotTimeCompletedTask => "Cannot start a time on a completed task"@,
        }
    }

    /// The message shown to the user.
    pub fn message(&self) -> (s: String)
        ensures
            s@ == self.message_text(),
    {
        let text = match self {
            Error::NotFound =>
                "Comparing nodes that do not belong on the same tree when collecting display data",
            Error::PathNotFound => "Node path not present on the given root node",
            Error::ParentNotFound =>
                "Failed to convert node path to node when entering previous heading",
            Error::NoSubheadingOnLine => "No subheading found on selected line",
            Error::CannotCompleteSubheading => "Cannot complete a subheading",
            Error::CannotTimeSubheading => "Cannot start a subheading time",
            Error::CannotTimeCompletedTask => "Cannot start a time on a completed task",
        };
        String::from_str(text)
    }
}

} // verus!
