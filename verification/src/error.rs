//! The ways a search can fail.

use vstd::prelude::*;

verus! {

/// Why a search was given up.
#[derive(Clone, Copy, Debug, PartialEq, Eq, Structural)]
pub enum SearchError {
    /// The value of a depth flag is no unsigned number.
    MalformedDepth,
    /// The pattern engine refused a pattern.
    MalformedPattern,
    /// The directory to start from is missing, or is no directory.
    NotADirectory,
    /// A directory met during the walk could not be opened.
    OpenFailed,
    /// An entry of a directory could not be read, or its file type could not
    /// be told.
    ReadFailed,
}

/// The three classes of failure.
#[derive(Clone, Copy, Debug, PartialEq, Eq, Structural)]
pub enum ErrorClass {
    /// What the user asked for cannot be understood.
    Configuration,
    /// The search cannot start.
    Precondition,
    /// The walk met something it could not read.
    Io,
}

impl SearchError {
    /// The class of this failure.
    pub open spec fn class_of(self) -> ErrorClass {
        match self {
            SearchError::MalformedDepth => ErrorClass::Configuration,
            SearchError::MalformedPattern => ErrorClass::Configuration,
            SearchError::NotADirectory => ErrorClass::Precondition,
            SearchError::OpenFailed => ErrorClass::Io,
            SearchError::ReadFailed => ErrorClass::Io,
        }
    }

    /// The class of this failure.
    pub fn class(&self) -> (class: ErrorClass)
        ensures
            class == self.class_of(),
    {
        match self {
            SearchError::MalformedDepth => ErrorClass::Configuration,
            SearchError::MalformedPattern => ErrorClass::Configuration,
            SearchError::NotADirectory => ErrorClass::Precondition,
            SearchError::OpenFailed => ErrorClass::Io,
            SearchError::ReadFailed => ErrorClass::Io,
        }
    }

    /// The line that tells the user of this failure.
    pub open spec fn message_text(self) -> Seq<char> {
        match self {
            SearchError::MalformedDepth => "Sorry, incorrect depth specified."@,
            SearchError::MalformedPattern => "Sorry, incorrect pattern specified."@,
            SearchError::NotADirectory => {
                "Make sure that the specified filepath is of type directory"@
            },
            SearchError::OpenFailed => "The specified file path doesn't exist"@,
            SearchError::ReadFailed => "Couldn't read directory. Try again!"@,
        }
    }

    /// The line that tells the user of this failure.
    pub fn message(&self) -> (text: &'static str)
        ensures
            text@ == self.message_text(),
    {
        match self {
            SearchError::MalformedDepth => "Sorry, incorrect depth specified.",
            SearchError::MalformedPattern => "Sorry, incorrect pattern specified.",
            SearchError::NotADirectory => {
                "Make sure that the specified filepath is of type directory"
            },
            SearchError::OpenFailed => "The specified file path doesn't exist",
            SearchError::ReadFailed => "Couldn't read directory. Try again!",
        }
    }
}

} // verus!
