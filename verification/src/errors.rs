//! The failures a run can meet, and what each means for the run.

use vstd::prelude::*;
use vstd::string::StringExecFns;

verus! {

/// Why a file, or the whole run, could not be converted.
#[derive(Clone, Debug, PartialEq, Eq)]
pub enum Error {
    /// A stream or the filesystem failed.
    Unknow,
    /// No output directory or name could be worked out.
    Path(String),
    /// The input, or what it decrypts to, is no known format.
    Format,
    /// No target was given.
    NoTarget,
    /// The embedded metadata cannot be read.
    Metadata,
    /// The worker count is outside the supported range.
    Worker,
    /// The decoder failed.
    Dump(String),
    /// The output file is already there and may not be overwritten.
    Exists,
}

/// What a failure means for the run it happens in.
#[derive(Clone, Copy, Debug, PartialEq, Eq, Structural)]
pub enum Policy {
    /// The run does not start, or stops.
    AbortRun,
    /// The file at hand is given up and reported; the run goes on with the next.
    SkipItem,
    /// The file is written without its metadata.
    DropMetadata,
}

impl Error {
    /// The text shown for this failure.
    pub open spec fn message_spec(self) -> Seq<char> {
        match self {
            Error::Unknow => "Unknow error"@,
            Error::Path(path) => "Can't resolve the path: "@ + path@,
            Error::Format => "Invalid file format"@,
            Error::NoTarget => "No target can be converted"@,
            Error::Metadata => "Can't get file's metadata"@,
            Error::Worker => "Worker can't less than 0 and more than 8"@,
            Error::Dump(reason) => "Dump err: "@ + reason@,
            Error::Exists => "Output file already exists"@,
        }
    }

    /// What this failure means for the run.
    pub open spec fn policy_spec(self) -> Policy {
        match self {
            Error::NoTarget | Error::Worker => Policy::AbortRun,
            Error::Metadata => Policy::DropMetadata,
            Error::Unknow | Error::Path(_) | Error::Format | Error::Dump(_) | Error::Exists =>
                Policy::SkipItem,
        }
    }

    /// The text shown for this failure.
    pub fn message(&self) -> (text: String)
        ensures
            text@ == self.message_spec(),
    {
        match self {
            Error::Unknow => String::from_str("Unknow error"),
            Error::Path(path) => String::from_str("Can't resolve the path: ").concat(path.as_str()),
            Error::Format => String::from_str("Invalid file format"),
            Error::NoTarget => String::from_str("No target can be converted"),
            Error::Metadata => String::from_str("Can't get file's metadata"),
            Error::Worker => String::from_str("Worker can't less than 0 and more than 8"),
            Error::Dump(reason) => String::from_str("Dump err: ").concat(reason.as_str()),
            Error::Exists => String::from_str("Output file already exists"),
        }
    }

    /// What this failure means for the run: a bad configuration stops it before it
    /// starts, unreadable metadata costs the file its tags, and anything else
    /// costs the one file it happened on.
    pub fn policy(&self) -> (policy: Policy)
        ensures
            policy == self.policy_spec(),
    {
        match self {
            Error::NoTarget | Error::Worker => Policy::AbortRun,
            Error::Metadata => Policy::DropMetadata,
            Error::Unknow | Error::Path(_) | Error::Format | Error::Dump(_) | Error::Exists =>
                Policy::SkipItem,
        }
    }
}

} // verus!
