//! What can end a run before its archive is complete.

use vstd::prelude::*;

verus! {

/// A fatal condition. Each one ends the run at once; nothing is retried.
#[derive(Clone, Debug, PartialEq, Eq)]
pub enum Failure {
    /// The directory could not be listed. `detail` is the system's report.
    DirectoryUnreadable { detail: String },
    /// Under strict parsing, `name` does not match the date format.
    UnparseableFilename { name: String },
    /// The archive could not be created.
    ArchiveCreateFailed { detail: String },
    /// An entry could not be written into the archive.
    ArchiveWriteFailed { detail: String },
    /// A source file could not be read.
    SourceReadFailed { detail: String },
}

/// A failure with its texts as sequences of characters.
pub enum FailureView {
    DirectoryUnreadable { detail: Seq<char> },
    UnparseableFilename { name: Seq<char> },
    ArchiveCreateFailed { detail: Seq<char> },
    ArchiveWriteFailed { detail: Seq<char> },
    SourceReadFailed { detail: Seq<char> },
}

impl View for Failure {
    type V = FailureView;

    open spec fn view(&self) -> FailureView {
        match *self {
            Failure::DirectoryUnreadable { detail } => FailureView::DirectoryUnreadable {
                detail: detail@,
            },
            Failure::UnparseableFilename { name } => FailureView::UnparseableFilename {
                name: name@,
            },
            Failure::ArchiveCreateFailed { detail } => FailureView::ArchiveCreateFailed {
                detail: detail@,
            },
            Failure::ArchiveWriteFailed { detail } => FailureView::ArchiveWriteFailed {
                detail: detail@,
            },
            Failure::SourceReadFailed { detail } => FailureView::SourceReadFailed {
                detail: detail@,
            },
        }
    }
}

/// The line that reports a failure to the operator.
pub open spec fn failure_message(f: FailureView) -> Seq<char> {
    match f {
        FailureView::UnparseableFilename { name } => "not parsing format \""@ + name
            + "\" - use `--safe-parsing`"@,
        FailureView::DirectoryUnreadable { detail } => "Error: `"@ + detail + "`"@,
        FailureView::ArchiveCreateFailed { detail } => "Error: `"@ + detail + "`"@,
        FailureView::ArchiveWriteFailed { detail } => "Error: `"@ + detail + "`"@,
        FailureView::SourceReadFailed { detail } => "Error: `"@ + detail + "`"@,
    }
}

/// The exit code of a run that ended in a failure.
pub const FAILURE_EXIT_CODE: i32 = 1;

/// The exit code of a run that completed, or that found no dated file.
pub const SUCCESS_EXIT_CODE: i32 = 0;

impl Failure {
    /// A copy of this failure, text for text.
    pub fn clone_failure(&self) -> (c: Failure)
        ensures
            c@ == self@,
    {
        match self {
            Failure::DirectoryUnreadable { detail } => Failure::DirectoryUnreadable {
                detail: detail.clone(),
            },
            Failure::UnparseableFilename { name } => Failure::UnparseableFilename {
                name: name.clone(),
            },
            Failure::ArchiveCreateFailed { detail } => Failure::ArchiveCreateFailed {
                detail: detail.clone(),
            },
            Failure::ArchiveWriteFailed { detail } => Failure::ArchiveWriteFailed {
                detail: detail.clone(),
            },
            Failure::SourceReadFailed { detail } => Failure::SourceReadFailed {
                detail: detail.clone(),
            },
        }
    }

    /// The line that reports this failure to the operator.
    pub fn message(&self) -> (s: String)
        ensures
            s@ == failure_message(self@),
    {
        let mut s = String::new();
        match self {
            Failure::UnparseableFilename { name } => {
                s.append("not parsing format \"");
                s.append(name.as_str());
                s.append("\" - use `--safe-parsing`");
            },
            Failure::DirectoryUnreadable { detail } => {
                s.append("Error: `");
                s.append(detail.as_str());
                s.append("`");
            },
            Failure::ArchiveCreateFailed { detail } => {
                s.append("Error: `");
                s.append(detail.as_str());
                s.append("`");
            },
            Failure::ArchiveWriteFailed { detail } => {
                s.append("Error: `");
                s.append(detail.as_str());
                s.append("`");
            },
            Failure::SourceReadFailed { detail } => {
                s.append("Error: `");
                s.append(detail.as_str());
                s.append("`");
            },
        }
        assert(s@ =~= failure_message(self@));
        s
    }
}

} // verus!
