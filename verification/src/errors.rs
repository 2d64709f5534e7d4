//! Error taxonomy: every engine operation returns a typed failure instead of
//! aborting the process, and the pipeline turns each failure into a
//! user-facing record without stopping the batch.

use vstd::prelude::*;
use vstd::string::StringExecFns;

verus! {

/// A structural fault found while scanning a file's layout (bad signature,
/// empty or truncated data).
#[derive(Debug)]
pub struct ExifStructureErr {
    pub info: String,
}

impl ExifStructureErr {
    pub fn new(info: &str) -> (r: ExifStructureErr)
        ensures
            r.info@ == info@,
    {
        ExifStructureErr { info: info.to_owned() }
    }
}

/// A fault reported by the archive layer, one case per condition the zip
/// container can fail with.
#[derive(Debug)]
pub enum ArchiveFault {
    Io,
    Invalid,
    Unsupported,
    NotFound,
}

/// One typed failure of an engine operation.
#[derive(Debug)]
pub enum PurgeErr {
    /// An open, read, write or rename failure, with its description.
    IoError(String),
    /// Bad signature, empty or truncated structural data, or non-UTF-8 text
    /// where UTF-8 is structurally guaranteed.
    MalformedFormat(ExifStructureErr),
    /// A corrupt or unsupported zip container.
    ArchiveError(ArchiveFault),
    /// A structural parse failure in a PDF document.
    DocumentParseError,
    /// A send to a closed channel: the peer worker exited unexpectedly.
    ChannelError(String),
}

/// The description shown to the user for an archive fault.
pub open spec fn archive_fault_text(f: ArchiveFault) -> Seq<char> {
    match f {
        ArchiveFault::Io => "I/O error"@,
        ArchiveFault::Invalid => "Invalid archive"@,
        ArchiveFault::Unsupported => "Unsupported archive"@,
        ArchiveFault::NotFound => "File not found"@,
    }
}

/// The description shown to the user for a failure.
pub open spec fn purge_err_text(e: PurgeErr) -> Seq<char> {
    match e {
        PurgeErr::IoError(s) => s@,
        PurgeErr::MalformedFormat(x) => x.info@,
        PurgeErr::ArchiveError(f) => archive_fault_text(f),
        PurgeErr::DocumentParseError => "Error parsing pdf"@,
        PurgeErr::ChannelError(s) => s@,
    }
}

/// A per-file failure as reported to the user: the file's path and a
/// human-readable cause.  Collected, never thrown past the worker boundary.
#[derive(Debug)]
pub struct UISideErr {
    pub path: String,
    pub info: String,
}

impl UISideErr {
    pub fn ui_show(self) -> (r: String)
        ensures
            r@ == "Failed to clean file at "@ + self.path@ + " .\n Reason: "@ + self.info@
                + " \n"@,
    {
        let s = String::from_str("Failed to clean file at ");
        let s = s.concat(self.path.as_str());
        let s = s.concat(" .\n Reason: ");
        let s = s.concat(self.info.as_str());
        s.concat(" \n")
    }

    pub fn prepare(self) -> (r: String)
        ensures
            r@ == "File at "@ + self.path@ + " was not processed due to: "@ + self.info@ + " "@,
    {
        let s = String::from_str("File at ");
        let s = s.concat(self.path.as_str());
        let s = s.concat(" was not processed due to: ");
        let s = s.concat(self.info.as_str());
        s.concat(" ")
    }
}

/// Conversion of an internal failure into its user-facing form.
pub trait ToUser<T> {
    fn to_user(&self, context: String) -> T;
}

impl ToUser<UISideErr> for PurgeErr {
    fn to_user(&self, context: String) -> (r: UISideErr)
        ensures
            r.path@ == context@,
            r.info@ == purge_err_text(*self),
    {
        let info = match self {
            PurgeErr::IoError(s) => s.clone(),
            PurgeErr::MalformedFormat(x) => x.info.clone(),
            PurgeErr::ArchiveError(ArchiveFault::Io) => String::from_str("I/O error"),
            PurgeErr::ArchiveError(ArchiveFault::Invalid) => String::from_str("Invalid archive"),
            PurgeErr::ArchiveError(ArchiveFault::Unsupported) => String::from_str(
                "Unsupported archive",
            ),
            PurgeErr::ArchiveError(ArchiveFault::NotFound) => String::from_str("File not found"),
            PurgeErr::DocumentParseError => String::from_str("Error parsing pdf"),
            PurgeErr::ChannelError(s) => s.clone(),
        };
        UISideErr { path: context, info }
    }
}

} // verus!
