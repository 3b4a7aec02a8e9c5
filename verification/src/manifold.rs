//! Blob-store upload descriptors: which bucket an event log or diagnostic
//! dump goes to, and under what name.
//!
//! Only the data side lives here: buckets, their access-key names, and the
//! description of one upload. Spawning the actual transfer is I/O and sits
//! outside this crate.

use vstd::prelude::*;

verus! {

/// Why an upload failed.
#[derive(Debug)]
pub enum UploadError {
    /// The upload process exited without a result code, probably due to a
    /// signal interrupt; carries the path that was being uploaded.
    NoResultCodeError(String),
    /// No suitable upload command exists on this machine.
    CommandNotFound,
    /// Uploading a file failed; carries the path, the exit code and what
    /// the process wrote to stderr.
    FileUploadExitCode { path: String, code: i32, stderr: String },
    /// Uploading a stream failed; carries the exit code and what the
    /// process wrote to stderr.
    StreamUploadExitCode { code: i32, stderr: String },
    /// The file to upload does not exist.
    FileNotFound,
    /// Any other failure, described in text.
    Other(String),
}

/// The buckets uploads can go to.
#[derive(Clone, Copy, Debug, PartialEq, Eq, Structural)]
pub enum Bucket {
    EventLogs,
    RageDumps,
    ReLogs,
}

/// A bucket's name and the name of the API key that grants access to it.
pub struct BucketInfo<'a> {
    pub name: &'a str,
    pub key: &'a str,
}

impl Bucket {
    /// The fixed name and key-name of each bucket.
    pub fn info(self) -> (r: BucketInfo<'static>)
        ensures
            self is EventLogs ==> r.name@ == "buck2_logs"@ && r.key@ == "buck2_logs-key"@,
            self is RageDumps ==> r.name@ == "buck2_rage_dumps"@ && r.key@ == "buck2_rage_dumps-key"@,
            self is ReLogs ==> r.name@ == "buck2_re_logs"@ && r.key@ == "buck2_re_logs-key"@,
    {
        match self {
            Bucket::EventLogs => BucketInfo { name: "buck2_logs", key: "buck2_logs-key" },
            Bucket::RageDumps => BucketInfo {
                name: "buck2_rage_dumps",
                key: "buck2_rage_dumps-key",
            },
            Bucket::ReLogs => BucketInfo { name: "buck2_re_logs", key: "buck2_re_logs-key" },
        }
    }
}

/// One upload: the bucket it goes to and the name it is stored under.
pub struct Upload<'a> {
    pub bucket: Bucket,
    pub filename: &'a str,
}

impl<'a> Upload<'a> {
    /// Describes an upload of `filename` into `bucket`.
    pub fn new(bucket: Bucket, filename: &'a str) -> (r: Upload<'a>)
        ensures
            r.bucket == bucket,
            r.filename@ == filename@,
    {
        Upload { bucket, filename }
    }
}

} // verus!
