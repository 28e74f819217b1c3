use vstd::prelude::*;

verus! {

/// The read-only configuration of one invocation, as the surrounding
/// command-line shell hands it over. The orchestrator never interprets the
/// credential, bucket or region values; it only passes them through.
pub struct Cli {
    /// Object-store access key, or taken from the environment by the shell.
    pub access_key: Option<String>,
    /// Object-store secret key, or taken from the environment by the shell.
    pub secret_key: Option<String>,
    /// Explicit object name; in directory mode, the destination prefix.
    pub object_name: Option<String>,
    /// Local path to upload: a single file or a directory root.
    pub file_path: Option<String>,
    /// Bucket to upload into.
    pub bucket_name: Option<String>,
    /// Region code of the bucket.
    pub region: Option<String>,
    /// Download domain; when set, a download link is shown per object.
    pub domain_name: Option<String>,
    /// Shell name to generate a completion script for, instead of uploading.
    pub completion: Option<String>,
    /// Suppress the scannable rendering of the download link.
    pub no_qrcode: bool,
    /// Part size for the transfer, in bytes; overrides `threads`.
    pub part_size: Option<usize>,
    /// Per-file transfer thread hint, used when `part_size` is absent.
    pub threads: Option<u8>,
}

} // verus!
