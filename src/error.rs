use vstd::prelude::*;

verus! {

#[verifier::external_type_specification]
#[verifier::external_body]
pub struct ExIoError(std::io::Error);

/// Why a file could not be read.
#[derive(Debug)]
pub enum OpenReadError {
    /// Neither the cache nor the backing store holds the path.
    FileDoesNotExist(String),
    /// The backing store failed for another reason.
    IoError { filepath: String, io_error: std::io::Error },
}

impl OpenReadError {
    /// Whether this error names `path` and reports what the failed read `disk` came to.
    pub open spec fn reports(self, path: Seq<char>, disk: DiskRead) -> bool {
        match (self, disk) {
            (OpenReadError::FileDoesNotExist(p), DiskRead::NotFound) => p@ == path,
            (OpenReadError::IoError { filepath, io_error }, DiskRead::Failed(e)) => filepath@ == path
                && io_error == e,
            _ => false,
        }
    }
}

/// The write family of operations is not offered by a read-oriented directory.
#[derive(Debug, Clone, Copy, PartialEq, Eq, Structural)]
pub enum WriteError {
    Unsupported,
}

/// What a full read of one file in the backing store came to.
#[derive(Debug)]
pub enum DiskRead {
    /// The whole contents.
    Bytes(Vec<u8>),
    /// The file is not there.
    NotFound,
    /// Any other failure.
    Failed(std::io::Error),
}

} // verus!
