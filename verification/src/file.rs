//! Bounded file loading: the typed classification of a file read, and the
//! decision logic that refuses directories and oversized files before any
//! contents are read.

use vstd::prelude::*;
use crate::RejectReason;
use crate::RejectView;
use crate::item::{ConfigurationItem, with_value};
use crate::value::{RawValue, clone_bytes, coerce_spec};

verus! {

/// The byte threshold suggested for file sources.
pub const DEFAULT_MAX_FILE_SIZE_BYTES: u64 = 4096;

/// The ways in which file discovery can end.
#[derive(Debug, PartialEq)]
pub enum FileOutcome {
    ErrorAttemptingToOpenFile { err: String },
    ErrorAttemptingToReadFileMetadata { err: String },
    PathRefersToADirectory,
    FileIsTooLarge { file_size_bytes: u64 },
    ErrorAttemptingToReadFileContents { err: String },
    Success { buf: Vec<u8>, num_bytes_read: usize },
}

/// Which step of a file read went wrong; carried in a rejection so a trail
/// stays typed without holding the file contents.
#[derive(Debug, Clone, Copy, PartialEq, Eq, Structural)]
pub enum FileFailureKind {
    OpenError,
    MetadataError,
    Directory,
    TooLarge,
    ReadError,
}

/// What the metadata of a file dictates: reject a directory, reject a file
/// over the threshold, or (`None`) go on and read the contents.
pub open spec fn metadata_decision(is_dir: bool, file_size_bytes: u64, max_file_size_bytes: u64) -> Option<
    FileOutcome,
> {
    if is_dir {
        Some(FileOutcome::PathRefersToADirectory)
    } else if file_size_bytes > max_file_size_bytes {
        Some(FileOutcome::FileIsTooLarge { file_size_bytes })
    } else {
        None
    }
}

/// An attempt to load data from a file, bounded by a size threshold. The
/// caller performs the reads and this type holds the classified outcome.
#[derive(Debug)]
pub struct File {
    pub path: String,
    pub max_file_size_bytes: u64,
    pub result: FileOutcome,
}

impl File {
    pub fn new(path: String, max_file_size_bytes: u64, result: FileOutcome) -> (r: Self)
        ensures
            r.path == path,
            r.max_file_size_bytes == max_file_size_bytes,
            r.result == result,
    {
        File { path, max_file_size_bytes, result }
    }

    /// Decide from metadata whether the contents may be read: a directory or
    /// an oversized file is classified at once, `None` means go on reading.
    pub fn evaluate_metadata(is_dir: bool, file_size_bytes: u64, max_file_size_bytes: u64) -> (r:
        Option<FileOutcome>)
        ensures
            r == metadata_decision(is_dir, file_size_bytes, max_file_size_bytes),
    {
        if is_dir {
            Some(FileOutcome::PathRefersToADirectory)
        } else if file_size_bytes > max_file_size_bytes {
            Some(FileOutcome::FileIsTooLarge { file_size_bytes })
        } else {
            None
        }
    }

    /// Try to resolve `ci` from this file: successfully read contents are
    /// offered to the item as bytes; every failed read is a typed rejection.
    pub fn try_get(&self, ci: &mut ConfigurationItem) -> (r: Option<RejectReason>)
        ensures
            crate::reason_view(r) == file_reason(*self, *old(ci)),
            r is None ==> *final(ci) == with_value(*old(ci), file_accepted(*self, *old(ci))),
            r is Some ==> *final(ci) == *old(ci),
    {
        match &self.result {
            FileOutcome::Success { buf, .. } => {
                let candidate = RawValue::Bytes(clone_bytes(buf));
                match ci.try_value(candidate) {
                    None => None,
                    Some(e) => Some(
                        RejectReason::ValueRejected {
                            key: self.path.clone(),
                            value: RawValue::Bytes(clone_bytes(buf)),
                            reason: e,
                        },
                    ),
                }
            },
            FileOutcome::ErrorAttemptingToOpenFile { .. } => Some(
                RejectReason::IOError { kind: FileFailureKind::OpenError },
            ),
            FileOutcome::ErrorAttemptingToReadFileMetadata { .. } => Some(
                RejectReason::IOError { kind: FileFailureKind::MetadataError },
            ),
            FileOutcome::PathRefersToADirectory => Some(
                RejectReason::IOError { kind: FileFailureKind::Directory },
            ),
            FileOutcome::FileIsTooLarge { .. } => Some(
                RejectReason::IOError { kind: FileFailureKind::TooLarge },
            ),
            FileOutcome::ErrorAttemptingToReadFileContents { .. } => Some(
                RejectReason::IOError { kind: FileFailureKind::ReadError },
            ),
        }
    }
}

/// Why the file source rejects `item`, or `None` when it accepts.
pub open spec fn file_reason(f: File, item: ConfigurationItem) -> Option<RejectView> {
    match f.result {
        FileOutcome::Success { buf, .. } => match coerce_spec(item.kind, RawValue::Bytes(buf)) {
            Ok(_) => None,
            Err(e) => Some(
                RejectView::ValueRejected { key: f.path@, value: RawValue::Bytes(buf), reason: e },
            ),
        },
        FileOutcome::ErrorAttemptingToOpenFile { .. } => Some(
            RejectView::IOError { kind: FileFailureKind::OpenError },
        ),
        FileOutcome::ErrorAttemptingToReadFileMetadata { .. } => Some(
            RejectView::IOError { kind: FileFailureKind::MetadataError },
        ),
        FileOutcome::PathRefersToADirectory => Some(
            RejectView::IOError { kind: FileFailureKind::Directory },
        ),
        FileOutcome::FileIsTooLarge { .. } => Some(
            RejectView::IOError { kind: FileFailureKind::TooLarge },
        ),
        FileOutcome::ErrorAttemptingToReadFileContents { .. } => Some(
            RejectView::IOError { kind: FileFailureKind::ReadError },
        ),
    }
}

/// The value the file source supplies when it accepts.
pub open spec fn file_accepted(f: File, item: ConfigurationItem) -> RawValue {
    match f.result {
        FileOutcome::Success { buf, .. } => coerce_spec(item.kind, RawValue::Bytes(buf))->Ok_0,
        _ => arbitrary(),
    }
}

} // verus!
