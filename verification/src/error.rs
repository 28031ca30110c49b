//! The two-tier error taxonomy of the updater.
//!
//! `OtaInternalError` covers faults met while working with the partitions
//! and the metadata store; `OtaUpdateError` is what the update entry points
//! hand to their caller, wrapping the tier below.

use vstd::prelude::*;

verus! {

/// A fault met while operating on the flash device or the partition table.
///
/// `E` is the storage backend's own error type.
#[derive(Debug, PartialEq, Eq)]
pub enum FlashOpError<E> {
    /// A partition-table entry could not be parsed.
    PartitionError,
    /// The storage backend failed.
    StorageError(E),
}

/// Errors met while working with the ota partitions.
#[derive(Debug, PartialEq, Eq)]
pub enum OtaInternalError<E> {
    /// Neither copy of the stored update record passed validation.
    OtaDataCorrupt,
    /// A flash operation failed.
    NorFlashOpError(FlashOpError<E>),
    /// No partition-table entry matched the lookup.
    PartitionNotFound,
    /// More than one partition-table entry matched the lookup.
    PartitionFoundTwice,
}

/// Errors that may occur during an OTA update.
///
/// `E` is the storage backend's error type, `R` the image source's.
#[derive(Debug, PartialEq, Eq)]
pub enum OtaUpdateError<E, R> {
    /// The image that was booted has not been verified as working yet,
    /// so it may not start an update before being accepted or rejected.
    PendingVerify,
    /// Not enough space in the target partition.
    OutOfSpace,
    /// Another update is already in progress.
    AlreadyUpdating,
    /// The image source failed.
    ReadError(R),
    /// Internal error while working with the ota partitions.
    InternalError(OtaInternalError<E>),
}

impl<E> From<FlashOpError<E>> for OtaInternalError<E> {
    fn from(value: FlashOpError<E>) -> (r: Self) {
        OtaInternalError::NorFlashOpError(value)
    }
}

impl<E> vstd::std_specs::convert::FromSpecImpl<FlashOpError<E>> for OtaInternalError<E> {
    open spec fn obeys_from_spec() -> bool {
        true
    }

    open spec fn from_spec(value: FlashOpError<E>) -> Self {
        OtaInternalError::NorFlashOpError(value)
    }
}

impl<E, R> From<OtaInternalError<E>> for OtaUpdateError<E, R> {
    fn from(value: OtaInternalError<E>) -> (r: Self) {
        OtaUpdateError::InternalError(value)
    }
}

impl<E, R> vstd::std_specs::convert::FromSpecImpl<OtaInternalError<E>> for OtaUpdateError<E, R> {
    open spec fn obeys_from_spec() -> bool {
        true
    }

    open spec fn from_spec(value: OtaInternalError<E>) -> Self {
        OtaUpdateError::InternalError(value)
    }
}

} // verus!
