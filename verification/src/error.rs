//! Failure taxonomy of the boot pipeline. Every failure is fatal to a boot:
//! the orchestrator's caller is expected to report the error and halt.
use vstd::prelude::*;

verus! {

/// Everything that can go wrong between entry and stage transfer.
#[derive(Clone, Copy, Debug, PartialEq, Eq, Structural)]
pub enum BootError {
    /// The link-time-reserved destination region and the compile-time
    /// expected payload size disagree; caught before any disk access.
    ReservedSizeMismatch,
    /// A sector read fell outside the disk, or the disk geometry is unusable.
    DiskError,
    /// The boot parameter block is not recognizable as a usable FAT32 volume.
    VolumeStructure,
    /// No root directory entry matches the requested short name.
    FileNotFound,
    /// The directory entry declares a size larger than the destination.
    FileTooLarge,
    /// The cluster chain ended before the declared file size was delivered.
    TruncatedChain,
    /// The stored trailing checksum disagrees with the computed one.
    ChecksumMismatch,
}

} // verus!
