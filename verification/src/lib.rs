//! First-stage boot support library: a read-only FAT32 volume walker, a
//! CRC32C checksum engine, and the orchestrator that locates a second-stage
//! payload on a volume image, verifies its integrity, and decides whether
//! control may be transferred.

pub mod boot;
pub mod bytes;
pub mod crc32c;
pub mod error;
pub mod fat32;
