//! Boot orchestrator: sequences disk open, volume open, stage-2 retrieval
//! and checksum verification, and decides between stage transfer and halt.
//! Every lower component reports typed failures; the caller of [`boot`] is
//! the single boundary that may turn a failure into an irreversible halt.
use vstd::prelude::*;

use crate::bytes::{get32, le32, le32_bytes, lemma_le32_bytes_roundtrip};
use crate::crc32c::{build_table, compute_range, crc32c, table_matches};
use crate::error::BootError;
use crate::fat32::{
    dir_walk_bound, lemma_find_error_kinds, lemma_read_chain_error_kinds, open_disk, open_volume,
    read_file, spec_find, spec_open_volume, spec_read_file,
};

verus! {

/// Expected size of the stage-2 region: payload plus trailing checksum.
/// The link-time-reserved destination buffer must have exactly this length.
pub const STAGE2_SIZE: usize = 0x73000;

/// The 8.3 short name of the stage-2 image, space-padded to 11 bytes with
/// no dot separator: `STAGE2  BIN`.
pub open spec fn stage2_name() -> Seq<u8> {
    seq![0x53u8, 0x54u8, 0x41u8, 0x47u8, 0x45u8, 0x32u8, 0x20u8, 0x20u8, 0x42u8, 0x49u8, 0x4Eu8]
}

/// The stage-2 short name as directory entries store it.
pub fn stage2_file_name() -> (r: [u8; 11])
    ensures
        r@ == stage2_name(),
{
    let r: [u8; 11] = [0x53, 0x54, 0x41, 0x47, 0x45, 0x32, 0x20, 0x20, 0x42, 0x49, 0x4E];
    proof {
        assert(r@ =~= stage2_name());
    }
    r
}

/// A loaded image carries a valid integrity trailer: its last 4 bytes,
/// read little-endian, equal the checksum of everything before them.
pub open spec fn checksum_ok(bytes: Seq<u8>) -> bool {
    &&& bytes.len() >= 4
    &&& le32(bytes, bytes.len() - 4) == crc32c(bytes.take(bytes.len() - 4))
}

/// The instruction to hand control onward: the disk identifier and volume
/// sector are forwarded to the next stage unchanged.
#[derive(Clone, Copy, Debug, PartialEq, Eq, Structural)]
pub struct Transfer {
    pub disk_number: u8,
    pub volume_lba: u32,
    /// Size in bytes of the loaded file, trailer included.
    pub file_size: u32,
}

/// The whole pipeline as a function of the disk image: the verified stage-2
/// bytes now sitting at the front of the destination, or the first failure.
/// The destination capacity is checked against the expected region size
/// before anything else, and the checksum after everything else.
pub open spec fn boot_outcome(image: Seq<u8>, sector_size: int, volume_lba: int, cap: int) -> Result<
    Seq<u8>,
    BootError,
> {
    if cap != STAGE2_SIZE {
        Err(BootError::ReservedSizeMismatch)
    } else if sector_size == 0 {
        Err(BootError::DiskError)
    } else {
        match spec_open_volume(image, sector_size, volume_lba) {
            Err(e) => Err(e),
            Ok(v) => match spec_read_file(image, v, stage2_name(), cap) {
                Err(e) => Err(e),
                Ok(bytes) => if checksum_ok(bytes) {
                    Ok(bytes)
                } else {
                    Err(BootError::ChecksumMismatch)
                },
            },
        }
    }
}

/// Checks the integrity trailer of `bytes`: at least 4 bytes long, with the
/// trailing 4 bytes equal to the checksum of the rest.
pub fn verify_checksum(table: &Vec<u32>, bytes: &Vec<u8>) -> (r: bool)
    requires
        table_matches(table@),
    ensures
        r == checksum_ok(bytes@),
{
    let n = bytes.len();
    if n < 4 {
        return false;
    }
    let expected = get32(bytes, n - 4);
    let actual = compute_range(table, bytes, 0, n - 4);
    proof {
        assert(bytes@.subrange(0, n - 4) =~= bytes@.take(n - 4));
    }
    expected == actual
}

/// A payload followed by its own encoded checksum always verifies: the
/// round trip from `crc32c` through the little-endian trailer back through
/// the orchestrator's check never rejects, whatever the payload length.
pub proof fn lemma_checksum_round_trip(payload: Seq<u8>)
    ensures
        checksum_ok(payload + le32_bytes(crc32c(payload))),
{
    let c = crc32c(payload);
    let full = payload + le32_bytes(c);
    assert(full.take(payload.len() as int) =~= payload);
    assert(full[payload.len() as int] == le32_bytes(c)[0]);
    assert(full[payload.len() as int + 1] == le32_bytes(c)[1]);
    assert(full[payload.len() as int + 2] == le32_bytes(c)[2]);
    assert(full[payload.len() as int + 3] == le32_bytes(c)[3]);
    lemma_le32_bytes_roundtrip(c);
}

/// A destination region whose length disagrees with the expected stage-2
/// size fails as a reserved-size mismatch whatever the disk holds: the
/// check precedes the disk being opened, so no disk contents, geometry or
/// volume location can change the outcome.
pub proof fn lemma_size_check_precedes_disk(image: Seq<u8>, sector_size: int, volume_lba: int, cap: int)
    requires
        cap != STAGE2_SIZE,
    ensures
        boot_outcome(image, sector_size, volume_lba, cap) == Err::<Seq<u8>, BootError>(
            BootError::ReservedSizeMismatch,
        ),
{
}

/// Runs the boot pipeline over a disk image handed over by the preceding
/// stage: checks the reserved-region size, opens the disk and the volume at
/// `volume_lba`, loads `STAGE2  BIN` into the front of `dest`, and verifies
/// its trailing checksum. Returns the transfer to perform, or the failure
/// on which the caller must halt. `dest` keeps its length; on success and
/// on a checksum mismatch it holds the loaded file at its front, and on any
/// earlier failure it is untouched.
pub fn boot(
    disk_number: u8,
    volume_lba: u32,
    image: Vec<u8>,
    sector_size: u16,
    dest: &mut Vec<u8>,
) -> (r: Result<Transfer, BootError>)
    ensures
        final(dest)@.len() == old(dest)@.len(),
        match boot_outcome(image@, sector_size as int, volume_lba as int, old(dest)@.len() as int) {
            Ok(bytes) => r matches Ok(t) && t == (Transfer {
                disk_number,
                volume_lba,
                file_size: bytes.len() as u32,
            }) && final(dest)@ == bytes + old(dest)@.skip(bytes.len() as int),
            Err(e) => r == Err::<Transfer, BootError>(e) && (e != BootError::ChecksumMismatch
                ==> final(dest)@ == old(dest)@),
        },
        ({
            let outcome = boot_outcome(
                image@,
                sector_size as int,
                volume_lba as int,
                old(dest)@.len() as int,
            );
            let vres = spec_open_volume(image@, sector_size as int, volume_lba as int);
            outcome == Err::<Seq<u8>, BootError>(BootError::ChecksumMismatch) ==> {
                let bytes = spec_read_file(
                    image@,
                    vres->Ok_0,
                    stage2_name(),
                    old(dest)@.len() as int,
                )->Ok_0;
                final(dest)@ == bytes + old(dest)@.skip(bytes.len() as int)
            }
        }),
{
    if dest.len() != STAGE2_SIZE {
        return Err(BootError::ReservedSizeMismatch);
    }
    let disk = match open_disk(image, sector_size) {
        Ok(d) => d,
        Err(e) => return Err(e),
    };
    let volume = match open_volume(&disk, volume_lba) {
        Ok(v) => v,
        Err(e) => {
            proof {
                assert(e != BootError::ChecksumMismatch);
            }
            return Err(e);
        },
    };
    let name = stage2_file_name();
    let size = match read_file(&disk, &volume, &name, dest) {
        Ok(s) => s,
        Err(e) => {
            proof {
                lemma_find_error_kinds(
                    disk.image@,
                    volume,
                    stage2_name(),
                    volume.root_cluster as int,
                    dir_walk_bound(volume),
                );
                let fr = spec_find(
                    disk.image@,
                    volume,
                    stage2_name(),
                    volume.root_cluster as int,
                    dir_walk_bound(volume),
                );
                if fr is Ok {
                    lemma_read_chain_error_kinds(
                        disk.image@,
                        volume,
                        fr->Ok_0.first_cluster as int,
                        fr->Ok_0.size as nat,
                    );
                }
                assert(e != BootError::ChecksumMismatch);
            }
            return Err(e);
        },
    };
    let table = build_table();
    if size < 4 {
        return Err(BootError::ChecksumMismatch);
    }
    let co = (size - 4) as usize;
    let expected = get32(dest, co);
    let actual = compute_range(&table, dest, 0, co);
    proof {
        let bytes = spec_read_file(
            disk.image@,
            volume,
            stage2_name(),
            old(dest)@.len() as int,
        )->Ok_0;
        assert(dest@.subrange(0, co as int) =~= bytes.take(co as int));
        assert(le32(dest@, co as int) == le32(bytes, co as int));
    }
    if expected != actual {
        return Err(BootError::ChecksumMismatch);
    }
    Ok(Transfer { disk_number, volume_lba, file_size: size })
}

} // verus!
