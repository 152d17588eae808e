//! Read-only FAT32 volume walker: boot-parameter-block parsing, root
//! directory scanning, and cluster-chain file reads over a sector-addressable
//! disk image.
use vstd::prelude::*;

use crate::bytes::{get16, get32, le16, le32};
use crate::error::BootError;

verus! {

/// A BIOS-addressable block device: its contents as one linear byte image,
/// plus the geometry needed to translate logical sector numbers into byte
/// ranges. Logical sector `n` occupies bytes `n * sector_size ..
/// (n + 1) * sector_size` of the image.
#[derive(Debug, PartialEq, Eq)]
pub struct Disk {
    pub image: Vec<u8>,
    pub sector_size: u16,
}

/// Immutable snapshot of the boot-parameter-block fields needed for cluster
/// arithmetic, plus the geometry derived from them once at open time.
#[derive(Clone, Copy, Debug, PartialEq, Eq, Structural)]
pub struct Volume {
    /// Absolute sector at which the volume begins.
    pub start_lba: u32,
    pub bytes_per_sector: u16,
    pub sectors_per_cluster: u8,
    pub reserved_sectors: u16,
    pub num_fats: u8,
    pub sectors_per_fat: u32,
    /// Starting cluster of the root directory.
    pub root_cluster: u32,
    /// First sector of the file allocation table region.
    pub fat_start_lba: u64,
    /// First sector of the data region; cluster 2 begins here.
    pub data_start_lba: u64,
}

/// A root directory entry that matched the requested short name: the start
/// of its cluster chain and its declared size in bytes.
#[derive(Clone, Copy, Debug, PartialEq, Eq, Structural)]
pub struct DirHit {
    pub first_cluster: u32,
    pub size: u32,
}

/// Outcome of scanning the directory entries of one cluster.
pub enum ScanOutcome {
    /// A matching entry; first match wins.
    Found(DirHit),
    /// An entry whose name begins with a null byte: end of the listing.
    EndOfListing,
    /// Neither; the listing continues in the next chain cluster.
    Continue,
}

/// Well-formedness of a parsed volume: the fields that must be nonzero are,
/// and the derived geometry agrees with the base fields.
pub open spec fn volume_wf(v: Volume) -> bool {
    &&& v.bytes_per_sector > 0
    &&& v.sectors_per_cluster > 0
    &&& v.num_fats > 0
    &&& v.fat_start_lba == v.start_lba + v.reserved_sectors
    &&& v.data_start_lba == v.fat_start_lba + v.num_fats * v.sectors_per_fat
}

/// Bytes of one cluster.
pub open spec fn cluster_size(v: Volume) -> int {
    v.sectors_per_cluster * v.bytes_per_sector
}

/// Byte offset of cluster `c` in the disk image; cluster numbering begins
/// at 2 at the start of the data region.
pub open spec fn cluster_off(v: Volume, c: int) -> int {
    (v.data_start_lba + (c - 2) * v.sectors_per_cluster) * v.bytes_per_sector
}

/// Cluster `c` lies wholly on the disk.
pub open spec fn cluster_in_range(image: Seq<u8>, v: Volume, c: int) -> bool {
    &&& 2 <= c
    &&& cluster_off(v, c) + cluster_size(v) <= image.len()
}

/// The contents of cluster `c`.
pub open spec fn cluster_data(image: Seq<u8>, v: Volume, c: int) -> Seq<u8> {
    image.subrange(cluster_off(v, c), cluster_off(v, c) + cluster_size(v))
}

/// Byte offset of the FAT entry for cluster `c`.
pub open spec fn fat_entry_off(v: Volume, c: int) -> int {
    v.fat_start_lba * v.bytes_per_sector + 4 * c
}

/// The FAT entry for cluster `c` lies wholly on the disk.
pub open spec fn fat_entry_in_range(image: Seq<u8>, v: Volume, c: int) -> bool {
    fat_entry_off(v, c) + 4 <= image.len()
}

/// The chain pointer stored for cluster `c`: only the low 28 bits of a FAT
/// entry are significant.
pub open spec fn fat_next(image: Seq<u8>, v: Volume, c: int) -> int {
    le32(image, fat_entry_off(v, c)) % 0x10000000
}

/// Cluster values at or above this mark the end of a chain.
pub open spec fn is_end_of_chain(c: int) -> bool {
    c >= 0x0FFFFFF8
}

/// The volume fields parsed from the boot sector, relative to which the
/// sector's bytes start, together with the geometry derived from them.
pub open spec fn parse_volume(sector: Seq<u8>, start_lba: int) -> Volume {
    let bytes_per_sector = le16(sector, 0x0B);
    let sectors_per_cluster = sector[0x0D];
    let reserved_sectors = le16(sector, 0x0E);
    let num_fats = sector[0x10];
    let sectors_per_fat = le32(sector, 0x24);
    let root_cluster = le32(sector, 0x2C);
    Volume {
        start_lba: start_lba as u32,
        bytes_per_sector: bytes_per_sector as u16,
        sectors_per_cluster,
        reserved_sectors: reserved_sectors as u16,
        num_fats,
        sectors_per_fat: sectors_per_fat as u32,
        root_cluster: root_cluster as u32,
        fat_start_lba: (start_lba + reserved_sectors) as u64,
        data_start_lba: (start_lba + reserved_sectors + num_fats * sectors_per_fat) as u64,
    }
}

/// What opening a volume at sector `lba` of a disk with sector size `ss`
/// yields: the parsed volume, or the failure the attempt runs into.
pub open spec fn spec_open_volume(image: Seq<u8>, ss: int, lba: int) -> Result<Volume, BootError> {
    if (lba + 1) * ss > image.len() {
        Err(BootError::DiskError)
    } else if ss < 0x30 {
        Err(BootError::VolumeStructure)
    } else {
        let v = parse_volume(image.subrange(lba * ss, lba * ss + ss), lba);
        if v.bytes_per_sector == ss && v.sectors_per_cluster > 0 && v.num_fats > 0 {
            Ok(v)
        } else {
            Err(BootError::VolumeStructure)
        }
    }
}

/// Opens the block device handed over by the preceding boot stage. The
/// geometry must be usable: a zero sector size is a disk-access failure.
pub fn open_disk(image: Vec<u8>, sector_size: u16) -> (r: Result<Disk, BootError>)
    ensures
        match r {
            Ok(d) => sector_size > 0 && d.image@ == image@ && d.sector_size == sector_size,
            Err(e) => sector_size == 0 && e == BootError::DiskError,
        },
{
    if sector_size == 0 {
        Err(BootError::DiskError)
    } else {
        Ok(Disk { image, sector_size })
    }
}

/// Reads the boot sector at `start_lba` and parses the boot parameter
/// block. Fails with a disk error when the sector is not on the disk, and
/// with a volume-structure error when a field that must be nonzero is zero
/// or the stored sector size disagrees with the disk's geometry.
pub fn open_volume(disk: &Disk, start_lba: u32) -> (r: Result<Volume, BootError>)
    requires
        disk.sector_size > 0,
    ensures
        r == spec_open_volume(disk.image@, disk.sector_size as int, start_lba as int),
        r matches Ok(v) ==> volume_wf(v),
{
    let ss = disk.sector_size as u64;
    let lba = start_lba as u64;
    let len = disk.image.len() as u64;
    proof {
        assert(lba * ss <= 0xFFFFFFFFu64 * 0xFFFFu64 && (lba + 1) * ss == lba * ss + ss)
            by (nonlinear_arith)
            requires
                lba <= 0xFFFFFFFFu64,
                ss <= 0xFFFFu64,
        ;
    }
    let off = lba * ss;
    if off > u64::MAX - ss || off + ss > len {
        return Err(BootError::DiskError);
    }
    if disk.sector_size < 0x30 {
        return Err(BootError::VolumeStructure);
    }
    let base = off as usize;
    let ghost sector = disk.image@.subrange(off as int, off + ss);
    proof {
        assert(forall|k: int| 0 <= k < ss ==> sector[k] == disk.image@[off + k]);
    }
    let bytes_per_sector = get16(&disk.image, base + 0x0B);
    let sectors_per_cluster = disk.image[base + 0x0D];
    let reserved_sectors = get16(&disk.image, base + 0x0E);
    let num_fats = disk.image[base + 0x10];
    let sectors_per_fat = get32(&disk.image, base + 0x24);
    let root_cluster = get32(&disk.image, base + 0x2C);
    if !(bytes_per_sector == disk.sector_size && sectors_per_cluster > 0 && num_fats > 0) {
        return Err(BootError::VolumeStructure);
    }
    let fat_start_lba = lba + reserved_sectors as u64;
    proof {
        assert(num_fats as u64 * (sectors_per_fat as u64) <= 0xFFu64 * 0xFFFFFFFFu64)
            by (nonlinear_arith)
            requires
                num_fats as u64 <= 0xFFu64,
                sectors_per_fat as u64 <= 0xFFFFFFFFu64,
        ;
    }
    let data_start_lba = fat_start_lba + num_fats as u64 * sectors_per_fat as u64;
    let v = Volume {
        start_lba,
        bytes_per_sector,
        sectors_per_cluster,
        reserved_sectors,
        num_fats,
        sectors_per_fat,
        root_cluster,
        fat_start_lba,
        data_start_lba,
    };
    proof {
        assert(v == parse_volume(sector, start_lba as int));
    }
    Ok(v)
}

/// Number of chain links the directory walk will follow before giving up:
/// one per entry the file allocation table can hold, which no acyclic chain
/// can exceed.
pub open spec fn dir_walk_bound(v: Volume) -> nat {
    (v.sectors_per_fat * v.bytes_per_sector / 4) as nat
}

/// The short name stored in directory entry `i` of a cluster's bytes:
/// 11 bytes, space-padded, no dot separator.
pub open spec fn entry_name(cl: Seq<u8>, i: int) -> Seq<u8> {
    cl.subrange(32 * i, 32 * i + 11)
}

/// The starting cluster recorded in directory entry `i`, high and low
/// halves combined.
pub open spec fn entry_first_cluster(cl: Seq<u8>, i: int) -> int {
    le16(cl, 32 * i + 0x14) * 0x10000 + le16(cl, 32 * i + 0x1A)
}

/// The file size recorded in directory entry `i`.
pub open spec fn entry_size(cl: Seq<u8>, i: int) -> int {
    le32(cl, 32 * i + 0x1C)
}

/// Directory entry `i` names a regular file called `name`: it is neither
/// free nor deleted, it is not a volume-label or long-name pseudo-entry,
/// and its stored short name matches exactly.
pub open spec fn entry_matches(cl: Seq<u8>, i: int, name: Seq<u8>) -> bool {
    &&& cl[32 * i] != 0
    &&& cl[32 * i] != 0xE5
    &&& cl[32 * i + 0x0B] & 0x08 == 0
    &&& entry_name(cl, i) == name
}

/// Scans the 32-byte directory entries of one cluster from index `i` up to
/// `n`: the first matching entry wins, an entry beginning with a null byte
/// ends the whole listing, and anything else is skipped.
pub open spec fn spec_scan(cl: Seq<u8>, i: int, n: int, name: Seq<u8>) -> ScanOutcome
    decreases n - i,
{
    if i >= n {
        ScanOutcome::Continue
    } else if cl[32 * i] == 0 {
        ScanOutcome::EndOfListing
    } else if entry_matches(cl, i, name) {
        ScanOutcome::Found(
            DirHit {
                first_cluster: entry_first_cluster(cl, i) as u32,
                size: entry_size(cl, i) as u32,
            },
        )
    } else {
        spec_scan(cl, i + 1, n, name)
    }
}

/// Walks the root directory's cluster chain looking for `name`, at most
/// `fuel` links deep. A chain that ends, a listing that ends, or a walk
/// that exhausts every cluster the table can address without a match is a
/// not-found failure; a cluster or table entry off the disk is a disk
/// error.
pub open spec fn spec_find(
    image: Seq<u8>,
    v: Volume,
    name: Seq<u8>,
    c: int,
    fuel: nat,
) -> Result<DirHit, BootError>
    decreases fuel,
{
    if is_end_of_chain(c) {
        Err(BootError::FileNotFound)
    } else if fuel == 0 {
        Err(BootError::FileNotFound)
    } else if !cluster_in_range(image, v, c) {
        Err(BootError::DiskError)
    } else {
        match spec_scan(cluster_data(image, v, c), 0, cluster_size(v) / 32, name) {
            ScanOutcome::Found(hit) => Ok(hit),
            ScanOutcome::EndOfListing => Err(BootError::FileNotFound),
            ScanOutcome::Continue => if !fat_entry_in_range(image, v, c) {
                Err(BootError::DiskError)
            } else {
                spec_find(image, v, name, fat_next(image, v, c), (fuel - 1) as nat)
            },
        }
    }
}

/// The bytes delivered by walking a cluster chain from `c` until `size`
/// bytes are gathered. The final cluster is truncated at `size`; a cluster
/// that is not needed is never read, and a chain that ends first is a
/// truncation failure.
pub open spec fn spec_read_chain(image: Seq<u8>, v: Volume, c: int, size: nat) -> Result<
    Seq<u8>,
    BootError,
>
    decreases size,
{
    if size == 0 {
        Ok(Seq::empty())
    } else if cluster_size(v) < 1 {
        Err(BootError::DiskError)
    } else if is_end_of_chain(c) {
        Err(BootError::TruncatedChain)
    } else if !cluster_in_range(image, v, c) {
        Err(BootError::DiskError)
    } else if size <= cluster_size(v) {
        Ok(cluster_data(image, v, c).take(size as int))
    } else if !fat_entry_in_range(image, v, c) {
        Err(BootError::DiskError)
    } else {
        match spec_read_chain(
            image,
            v,
            fat_next(image, v, c),
            (size - cluster_size(v)) as nat,
        ) {
            Ok(rest) => Ok(cluster_data(image, v, c) + rest),
            Err(e) => Err(e),
        }
    }
}

/// What looking up `name` in the root directory and loading it into a
/// destination of capacity `cap` yields: the file's bytes, or the first
/// failure along the way. The capacity is checked against the declared
/// size before any file cluster is read.
pub open spec fn spec_read_file(image: Seq<u8>, v: Volume, name: Seq<u8>, cap: int) -> Result<
    Seq<u8>,
    BootError,
> {
    match spec_find(image, v, name, v.root_cluster as int, dir_walk_bound(v)) {
        Err(e) => Err(e),
        Ok(hit) => if hit.size > cap {
            Err(BootError::FileTooLarge)
        } else {
            spec_read_chain(image, v, hit.first_cluster as int, hit.size as nat)
        },
    }
}

/// A directory walk fails only as not-found or as a disk error.
pub proof fn lemma_find_error_kinds(image: Seq<u8>, v: Volume, name: Seq<u8>, c: int, fuel: nat)
    ensures
        spec_find(image, v, name, c, fuel) matches Err(e) ==> e == BootError::FileNotFound || e
            == BootError::DiskError,
    decreases fuel,
{
    if !is_end_of_chain(c) && fuel != 0 && cluster_in_range(image, v, c) {
        match spec_scan(cluster_data(image, v, c), 0, cluster_size(v) / 32, name) {
            ScanOutcome::Continue => {
                if fat_entry_in_range(image, v, c) {
                    lemma_find_error_kinds(image, v, name, fat_next(image, v, c), (fuel - 1) as nat);
                }
            },
            _ => {},
        }
    }
}

/// A chain read fails only as a truncated chain or as a disk error.
pub proof fn lemma_read_chain_error_kinds(image: Seq<u8>, v: Volume, c: int, size: nat)
    ensures
        spec_read_chain(image, v, c, size) matches Err(e) ==> e == BootError::TruncatedChain || e
            == BootError::DiskError,
    decreases size,
{
    if size > 0 && cluster_size(v) >= 1 && !is_end_of_chain(c) && cluster_in_range(image, v, c)
        && size > cluster_size(v) && fat_entry_in_range(image, v, c) {
        lemma_read_chain_error_kinds(
            image,
            v,
            fat_next(image, v, c),
            (size - cluster_size(v)) as nat,
        );
    }
}

/// Reads the whole of cluster `c` from the disk.
fn read_cluster(disk: &Disk, v: &Volume, c: u32) -> (r: Result<Vec<u8>, BootError>)
    requires
        volume_wf(*v),
    ensures
        match r {
            Ok(data) => cluster_in_range(disk.image@, *v, c as int) && data@ == cluster_data(
                disk.image@,
                *v,
                c as int,
            ),
            Err(e) => !cluster_in_range(disk.image@, *v, c as int) && e == BootError::DiskError,
        },
{
    let len = disk.image.len() as u64;
    if c < 2 {
        return Err(BootError::DiskError);
    }
    let spc = v.sectors_per_cluster as u64;
    let bps = v.bytes_per_sector as u64;
    proof {
        assert(v.data_start_lba <= 0xFFFFFFFFu64 + 0xFFFFu64 + 0xFFu64 * 0xFFFFFFFFu64
            && v.num_fats * v.sectors_per_fat <= 0xFFu64 * 0xFFFFFFFFu64) by (nonlinear_arith)
            requires
                v.data_start_lba == v.start_lba + v.reserved_sectors + v.num_fats
                    * v.sectors_per_fat,
                v.start_lba <= 0xFFFFFFFFu64,
                v.reserved_sectors <= 0xFFFFu64,
                v.num_fats <= 0xFFu64,
                v.sectors_per_fat <= 0xFFFFFFFFu64,
        ;
        assert((c - 2) as u64 * spc <= 0xFFFFFFFFu64 * 0xFFu64) by (nonlinear_arith)
            requires
                2 <= c <= 0xFFFFFFFFu64,
                spc <= 0xFFu64,
        ;
    }
    let lba: u64 = v.data_start_lba + (c as u64 - 2) * spc;
    proof {
        assert(lba * bps <= 0x20000000000u64 * 0xFFFFu64 && spc * bps <= 0xFFu64 * 0xFFFFu64
            && lba * bps == (v.data_start_lba + (c - 2) * v.sectors_per_cluster)
            * v.bytes_per_sector) by (nonlinear_arith)
            requires
                lba == v.data_start_lba + (c - 2) as u64 * spc,
                lba <= 0x20000000000u64,
                bps <= 0xFFFFu64,
                spc <= 0xFFu64,
                spc == v.sectors_per_cluster,
                bps == v.bytes_per_sector,
                c >= 2,
        ;
    }
    let off: u64 = lba * bps;
    let csize: u64 = spc * bps;
    if off > len || csize > len - off {
        return Err(BootError::DiskError);
    }
    let base = off as usize;
    let m = csize as usize;
    let mut data: Vec<u8> = Vec::new();
    let mut j: usize = 0;
    while j < m
        invariant
            j <= m,
            base + m <= disk.image@.len() <= usize::MAX,
            data@.len() == j,
            forall|k: int| 0 <= k < j ==> data@[k] == disk.image@[base + k],
        decreases m - j,
    {
        data.push(disk.image[base + j]);
        j = j + 1;
    }
    proof {
        assert(data@ =~= cluster_data(disk.image@, *v, c as int));
    }
    Ok(data)
}

/// Reads the file allocation table entry for cluster `c` and masks it to
/// its significant low 28 bits.
fn read_fat_entry(disk: &Disk, v: &Volume, c: u32) -> (r: Result<u32, BootError>)
    requires
        volume_wf(*v),
    ensures
        match r {
            Ok(n) => fat_entry_in_range(disk.image@, *v, c as int) && n == fat_next(
                disk.image@,
                *v,
                c as int,
            ),
            Err(e) => !fat_entry_in_range(disk.image@, *v, c as int) && e == BootError::DiskError,
        },
{
    let len = disk.image.len() as u64;
    let bps = v.bytes_per_sector as u64;
    proof {
        assert(v.fat_start_lba <= 0xFFFFFFFFu64 + 0xFFFFu64);
        assert(v.fat_start_lba * bps <= 0x10000FFFEu64 * 0xFFFFu64 && v.fat_start_lba * bps
            == v.fat_start_lba * v.bytes_per_sector) by (nonlinear_arith)
            requires
                v.fat_start_lba <= 0x10000FFFEu64,
                bps <= 0xFFFFu64,
                bps == v.bytes_per_sector,
        ;
    }
    let off: u64 = v.fat_start_lba * bps + 4 * c as u64;
    if off > len || 4 > len - off {
        return Err(BootError::DiskError);
    }
    let raw = get32(&disk.image, off as usize);
    let masked = raw & 0x0FFFFFFF;
    proof {
        assert(raw & 0x0FFFFFFF == raw % 0x10000000) by (bit_vector);
    }
    Ok(masked)
}

/// Compares the 11 stored name bytes at `off` against `name`.
fn bytes_match(data: &Vec<u8>, off: usize, name: &[u8; 11]) -> (b: bool)
    requires
        off + 11 <= data@.len(),
    ensures
        b == (data@.subrange(off as int, off + 11) == name@),
{
    proof {
        assert(data.len() == data@.len());
    }
    let mut j: usize = 0;
    while j < 11
        invariant
            j <= 11,
            off + 11 <= data@.len() <= usize::MAX,
            forall|k: int| 0 <= k < j ==> data@[off + k] == name@[k],
        decreases 11 - j,
    {
        if data[off + j] != name[j] {
            proof {
                assert(data@.subrange(off as int, off + 11)[j as int] == data@[off + j]);
            }
            return false;
        }
        j = j + 1;
    }
    proof {
        assert(data@.subrange(off as int, off + 11) =~= name@);
    }
    true
}

/// Scans the directory entries held in one cluster's bytes for `name`.
fn scan_cluster(data: &Vec<u8>, name: &[u8; 11]) -> (r: ScanOutcome)
    ensures
        r == spec_scan(data@, 0, data@.len() as int / 32, name@),
{
    let n: usize = data.len() / 32;
    proof {
        assert(32 * (data@.len() as int / 32) <= data@.len()) by (nonlinear_arith);
    }
    let mut i: usize = 0;
    while i < n
        invariant
            i <= n,
            n == data@.len() as int / 32,
            32 * n <= data@.len() <= usize::MAX,
            spec_scan(data@, 0, n as int, name@) == spec_scan(data@, i as int, n as int, name@),
        decreases n - i,
    {
        let off = 32 * i;
        let first = data[off];
        if first == 0 {
            return ScanOutcome::EndOfListing;
        }
        let attr = data[off + 0x0B];
        if first != 0xE5 && attr & 0x08 == 0 && bytes_match(data, off, name) {
            let hi = get16(data, off + 0x14);
            let lo = get16(data, off + 0x1A);
            let size = get32(data, off + 0x1C);
            let fc = (hi as u32) * 0x10000 + lo as u32;
            proof {
                assert(entry_matches(data@, i as int, name@));
                assert(fc == entry_first_cluster(data@, i as int));
            }
            return ScanOutcome::Found(DirHit { first_cluster: fc, size });
        }
        proof {
            assert(!entry_matches(data@, i as int, name@));
        }
        i = i + 1;
    }
    ScanOutcome::Continue
}

/// Walks the root directory chain for the entry named `name`.
fn find_in_dir(disk: &Disk, v: &Volume, name: &[u8; 11]) -> (r: Result<DirHit, BootError>)
    requires
        volume_wf(*v),
    ensures
        r == spec_find(disk.image@, *v, name@, v.root_cluster as int, dir_walk_bound(*v)),
{
    let bps = v.bytes_per_sector as u64;
    let spf = v.sectors_per_fat as u64;
    proof {
        assert(spf * bps <= 0xFFFFFFFFu64 * 0xFFFFu64 && spf * bps == v.sectors_per_fat
            * v.bytes_per_sector) by (nonlinear_arith)
            requires
                spf <= 0xFFFFFFFFu64,
                bps <= 0xFFFFu64,
                spf == v.sectors_per_fat,
                bps == v.bytes_per_sector,
        ;
    }
    let mut fuel: u64 = spf * bps / 4;
    let mut c: u32 = v.root_cluster;
    loop
        invariant
            volume_wf(*v),
            spec_find(disk.image@, *v, name@, v.root_cluster as int, dir_walk_bound(*v))
                == spec_find(disk.image@, *v, name@, c as int, fuel as nat),
        decreases fuel,
    {
        if c >= 0x0FFFFFF8 {
            return Err(BootError::FileNotFound);
        }
        if fuel == 0 {
            return Err(BootError::FileNotFound);
        }
        let data = match read_cluster(disk, v, c) {
            Ok(d) => d,
            Err(e) => return Err(e),
        };
        match scan_cluster(&data, name) {
            ScanOutcome::Found(hit) => {
                return Ok(hit);
            },
            ScanOutcome::EndOfListing => {
                return Err(BootError::FileNotFound);
            },
            ScanOutcome::Continue => {
                let next = match read_fat_entry(disk, v, c) {
                    Ok(x) => x,
                    Err(e) => return Err(e),
                };
                proof {
                    assert(spec_find(disk.image@, *v, name@, c as int, fuel as nat) == spec_find(
                        disk.image@,
                        *v,
                        name@,
                        next as int,
                        (fuel - 1) as nat,
                    ));
                }
                c = next;
                fuel = fuel - 1;
            },
        }
    }
}

/// Gathers `size` bytes along the cluster chain that starts at `first`.
fn read_chain(disk: &Disk, v: &Volume, first: u32, size: u32) -> (r: Result<Vec<u8>, BootError>)
    requires
        volume_wf(*v),
    ensures
        match spec_read_chain(disk.image@, *v, first as int, size as nat) {
            Ok(bytes) => r matches Ok(out) && out@ == bytes && out@.len() == size,
            Err(e) => r == Err::<Vec<u8>, BootError>(e),
        },
{
    let mut out: Vec<u8> = Vec::new();
    let mut c: u32 = first;
    let mut remaining: u32 = size;
    while remaining > 0
        invariant
            volume_wf(*v),
            remaining <= size,
            out@.len() == size - remaining,
            spec_read_chain(disk.image@, *v, first as int, size as nat) == (match spec_read_chain(
                disk.image@,
                *v,
                c as int,
                remaining as nat,
            ) {
                Ok(b) => Ok::<Seq<u8>, BootError>(out@ + b),
                Err(e) => Err(e),
            }),
        decreases remaining,
    {
        proof {
            assert(cluster_size(*v) >= 1 && cluster_size(*v) <= 0xFFu16 * 0xFFFFu16)
                by (nonlinear_arith)
                requires
                    1 <= v.sectors_per_cluster <= 0xFF,
                    1 <= v.bytes_per_sector <= 0xFFFF,
                    cluster_size(*v) == v.sectors_per_cluster * v.bytes_per_sector,
            ;
        }
        if c >= 0x0FFFFFF8 {
            return Err(BootError::TruncatedChain);
        }
        let data = match read_cluster(disk, v, c) {
            Ok(d) => d,
            Err(e) => return Err(e),
        };
        let csize: usize = data.len();
        if remaining as u64 <= csize as u64 {
            let m = remaining as usize;
            let ghost out0 = out@;
            let mut j: usize = 0;
            while j < m
                invariant
                    j <= m,
                    m <= data@.len() <= usize::MAX,
                    out@ == out0 + data@.take(j as int),
                decreases m - j,
            {
                proof {
                    assert(out0 + data@.take(j + 1) =~= (out0 + data@.take(j as int)).push(
                        data@[j as int],
                    ));
                }
                out.push(data[j]);
                j = j + 1;
            }
            proof {
                assert(spec_read_chain(disk.image@, *v, c as int, remaining as nat) == Ok::<
                    Seq<u8>,
                    BootError,
                >(cluster_data(disk.image@, *v, c as int).take(remaining as int)));
                assert(out@ + Seq::<u8>::empty() =~= out@);
            }
            remaining = 0;
        } else {
            let ghost out0 = out@;
            let mut j: usize = 0;
            while j < csize
                invariant
                    j <= csize,
                    csize == data@.len(),
                    data@.len() <= usize::MAX,
                    out@ == out0 + data@.take(j as int),
                decreases csize - j,
            {
                proof {
                    assert(out0 + data@.take(j + 1) =~= (out0 + data@.take(j as int)).push(
                        data@[j as int],
                    ));
                }
                out.push(data[j]);
                j = j + 1;
            }
            let next = match read_fat_entry(disk, v, c) {
                Ok(x) => x,
                Err(e) => return Err(e),
            };
            proof {
                let img = disk.image@;
                assert(data@.take(csize as int) =~= data@);
                assert(spec_read_chain(img, *v, c as int, remaining as nat) == (match spec_read_chain(
                    img,
                    *v,
                    next as int,
                    (remaining - csize) as nat,
                ) {
                    Ok(rest) => Ok::<Seq<u8>, BootError>(cluster_data(img, *v, c as int) + rest),
                    Err(e) => Err(e),
                }));
                let inner = spec_read_chain(img, *v, next as int, (remaining - csize) as nat);
                if inner is Ok {
                    assert((out0 + data@) + inner->Ok_0 =~= out0 + (data@ + inner->Ok_0));
                }
            }
            c = next;
            remaining = remaining - csize as u32;
        }
    }
    proof {
        assert(out@ + Seq::<u8>::empty() =~= out@);
    }
    Ok(out)
}

/// Looks `name` up in the volume's root directory and, when the declared
/// size fits, loads the file's contents into the front of `dest`. The
/// destination keeps its length; on success its leading bytes are the
/// file's contents and the rest is untouched, and the declared size is
/// returned. On any failure the destination is untouched.
pub fn read_file(disk: &Disk, volume: &Volume, name: &[u8; 11], dest: &mut Vec<u8>) -> (r: Result<
    u32,
    BootError,
>)
    requires
        volume_wf(*volume),
    ensures
        final(dest)@.len() == old(dest)@.len(),
        match spec_read_file(disk.image@, *volume, name@, old(dest)@.len() as int) {
            Ok(bytes) => r matches Ok(sz) && sz == bytes.len() && final(dest)@ == bytes + old(
                dest,
            )@.skip(bytes.len() as int),
            Err(e) => r == Err::<u32, BootError>(e) && final(dest)@ == old(dest)@,
        },
{
    let hit = match find_in_dir(disk, volume, name) {
        Ok(h) => h,
        Err(e) => return Err(e),
    };
    if hit.size as u64 > dest.len() as u64 {
        return Err(BootError::FileTooLarge);
    }
    let mut merged = match read_chain(disk, volume, hit.first_cluster, hit.size) {
        Ok(o) => o,
        Err(e) => return Err(e),
    };
    let ghost bytes = merged@;
    let mut i: usize = hit.size as usize;
    while i < dest.len()
        invariant
            hit.size <= i <= dest@.len() <= usize::MAX,
            dest@ == old(dest)@,
            merged@ == bytes + dest@.subrange(hit.size as int, i as int),
        decreases dest@.len() - i,
    {
        proof {
            assert(bytes + dest@.subrange(hit.size as int, i + 1) =~= (bytes + dest@.subrange(
                hit.size as int,
                i as int,
            )).push(dest@[i as int]));
        }
        merged.push(dest[i]);
        i = i + 1;
    }
    proof {
        assert(dest@.subrange(hit.size as int, dest@.len() as int) =~= dest@.skip(hit.size as int));
    }
    *dest = merged;
    Ok(hit.size)
}

} // verus!
