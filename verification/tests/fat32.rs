use pcboot::error::BootError;
use pcboot::fat32::{open_disk, open_volume, read_file};

const BPS: usize = 512;
const EOC: u32 = 0x0FFFFFF8;
const STAGE2_NAME: [u8; 11] = *b"STAGE2  BIN";

// Builds a zero-filled image holding a one-FAT volume at sector
// `start_lba`: 512 bytes per sector, one sector per cluster, one reserved
// sector, a one-sector FAT, and the root directory at cluster 2. Within the
// volume, cluster `c` sits at sector `c`.
fn base_image(start_lba: usize, n_sectors: usize) -> Vec<u8> {
    let mut img = vec![0u8; (start_lba + n_sectors) * BPS];
    let b = start_lba * BPS;
    img[b + 0x0B] = 0x00; // bytes per sector, low
    img[b + 0x0C] = 0x02; // bytes per sector, high: 512
    img[b + 0x0D] = 1; // sectors per cluster
    img[b + 0x0E] = 1; // reserved sectors, low
    img[b + 0x10] = 1; // number of FATs
    img[b + 0x24] = 1; // sectors per FAT, low byte
    img[b + 0x2C] = 2; // root directory cluster, low byte
    img
}

fn set_fat(img: &mut Vec<u8>, start_lba: usize, cluster: usize, value: u32) {
    let off = (start_lba + 1) * BPS + 4 * cluster;
    img[off..off + 4].copy_from_slice(&value.to_le_bytes());
}

fn set_dir_entry(
    img: &mut Vec<u8>,
    start_lba: usize,
    index: usize,
    name: &[u8; 11],
    attr: u8,
    first_cluster: u32,
    size: u32,
) {
    let off = (start_lba + 2) * BPS + 32 * index;
    img[off..off + 11].copy_from_slice(name);
    img[off + 0x0B] = attr;
    img[off + 0x14..off + 0x16].copy_from_slice(&((first_cluster >> 16) as u16).to_le_bytes());
    img[off + 0x1A..off + 0x1C].copy_from_slice(&((first_cluster & 0xFFFF) as u16).to_le_bytes());
    img[off + 0x1C..off + 0x20].copy_from_slice(&size.to_le_bytes());
}

// Writes `content` into consecutive clusters starting at `first_cluster`
// and links them in the FAT, ending the chain after the last one.
fn place_file(img: &mut Vec<u8>, start_lba: usize, first_cluster: usize, content: &[u8]) {
    let n = content.len().div_ceil(BPS).max(1);
    for i in 0..n {
        let chunk = &content[i * BPS..content.len().min((i + 1) * BPS)];
        let off = (start_lba + first_cluster + i) * BPS;
        img[off..off + chunk.len()].copy_from_slice(chunk);
        let next = if i + 1 < n { (first_cluster + i + 1) as u32 } else { EOC };
        set_fat(img, start_lba, first_cluster + i, next);
    }
}

fn pattern(len: usize) -> Vec<u8> {
    (0..len).map(|i| (i % 251) as u8).collect()
}

#[test]
fn open_volume_parses_geometry() {
    let mut img = base_image(0, 8);
    set_fat(&mut img, 0, 2, EOC);
    let disk = open_disk(img, 512).unwrap();
    let v = open_volume(&disk, 0).unwrap();
    assert_eq!(v.bytes_per_sector, 512);
    assert_eq!(v.sectors_per_cluster, 1);
    assert_eq!(v.reserved_sectors, 1);
    assert_eq!(v.num_fats, 1);
    assert_eq!(v.sectors_per_fat, 1);
    assert_eq!(v.root_cluster, 2);
    assert_eq!(v.fat_start_lba, 1);
    assert_eq!(v.data_start_lba, 2);
}

#[test]
fn open_volume_rejects_zero_fields() {
    let mut img = base_image(0, 8);
    img[0x0D] = 0; // zero sectors per cluster
    let disk = open_disk(img, 512).unwrap();
    assert_eq!(open_volume(&disk, 0), Err(BootError::VolumeStructure));

    let mut img2 = base_image(0, 8);
    img2[0x10] = 0; // zero FAT count
    let disk2 = open_disk(img2, 512).unwrap();
    assert_eq!(open_volume(&disk2, 0), Err(BootError::VolumeStructure));
}

#[test]
fn open_volume_beyond_disk_is_a_disk_error() {
    let img = base_image(0, 8);
    let disk = open_disk(img, 512).unwrap();
    assert_eq!(open_volume(&disk, 100), Err(BootError::DiskError));
}

#[test]
fn reads_multi_cluster_file_with_partial_tail() {
    // Three clusters, not a multiple of the cluster size: 512 + 512 + 176.
    let content = pattern(1200);
    let mut img = base_image(0, 8);
    set_fat(&mut img, 0, 2, EOC);
    set_dir_entry(&mut img, 0, 0, &STAGE2_NAME, 0x20, 3, 1200);
    place_file(&mut img, 0, 3, &content);
    let disk = open_disk(img, 512).unwrap();
    let v = open_volume(&disk, 0).unwrap();
    let mut dest = vec![0xAAu8; 4096];
    let size = read_file(&disk, &v, &STAGE2_NAME, &mut dest).unwrap();
    assert_eq!(size, 1200);
    assert_eq!(&dest[..1200], &content[..]);
    // Bytes past the declared size are untouched.
    assert!(dest[1200..].iter().all(|&b| b == 0xAA));
}

#[test]
fn reads_file_on_a_shifted_volume() {
    let content = pattern(700);
    let start = 5;
    let mut img = base_image(start, 8);
    set_fat(&mut img, start, 2, EOC);
    set_dir_entry(&mut img, start, 0, &STAGE2_NAME, 0x20, 3, 700);
    place_file(&mut img, start, 3, &content);
    let disk = open_disk(img, 512).unwrap();
    let v = open_volume(&disk, start as u32).unwrap();
    let mut dest = vec![0u8; 1024];
    let size = read_file(&disk, &v, &STAGE2_NAME, &mut dest).unwrap();
    assert_eq!(size, 700);
    assert_eq!(&dest[..700], &content[..]);
}

#[test]
fn exact_cluster_multiple_reads_no_extra_cluster() {
    // 1024 bytes fill clusters 3 and 4 exactly. The FAT entry of cluster 4
    // points at a cluster far off the disk: a reader that followed the
    // chain one step too far would fail with a disk error.
    let content = pattern(1024);
    let mut img = base_image(0, 8);
    set_fat(&mut img, 0, 2, EOC);
    set_dir_entry(&mut img, 0, 0, &STAGE2_NAME, 0x20, 3, 1024);
    place_file(&mut img, 0, 3, &content);
    set_fat(&mut img, 0, 4, 99);
    let disk = open_disk(img, 512).unwrap();
    let v = open_volume(&disk, 0).unwrap();
    let mut dest = vec![0u8; 2048];
    let size = read_file(&disk, &v, &STAGE2_NAME, &mut dest).unwrap();
    assert_eq!(size, 1024);
    assert_eq!(&dest[..1024], &content[..]);
}

#[test]
fn missing_entry_is_not_found_and_leaves_dest_alone() {
    let mut img = base_image(0, 8);
    set_fat(&mut img, 0, 2, EOC);
    set_dir_entry(&mut img, 0, 0, b"OTHER   BIN", 0x20, 3, 100);
    place_file(&mut img, 0, 3, &pattern(100));
    let disk = open_disk(img, 512).unwrap();
    let v = open_volume(&disk, 0).unwrap();
    let mut dest = vec![0x55u8; 1024];
    assert_eq!(
        read_file(&disk, &v, &STAGE2_NAME, &mut dest),
        Err(BootError::FileNotFound)
    );
    assert!(dest.iter().all(|&b| b == 0x55));
}

#[test]
fn oversized_file_fails_before_any_cluster_read() {
    let mut img = base_image(0, 8);
    set_fat(&mut img, 0, 2, EOC);
    // Declared size larger than the destination; the chain is left broken
    // on purpose: a reader that started loading would hit a disk error
    // instead of the expected too-large failure.
    set_dir_entry(&mut img, 0, 0, &STAGE2_NAME, 0x20, 999, 2048);
    let disk = open_disk(img, 512).unwrap();
    let v = open_volume(&disk, 0).unwrap();
    let mut dest = vec![0x77u8; 1024];
    assert_eq!(
        read_file(&disk, &v, &STAGE2_NAME, &mut dest),
        Err(BootError::FileTooLarge)
    );
    assert!(dest.iter().all(|&b| b == 0x77));
}

#[test]
fn short_chain_is_a_truncation_failure() {
    let content = pattern(1200);
    let mut img = base_image(0, 8);
    set_fat(&mut img, 0, 2, EOC);
    set_dir_entry(&mut img, 0, 0, &STAGE2_NAME, 0x20, 3, 1200);
    place_file(&mut img, 0, 3, &content);
    // Cut the chain after the second cluster.
    set_fat(&mut img, 0, 4, EOC);
    let disk = open_disk(img, 512).unwrap();
    let v = open_volume(&disk, 0).unwrap();
    let mut dest = vec![0x11u8; 4096];
    assert_eq!(
        read_file(&disk, &v, &STAGE2_NAME, &mut dest),
        Err(BootError::TruncatedChain)
    );
    assert!(dest.iter().all(|&b| b == 0x11));
}

#[test]
fn deleted_and_label_entries_are_skipped() {
    let content = pattern(300);
    let mut img = base_image(0, 8);
    set_fat(&mut img, 0, 2, EOC);
    // A deleted entry and a volume-label entry, both with the wanted name.
    let mut deleted = STAGE2_NAME;
    deleted[0] = 0xE5;
    set_dir_entry(&mut img, 0, 0, &deleted, 0x20, 7, 999);
    set_dir_entry(&mut img, 0, 1, &STAGE2_NAME, 0x08, 7, 999);
    set_dir_entry(&mut img, 0, 2, &STAGE2_NAME, 0x20, 3, 300);
    place_file(&mut img, 0, 3, &content);
    let disk = open_disk(img, 512).unwrap();
    let v = open_volume(&disk, 0).unwrap();
    let mut dest = vec![0u8; 512];
    let size = read_file(&disk, &v, &STAGE2_NAME, &mut dest).unwrap();
    assert_eq!(size, 300);
    assert_eq!(&dest[..300], &content[..]);
}

#[test]
fn null_entry_ends_the_listing() {
    let content = pattern(300);
    let mut img = base_image(0, 8);
    set_fat(&mut img, 0, 2, EOC);
    // The matching entry sits after a null entry, so it is never seen.
    set_dir_entry(&mut img, 0, 1, &STAGE2_NAME, 0x20, 3, 300);
    place_file(&mut img, 0, 3, &content);
    let disk = open_disk(img, 512).unwrap();
    let v = open_volume(&disk, 0).unwrap();
    let mut dest = vec![0u8; 512];
    assert_eq!(
        read_file(&disk, &v, &STAGE2_NAME, &mut dest),
        Err(BootError::FileNotFound)
    );
}

#[test]
fn cyclic_directory_chain_ends_as_not_found() {
    // The root directory cluster points back at itself and holds only
    // non-matching entries, so the walk can never reach a match or an end
    // marker; it must still terminate with a not-found failure.
    let mut img = base_image(0, 8);
    set_fat(&mut img, 0, 2, 2);
    for i in 0..16 {
        set_dir_entry(&mut img, 0, i, b"OTHER   BIN", 0x20, 3, 100);
    }
    let disk = open_disk(img, 512).unwrap();
    let v = open_volume(&disk, 0).unwrap();
    let mut dest = vec![0u8; 1024];
    assert_eq!(
        read_file(&disk, &v, &STAGE2_NAME, &mut dest),
        Err(BootError::FileNotFound)
    );
}

#[test]
fn zero_sector_size_is_a_disk_error() {
    assert_eq!(open_disk(vec![0u8; 1024], 0), Err(BootError::DiskError));
}
