//! Tests of the partition locator: resolution by kind and by name, the
//! uniqueness rule, and rejection of malformed tables.

use ota_updater::error::{FlashOpError, OtaInternalError};
use ota_updater::partitions::{
    find_partition_by_name, find_partition_by_type, PartitionKind, TABLE_OFFSET,
};
use ota_updater::storage::{FlashStorage, RamFlash};

const DEVICE_SIZE: usize = 0x20000;

fn entry_bytes(type_: u8, subtype: u8, offset: u32, size: u32, name: &str) -> [u8; 32] {
    let mut e = [0u8; 32];
    e[0] = 0xAA;
    e[1] = 0x50;
    e[2] = type_;
    e[3] = subtype;
    e[4..8].copy_from_slice(&offset.to_le_bytes());
    e[8..12].copy_from_slice(&size.to_le_bytes());
    let n = name.as_bytes();
    e[12..12 + n.len()].copy_from_slice(n);
    e
}

fn flash_with_entries(entries: &[[u8; 32]]) -> RamFlash {
    let mut flash = RamFlash::new(DEVICE_SIZE);
    for (i, entry) in entries.iter().enumerate() {
        flash.write(TABLE_OFFSET as u64 + 32 * i as u64, entry).unwrap();
    }
    flash
}

fn standard_flash() -> RamFlash {
    flash_with_entries(&[
        entry_bytes(0x01, 0x00, 0x9000, 0x2000, "otadata"),
        entry_bytes(0x00, 0x10, 0x10000, 0x4000, "ota_0"),
        entry_bytes(0x00, 0x11, 0x14000, 0x4000, "ota_1"),
    ])
}

#[test]
fn lookup_by_kind_finds_single_match() {
    let mut flash = standard_flash();
    let d = find_partition_by_type(&mut flash, PartitionKind::DataOta).unwrap();
    assert_eq!(d.offset, 0x9000);
    assert_eq!(d.size, 0x2000);
    assert_eq!(d.kind, PartitionKind::DataOta);
    assert_eq!(d.name, b"otadata".to_vec());

    let a = find_partition_by_type(&mut flash, PartitionKind::AppOta(1)).unwrap();
    assert_eq!(a.offset, 0x14000);
    assert_eq!(a.name, b"ota_1".to_vec());
}

#[test]
fn lookup_zero_matches_is_not_found() {
    let mut flash = standard_flash();
    let r = find_partition_by_type(&mut flash, PartitionKind::AppTest);
    assert!(matches!(r, Err(OtaInternalError::PartitionNotFound)));
}

#[test]
fn lookup_two_matches_is_found_twice() {
    let mut flash = flash_with_entries(&[
        entry_bytes(0x01, 0x00, 0x9000, 0x2000, "otadata"),
        entry_bytes(0x01, 0x00, 0xB000, 0x2000, "otadata2"),
    ]);
    let r = find_partition_by_type(&mut flash, PartitionKind::DataOta);
    assert!(matches!(r, Err(OtaInternalError::PartitionFoundTwice)));
}

#[test]
fn lookup_by_name() {
    let mut flash = standard_flash();
    let d = find_partition_by_name(&mut flash, b"ota_0").unwrap();
    assert_eq!(d.offset, 0x10000);
    assert_eq!(d.kind, PartitionKind::AppOta(0));

    let r = find_partition_by_name(&mut flash, b"missing");
    assert!(matches!(r, Err(OtaInternalError::PartitionNotFound)));
}

#[test]
fn two_entries_with_same_name_is_found_twice() {
    let mut flash = flash_with_entries(&[
        entry_bytes(0x00, 0x10, 0x10000, 0x4000, "app"),
        entry_bytes(0x00, 0x11, 0x14000, 0x4000, "app"),
    ]);
    let r = find_partition_by_name(&mut flash, b"app");
    assert!(matches!(r, Err(OtaInternalError::PartitionFoundTwice)));
}

#[test]
fn malformed_entry_fails_lookup() {
    // subtype 0x30 is not a valid application subtype, so the table parser
    // rejects the entry and the scan stops with an error.
    let mut flash = flash_with_entries(&[
        entry_bytes(0x00, 0x30, 0x10000, 0x4000, "weird"),
        entry_bytes(0x01, 0x00, 0x9000, 0x2000, "otadata"),
    ]);
    let r = find_partition_by_type(&mut flash, PartitionKind::DataOta);
    assert!(matches!(r, Err(OtaInternalError::NorFlashOpError(FlashOpError::PartitionError))));
}

#[test]
fn bad_magic_fails_lookup() {
    let mut entry = entry_bytes(0x01, 0x00, 0x9000, 0x2000, "otadata");
    entry[0] = 0x12;
    entry[1] = 0x34;
    let mut flash = flash_with_entries(&[entry]);
    let r = find_partition_by_type(&mut flash, PartitionKind::DataOta);
    assert!(matches!(r, Err(OtaInternalError::NorFlashOpError(FlashOpError::PartitionError))));
}

#[test]
fn entries_after_terminator_are_ignored() {
    let mut flash = standard_flash();
    // an erased chunk already ends the table; an entry written past an
    // erased chunk must not be seen
    flash.write(TABLE_OFFSET as u64 + 32 * 4, &entry_bytes(0x00, 0x12, 0x18000, 0x1000, "ota_2")).unwrap();
    let r = find_partition_by_type(&mut flash, PartitionKind::AppOta(2));
    assert!(matches!(r, Err(OtaInternalError::PartitionNotFound)));
}

#[test]
fn empty_table_is_not_found() {
    let mut flash = RamFlash::new(DEVICE_SIZE);
    let r = find_partition_by_type(&mut flash, PartitionKind::DataOta);
    assert!(matches!(r, Err(OtaInternalError::PartitionNotFound)));
}
