//! End-to-end tests of the update orchestrator: the metadata store's
//! redundancy, the state-transition tables, the copy loop's space bound,
//! and the concurrency guard.

use ota_updater::error::{FlashOpError, OtaInternalError, OtaUpdateError};
use ota_updater::image::{ImageSource, ProgressLog, SliceSource};
use ota_updater::ota_data::{read_ota_data, write_ota_data};
use ota_updater::partitions::TABLE_OFFSET;
use ota_updater::record::{UpdateRecord, UpdateState};
use ota_updater::storage::{FlashStorage, RamFlash};
use ota_updater::{
    get_booted_partition, ota_accept, ota_begin, ota_is_valid, ota_reject, slot_for_sequence,
    UpdateGuard,
};

const DEVICE_SIZE: usize = 0x20000;
const OTADATA_OFFSET: usize = 0x9000;
const OTA_0_OFFSET: usize = 0x10000;
const OTA_1_OFFSET: usize = 0x14000;

fn entry_bytes(type_: u8, subtype: u8, offset: u32, size: u32, name: &str) -> [u8; 32] {
    let mut e = [0u8; 32];
    e[0] = 0xAA;
    e[1] = 0x50;
    e[2] = type_;
    e[3] = subtype;
    e[4..8].copy_from_slice(&offset.to_le_bytes());
    e[8..12].copy_from_slice(&size.to_le_bytes());
    let n = name.as_bytes();
    e[12..12 + n.len()].copy_from_slice(n);
    e
}

/// A device whose slot 1 has the given size, with the stored record seeded.
fn flash_with_slot1_size(slot1_size: u32, sequence: u32, state: UpdateState) -> RamFlash {
    let mut flash = RamFlash::new(DEVICE_SIZE);
    let entries = [
        entry_bytes(0x01, 0x00, OTADATA_OFFSET as u32, 0x2000, "otadata"),
        entry_bytes(0x00, 0x10, OTA_0_OFFSET as u32, 0x4000, "ota_0"),
        entry_bytes(0x00, 0x11, OTA_1_OFFSET as u32, slot1_size, "ota_1"),
    ];
    for (i, entry) in entries.iter().enumerate() {
        flash.write(TABLE_OFFSET as u64 + 32 * i as u64, entry).unwrap();
    }
    seed_record(&mut flash, sequence, state);
    flash
}

fn standard_flash(sequence: u32, state: UpdateState) -> RamFlash {
    flash_with_slot1_size(0x4000, sequence, state)
}

fn seed_record(flash: &mut RamFlash, sequence: u32, state: UpdateState) {
    let rec = UpdateRecord { sequence, state, reserved: vec![0xFF; 20] };
    write_ota_data(flash, &rec).unwrap();
}

fn snapshot(flash: &RamFlash) -> Vec<u8> {
    let mut bytes = Vec::with_capacity(DEVICE_SIZE);
    for i in 0..DEVICE_SIZE {
        bytes.push(flash.peek(i));
    }
    bytes
}

#[test]
fn stored_record_round_trips_through_flash() {
    let mut flash = standard_flash(5, UpdateState::Valid);
    let rec = read_ota_data(&mut flash).unwrap();
    assert_eq!(rec.sequence, 5);
    assert_eq!(rec.state, UpdateState::Valid);
    assert_eq!(rec.reserved, vec![0xFF; 20]);
}

#[test]
fn corrupt_copy_a_falls_back_to_copy_b() {
    let mut flash = standard_flash(5, UpdateState::Valid);
    // damage copy A's checksum trailer; copy B must still resolve
    let trailer = OTADATA_OFFSET + 28;
    flash.poke(trailer, flash.peek(trailer) ^ 0xFF);
    let rec = read_ota_data(&mut flash).unwrap();
    assert_eq!(rec.sequence, 5);
    assert_eq!(rec.state, UpdateState::Valid);
    assert_eq!(rec.reserved, vec![0xFF; 20]);
}

#[test]
fn corrupting_both_copies_is_fatal() {
    let mut flash = standard_flash(5, UpdateState::Valid);
    let trailer_a = OTADATA_OFFSET + 28;
    let trailer_b = OTADATA_OFFSET + 0x1000 + 28;
    flash.poke(trailer_a, flash.peek(trailer_a) ^ 0xFF);
    flash.poke(trailer_b, flash.peek(trailer_b) ^ 0xFF);
    let r = read_ota_data(&mut flash);
    assert!(matches!(r, Err(OtaInternalError::OtaDataCorrupt)));
}

#[test]
fn slot_alternation() {
    assert_eq!(slot_for_sequence(1), 0);
    assert_eq!(slot_for_sequence(2), 1);
    assert_eq!(slot_for_sequence(3), 0);
    assert_eq!(slot_for_sequence(4), 1);
}

#[test]
fn begin_writes_image_and_steps_sequence() {
    let mut flash = standard_flash(1, UpdateState::Valid);
    let mut guard = UpdateGuard::new();
    let image: Vec<u8> = (0..6000u32).map(|i| (i % 251) as u8).collect();
    let mut source = SliceSource::new(image.clone());
    let mut progress = ProgressLog::new();

    ota_begin(&mut guard, &mut flash, &mut source, &mut progress).unwrap();

    // sequence 2 selects slot 1; the image lands at slot 1's base
    for (i, byte) in image.iter().enumerate() {
        assert_eq!(flash.peek(OTA_1_OFFSET + i), *byte);
    }
    // the rest of the slot stays erased
    assert_eq!(flash.peek(OTA_1_OFFSET + 6000), 0xFF);
    assert_eq!(flash.peek(OTA_1_OFFSET + 0x3FFF), 0xFF);
    // progress reported after each buffer write, cumulatively
    assert_eq!(progress.reports, vec![4096, 6000]);
    // the stored record was stepped and awaits verification
    let rec = read_ota_data(&mut flash).unwrap();
    assert_eq!(rec.sequence, 2);
    assert_eq!(rec.state, UpdateState::New);
    assert_eq!(rec.reserved, vec![0xFF; 20]);
    assert_eq!(ota_is_valid(&mut flash).unwrap(), false);
}

#[test]
fn accept_after_update_marks_valid() {
    let mut flash = standard_flash(1, UpdateState::Valid);
    let mut guard = UpdateGuard::new();
    let mut source = SliceSource::new(vec![0x42; 100]);
    let mut progress = ProgressLog::new();
    ota_begin(&mut guard, &mut flash, &mut source, &mut progress).unwrap();

    ota_accept(&mut flash).unwrap();
    assert_eq!(ota_is_valid(&mut flash).unwrap(), true);
    let rec = read_ota_data(&mut flash).unwrap();
    assert_eq!(rec.sequence, 2);
    assert_eq!(rec.state, UpdateState::Valid);

    let booted = get_booted_partition(&mut flash).unwrap();
    assert_eq!(booted.offset, OTA_1_OFFSET as u32);
}

#[test]
fn empty_image_still_completes() {
    let mut flash = standard_flash(1, UpdateState::Valid);
    let mut guard = UpdateGuard::new();
    let mut source = SliceSource::new(Vec::new());
    let mut progress = ProgressLog::new();
    ota_begin(&mut guard, &mut flash, &mut source, &mut progress).unwrap();
    assert_eq!(progress.reports, vec![0]);
    let rec = read_ota_data(&mut flash).unwrap();
    assert_eq!(rec.sequence, 2);
    assert_eq!(rec.state, UpdateState::New);
}

#[test]
fn second_begin_fails_while_updating() {
    let mut flash = standard_flash(1, UpdateState::Valid);
    let mut guard = UpdateGuard::new();
    let mut source = SliceSource::new(vec![1, 2, 3]);
    let mut progress = ProgressLog::new();
    ota_begin(&mut guard, &mut flash, &mut source, &mut progress).unwrap();
    assert!(guard.is_updating());

    // the first session still holds the guard: a second begin must fail
    // without touching the flash
    let before = snapshot(&flash);
    let mut source2 = SliceSource::new(vec![4, 5, 6]);
    let mut progress2 = ProgressLog::new();
    let r = ota_begin(&mut guard, &mut flash, &mut source2, &mut progress2);
    assert!(matches!(r, Err(OtaUpdateError::AlreadyUpdating)));
    assert_eq!(snapshot(&flash), before);

    // once released, the guard no longer blocks (the next begin now fails
    // later, on the unverified state instead)
    guard.release();
    let mut source3 = SliceSource::new(vec![7]);
    let mut progress3 = ProgressLog::new();
    let r = ota_begin(&mut guard, &mut flash, &mut source3, &mut progress3);
    assert!(matches!(r, Err(OtaUpdateError::PendingVerify)));
}

#[test]
fn image_larger_than_partition_is_out_of_space() {
    // slot 1 holds 4096 bytes; an 8192-byte image must fail with no byte
    // written past the limit
    let mut flash = flash_with_slot1_size(4096, 1, UpdateState::Valid);
    // markers just past the partition's end must survive
    for i in 0..16 {
        flash.poke(OTA_1_OFFSET + 4096 + i, 0x55);
    }
    let mut guard = UpdateGuard::new();
    let image: Vec<u8> = (0..8192u32).map(|i| (i % 7) as u8).collect();
    let mut source = SliceSource::new(image.clone());
    let mut progress = ProgressLog::new();

    let r = ota_begin(&mut guard, &mut flash, &mut source, &mut progress);
    assert!(matches!(r, Err(OtaUpdateError::OutOfSpace)));
    // the first full buffer was written, nothing beyond it
    for i in 0..4096 {
        assert_eq!(flash.peek(OTA_1_OFFSET + i), image[i]);
    }
    for i in 0..16 {
        assert_eq!(flash.peek(OTA_1_OFFSET + 4096 + i), 0x55);
    }
    // the stored record is untouched: the update never completed
    let rec = read_ota_data(&mut flash).unwrap();
    assert_eq!(rec.sequence, 1);
    assert_eq!(rec.state, UpdateState::Valid);
}

#[test]
fn image_exactly_partition_size_fits() {
    let mut flash = flash_with_slot1_size(4096, 1, UpdateState::Valid);
    let mut guard = UpdateGuard::new();
    let mut source = SliceSource::new(vec![0x17; 4096]);
    let mut progress = ProgressLog::new();
    ota_begin(&mut guard, &mut flash, &mut source, &mut progress).unwrap();
    assert_eq!(flash.peek(OTA_1_OFFSET), 0x17);
    assert_eq!(flash.peek(OTA_1_OFFSET + 4095), 0x17);
}

#[test]
fn begin_from_unverified_state_fails_without_touching_flash() {
    let mut flash = standard_flash(1, UpdateState::PendingVerify);
    let before = snapshot(&flash);
    let mut guard = UpdateGuard::new();
    let mut source = SliceSource::new(vec![1, 2, 3]);
    let mut progress = ProgressLog::new();
    let r = ota_begin(&mut guard, &mut flash, &mut source, &mut progress);
    assert!(matches!(r, Err(OtaUpdateError::PendingVerify)));
    assert_eq!(snapshot(&flash), before);
    assert!(progress.reports.is_empty());
}

#[test]
fn accept_transition_table() {
    let cases = [
        (UpdateState::PendingVerify, UpdateState::Valid, 5),
        (UpdateState::New, UpdateState::Valid, 5),
        (UpdateState::Undefined, UpdateState::Valid, 5),
        (UpdateState::Invalid, UpdateState::Valid, 4),
        (UpdateState::Aborted, UpdateState::Valid, 4),
        (UpdateState::Valid, UpdateState::Valid, 5),
    ];
    for (from, to, sequence) in cases {
        let mut flash = standard_flash(5, from);
        ota_accept(&mut flash).unwrap();
        let rec = read_ota_data(&mut flash).unwrap();
        assert_eq!(rec.state, to, "accept from {:?}", from);
        assert_eq!(rec.sequence, sequence, "accept from {:?}", from);
    }
}

#[test]
fn reject_transition_table() {
    let cases = [
        (UpdateState::PendingVerify, UpdateState::Invalid),
        (UpdateState::New, UpdateState::Invalid),
        (UpdateState::Undefined, UpdateState::Invalid),
        (UpdateState::Valid, UpdateState::Valid),
        (UpdateState::Invalid, UpdateState::Invalid),
        (UpdateState::Aborted, UpdateState::Aborted),
    ];
    for (from, to) in cases {
        let mut flash = standard_flash(5, from);
        ota_reject(&mut flash).unwrap();
        let rec = read_ota_data(&mut flash).unwrap();
        assert_eq!(rec.state, to, "reject from {:?}", from);
        assert_eq!(rec.sequence, 5, "reject from {:?}", from);
    }
}

#[test]
fn accept_from_rollback_reselects_previous_slot() {
    // sequence 2 booted slot 1; the bootloader aborted it, accept rolls the
    // sequence back to 1, whose slot is 0
    let mut flash = standard_flash(2, UpdateState::Aborted);
    ota_accept(&mut flash).unwrap();
    let booted = get_booted_partition(&mut flash).unwrap();
    assert_eq!(booted.offset, OTA_0_OFFSET as u32);
}

#[test]
fn missing_metadata_partition_fails() {
    let mut flash = RamFlash::new(DEVICE_SIZE);
    flash
        .write(TABLE_OFFSET as u64, &entry_bytes(0x00, 0x10, OTA_0_OFFSET as u32, 0x4000, "ota_0"))
        .unwrap();
    let r = read_ota_data(&mut flash);
    assert!(matches!(r, Err(OtaInternalError::PartitionNotFound)));
}

#[test]
fn missing_target_slot_fails_begin() {
    // a table with otadata and slot 0 only: an update from sequence 1 needs
    // slot 1 and must fail
    let mut flash = RamFlash::new(DEVICE_SIZE);
    let entries = [
        entry_bytes(0x01, 0x00, OTADATA_OFFSET as u32, 0x2000, "otadata"),
        entry_bytes(0x00, 0x10, OTA_0_OFFSET as u32, 0x4000, "ota_0"),
    ];
    for (i, entry) in entries.iter().enumerate() {
        flash.write(TABLE_OFFSET as u64 + 32 * i as u64, entry).unwrap();
    }
    seed_record(&mut flash, 1, UpdateState::Valid);
    let mut guard = UpdateGuard::new();
    let mut source = SliceSource::new(vec![1]);
    let mut progress = ProgressLog::new();
    let r = ota_begin(&mut guard, &mut flash, &mut source, &mut progress);
    assert!(matches!(
        r,
        Err(OtaUpdateError::InternalError(OtaInternalError::PartitionNotFound))
    ));
}

/// An image source whose transport always fails.
struct FailingSource;

impl ImageSource<&'static str> for FailingSource {
    fn remaining(&self) -> ota_updater::storage::Seq<u8> {
        unreachable!()
    }

    fn read_chunk(&mut self, _max_len: usize) -> Result<Vec<u8>, &'static str> {
        Err("transport broke")
    }
}

#[test]
fn failing_source_surfaces_as_read_error() {
    let mut flash = standard_flash(1, UpdateState::Valid);
    let mut guard = UpdateGuard::new();
    let mut source = FailingSource;
    let mut progress = ProgressLog::new();
    let r = ota_begin(&mut guard, &mut flash, &mut source, &mut progress);
    assert!(matches!(r, Err(OtaUpdateError::ReadError("transport broke"))));
    assert!(progress.reports.is_empty());
    // the stored record is untouched
    let rec = read_ota_data(&mut flash).unwrap();
    assert_eq!(rec.sequence, 1);
    assert_eq!(rec.state, UpdateState::Valid);
}

#[test]
fn partition_past_device_end_surfaces_storage_error() {
    // the table names a metadata partition the device cannot hold
    let mut flash = RamFlash::new(DEVICE_SIZE);
    flash
        .write(
            TABLE_OFFSET as u64,
            &entry_bytes(0x01, 0x00, (DEVICE_SIZE + 0x1000) as u32, 0x2000, "otadata"),
        )
        .unwrap();
    let r = read_ota_data(&mut flash);
    assert!(matches!(
        r,
        Err(OtaInternalError::NorFlashOpError(FlashOpError::StorageError(_)))
    ));
}
