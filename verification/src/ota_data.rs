//! The redundant, integrity-checked metadata store.
//!
//! The ota data partition holds two copies of the update record in two
//! adjacent sector-aligned regions: copy A at the partition's base offset,
//! copy B one sector further.  A read returns copy A if it validates and
//! falls back to copy B; only when neither validates is the store corrupt.
//! A write erases and rewrites both copies, so after any successful write
//! the copies are bit-identical.

use vstd::prelude::*;
use crate::error::{FlashOpError, OtaInternalError};
use crate::partitions::{
    byte_at, clear_of_table, find_partition_by_type, kind_sel, lemma_locate_stable, locate_by_kind,
    DescriptorModel, LocateOutcome, PartitionKind, TABLE_MAX_ENTRIES, TABLE_OFFSET,
};
use crate::record::{
    decode_bytes, decode_record, encode_bytes, encode_record, record_wf, RecordModel, UpdateRecord,
    RECORD_SIZE,
};
use crate::storage::{erased, overwrite, untouched_outside, FlashStorage};

verus! {

/// Size in bytes of one flash sector, the erase granularity.
pub const SECTOR_SIZE: usize = 0x1000;

/// The record held by the 32 bytes at `off`, if they validate.
pub open spec fn record_at(v: Seq<u8>, off: int) -> Option<RecordModel> {
    decode_bytes(v.subrange(off, off + RECORD_SIZE))
}

/// The record the two copies at `off` resolve to: copy A if it validates,
/// else copy B; `None` when both copies are invalid.
pub open spec fn stored_record_at(v: Seq<u8>, off: int) -> Option<RecordModel> {
    match record_at(v, off) {
        Some(m) => Some(m),
        None => record_at(v, off + SECTOR_SIZE),
    }
}

/// The record the metadata store resolves in the flash contents `v`, after
/// locating the ota data partition; `None` when the partition cannot be
/// located or both copies are invalid.
pub open spec fn stored_record(v: Seq<u8>) -> Option<RecordModel> {
    match locate_by_kind(v, PartitionKind::DataOta) {
        LocateOutcome::Found(e) => stored_record_at(v, e.offset as int),
        _ => None,
    }
}

/// `v` after both record copies at `off` are rewritten: each sector erased,
/// then the encoding written at the sector's base.
pub open spec fn metadata_written(v: Seq<u8>, off: int, enc: Seq<u8>) -> Seq<u8> {
    let a = overwrite(erased(v, off, off + SECTOR_SIZE), off, enc);
    overwrite(erased(a, off + SECTOR_SIZE, off + 2 * SECTOR_SIZE), off + SECTOR_SIZE, enc)
}

/// How a metadata read's outcome shows up in its return value.  A storage
/// failure may preempt it at any point; every other return is pinned to
/// what the flash contents determine.
pub open spec fn read_returns<E>(v: Seq<u8>, r: Result<UpdateRecord, OtaInternalError<E>>) -> bool {
    match r {
        Ok(rec) => stored_record(v) == Some(rec@) && record_wf(rec@),
        Err(OtaInternalError::OtaDataCorrupt) => locate_by_kind(v, PartitionKind::DataOta)
            is Found && stored_record(v) is None,
        Err(OtaInternalError::PartitionNotFound) => locate_by_kind(v, PartitionKind::DataOta)
            is NotFound,
        Err(OtaInternalError::PartitionFoundTwice) => locate_by_kind(v, PartitionKind::DataOta)
            is FoundTwice,
        Err(OtaInternalError::NorFlashOpError(FlashOpError::PartitionError)) => locate_by_kind(
            v,
            PartitionKind::DataOta,
        ) is BadEntry,
        Err(OtaInternalError::NorFlashOpError(FlashOpError::StorageError(_))) => true,
    }
}

/// Read the update record from the ota data partition: copy A when it
/// validates, else copy B, else `OtaDataCorrupt`.
pub fn read_ota_data<E, S: FlashStorage<E>>(storage: &mut S) -> (r: Result<
    UpdateRecord,
    OtaInternalError<E>,
>)
    ensures
        final(storage).view() == old(storage).view(),
        read_returns(old(storage).view(), r),
{
    let ghost v = storage.view();
    let part = match find_partition_by_type(storage, PartitionKind::DataOta) {
        Ok(p) => p,
        Err(e) => return Err(e),
    };
    let copy_a = match storage.read(part.offset as u64, RECORD_SIZE) {
        Ok(b) => b,
        Err(e) => return Err(OtaInternalError::NorFlashOpError(FlashOpError::StorageError(e))),
    };
    match decode_record(copy_a.as_slice()) {
        Some(rec) => {
            return Ok(rec);
        },
        None => {},
    }
    let copy_b = match storage.read(part.offset as u64 + SECTOR_SIZE as u64, RECORD_SIZE) {
        Ok(b) => b,
        Err(e) => return Err(OtaInternalError::NorFlashOpError(FlashOpError::StorageError(e))),
    };
    match decode_record(copy_b.as_slice()) {
        Some(rec) => Ok(rec),
        None => Err(OtaInternalError::OtaDataCorrupt),
    }
}

/// How a metadata write's outcome shows up in its return value and in the
/// final flash contents.
pub open spec fn write_returns<E>(
    v: Seq<u8>,
    w: Seq<u8>,
    m: RecordModel,
    r: Result<(), OtaInternalError<E>>,
) -> bool {
    match r {
        Ok(u) => locate_by_kind(v, PartitionKind::DataOta) matches LocateOutcome::Found(e) && e.offset
            + 2 * SECTOR_SIZE <= v.len() && w == metadata_written(v, e.offset as int, encode_bytes(m)),
        Err(OtaInternalError::PartitionNotFound) => locate_by_kind(v, PartitionKind::DataOta)
            is NotFound && w == v,
        Err(OtaInternalError::PartitionFoundTwice) => locate_by_kind(v, PartitionKind::DataOta)
            is FoundTwice && w == v,
        Err(OtaInternalError::NorFlashOpError(FlashOpError::PartitionError)) => locate_by_kind(
            v,
            PartitionKind::DataOta,
        ) is BadEntry && w == v,
        Err(OtaInternalError::NorFlashOpError(FlashOpError::StorageError(_))) => w.len() == v.len()
            && match locate_by_kind(v, PartitionKind::DataOta) {
            LocateOutcome::Found(e) => untouched_outside(
                v,
                w,
                e.offset as int,
                e.offset + 2 * SECTOR_SIZE,
            ),
            _ => w == v,
        },
        Err(OtaInternalError::OtaDataCorrupt) => false,
    }
}

/// Write the update record to the ota data partition: erase and rewrite
/// copy A, then erase and rewrite copy B.
pub fn write_ota_data<E, S: FlashStorage<E>>(storage: &mut S, data: &UpdateRecord) -> (r: Result<
    (),
    OtaInternalError<E>,
>)
    requires
        record_wf(data@),
    ensures
        write_returns(old(storage).view(), final(storage).view(), data@, r),
{
    let ghost v = storage.view();
    let part = match find_partition_by_type(storage, PartitionKind::DataOta) {
        Ok(p) => p,
        Err(e) => return Err(e),
    };
    let buffer = encode_record(data);
    let base = part.offset as u64;

    match storage.erase(base, base + SECTOR_SIZE as u64) {
        Ok(u) => {},
        Err(e) => return Err(OtaInternalError::NorFlashOpError(FlashOpError::StorageError(e))),
    }
    match storage.write(base, buffer.as_slice()) {
        Ok(u) => {},
        Err(e) => return Err(OtaInternalError::NorFlashOpError(FlashOpError::StorageError(e))),
    }
    match storage.erase(base + SECTOR_SIZE as u64, base + 2 * SECTOR_SIZE as u64) {
        Ok(u) => {},
        Err(e) => return Err(OtaInternalError::NorFlashOpError(FlashOpError::StorageError(e))),
    }
    match storage.write(base + SECTOR_SIZE as u64, buffer.as_slice()) {
        Ok(u) => {},
        Err(e) => return Err(OtaInternalError::NorFlashOpError(FlashOpError::StorageError(e))),
    }
    proof {
        assert(final(storage).view() =~= metadata_written(v, part.offset as int, encode_bytes(
            data@,
        )));
    }
    Ok(())
}

/// Law: the redundant-read fallback.  When copy A does not validate, the
/// store resolves exactly what copy B holds — and only when copy B fails
/// too is the store corrupt.
pub proof fn lemma_read_fallback(v: Seq<u8>, off: int)
    requires
        record_at(v, off) is None,
    ensures
        stored_record_at(v, off) == record_at(v, off + SECTOR_SIZE),
{
}

/// Law: after a successful metadata write, each copy passes validation and
/// decodes to the written record, and the store resolves it — the
/// redundancy invariant made visible.
pub proof fn lemma_write_then_read_at(v: Seq<u8>, off: int, m: RecordModel)
    requires
        record_wf(m),
        0 <= off,
        off + 2 * SECTOR_SIZE <= v.len(),
    ensures
        record_at(metadata_written(v, off, encode_bytes(m)), off) == Some(m),
        record_at(metadata_written(v, off, encode_bytes(m)), off + SECTOR_SIZE) == Some(m),
        stored_record_at(metadata_written(v, off, encode_bytes(m)), off) == Some(m),
{
    let w = metadata_written(v, off, encode_bytes(m));
    crate::record::lemma_record_round_trip(m);
    assert(w.subrange(off, off + RECORD_SIZE) =~= encode_bytes(m));
    assert(w.subrange(off + SECTOR_SIZE, off + SECTOR_SIZE + RECORD_SIZE) =~= encode_bytes(m));
}

/// Law: the two copies a successful metadata write leaves behind are
/// bit-identical.
pub proof fn lemma_write_copies_identical(v: Seq<u8>, off: int, m: RecordModel)
    requires
        record_wf(m),
        0 <= off,
        off + 2 * SECTOR_SIZE <= v.len(),
    ensures
        metadata_written(v, off, encode_bytes(m)).subrange(off, off + SECTOR_SIZE)
            == metadata_written(v, off, encode_bytes(m)).subrange(
            off + SECTOR_SIZE,
            off + 2 * SECTOR_SIZE,
        ),
{
    let w = metadata_written(v, off, encode_bytes(m));
    assert(encode_bytes(m).len() == RECORD_SIZE) by {
        crate::record::lemma_record_round_trip(m);
    }
    assert(w.subrange(off, off + SECTOR_SIZE) =~= w.subrange(
        off + SECTOR_SIZE,
        off + 2 * SECTOR_SIZE,
    ));
}

/// Law: a successful metadata write is visible through the store.  When the
/// metadata partition stays clear of the table region, the flash a write
/// leaves behind resolves the same partition and reads back the written
/// record — whatever the device held before.
pub proof fn lemma_stored_after_write(v: Seq<u8>, e: DescriptorModel, m: RecordModel)
    requires
        record_wf(m),
        locate_by_kind(v, PartitionKind::DataOta) == LocateOutcome::Found(e),
        e.offset + 2 * SECTOR_SIZE <= v.len(),
        clear_of_table(e.offset as int, 2 * SECTOR_SIZE as int),
    ensures
        stored_record(metadata_written(v, e.offset as int, encode_bytes(m))) == Some(m),
{
    let w = metadata_written(v, e.offset as int, encode_bytes(m));
    assert(encode_bytes(m).len() == RECORD_SIZE) by {
        vstd::bytes::lemma_auto_spec_u32_to_from_le_bytes();
    }
    assert(w.len() == v.len());
    assert forall|a: int|
        #![auto]
        TABLE_OFFSET <= a < TABLE_OFFSET + 32 * TABLE_MAX_ENTRIES implies byte_at(w, a) == byte_at(
        v,
        a,
    ) by {}
    lemma_locate_stable(w, v, 0, None, kind_sel(PartitionKind::DataOta));
    lemma_write_then_read_at(v, e.offset as int, m);
}

} // verus!
