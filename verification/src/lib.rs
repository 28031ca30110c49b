//! A verified over-the-air firmware updater for two-slot ("A/B") flash
//! devices.
//!
//! The updater keeps a redundant, checksummed record of the update sequence
//! number and the verification state of the active slot, resolves partition
//! roles against the on-flash partition table, and drives the
//! erase/write/verify/rollback workflow so that a power loss, a corrupted
//! stream or an unverified image can never leave the device unable to boot.

pub mod crc;
pub mod error;
pub mod image;
pub mod ota_data;
pub mod partitions;
pub mod record;
pub mod storage;

use vstd::prelude::*;
use crate::error::{FlashOpError, OtaInternalError, OtaUpdateError};
use crate::image::{ImageSource, ProgressSink};
use crate::ota_data::{
    metadata_written, read_ota_data, stored_record, write_ota_data, SECTOR_SIZE,
};
use crate::partitions::{
    byte_at, clear_of_table, find_partition_by_type, kind_sel, lemma_locate_stable, locate_by_kind,
    DescriptorModel, LocateOutcome, PartitionDescriptor, PartitionKind, TABLE_MAX_ENTRIES,
    TABLE_OFFSET,
};
use crate::record::{encode_bytes, RecordModel, UpdateRecord, UpdateState, RESERVED_LEN};
use crate::storage::{erased, overwrite, untouched_outside, FlashStorage};

verus! {

/// The concurrency guard serializing update sessions.
///
/// `ota_begin` acquires the guard and leaves it held, whether it succeeds
/// or fails after acquisition: the session spans until the caller decides
/// it is over (typically by rebooting) and releases the guard.
pub struct UpdateGuard {
    updating: bool,
}

impl UpdateGuard {
    /// Whether an update session currently holds the guard.
    pub closed spec fn is_locked(&self) -> bool {
        self.updating
    }

    /// A guard with no session in flight.
    pub fn new() -> (g: UpdateGuard)
        ensures
            !g.is_locked(),
    {
        UpdateGuard { updating: false }
    }

    /// Whether an update session currently holds the guard.
    pub fn is_updating(&self) -> (r: bool)
        ensures
            r == self.is_locked(),
    {
        self.updating
    }

    /// End the update session, letting a new one begin.
    pub fn release(&mut self)
        ensures
            !final(self).is_locked(),
    {
        self.updating = false;
    }
}

/// The sequence number after one more completed update, with the counter
/// wrapping around.
pub open spec fn next_sequence(s: u32) -> u32 {
    if s == u32::MAX {
        0
    } else {
        (s + 1) as u32
    }
}

/// The sequence number one corrective step back, wrapping around.
pub open spec fn prev_sequence(s: u32) -> u32 {
    if s == 0 {
        u32::MAX
    } else {
        (s - 1) as u32
    }
}

/// The application slot a sequence number selects: the parity of
/// `sequence - 1` alternates between the two slots.
pub open spec fn slot_of_sequence(s: u32) -> u8 {
    if s % 2 == 1 {
        0
    } else {
        1
    }
}

/// The application slot a sequence number selects, `(sequence - 1) % 2`.
pub fn slot_for_sequence(sequence: u32) -> (slot: u8)
    ensures
        slot == slot_of_sequence(sequence),
        sequence >= 1 ==> slot as int == (sequence - 1) % 2,
{
    if sequence % 2 == 1 {
        0
    } else {
        1
    }
}

/// How `ota_accept` transforms the stored record.
pub open spec fn accept_transition(m: RecordModel) -> RecordModel {
    match m.state {
        UpdateState::PendingVerify => RecordModel { state: UpdateState::Valid, ..m },
        UpdateState::New => RecordModel { state: UpdateState::Valid, ..m },
        UpdateState::Undefined => RecordModel { state: UpdateState::Valid, ..m },
        UpdateState::Invalid => RecordModel {
            sequence: prev_sequence(m.sequence),
            state: UpdateState::Valid,
            ..m
        },
        UpdateState::Aborted => RecordModel {
            sequence: prev_sequence(m.sequence),
            state: UpdateState::Valid,
            ..m
        },
        UpdateState::Valid => m,
    }
}

/// How `ota_reject` transforms the stored record.
pub open spec fn reject_transition(m: RecordModel) -> RecordModel {
    match m.state {
        UpdateState::PendingVerify => RecordModel { state: UpdateState::Invalid, ..m },
        UpdateState::New => RecordModel { state: UpdateState::Invalid, ..m },
        UpdateState::Undefined => RecordModel { state: UpdateState::Invalid, ..m },
        UpdateState::Valid => m,
        UpdateState::Invalid => m,
        UpdateState::Aborted => m,
    }
}

/// Law: the accept transition table.  Accepting always leaves the record
/// `Valid` and never touches the reserved field; it keeps the sequence
/// number except from `Invalid` or `Aborted`, where it steps the sequence
/// back by one (the manual rollback); from `Valid` it is a no-op.
pub proof fn lemma_accept_table(m: RecordModel)
    ensures
        accept_transition(m).state == UpdateState::Valid,
        accept_transition(m).reserved == m.reserved,
        m.state == UpdateState::Valid ==> accept_transition(m) == m,
        m.state == UpdateState::PendingVerify || m.state == UpdateState::New || m.state
            == UpdateState::Undefined ==> accept_transition(m).sequence == m.sequence,
        m.state == UpdateState::Invalid || m.state == UpdateState::Aborted ==> accept_transition(
            m,
        ).sequence == prev_sequence(m.sequence),
{
}

/// Law: the reject transition table.  Rejecting never changes the sequence
/// number or the reserved field; from `PendingVerify`, `New` or `Undefined`
/// it marks the record `Invalid`; from `Valid`, `Invalid` or `Aborted` it
/// is a no-op.
pub proof fn lemma_reject_table(m: RecordModel)
    ensures
        reject_transition(m).sequence == m.sequence,
        reject_transition(m).reserved == m.reserved,
        m.state == UpdateState::PendingVerify || m.state == UpdateState::New || m.state
            == UpdateState::Undefined ==> reject_transition(m).state == UpdateState::Invalid,
        m.state == UpdateState::Valid || m.state == UpdateState::Invalid || m.state
            == UpdateState::Aborted ==> reject_transition(m) == m,
{
}

/// The stored record was replaced by `m` (when `changed`), or nothing was
/// written (when not): how a read-modify-write shows up in the flash.
pub open spec fn persisted(v: Seq<u8>, w: Seq<u8>, m: RecordModel, changed: bool) -> bool {
    if changed {
        locate_by_kind(v, PartitionKind::DataOta) matches LocateOutcome::Found(e) && e.offset + 2
            * SECTOR_SIZE <= v.len() && w == metadata_written(v, e.offset as int, encode_bytes(m))
    } else {
        w == v
    }
}

/// What may be concluded of the flash when a metadata read-modify-write
/// fails.  A storage failure may strike at any point; every other error is
/// pinned to what the flash contents determine, with nothing yet written.
pub open spec fn update_failed<E>(v: Seq<u8>, w: Seq<u8>, e: OtaInternalError<E>) -> bool {
    match e {
        OtaInternalError::OtaDataCorrupt => locate_by_kind(v, PartitionKind::DataOta) is Found
            && stored_record(v) is None && w == v,
        OtaInternalError::PartitionNotFound => locate_by_kind(v, PartitionKind::DataOta)
            is NotFound && w == v,
        OtaInternalError::PartitionFoundTwice => locate_by_kind(v, PartitionKind::DataOta)
            is FoundTwice && w == v,
        OtaInternalError::NorFlashOpError(FlashOpError::PartitionError) => locate_by_kind(
            v,
            PartitionKind::DataOta,
        ) is BadEntry && w == v,
        OtaInternalError::NorFlashOpError(FlashOpError::StorageError(_)) => w.len() == v.len()
            && match locate_by_kind(v, PartitionKind::DataOta) {
            LocateOutcome::Found(e) => untouched_outside(
                v,
                w,
                e.offset as int,
                e.offset + 2 * SECTOR_SIZE,
            ),
            _ => w == v,
        },
    }
}

/// Mark the booted image as working.
///
/// Must be called after an update and reboot to confirm the new firmware;
/// may also be called after a reboot without an update.  From `Invalid` or
/// `Aborted` it also steps the sequence number back, re-selecting the
/// previously good slot.
pub fn ota_accept<E, S: FlashStorage<E>>(storage: &mut S) -> (r: Result<(), OtaInternalError<E>>)
    ensures
        final(storage).view().len() == old(storage).view().len(),
        match r {
            Ok(u) => stored_record(old(storage).view()) matches Some(cur) && persisted(
                old(storage).view(),
                final(storage).view(),
                accept_transition(cur),
                accept_transition(cur) != cur,
            ),
            Err(e) => update_failed(old(storage).view(), final(storage).view(), e),
        },
{
    let ghost v = storage.view();
    let rec = match read_ota_data(storage) {
        Ok(d) => d,
        Err(e) => return Err(e),
    };
    let ghost cur = rec@;
    match rec.state {
        UpdateState::Valid => Ok(()),
        UpdateState::Invalid | UpdateState::Aborted => {
            let new_sequence = if rec.sequence == 0 {
                u32::MAX
            } else {
                rec.sequence - 1
            };
            let updated = UpdateRecord {
                sequence: new_sequence,
                state: UpdateState::Valid,
                reserved: rec.reserved,
            };
            proof {
                assert(updated@ =~= accept_transition(cur));
            }
            match write_ota_data(storage, &updated) {
                Ok(u) => Ok(()),
                Err(e) => Err(e),
            }
        },
        _ => {
            let updated = UpdateRecord {
                sequence: rec.sequence,
                state: UpdateState::Valid,
                reserved: rec.reserved,
            };
            proof {
                assert(updated@ =~= accept_transition(cur));
            }
            match write_ota_data(storage, &updated) {
                Ok(u) => Ok(()),
                Err(e) => Err(e),
            }
        },
    }
}

/// Mark the booted image as not working.
///
/// May be called after an update failed verification; rejecting an update
/// that was already accepted, or one already rejected or aborted, changes
/// nothing.
pub fn ota_reject<E, S: FlashStorage<E>>(storage: &mut S) -> (r: Result<(), OtaInternalError<E>>)
    ensures
        final(storage).view().len() == old(storage).view().len(),
        match r {
            Ok(u) => stored_record(old(storage).view()) matches Some(cur) && persisted(
                old(storage).view(),
                final(storage).view(),
                reject_transition(cur),
                reject_transition(cur) != cur,
            ),
            Err(e) => update_failed(old(storage).view(), final(storage).view(), e),
        },
{
    let ghost v = storage.view();
    let rec = match read_ota_data(storage) {
        Ok(d) => d,
        Err(e) => return Err(e),
    };
    let ghost cur = rec@;
    match rec.state {
        UpdateState::PendingVerify | UpdateState::New | UpdateState::Undefined => {
            let updated = UpdateRecord {
                sequence: rec.sequence,
                state: UpdateState::Invalid,
                reserved: rec.reserved,
            };
            proof {
                assert(updated@ =~= reject_transition(cur));
            }
            match write_ota_data(storage, &updated) {
                Ok(u) => Ok(()),
                Err(e) => Err(e),
            }
        },
        _ => Ok(()),
    }
}

/// Whether the booted image has been accepted (see `ota_accept`).
pub fn ota_is_valid<E, S: FlashStorage<E>>(storage: &mut S) -> (r: Result<
    bool,
    OtaInternalError<E>,
>)
    ensures
        final(storage).view() == old(storage).view(),
        match r {
            Ok(b) => stored_record(old(storage).view()) matches Some(cur) && (b <==> cur.state
                == UpdateState::Valid),
            Err(e) => update_failed(old(storage).view(), final(storage).view(), e),
        },
{
    match read_ota_data(storage) {
        Ok(rec) => Ok(rec.is_valid()),
        Err(e) => Err(e),
    }
}

/// How `get_booted_partition`'s outcome shows up in its return value.
pub open spec fn booted_lookup<E>(
    v: Seq<u8>,
    r: Result<PartitionDescriptor, OtaInternalError<E>>,
) -> bool {
    match r {
        Ok(d) => stored_record(v) matches Some(cur) && locate_by_kind(
            v,
            PartitionKind::AppOta(slot_of_sequence(cur.sequence)),
        ) == LocateOutcome::Found(d@),
        Err(e) => match e {
            OtaInternalError::OtaDataCorrupt => locate_by_kind(v, PartitionKind::DataOta) is Found
                && stored_record(v) is None,
            OtaInternalError::PartitionNotFound => locate_by_kind(v, PartitionKind::DataOta)
                is NotFound || (stored_record(v) matches Some(cur) && locate_by_kind(
                v,
                PartitionKind::AppOta(slot_of_sequence(cur.sequence)),
            ) is NotFound),
            OtaInternalError::PartitionFoundTwice => locate_by_kind(v, PartitionKind::DataOta)
                is FoundTwice || (stored_record(v) matches Some(cur) && locate_by_kind(
                v,
                PartitionKind::AppOta(slot_of_sequence(cur.sequence)),
            ) is FoundTwice),
            OtaInternalError::NorFlashOpError(FlashOpError::PartitionError) => locate_by_kind(
                v,
                PartitionKind::DataOta,
            ) is BadEntry || (stored_record(v) matches Some(cur) && locate_by_kind(
                v,
                PartitionKind::AppOta(slot_of_sequence(cur.sequence)),
            ) is BadEntry),
            OtaInternalError::NorFlashOpError(FlashOpError::StorageError(_)) => true,
        },
    }
}

/// The application partition the stored record says is currently running:
/// the slot that `sequence` selects, resolved through the partition table.
pub fn get_booted_partition<E, S: FlashStorage<E>>(storage: &mut S) -> (r: Result<
    PartitionDescriptor,
    OtaInternalError<E>,
>)
    ensures
        final(storage).view() == old(storage).view(),
        booted_lookup(old(storage).view(), r),
{
    let rec = match read_ota_data(storage) {
        Ok(d) => d,
        Err(e) => return Err(e),
    };
    let slot = slot_for_sequence(rec.sequence);
    find_partition_by_type(storage, PartitionKind::AppOta(slot))
}

/// The record `ota_begin` persists after a completed copy: the stepped
/// sequence number, the not-yet-verified state, and an all-ones reserved
/// field (no image digest is computed).
pub open spec fn fresh_record(s: u32) -> RecordModel {
    RecordModel {
        sequence: s,
        state: UpdateState::New,
        reserved: Seq::new(RESERVED_LEN as nat, |i: int| 0xFFu8),
    }
}

/// `v` with the application partition `app` erased and the image written
/// at its base offset.
pub open spec fn image_written(v: Seq<u8>, app: DescriptorModel, img: Seq<u8>) -> Seq<u8> {
    overwrite(
        erased(v, app.offset as int, app.offset + app.size),
        app.offset as int,
        img,
    )
}

/// A sane layout for an update: neither the target application partition
/// nor the metadata partition overlaps the partition table itself.
pub open spec fn begin_layout_ok(v: Seq<u8>, app: DescriptorModel) -> bool {
    &&& clear_of_table(app.offset as int, app.size as int)
    &&& (locate_by_kind(v, PartitionKind::DataOta) matches LocateOutcome::Found(e)
        ==> clear_of_table(e.offset as int, 2 * SECTOR_SIZE as int))
}

/// The flash after a completed update: the target slot erased, the image
/// written at its base, and the fresh record stored in both metadata copies.
pub open spec fn begin_written(v: Seq<u8>, app: DescriptorModel, img: Seq<u8>, s: u32) -> Seq<
    u8,
> {
    match locate_by_kind(v, PartitionKind::DataOta) {
        LocateOutcome::Found(e) => metadata_written(
            image_written(v, app, img),
            e.offset as int,
            encode_bytes(fresh_record(s)),
        ),
        _ => image_written(v, app, img),
    }
}

/// What may be concluded of the flash when `ota_begin` fails internally.
/// A storage failure may strike at any point; the other errors are pinned
/// to a lookup outcome, either on the untouched flash `v` (and then nothing
/// was written) or, for the metadata write after the copy, on the final
/// flash `w`.
pub open spec fn begin_internal_failed<E>(v: Seq<u8>, w: Seq<u8>, e: OtaInternalError<E>) -> bool {
    match e {
        OtaInternalError::OtaDataCorrupt => locate_by_kind(v, PartitionKind::DataOta) is Found
            && stored_record(v) is None && w == v,
        OtaInternalError::PartitionNotFound => (locate_by_kind(v, PartitionKind::DataOta)
            is NotFound && w == v) || (stored_record(v) matches Some(cur) && locate_by_kind(
            v,
            PartitionKind::AppOta(slot_of_sequence(next_sequence(cur.sequence))),
        ) is NotFound && w == v) || locate_by_kind(w, PartitionKind::DataOta) is NotFound,
        OtaInternalError::PartitionFoundTwice => (locate_by_kind(v, PartitionKind::DataOta)
            is FoundTwice && w == v) || (stored_record(v) matches Some(cur) && locate_by_kind(
            v,
            PartitionKind::AppOta(slot_of_sequence(next_sequence(cur.sequence))),
        ) is FoundTwice && w == v) || locate_by_kind(w, PartitionKind::DataOta) is FoundTwice,
        OtaInternalError::NorFlashOpError(FlashOpError::PartitionError) => (locate_by_kind(
            v,
            PartitionKind::DataOta,
        ) is BadEntry && w == v) || (stored_record(v) matches Some(cur) && locate_by_kind(
            v,
            PartitionKind::AppOta(slot_of_sequence(next_sequence(cur.sequence))),
        ) is BadEntry && w == v) || locate_by_kind(w, PartitionKind::DataOta) is BadEntry,
        OtaInternalError::NorFlashOpError(FlashOpError::StorageError(_)) => (stored_record(v)
            matches Some(cur) && (locate_by_kind(
            v,
            PartitionKind::AppOta(slot_of_sequence(next_sequence(cur.sequence))),
        ) matches LocateOutcome::Found(app) && (locate_by_kind(v, PartitionKind::DataOta)
            matches LocateOutcome::Found(meta) && begin_layout_ok(v, app)))) ==> forall|i: int|
            #![auto]
            0 <= i < v.len() && !({
                let cur = stored_record(v)->Some_0;
                let app = locate_by_kind(
                    v,
                    PartitionKind::AppOta(slot_of_sequence(next_sequence(cur.sequence))),
                )->Found_0;
                app.offset <= i < app.offset + app.size
            }) && !({
                let meta = locate_by_kind(v, PartitionKind::DataOta)->Found_0;
                meta.offset <= i < meta.offset + 2 * SECTOR_SIZE
            }) ==> w[i] == v[i],
    }
}

/// Start a new OTA update.
///
/// Acquires the concurrency guard (failing with `AlreadyUpdating` if it is
/// held), requires the stored record to be `Valid`, erases the application
/// slot that the next sequence number selects, streams the image into it —
/// failing with `OutOfSpace` before any byte past the slot's size would be
/// written — and finally persists a fresh record with the stepped sequence
/// number.  The caller reboots to activate the new slot, and releases the
/// guard when the session is over.
#[verifier::loop_isolation(false)]
pub fn ota_begin<E, RE, S: FlashStorage<E>, R: ImageSource<RE>, P: ProgressSink>(
    guard: &mut UpdateGuard,
    storage: &mut S,
    binary: &mut R,
    progress_fn: &mut P,
) -> (r: Result<(), OtaUpdateError<E, RE>>)
    ensures
        final(storage).view().len() == old(storage).view().len(),
        old(guard).is_locked() ==> final(guard).is_locked() && r == Err::<
            (),
            OtaUpdateError<E, RE>,
        >(OtaUpdateError::AlreadyUpdating) && final(storage).view() == old(storage).view()
            && final(binary).remaining() == old(binary).remaining(),
        !old(guard).is_locked() ==> final(guard).is_locked(),
        !old(guard).is_locked() && (stored_record(old(storage).view()) matches Some(cur)
            && cur.state != UpdateState::Valid) ==> final(storage).view() == old(storage).view()
            && (r == Err::<(), OtaUpdateError<E, RE>>(OtaUpdateError::PendingVerify) || r matches
        Err(OtaUpdateError::InternalError(OtaInternalError::NorFlashOpError(
            FlashOpError::StorageError(_),
        )))),
        ({
            let v = old(storage).view();
            let img = old(binary).remaining();
            match r {
                Ok(u) => !old(guard).is_locked() && final(binary).remaining().len() == 0 && (
                stored_record(v) matches Some(cur) && cur.state == UpdateState::Valid && (
                locate_by_kind(
                    v,
                    PartitionKind::AppOta(slot_of_sequence(next_sequence(cur.sequence))),
                ) matches LocateOutcome::Found(app) && img.len() <= app.size && (begin_layout_ok(
                    v,
                    app,
                ) ==> final(storage).view() == begin_written(
                    v,
                    app,
                    img,
                    next_sequence(cur.sequence),
                )))),
                Err(OtaUpdateError::AlreadyUpdating) => old(guard).is_locked(),
                Err(OtaUpdateError::PendingVerify) => !old(guard).is_locked() && (stored_record(v)
                    matches Some(cur) && cur.state != UpdateState::Valid) && final(storage).view()
                    == v && final(binary).remaining() == img,
                Err(OtaUpdateError::OutOfSpace) => !old(guard).is_locked() && (stored_record(v)
                    matches Some(cur) && cur.state == UpdateState::Valid && (locate_by_kind(
                    v,
                    PartitionKind::AppOta(slot_of_sequence(next_sequence(cur.sequence))),
                ) matches LocateOutcome::Found(app) && img.len() > app.size && (exists|k: int|
                    0 <= k <= app.size && final(storage).view() == overwrite(
                        erased(v, app.offset as int, app.offset + app.size),
                        app.offset as int,
                        #[trigger] img.take(k),
                    )))),
                Err(OtaUpdateError::ReadError(_)) => !old(guard).is_locked() && (
                stored_record(v) matches Some(cur) && cur.state == UpdateState::Valid && (
                locate_by_kind(
                    v,
                    PartitionKind::AppOta(slot_of_sequence(next_sequence(cur.sequence))),
                ) matches LocateOutcome::Found(app) && (exists|k: int|
                    0 <= k <= app.size && k <= img.len() && final(storage).view() == overwrite(
                        erased(v, app.offset as int, app.offset + app.size),
                        app.offset as int,
                        #[trigger] img.take(k),
                    )))),
                Err(OtaUpdateError::InternalError(e)) => !old(guard).is_locked()
                    && begin_internal_failed(v, final(storage).view(), e),
            }
        }),
{
    let ghost v = storage.view();
    let ghost img = binary.remaining();

    // Check if there is already an update happening
    if guard.is_updating() {
        return Err(OtaUpdateError::AlreadyUpdating);
    }
    guard.updating = true;

    // Check if we're in a valid state
    let ota_data = match read_ota_data(storage) {
        Ok(d) => d,
        Err(e) => return Err(OtaUpdateError::InternalError(e)),
    };
    if !ota_data.is_valid() {
        return Err(OtaUpdateError::PendingVerify);
    }
    let ghost cur = ota_data@;

    // Find partition to write to
    let new_sequence = if ota_data.sequence == u32::MAX {
        0
    } else {
        ota_data.sequence + 1
    };
    let slot = slot_for_sequence(new_sequence);
    let ota_app = match find_partition_by_type(storage, PartitionKind::AppOta(slot)) {
        Ok(p) => p,
        Err(e) => return Err(OtaUpdateError::InternalError(e)),
    };
    let ghost appm = ota_app@;

    // Erase partition
    match storage.erase(ota_app.offset as u64, ota_app.offset as u64 + ota_app.size as u64) {
        Ok(u) => {},
        Err(e) => return Err(
            OtaUpdateError::InternalError(
                OtaInternalError::NorFlashOpError(FlashOpError::StorageError(e)),
            ),
        ),
    }
    let ghost base = erased(v, appm.offset as int, appm.offset + appm.size);
    let size = ota_app.size as usize;

    // Stream the image into the slot
    let mut data_written: usize = 0;
    let mut done = false;
    proof {
        assert(storage.view() =~= overwrite(base, appm.offset as int, img.take(0)));
    }
    while !done
        invariant
            v == old(storage).view(),
            img == old(binary).remaining(),
            !old(guard).is_locked(),
            guard.is_locked(),
            appm == ota_app@,
            size == appm.size,
            appm.offset + appm.size <= v.len(),
            stored_record(v) == Some(cur),
            cur.state == UpdateState::Valid,
            new_sequence == next_sequence(cur.sequence),
            locate_by_kind(v, PartitionKind::AppOta(slot_of_sequence(new_sequence)))
                == LocateOutcome::Found(appm),
            data_written <= size,
            data_written <= img.len(),
            storage.view() == overwrite(base, appm.offset as int, img.take(data_written as int)),
            base == erased(v, appm.offset as int, appm.offset + appm.size),
            binary.remaining() == img.skip(data_written as int),
            done ==> binary.remaining().len() == 0,
        decreases binary.remaining().len() + (if done {
            0int
        } else {
            1int
        }),
    {
        let mut buffer: Vec<u8> = Vec::new();
        let ghost rem0 = binary.remaining();
        while !done && buffer.len() < SECTOR_SIZE
            invariant
                rem0 == img.skip(data_written as int),
                buffer@.len() <= SECTOR_SIZE,
                buffer@.len() <= rem0.len(),
                buffer@ == rem0.take(buffer@.len() as int),
                binary.remaining() == rem0.skip(buffer@.len() as int),
                done ==> binary.remaining().len() == 0,
            decreases rem0.len() - buffer@.len() + (if done {
                0int
            } else {
                1int
            }),
        {
            let want = SECTOR_SIZE - buffer.len();
            match binary.read_chunk(want) {
                Ok(chunk) => {
                    if chunk.len() == 0 {
                        done = true;
                    } else {
                        let ghost bl = buffer@.len() as int;
                        let ghost cl = chunk@.len() as int;
                        let mut tail = chunk;
                        buffer.append(&mut tail);
                        proof {
                            assert(buffer@ =~= rem0.take(bl + cl));
                            assert(rem0.skip(bl).skip(cl) =~= rem0.skip(bl + cl));
                        }
                    }
                },
                Err(e) => return Err(OtaUpdateError::ReadError(e)),
            }
        }

        if buffer.len() > size - data_written {
            proof {
                assert(img.len() >= data_written + buffer@.len());
                assert(img.len() > appm.size);
            }
            return Err(OtaUpdateError::OutOfSpace);
        }

        match storage.write(ota_app.offset as u64 + data_written as u64, buffer.as_slice()) {
            Ok(u) => {},
            Err(e) => return Err(
                OtaUpdateError::InternalError(
                    OtaInternalError::NorFlashOpError(FlashOpError::StorageError(e)),
                ),
            ),
        }
        proof {
            assert(img.skip(data_written as int).take(buffer@.len() as int) =~= img.subrange(
                data_written as int,
                data_written + buffer@.len(),
            ));
            assert(storage.view() =~= overwrite(
                base,
                appm.offset as int,
                img.take(data_written + buffer@.len()),
            ));
        }
        data_written = data_written + buffer.len();
        progress_fn.report(data_written);
    }

    // Write the fresh OTA data boot entry
    proof {
        assert(img.take(data_written as int) =~= img);
    }
    let ghost v1 = storage.view();
    let mut reserved: Vec<u8> = Vec::new();
    let mut i: usize = 0;
    while i < RESERVED_LEN
        invariant
            i <= RESERVED_LEN,
            reserved@ == Seq::new(i as nat, |j: int| 0xFFu8),
        decreases RESERVED_LEN - i,
    {
        reserved.push(0xFF);
        proof {
            assert(reserved@ =~= Seq::new((i + 1) as nat, |j: int| 0xFFu8));
        }
        i += 1;
    }
    let data = UpdateRecord { sequence: new_sequence, state: UpdateState::New, reserved };
    proof {
        assert(data@ =~= fresh_record(new_sequence));
    }
    proof {
        if begin_layout_ok(v, appm) {
            assert forall|a: int|
                #![auto]
                TABLE_OFFSET <= a < TABLE_OFFSET + 32 * TABLE_MAX_ENTRIES implies byte_at(v1, a)
                == byte_at(v, a) by {
                assert(v1.len() == v.len());
            }
            lemma_locate_stable(v1, v, 0, None, kind_sel(PartitionKind::DataOta));
            assert(locate_by_kind(v1, PartitionKind::DataOta) == locate_by_kind(
                v,
                PartitionKind::DataOta,
            ));
        }
    }
    match write_ota_data(storage, &data) {
        Ok(u) => {},
        Err(e) => {
            proof {
                if begin_layout_ok(v, appm) && locate_by_kind(v, PartitionKind::DataOta)
                    is Found {
                    let meta = locate_by_kind(v, PartitionKind::DataOta)->Found_0;
                    assert forall|i: int|
                        #![auto]
                        0 <= i < v.len() && !(appm.offset <= i < appm.offset + appm.size) && !(
                        meta.offset <= i < meta.offset + 2 * SECTOR_SIZE) implies storage.view()[i]
                        == v[i] by {
                        assert(v1[i] == v[i]);
                    }
                }
            }
            return Err(OtaUpdateError::InternalError(e));
        },
    }
    proof {
        if begin_layout_ok(v, appm) {
            assert(v1 =~= image_written(v, appm, img));
            assert(final(storage).view() == begin_written(v, appm, img, new_sequence));
        }
    }
    Ok(())
}

} // verus!
