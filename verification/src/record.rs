//! The persisted update record and its fixed-size binary encoding.
//!
//! A record serializes to exactly 32 bytes:
//!
//! | bytes   | content                                   |
//! |---------|-------------------------------------------|
//! | 0 .. 4  | `sequence`, little-endian                 |
//! | 4       | `state` tag                               |
//! | 5 .. 25 | `reserved` (20 bytes)                     |
//! | 25 .. 28| zero padding                              |
//! | 28 .. 32| CRC-32 of bytes 0 .. 28, little-endian    |
//!
//! Decoding validates the checksum trailer and the state tag; any mismatch
//! rejects the copy.

use vstd::prelude::*;
use vstd::bytes::{
    lemma_auto_spec_u32_to_from_le_bytes, spec_u32_from_le_bytes, spec_u32_to_le_bytes,
    u32_from_le_bytes, u32_to_le_bytes,
};
use vstd::slice::{slice_subrange, slice_to_vec};
use crate::crc::{crc32, crc32_of};

verus! {

/// Size in bytes of one encoded update record.
pub const RECORD_SIZE: usize = 32;

/// Number of bytes of the reserved field.
pub const RESERVED_LEN: usize = 20;

/// Verification status of the currently selected application slot.
#[derive(Clone, Copy, Debug, PartialEq, Eq, Structural)]
pub enum UpdateState {
    Undefined,
    New,
    PendingVerify,
    Valid,
    Invalid,
    Aborted,
}

/// The record stored (twice) in the metadata partition.
pub struct UpdateRecord {
    /// Update sequence number; its parity selects the active slot.
    pub sequence: u32,
    /// Whether the selected slot is trusted to keep booting.
    pub state: UpdateState,
    /// Opaque 20-byte field kept alongside the record.
    pub reserved: Vec<u8>,
}

/// Mathematical model of an update record.
#[verifier::ext_equal]
pub struct RecordModel {
    pub sequence: u32,
    pub state: UpdateState,
    pub reserved: Seq<u8>,
}

impl UpdateRecord {
    /// Whether the record marks the selected slot as verified working.
    pub fn is_valid(&self) -> (r: bool)
        ensures
            r == (self.state == UpdateState::Valid),
    {
        self.state == UpdateState::Valid
    }
}

impl View for UpdateRecord {
    type V = RecordModel;

    open spec fn view(&self) -> RecordModel {
        RecordModel { sequence: self.sequence, state: self.state, reserved: self.reserved@ }
    }
}

/// A model is well formed when its reserved field has the fixed length.
pub open spec fn record_wf(m: RecordModel) -> bool {
    m.reserved.len() == RESERVED_LEN
}

/// Tag byte that encodes a state.
pub open spec fn state_tag(s: UpdateState) -> u8 {
    match s {
        UpdateState::Undefined => 0x00,
        UpdateState::New => 0x01,
        UpdateState::PendingVerify => 0x02,
        UpdateState::Valid => 0x03,
        UpdateState::Invalid => 0x04,
        UpdateState::Aborted => 0x05,
    }
}

/// State encoded by a tag byte, if any.
pub open spec fn tag_state(t: u8) -> Option<UpdateState> {
    if t == 0x00 {
        Some(UpdateState::Undefined)
    } else if t == 0x01 {
        Some(UpdateState::New)
    } else if t == 0x02 {
        Some(UpdateState::PendingVerify)
    } else if t == 0x03 {
        Some(UpdateState::Valid)
    } else if t == 0x04 {
        Some(UpdateState::Invalid)
    } else if t == 0x05 {
        Some(UpdateState::Aborted)
    } else {
        None
    }
}

/// The checksummed part of an encoded record: bytes 0 .. 28.
pub open spec fn payload_bytes(m: RecordModel) -> Seq<u8> {
    spec_u32_to_le_bytes(m.sequence) + seq![state_tag(m.state)] + m.reserved + seq![0u8, 0u8, 0u8]
}

/// The full 32-byte encoding: payload followed by its CRC-32 trailer.
pub open spec fn encode_bytes(m: RecordModel) -> Seq<u8> {
    payload_bytes(m) + spec_u32_to_le_bytes(crc32_of(payload_bytes(m)))
}

/// The record a 32-byte block holds, if its checksum and state tag validate.
pub open spec fn decode_bytes(b: Seq<u8>) -> Option<RecordModel> {
    if b.len() == RECORD_SIZE && spec_u32_from_le_bytes(b.subrange(28, 32)) == crc32_of(
        b.subrange(0, 28),
    ) {
        match tag_state(b[4]) {
            Some(state) => Some(
                RecordModel {
                    sequence: spec_u32_from_le_bytes(b.subrange(0, 4)),
                    state,
                    reserved: b.subrange(5, 25),
                },
            ),
            None => None,
        }
    } else {
        None
    }
}

fn encode_state(s: UpdateState) -> (t: u8)
    ensures
        t == state_tag(s),
{
    match s {
        UpdateState::Undefined => 0x00,
        UpdateState::New => 0x01,
        UpdateState::PendingVerify => 0x02,
        UpdateState::Valid => 0x03,
        UpdateState::Invalid => 0x04,
        UpdateState::Aborted => 0x05,
    }
}

fn decode_state(t: u8) -> (s: Option<UpdateState>)
    ensures
        s == tag_state(t),
{
    if t == 0x00 {
        Some(UpdateState::Undefined)
    } else if t == 0x01 {
        Some(UpdateState::New)
    } else if t == 0x02 {
        Some(UpdateState::PendingVerify)
    } else if t == 0x03 {
        Some(UpdateState::Valid)
    } else if t == 0x04 {
        Some(UpdateState::Invalid)
    } else if t == 0x05 {
        Some(UpdateState::Aborted)
    } else {
        None
    }
}

/// Serialize a record into its 32-byte form, checksum trailer included.
pub fn encode_record(rec: &UpdateRecord) -> (out: Vec<u8>)
    requires
        record_wf(rec@),
    ensures
        out@ == encode_bytes(rec@),
        out@.len() == RECORD_SIZE,
{
    proof {
        lemma_auto_spec_u32_to_from_le_bytes();
    }
    let mut out = u32_to_le_bytes(rec.sequence);
    out.push(encode_state(rec.state));
    let mut i: usize = 0;
    while i < RESERVED_LEN
        invariant
            record_wf(rec@),
            i <= RESERVED_LEN,
            out@ == spec_u32_to_le_bytes(rec.sequence) + seq![state_tag(rec.state)]
                + rec.reserved@.take(i as int),
        decreases RESERVED_LEN - i,
    {
        out.push(rec.reserved[i]);
        proof {
            assert(rec.reserved@.take(i + 1) =~= rec.reserved@.take(i as int).push(
                rec.reserved@[i as int],
            ));
        }
        i += 1;
    }
    out.push(0);
    out.push(0);
    out.push(0);
    proof {
        assert(rec.reserved@.take(RESERVED_LEN as int) =~= rec.reserved@);
        assert(out@ =~= payload_bytes(rec@));
    }
    let digest = crc32(out.as_slice());
    let mut trailer = u32_to_le_bytes(digest);
    out.append(&mut trailer);
    proof {
        assert(out@ =~= encode_bytes(rec@));
    }
    out
}

/// Deserialize a 32-byte block, validating the checksum and the state tag.
pub fn decode_record(bytes: &[u8]) -> (r: Option<UpdateRecord>)
    ensures
        match r {
            Some(rec) => decode_bytes(bytes@) == Some(rec@) && record_wf(rec@),
            None => decode_bytes(bytes@) is None,
        },
{
    proof {
        lemma_auto_spec_u32_to_from_le_bytes();
    }
    if bytes.len() != RECORD_SIZE {
        return None;
    }
    let payload = slice_subrange(bytes, 0, 28);
    let stored = u32_from_le_bytes(slice_subrange(bytes, 28, 32));
    if stored != crc32(payload) {
        return None;
    }
    match decode_state(*vstd::slice::slice_index_get(bytes, 4)) {
        Some(state) => {
            let sequence = u32_from_le_bytes(slice_subrange(bytes, 0, 4));
            let reserved = slice_to_vec(slice_subrange(bytes, 5, 25));
            let rec = UpdateRecord { sequence, state, reserved };
            proof {
                assert(decode_bytes(bytes@) =~= Some(rec@));
            }
            Some(rec)
        },
        None => None,
    }
}

/// Law: encoding a well-formed record and decoding the result yields the
/// record unchanged, whatever its sequence, state and reserved bytes.
pub proof fn lemma_record_round_trip(m: RecordModel)
    requires
        record_wf(m),
    ensures
        decode_bytes(encode_bytes(m)) == Some(m),
{
    lemma_auto_spec_u32_to_from_le_bytes();
    let p = payload_bytes(m);
    let b = encode_bytes(m);
    assert(p.len() == 28);
    assert(b.len() == 32);
    assert(b.subrange(0, 28) =~= p);
    assert(b.subrange(28, 32) =~= spec_u32_to_le_bytes(crc32_of(p)));
    assert(b[4] == state_tag(m.state));
    assert(b.subrange(0, 4) =~= spec_u32_to_le_bytes(m.sequence));
    assert(b.subrange(5, 25) =~= m.reserved);
    assert(decode_bytes(b) =~= Some(m));
}

} // verus!
