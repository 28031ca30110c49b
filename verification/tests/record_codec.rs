//! Tests of the update-record codec: round trip, checksum trailer, and
//! rejection of damaged or malformed blocks.

use ota_updater::record::{decode_record, encode_record, UpdateRecord, UpdateState};

fn sample_record() -> UpdateRecord {
    UpdateRecord { sequence: 5, state: UpdateState::Valid, reserved: vec![0xAA; 20] }
}

#[test]
fn round_trip() {
    let rec = sample_record();
    let enc = encode_record(&rec);
    assert_eq!(enc.len(), 32);
    let dec = decode_record(enc.as_slice()).expect("a fresh encoding must decode");
    assert_eq!(dec.sequence, 5);
    assert_eq!(dec.state, UpdateState::Valid);
    assert_eq!(dec.reserved, vec![0xAA; 20]);
}

#[test]
fn round_trip_every_state() {
    let states = [
        UpdateState::Undefined,
        UpdateState::New,
        UpdateState::PendingVerify,
        UpdateState::Valid,
        UpdateState::Invalid,
        UpdateState::Aborted,
    ];
    for (i, state) in states.iter().enumerate() {
        let rec = UpdateRecord { sequence: i as u32, state: *state, reserved: vec![i as u8; 20] };
        let dec = decode_record(encode_record(&rec).as_slice()).unwrap();
        assert_eq!(dec.sequence, i as u32);
        assert_eq!(dec.state, *state);
        assert_eq!(dec.reserved, vec![i as u8; 20]);
    }
}

#[test]
fn trailer_is_crc32_of_payload() {
    let enc = encode_record(&sample_record());
    let expected = crc32fast::hash(&enc[..28]).to_le_bytes();
    assert_eq!(&enc[28..32], &expected);
}

#[test]
fn corrupted_checksum_byte_rejected() {
    let mut enc = encode_record(&sample_record());
    enc[28] ^= 0xFF;
    assert!(decode_record(enc.as_slice()).is_none());
}

#[test]
fn corrupted_payload_byte_rejected() {
    let mut enc = encode_record(&sample_record());
    enc[0] ^= 0x01;
    assert!(decode_record(enc.as_slice()).is_none());
}

#[test]
fn wrong_length_rejected() {
    let enc = encode_record(&sample_record());
    assert!(decode_record(&enc[..31]).is_none());
    assert!(decode_record(&[]).is_none());
}

#[test]
fn erased_block_rejected() {
    let erased = [0xFFu8; 32];
    assert!(decode_record(&erased).is_none());
}
