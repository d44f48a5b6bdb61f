//! Splice section decoding and encoding round trips.

use base64::Engine;
use scte35dump::crc::crc32;
use scte35dump::literal::decode_section_literal;
use scte35dump::splice::{
    decode_splice_info, decode_splice_section, encode_splice_header, encode_splice_insert,
    EncryptionAlgorithm, NetworkIndicator, ReturnMode, SectionErr, SpliceCommand, SpliceDuration,
    SpliceErr, SpliceInfoHeader, SpliceInsertDetail, SpliceMode, SpliceTime,
};

/// A minimal splice_null section: 11-byte header, empty command,
/// empty descriptor loop, valid CRC.
fn splice_null_section() -> Vec<u8> {
    let mut s: Vec<u8> = vec![
        0xfc, 0x30, 0x11, // table_id, section_length 0x011
        0x00, // protocol_version
        0x00, // not encrypted, algorithm 0, pts_adjustment top bit
        0x00, 0x00, 0x00, 0x00, // pts_adjustment
        0x00, // cw_index
        0xff, 0xf0, 0x00, // tier 0xfff, splice_command_length 0
        0x00, // splice_command_type: null
        0x00, 0x00, // descriptor_loop_length
    ];
    let c = crc32(&s);
    s.extend_from_slice(&c.to_be_bytes());
    s
}

#[test]
fn splice_null_literal_hex_path() {
    let section = splice_null_section();
    let text = hex::encode(&section);
    let r = decode_section_literal(true, false, text.as_bytes()).expect("decode");
    assert_eq!(r.header.protocol_version, 0);
    assert!(!r.header.encrypted_packet);
    assert_eq!(r.header.splice_command_type, 0x00);
    assert_eq!(r.command, SpliceCommand::SpliceNull);
    assert_eq!(r.descriptors.len(), 0);
}

#[test]
fn splice_null_literal_base64_path() {
    let section = splice_null_section();
    let text = base64::engine::general_purpose::STANDARD.encode(&section);
    let r = decode_section_literal(false, true, text.as_bytes()).expect("decode");
    assert_eq!(r.command, SpliceCommand::SpliceNull);
    assert_eq!(r.descriptors.len(), 0);
}

#[test]
fn literal_encoding_flags_validated() {
    let section = splice_null_section();
    let text = hex::encode(&section);
    assert!(decode_section_literal(true, true, text.as_bytes()).is_err());
    assert!(decode_section_literal(false, false, text.as_bytes()).is_err());
}

#[test]
fn literal_bad_hex_rejected() {
    assert!(decode_section_literal(true, false, b"zz").is_err());
    // odd length
    assert!(decode_section_literal(true, false, b"fc3").is_err());
}

#[test]
fn literal_bad_base64_rejected() {
    assert!(decode_section_literal(false, true, b"!!!!").is_err());
    // missing padding is not canonical
    assert!(decode_section_literal(false, true, b"QUJD0").is_err());
}

/// The well-known splice_insert sample: program mode, timed, with an
/// automatic-return duration.
const INSERT_SAMPLE_HEX: &str =
    "fc302500000000000000fff01405000000017feffe2d142b00fe0123d3080001010100007f157a49";

#[test]
fn splice_insert_sample_decodes_exactly() {
    let data = hex::decode(INSERT_SAMPLE_HEX).unwrap();
    let r = decode_splice_section(&data).expect("decode");
    assert_eq!(r.header.protocol_version, 0);
    assert!(!r.header.encrypted_packet);
    assert_eq!(r.header.encryption_algorithm, EncryptionAlgorithm::NotEncrypted);
    assert_eq!(r.header.pts_adjustment, 0);
    assert_eq!(r.header.tier, 0xfff);
    assert_eq!(r.header.splice_command_type, 0x05);
    match &r.command {
        SpliceCommand::SpliceInsert { splice_event_id, splice_detail } => {
            assert_eq!(*splice_event_id, 1);
            match splice_detail {
                SpliceInsertDetail::Insert {
                    network_indicator,
                    splice_mode,
                    duration,
                    unique_program_id,
                    avail_num,
                    avails_expected,
                } => {
                    assert_eq!(*network_indicator, NetworkIndicator::Out);
                    assert_eq!(
                        *splice_mode,
                        SpliceMode::Program(SpliceTime::Timed(Some(756296448)))
                    );
                    assert_eq!(
                        *duration,
                        Some(SpliceDuration {
                            return_mode: ReturnMode::Automatic,
                            duration: 19125000
                        })
                    );
                    assert_eq!(*unique_program_id, 1);
                    assert_eq!(*avail_num, 1);
                    assert_eq!(*avails_expected, 1);
                }
                other => panic!("unexpected detail {:?}", other),
            }
        }
        other => panic!("unexpected command {:?}", other),
    }
    assert_eq!(r.descriptors.len(), 0);
}

#[test]
fn splice_insert_round_trip() {
    let body = encode_splice_insert(
        0xdeadbeef,
        NetworkIndicator::Out,
        0x123456789,
        SpliceDuration { return_mode: ReturnMode::Manual, duration: 0x1fedcba98 },
        0x5aa5,
        7,
        9,
    );
    assert_eq!(body.len(), 20);
    let header = SpliceInfoHeader {
        protocol_version: 0,
        encrypted_packet: false,
        encryption_algorithm: EncryptionAlgorithm::NotEncrypted,
        pts_adjustment: 0x155555555,
        cw_index: 0x12,
        tier: 0xabc,
        splice_command_length: 20,
        splice_command_type: 0x05,
    };
    let mut artifact = encode_splice_header(&header);
    artifact.extend_from_slice(&body);
    let (h2, cmd) = decode_splice_info(&artifact).expect("decode");
    assert_eq!(h2, header);
    match cmd {
        SpliceCommand::SpliceInsert { splice_event_id, splice_detail } => {
            assert_eq!(splice_event_id, 0xdeadbeef);
            match splice_detail {
                SpliceInsertDetail::Insert {
                    network_indicator,
                    splice_mode,
                    duration,
                    unique_program_id,
                    avail_num,
                    avails_expected,
                } => {
                    assert_eq!(network_indicator, NetworkIndicator::Out);
                    assert_eq!(
                        splice_mode,
                        SpliceMode::Program(SpliceTime::Timed(Some(0x123456789)))
                    );
                    assert_eq!(
                        duration,
                        Some(SpliceDuration {
                            return_mode: ReturnMode::Manual,
                            duration: 0x1fedcba98
                        })
                    );
                    assert_eq!(unique_program_id, 0x5aa5);
                    assert_eq!(avail_num, 7);
                    assert_eq!(avails_expected, 9);
                }
                other => panic!("unexpected detail {:?}", other),
            }
        }
        other => panic!("unexpected command {:?}", other),
    }
}

#[test]
fn crc_failure_detected() {
    let mut section = splice_null_section();
    let last = section.len() - 1;
    section[last] ^= 0x01;
    assert_eq!(decode_splice_section(&section), Err(SectionErr::Crc));
}

#[test]
fn bad_table_id_detected() {
    let mut section = splice_null_section();
    section[0] = 0x42;
    assert_eq!(decode_splice_section(&section), Err(SectionErr::BadTableId(0x42)));
}

#[test]
fn encrypted_section_reported_not_decoded() {
    let mut s: Vec<u8> = vec![
        0xfc, 0x30, 0x11, 0x00, 0x84, // encrypted, algorithm 2 (DES CBC)
        0x00, 0x00, 0x00, 0x00, 0x00, 0xff, 0xf0, 0x00, 0x00, 0x00, 0x00,
    ];
    let c = crc32(&s);
    s.extend_from_slice(&c.to_be_bytes());
    assert_eq!(
        decode_splice_section(&s),
        Err(SectionErr::Encrypted(EncryptionAlgorithm::DesCbc))
    );
}

#[test]
fn null_command_with_body_is_an_anomaly() {
    // splice_command_length 1 with a junk body byte for command type 0
    let mut s: Vec<u8> = vec![
        0xfc, 0x30, 0x12, 0x00, 0x00, 0x00, 0x00, 0x00, 0x00, 0x00, 0xff, 0xf0, 0x01, 0x00,
        0xaa, // stray body byte
        0x00, 0x00,
    ];
    let c = crc32(&s);
    s.extend_from_slice(&c.to_be_bytes());
    assert_eq!(
        decode_splice_section(&s),
        Err(SectionErr::Command(SpliceErr::BodyNotEmpty))
    );
}

#[test]
fn truncated_insert_reports_not_enough_data() {
    // command claims length 3 but splice_insert needs at least 5 bytes
    let mut s: Vec<u8> = vec![
        0xfc, 0x30, 0x14, 0x00, 0x00, 0x00, 0x00, 0x00, 0x00, 0x00, 0xff, 0xf0, 0x03, 0x05,
        0x00, 0x00, 0x00, 0x00, 0x00,
    ];
    let c = crc32(&s);
    s.extend_from_slice(&c.to_be_bytes());
    assert_eq!(
        decode_splice_section(&s),
        Err(SectionErr::Command(SpliceErr::NotEnoughData))
    );
}

#[test]
fn unspecified_command_length_is_derived() {
    // splice_command_length 0xfff with a null command: the decoder must
    // fall back to deriving the (empty) body from the section layout
    let mut s: Vec<u8> = vec![
        0xfc, 0x30, 0x11, 0x00, 0x00, 0x00, 0x00, 0x00, 0x00, 0x00, 0xff, 0xff, 0xff, 0x00,
        0x00, 0x00,
    ];
    let c = crc32(&s);
    s.extend_from_slice(&c.to_be_bytes());
    let r = decode_splice_section(&s).expect("decode");
    assert_eq!(r.command, SpliceCommand::SpliceNull);
}

#[test]
fn schedule_and_private_commands_pass_through_opaquely() {
    // splice_schedule (0x04) with a 3-byte opaque body
    let mut s: Vec<u8> = vec![
        0xfc, 0x30, 0x14, 0x00, 0x00, 0x00, 0x00, 0x00, 0x00, 0x00, 0xff, 0xf0, 0x03, 0x04,
        0x01, 0x02, 0x03, 0x00, 0x00,
    ];
    let c = crc32(&s);
    s.extend_from_slice(&c.to_be_bytes());
    let r = decode_splice_section(&s).expect("decode");
    assert_eq!(r.command, SpliceCommand::SpliceSchedule(vec![0x01, 0x02, 0x03]));
}

#[test]
fn descriptors_surface_tag_and_raw_bytes() {
    // null command plus one descriptor: tag 0x8a, three bytes
    let mut s: Vec<u8> = vec![
        0xfc, 0x30, 0x16, 0x00, 0x00, 0x00, 0x00, 0x00, 0x00, 0x00, 0xff, 0xf0, 0x00, 0x00,
        0x00, 0x05, 0x8a, 0x03, 0x11, 0x22, 0x33,
    ];
    let c = crc32(&s);
    s.extend_from_slice(&c.to_be_bytes());
    let r = decode_splice_section(&s).expect("decode");
    assert_eq!(r.command, SpliceCommand::SpliceNull);
    assert_eq!(r.descriptors.len(), 1);
    assert_eq!(r.descriptors[0].tag, 0x8a);
    assert_eq!(r.descriptors[0].data, vec![0x11, 0x22, 0x33]);
}
