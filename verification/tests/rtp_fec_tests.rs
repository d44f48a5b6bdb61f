//! RTP framing, sequence continuity, clock arithmetic, and parity
//! recovery.

use scte35dump::demux::Demuxer;
use scte35dump::fec::{parse_fec_header, FecHeaderInfo, FecMatrix};
use scte35dump::ingest::{fec_column_of, fec_row_of, receive_rtp_datagram};
use scte35dump::pcr::elapsed_90k;
use scte35dump::rtp::{parse_rtp_header, RtpErr, SeqTracker};

fn null_ts_packet() -> Vec<u8> {
    let mut p = vec![0x47u8, 0x1f, 0xff, 0x10];
    while p.len() < 188 {
        p.push(0xff);
    }
    p
}

fn rtp_datagram(seq: u16, payload: &[u8]) -> Vec<u8> {
    let mut d = vec![
        0x80, // version 2, no padding, no extension, no CSRC
        96,   // payload type
        (seq >> 8) as u8,
        (seq & 0xff) as u8,
        0, 0, 0, 1, // timestamp
        0, 0, 0, 2, // ssrc
    ];
    d.extend_from_slice(payload);
    d
}

#[test]
fn rtp_header_fields_and_errors() {
    let d = rtp_datagram(0x1234, b"abc");
    let h = parse_rtp_header(&d).expect("parse");
    assert_eq!(h.sequence, 0x1234);
    assert_eq!(h.payload_start, 12);
    assert_eq!(h.padding, 0);
    assert_eq!(parse_rtp_header(&d[..5]), Err(RtpErr::BufferTooShort));
    let mut bad = d.clone();
    bad[0] = 0x40; // version 1
    assert_eq!(parse_rtp_header(&bad), Err(RtpErr::UnsupportedVersion(1)));
    let mut csrcs = d.clone();
    csrcs[0] = 0x8f; // 15 CSRC entries cannot fit
    assert_eq!(parse_rtp_header(&csrcs), Err(RtpErr::HeadersTruncated));
}

#[test]
fn rtp_padding_is_stripped() {
    let mut d = rtp_datagram(7, b"abcd");
    d[0] |= 0x20;
    d.extend_from_slice(&[0, 0, 3]); // two padding bytes + the count
    let h = parse_rtp_header(&d).expect("parse");
    assert_eq!(h.payload_start, 12);
    assert_eq!(h.padding, 3);
    assert_eq!(&d[h.payload_start..d.len() - h.padding], b"abcd");
}

#[test]
fn sequence_gap_detected_once() {
    // P5: packets 10, 11, 13 give exactly one discontinuity and all
    // three payloads reach the demultiplexer
    let mut demux = Demuxer::new();
    let mut tracker = SeqTracker::new();
    let pk = null_ts_packet();
    let mut gaps = 0;
    for seq in [10u16, 11, 13] {
        let d = rtp_datagram(seq, &pk);
        let gap = receive_rtp_datagram(&mut demux, &mut tracker, &d).expect("rtp ok");
        if gap {
            gaps += 1;
        }
    }
    assert_eq!(gaps, 1);
    assert!(!demux.is_failed(), "all payloads were consumed as packets");
}

#[test]
fn malformed_datagram_changes_nothing() {
    let mut demux = Demuxer::new();
    let mut tracker = SeqTracker::new();
    let r = receive_rtp_datagram(&mut demux, &mut tracker, &[0u8; 4]);
    assert_eq!(r, Err(RtpErr::BufferTooShort));
    assert_eq!(tracker.expected, None);
}

#[test]
fn elapsed_90k_wraps_modulo_2_pow_33() {
    assert_eq!(elapsed_90k(100, 50), 50);
    assert_eq!(elapsed_90k(10, 0x1_ffff_fffb), 15);
    assert_eq!(elapsed_90k(0x1_ffff_fffb, 10), -15);
    assert_eq!(elapsed_90k(0, 0), 0);
}

fn payload_for(seq: u16) -> Vec<u8> {
    let mut p = vec![(seq & 0xff) as u8; 16];
    p[0] = (seq >> 8) as u8;
    p
}

fn xor_of(parts: &[Vec<u8>]) -> Vec<u8> {
    let mut acc = vec![0u8; parts[0].len()];
    for p in parts {
        for (i, b) in p.iter().enumerate() {
            acc[i] ^= b;
        }
    }
    acc
}

#[test]
fn single_loss_recovered_byte_identical() {
    // P6: a 4x4 matrix, one media packet missing, both its parities
    // present: the payload comes back byte for byte
    const BASE: u16 = 100;
    let mut m = FecMatrix::new(4, 4, BASE);
    let lost = 105u16; // row 1, column 1
    for seq in BASE..BASE + 16 {
        if seq != lost {
            m.insert_main(seq, payload_for(seq));
        }
    }
    let row1: Vec<Vec<u8>> = (104..108).map(|s| payload_for(s)).collect();
    let col1: Vec<Vec<u8>> = [101u16, 105, 109, 113].iter().map(|s| payload_for(*s)).collect();
    // equal 16-byte payloads: the length recovery field is their XOR
    m.insert_row_parity(1, 16 ^ 16 ^ 16 ^ 16, xor_of(&row1));
    m.insert_col_parity(1, 16 ^ 16 ^ 16 ^ 16, xor_of(&col1));
    let recovered = m.recover();
    assert_eq!(recovered.len(), 1);
    assert_eq!(recovered[0].0, lost);
    assert_eq!(recovered[0].1, payload_for(lost));
    assert_eq!(m.get_main(lost), Some(&payload_for(lost)));
}

#[test]
fn double_loss_in_a_row_stays_missing() {
    // P7: two losses share a row; no column parity covers either, so
    // neither packet is ever delivered
    const BASE: u16 = 200;
    let mut m = FecMatrix::new(4, 4, BASE);
    let lost_a = 204u16;
    let lost_b = 205u16;
    for seq in BASE..BASE + 16 {
        if seq != lost_a && seq != lost_b {
            m.insert_main(seq, payload_for(seq));
        }
    }
    let row1: Vec<Vec<u8>> = (204..208).map(|s| payload_for(s)).collect();
    m.insert_row_parity(1, 0, xor_of(&row1));
    let recovered = m.recover();
    assert_eq!(recovered.len(), 0);
    assert_eq!(m.get_main(lost_a), None);
    assert_eq!(m.get_main(lost_b), None);
}

#[test]
fn chained_recovery_across_row_and_column() {
    // two losses in one row, but one of them is covered by a column
    // parity: the column repairs first, then the row completes
    const BASE: u16 = 300;
    let mut m = FecMatrix::new(2, 2, BASE);
    // grid: 300 301 / 302 303; lose 300 and 301
    m.insert_main(302, payload_for(302));
    m.insert_main(303, payload_for(303));
    let row0: Vec<Vec<u8>> = vec![payload_for(300), payload_for(301)];
    let col0: Vec<Vec<u8>> = vec![payload_for(300), payload_for(302)];
    m.insert_row_parity(0, 0, xor_of(&row0));
    m.insert_col_parity(0, 0, xor_of(&col0));
    let recovered = m.recover();
    assert_eq!(recovered.len(), 2);
    assert_eq!(m.get_main(300), Some(&payload_for(300)));
    assert_eq!(m.get_main(301), Some(&payload_for(301)));
}

#[test]
fn fec_header_parses_and_classifies() {
    // a column packet: sn_base 102, offset 4 (columns), na 4 (rows)
    let mut b = vec![0u8; 16];
    b[0] = 0;
    b[1] = 102;
    b[2] = 0;
    b[3] = 16; // length recovery
    b[4] = 0x80; // extension flag
    b[12] = 0x00; // column orientation
    b[13] = 4;
    b[14] = 4;
    let h = parse_fec_header(&b).expect("header");
    assert_eq!(
        h,
        FecHeaderInfo { sn_base: 102, length_recovery: 16, row: false, offset: 4, na: 4 }
    );
    assert_eq!(fec_column_of(100, 4, 4, &h), Some(2));
    assert_eq!(fec_row_of(100, 4, 4, &h), None);
    // a row packet: sn_base 108, offset 1, na 4
    let mut r = vec![0u8; 16];
    r[1] = 108;
    r[4] = 0x80;
    r[12] = 0x40;
    r[13] = 1;
    r[14] = 4;
    let hr = parse_fec_header(&r).expect("header");
    assert_eq!(fec_row_of(100, 4, 4, &hr), Some(2));
    assert_eq!(fec_column_of(100, 4, 4, &hr), None);
    // truncated or non-extended headers are rejected
    assert_eq!(parse_fec_header(&b[..10]), None);
    let mut ne = b.clone();
    ne[4] = 0;
    assert_eq!(parse_fec_header(&ne), None);
}
