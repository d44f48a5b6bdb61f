//! Demultiplexer scenarios: routing, classification, chunking
//! invariance, and resynchronisation.

use scte35dump::crc::crc32;
use scte35dump::demux::Demuxer;
use scte35dump::splice::SpliceCommand;

/// Build one 188-byte packet: no adaptation field, stuffing after the
/// payload.
fn ts_packet(pid: u16, pusi: bool, cc: u8, payload: &[u8]) -> Vec<u8> {
    assert!(payload.len() <= 184);
    let mut p = vec![
        0x47,
        ((pid >> 8) as u8 & 0x1f) | if pusi { 0x40 } else { 0x00 },
        (pid & 0xff) as u8,
        0x10 | (cc & 0x0f),
    ];
    p.extend_from_slice(payload);
    while p.len() < 188 {
        p.push(0xff);
    }
    p
}

fn with_crc(mut section: Vec<u8>) -> Vec<u8> {
    let c = crc32(&section);
    section.extend_from_slice(&c.to_be_bytes());
    section
}

/// A PAT with one program.
fn pat_section(program: u16, pmt_pid: u16) -> Vec<u8> {
    with_crc(vec![
        0x00, 0xb0, 0x0d, // table_id, section_length 13
        0x00, 0x01, // transport_stream_id
        0xc1, 0x00, 0x00, // version 0 current, section 0 of 0
        (program >> 8) as u8, (program & 0xff) as u8,
        0xe0 | (pmt_pid >> 8) as u8, (pmt_pid & 0xff) as u8,
    ])
}

/// A PMT with one elementary stream of the SCTE-35 private type, with
/// or without the CUEI registration descriptor.
fn pmt_section(program: u16, pcr_pid: u16, es_pid: u16, cuei: bool) -> Vec<u8> {
    let prog_desc: Vec<u8> = if cuei {
        vec![0x05, 0x04, 0x43, 0x55, 0x45, 0x49]
    } else {
        vec![]
    };
    let section_length = 9 + prog_desc.len() + 5 + 4;
    let mut s = vec![
        0x02, 0xb0, section_length as u8,
        (program >> 8) as u8, (program & 0xff) as u8,
        0xc1, 0x00, 0x00,
        0xe0 | (pcr_pid >> 8) as u8, (pcr_pid & 0xff) as u8,
        0xf0, prog_desc.len() as u8,
    ];
    s.extend_from_slice(&prog_desc);
    s.extend_from_slice(&[
        0x86, 0xe0 | (es_pid >> 8) as u8, (es_pid & 0xff) as u8, 0xf0, 0x00,
    ]);
    with_crc(s)
}

fn splice_null_section() -> Vec<u8> {
    with_crc(vec![
        0xfc, 0x30, 0x11, 0x00, 0x00, 0x00, 0x00, 0x00, 0x00, 0x00, 0xff, 0xf0, 0x00, 0x00,
        0x00, 0x00,
    ])
}

/// A payload for a PUSI packet: pointer field zero, then the section.
fn section_payload(section: &[u8]) -> Vec<u8> {
    let mut p = vec![0x00];
    p.extend_from_slice(section);
    p
}

const PMT_PID: u16 = 0x0100;
const ES_PID: u16 = 0x0200;

fn basic_stream() -> Vec<u8> {
    let mut stream = Vec::new();
    stream.extend_from_slice(&ts_packet(0, true, 0, &section_payload(&pat_section(1, PMT_PID))));
    stream.extend_from_slice(&ts_packet(
        PMT_PID,
        true,
        0,
        &section_payload(&pmt_section(1, 0x0300, ES_PID, true)),
    ));
    stream.extend_from_slice(&ts_packet(ES_PID, true, 0, &section_payload(&splice_null_section())));
    stream
}

#[test]
fn pat_pmt_splice_null_emits_one_event() {
    let mut demux = Demuxer::new();
    demux.push(&basic_stream());
    assert!(!demux.is_failed());
    let events = demux.events();
    assert_eq!(events.len(), 1);
    assert_eq!(events[0].pid, ES_PID);
    assert_eq!(events[0].section.command, SpliceCommand::SpliceNull);
    assert_eq!(events[0].section.descriptors.len(), 0);
}

#[test]
fn chunked_push_equals_single_push() {
    let stream = basic_stream();
    let mut whole = Demuxer::new();
    whole.push(&stream);
    let mut pieces = Demuxer::new();
    for b in stream.chunks(1) {
        pieces.push(b);
    }
    assert_eq!(whole.events(), pieces.events());
    assert_eq!(whole.is_failed(), pieces.is_failed());
    // an uneven chunking that splits inside packets and sections
    let mut uneven = Demuxer::new();
    for b in stream.chunks(61) {
        uneven.push(b);
    }
    assert_eq!(whole.events(), uneven.events());
}

#[test]
fn pmt_revision_without_cuei_silences_the_pid() {
    let mut demux = Demuxer::new();
    demux.push(&basic_stream());
    assert_eq!(demux.events().len(), 1);
    // a revision of the map drops the registration descriptor
    demux.push(&ts_packet(
        PMT_PID,
        true,
        1,
        &section_payload(&pmt_section(1, 0x0300, ES_PID, false)),
    ));
    demux.push(&ts_packet(ES_PID, true, 1, &section_payload(&splice_null_section())));
    assert_eq!(demux.events().len(), 1, "reclassified PID must stay silent");
}

#[test]
fn section_split_across_packets_is_reassembled() {
    let section = splice_null_section();
    let (head, tail) = section.split_at(8);
    let mut first = vec![0x00];
    first.extend_from_slice(head);
    let mut demux = Demuxer::new();
    demux.push(&ts_packet(0, true, 0, &section_payload(&pat_section(1, PMT_PID))));
    demux.push(&ts_packet(
        PMT_PID,
        true,
        0,
        &section_payload(&pmt_section(1, 0x0300, ES_PID, true)),
    ));
    // head of the section in one packet, tail in the next: but a fixed
    // 184-byte payload pads with stuffing, so cut the first packet short
    // by hand
    // shorten the payload with an adaptation field so the packet holds
    // only the head of the section
    let af_len = 184 - first.len() - 1;
    let mut p1 = vec![
        0x47,
        0x40 | (ES_PID >> 8) as u8,
        (ES_PID & 0xff) as u8,
        0x30, // adaptation field + payload, cc 0
        af_len as u8,
    ];
    if af_len > 0 {
        p1.push(0x00);
        for _ in 1..af_len {
            p1.push(0xff);
        }
    }
    p1.extend_from_slice(&first);
    assert_eq!(p1.len(), 188);
    demux.push(&p1);
    assert_eq!(demux.events().len(), 0, "half a section is not an event");
    demux.push(&ts_packet(ES_PID, false, 1, tail));
    assert_eq!(demux.events().len(), 1);
    assert_eq!(demux.events()[0].section.command, SpliceCommand::SpliceNull);
}

#[test]
fn continuity_gap_discards_partial_section() {
    let section = splice_null_section();
    let (head, tail) = section.split_at(8);
    let mut demux = Demuxer::new();
    demux.push(&ts_packet(0, true, 0, &section_payload(&pat_section(1, PMT_PID))));
    demux.push(&ts_packet(
        PMT_PID,
        true,
        0,
        &section_payload(&pmt_section(1, 0x0300, ES_PID, true)),
    ));
    let af_len = 184 - (head.len() + 1) - 1;
    let mut p1 = vec![
        0x47,
        0x40 | (ES_PID >> 8) as u8,
        (ES_PID & 0xff) as u8,
        0x30,
        af_len as u8,
    ];
    p1.push(0x00);
    for _ in 1..af_len {
        p1.push(0xff);
    }
    p1.push(0x00); // pointer field
    p1.extend_from_slice(head);
    assert_eq!(p1.len(), 188);
    demux.push(&p1);
    // continuity counter jumps from 0 to 2: the tail must be discarded
    demux.push(&ts_packet(ES_PID, false, 2, tail));
    assert_eq!(demux.events().len(), 0, "a gapped section must not decode");
}

#[test]
fn resynchronisation_skips_leading_garbage() {
    let mut bytes = vec![0x11u8, 0x22, 0x33];
    bytes.extend_from_slice(&basic_stream());
    let mut demux = Demuxer::new();
    demux.push(&bytes);
    assert!(!demux.is_failed());
    assert_eq!(demux.events().len(), 1);
}

#[test]
fn sync_loss_beyond_window_is_fatal() {
    let mut demux = Demuxer::new();
    let garbage = vec![0x00u8; 400];
    demux.push(&garbage);
    assert!(demux.is_failed());
    demux.push(&basic_stream());
    assert_eq!(demux.events().len(), 0, "a dead stream stays dead");
}

#[test]
fn splice_time_annotated_against_last_pcr() {
    // a PMT with a clock-bearing video stream and the SCTE-35 stream;
    // the splice event reports the distance from the last PCR
    const VIDEO_PID: u16 = 0x0301;
    let prog_desc = [0x05u8, 0x04, 0x43, 0x55, 0x45, 0x49];
    let mut pmt = vec![
        0x02, 0xb0, 0x00, // length patched below
        0x00, 0x01, 0xc1, 0x00, 0x00,
        0xe0 | (VIDEO_PID >> 8) as u8, (VIDEO_PID & 0xff) as u8,
        0xf0, prog_desc.len() as u8,
    ];
    pmt.extend_from_slice(&prog_desc);
    pmt.extend_from_slice(&[0x02, 0xe0 | (VIDEO_PID >> 8) as u8, (VIDEO_PID & 0xff) as u8, 0xf0, 0x00]);
    pmt.extend_from_slice(&[0x86, 0xe0 | (ES_PID >> 8) as u8, (ES_PID & 0xff) as u8, 0xf0, 0x00]);
    pmt[2] = (pmt.len() - 3 + 4) as u8;
    let pmt = with_crc(pmt);

    // a packet on the video PID whose adaptation field carries a PCR
    let splice_pts: u64 = 756296448; // the sample's splice time
    let pcr_base: u64 = splice_pts - 90000; // one second earlier
    let pcr_ext: u16 = 0x023;
    let mut pk = vec![
        0x47,
        (VIDEO_PID >> 8) as u8,
        (VIDEO_PID & 0xff) as u8,
        0x20, // adaptation field only
        183,  // adaptation field length
        0x10, // PCR flag
        (pcr_base >> 25) as u8,
        (pcr_base >> 17) as u8,
        (pcr_base >> 9) as u8,
        (pcr_base >> 1) as u8,
        (((pcr_base & 1) << 7) as u8) | 0x7e | ((pcr_ext >> 8) as u8 & 1),
        (pcr_ext & 0xff) as u8,
    ];
    while pk.len() < 188 {
        pk.push(0xff);
    }

    let insert_section = hex::decode(
        "fc302500000000000000fff01405000000017feffe2d142b00fe0123d3080001010100007f157a49",
    )
    .unwrap();

    let mut demux = Demuxer::new();
    demux.push(&ts_packet(0, true, 0, &section_payload(&pat_section(1, PMT_PID))));
    demux.push(&ts_packet(PMT_PID, true, 0, &section_payload(&pmt)));
    demux.push(&pk);
    demux.push(&ts_packet(ES_PID, true, 0, &section_payload(&insert_section)));
    let events = demux.events();
    assert_eq!(events.len(), 1);
    let ev = &events[0];
    let pcr = ev.last_pcr.expect("a clock reference was on record");
    assert_eq!(pcr.base, pcr_base);
    assert_eq!(pcr.extension, pcr_ext);
    assert_eq!(ev.elapsed, Some(90000));
}
