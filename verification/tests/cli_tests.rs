//! Command validation rules.

use scte35dump::cli::{
    section_encoding, EncodingChoiceErr, Fec, NetCmd, SectionEncoding,
};

#[test]
fn fec_mode_parses_prompeg_only() {
    assert_eq!(Fec::from_str("prompeg"), Ok(Fec::ProMpeg));
    let err = Fec::from_str("raptor").unwrap_err();
    assert_eq!(err.mode_text().as_str(), "raptor");
    assert!(Fec::from_str("").is_err());
    assert!(Fec::from_str("PROMPEG").is_err());
}

#[test]
fn exactly_one_encoding_must_be_chosen() {
    assert_eq!(section_encoding(true, false), Ok(SectionEncoding::Hex));
    assert_eq!(section_encoding(false, true), Ok(SectionEncoding::Base64));
    assert_eq!(section_encoding(true, true), Err(EncodingChoiceErr::Both));
    assert_eq!(section_encoding(false, false), Err(EncodingChoiceErr::Neither));
}

#[test]
fn parity_stream_ports_sit_above_the_media_port() {
    let cmd = NetCmd { port: 5000, mcast: None, ifaddr: None, fec: Some(Fec::ProMpeg), udp: false };
    assert_eq!(cmd.fec_ports(), Some((5002, 5004)));
    let edge = NetCmd { port: 65533, mcast: None, ifaddr: None, fec: None, udp: false };
    assert_eq!(edge.fec_ports(), None);
}
