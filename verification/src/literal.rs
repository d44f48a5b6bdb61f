//! The literal-section path: a splice_info_section given on the command
//! line as a hex or base64 string, decoded without any transport stream
//! around it.
//!
//! The two text decodings are done by outside crates behind trusted
//! wrappers; everything after the bytes exist is verified.

use vstd::prelude::*;
use base64::Engine;
use crate::cli::{SectionEncoding, section_encoding, EncodingChoiceErr};
use crate::splice::{SpliceInfoSection, SectionErr, decode_splice_section, spec_splice_section};

verus! {

/// The value of one hexadecimal digit, or `None` for any other byte.
pub open spec fn spec_hex_digit(c: u8) -> Option<u8> {
    if 0x30 <= c && c <= 0x39 {
        Some((c - 0x30) as u8)
    } else if 0x61 <= c && c <= 0x66 {
        Some((c - 0x61 + 10) as u8)
    } else if 0x41 <= c && c <= 0x46 {
        Some((c - 0x41 + 10) as u8)
    } else {
        None
    }
}

/// Hexadecimal decoding: two digits per byte, upper or lower case,
/// even length required.
pub open spec fn spec_hex_decode(s: Seq<u8>) -> Option<Seq<u8>>
    decreases s.len(),
{
    if s.len() % 2 != 0 {
        None
    } else if s.len() == 0 {
        Some(Seq::<u8>::empty())
    } else {
        match (spec_hex_digit(s[0]), spec_hex_digit(s[1])) {
            (Some(hi), Some(lo)) => match spec_hex_decode(s.subrange(2, s.len() as int)) {
                Some(rest) => Some(seq![(hi * 16 + lo) as u8] + rest),
                None => None,
            },
            _ => None,
        }
    }
}

/// The character the base64 standard alphabet assigns to a 6-bit value.
pub open spec fn spec_b64_char(v: u8) -> u8
    recommends
        v < 64,
{
    if v < 26 {
        (0x41 + v) as u8
    } else if v < 52 {
        (0x61 + (v - 26)) as u8
    } else if v < 62 {
        (0x30 + (v - 52)) as u8
    } else if v == 62 {
        0x2b
    } else {
        0x2f
    }
}

/// Canonical standard-alphabet base64 with padding, as a function of
/// the bytes encoded.
pub open spec fn spec_b64_encode(v: Seq<u8>) -> Seq<u8>
    decreases v.len(),
{
    if v.len() == 0 {
        Seq::<u8>::empty()
    } else if v.len() == 1 {
        seq![
            spec_b64_char(v[0] >> 2),
            spec_b64_char((v[0] & 3) << 4),
            0x3du8,
            0x3du8,
        ]
    } else if v.len() == 2 {
        seq![
            spec_b64_char(v[0] >> 2),
            spec_b64_char(((v[0] & 3) << 4) | (v[1] >> 4)),
            spec_b64_char((v[1] & 0xf) << 2),
            0x3du8,
        ]
    } else {
        seq![
            spec_b64_char(v[0] >> 2),
            spec_b64_char(((v[0] & 3) << 4) | (v[1] >> 4)),
            spec_b64_char(((v[1] & 0xf) << 2) | (v[2] >> 6)),
            spec_b64_char(v[2] & 0x3f),
        ] + spec_b64_encode(v.subrange(3, v.len() as int))
    }
}

/// Relies on hex::decode: succeeds exactly on an even-length string of
/// hex digits and yields one byte per digit pair.
#[verifier::external_body]
fn hex_decode(data: &[u8]) -> (r: Option<Vec<u8>>)
    ensures
        match r {
            Some(v) => spec_hex_decode(data@) == Some(v@),
            None => spec_hex_decode(data@) is None,
        },
{
    hex::decode(data).ok()
}

/// Relies on base64's general-purpose engine with the standard
/// alphabet and mandatory canonical padding: it accepts exactly the
/// canonical encodings, so success means the input is the encoding of
/// the returned bytes, and failure means it encodes nothing.
#[verifier::external_body]
fn base64_decode(data: &[u8]) -> (r: Option<Vec<u8>>)
    ensures
        match r {
            Some(v) => spec_b64_encode(v@) == data@,
            None => forall|v: Seq<u8>| spec_b64_encode(v) != data@,
        },
{
    base64::engine::GeneralPurpose::new(
        &base64::alphabet::STANDARD,
        base64::engine::general_purpose::PAD,
    ).decode(data).ok()
}

/// Why a section literal was rejected.
#[derive(Debug, Clone, Copy, PartialEq, Eq, Structural)]
pub enum LiteralErr {
    /// The hex/base64 choice was missing or doubled.
    Encoding(EncodingChoiceErr),
    /// The string is not valid hexadecimal.
    BadHex,
    /// The string is not valid base64.
    BadBase64,
    /// The bytes decoded but are not a sound splice_info_section.
    Section(SectionErr),
}

/// Decode a section literal: choose the encoding, turn the text into
/// bytes, and decode the section, CRC check included.
pub fn decode_section_literal(use_hex: bool, use_base64: bool, value: &[u8]) -> (r: Result<
    SpliceInfoSection,
    LiteralErr,
>)
    requires
        value@.len() < usize::MAX / 8,
    ensures
        use_hex && use_base64 ==> r == Err::<SpliceInfoSection, _>(
            LiteralErr::Encoding(EncodingChoiceErr::Both),
        ),
        !use_hex && !use_base64 ==> r == Err::<SpliceInfoSection, _>(
            LiteralErr::Encoding(EncodingChoiceErr::Neither),
        ),
        use_hex && !use_base64 ==> match spec_hex_decode(value@) {
            None => r == Err::<SpliceInfoSection, _>(LiteralErr::BadHex),
            Some(bytes) => match spec_splice_section(bytes) {
                Ok(s) => r matches Ok(out) && out@ == s,
                Err(e) => r == Err::<SpliceInfoSection, _>(LiteralErr::Section(e)),
            },
        },
        !use_hex && use_base64 ==> match r {
            Ok(out) => exists|bytes: Seq<u8>|
                spec_b64_encode(bytes) == value@ && spec_splice_section(bytes) == Ok::<
                    _,
                    SectionErr,
                >(out@),
            Err(e) => {
                ||| (e == LiteralErr::BadBase64 && (forall|bytes: Seq<u8>|
                    spec_b64_encode(bytes) != value@))
                ||| (exists|bytes: Seq<u8>|
                    spec_b64_encode(bytes) == value@ && (match e {
                        LiteralErr::Section(se) => spec_splice_section(bytes) == Err::<
                            crate::splice::SpliceInfoSectionV,
                            _,
                        >(se),
                        _ => false,
                    }))
            },
        },
{
    let enc = match section_encoding(use_hex, use_base64) {
        Ok(e) => e,
        Err(e) => {
            return Err(LiteralErr::Encoding(e));
        },
    };
    let bytes: Vec<u8> = match enc {
        SectionEncoding::Hex => match hex_decode(value) {
            Some(b) => b,
            None => {
                return Err(LiteralErr::BadHex);
            },
        },
        SectionEncoding::Base64 => match base64_decode(value) {
            Some(b) => b,
            None => {
                return Err(LiteralErr::BadBase64);
            },
        },
    };
    proof {
        lemma_hex_decode_len(value@);
        lemma_b64_encode_len(bytes@);
    }
    match decode_splice_section(bytes.as_slice()) {
        Ok(s) => Ok(s),
        Err(e) => Err(LiteralErr::Section(e)),
    }
}

/// Decoded hex is half as long as its text; decoded base64 is no
/// longer than its text.  Keeps the section decoder's size bound met.
pub proof fn lemma_hex_decode_len(s: Seq<u8>)
    ensures
        spec_hex_decode(s) matches Some(v) ==> v.len() == s.len() / 2,
    decreases s.len(),
{
    if s.len() % 2 == 0 && s.len() >= 2 {
        lemma_hex_decode_len(s.subrange(2, s.len() as int));
    }
}

/// Base64 text is at least as long as the bytes it encodes.
pub proof fn lemma_b64_encode_len(v: Seq<u8>)
    ensures
        spec_b64_encode(v).len() >= v.len(),
    decreases v.len(),
{
    if v.len() > 2 {
        lemma_b64_encode_len(v.subrange(3, v.len() as int));
    }
}

} // verus!
