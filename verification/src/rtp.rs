//! RTP framing: header validation, payload extraction, and sequence
//! continuity tracking for transport streams carried over RTP.

use vstd::prelude::*;

verus! {

/// Why a datagram was rejected as an RTP packet.  The datagram is logged
/// and discarded; the receive loop continues.
#[derive(Debug, Clone, Copy, PartialEq, Eq, Structural)]
pub enum RtpErr {
    /// Shorter than the fixed 12-byte header.
    BufferTooShort,
    /// The version field is not 2.
    UnsupportedVersion(u8),
    /// The headers announce more bytes than the datagram holds.
    HeadersTruncated,
    /// The padding trailer is zero or larger than the space after the
    /// headers.
    PaddingLengthInvalid(u8),
}

/// The parts of an RTP header this crate consumes: the sequence number
/// and where the payload lies.
#[derive(Debug, Clone, Copy, PartialEq, Eq, Structural)]
pub struct RtpHeader {
    pub sequence: u16,
    /// First payload byte.
    pub payload_start: usize,
    /// Trailing padding bytes excluded from the payload.
    pub padding: usize,
}

/// Specification parser for an RTP header over the whole datagram.
pub open spec fn spec_rtp_header(b: Seq<u8>) -> Result<RtpHeader, RtpErr> {
    if b.len() < 12 {
        Err(RtpErr::BufferTooShort)
    } else if b[0] >> 6 != 2 {
        Err(RtpErr::UnsupportedVersion((b[0] >> 6) as u8))
    } else {
        let csrc_end: nat = 12 + 4 * (b[0] & 0x0f) as nat;
        let has_ext = b[0] & 0x10 != 0;
        if has_ext && csrc_end + 4 > b.len() {
            Err(RtpErr::HeadersTruncated)
        } else {
            let payload_start: nat = if has_ext {
                csrc_end + 4 + 4 * ((b[csrc_end as int + 2] as nat) * 256 + b[
                    csrc_end as int + 3
                ] as nat)
            } else {
                csrc_end
            };
            if payload_start > b.len() {
                Err(RtpErr::HeadersTruncated)
            } else {
                let has_pad = b[0] & 0x20 != 0;
                if has_pad && payload_start == b.len() {
                    Err(RtpErr::HeadersTruncated)
                } else {
                    let pad: nat = if has_pad {
                        b[b.len() - 1] as nat
                    } else {
                        0
                    };
                    if has_pad && pad == 0 {
                        Err(RtpErr::PaddingLengthInvalid(0))
                    } else if payload_start + pad > b.len() {
                        Err(RtpErr::PaddingLengthInvalid(pad as u8))
                    } else {
                        Ok(
                            RtpHeader {
                                sequence: ((b[2] as nat) * 256 + b[3] as nat) as u16,
                                payload_start: payload_start as usize,
                                padding: pad as usize,
                            },
                        )
                    }
                }
            }
        }
    }
}

/// Validate an RTP datagram and locate its payload.
pub fn parse_rtp_header(b: &[u8]) -> (res: Result<RtpHeader, RtpErr>)
    requires
        b@.len() < usize::MAX - 300000,
    ensures
        res == spec_rtp_header(b@),
        res matches Ok(h) ==> h.payload_start + h.padding <= b@.len() && h.payload_start >= 12,
{
    if b.len() < 12 {
        return Err(RtpErr::BufferTooShort);
    }
    if b[0] >> 6 != 2 {
        return Err(RtpErr::UnsupportedVersion(b[0] >> 6));
    }
    let csrc_end: usize = 12 + 4 * ((b[0] & 0x0f) as usize);
    let has_ext = b[0] & 0x10 != 0;
    if has_ext && csrc_end + 4 > b.len() {
        return Err(RtpErr::HeadersTruncated);
    }
    let payload_start: usize = if has_ext {
        csrc_end + 4 + 4 * ((b[csrc_end + 2] as usize) * 256 + (b[csrc_end + 3] as usize))
    } else {
        csrc_end
    };
    if payload_start > b.len() {
        return Err(RtpErr::HeadersTruncated);
    }
    let has_pad = b[0] & 0x20 != 0;
    if has_pad && payload_start == b.len() {
        return Err(RtpErr::HeadersTruncated);
    }
    let pad: usize = if has_pad {
        b[b.len() - 1] as usize
    } else {
        0
    };
    if has_pad && pad == 0 {
        return Err(RtpErr::PaddingLengthInvalid(0));
    }
    if pad > b.len() - payload_start {
        return Err(RtpErr::PaddingLengthInvalid(pad as u8));
    }
    Ok(
        RtpHeader {
            sequence: (b[2] as u16) * 256 + (b[3] as u16),
            payload_start,
            padding: pad,
        },
    )
}

/// Tracks RTP sequence continuity: one gap report per discontinuity.
#[derive(Debug, Clone, Copy, PartialEq, Eq, Structural)]
pub struct SeqTracker {
    /// The sequence number the next packet should carry.
    pub expected: Option<u16>,
}

impl SeqTracker {
    pub fn new() -> (r: SeqTracker)
        ensures
            r.expected is None,
    {
        SeqTracker { expected: None }
    }

    /// The successor of a sequence number, wrapping at 16 bits.
    pub open spec fn spec_next(seq: u16) -> u16 {
        ((seq + 1) % 0x10000) as u16
    }

    /// Record one received sequence number; reports whether it broke
    /// continuity with the previous packet.  The very first packet never
    /// counts as a gap.
    pub fn observe(&mut self, seq: u16) -> (gap: bool)
        ensures
            gap == (old(self).expected matches Some(e) && e != seq),
            final(self).expected == Some(Self::spec_next(seq)),
    {
        let gap = match self.expected {
            Some(e) => e != seq,
            None => false,
        };
        self.expected = Some(((seq as usize + 1) % 0x10000) as u16);
        gap
    }
}

} // verus!
