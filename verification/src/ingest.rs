//! Network ingest: RTP datagrams into the demultiplexer, and the
//! classification of parity packets into their matrix lines.
//!
//! Socket work lives outside the library; these functions take the
//! datagram bytes and make every decision about them.

use vstd::prelude::*;
use vstd::slice::slice_subrange;
use crate::rtp::{RtpErr, SeqTracker, parse_rtp_header, spec_rtp_header};
use crate::demux::{Demuxer, demux_wf, spec_quiescent, spec_push};
use crate::fec::FecHeaderInfo;

verus! {

/// Handle one RTP datagram of the media stream: validate the framing,
/// report a sequence discontinuity, and push the payload into the
/// demultiplexer.  A malformed datagram is reported and changes
/// nothing; the caller logs it and keeps receiving.
pub fn receive_rtp_datagram(demux: &mut Demuxer, tracker: &mut SeqTracker, datagram: &[u8]) -> (r:
    Result<bool, RtpErr>)
    requires
        demux_wf(old(demux)@),
        spec_quiescent(old(demux)@),
        datagram@.len() <= 0xffff,
    ensures
        demux_wf(final(demux)@),
        spec_quiescent(final(demux)@),
        match spec_rtp_header(datagram@) {
            Err(e) => r == Err::<bool, _>(e) && final(demux)@ == old(demux)@ && *final(tracker)
                == *old(tracker),
            Ok(h) => {
                &&& r == Ok::<_, RtpErr>(
                    old(tracker).expected matches Some(e) && e != h.sequence,
                )
                &&& final(tracker).expected == Some(SeqTracker::spec_next(h.sequence))
                &&& final(demux)@ == spec_push(
                    old(demux)@,
                    datagram@.subrange(
                        h.payload_start as int,
                        datagram@.len() - h.padding as int,
                    ),
                )
            },
        },
{
    match parse_rtp_header(datagram) {
        Err(e) => Err(e),
        Ok(h) => {
            let gap = tracker.observe(h.sequence);
            let payload = slice_subrange(datagram, h.payload_start, datagram.len() - h.padding);
            demux.push(payload);
            Ok(gap)
        },
    }
}

/// The column a parity packet protects, under the window anchored at
/// `base` with the given geometry: the packet must be a column packet
/// whose stride and count match the geometry and whose first protected
/// sequence number lies in the window's first row.
pub fn fec_column_of(base: u16, cols: u8, rows: u8, h: &FecHeaderInfo) -> (r: Option<usize>)
    requires
        cols >= 1,
        rows >= 1,
    ensures
        match r {
            Some(c) => {
                &&& !h.row
                &&& h.offset == cols
                &&& h.na == rows
                &&& c == crate::fec::spec_slot(base, h.sn_base)
                &&& c < cols as nat
            },
            None => h.row || h.offset != cols || h.na != rows || crate::fec::spec_slot(
                base,
                h.sn_base,
            ) >= cols as nat,
        },
{
    if h.row || h.offset != cols || h.na != rows {
        return None;
    }
    let slot: usize = ((h.sn_base as usize) + 0x10000 - (base as usize)) % 0x10000;
    if slot < cols as usize {
        Some(slot)
    } else {
        None
    }
}

/// The row a parity packet protects, under the window anchored at
/// `base`: the packet must be a row packet covering one full row, with
/// its first protected sequence number at the start of that row.
pub fn fec_row_of(base: u16, cols: u8, rows: u8, h: &FecHeaderInfo) -> (r: Option<usize>)
    requires
        cols >= 1,
        rows >= 1,
    ensures
        match r {
            Some(rr) => {
                &&& h.row
                &&& h.offset == 1
                &&& h.na == cols
                &&& crate::fec::spec_slot(base, h.sn_base) == rr * cols as nat
                &&& rr < rows as nat
            },
            None => !h.row || h.offset != 1 || h.na != cols || !(exists|rr: nat|
                rr < rows as nat && crate::fec::spec_slot(base, h.sn_base) == #[trigger] (rr
                    * cols as nat)),
        },
{
    if !h.row || h.offset != 1 || h.na != cols {
        return None;
    }
    let slot: usize = ((h.sn_base as usize) + 0x10000 - (base as usize)) % 0x10000;
    if slot % (cols as usize) == 0 {
        let rr = slot / (cols as usize);
        if rr < rows as usize {
            proof {
                assert(slot == rr * cols as nat) by (nonlinear_arith)
                    requires
                        cols >= 1,
                        slot % (cols as usize) == 0,
                        rr == slot / (cols as usize),
                ;
            }
            return Some(rr);
        }
    }
    proof {
        if exists|rr: nat|
            rr < rows as nat && crate::fec::spec_slot(base, h.sn_base) == #[trigger] (rr
                * cols as nat) {
            let rr = choose|rr: nat|
                rr < rows as nat && crate::fec::spec_slot(base, h.sn_base) == #[trigger] (rr
                    * cols as nat);
            assert((rr * cols as nat) % (cols as nat) == 0 && (rr * cols as nat) / (cols as nat)
                == rr) by (nonlinear_arith)
                requires
                    cols >= 1,
            ;
        }
    }
    None
}

} // verus!
