//! Program-specific information tables: the Program Association Table and
//! the Program Map Table, as far as SCTE-35 extraction needs them.
//!
//! Both parsers take one complete section buffer (as handed over by the
//! reassembler) and are proved equal to specification-level parsers.
//! A section that fails any check is reported as invalid and the caller
//! drops it, leaving the stream running.

use vstd::prelude::*;
use crate::crc::crc32_mpeg;

verus! {

/// The PAT entries from byte `i` on: (program_number, map PID) pairs in
/// section order, 4 bytes each, up to the CRC.
pub open spec fn spec_pat_entries_from(d: Seq<u8>, i: nat) -> Seq<(u16, u16)>
    decreases d.len() - i,
{
    if i + 4 + 4 > d.len() {
        Seq::<(u16, u16)>::empty()
    } else {
        let prog = ((d[i as int] as nat) * 256 + d[i as int + 1] as nat) as u16;
        let pid = (((d[i as int + 2] & 0x1f) as nat) * 256 + d[i as int + 3] as nat) as u16;
        seq![(prog, pid)] + spec_pat_entries_from(d, i + 4)
    }
}

/// Specification parser for a complete PAT section: `None` when the
/// section is not a current, intact PAT.
pub open spec fn spec_parse_pat(d: Seq<u8>) -> Option<Seq<(u16, u16)>> {
    if d.len() < 12 {
        None
    } else if d[0] != 0 {
        None
    } else if crc32_mpeg(d) != 0 {
        None
    } else if d[5] & 1 != 1 {
        // not yet applicable (current_next_indicator clear)
        None
    } else {
        Some(spec_pat_entries_from(d, 8))
    }
}

/// Parse a complete PAT section into its (program_number, PMT PID) pairs.
#[verifier::loop_isolation(false)]
pub fn parse_pat(d: &[u8]) -> (res: Option<Vec<(u16, u16)>>)
    ensures
        match res {
            Some(entries) => spec_parse_pat(d@) == Some(entries@),
            None => spec_parse_pat(d@) is None,
        },
{
    if d.len() < 12 {
        return None;
    }
    if d[0] != 0 {
        return None;
    }
    if crate::crc::crc32(d) != 0 {
        return None;
    }
    if d[5] & 1 != 1 {
        return None;
    }
    let mut entries: Vec<(u16, u16)> = Vec::new();
    let mut i: usize = 8;
    while d.len() - i >= 8
        invariant
            8 <= i <= d@.len(),
            spec_pat_entries_from(d@, 8) == entries@ + spec_pat_entries_from(d@, i as nat),
        decreases d@.len() - i,
    {
        let prog = (d[i] as u16) * 256 + (d[i + 1] as u16);
        let pid = ((d[i + 2] & 0x1f) as u16) * 256 + (d[i + 3] as u16);
        proof {
            assert(entries@ + (seq![(prog, pid)] + spec_pat_entries_from(d@, i as nat + 4))
                =~= entries@.push((prog, pid)) + spec_pat_entries_from(d@, i as nat + 4));
        }
        entries.push((prog, pid));
        i = i + 4;
    }
    proof {
        assert(entries@ + spec_pat_entries_from(d@, i as nat) =~= entries@);
    }
    Some(entries)
}

/// Whether the descriptor run in `[i, end)` holds a registration
/// descriptor (tag 5) whose format identifier is "CUEI".
pub open spec fn spec_desc_has_cuei(d: Seq<u8>, i: nat, end: nat) -> bool
    decreases end - i,
{
    if i + 2 > end || end > d.len() {
        false
    } else {
        let tag = d[i as int];
        let len = d[i as int + 1] as nat;
        if i + 2 + len > end {
            false
        } else if tag == 5 && len >= 4 && d[i as int + 2] == 0x43 && d[i as int + 3] == 0x55 && d[
            i as int + 4
        ] == 0x45 && d[i as int + 5] == 0x49 {
            true
        } else {
            spec_desc_has_cuei(d, i + 2 + len, end)
        }
    }
}

/// The PMT's elementary streams from byte `i` to `end`:
/// (stream_type, elementary PID) pairs; `None` when an entry is truncated.
pub open spec fn spec_pmt_streams_from(d: Seq<u8>, i: nat, end: nat) -> Option<Seq<(u8, u16)>>
    decreases end - i,
{
    if end > d.len() {
        None
    } else if i >= end {
        Some(Seq::<(u8, u16)>::empty())
    } else if i + 5 > end {
        None
    } else {
        let stream_type = d[i as int];
        let pid = (((d[i as int + 1] & 0x1f) as nat) * 256 + d[i as int + 2] as nat) as u16;
        let es_len = ((d[i as int + 3] & 0x0f) as nat) * 256 + d[i as int + 4] as nat;
        if i + 5 + es_len > end {
            None
        } else {
            match spec_pmt_streams_from(d, i + 5 + es_len, end) {
                None => None,
                Some(rest) => Some(seq![(stream_type, pid)] + rest),
            }
        }
    }
}

/// What SCTE-35 extraction needs from one Program Map Table section.
#[derive(Debug, Clone, PartialEq, Eq)]
pub struct PmtInfo {
    /// The PID that carries the program's clock reference.
    pub pcr_pid: u16,
    /// Whether the program-level descriptors register "CUEI" content.
    pub cuei_registered: bool,
    /// (stream_type, elementary PID) of each stream, in section order.
    pub streams: Vec<(u8, u16)>,
}

/// Specification view of [`PmtInfo`].
pub struct PmtInfoV {
    pub pcr_pid: u16,
    pub cuei_registered: bool,
    pub streams: Seq<(u8, u16)>,
}

impl View for PmtInfo {
    type V = PmtInfoV;

    open spec fn view(&self) -> PmtInfoV {
        PmtInfoV {
            pcr_pid: self.pcr_pid,
            cuei_registered: self.cuei_registered,
            streams: self.streams@,
        }
    }
}

/// Specification parser for a complete PMT section.
pub open spec fn spec_parse_pmt(d: Seq<u8>) -> Option<PmtInfoV> {
    if d.len() < 16 {
        None
    } else if d[0] != 2 {
        None
    } else if crc32_mpeg(d) != 0 {
        None
    } else if d[5] & 1 != 1 {
        None
    } else {
        let pcr_pid = (((d[8] & 0x1f) as nat) * 256 + d[9] as nat) as u16;
        let pil = ((d[10] & 0x0f) as nat) * 256 + d[11] as nat;
        if 12 + pil > d.len() - 4 {
            None
        } else {
            let cuei_registered = spec_desc_has_cuei(d, 12, 12 + pil);
            match spec_pmt_streams_from(d, 12 + pil, (d.len() - 4) as nat) {
                None => None,
                Some(streams) => Some(PmtInfoV { pcr_pid, cuei_registered, streams }),
            }
        }
    }
}

/// Scan a descriptor run for the CUEI registration descriptor.
#[verifier::loop_isolation(false)]
fn desc_has_cuei(d: &[u8], start: usize, end: usize) -> (r: bool)
    requires
        start <= end <= d@.len(),
    ensures
        r == spec_desc_has_cuei(d@, start as nat, end as nat),
{
    let mut i: usize = start;
    while end - i >= 2
        invariant
            start <= i <= end,
            spec_desc_has_cuei(d@, start as nat, end as nat) == spec_desc_has_cuei(
                d@,
                i as nat,
                end as nat,
            ),
        decreases end - i,
    {
        let tag = d[i];
        let len = d[i + 1] as usize;
        if end - i - 2 < len {
            return false;
        }
        if tag == 5 && len >= 4 && d[i + 2] == 0x43 && d[i + 3] == 0x55 && d[i + 4] == 0x45 && d[i
            + 5] == 0x49 {
            return true;
        }
        i = i + 2 + len;
    }
    false
}

/// Parse a complete PMT section.
#[verifier::loop_isolation(false)]
pub fn parse_pmt(d: &[u8]) -> (res: Option<PmtInfo>)
    ensures
        match res {
            Some(info) => spec_parse_pmt(d@) == Some(info@),
            None => spec_parse_pmt(d@) is None,
        },
{
    if d.len() < 16 {
        return None;
    }
    if d[0] != 2 {
        return None;
    }
    if crate::crc::crc32(d) != 0 {
        return None;
    }
    if d[5] & 1 != 1 {
        return None;
    }
    let pcr_pid = ((d[8] & 0x1f) as u16) * 256 + (d[9] as u16);
    let pil = ((d[10] & 0x0f) as usize) * 256 + (d[11] as usize);
    if pil > d.len() - 4 - 12 {
        return None;
    }
    let desc_end = 12 + pil;
    let cuei_registered = desc_has_cuei(d, 12, desc_end);
    // the elementary stream loop
    let mut streams: Vec<(u8, u16)> = Vec::new();
    let end = d.len() - 4;
    let mut j: usize = desc_end;
    while j < end
        invariant
            desc_end <= j <= end,
            end == d@.len() - 4,
            12 <= desc_end <= end,
            match spec_pmt_streams_from(d@, j as nat, end as nat) {
                Some(rest) => spec_pmt_streams_from(d@, desc_end as nat, end as nat) == Some(
                    streams@ + rest,
                ),
                None => spec_pmt_streams_from(d@, desc_end as nat, end as nat) is None,
            },
        decreases end - j,
    {
        if end - j < 5 {
            return None;
        }
        let stream_type = d[j];
        let pid = ((d[j + 1] & 0x1f) as u16) * 256 + (d[j + 2] as u16);
        let es_len = ((d[j + 3] & 0x0f) as usize) * 256 + (d[j + 4] as usize);
        if end - j - 5 < es_len {
            return None;
        }
        proof {
            let rest_res = spec_pmt_streams_from(d@, (j + 5 + es_len) as nat, end as nat);
            if let Some(rest) = rest_res {
                assert(streams@ + (seq![(stream_type, pid)] + rest) =~= streams@.push(
                    (stream_type, pid),
                ) + rest);
            }
        }
        streams.push((stream_type, pid));
        j = j + 5 + es_len;
    }
    proof {
        assert(streams@ + Seq::<(u8, u16)>::empty() =~= streams@);
    }
    Some(PmtInfo { pcr_pid, cuei_registered, streams })
}

} // verus!
