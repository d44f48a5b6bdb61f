//! Transport-stream demultiplexing.
//!
//! `Demuxer::push` accepts arbitrarily sized byte chunks, buffers any
//! trailing partial packet, resynchronises on sync-byte loss within a
//! bounded window, and routes each complete 188-byte packet to a per-PID
//! filter: PAT on PID 0, PMT filters created from the PAT, SCTE-35
//! section filters created from CUEI-registered PMT streams, and clock
//! watchers that keep the latest PCR per program.  Decoded splice
//! sections are appended to an event list, annotated with the time since
//! the program's last clock reference.
//!
//! Every state change is proved equal to a specification-level step
//! function, and feeding the same bytes in different chunkings is proved
//! to leave identical state (`lemma_push_chunked`).

use vstd::prelude::*;
use vstd::slice::{slice_to_vec, slice_subrange};
use crate::section::{SectionAccumulator, AccumulatorV, spec_accumulator_step, seqs_view, acc_v_wf,
    MAX_SECTION_LENGTH};
use crate::psi::{parse_pat, parse_pmt, spec_parse_pat, spec_parse_pmt};
use crate::splice::{SpliceInfoSection, SpliceInfoSectionV, SpliceCommand, SpliceCommandV,
    SpliceInsertDetail, SpliceInsertDetailV, SpliceMode, SpliceModeV, SpliceTime,
    decode_splice_section, spec_splice_section};
use crate::pcr::{ClockRef, spec_elapsed_90k, elapsed_90k, TIME_BASE_MOD};

verus! {

/// Number of distinct 13-bit packet identifiers.
pub const PID_COUNT: usize = 8192;

/// Bytes of sync-byte loss tolerated before the stream is declared dead.
pub const RESYNC_WINDOW: usize = 188;

/// An accumulator that has gathered nothing yet.
pub open spec fn empty_acc() -> AccumulatorV {
    AccumulatorV { partial: None, last_cc: None }
}

/// Specification state of one PID's filter.
pub enum FilterV {
    /// PID never seen.
    Unset,
    /// Program association table reassembly on PID 0.
    Pat(AccumulatorV),
    /// Program map table reassembly for one program.
    Pmt { program: u16, acc: AccumulatorV },
    /// SCTE-35 splice section reassembly; `program_pid` keys the clock
    /// registry entry used to annotate events.
    Scte35 { program_pid: u16, acc: AccumulatorV },
    /// Surfaces clock references for the program.
    PcrWatch { program_pid: u16 },
    /// Packets ignored.
    Null,
}

/// Executable state of one PID's filter.
pub enum Filter {
    Unset,
    Pat(SectionAccumulator),
    Pmt { program: u16, acc: SectionAccumulator },
    Scte35 { program_pid: u16, acc: SectionAccumulator },
    PcrWatch { program_pid: u16 },
    Null,
}

impl View for Filter {
    type V = FilterV;

    open spec fn view(&self) -> FilterV {
        match self {
            Filter::Unset => FilterV::Unset,
            Filter::Pat(acc) => FilterV::Pat(acc@),
            Filter::Pmt { program, acc } => FilterV::Pmt { program: *program, acc: acc@ },
            Filter::Scte35 { program_pid, acc } => FilterV::Scte35 {
                program_pid: *program_pid,
                acc: acc@,
            },
            Filter::PcrWatch { program_pid } => FilterV::PcrWatch { program_pid: *program_pid },
            Filter::Null => FilterV::Null,
        }
    }
}

/// One decoded splice_info_section, with the clock context it was seen in.
#[derive(Debug, Clone, PartialEq, Eq)]
pub struct SpliceEventRecord {
    /// The elementary PID the section arrived on.
    pub pid: u16,
    /// The program's most recent clock reference, if any.
    pub last_pcr: Option<ClockRef>,
    /// 90 kHz ticks from that clock reference to a program-mode splice
    /// time, as the shorter circular distance modulo 2^33.
    pub elapsed: Option<i64>,
    /// The decoded section.
    pub section: SpliceInfoSection,
}

/// Specification view of [`SpliceEventRecord`].
pub struct SpliceEventRecordV {
    pub pid: u16,
    pub last_pcr: Option<ClockRef>,
    pub elapsed: Option<i64>,
    pub section: SpliceInfoSectionV,
}

impl View for SpliceEventRecord {
    type V = SpliceEventRecordV;

    open spec fn view(&self) -> SpliceEventRecordV {
        SpliceEventRecordV {
            pid: self.pid,
            last_pcr: self.last_pcr,
            elapsed: self.elapsed,
            section: self.section@,
        }
    }
}

/// The routing state: filters and clock registry, plus everything the
/// demultiplexer has emitted.
pub struct CoreV {
    pub filters: Seq<FilterV>,
    /// Keyed by the program's PMT PID; created when the PAT announces the
    /// program, written by clock watchers, read when a splice decodes.
    pub pcrs: Seq<Option<ClockRef>>,
    pub events: Seq<SpliceEventRecordV>,
}

// --- packet header fields ---------------------------------------------

pub open spec fn pkt_tei(p: Seq<u8>) -> bool {
    p[1] & 0x80 != 0
}

pub open spec fn pkt_pusi(p: Seq<u8>) -> bool {
    p[1] & 0x40 != 0
}

pub open spec fn pkt_pid(p: Seq<u8>) -> nat {
    ((p[1] & 0x1f) as nat) * 256 + p[2] as nat
}

pub open spec fn pkt_scrambled(p: Seq<u8>) -> bool {
    p[3] & 0xc0 != 0
}

pub open spec fn pkt_afc(p: Seq<u8>) -> u8 {
    (p[3] >> 4) & 3
}

pub open spec fn pkt_cc(p: Seq<u8>) -> u8 {
    p[3] & 0x0f
}

/// The packet's payload bytes, when the adaptation field control says
/// there are any and the adaptation field fits.
pub open spec fn pkt_payload(p: Seq<u8>) -> Option<Seq<u8>> {
    if pkt_afc(p) == 1 {
        Some(p.subrange(4, 188))
    } else if pkt_afc(p) == 3 {
        if p[4] as nat <= 183 {
            Some(p.subrange(5 + p[4] as int, 188))
        } else {
            None
        }
    } else {
        None
    }
}

/// The clock reference in the packet's adaptation field, if one is
/// present and the field is long enough to hold it.
pub open spec fn pkt_pcr(p: Seq<u8>) -> Option<ClockRef> {
    if pkt_afc(p) & 2 != 0 && p[4] as nat >= 7 && 5 + p[4] as nat <= 188 && p[5] & 0x10 != 0 {
        Some(
            ClockRef {
                base: ((p[6] as nat) * 0x2000000 + (p[7] as nat) * 0x20000 + (p[8] as nat) * 0x200
                    + (p[9] as nat) * 2 + (p[10] >> 7) as nat) as u64,
                extension: (((p[10] & 1) as nat) * 256 + p[11] as nat) as u16,
            },
        )
    } else {
        None
    }
}

// --- reactions to complete sections -----------------------------------

/// Register the programs a PAT names: each gets a PMT filter and a clock
/// registry slot.  Re-registration of an unchanged program is a no-op,
/// so re-received tables do not disturb reassembly in progress.
pub open spec fn spec_register_programs(c: CoreV, entries: Seq<(u16, u16)>) -> CoreV
    decreases entries.len(),
{
    if entries.len() == 0 {
        c
    } else {
        let (prog, mpid) = entries[0];
        let keep = prog == 0 || mpid as nat >= PID_COUNT as nat || (c.filters[mpid as int] matches
            FilterV::Pmt { program, .. } && program == prog);
        let c2 = if keep {
            c
        } else {
            CoreV {
                filters: c.filters.update(
                    mpid as int,
                    FilterV::Pmt { program: prog, acc: empty_acc() },
                ),
                pcrs: c.pcrs.update(mpid as int, None),
                events: c.events,
            }
        };
        spec_register_programs(c2, entries.drop_first())
    }
}

pub open spec fn spec_apply_pat_section(c: CoreV, s: Seq<u8>) -> CoreV {
    match spec_parse_pat(s) {
        None => c,
        Some(entries) => spec_register_programs(c, entries),
    }
}

pub open spec fn spec_apply_pat_sections(c: CoreV, ss: Seq<Seq<u8>>) -> CoreV
    decreases ss.len(),
{
    if ss.len() == 0 {
        c
    } else {
        spec_apply_pat_sections(spec_apply_pat_section(c, ss[0]), ss.drop_first())
    }
}

/// The filter an elementary stream gets: SCTE-35 reassembly for the
/// private stream type 0x86 under a CUEI registration, a clock watcher
/// for ordinary streams, nothing for unregistered 0x86 streams.
pub open spec fn spec_classify(stream_type: u8, cuei: bool, program_pid: u16) -> FilterV {
    if stream_type == 0x86 {
        if cuei {
            FilterV::Scte35 { program_pid, acc: empty_acc() }
        } else {
            FilterV::Null
        }
    } else {
        FilterV::PcrWatch { program_pid }
    }
}

/// Whether a stream's current filter already is the desired one, so a
/// re-received PMT does not drop a section being reassembled.
pub open spec fn spec_same_classification(cur: FilterV, desired: FilterV) -> bool {
    match (cur, desired) {
        (FilterV::Scte35 { program_pid: a, .. }, FilterV::Scte35 { program_pid: b, .. }) => a == b,
        (FilterV::PcrWatch { program_pid: a }, FilterV::PcrWatch { program_pid: b }) => a == b,
        (FilterV::Null, FilterV::Null) => true,
        _ => false,
    }
}

/// Classify each stream of a PMT; reclassification replaces the filter
/// outright, discarding any partial section it held.
pub open spec fn spec_apply_streams(
    c: CoreV,
    program_pid: u16,
    cuei: bool,
    streams: Seq<(u8, u16)>,
) -> CoreV
    decreases streams.len(),
{
    if streams.len() == 0 {
        c
    } else {
        let (stream_type, espid) = streams[0];
        let desired = spec_classify(stream_type, cuei, program_pid);
        let c2 = if espid as nat >= PID_COUNT as nat || spec_same_classification(
            c.filters[espid as int],
            desired,
        ) {
            c
        } else {
            CoreV {
                filters: c.filters.update(espid as int, desired),
                pcrs: c.pcrs,
                events: c.events,
            }
        };
        spec_apply_streams(c2, program_pid, cuei, streams.drop_first())
    }
}

pub open spec fn spec_apply_pmt_section(c: CoreV, pmt_pid: u16, s: Seq<u8>) -> CoreV {
    match spec_parse_pmt(s) {
        None => c,
        Some(info) => spec_apply_streams(c, pmt_pid, info.cuei_registered, info.streams),
    }
}

pub open spec fn spec_apply_pmt_sections(c: CoreV, pmt_pid: u16, ss: Seq<Seq<u8>>) -> CoreV
    decreases ss.len(),
{
    if ss.len() == 0 {
        c
    } else {
        spec_apply_pmt_sections(spec_apply_pmt_section(c, pmt_pid, ss[0]), pmt_pid, ss.drop_first())
    }
}

/// The annotation a decoded section gets: for a program-mode timed
/// splice_insert with a clock reference on record, the circular distance
/// from the clock to the splice time.
pub open spec fn spec_annotate(cmd: SpliceCommandV, pcr: Option<ClockRef>) -> Option<i64> {
    match cmd {
        SpliceCommandV::SpliceInsert { splice_detail, .. } => match splice_detail {
            SpliceInsertDetailV::Insert { splice_mode, .. } => match splice_mode {
                SpliceModeV::Program(t) => match t {
                    SpliceTime::Timed(pts_opt) => match (pts_opt, pcr) {
                        (Some(pts), Some(c)) => if pts < TIME_BASE_MOD && c.base < TIME_BASE_MOD {
                            Some(spec_elapsed_90k(pts, c.base) as i64)
                        } else {
                            None
                        },
                        _ => None,
                    },
                    _ => None,
                },
                _ => None,
            },
            _ => None,
        },
        _ => None,
    }
}

/// A complete section on an SCTE-35 PID: decoded sections become events;
/// ones that fail to decode are dropped and the stream continues.
pub open spec fn spec_apply_scte_section(c: CoreV, pid: u16, program_pid: u16, s: Seq<u8>) -> CoreV {
    if s.len() > 3 + MAX_SECTION_LENGTH {
        // the reassembler never hands over more than a maximal section
        c
    } else {
    match spec_splice_section(s) {
        Err(_) => c,
        Ok(section) => {
            let last_pcr = if (program_pid as nat) < PID_COUNT as nat {
                c.pcrs[program_pid as int]
            } else {
                None
            };
            CoreV {
                filters: c.filters,
                pcrs: c.pcrs,
                events: c.events.push(
                    SpliceEventRecordV {
                        pid,
                        last_pcr,
                        elapsed: spec_annotate(section.command, last_pcr),
                        section,
                    },
                ),
            }
        },
    }
    }
}

pub open spec fn spec_apply_scte_sections(
    c: CoreV,
    pid: u16,
    program_pid: u16,
    ss: Seq<Seq<u8>>,
) -> CoreV
    decreases ss.len(),
{
    if ss.len() == 0 {
        c
    } else {
        spec_apply_scte_sections(
            spec_apply_scte_section(c, pid, program_pid, ss[0]),
            pid,
            program_pid,
            ss.drop_first(),
        )
    }
}

// --- one packet --------------------------------------------------------

/// What one complete, sync-aligned packet does to the routing state.
pub open spec fn spec_core_step(c: CoreV, p: Seq<u8>) -> CoreV
    recommends
        p.len() == 188,
{
    if pkt_tei(p) || pkt_scrambled(p) {
        c
    } else {
        let pid = pkt_pid(p);
        let f0 = c.filters[pid as int];
        let f = if f0 is Unset {
            if pid == 0 {
                FilterV::Pat(empty_acc())
            } else {
                FilterV::Null
            }
        } else {
            f0
        };
        match f {
            FilterV::Pat(acc) => match pkt_payload(p) {
                None => CoreV { filters: c.filters.update(pid as int, f), ..c },
                Some(pl) => {
                    let (acc2, ss) = spec_accumulator_step(acc, pkt_pusi(p), pkt_cc(p), pl);
                    spec_apply_pat_sections(
                        CoreV { filters: c.filters.update(pid as int, FilterV::Pat(acc2)), ..c },
                        ss,
                    )
                },
            },
            FilterV::Pmt { program, acc } => match pkt_payload(p) {
                None => CoreV { filters: c.filters.update(pid as int, f), ..c },
                Some(pl) => {
                    let (acc2, ss) = spec_accumulator_step(acc, pkt_pusi(p), pkt_cc(p), pl);
                    spec_apply_pmt_sections(
                        CoreV {
                            filters: c.filters.update(pid as int, FilterV::Pmt { program, acc: acc2 }),
                            ..c
                        },
                        pid as u16,
                        ss,
                    )
                },
            },
            FilterV::Scte35 { program_pid, acc } => match pkt_payload(p) {
                None => CoreV { filters: c.filters.update(pid as int, f), ..c },
                Some(pl) => {
                    let (acc2, ss) = spec_accumulator_step(acc, pkt_pusi(p), pkt_cc(p), pl);
                    spec_apply_scte_sections(
                        CoreV {
                            filters: c.filters.update(
                                pid as int,
                                FilterV::Scte35 { program_pid, acc: acc2 },
                            ),
                            ..c
                        },
                        pid as u16,
                        program_pid,
                        ss,
                    )
                },
            },
            FilterV::PcrWatch { program_pid } => {
                let c1 = CoreV { filters: c.filters.update(pid as int, f), ..c };
                match pkt_pcr(p) {
                    Some(cr) => if (program_pid as nat) < PID_COUNT as nat {
                        CoreV { pcrs: c1.pcrs.update(program_pid as int, Some(cr)), ..c1 }
                    } else {
                        c1
                    },
                    None => c1,
                }
            },
            FilterV::Null => CoreV { filters: c.filters.update(pid as int, FilterV::Null), ..c },
            FilterV::Unset => c,  // unreachable: f is never Unset
        }
    }
}

} // verus!

// The executable demultiplexer, proved against the step functions above.

verus! {

/// The views of the filter table.
pub open spec fn filters_view(s: Seq<Filter>) -> Seq<FilterV> {
    s.map_values(|f: Filter| f@)
}

/// The views of the event list.
pub open spec fn events_view(s: Seq<SpliceEventRecord>) -> Seq<SpliceEventRecordV> {
    s.map_values(|e: SpliceEventRecord| e@)
}

/// Whether a filter's reassembly buffer respects its bound.
pub open spec fn filter_wf(f: FilterV) -> bool {
    match f {
        FilterV::Pat(acc) => acc_v_wf(acc),
        FilterV::Pmt { acc, .. } => acc_v_wf(acc),
        FilterV::Scte35 { acc, .. } => acc_v_wf(acc),
        _ => true,
    }
}

/// Well-formed routing state: full tables, bounded buffers.
pub open spec fn core_wf(c: CoreV) -> bool {
    &&& c.filters.len() == PID_COUNT
    &&& c.pcrs.len() == PID_COUNT
    &&& forall|i: int| 0 <= i < PID_COUNT ==> filter_wf(#[trigger] c.filters[i])
}

/// Specification state of the whole demultiplexer.
pub struct DemuxV {
    pub core: CoreV,
    /// Bytes of a trailing partial packet, kept across `push` calls.
    pub pending: Seq<u8>,
    /// Non-sync bytes dropped since the last good packet.
    pub dropped: nat,
    /// Sync was lost beyond the resynchronisation window: the stream is
    /// dead and later bytes are ignored.
    pub failed: bool,
}

/// The transport-stream demultiplexer.
pub struct Demuxer {
    filters: Vec<Filter>,
    pcrs: Vec<Option<ClockRef>>,
    events: Vec<SpliceEventRecord>,
    pending: Vec<u8>,
    dropped: usize,
    failed: bool,
}

impl View for Demuxer {
    type V = DemuxV;

    closed spec fn view(&self) -> DemuxV {
        DemuxV {
            core: CoreV {
                filters: filters_view(self.filters@),
                pcrs: self.pcrs@,
                events: events_view(self.events@),
            },
            pending: self.pending@,
            dropped: self.dropped as nat,
            failed: self.failed,
        }
    }
}

/// Well-formed demultiplexer state.
pub open spec fn demux_wf(d: DemuxV) -> bool {
    &&& core_wf(d.core)
    &&& d.pending.len() < 188
    &&& d.failed ==> d.pending.len() == 0
    &&& d.dropped <= RESYNC_WINDOW as nat
}

impl Demuxer {
    /// A fresh demultiplexer: every PID unseen, no clock references, no
    /// events, nothing buffered.
    pub fn new() -> (r: Demuxer)
        ensures
            demux_wf(r@),
            r@.core.filters =~= Seq::new(PID_COUNT as nat, |i: int| FilterV::Unset),
            r@.core.pcrs =~= Seq::new(PID_COUNT as nat, |i: int| None::<ClockRef>),
            r@.core.events =~= Seq::<SpliceEventRecordV>::empty(),
            r@.pending =~= Seq::<u8>::empty(),
            r@.dropped == 0,
            !r@.failed,
    {
        let mut filters: Vec<Filter> = Vec::new();
        let mut pcrs: Vec<Option<ClockRef>> = Vec::new();
        let mut i: usize = 0;
        while i < PID_COUNT
            invariant
                i <= PID_COUNT,
                filters@.len() == i,
                pcrs@.len() == i,
                forall|k: int| 0 <= k < i ==> filters@[k] is Unset,
                forall|k: int| 0 <= k < i ==> pcrs@[k] is None,
            decreases PID_COUNT - i,
        {
            filters.push(Filter::Unset);
            pcrs.push(None);
            i = i + 1;
        }
        let r = Demuxer {
            filters,
            pcrs,
            events: Vec::new(),
            pending: Vec::new(),
            dropped: 0,
            failed: false,
        };
        proof {
            assert(filters_view(r.filters@) =~= Seq::new(PID_COUNT as nat, |i: int| FilterV::Unset));
            assert(events_view(r.events@) =~= Seq::<SpliceEventRecordV>::empty());
        }
        r
    }

    /// Everything the demultiplexer has decoded so far, in order.
    pub fn events(&self) -> (r: &Vec<SpliceEventRecord>)
        ensures
            events_view(r@) == self@.core.events,
    {
        &self.events
    }

    /// The stream was abandoned after sync loss beyond the window.
    pub fn is_failed(&self) -> (r: bool)
        ensures
            r == self@.failed,
    {
        self.failed
    }

    /// Apply one complete PAT section.
    #[verifier::loop_isolation(false)]
    fn apply_pat_section(&mut self, s: &[u8])
        requires
            demux_wf(old(self)@),
        ensures
            demux_wf(final(self)@),
            final(self)@.core == spec_apply_pat_section(old(self)@.core, s@),
            final(self)@.pending == old(self)@.pending,
            final(self)@.dropped == old(self)@.dropped,
            final(self)@.failed == old(self)@.failed,
    {
        match parse_pat(s) {
            None => {},
            Some(entries) => {
                let ghost c0 = self@.core;
                let ghost ev = spec_parse_pat(s@).unwrap();
                proof {
                    assert(ev.subrange(0, ev.len() as int) =~= ev);
                }
                let mut i: usize = 0;
                while i < entries.len()
                    invariant
                        i <= entries@.len(),
                        entries@ == ev,
                        demux_wf(self@),
                        self@.pending == old(self)@.pending,
                        self@.dropped == old(self)@.dropped,
                        self@.failed == old(self)@.failed,
                        spec_register_programs(c0, ev) == spec_register_programs(
                            self@.core,
                            ev.subrange(i as int, ev.len() as int),
                        ),
                    decreases entries@.len() - i,
                {
                    let ghost rem = ev.subrange(i as int, ev.len() as int);
                    let (prog, mpid) = entries[i];
                    if prog != 0 && (mpid as usize) < PID_COUNT {
                        let is_same = match &self.filters[mpid as usize] {
                            Filter::Pmt { program, .. } => *program == prog,
                            _ => false,
                        };
                        if !is_same {
                            let ghost fs_pre = self.filters@;
                            self.filters[mpid as usize] = Filter::Pmt {
                                program: prog,
                                acc: SectionAccumulator::new(),
                            };
                            self.pcrs[mpid as usize] = None;
                            proof {
                                assert(filters_view(self.filters@) =~= filters_view(
                                    fs_pre,
                                ).update(
                                    mpid as int,
                                    FilterV::Pmt { program: prog, acc: empty_acc() },
                                ));
                            }
                        }
                    }
                    proof {
                        assert(rem.drop_first() =~= ev.subrange(i + 1, ev.len() as int));
                    }
                    i = i + 1;
                }
                proof {
                    assert(ev.subrange(ev.len() as int, ev.len() as int) =~= Seq::<(
                        u16,
                        u16,
                    )>::empty());
                }
            },
        }
    }

    /// Apply one complete PMT section for the program mapped on `pmt_pid`.
    #[verifier::loop_isolation(false)]
    fn apply_pmt_section(&mut self, pmt_pid: u16, s: &[u8])
        requires
            demux_wf(old(self)@),
        ensures
            demux_wf(final(self)@),
            final(self)@.core == spec_apply_pmt_section(old(self)@.core, pmt_pid, s@),
            final(self)@.pending == old(self)@.pending,
            final(self)@.dropped == old(self)@.dropped,
            final(self)@.failed == old(self)@.failed,
    {
        match parse_pmt(s) {
            None => {},
            Some(info) => {
                let ghost c0 = self@.core;
                let ghost sv = spec_parse_pmt(s@).unwrap().streams;
                proof {
                    assert(sv.subrange(0, sv.len() as int) =~= sv);
                }
                let cuei = info.cuei_registered;
                let mut i: usize = 0;
                while i < info.streams.len()
                    invariant
                        i <= info.streams@.len(),
                        info.streams@ == sv,
                        info.cuei_registered == cuei,
                        demux_wf(self@),
                        self@.pending == old(self)@.pending,
                        self@.dropped == old(self)@.dropped,
                        self@.failed == old(self)@.failed,
                        spec_apply_streams(c0, pmt_pid, cuei, sv) == spec_apply_streams(
                            self@.core,
                            pmt_pid,
                            cuei,
                            sv.subrange(i as int, sv.len() as int),
                        ),
                    decreases info.streams@.len() - i,
                {
                    let ghost rem = sv.subrange(i as int, sv.len() as int);
                    let (stream_type, espid) = info.streams[i];
                    if (espid as usize) < PID_COUNT {
                        let desired: Filter = if stream_type == 0x86 {
                            if cuei {
                                Filter::Scte35 {
                                    program_pid: pmt_pid,
                                    acc: SectionAccumulator::new(),
                                }
                            } else {
                                Filter::Null
                            }
                        } else {
                            Filter::PcrWatch { program_pid: pmt_pid }
                        };
                        let same = match (&self.filters[espid as usize], &desired) {
                            (
                                Filter::Scte35 { program_pid: a, .. },
                                Filter::Scte35 { program_pid: b, .. },
                            ) => *a == *b,
                            (
                                Filter::PcrWatch { program_pid: a },
                                Filter::PcrWatch { program_pid: b },
                            ) => *a == *b,
                            (Filter::Null, Filter::Null) => true,
                            _ => false,
                        };
                        proof {
                            assert(desired@ == spec_classify(stream_type, cuei, pmt_pid));
                            assert(same == spec_same_classification(
                                self@.core.filters[espid as int],
                                desired@,
                            ));
                        }
                        if !same {
                            let ghost fs_pre = self.filters@;
                            self.filters[espid as usize] = desired;
                            proof {
                                assert(filters_view(self.filters@) =~= filters_view(
                                    fs_pre,
                                ).update(espid as int, spec_classify(stream_type, cuei, pmt_pid)));
                            }
                        }
                    }
                    proof {
                        assert(rem.drop_first() =~= sv.subrange(i + 1, sv.len() as int));
                    }
                    i = i + 1;
                }
                proof {
                    assert(sv.subrange(sv.len() as int, sv.len() as int) =~= Seq::<(
                        u8,
                        u16,
                    )>::empty());
                }
            },
        }
    }

    /// Apply one complete section from an SCTE-35 stream.
    fn apply_scte_section(&mut self, pid: u16, program_pid: u16, s: &[u8])
        requires
            demux_wf(old(self)@),
        ensures
            demux_wf(final(self)@),
            final(self)@.core == spec_apply_scte_section(old(self)@.core, pid, program_pid, s@),
            final(self)@.pending == old(self)@.pending,
            final(self)@.dropped == old(self)@.dropped,
            final(self)@.failed == old(self)@.failed,
    {
        if s.len() > 3 + MAX_SECTION_LENGTH {
            return ;
        }
        match decode_splice_section(s) {
            Err(_) => {},
            Ok(section) => {
                let last_pcr: Option<ClockRef> = if (program_pid as usize) < PID_COUNT {
                    self.pcrs[program_pid as usize]
                } else {
                    None
                };
                let pts_opt: Option<u64> = match &section.command {
                    SpliceCommand::SpliceInsert {
                        splice_detail: SpliceInsertDetail::Insert {
                            splice_mode: SpliceMode::Program(SpliceTime::Timed(Some(pts))),
                            ..
                        },
                        ..
                    } => Some(*pts),
                    _ => None,
                };
                let elapsed: Option<i64> = match (pts_opt, last_pcr) {
                    (Some(p), Some(c)) => {
                        if p < TIME_BASE_MOD && c.base < TIME_BASE_MOD {
                            Some(elapsed_90k(p, c.base))
                        } else {
                            None
                        }
                    },
                    _ => None,
                };
                proof {
                    assert(elapsed == spec_annotate(section@.command, last_pcr));
                }
                let record = SpliceEventRecord { pid, last_pcr, elapsed, section };
                let ghost c0 = self@.core;
                self.events.push(record);
                proof {
                    assert(events_view(self.events@) =~= events_view(old(self).events@).push(
                        record@,
                    ));
                }
            },
        }
    }

    /// The accumulator state of a section-reassembling filter.
    pub open spec fn spec_acc_of(f: FilterV) -> AccumulatorV {
        match f {
            FilterV::Pat(acc) => acc,
            FilterV::Pmt { acc, .. } => acc,
            FilterV::Scte35 { acc, .. } => acc,
            _ => empty_acc(),
        }
    }

    /// The same filter with its accumulator replaced.
    pub open spec fn spec_with_acc(f: FilterV, acc: AccumulatorV) -> FilterV {
        match f {
            FilterV::Pat(_) => FilterV::Pat(acc),
            FilterV::Pmt { program, .. } => FilterV::Pmt { program, acc },
            FilterV::Scte35 { program_pid, .. } => FilterV::Scte35 { program_pid, acc },
            other => other,
        }
    }

    /// Feed a packet payload to the section filter on `pid` and apply
    /// each completed section.  `kind` selects the reaction: 1 PAT,
    /// 2 PMT, 3 SCTE-35.
    #[verifier::rlimit(100)]
    fn feed_sections(&mut self, pid: usize, kind: u8, pusi: bool, cc: u8, payload: &[u8])
        requires
            demux_wf(old(self)@),
            pid < PID_COUNT,
            payload@.len() <= 184,
            kind == 1 ==> old(self)@.core.filters[pid as int] is Pat,
            kind == 2 ==> old(self)@.core.filters[pid as int] is Pmt,
            kind == 3 ==> old(self)@.core.filters[pid as int] is Scte35,
            kind == 1 || kind == 2 || kind == 3,
        ensures
            demux_wf(final(self)@),
            final(self)@.pending == old(self)@.pending,
            final(self)@.dropped == old(self)@.dropped,
            final(self)@.failed == old(self)@.failed,
            ({
                let c = old(self)@.core;
                let f = c.filters[pid as int];
                let (acc2, ss) = spec_accumulator_step(
                    Self::spec_acc_of(f),
                    pusi,
                    cc,
                    payload@,
                );
                let c1 = CoreV {
                    filters: c.filters.update(pid as int, Self::spec_with_acc(f, acc2)),
                    ..c
                };
                final(self)@.core == if kind == 1 {
                    spec_apply_pat_sections(c1, ss)
                } else if kind == 2 {
                    spec_apply_pmt_sections(c1, pid as u16, ss)
                } else {
                    spec_apply_scte_sections(
                        c1,
                        pid as u16,
                        match f {
                            FilterV::Scte35 { program_pid, .. } => program_pid,
                            _ => 0,
                        },
                        ss,
                    )
                }
            }),
    {
        let ghost c0 = old(self)@.core;
        let ghost f0 = c0.filters[pid as int];
        let program_pid: u16 = match &self.filters[pid] {
            Filter::Pmt { program, .. } => *program,
            Filter::Scte35 { program_pid, .. } => *program_pid,
            _ => 0,
        };
        let mut out: Vec<Vec<u8>> = Vec::new();
        {
            let f = &mut self.filters[pid];
            match f {
                Filter::Pat(acc) => acc.consume(pusi, cc, payload, &mut out),
                Filter::Pmt { acc, .. } => acc.consume(pusi, cc, payload, &mut out),
                Filter::Scte35 { acc, .. } => acc.consume(pusi, cc, payload, &mut out),
                _ => {},
            }
        }
        let ghost acc2 = spec_accumulator_step(Self::spec_acc_of(f0), pusi, cc, payload@).0;
        let ghost ss = spec_accumulator_step(Self::spec_acc_of(f0), pusi, cc, payload@).1;
        proof {
            assert(filters_view(self.filters@) =~= c0.filters.update(
                pid as int,
                Self::spec_with_acc(f0, acc2),
            ));
            assert(seqs_view(out@) == ss);
            assert(ss.subrange(0, ss.len() as int) =~= ss);
        }
        let ghost c_mid = self@.core;
        let mut i: usize = 0;
        while i < out.len()
            invariant
                i <= out@.len(),
                demux_wf(self@),
                self@.pending == old(self)@.pending,
                self@.dropped == old(self)@.dropped,
                self@.failed == old(self)@.failed,
                seqs_view(out@) == ss,
                pid < PID_COUNT,
                kind == 1 || kind == 2 || kind == 3,
                (kind == 1 ==> spec_apply_pat_sections(c_mid, ss) == spec_apply_pat_sections(
                    self@.core,
                    ss.subrange(i as int, ss.len() as int),
                )),
                (kind == 2 ==> spec_apply_pmt_sections(c_mid, pid as u16, ss)
                    == spec_apply_pmt_sections(
                    self@.core,
                    pid as u16,
                    ss.subrange(i as int, ss.len() as int),
                )),
                (kind == 3 ==> spec_apply_scte_sections(c_mid, pid as u16, program_pid, ss)
                    == spec_apply_scte_sections(
                    self@.core,
                    pid as u16,
                    program_pid,
                    ss.subrange(i as int, ss.len() as int),
                )),
            decreases out@.len() - i,
        {
            let ghost rem = ss.subrange(i as int, ss.len() as int);
            let sect = &out[i];
            if kind == 1 {
                self.apply_pat_section(sect.as_slice());
            } else if kind == 2 {
                self.apply_pmt_section(pid as u16, sect.as_slice());
            } else {
                self.apply_scte_section(pid as u16, program_pid, sect.as_slice());
            }
            proof {
                assert(rem.drop_first() =~= ss.subrange(i + 1, ss.len() as int));
            }
            i = i + 1;
        }
        proof {
            assert(ss.subrange(ss.len() as int, ss.len() as int) =~= Seq::<Seq<u8>>::empty());
        }
    }

    /// Route one complete, sync-aligned packet.
    #[verifier::rlimit(100)]
    fn handle_packet(&mut self, p: &[u8])
        requires
            demux_wf(old(self)@),
            p@.len() == 188,
            p@[0] == 0x47,
        ensures
            demux_wf(final(self)@),
            final(self)@.core == spec_core_step(old(self)@.core, p@),
            final(self)@.pending == old(self)@.pending,
            final(self)@.dropped == old(self)@.dropped,
            final(self)@.failed == old(self)@.failed,
    {
        if p[1] & 0x80 != 0 {
            // transport_error_indicator: contents are not trustworthy
            return ;
        }
        if p[3] & 0xc0 != 0 {
            // scrambled payloads cannot be parsed
            return ;
        }
        let p1: u8 = p[1];
        let pid: usize = ((p1 & 0x1f) as usize) * 256 + (p[2] as usize);
        let pusi = p1 & 0x40 != 0;
        let afc = (p[3] >> 4) & 3;
        let cc = p[3] & 0x0f;
        proof {
            assert(p1 & 0x1f < 32) by (bit_vector);
        }
        let is_unset = match &self.filters[pid] {
            Filter::Unset => true,
            _ => false,
        };
        if is_unset {
            let ghost fs_pre = self.filters@;
            let fresh: Filter = if pid == 0 {
                Filter::Pat(SectionAccumulator::new())
            } else {
                Filter::Null
            };
            self.filters[pid] = fresh;
            proof {
                assert(filters_view(self.filters@) =~= filters_view(fs_pre).update(
                    pid as int,
                    if pid == 0 {
                        FilterV::Pat(empty_acc())
                    } else {
                        FilterV::Null
                    },
                ));
            }
        }
        let ghost c_before = self@.core;
        // locate the payload
        let payload_start: Option<usize> = if afc == 1 {
            Some(4)
        } else if afc == 3 && p[4] <= 183 {
            Some(5 + (p[4] as usize))
        } else {
            None
        };
        let kind: u8 = match &self.filters[pid] {
            Filter::Pat(_) => 1,
            Filter::Pmt { .. } => 2,
            Filter::Scte35 { .. } => 3,
            Filter::PcrWatch { .. } => 4,
            _ => 0,
        };
        if kind == 1 || kind == 2 || kind == 3 {
            match payload_start {
                None => {
                    proof {
                        assert(self@.core.filters =~= old(self)@.core.filters.update(
                            pid as int,
                            c_before.filters[pid as int],
                        ));
                    }
                },
                Some(start) => {
                    let payload = slice_subrange(p, start, 188);
                    self.feed_sections(pid, kind, pusi, cc, payload);
                    proof {
                        assert(c_before.filters.update(
                            pid as int,
                            Self::spec_with_acc(
                                c_before.filters[pid as int],
                                spec_accumulator_step(
                                    Self::spec_acc_of(c_before.filters[pid as int]),
                                    pusi,
                                    cc,
                                    payload@,
                                ).0,
                            ),
                        ) =~= old(self)@.core.filters.update(
                            pid as int,
                            Self::spec_with_acc(
                                c_before.filters[pid as int],
                                spec_accumulator_step(
                                    Self::spec_acc_of(c_before.filters[pid as int]),
                                    pusi,
                                    cc,
                                    payload@,
                                ).0,
                            ),
                        ));
                    }
                },
            }
        } else if kind == 4 {
            let program_pid: u16 = match &self.filters[pid] {
                Filter::PcrWatch { program_pid } => *program_pid,
                _ => 0,
            };
            proof {
                assert(self@.core.filters =~= old(self)@.core.filters.update(
                    pid as int,
                    c_before.filters[pid as int],
                ));
            }
            if afc & 2 != 0 && p[4] >= 7 && (p[4] as usize) <= 183 && p[5] & 0x10 != 0 {
                let base: u64 = (p[6] as u64) * 0x2000000 + (p[7] as u64) * 0x20000 + (p[8] as u64)
                    * 0x200 + (p[9] as u64) * 2 + ((p[10] >> 7) as u64);
                let extension: u16 = ((p[10] & 1) as u16) * 256 + (p[11] as u16);
                if (program_pid as usize) < PID_COUNT {
                    self.pcrs[program_pid as usize] = Some(ClockRef { base, extension });
                }
            }
        } else {
            proof {
                assert(self@.core.filters =~= old(self)@.core.filters.update(
                    pid as int,
                    c_before.filters[pid as int],
                ));
            }
        }
    }
}

} // verus!

// Pushing byte chunks: packetisation, resynchronisation, and the law
// that chunk boundaries cannot change what is decoded.

verus! {

/// Drive the packetiser over buffered bytes: consume leading garbage
/// within the resynchronisation window, hand every complete packet to
/// the routing step, and stop on a trailing partial packet.  Returns the
/// routing state, the leftover bytes, the garbage counter, and whether
/// the stream was abandoned.
pub open spec fn spec_pump(c: CoreV, work: Seq<u8>, dropped: nat, failed: bool) -> (
    CoreV,
    Seq<u8>,
    nat,
    bool,
)
    decreases work.len(),
{
    if failed {
        (c, Seq::<u8>::empty(), dropped, true)
    } else if work.len() == 0 {
        (c, work, dropped, false)
    } else if work[0] != 0x47 {
        if dropped >= RESYNC_WINDOW as nat {
            (c, Seq::<u8>::empty(), dropped, true)
        } else {
            spec_pump(c, work.subrange(1, work.len() as int), dropped + 1, false)
        }
    } else if work.len() < 188 {
        (c, work, dropped, false)
    } else {
        spec_pump(
            spec_core_step(c, work.subrange(0, 188)),
            work.subrange(188, work.len() as int),
            0,
            false,
        )
    }
}

/// What one `push` call does.
pub open spec fn spec_push(st: DemuxV, chunk: Seq<u8>) -> DemuxV {
    let r = spec_pump(st.core, st.pending + chunk, st.dropped, st.failed);
    DemuxV { core: r.0, pending: r.1, dropped: r.2, failed: r.3 }
}

/// A state the pump has nothing left to do on: what `push` always
/// leaves behind.
pub open spec fn spec_quiescent(st: DemuxV) -> bool {
    if st.failed {
        st.pending.len() == 0
    } else {
        st.pending.len() == 0 || (st.pending[0] == 0x47 && st.pending.len() < 188)
    }
}

/// The pump's leftover is always quiescent and its garbage counter
/// stays within the window.
pub proof fn lemma_pump_leftover(c: CoreV, work: Seq<u8>, dropped: nat, failed: bool)
    requires
        dropped <= RESYNC_WINDOW as nat,
    ensures
        ({
            let r = spec_pump(c, work, dropped, failed);
            &&& r.2 <= RESYNC_WINDOW as nat
            &&& (r.3 ==> r.1.len() == 0)
            &&& (!r.3 ==> r.1.len() == 0 || (r.1[0] == 0x47 && r.1.len() < 188))
        }),
    decreases work.len(),
{
    if failed {
    } else if work.len() == 0 {
    } else if work[0] != 0x47 {
        if dropped < RESYNC_WINDOW as nat {
            lemma_pump_leftover(c, work.subrange(1, work.len() as int), dropped + 1, false);
        }
    } else if work.len() < 188 {
    } else {
        lemma_pump_leftover(
            spec_core_step(c, work.subrange(0, 188)),
            work.subrange(188, work.len() as int),
            0,
            false,
        );
    }
}

/// Running the pump, then feeding it more bytes, equals running it once
/// over all the bytes: the heart of chunking invariance.
pub proof fn lemma_pump_extend(c: CoreV, work: Seq<u8>, extra: Seq<u8>, dropped: nat, failed: bool)
    ensures
        ({
            let r = spec_pump(c, work, dropped, failed);
            spec_pump(r.0, r.1 + extra, r.2, r.3) == spec_pump(c, work + extra, dropped, failed)
        }),
    decreases work.len(),
{
    let r = spec_pump(c, work, dropped, failed);
    if failed {
        assert(r.1 + extra =~= extra);
    } else if work.len() == 0 {
        assert(work + extra =~= extra);
        assert(r.1 + extra =~= extra);
    } else if work[0] != 0x47 {
        assert((work + extra)[0] == work[0]);
        assert((work + extra).len() >= 1);
        if dropped >= RESYNC_WINDOW as nat {
            assert(r.1 + extra =~= extra);
        } else {
            assert(work.subrange(1, work.len() as int) + extra =~= (work + extra).subrange(
                1,
                (work + extra).len() as int,
            ));
            lemma_pump_extend(c, work.subrange(1, work.len() as int), extra, dropped + 1, false);
        }
    } else if work.len() < 188 {
        if (work + extra).len() < 188 {
            assert(r.1 + extra =~= work + extra);
        } else {
            assert(r.1 + extra =~= work + extra);
        }
    } else {
        assert((work + extra).len() >= 188);
        assert((work + extra)[0] == work[0]);
        assert((work + extra).subrange(0, 188) =~= work.subrange(0, 188));
        assert(work.subrange(188, work.len() as int) + extra =~= (work + extra).subrange(
            188,
            (work + extra).len() as int,
        ));
        lemma_pump_extend(
            spec_core_step(c, work.subrange(0, 188)),
            work.subrange(188, work.len() as int),
            extra,
            0,
            false,
        );
    }
}

/// Two consecutive pushes equal one push of the concatenated bytes.
pub proof fn lemma_push_concat(st: DemuxV, a: Seq<u8>, b: Seq<u8>)
    ensures
        spec_push(spec_push(st, a), b) == spec_push(st, a + b),
{
    lemma_pump_extend(st.core, st.pending + a, b, st.dropped, st.failed);
    assert((st.pending + a) + b =~= st.pending + (a + b));
}

/// Pushing nothing changes nothing, once the state is quiescent.
pub proof fn lemma_push_empty(st: DemuxV)
    requires
        spec_quiescent(st),
    ensures
        spec_push(st, Seq::<u8>::empty()) == st,
{
    assert(st.pending + Seq::<u8>::empty() =~= st.pending);
    if st.failed {
        assert(spec_pump(st.core, st.pending, st.dropped, true).1 =~= st.pending);
    }
}

/// A whole sequence of pushes, chunk by chunk.
pub open spec fn spec_push_all(st: DemuxV, chunks: Seq<Seq<u8>>) -> DemuxV
    decreases chunks.len(),
{
    if chunks.len() == 0 {
        st
    } else {
        spec_push_all(spec_push(st, chunks[0]), chunks.drop_first())
    }
}

/// Chunking invariance: however a byte stream is split into `push`
/// calls, the demultiplexer ends in exactly the state it reaches when
/// the whole stream arrives at once — same filters, same clock
/// registry, same decoded events.
pub proof fn lemma_push_chunked(st: DemuxV, chunks: Seq<Seq<u8>>)
    requires
        spec_quiescent(st),
        st.dropped <= RESYNC_WINDOW as nat,
    ensures
        spec_push_all(st, chunks) == spec_push(st, chunks.flatten()),
    decreases chunks.len(),
{
    if chunks.len() == 0 {
        lemma_push_empty(st);
        assert(chunks.flatten() =~= Seq::<u8>::empty());
    } else {
        let st1 = spec_push(st, chunks[0]);
        lemma_pump_leftover(st.core, st.pending + chunks[0], st.dropped, st.failed);
        lemma_push_chunked(st1, chunks.drop_first());
        lemma_push_concat(st, chunks[0], chunks.drop_first().flatten());
        assert(chunks.flatten() == chunks[0] + chunks.drop_first().flatten());
    }
}

impl Demuxer {
    /// Feed the next chunk of the byte stream.  Chunks may be any size
    /// and split anywhere: a trailing partial packet is buffered and
    /// completed by later calls.  On sync loss the demultiplexer scans
    /// forward, dropping at most [`RESYNC_WINDOW`] bytes, then declares
    /// the stream dead.
    #[verifier::rlimit(60)]
    pub fn push(&mut self, chunk: &[u8])
        requires
            demux_wf(old(self)@),
            spec_quiescent(old(self)@),
            chunk@.len() <= usize::MAX - 400,
        ensures
            demux_wf(final(self)@),
            spec_quiescent(final(self)@),
            final(self)@ == spec_push(old(self)@, chunk@),
    {
        proof {
            lemma_pump_leftover(
                old(self)@.core,
                old(self)@.pending + chunk@,
                old(self)@.dropped,
                old(self)@.failed,
            );
        }
        if self.failed {
            proof {
                assert(final(self)@.pending =~= spec_push(old(self)@, chunk@).pending);
            }
            return ;
        }
        let mut work: Vec<u8> = Vec::new();
        core::mem::swap(&mut work, &mut self.pending);
        let mut tail = slice_to_vec(chunk);
        work.append(&mut tail);
        let ghost work0 = work@;
        proof {
            assert(work0 == old(self)@.pending + chunk@);
            assert(work0.subrange(0, work0.len() as int) =~= work0);
        }
        let mut idx: usize = 0;
        while !self.failed && work.len() - idx >= 1 && (work[idx] != 0x47 || work.len() - idx
            >= 188)
            invariant
                idx <= work0.len(),
                work@ == work0,
                demux_wf(self@),
                self@.pending.len() == 0,
                spec_pump(old(self)@.core, work0, old(self)@.dropped, old(self)@.failed)
                    == spec_pump(
                    self@.core,
                    work0.subrange(idx as int, work0.len() as int),
                    self@.dropped,
                    self@.failed,
                ),
            decreases work0.len() - idx, (if self@.failed { 0int } else { 1int }),
        {
            let ghost rem = work0.subrange(idx as int, work0.len() as int);
            if work[idx] != 0x47 {
                if self.dropped >= RESYNC_WINDOW {
                    self.failed = true;
                } else {
                    proof {
                        assert(rem.subrange(1, rem.len() as int) =~= work0.subrange(
                            idx + 1,
                            work0.len() as int,
                        ));
                    }
                    self.dropped = self.dropped + 1;
                    idx = idx + 1;
                }
            } else {
                let pkt = slice_subrange(work.as_slice(), idx, idx + 188);
                proof {
                    assert(pkt@ =~= rem.subrange(0, 188));
                    assert(rem.subrange(188, rem.len() as int) =~= work0.subrange(
                        idx + 188,
                        work0.len() as int,
                    ));
                }
                self.handle_packet(pkt);
                self.dropped = 0;
                idx = idx + 188;
            }
        }
        // terminal case: dead stream, nothing left, or a partial packet
        if self.failed {
            self.pending = Vec::new();
            proof {
                let r = spec_pump(old(self)@.core, work0, old(self)@.dropped, old(self)@.failed);
                assert(final(self)@.pending =~= r.1);
            }
        } else {
            let rest = slice_to_vec(slice_subrange(work.as_slice(), idx, work.len()));
            self.pending = rest;
            proof {
                let tailseq = work0.subrange(idx as int, work0.len() as int);
                let r = spec_pump(old(self)@.core, work0, old(self)@.dropped, old(self)@.failed);
                assert(r == spec_pump(self@.core, tailseq, self@.dropped, false));
                assert(final(self)@.pending =~= r.1);
            }
        }
    }
}

} // verus!
