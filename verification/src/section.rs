//! PSI section reassembly.
//!
//! A table section may span several transport-stream packets.  The
//! accumulator collects payload bytes for one PID until the declared
//! section_length is reached, honouring the payload_unit_start_indicator
//! and its pointer field, and discards a partial section when the
//! continuity counter shows a gap or the declared length exceeds the
//! protocol maximum.

use vstd::prelude::*;
use vstd::slice::{slice_to_vec, slice_subrange};

verus! {

/// Largest legal section_length value for private sections.
pub const MAX_SECTION_LENGTH: usize = 4093;

/// Total bytes a section with the given first three header bytes needs:
/// the three header bytes plus the declared section_length.
pub open spec fn spec_section_needed(buf: Seq<u8>) -> nat
    recommends
        buf.len() >= 3,
{
    3 + ((buf[1] & 0x0f) as nat) * 256 + buf[2] as nat
}

/// Whether the declared length exceeds the protocol maximum.
pub open spec fn spec_section_oversize(buf: Seq<u8>) -> bool
    recommends
        buf.len() >= 3,
{
    ((buf[1] & 0x0f) as nat) * 256 + buf[2] as nat > MAX_SECTION_LENGTH as nat
}

/// Specification state of one PID's accumulator.
pub struct AccumulatorV {
    /// The bytes gathered so far of an incomplete section, if any.
    pub partial: Option<Seq<u8>>,
    /// The last continuity counter seen on this PID.
    pub last_cc: Option<u8>,
}

/// What feeding the bytes that begin a new section does: either emits a
/// complete section at once, stores the bytes as the new partial, or
/// rejects them.
pub open spec fn spec_start_section(ns: Seq<u8>) -> (Option<Seq<u8>>, Seq<Seq<u8>>) {
    if ns.len() == 0 {
        (None, Seq::<Seq<u8>>::empty())
    } else if ns[0] == 0xff {
        // stuffing bytes: no further section in this packet
        (None, Seq::<Seq<u8>>::empty())
    } else if ns.len() < 3 {
        (Some(ns), Seq::<Seq<u8>>::empty())
    } else if spec_section_oversize(ns) {
        (None, Seq::<Seq<u8>>::empty())
    } else if ns.len() >= spec_section_needed(ns) {
        (None, seq![ns.subrange(0, spec_section_needed(ns) as int)])
    } else {
        (Some(ns), Seq::<Seq<u8>>::empty())
    }
}

/// What appending continuation bytes to a partial section does.
pub open spec fn spec_continue_section(buf: Seq<u8>) -> (Option<Seq<u8>>, Seq<Seq<u8>>) {
    if buf.len() < 3 {
        (Some(buf), Seq::<Seq<u8>>::empty())
    } else if spec_section_oversize(buf) {
        (None, Seq::<Seq<u8>>::empty())
    } else if buf.len() >= spec_section_needed(buf) {
        (None, seq![buf.subrange(0, spec_section_needed(buf) as int)])
    } else {
        (Some(buf), Seq::<Seq<u8>>::empty())
    }
}

/// One step of the accumulator on a packet's payload: the new state and
/// the complete sections it hands over (at most two).
pub open spec fn spec_accumulator_step(
    st: AccumulatorV,
    pusi: bool,
    cc: u8,
    payload: Seq<u8>,
) -> (AccumulatorV, Seq<Seq<u8>>) {
    // a continuity gap discards any partial section
    let partial0: Option<Seq<u8>> = match st.last_cc {
        Some(last) => if cc == ((last + 1) % 16) as u8 {
            st.partial
        } else {
            None
        },
        None => st.partial,
    };
    if pusi {
        if payload.len() < 1 || 1 + payload[0] as nat > payload.len() {
            (AccumulatorV { partial: None, last_cc: Some(cc) }, Seq::<Seq<u8>>::empty())
        } else {
            let p = payload[0] as nat;
            // bytes before the pointed-to position finish the previous section
            let tail_emit: Seq<Seq<u8>> = match partial0 {
                Some(buf) => if p > 0 {
                    let buf2 = buf + payload.subrange(1, 1 + p as int);
                    spec_continue_section(buf2).1
                } else {
                    Seq::<Seq<u8>>::empty()
                },
                None => Seq::<Seq<u8>>::empty(),
            };
            // a new section begins at the pointed-to position, superseding
            // whatever was accumulating
            let (partial1, new_emit) = spec_start_section(
                payload.subrange(1 + p as int, payload.len() as int),
            );
            (AccumulatorV { partial: partial1, last_cc: Some(cc) }, tail_emit + new_emit)
        }
    } else {
        match partial0 {
            None => (AccumulatorV { partial: None, last_cc: Some(cc) }, Seq::<Seq<u8>>::empty()),
            Some(buf) => {
                let (partial1, emit) = spec_continue_section(buf + payload);
                (AccumulatorV { partial: partial1, last_cc: Some(cc) }, emit)
            },
        }
    }
}

/// Bound on a gathered buffer: it never outgrows a maximal section by
/// more than the packet that completed it would allow.
pub open spec fn acc_v_wf(a: AccumulatorV) -> bool {
    match a.partial {
        Some(b) => b.len() <= 3 + MAX_SECTION_LENGTH,
        None => true,
    }
}

/// Per-PID accumulator for one PSI section at a time.
pub struct SectionAccumulator {
    partial: Option<Vec<u8>>,
    last_cc: Option<u8>,
}

impl View for SectionAccumulator {
    type V = AccumulatorV;

    closed spec fn view(&self) -> AccumulatorV {
        AccumulatorV {
            partial: match self.partial {
                Some(v) => Some(v@),
                None => None,
            },
            last_cc: self.last_cc,
        }
    }
}

/// The views of the emitted section buffers.
pub open spec fn seqs_view(s: Seq<Vec<u8>>) -> Seq<Seq<u8>> {
    s.map_values(|v: Vec<u8>| v@)
}

impl SectionAccumulator {
    /// A fresh accumulator: nothing gathered, no counter seen.
    pub fn new() -> (r: SectionAccumulator)
        ensures
            r@.partial is None,
            r@.last_cc is None,
    {
        SectionAccumulator { partial: None, last_cc: None }
    }

    /// Bound kept on the gathered buffer so its arithmetic stays small.
    pub open spec fn wf(&self) -> bool {
        acc_v_wf(self@)
    }

    /// Feed the bytes that begin a new section.
    fn start_section(&mut self, ns: &[u8], out: &mut Vec<Vec<u8>>)
        requires
            ns@.len() <= 184,
        ensures
            final(self).wf(),
            final(self)@.partial == spec_start_section(ns@).0,
            final(self)@.last_cc == old(self)@.last_cc,
            seqs_view(final(out)@) == seqs_view(old(out)@) + spec_start_section(ns@).1,
    {
        let ghost out0 = out@;
        if ns.len() == 0 {
            self.partial = None;
            proof {
                assert(seqs_view(out@) =~= seqs_view(out0) + spec_start_section(ns@).1);
            }
            return ;
        }
        if ns[0] == 0xff {
            self.partial = None;
            proof {
                assert(seqs_view(out@) =~= seqs_view(out0) + spec_start_section(ns@).1);
            }
            return ;
        }
        if ns.len() < 3 {
            self.partial = Some(slice_to_vec(ns));
            proof {
                assert(seqs_view(out@) =~= seqs_view(out0) + spec_start_section(ns@).1);
            }
            return ;
        }
        let length = ((ns[1] & 0x0f) as usize) * 256 + (ns[2] as usize);
        if length > MAX_SECTION_LENGTH {
            self.partial = None;
            proof {
                assert(seqs_view(out@) =~= seqs_view(out0) + spec_start_section(ns@).1);
            }
            return ;
        }
        let needed = 3 + length;
        if ns.len() >= needed {
            let sect = slice_to_vec(slice_subrange(ns, 0, needed));
            self.partial = None;
            out.push(sect);
            proof {
                assert(seqs_view(out@) =~= seqs_view(out0) + spec_start_section(ns@).1);
            }
        } else {
            self.partial = Some(slice_to_vec(ns));
            proof {
                assert(seqs_view(out@) =~= seqs_view(out0) + spec_start_section(ns@).1);
            }
        }
    }

    /// Check the (re)filled buffer in `self.partial` for completion.
    fn check_complete(&mut self, out: &mut Vec<Vec<u8>>)
        requires
            old(self)@.partial is Some,
            old(self)@.partial.unwrap().len() <= 3 + MAX_SECTION_LENGTH + 184,
        ensures
            final(self).wf(),
            final(self)@.partial == spec_continue_section(old(self)@.partial.unwrap()).0,
            final(self)@.last_cc == old(self)@.last_cc,
            seqs_view(final(out)@) == seqs_view(old(out)@) + spec_continue_section(
                old(self)@.partial.unwrap(),
            ).1,
    {
        let ghost out0 = out@;
        let ghost bufv = old(self)@.partial.unwrap();
        let buf = self.partial.take().unwrap();
        if buf.len() < 3 {
            self.partial = Some(buf);
            proof {
                assert(seqs_view(out@) =~= seqs_view(out0) + spec_continue_section(bufv).1);
            }
            return ;
        }
        let length = ((buf[1] & 0x0f) as usize) * 256 + (buf[2] as usize);
        if length > MAX_SECTION_LENGTH {
            self.partial = None;
            proof {
                assert(seqs_view(out@) =~= seqs_view(out0) + spec_continue_section(bufv).1);
            }
            return ;
        }
        let needed = 3 + length;
        if buf.len() >= needed {
            let mut sect = buf;
            sect.truncate(needed);
            self.partial = None;
            out.push(sect);
            proof {
                assert(sect@ =~= bufv.subrange(0, spec_section_needed(bufv) as int));
                assert(seqs_view(out@) =~= seqs_view(out0) + spec_continue_section(bufv).1);
            }
        } else {
            self.partial = Some(buf);
            proof {
                assert(seqs_view(out@) =~= seqs_view(out0) + spec_continue_section(bufv).1);
            }
        }
    }

    /// Process one packet's payload; complete sections are appended to
    /// `out` in the order they finish.
    pub fn consume(&mut self, pusi: bool, cc: u8, payload: &[u8], out: &mut Vec<Vec<u8>>)
        requires
            old(self).wf(),
            payload@.len() <= 184,
        ensures
            final(self).wf(),
            (final(self)@, seqs_view(final(out)@)) == {
                let (st, emitted) = spec_accumulator_step(old(self)@, pusi, cc, payload@);
                (st, seqs_view(old(out)@) + emitted)
            },
    {
        let ghost st0 = old(self)@;
        let ghost out0 = out@;
        // continuity gap: discard any partial section
        match self.last_cc {
            Some(last) => {
                if cc != ((last as usize + 1) % 16) as u8 {
                    self.partial = None;
                }
            },
            None => {},
        }
        let ghost partial0 = self@.partial;
        if pusi {
            if payload.len() < 1 || 1 + (payload[0] as usize) > payload.len() {
                self.partial = None;
                self.last_cc = Some(cc);
                proof {
                    assert(seqs_view(out@) =~= seqs_view(out0) + spec_accumulator_step(
                        st0,
                        pusi,
                        cc,
                        payload@,
                    ).1);
                }
                return ;
            }
            let p = payload[0] as usize;
            let is_some = self.partial.is_some();
            if is_some && p > 0 {
                let mut buf = self.partial.take().unwrap();
                let mut cont = slice_to_vec(slice_subrange(payload, 1, 1 + p));
                buf.append(&mut cont);
                self.partial = Some(buf);
                self.check_complete(out);
                // whatever check_complete left is superseded by the new start
            }
            let ghost tail_emit: Seq<Seq<u8>> = match partial0 {
                Some(buf) => if p > 0 {
                    spec_continue_section(buf + payload@.subrange(1, 1 + p as int)).1
                } else {
                    Seq::<Seq<u8>>::empty()
                },
                None => Seq::<Seq<u8>>::empty(),
            };
            proof {
                assert(seqs_view(out@) =~= seqs_view(out0) + tail_emit);
            }
            let ns = slice_subrange(payload, 1 + p, payload.len());
            self.start_section(ns, out);
            self.last_cc = Some(cc);
            proof {
                let (st_exp, emit_exp) = spec_accumulator_step(st0, pusi, cc, payload@);
                assert(seqs_view(out@) =~= seqs_view(out0) + emit_exp);
                assert(self@ == st_exp);
            }
        } else {
            let is_some = self.partial.is_some();
            if is_some {
                let mut buf = self.partial.take().unwrap();
                let mut cont = slice_to_vec(payload);
                buf.append(&mut cont);
                self.partial = Some(buf);
                self.check_complete(out);
            }
            self.last_cc = Some(cc);
            proof {
                let (st_exp, emit_exp) = spec_accumulator_step(st0, pusi, cc, payload@);
                assert(seqs_view(out@) =~= seqs_view(out0) + emit_exp);
                assert(self@ == st_exp);
            }
        }
    }
}

} // verus!
