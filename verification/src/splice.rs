//! SCTE-35 splice_info_section decoding.
//!
//! A section is decoded bit-exactly: every executable parser is proved
//! equal to a specification-level parser written over [`bits_value`].
//! Encrypted sections are recognised and reported, not decrypted.
//! splice_schedule and private commands are captured opaquely.

use vstd::prelude::*;
use vstd::arithmetic::power2::{pow2, lemma2_to64};
use vstd::slice::{slice_to_vec, slice_subrange};
use crate::bits::{bits_value, BitReader, lemma_bits_value_one, lemma_bit_at_byte,
    lemma_bits_value_byte, lemma_bits_value_u16, lemma_bits_value_u32, lemma_bits_value_time33,
    lemma_bits_value_split, lemma_bits_value_bound};

verus! {

/// Encryption scheme announced by a splice_info_section.
#[derive(Debug, Clone, Copy, PartialEq, Eq, Structural)]
pub enum EncryptionAlgorithm {
    NotEncrypted,
    DesEcb,
    DesCbc,
    TripleDesEde3Ecb,
    Reserved(u8),
    Private(u8),
}

/// Maps the 6-bit encryption_algorithm field to its meaning.
pub open spec fn spec_encryption_algorithm(id: u8) -> EncryptionAlgorithm {
    if id == 0 {
        EncryptionAlgorithm::NotEncrypted
    } else if id == 1 {
        EncryptionAlgorithm::DesEcb
    } else if id == 2 {
        EncryptionAlgorithm::DesCbc
    } else if id == 3 {
        EncryptionAlgorithm::TripleDesEde3Ecb
    } else if id < 32 {
        EncryptionAlgorithm::Reserved(id)
    } else {
        EncryptionAlgorithm::Private(id)
    }
}

pub fn encryption_algorithm_from_id(id: u8) -> (r: EncryptionAlgorithm)
    ensures
        r == spec_encryption_algorithm(id),
{
    if id == 0 {
        EncryptionAlgorithm::NotEncrypted
    } else if id == 1 {
        EncryptionAlgorithm::DesEcb
    } else if id == 2 {
        EncryptionAlgorithm::DesCbc
    } else if id == 3 {
        EncryptionAlgorithm::TripleDesEde3Ecb
    } else if id < 32 {
        EncryptionAlgorithm::Reserved(id)
    } else {
        EncryptionAlgorithm::Private(id)
    }
}

/// The fixed 88-bit header common to every splice_info_section.
#[derive(Debug, Clone, Copy, PartialEq, Eq, Structural)]
pub struct SpliceInfoHeader {
    pub protocol_version: u8,
    pub encrypted_packet: bool,
    pub encryption_algorithm: EncryptionAlgorithm,
    /// 33-bit offset added to every presentation time in the section.
    pub pts_adjustment: u64,
    pub cw_index: u8,
    /// 12-bit authorization tier.
    pub tier: u16,
    /// 12-bit length of the splice command; 0xFFF means "not specified".
    pub splice_command_length: u16,
    pub splice_command_type: u8,
}

/// When a splice takes effect.
#[derive(Debug, Clone, Copy, PartialEq, Eq, Structural)]
pub enum SpliceTime {
    Immediate,
    /// Timed splice; `None` means the time was left unspecified.
    Timed(Option<u64>),
}

#[derive(Debug, Clone, Copy, PartialEq, Eq, Structural)]
pub enum ReturnMode {
    Automatic,
    Manual,
}

/// Duration of a break, with the mode of returning from it.
#[derive(Debug, Clone, Copy, PartialEq, Eq, Structural)]
pub struct SpliceDuration {
    pub return_mode: ReturnMode,
    /// 33-bit duration in 90 kHz ticks.
    pub duration: u64,
}

/// Direction of a splice_insert: out of or back into the network feed.
#[derive(Debug, Clone, Copy, PartialEq, Eq, Structural)]
pub enum NetworkIndicator {
    In,
    Out,
}

/// One entry of the component-mode splice list.
#[derive(Debug, Clone, Copy, PartialEq, Eq, Structural)]
pub struct ComponentSplice {
    pub component_tag: u8,
    pub splice_time: SpliceTime,
}

/// Whether a splice applies to the whole program or to single components.
#[derive(Debug, Clone, PartialEq, Eq)]
pub enum SpliceMode {
    Program(SpliceTime),
    Components(Vec<ComponentSplice>),
}

/// Specification view of [`SpliceMode`].
pub enum SpliceModeV {
    Program(SpliceTime),
    Components(Seq<ComponentSplice>),
}

impl View for SpliceMode {
    type V = SpliceModeV;

    open spec fn view(&self) -> SpliceModeV {
        match self {
            SpliceMode::Program(t) => SpliceModeV::Program(*t),
            SpliceMode::Components(cs) => SpliceModeV::Components(cs@),
        }
    }
}

/// Body of a splice_insert command.
#[derive(Debug, Clone, PartialEq, Eq)]
pub enum SpliceInsertDetail {
    Cancel,
    Insert {
        network_indicator: NetworkIndicator,
        splice_mode: SpliceMode,
        duration: Option<SpliceDuration>,
        unique_program_id: u16,
        avail_num: u8,
        avails_expected: u8,
    },
}

/// Specification view of [`SpliceInsertDetail`].
pub enum SpliceInsertDetailV {
    Cancel,
    Insert {
        network_indicator: NetworkIndicator,
        splice_mode: SpliceModeV,
        duration: Option<SpliceDuration>,
        unique_program_id: u16,
        avail_num: u8,
        avails_expected: u8,
    },
}

impl View for SpliceInsertDetail {
    type V = SpliceInsertDetailV;

    open spec fn view(&self) -> SpliceInsertDetailV {
        match self {
            SpliceInsertDetail::Cancel => SpliceInsertDetailV::Cancel,
            SpliceInsertDetail::Insert {
                network_indicator,
                splice_mode,
                duration,
                unique_program_id,
                avail_num,
                avails_expected,
            } => SpliceInsertDetailV::Insert {
                network_indicator: *network_indicator,
                splice_mode: splice_mode@,
                duration: *duration,
                unique_program_id: *unique_program_id,
                avail_num: *avail_num,
                avails_expected: *avails_expected,
            },
        }
    }
}

/// A decoded splice command.
#[derive(Debug, Clone, PartialEq, Eq)]
pub enum SpliceCommand {
    SpliceNull,
    /// splice_schedule bodies are recognised and carried opaquely.
    SpliceSchedule(Vec<u8>),
    SpliceInsert { splice_event_id: u32, splice_detail: SpliceInsertDetail },
    TimeSignal(SpliceTime),
    BandwidthReservation,
    /// Private command bodies are carried opaquely.
    PrivateCommand(Vec<u8>),
    /// A command type this crate does not interpret, with its raw body.
    Reserved(u8, Vec<u8>),
}

/// Specification view of [`SpliceCommand`].
pub enum SpliceCommandV {
    SpliceNull,
    SpliceSchedule(Seq<u8>),
    SpliceInsert { splice_event_id: u32, splice_detail: SpliceInsertDetailV },
    TimeSignal(SpliceTime),
    BandwidthReservation,
    PrivateCommand(Seq<u8>),
    Reserved(u8, Seq<u8>),
}

impl View for SpliceCommand {
    type V = SpliceCommandV;

    open spec fn view(&self) -> SpliceCommandV {
        match self {
            SpliceCommand::SpliceNull => SpliceCommandV::SpliceNull,
            SpliceCommand::SpliceSchedule(b) => SpliceCommandV::SpliceSchedule(b@),
            SpliceCommand::SpliceInsert { splice_event_id, splice_detail } => {
                SpliceCommandV::SpliceInsert {
                    splice_event_id: *splice_event_id,
                    splice_detail: splice_detail@,
                }
            },
            SpliceCommand::TimeSignal(t) => SpliceCommandV::TimeSignal(*t),
            SpliceCommand::BandwidthReservation => SpliceCommandV::BandwidthReservation,
            SpliceCommand::PrivateCommand(b) => SpliceCommandV::PrivateCommand(b@),
            SpliceCommand::Reserved(t, b) => SpliceCommandV::Reserved(*t, b@),
        }
    }
}

/// Failure while decoding a single splice command body.  Such failures are
/// local to one section: callers log them and continue with the stream.
#[derive(Debug, Clone, Copy, PartialEq, Eq, Structural)]
pub enum SpliceErr {
    /// The body ended before the fields it announces.
    NotEnoughData,
    /// The bit cursor did not land exactly on the declared end of the body.
    Alignment,
    /// A command whose body must be empty carried bytes.
    BodyNotEmpty,
}

/// Specification parser for a splice_time element starting at bit `pos`.
/// Returns the optional 33-bit time and the position after the element.
pub open spec fn spec_splice_time(b: Seq<u8>, pos: nat) -> Result<(Option<u64>, nat), SpliceErr> {
    if pos + 8 > 8 * b.len() {
        Err(SpliceErr::NotEnoughData)
    } else if bits_value(b, pos, 1) == 1 {
        if pos + 40 <= 8 * b.len() {
            Ok((Some(bits_value(b, (pos + 7) as nat, 33) as u64), (pos + 40) as nat))
        } else {
            Err(SpliceErr::NotEnoughData)
        }
    } else {
        Ok((None, (pos + 8) as nat))
    }
}

/// Specification parser for a break_duration element starting at bit `pos`.
pub open spec fn spec_duration(b: Seq<u8>, pos: nat) -> Result<(SpliceDuration, nat), SpliceErr> {
    if pos + 40 > 8 * b.len() {
        Err(SpliceErr::NotEnoughData)
    } else {
        Ok(
            (
                SpliceDuration {
                    return_mode: if bits_value(b, pos, 1) == 1 {
                        ReturnMode::Automatic
                    } else {
                        ReturnMode::Manual
                    },
                    duration: bits_value(b, (pos + 7) as nat, 33) as u64,
                },
                (pos + 40) as nat,
            ),
        )
    }
}

/// Specification parser for `n` component splice entries starting at `pos`.
pub open spec fn spec_components(b: Seq<u8>, pos: nat, n: nat, immediate: bool) -> Result<
    (Seq<ComponentSplice>, nat),
    SpliceErr,
>
    decreases n,
{
    if n == 0 {
        Ok((Seq::<ComponentSplice>::empty(), pos))
    } else if pos + 8 > 8 * b.len() {
        Err(SpliceErr::NotEnoughData)
    } else {
        let tag = bits_value(b, pos, 8) as u8;
        let time_res: Result<(SpliceTime, nat), SpliceErr> = if immediate {
            Ok((SpliceTime::Immediate, (pos + 8) as nat))
        } else {
            match spec_splice_time(b, (pos + 8) as nat) {
                Ok((t, p)) => Ok((SpliceTime::Timed(t), p)),
                Err(e) => Err(e),
            }
        };
        match time_res {
            Err(e) => Err(e),
            Ok((st, p2)) => match spec_components(b, p2, (n - 1) as nat, immediate) {
                Err(e) => Err(e),
                Ok((rest, p3)) => Ok(
                    (
                        seq![ComponentSplice { component_tag: tag, splice_time: st }] + rest,
                        p3,
                    ),
                ),
            },
        }
    }
}

/// Specification parser for a whole splice_insert body.  Returns the decoded
/// command and the bit position after the last consumed field (for a
/// cancelled event that is right after the cancel flags; trailing bytes are
/// tolerated there).
pub open spec fn spec_splice_insert(b: Seq<u8>) -> Result<(SpliceCommandV, nat), SpliceErr> {
    if 8 * b.len() < 40 {
        Err(SpliceErr::NotEnoughData)
    } else {
        let splice_event_id = bits_value(b, 0, 32) as u32;
        if bits_value(b, 32, 1) == 1 {
            Ok(
                (
                    SpliceCommandV::SpliceInsert {
                        splice_event_id,
                        splice_detail: SpliceInsertDetailV::Cancel,
                    },
                    40,
                ),
            )
        } else if 8 * b.len() < 48 {
            Err(SpliceErr::NotEnoughData)
        } else {
            let network_indicator = if bits_value(b, 40, 1) == 1 {
                NetworkIndicator::Out
            } else {
                NetworkIndicator::In
            };
            let program_splice = bits_value(b, 41, 1) == 1;
            let duration_flag = bits_value(b, 42, 1) == 1;
            let immediate = bits_value(b, 43, 1) == 1;
            let mode_res: Result<(SpliceModeV, nat), SpliceErr> = if program_splice {
                if immediate {
                    Ok((SpliceModeV::Program(SpliceTime::Immediate), 48))
                } else {
                    match spec_splice_time(b, 48) {
                        Ok((t, p)) => Ok((SpliceModeV::Program(SpliceTime::Timed(t)), p)),
                        Err(e) => Err(e),
                    }
                }
            } else {
                if 8 * b.len() < 56 {
                    Err(SpliceErr::NotEnoughData)
                } else {
                    match spec_components(b, 56, bits_value(b, 48, 8), immediate) {
                        Ok((cs, p)) => Ok((SpliceModeV::Components(cs), p)),
                        Err(e) => Err(e),
                    }
                }
            };
            match mode_res {
                Err(e) => Err(e),
                Ok((splice_mode, p1)) => {
                    let dur_res: Result<(Option<SpliceDuration>, nat), SpliceErr> = if duration_flag {
                        match spec_duration(b, p1) {
                            Ok((d, p)) => Ok((Some(d), p)),
                            Err(e) => Err(e),
                        }
                    } else {
                        Ok((None, p1))
                    };
                    match dur_res {
                        Err(e) => Err(e),
                        Ok((duration, p2)) => {
                            if p2 + 32 > 8 * b.len() {
                                Err(SpliceErr::NotEnoughData)
                            } else {
                                Ok(
                                    (
                                        SpliceCommandV::SpliceInsert {
                                            splice_event_id,
                                            splice_detail: SpliceInsertDetailV::Insert {
                                                network_indicator,
                                                splice_mode,
                                                duration,
                                                unique_program_id: bits_value(b, p2, 16) as u16,
                                                avail_num: bits_value(b, (p2 + 16) as nat, 8) as u8,
                                                avails_expected: bits_value(
                                                    b,
                                                    (p2 + 24) as nat,
                                                    8,
                                                ) as u8,
                                            },
                                        },
                                        (p2 + 32) as nat,
                                    ),
                                )
                            }
                        },
                    }
                },
            }
        }
    }
}

/// Specification parser for a time_signal body.
pub open spec fn spec_time_signal(b: Seq<u8>) -> Result<(SpliceCommandV, nat), SpliceErr> {
    match spec_splice_time(b, 0) {
        Ok((t, p)) => Ok((SpliceCommandV::TimeSignal(SpliceTime::Timed(t)), p)),
        Err(e) => Err(e),
    }
}

/// The header fields as a function of the 88 bits starting at bit `base`.
pub open spec fn spec_splice_header(b: Seq<u8>, base: nat) -> SpliceInfoHeader {
    SpliceInfoHeader {
        protocol_version: bits_value(b, base, 8) as u8,
        encrypted_packet: bits_value(b, (base + 8) as nat, 1) == 1,
        encryption_algorithm: spec_encryption_algorithm(bits_value(b, (base + 9) as nat, 6) as u8),
        pts_adjustment: bits_value(b, (base + 15) as nat, 33) as u64,
        cw_index: bits_value(b, (base + 48) as nat, 8) as u8,
        tier: bits_value(b, (base + 56) as nat, 12) as u16,
        splice_command_length: bits_value(b, (base + 68) as nat, 12) as u16,
        splice_command_type: bits_value(b, (base + 80) as nat, 8) as u8,
    }
}

/// Read the 88-bit splice_info header at the reader's position.
pub fn parse_splice_header(r: &mut BitReader<'_>) -> (h: SpliceInfoHeader)
    requires
        old(r).wf(),
        old(r).spec_remaining() >= 88,
    ensures
        final(r).wf(),
        final(r).spec_data() == old(r).spec_data(),
        final(r).spec_pos() == old(r).spec_pos() + 88,
        h == spec_splice_header(old(r).spec_data(), old(r).spec_pos()),
{
    proof {
        lemma2_to64();
    }
    let protocol_version = r.read_bits(8) as u8;
    let encrypted_packet = r.read_bits(1) == 1;
    let encryption_algorithm = encryption_algorithm_from_id(r.read_bits(6) as u8);
    let pts_adjustment = r.read_bits(33);
    let cw_index = r.read_bits(8) as u8;
    let tier = r.read_bits(12) as u16;
    let splice_command_length = r.read_bits(12) as u16;
    let splice_command_type = r.read_bits(8) as u8;
    SpliceInfoHeader {
        protocol_version,
        encrypted_packet,
        encryption_algorithm,
        pts_adjustment,
        cw_index,
        tier,
        splice_command_length,
        splice_command_type,
    }
}

/// Read one splice_time element.
pub fn parse_splice_time(r: &mut BitReader<'_>) -> (res: Result<Option<u64>, SpliceErr>)
    requires
        old(r).wf(),
    ensures
        final(r).wf(),
        final(r).spec_data() == old(r).spec_data(),
        match res {
            Ok(t) => spec_splice_time(old(r).spec_data(), old(r).spec_pos()) == Ok::<
                _,
                SpliceErr,
            >((t, final(r).spec_pos())),
            Err(e) => spec_splice_time(old(r).spec_data(), old(r).spec_pos()) == Err::<
                (Option<u64>, nat),
                _,
            >(e),
        },
{
    if r.remaining() < 8 {
        return Err(SpliceErr::NotEnoughData);
    }
    if r.read_bits(1) == 1 {
        if r.remaining() < 39 {
            return Err(SpliceErr::NotEnoughData);
        }
        r.skip_bits(6);
        let t = r.read_bits(33);
        Ok(Some(t))
    } else {
        r.skip_bits(7);
        Ok(None)
    }
}

/// Read one break_duration element.
pub fn parse_duration(r: &mut BitReader<'_>) -> (res: Result<SpliceDuration, SpliceErr>)
    requires
        old(r).wf(),
    ensures
        final(r).wf(),
        final(r).spec_data() == old(r).spec_data(),
        match res {
            Ok(d) => spec_duration(old(r).spec_data(), old(r).spec_pos()) == Ok::<_, SpliceErr>(
                (d, final(r).spec_pos()),
            ),
            Err(e) => spec_duration(old(r).spec_data(), old(r).spec_pos()) == Err::<
                (SpliceDuration, nat),
                _,
            >(e),
        },
{
    if r.remaining() < 40 {
        return Err(SpliceErr::NotEnoughData);
    }
    let return_mode = if r.read_bits(1) == 1 {
        ReturnMode::Automatic
    } else {
        ReturnMode::Manual
    };
    r.skip_bits(6);
    let duration = r.read_bits(33);
    Ok(SpliceDuration { return_mode, duration })
}

/// Read `n` component splice entries.
pub fn parse_components(r: &mut BitReader<'_>, n: usize, immediate: bool) -> (res: Result<
    Vec<ComponentSplice>,
    SpliceErr,
>)
    requires
        old(r).wf(),
    ensures
        final(r).wf(),
        final(r).spec_data() == old(r).spec_data(),
        match res {
            Ok(cs) => spec_components(old(r).spec_data(), old(r).spec_pos(), n as nat, immediate)
                == Ok::<_, SpliceErr>((cs@, final(r).spec_pos())),
            Err(e) => spec_components(old(r).spec_data(), old(r).spec_pos(), n as nat, immediate)
                == Err::<(Seq<ComponentSplice>, nat), _>(e),
        },
{
    let ghost b = r.spec_data();
    let ghost pos0 = r.spec_pos();
    let mut acc: Vec<ComponentSplice> = Vec::new();
    let mut i: usize = 0;
    proof {
        lemma2_to64();
    }
    while i < n
        invariant
            r.wf(),
            r.spec_data() == b,
            b == old(r).spec_data(),
            pos0 == old(r).spec_pos(),
            i <= n,
            pow2(8) == 256,
            match spec_components(b, r.spec_pos(), (n - i) as nat, immediate) {
                Ok(pair) => spec_components(b, pos0, n as nat, immediate) == Ok::<_, SpliceErr>(
                    (acc@ + pair.0, pair.1),
                ),
                Err(e) => spec_components(b, pos0, n as nat, immediate) == Err::<
                    (Seq<ComponentSplice>, nat),
                    _,
                >(e),
            },
        decreases n - i,
    {
        let ghost posi = r.spec_pos();
        if r.remaining() < 8 {
            assert(spec_components(b, posi, (n - i) as nat, immediate) == Err::<
                (Seq<ComponentSplice>, nat),
                _,
            >(SpliceErr::NotEnoughData));
            return Err(SpliceErr::NotEnoughData);
        }
        let tag = r.read_bits(8) as u8;
        let st: SpliceTime;
        if immediate {
            st = SpliceTime::Immediate;
        } else {
            match parse_splice_time(r) {
                Ok(t) => {
                    st = SpliceTime::Timed(t);
                },
                Err(e) => {
                    assert(spec_components(b, posi, (n - i) as nat, immediate) == Err::<
                        (Seq<ComponentSplice>, nat),
                        _,
                    >(e));
                    return Err(e);
                },
            }
        }
        let c = ComponentSplice { component_tag: tag, splice_time: st };
        proof {
            assert(spec_components(b, posi, (n - i) as nat, immediate) == match spec_components(
                b,
                r.spec_pos(),
                (n - i - 1) as nat,
                immediate,
            ) {
                Ok((rest, p3)) => Ok::<_, SpliceErr>((seq![c] + rest, p3)),
                Err(e) => Err::<(Seq<ComponentSplice>, nat), _>(e),
            });
            if let Ok((rest, p3)) = spec_components(b, r.spec_pos(), (n - i - 1) as nat,
                immediate) {
                assert(acc@ + (seq![c] + rest) =~= (acc@ + seq![c]) + rest);
                assert((acc@ + seq![c]) =~= acc@.push(c));
            }
        }
        acc.push(c);
        i = i + 1;
    }
    proof {
        assert(spec_components(b, r.spec_pos(), 0, immediate) == Ok::<_, SpliceErr>(
            (Seq::<ComponentSplice>::empty(), r.spec_pos()),
        ));
        assert(acc@ + Seq::<ComponentSplice>::empty() =~= acc@);
    }
    Ok(acc)
}

/// Decode a splice_insert body; on success also returns the bit position
/// just after the last consumed field.
pub fn parse_splice_insert(body: &[u8]) -> (res: Result<(SpliceCommand, usize), SpliceErr>)
    requires
        8 * body@.len() < usize::MAX,
    ensures
        match res {
            Ok(p) => spec_splice_insert(body@) == Ok::<_, SpliceErr>((p.0@, p.1 as nat)),
            Err(e) => spec_splice_insert(body@) == Err::<(SpliceCommandV, nat), _>(e),
        },
{
    proof {
        lemma2_to64();
    }
    let mut r = BitReader::new(body);
    if r.remaining() < 40 {
        return Err(SpliceErr::NotEnoughData);
    }
    let splice_event_id = r.read_bits(32) as u32;
    let cancel = r.read_bits(1) == 1;
    if cancel {
        return Ok(
            (
                SpliceCommand::SpliceInsert {
                    splice_event_id,
                    splice_detail: SpliceInsertDetail::Cancel,
                },
                40,
            ),
        );
    }
    r.skip_bits(7);
    if r.remaining() < 8 {
        return Err(SpliceErr::NotEnoughData);
    }
    let network_indicator = if r.read_bits(1) == 1 {
        NetworkIndicator::Out
    } else {
        NetworkIndicator::In
    };
    let program_splice = r.read_bits(1) == 1;
    let duration_flag = r.read_bits(1) == 1;
    let immediate = r.read_bits(1) == 1;
    r.skip_bits(4);
    let splice_mode: SpliceMode;
    if program_splice {
        if immediate {
            splice_mode = SpliceMode::Program(SpliceTime::Immediate);
        } else {
            match parse_splice_time(&mut r) {
                Ok(t) => {
                    splice_mode = SpliceMode::Program(SpliceTime::Timed(t));
                },
                Err(e) => {
                    return Err(e);
                },
            }
        }
    } else {
        if r.remaining() < 8 {
            return Err(SpliceErr::NotEnoughData);
        }
        let count = r.read_bits(8) as usize;
        match parse_components(&mut r, count, immediate) {
            Ok(cs) => {
                splice_mode = SpliceMode::Components(cs);
            },
            Err(e) => {
                return Err(e);
            },
        }
    }
    let duration: Option<SpliceDuration>;
    if duration_flag {
        match parse_duration(&mut r) {
            Ok(d) => {
                duration = Some(d);
            },
            Err(e) => {
                return Err(e);
            },
        }
    } else {
        duration = None;
    }
    if r.remaining() < 32 {
        return Err(SpliceErr::NotEnoughData);
    }
    let unique_program_id = r.read_bits(16) as u16;
    let avail_num = r.read_bits(8) as u8;
    let avails_expected = r.read_bits(8) as u8;
    let end = r.position();
    Ok(
        (
            SpliceCommand::SpliceInsert {
                splice_event_id,
                splice_detail: SpliceInsertDetail::Insert {
                    network_indicator,
                    splice_mode,
                    duration,
                    unique_program_id,
                    avail_num,
                    avails_expected,
                },
            },
            end,
        ),
    )
}

/// Decode a time_signal body; on success also returns the bit position
/// after the splice_time element.
pub fn parse_time_signal(body: &[u8]) -> (res: Result<(SpliceCommand, usize), SpliceErr>)
    requires
        8 * body@.len() < usize::MAX,
    ensures
        match res {
            Ok(p) => spec_time_signal(body@) == Ok::<_, SpliceErr>((p.0@, p.1 as nat)),
            Err(e) => spec_time_signal(body@) == Err::<(SpliceCommandV, nat), _>(e),
        },
{
    let mut r = BitReader::new(body);
    match parse_splice_time(&mut r) {
        Ok(t) => Ok((SpliceCommand::TimeSignal(SpliceTime::Timed(t)), r.position())),
        Err(e) => Err(e),
    }
}

/// Specification decoder for a command body whose length was declared: the
/// command must account for the body exactly, except that a cancelled
/// splice_insert tolerates trailing bytes.
pub open spec fn spec_splice_command(ctype: u8, b: Seq<u8>) -> Result<SpliceCommandV, SpliceErr> {
    if ctype == 0x00 {
        if b.len() == 0 {
            Ok(SpliceCommandV::SpliceNull)
        } else {
            Err(SpliceErr::BodyNotEmpty)
        }
    } else if ctype == 0x04 {
        Ok(SpliceCommandV::SpliceSchedule(b))
    } else if ctype == 0x05 {
        match spec_splice_insert(b) {
            Err(e) => Err(e),
            Ok((c, end)) => {
                if c is SpliceInsert && c->SpliceInsert_splice_detail is Cancel {
                    Ok(c)
                } else if end == 8 * b.len() {
                    Ok(c)
                } else {
                    Err(SpliceErr::Alignment)
                }
            },
        }
    } else if ctype == 0x06 {
        match spec_time_signal(b) {
            Err(e) => Err(e),
            Ok((c, end)) => {
                if end == 8 * b.len() {
                    Ok(c)
                } else {
                    Err(SpliceErr::Alignment)
                }
            },
        }
    } else if ctype == 0x07 {
        if b.len() == 0 {
            Ok(SpliceCommandV::BandwidthReservation)
        } else {
            Err(SpliceErr::BodyNotEmpty)
        }
    } else if ctype == 0xff {
        Ok(SpliceCommandV::PrivateCommand(b))
    } else {
        Ok(SpliceCommandV::Reserved(ctype, b))
    }
}

/// Decode a command whose body slice is exactly the declared length.
pub fn parse_splice_command(ctype: u8, body: &[u8]) -> (res: Result<SpliceCommand, SpliceErr>)
    requires
        8 * body@.len() < usize::MAX,
    ensures
        match res {
            Ok(c) => spec_splice_command(ctype, body@) == Ok::<_, SpliceErr>(c@),
            Err(e) => spec_splice_command(ctype, body@) == Err::<SpliceCommandV, _>(e),
        },
{
    if ctype == 0x00 {
        if body.len() == 0 {
            Ok(SpliceCommand::SpliceNull)
        } else {
            Err(SpliceErr::BodyNotEmpty)
        }
    } else if ctype == 0x04 {
        Ok(SpliceCommand::SpliceSchedule(slice_to_vec(body)))
    } else if ctype == 0x05 {
        match parse_splice_insert(body) {
            Err(e) => Err(e),
            Ok((c, end)) => {
                let cancelled = match &c {
                    SpliceCommand::SpliceInsert { splice_detail, .. } => match splice_detail {
                        SpliceInsertDetail::Cancel => true,
                        _ => false,
                    },
                    _ => false,
                };
                if cancelled {
                    Ok(c)
                } else if end == 8 * body.len() {
                    Ok(c)
                } else {
                    Err(SpliceErr::Alignment)
                }
            },
        }
    } else if ctype == 0x06 {
        match parse_time_signal(body) {
            Err(e) => Err(e),
            Ok((c, end)) => {
                if end == 8 * body.len() {
                    Ok(c)
                } else {
                    Err(SpliceErr::Alignment)
                }
            },
        }
    } else if ctype == 0x07 {
        if body.len() == 0 {
            Ok(SpliceCommand::BandwidthReservation)
        } else {
            Err(SpliceErr::BodyNotEmpty)
        }
    } else if ctype == 0xff {
        Ok(SpliceCommand::PrivateCommand(slice_to_vec(body)))
    } else {
        Ok(SpliceCommand::Reserved(ctype, slice_to_vec(body)))
    }
}

/// One entry of the descriptor loop, surfaced as its tag and raw bytes.
#[derive(Debug, Clone, PartialEq, Eq)]
pub struct SpliceDescriptor {
    pub tag: u8,
    pub data: Vec<u8>,
}

/// Specification view of [`SpliceDescriptor`].
pub struct SpliceDescriptorV {
    pub tag: u8,
    pub data: Seq<u8>,
}

impl View for SpliceDescriptor {
    type V = SpliceDescriptorV;

    open spec fn view(&self) -> SpliceDescriptorV {
        SpliceDescriptorV { tag: self.tag, data: self.data@ }
    }
}

/// The views of a sequence of descriptors.
pub open spec fn descs_view(s: Seq<SpliceDescriptor>) -> Seq<SpliceDescriptorV> {
    s.map_values(|d: SpliceDescriptor| d@)
}

/// Specification parser for the descriptor loop from byte `i` onward.
pub open spec fn spec_descriptors_from(b: Seq<u8>, i: nat) -> Result<
    Seq<SpliceDescriptorV>,
    SpliceErr,
>
    decreases b.len() - i,
{
    if i >= b.len() {
        Ok(Seq::<SpliceDescriptorV>::empty())
    } else if i + 2 > b.len() {
        Err(SpliceErr::NotEnoughData)
    } else {
        let l = b[i as int + 1] as nat;
        if i + 2 + l > b.len() {
            Err(SpliceErr::NotEnoughData)
        } else {
            match spec_descriptors_from(b, i + 2 + l) {
                Err(e) => Err(e),
                Ok(rest) => Ok(
                    seq![
                        SpliceDescriptorV {
                            tag: b[i as int],
                            data: b.subrange(i as int + 2, (i + 2 + l) as int),
                        },
                    ] + rest,
                ),
            }
        }
    }
}

/// Specification parser for a whole descriptor loop.
pub open spec fn spec_descriptors(b: Seq<u8>) -> Result<Seq<SpliceDescriptorV>, SpliceErr> {
    spec_descriptors_from(b, 0)
}

/// Split a descriptor loop into its (tag, raw bytes) entries.
pub fn parse_descriptors(b: &[u8]) -> (res: Result<Vec<SpliceDescriptor>, SpliceErr>)
    ensures
        match res {
            Ok(ds) => spec_descriptors(b@) == Ok::<_, SpliceErr>(descs_view(ds@)),
            Err(e) => spec_descriptors(b@) == Err::<Seq<SpliceDescriptorV>, _>(e),
        },
{
    let mut acc: Vec<SpliceDescriptor> = Vec::new();
    let mut i: usize = 0;
    while i < b.len()
        invariant
            i <= b@.len(),
            match spec_descriptors_from(b@, i as nat) {
                Ok(rest) => spec_descriptors_from(b@, 0) == Ok::<_, SpliceErr>(
                    descs_view(acc@) + rest,
                ),
                Err(e) => spec_descriptors_from(b@, 0) == Err::<Seq<SpliceDescriptorV>, _>(e),
            },
        decreases b@.len() - i,
    {
        if b.len() - i < 2 {
            return Err(SpliceErr::NotEnoughData);
        }
        let l = b[i + 1] as usize;
        if b.len() - i - 2 < l {
            return Err(SpliceErr::NotEnoughData);
        }
        let d = SpliceDescriptor { tag: b[i], data: slice_to_vec(slice_subrange(b, i + 2, i + 2 + l)) };
        proof {
            let rest_res = spec_descriptors_from(b@, (i + 2 + l) as nat);
            if let Ok(rest) = rest_res {
                assert(descs_view(acc@.push(d)) =~= descs_view(acc@) + seq![d@]);
                assert((descs_view(acc@) + seq![d@]) + rest =~= descs_view(acc@) + (seq![d@]
                    + rest));
            }
        }
        acc.push(d);
        i = i + 2 + l;
    }
    proof {
        assert(descs_view(acc@) + Seq::<SpliceDescriptorV>::empty() =~= descs_view(acc@));
    }
    Ok(acc)
}

/// A fully decoded splice_info_section.
#[derive(Debug, Clone, PartialEq, Eq)]
pub struct SpliceInfoSection {
    pub header: SpliceInfoHeader,
    pub command: SpliceCommand,
    pub descriptors: Vec<SpliceDescriptor>,
}

/// Specification view of [`SpliceInfoSection`].
pub struct SpliceInfoSectionV {
    pub header: SpliceInfoHeader,
    pub command: SpliceCommandV,
    pub descriptors: Seq<SpliceDescriptorV>,
}

impl View for SpliceInfoSection {
    type V = SpliceInfoSectionV;

    open spec fn view(&self) -> SpliceInfoSectionV {
        SpliceInfoSectionV {
            header: self.header,
            command: self.command@,
            descriptors: descs_view(self.descriptors@),
        }
    }
}

/// Failure while decoding a splice_info_section.  All of these are local
/// to the one section: the stream continues afterwards.
#[derive(Debug, Clone, Copy, PartialEq, Eq, Structural)]
pub enum SectionErr {
    /// The buffer is shorter than the fields it must hold.
    NotEnoughData,
    /// The first byte is not the SCTE-35 table id 0xFC.
    BadTableId(u8),
    /// The buffer's length does not match the declared section_length.
    LengthMismatch,
    /// The CRC over the whole section is not zero.
    Crc,
    /// The section is encrypted with the reported algorithm; this crate
    /// recognises but does not decrypt it.
    Encrypted(EncryptionAlgorithm),
    /// splice_command_length exceeds the room left in the section.
    CommandTooLong,
    /// splice_command_length was the reserved "not specified" value and the
    /// command is opaque, so no length can be derived.
    UnknownCommandLength,
    /// descriptor_loop_length exceeds the room left in the section.
    DescriptorLoopTooLong,
    /// The command body failed to decode.
    Command(SpliceErr),
    /// An entry of the descriptor loop was truncated.
    Descriptor(SpliceErr),
}

/// The declared splice command region and its length in bytes, derived
/// from the splice_command_length field, or from the command itself when
/// that field holds the reserved value 0xFFF.
pub open spec fn spec_command_result(ctype: u8, length_field: u16, rest: Seq<u8>) -> Result<
    (SpliceCommandV, nat),
    SectionErr,
> {
    if length_field == 0xfff {
        if ctype == 0x00 {
            Ok((SpliceCommandV::SpliceNull, 0))
        } else if ctype == 0x07 {
            Ok((SpliceCommandV::BandwidthReservation, 0))
        } else if ctype == 0x05 {
            match spec_splice_insert(rest) {
                Ok((c, end)) => Ok((c, ((end + 7) / 8) as nat)),
                Err(e) => Err(SectionErr::Command(e)),
            }
        } else if ctype == 0x06 {
            match spec_time_signal(rest) {
                Ok((c, end)) => Ok((c, ((end + 7) / 8) as nat)),
                Err(e) => Err(SectionErr::Command(e)),
            }
        } else {
            Err(SectionErr::UnknownCommandLength)
        }
    } else if length_field as nat > rest.len() {
        Err(SectionErr::CommandTooLong)
    } else {
        match spec_splice_command(ctype, rest.subrange(0, length_field as int)) {
            Ok(c) => Ok((c, length_field as nat)),
            Err(e) => Err(SectionErr::Command(e)),
        }
    }
}

/// Specification decoder for a complete splice_info_section buffer,
/// trailing CRC included.
pub open spec fn spec_splice_section(data: Seq<u8>) -> Result<SpliceInfoSectionV, SectionErr> {
    if data.len() < 3 {
        Err(SectionErr::NotEnoughData)
    } else if bits_value(data, 0, 8) != 0xfc {
        Err(SectionErr::BadTableId(bits_value(data, 0, 8) as u8))
    } else if data.len() != 3 + bits_value(data, 12, 12) {
        Err(SectionErr::LengthMismatch)
    } else if crate::crc::crc32_mpeg(data) != 0 {
        Err(SectionErr::Crc)
    } else if data.len() < 18 {
        Err(SectionErr::NotEnoughData)
    } else {
        let header = spec_splice_header(data, 24);
        if header.encrypted_packet {
            Err(SectionErr::Encrypted(header.encryption_algorithm))
        } else {
            let rest = data.subrange(14, data.len() - 4);
            match spec_command_result(
                header.splice_command_type,
                header.splice_command_length,
                rest,
            ) {
                Err(e) => Err(e),
                Ok((command, consumed)) => {
                    if consumed + 2 > rest.len() {
                        Err(SectionErr::NotEnoughData)
                    } else {
                        let dll = (rest[consumed as int] as nat) * 256 + rest[
                            consumed as int + 1
                        ] as nat;
                        if consumed + 2 + dll > rest.len() {
                            Err(SectionErr::DescriptorLoopTooLong)
                        } else {
                            match spec_descriptors(
                                rest.subrange(consumed as int + 2, (consumed + 2 + dll) as int),
                            ) {
                                Err(e) => Err(SectionErr::Descriptor(e)),
                                Ok(descriptors) => Ok(
                                    SpliceInfoSectionV { header, command, descriptors },
                                ),
                            }
                        }
                    }
                },
            }
        }
    }
}

/// Decode a complete splice_info_section buffer (trailing CRC included),
/// as handed over by the section reassembler or given on the command line.
pub fn decode_splice_section(data: &[u8]) -> (res: Result<SpliceInfoSection, SectionErr>)
    requires
        8 * data@.len() < usize::MAX,
    ensures
        match res {
            Ok(s) => spec_splice_section(data@) == Ok::<_, SectionErr>(s@),
            Err(e) => spec_splice_section(data@) == Err::<SpliceInfoSectionV, _>(e),
        },
{
    proof {
        lemma2_to64();
    }
    if data.len() < 3 {
        return Err(SectionErr::NotEnoughData);
    }
    let mut r = BitReader::new(data);
    let table_id = r.read_bits(8) as u8;
    if table_id != 0xfc {
        return Err(SectionErr::BadTableId(table_id));
    }
    r.skip_bits(4);
    let section_length = r.read_bits(12) as usize;
    if data.len() != 3 + section_length {
        return Err(SectionErr::LengthMismatch);
    }
    if crate::crc::crc32(data) != 0 {
        return Err(SectionErr::Crc);
    }
    if data.len() < 18 {
        return Err(SectionErr::NotEnoughData);
    }
    let header = parse_splice_header(&mut r);
    if header.encrypted_packet {
        return Err(SectionErr::Encrypted(header.encryption_algorithm));
    }
    let rest = slice_subrange(data, 14, data.len() - 4);
    let command: SpliceCommand;
    let consumed: usize;
    if header.splice_command_length == 0xfff {
        if header.splice_command_type == 0x00 {
            command = SpliceCommand::SpliceNull;
            consumed = 0;
        } else if header.splice_command_type == 0x07 {
            command = SpliceCommand::BandwidthReservation;
            consumed = 0;
        } else if header.splice_command_type == 0x05 {
            match parse_splice_insert(rest) {
                Ok((c, end)) => {
                    command = c;
                    consumed = (end + 7) / 8;
                },
                Err(e) => {
                    return Err(SectionErr::Command(e));
                },
            }
        } else if header.splice_command_type == 0x06 {
            match parse_time_signal(rest) {
                Ok((c, end)) => {
                    command = c;
                    consumed = (end + 7) / 8;
                },
                Err(e) => {
                    return Err(SectionErr::Command(e));
                },
            }
        } else {
            return Err(SectionErr::UnknownCommandLength);
        }
    } else {
        let cl = header.splice_command_length as usize;
        if cl > rest.len() {
            return Err(SectionErr::CommandTooLong);
        }
        match parse_splice_command(header.splice_command_type, slice_subrange(rest, 0, cl)) {
            Ok(c) => {
                command = c;
                consumed = cl;
            },
            Err(e) => {
                return Err(SectionErr::Command(e));
            },
        }
    }
    if consumed > rest.len() || rest.len() - consumed < 2 {
        return Err(SectionErr::NotEnoughData);
    }
    let dll = (rest[consumed] as usize) * 256 + (rest[consumed + 1] as usize);
    if rest.len() - consumed - 2 < dll {
        return Err(SectionErr::DescriptorLoopTooLong);
    }
    match parse_descriptors(slice_subrange(rest, consumed + 2, consumed + 2 + dll)) {
        Err(e) => Err(SectionErr::Descriptor(e)),
        Ok(descriptors) => Ok(SpliceInfoSection { header, command, descriptors }),
    }
}

} // verus!

// The encoders below produce the byte form of a splice_insert, proved to
// decode back to exactly the fields that were encoded.

verus! {

/// The 6-bit identifier a canonical [`EncryptionAlgorithm`] encodes to.
pub open spec fn spec_encryption_algorithm_id(a: EncryptionAlgorithm) -> u8 {
    match a {
        EncryptionAlgorithm::NotEncrypted => 0,
        EncryptionAlgorithm::DesEcb => 1,
        EncryptionAlgorithm::DesCbc => 2,
        EncryptionAlgorithm::TripleDesEde3Ecb => 3,
        EncryptionAlgorithm::Reserved(id) => id,
        EncryptionAlgorithm::Private(id) => id,
    }
}

/// The algorithm values that a 6-bit field can actually carry.
pub open spec fn encryption_algorithm_canonical(a: EncryptionAlgorithm) -> bool {
    match a {
        EncryptionAlgorithm::Reserved(id) => 4 <= id && id < 32,
        EncryptionAlgorithm::Private(id) => 32 <= id && id < 64,
        _ => true,
    }
}

/// Encoding the identifier and mapping it back is the identity on
/// canonical algorithm values.
pub proof fn lemma_encryption_algorithm_roundtrip(a: EncryptionAlgorithm)
    requires
        encryption_algorithm_canonical(a),
    ensures
        spec_encryption_algorithm(spec_encryption_algorithm_id(a)) == a,
{
}

pub fn encryption_algorithm_id(a: EncryptionAlgorithm) -> (r: u8)
    ensures
        r == spec_encryption_algorithm_id(a),
{
    match a {
        EncryptionAlgorithm::NotEncrypted => 0,
        EncryptionAlgorithm::DesEcb => 1,
        EncryptionAlgorithm::DesCbc => 2,
        EncryptionAlgorithm::TripleDesEde3Ecb => 3,
        EncryptionAlgorithm::Reserved(id) => id,
        EncryptionAlgorithm::Private(id) => id,
    }
}

/// Encode the 11-byte splice_info header.  Decoding the result yields the
/// given header exactly.
#[verifier::rlimit(60)]
pub fn encode_splice_header(h: &SpliceInfoHeader) -> (out: Vec<u8>)
    requires
        h.pts_adjustment < 0x2_0000_0000,
        h.tier < 0x1000,
        h.splice_command_length < 0x1000,
        encryption_algorithm_canonical(h.encryption_algorithm),
    ensures
        out@.len() == 11,
        spec_splice_header(out@, 0) == *h,
{
    let aid: u8 = encryption_algorithm_id(h.encryption_algorithm);
    proof {
        lemma_encryption_algorithm_roundtrip(h.encryption_algorithm);
        assert(aid < 64);
    }
    let pa: u64 = h.pts_adjustment;
    let tr: u16 = h.tier;
    let cl: u16 = h.splice_command_length;
    let eb: u8 = if h.encrypted_packet { 0x80 } else { 0 };
    let top: u8 = ((pa >> 32) as u8) & 1;
    proof {
        assert(((pa >> 32) as u8) & 1 <= 1) by (bit_vector);
    }
    let b1: u8 = eb | (aid << 1) | top;
    let b2: u8 = ((pa >> 24) & 0xff) as u8;
    let b3: u8 = ((pa >> 16) & 0xff) as u8;
    let b4: u8 = ((pa >> 8) & 0xff) as u8;
    let b5: u8 = (pa & 0xff) as u8;
    let b7: u8 = (tr >> 4) as u8;
    let b8: u8 = (((tr & 0xf) << 4) as u8) | ((cl >> 8) as u8);
    let b9: u8 = (cl & 0xff) as u8;
    let out: Vec<u8> = vec![
        h.protocol_version,
        b1,
        b2,
        b3,
        b4,
        b5,
        h.cw_index,
        b7,
        b8,
        b9,
        h.splice_command_type,
    ];
    proof {
        let b = out@;
        lemma2_to64();
        lemma_bits_value_byte(b, 0);
        lemma_bits_value_byte(b, 1);
        lemma_bits_value_byte(b, 6);
        lemma_bits_value_byte(b, 7);
        lemma_bits_value_byte(b, 8);
        lemma_bits_value_byte(b, 9);
        lemma_bits_value_byte(b, 10);
        // byte 1 = encrypted(1) | algorithm(6) | pts top bit(1)
        lemma_bits_value_split(b, 8, 1, 7);
        lemma_bits_value_split(b, 9, 6, 1);
        lemma_bits_value_bound(b, 8, 1);
        lemma_bits_value_bound(b, 9, 6);
        lemma_bits_value_bound(b, 15, 1);
        let e = bits_value(b, 8, 1);
        let a6 = bits_value(b, 9, 6);
        let t = bits_value(b, 15, 1);
        assert(b1 == e * 128 + a6 * 2 + t);
        assert(b1 == (if eb == 0x80u8 { 128nat } else { 0nat }) + (aid as nat) * 2
            + top) by (bit_vector)
            requires
                aid < 64,
                top <= 1,
                eb == 0x80u8 || eb == 0u8,
                b1 == eb | (aid << 1) | top,
        ;
        assert(e == (if h.encrypted_packet { 1nat } else { 0nat }) && a6 == aid && t == top);
        // pts_adjustment: 33 bits ending byte 5
        lemma_bits_value_time33(b, 1);
        assert(b1 & 1 == top) by (bit_vector)
            requires
                aid < 64,
                top <= 1,
                eb == 0x80u8 || eb == 0u8,
                b1 == eb | (aid << 1) | top,
        ;
        assert((pa >> 24) & 0xff < 256 && (pa >> 16) & 0xff < 256 && (pa >> 8) & 0xff < 256 && (pa
            & 0xff) < 256) by (bit_vector);
        assert((top as u64) * 0x1_0000_0000 + ((pa >> 24) & 0xff) * 0x100_0000 + ((pa >> 16)
            & 0xff) * 0x1_0000 + ((pa >> 8) & 0xff) * 0x100 + (pa & 0xff) == pa) by (bit_vector)
            requires
                pa < 0x2_0000_0000,
                top == ((pa >> 32) as u8) & 1,
        ;
        assert(bits_value(b, 15, 33) == pa);
        // tier(12) then splice_command_length(12) across bytes 7..10
        lemma_bits_value_split(b, 56, 8, 4);
        lemma_bits_value_split(b, 56, 12, 12);
        lemma_bits_value_split(b, 68, 4, 8);
        lemma_bits_value_split(b, 64, 4, 4);
        lemma_bits_value_bound(b, 64, 4);
        lemma_bits_value_bound(b, 68, 4);
        let m1 = bits_value(b, 64, 4);
        let m2 = bits_value(b, 68, 4);
        assert(b8 == m1 * 16 + m2);
        assert(b8 == (tr & 0xf) * 16 + (cl >> 8)) by (bit_vector)
            requires
                tr < 0x1000,
                cl < 0x1000,
                b8 == (((tr & 0xf) << 4) as u8) | ((cl >> 8) as u8),
        ;
        assert((cl >> 8u16) < 16 && (tr & 0xfu16) < 16) by (bit_vector)
            requires
                cl < 0x1000,
        ;
        assert(m1 == tr & 0xf);
        assert(m2 == cl >> 8);
        assert((tr >> 4u16) * 16 + (tr & 0xf) == tr) by (bit_vector)
            requires
                tr < 0x1000,
        ;
        assert((cl >> 8u16) * 256 + (cl & 0xff) == cl && (cl & 0xff) < 256) by (bit_vector)
            requires
                cl < 0x1000,
        ;
        assert(bits_value(b, 56, 12) == tr);
        assert(bits_value(b, 68, 12) == cl);
        assert(spec_splice_header(b, 0) == *h);
    }
    out
}

/// Encode a splice_insert command body in program mode, with a specified
/// splice time and a break duration.  The `ensures` clause is the
/// round-trip law: decoding the produced bytes yields back exactly the
/// fields that were encoded.
#[verifier::rlimit(100)]
pub fn encode_splice_insert(
    splice_event_id: u32,
    network_indicator: NetworkIndicator,
    pts_time: u64,
    duration: SpliceDuration,
    unique_program_id: u16,
    avail_num: u8,
    avails_expected: u8,
) -> (out: Vec<u8>)
    requires
        pts_time < 0x2_0000_0000,
        duration.duration < 0x2_0000_0000,
    ensures
        out@.len() == 20,
        spec_splice_command(0x05, out@) == Ok::<_, SpliceErr>(
            SpliceCommandV::SpliceInsert {
                splice_event_id,
                splice_detail: SpliceInsertDetailV::Insert {
                    network_indicator,
                    splice_mode: SpliceModeV::Program(SpliceTime::Timed(Some(pts_time))),
                    duration: Some(duration),
                    unique_program_id,
                    avail_num,
                    avails_expected,
                },
            },
        ),
{
    let e = splice_event_id;
    let b0: u8 = ((e >> 24) & 0xff) as u8;
    let b1: u8 = ((e >> 16) & 0xff) as u8;
    let b2: u8 = ((e >> 8) & 0xff) as u8;
    let b3: u8 = (e & 0xff) as u8;
    let b5: u8 = match network_indicator {
        NetworkIndicator::Out => 0xef,
        NetworkIndicator::In => 0x6f,
    };
    let ptop: u8 = ((pts_time >> 32) as u8) & 1;
    proof {
        assert(((pts_time >> 32) as u8) & 1 <= 1) by (bit_vector);
    }
    let b6: u8 = 0xfe | ptop;
    let b7: u8 = ((pts_time >> 24) & 0xff) as u8;
    let b8: u8 = ((pts_time >> 16) & 0xff) as u8;
    let b9: u8 = ((pts_time >> 8) & 0xff) as u8;
    let b10: u8 = (pts_time & 0xff) as u8;
    let d = duration.duration;
    let dtop: u8 = ((d >> 32) as u8) & 1;
    proof {
        assert(((d >> 32) as u8) & 1 <= 1) by (bit_vector);
    }
    let auto: u8 = match duration.return_mode {
        ReturnMode::Automatic => 0x80,
        ReturnMode::Manual => 0,
    };
    let b11: u8 = auto | 0x7e | dtop;
    let b12: u8 = ((d >> 24) & 0xff) as u8;
    let b13: u8 = ((d >> 16) & 0xff) as u8;
    let b14: u8 = ((d >> 8) & 0xff) as u8;
    let b15: u8 = (d & 0xff) as u8;
    let b16: u8 = (unique_program_id >> 8) as u8;
    let b17: u8 = (unique_program_id & 0xff) as u8;
    let out: Vec<u8> = vec![
        b0,
        b1,
        b2,
        b3,
        0x7f,
        b5,
        b6,
        b7,
        b8,
        b9,
        b10,
        b11,
        b12,
        b13,
        b14,
        b15,
        b16,
        b17,
        avail_num,
        avails_expected,
    ];
    proof {
        let b = out@;
        lemma2_to64();
        assert(b.len() == 20);
        // splice_event_id
        lemma_bits_value_u32(b, 0);
        assert((e >> 24) & 0xff < 256 && (e >> 16) & 0xff < 256 && (e >> 8) & 0xff < 256 && (e
            & 0xff) < 256) by (bit_vector);
        assert(((e >> 24) & 0xff) * 0x100_0000 + ((e >> 16) & 0xff) * 0x1_0000 + ((e >> 8) & 0xff)
            * 0x100 + (e & 0xff) == e) by (bit_vector);
        assert(bits_value(b, 0, 32) == e);
        // cancel flag is clear
        lemma_bits_value_one(b, 32);
        lemma_bit_at_byte(b, 4, 0);
        assert((0x7fu8 >> 7u8) & 1 == 0) by (bit_vector);
        // flag nibble in byte 5
        lemma_bits_value_one(b, 40);
        lemma_bits_value_one(b, 41);
        lemma_bits_value_one(b, 42);
        lemma_bits_value_one(b, 43);
        lemma_bit_at_byte(b, 5, 0);
        lemma_bit_at_byte(b, 5, 1);
        lemma_bit_at_byte(b, 5, 2);
        lemma_bit_at_byte(b, 5, 3);
        assert((0xefu8 >> 7u8) & 1 == 1 && (0x6fu8 >> 7u8) & 1 == 0 && (0xefu8 >> 6u8) & 1 == 1 && (
        0x6fu8 >> 6u8) & 1 == 1 && (0xefu8 >> 5u8) & 1 == 1 && (0x6fu8 >> 5u8) & 1 == 1 && (0xefu8
            >> 4u8) & 1 == 0 && (0x6fu8 >> 4u8) & 1 == 0) by (bit_vector);
        // splice_time at bit 48: time_specified set, 33-bit pts
        lemma_bits_value_one(b, 48);
        lemma_bit_at_byte(b, 6, 0);
        assert(((0xfeu8 | ptop) >> 7u8) & 1 == 1 && (0xfeu8 | ptop) & 1 == ptop) by (bit_vector)
            requires
                ptop <= 1,
        ;
        lemma_bits_value_time33(b, 6);
        assert((pts_time >> 24) & 0xff < 256 && (pts_time >> 16) & 0xff < 256 && (pts_time >> 8)
            & 0xff < 256 && (pts_time & 0xff) < 256) by (bit_vector);
        assert((ptop as u64) * 0x1_0000_0000 + ((pts_time >> 24) & 0xff) * 0x100_0000 + ((pts_time
            >> 16) & 0xff) * 0x1_0000 + ((pts_time >> 8) & 0xff) * 0x100 + (pts_time & 0xff)
            == pts_time) by (bit_vector)
            requires
                pts_time < 0x2_0000_0000,
                ptop == ((pts_time >> 32) as u8) & 1,
        ;
        assert(bits_value(b, 55, 33) == pts_time);
        assert(spec_splice_time(b, 48) == Ok::<_, SpliceErr>((Some(pts_time), 88nat)));
        // break_duration at bit 88
        lemma_bits_value_one(b, 88);
        lemma_bit_at_byte(b, 11, 0);
        assert(((auto | 0x7eu8 | dtop) >> 7u8) & 1 == (auto >> 7u8) & 1 && (auto | 0x7eu8 | dtop)
            & 1 == dtop && (0x80u8 >> 7u8) & 1 == 1 && (0u8 >> 7u8) & 1 == 0) by (bit_vector)
            requires
                dtop <= 1,
                auto == 0x80u8 || auto == 0u8,
        ;
        lemma_bits_value_time33(b, 11);
        assert((d >> 24) & 0xff < 256 && (d >> 16) & 0xff < 256 && (d >> 8) & 0xff < 256 && (d
            & 0xff) < 256) by (bit_vector);
        assert((dtop as u64) * 0x1_0000_0000 + ((d >> 24) & 0xff) * 0x100_0000 + ((d >> 16) & 0xff)
            * 0x1_0000 + ((d >> 8) & 0xff) * 0x100 + (d & 0xff) == d) by (bit_vector)
            requires
                d < 0x2_0000_0000,
                dtop == ((d >> 32) as u8) & 1,
        ;
        assert(bits_value(b, 95, 33) == d);
        assert(spec_duration(b, 88) == Ok::<_, SpliceErr>(
            (SpliceDuration { return_mode: duration.return_mode, duration: d }, 128nat),
        ));
        // unique_program_id, avail_num, avails_expected
        lemma_bits_value_u16(b, 16);
        assert((unique_program_id >> 8u16) * 0x100 + (unique_program_id & 0xff)
            == unique_program_id && (unique_program_id >> 8u16) < 256 && (unique_program_id
            & 0xff) < 256) by (bit_vector);
        lemma_bits_value_byte(b, 18);
        lemma_bits_value_byte(b, 19);
        assert(bits_value(b, 144, 8) == avail_num);
        assert(bits_value(b, 152, 8) == avails_expected);
        assert(spec_splice_insert(b) == Ok::<_, SpliceErr>(
            (
                SpliceCommandV::SpliceInsert {
                    splice_event_id,
                    splice_detail: SpliceInsertDetailV::Insert {
                        network_indicator,
                        splice_mode: SpliceModeV::Program(SpliceTime::Timed(Some(pts_time))),
                        duration: Some(duration),
                        unique_program_id,
                        avail_num,
                        avails_expected,
                    },
                },
                160nat,
            ),
        ));
    }
    out
}

} // verus!

// A convenience entry for the bare header-plus-body form, used by the
// round-trip path: the artifact produced by the encoders above.

verus! {

/// Specification decoder for an 11-byte header followed directly by the
/// whole command body.
pub open spec fn spec_splice_info(data: Seq<u8>) -> Result<
    (SpliceInfoHeader, SpliceCommandV),
    SpliceErr,
> {
    if data.len() < 11 {
        Err(SpliceErr::NotEnoughData)
    } else {
        let h = spec_splice_header(data, 0);
        match spec_splice_command(h.splice_command_type, data.subrange(11, data.len() as int)) {
            Ok(c) => Ok((h, c)),
            Err(e) => Err(e),
        }
    }
}

/// Decode an 88-bit splice_info header followed directly by its command
/// body (no section wrapper, no CRC).
pub fn decode_splice_info(data: &[u8]) -> (res: Result<(SpliceInfoHeader, SpliceCommand), SpliceErr>)
    requires
        8 * data@.len() < usize::MAX,
    ensures
        match res {
            Ok(p) => spec_splice_info(data@) == Ok::<_, SpliceErr>((p.0, p.1@)),
            Err(e) => spec_splice_info(data@) == Err::<(SpliceInfoHeader, SpliceCommandV), _>(e),
        },
{
    if data.len() < 11 {
        return Err(SpliceErr::NotEnoughData);
    }
    let mut r = BitReader::new(data);
    let h = parse_splice_header(&mut r);
    let body = slice_subrange(data, 11, data.len());
    match parse_splice_command(h.splice_command_type, body) {
        Ok(c) => Ok((h, c)),
        Err(e) => Err(e),
    }
}

} // verus!
