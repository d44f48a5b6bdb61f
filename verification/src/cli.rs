//! The validated commands the tool runs: read from the network, read
//! from a file, or decode one section literal.  Argument parsing itself
//! lives outside the library; these are the shapes it must produce and
//! the validation rules it must obey.

use vstd::prelude::*;
use vstd::string::StringSliceAdditionalSpecFns;

verus! {

/// Forward error correction styles the network reader supports.
#[derive(Debug, Clone, Copy, PartialEq, Eq, Structural)]
pub enum Fec {
    ProMpeg,
}

/// An unsupported forward error correction mode was named.
#[derive(Debug, Clone, PartialEq, Eq)]
pub struct FecErr(String);

impl FecErr {
    /// The mode string that was rejected.
    pub fn mode_text(&self) -> (r: &String)
        ensures
            r@ == self@,
    {
        &self.0
    }
}

impl View for FecErr {
    type V = Seq<char>;

    closed spec fn view(&self) -> Seq<char> {
        self.0@
    }
}

/// The bytes of the only accepted FEC mode name, "prompeg".
pub open spec fn spec_prompeg_bytes() -> Seq<u8> {
    seq![0x70u8, 0x72u8, 0x6fu8, 0x6du8, 0x70u8, 0x65u8, 0x67u8]
}

/// Byte-wise equality of two slices.
pub fn bytes_eq(a: &[u8], b: &[u8]) -> (r: bool)
    ensures
        r == (a@ == b@),
{
    if a.len() != b.len() {
        proof {
            assert(a@.len() != b@.len());
        }
        return false;
    }
    let mut i: usize = 0;
    while i < a.len()
        invariant
            i <= a@.len(),
            a@.len() == b@.len(),
            forall|k: int| 0 <= k < i ==> a@[k] == b@[k],
        decreases a@.len() - i,
    {
        if a[i] != b[i] {
            return false;
        }
        i = i + 1;
    }
    proof {
        assert(a@ =~= b@);
    }
    true
}

impl Fec {
    /// Parse a FEC mode name: only "prompeg" is supported; anything
    /// else is reported back verbatim.
    pub fn from_str(s: &str) -> (r: Result<Fec, FecErr>)
        ensures
            r is Ok <==> s.spec_bytes() == spec_prompeg_bytes(),
            r matches Ok(f) ==> f == Fec::ProMpeg,
            r matches Err(e) ==> e@ == s@,
    {
        let lit: [u8; 7] = [0x70, 0x72, 0x6f, 0x6d, 0x70, 0x65, 0x67];
        proof {
            assert(lit@ =~= spec_prompeg_bytes());
        }
        if bytes_eq(s.as_bytes(), lit.as_slice()) {
            Ok(Fec::ProMpeg)
        } else {
            Err(FecErr(s.to_owned()))
        }
    }
}

/// Read a transport stream from the network.
#[derive(Debug, Clone, PartialEq, Eq)]
pub struct NetCmd {
    /// UDP port to bind to.
    pub port: u16,
    /// Multicast group to join.
    pub mcast: Option<String>,
    /// Address of the interface to be joined to a multicast group.
    pub ifaddr: Option<String>,
    /// Style of forward error correction (none if omitted).
    pub fec: Option<Fec>,
    /// Transport stream carried directly over UDP (RTP otherwise).
    pub udp: bool,
}

impl NetCmd {
    /// The two extra ports the ProMPEG parity streams arrive on:
    /// column parity two above the media port, row parity four above.
    pub fn fec_ports(&self) -> (r: Option<(u16, u16)>)
        ensures
            r is Some <==> self.port + 4 <= u16::MAX,
            r matches Some(p) ==> p.0 == self.port + 2 && p.1 == self.port + 4,
    {
        if self.port <= u16::MAX - 4 {
            Some((self.port + 2, self.port + 4))
        } else {
            None
        }
    }
}

/// Read a transport stream from the named file.
#[derive(Debug, Clone, PartialEq, Eq)]
pub struct FileCmd {
    /// The transport stream file name.
    pub name: String,
}

/// Decode a single splice_info section value given on the command line.
#[derive(Debug, Clone, PartialEq, Eq)]
pub struct SectCmd {
    /// The provided section data is hexadecimal encoded.
    pub hex: bool,
    /// The provided section data is base64 encoded.
    pub base64: bool,
    /// The section value itself.
    pub value: String,
}

/// One of the three things a run does.
#[derive(Debug, Clone, PartialEq, Eq)]
pub enum CommandSpec {
    Net(NetCmd),
    File(FileCmd),
    Section(SectCmd),
}

/// How a section literal on the command line is encoded.
#[derive(Debug, Clone, Copy, PartialEq, Eq, Structural)]
pub enum SectionEncoding {
    Hex,
    Base64,
}

/// The encoding flags were not exactly one of hex and base64.
#[derive(Debug, Clone, Copy, PartialEq, Eq, Structural)]
pub enum EncodingChoiceErr {
    /// Both encodings were requested at once.
    Both,
    /// Neither encoding was requested.
    Neither,
}

/// Exactly one of the two encodings must be chosen.
pub fn section_encoding(use_hex: bool, use_base64: bool) -> (r: Result<
    SectionEncoding,
    EncodingChoiceErr,
>)
    ensures
        use_hex && use_base64 ==> r == Err::<SectionEncoding, _>(EncodingChoiceErr::Both),
        !use_hex && !use_base64 ==> r == Err::<SectionEncoding, _>(EncodingChoiceErr::Neither),
        use_hex && !use_base64 ==> r == Ok::<_, EncodingChoiceErr>(SectionEncoding::Hex),
        !use_hex && use_base64 ==> r == Ok::<_, EncodingChoiceErr>(SectionEncoding::Base64),
{
    if use_hex && use_base64 {
        Err(EncodingChoiceErr::Both)
    } else if !use_hex && !use_base64 {
        Err(EncodingChoiceErr::Neither)
    } else if use_hex {
        Ok(SectionEncoding::Hex)
    } else {
        Ok(SectionEncoding::Base64)
    }
}

} // verus!
