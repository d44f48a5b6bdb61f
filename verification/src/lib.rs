//! Extraction of SCTE-35 ad-insertion signalling from MPEG transport streams.
//!
//! The crate demultiplexes 188-byte transport-stream packets, reassembles
//! PSI sections across packet boundaries, and decodes SCTE-35
//! splice_info sections bit-exactly.  A network ingest layer tracks RTP
//! sequence continuity and recovers lost packets through two-dimensional
//! XOR parity.

pub mod bits;
pub mod crc;
pub mod splice;
pub mod section;
pub mod psi;
pub mod pcr;
pub mod rtp;
pub mod demux;
pub mod fec;
pub mod fec_laws;
pub mod cli;
pub mod literal;
pub mod ingest;
