//! Encoder for a subset of the Knights Corner vector instruction set.
//!
//! No assembler in this stack knows the card's 512-bit vector unit: its
//! instructions use the MVEX prefix, a four-byte prefix starting with 62H
//! that predates and differs from AVX-512's EVEX (ISA reference 327364-001,
//! section 3.3). The functions here produce the bytes for the instructions
//! the project needs, so that they can be emitted as `.byte` lines into
//! otherwise ordinary assembly.
pub mod conv;
pub mod encode;
pub mod plain;
pub mod predicate;
pub mod reg;
pub mod transc;
pub mod laws;
