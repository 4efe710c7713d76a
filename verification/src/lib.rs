//! Running AVX-512 code on a Knights Corner card, and sharing work with it.
//!
//! - [`mvex`]: the card's vector instructions, encoded.
//! - [`xlate`]: AVX-512 instructions rewritten into them, one for one where
//!   the card has the instruction and as an out-of-line sequence elsewhere.
//! - [`kernelgen`]: the card's kernels, written with the encoders.
//! - [`vpu`]: the shared window, its requests, and the matrices in it.
//! - [`ggml`]: which rows of a layer a card takes, and whether that pays.
//! - [`bits`] and [`text`]: little-endian words, and numbers as text.
pub mod bits;
pub mod ggml;
pub mod kernelgen;
pub mod mvex;
pub mod text;
pub mod vpu;
pub mod xlate;
