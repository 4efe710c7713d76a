//! Sharing a program's matrix multiplies between the host and the cards.
pub mod maps;
pub mod plan;
pub mod share;
pub mod judge;
pub mod ffn;
pub mod answers;
