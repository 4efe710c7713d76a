//! The card's matrix-multiply kernels, as assembly for its worker.
pub mod copy;
pub mod dot;
pub mod dot_runs;
pub mod dots;
pub mod file;
pub mod glu;
pub mod listing;
pub mod machine;
pub mod measure;
pub mod quant;
pub mod quant_aligned;
pub mod quant_kernels;
pub mod quant_laws;
pub mod quant_runs;
pub mod quant_tables;
pub mod quant_text;
pub mod runs;
pub mod swiglu;
pub mod swiglu_edge;
pub mod vector;
