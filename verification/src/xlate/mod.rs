//! AVX-512 (EVEX) instructions rewritten into Knights Corner (MVEX) ones.
pub mod arith;
pub mod bytewise;
pub mod bytewise_results;
pub mod choice_results;
pub mod card;
pub mod code;
pub mod compare_results;
pub mod convert;
pub mod convert_results;
pub mod divide;
pub mod em;
pub mod ev;
pub mod insn;
pub mod integer_results;
pub mod lane_results;
pub mod laws;
pub mod layout;
pub mod meaning;
pub mod mask;
pub mod mask_move_results;
pub mod mask_results;
pub mod memory_results;
pub mod mnemonic;
pub mod operand_results;
pub mod permute;
pub mod permute_results;
pub mod prog;
pub mod results;
pub mod rewrite;
pub mod scalar_results;
pub mod shuffle;
pub mod sparing;
pub mod table;
pub mod translate;
pub mod widening_results;
pub mod exact;
pub mod divide_results;
