//! The whole file of kernels that the card's worker is built with.
use crate::kernelgen::dot;
use crate::kernelgen::glu;
use crate::kernelgen::listing::{Asm, Listing};
use crate::kernelgen::measure;
use crate::kernelgen::quant;
use vstd::prelude::*;

verus! {

/// The file: the dot products, the quantized kernels, the SwiGLU
/// and the two measuring kernels, as one assembly source.
pub open spec fn kernel_file_listing() -> Listing {
    Listing::empty()
        .lit("# vpu_matmul_kernel.S: generated by `cargo run -p phi-vpu --bin kernelgen`; do not edit.\n"@)
        .lit("# The dot-product kernels of the card's matrix multiply (vpu_matmul.c). MVEX\n"@)
        .lit("# instructions are bytes from knc-mvex; the scalar scaffolding is plain x86-64.\n"@)
        .lit("    .text\n"@)
        .lit(dot::kernel_listing("phi_dot_f16"@, true).s)
        .lit(dot::kernel_listing("phi_dot_f32"@, false).s)
        .lit(dot::kernel4_listing("phi_dot4_f16"@, true).s)
        .lit(dot::kernel4_listing("phi_dot4_f32"@, false).s)
        .lit(Listing::empty().all_kernels().s)
        .lit(Listing::empty().all_swiglu().s)
        .lit(Listing::empty().phi_probe().s)
        .lit(Listing::empty().phi_bench().s)
        .lit("    .section .note.GNU-stack,\"\",@progbits\n"@)
}

/// The text of the file.
pub fn kernel_file() -> (s: String)
    ensures
        s@ == kernel_file_listing().s,
{
    let mut a = Asm::new();
    a.lit("# vpu_matmul_kernel.S: generated by `cargo run -p phi-vpu --bin kernelgen`; do not edit.\n");
    a.lit("# The dot-product kernels of the card's matrix multiply (vpu_matmul.c). MVEX\n");
    a.lit("# instructions are bytes from knc-mvex; the scalar scaffolding is plain x86-64.\n");
    a.lit("    .text\n");
    a.lit(dot::kernel("phi_dot_f16", true).as_str());
    a.lit(dot::kernel("phi_dot_f32", false).as_str());
    a.lit(dot::kernel4("phi_dot4_f16", true).as_str());
    a.lit(dot::kernel4("phi_dot4_f32", false).as_str());
    a.lit(quant::kernels().as_str());
    a.lit(glu::swiglu().as_str());
    a.lit(measure::probe().as_str());
    a.lit(measure::bench().as_str());
    a.lit("    .section .note.GNU-stack,\"\",@progbits\n");
    a.0
}

} // verus!
