//! The card's kernels as assembly text.
use phi_avx512::kernelgen::copy::copy64;
use phi_avx512::kernelgen::dot::{kernel, kernel4};
use phi_avx512::kernelgen::file::kernel_file;
use phi_avx512::kernelgen::measure::{bench, probe};
use phi_avx512::kernelgen::quant::{PF_L1, PF_L2};

/// The vector instructions of a listing, as bytes and as text.
fn vector_lines(s: &str) -> Vec<(Vec<u8>, String)> {
    s.lines()
        .filter_map(|l| l.strip_prefix("\t.byte "))
        .map(|l| {
            let (bytes, text) = l.split_once("\t# ").expect("a comment");
            let bytes = bytes
                .split(", ")
                .map(|b| u8::from_str_radix(b.strip_prefix("0x").expect("hex"), 16).expect("a byte"))
                .collect();
            (bytes, text.to_string())
        })
        .collect()
}

/// The functions of a listing, each labelled and sized.
fn functions(s: &str) -> Vec<String> {
    let names: Vec<String> = s
        .lines()
        .filter_map(|l| l.strip_prefix("    .globl "))
        .map(|l| l.to_string())
        .collect();
    for n in &names {
        assert!(s.contains(&format!("    .type {n}, @function\n{n}:\n")), "{n}");
        assert!(s.contains(&format!("    .size {n}, .-{n}\n\n")), "{n}");
    }
    names
}

#[test]
fn the_file_holds_every_kernel_once() {
    let s = kernel_file();
    let mut want: Vec<String> = Vec::new();
    for n in ["phi_dot_f16", "phi_dot_f32", "phi_dot4_f16", "phi_dot4_f32"] {
        want.push(n.to_string());
    }
    for fmt in ["q4k", "q5k", "q6k", "q8_0", "iq4xs"] {
        for half in ["", "h"] {
            for rows in [1, 4, 8] {
                want.push(format!("phi_{fmt}_{rows}{half}"));
            }
        }
    }
    for n in ["phi_swiglu", "phi_swiglu16", "phi_swiglu_edge", "phi_swiglu16_edge"] {
        want.push(n.to_string());
    }
    for n in ["phi_probe", "phi_bench"] {
        want.push(n.to_string());
    }
    let mut got = functions(&s);
    got.sort();
    want.sort();
    assert_eq!(got, want);
    assert!(s.starts_with("# vpu_matmul_kernel.S: "));
    assert!(s.ends_with("    .section .note.GNU-stack,\"\",@progbits\n"));
    for (bytes, text) in vector_lines(&s) {
        assert!(
            (bytes[0] == 0x62 && bytes.len() >= 6) || (bytes[0] == 0xc5 && bytes.len() == 4),
            "{text}"
        );
    }
}

#[test]
fn a_dot_product_begins_with_four_clear_sums() {
    let s = kernel("phi_dot_f32", false);
    let v = vector_lines(&s);
    for (i, (bytes, text)) in v.iter().take(4).enumerate() {
        // vpxord zmm_i, zmm_i, zmm_i
        assert_eq!(bytes[4], 0xef);
        assert_eq!(text, &format!("vpxord zmm{i}, zmm{i}, zmm{i}"));
    }
    assert_eq!(v.last().unwrap().1, "vmovaps [rcx+0], zmm0");
    assert!(s.contains("add $256, %rdi\n"));
    assert!(kernel("phi_dot_f16", true).contains("add $128, %rdi\n"));
    // Five multiply-adds of the vector loop and the tail, for one row; four
    // times as many where four rows share the weights.
    let fmas = |s: &str| vector_lines(s).iter().filter(|(_, t)| t.starts_with("vfmadd231ps")).count();
    assert_eq!(fmas(&s), 5);
    assert!(fmas(&kernel4("phi_dot4_f32", false)) >= 4);
}

#[test]
fn prefetches_run_two_and_six_blocks_ahead() {
    assert_eq!((PF_L1, PF_L2), (2, 6));
}

#[test]
fn the_measuring_kernels_stand_alone() {
    assert_eq!(functions(&probe()), ["phi_probe"]);
    assert_eq!(functions(&bench()), ["phi_bench"]);
}

#[test]
fn a_copy_moves_whole_lines() {
    let s = copy64();
    assert_eq!(functions(&s), ["phi_copy64"]);
    let v = vector_lines(&s);
    let (loads, stores): (Vec<_>, Vec<_>) = v.iter().partition(|(b, _)| b[4] == 0x28);
    assert_eq!((loads.len(), stores.len()), (5, 5));
}

#[test]
fn the_rate_kernel_saves_what_it_writes() {
    let s = bench();
    let v = vector_lines(&s);
    let line = |b: u8, i: usize| v.iter().position(|(x, t)| {
        x[4] == b && t.contains(&format!("zmm{i}")) && t.contains(&format!("[r8+{}]", 64 * i))
    });
    // The stores come before everything, the loads after everything else.
    for i in 0..8 {
        assert_eq!(line(0x29, i), Some(i));
        assert_eq!(line(0x28, i), Some(v.len() - 8 + i));
    }
    assert_eq!(s.matches("    ret\n").count(), 1);
    assert!(s.contains("phi_bench:\n    mov %rsp, %r9\n    sub $512, %rsp\n    and $-64, %rsp\n"));
    assert!(s.contains("    mov %r9, %rsp\n    ret\n    .size phi_bench"));
    assert!(s.contains("    jnz 1b\n    jmp 9f\n    2:\n    mov %rsi, %rcx\n    cmp $2, %rdi\n    je 4f\n"));
}

#[test]
fn the_copy_is_written_line_by_line() {
    let s = copy64();
    let lines: Vec<&str> = s.lines().filter(|l| !l.starts_with("\t.byte")).collect();
    assert_eq!(
        lines[4..],
        [
            "    cmp $4, %rdx", "    jb 2f", "1:", "    add $256, %rsi", "    add $256, %rdi",
            "    sub $4, %rdx", "    cmp $4, %rdx", "    jae 1b", "2:", "    test %rdx, %rdx",
            "    jz 4f", "3:", "    add $64, %rsi", "    add $64, %rdi", "    dec %rdx",
            "    jnz 3b", "4:", "    ret", "    .size phi_copy64, .-phi_copy64", "",
        ]
    );
}
