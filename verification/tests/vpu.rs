//! The co-processor's host side: cards, the window, halves, weight formats,
//! and the requests of the matrix-multiply service.
use phi_avx512::vpu::cards::{
    check_index, hostmem_path, index_from_env, window_path, CardError, ENV_CARD, MAX_CARDS,
};
use phi_avx512::vpu::check::{
    blocks, covered, mixtures, probe_request, rate_block, result_at, shapes, strays, swiglu_request,
    words32, words64, Manner, Mixture, Shape, MIX_PAD, ROWS,
};
use phi_avx512::vpu::half::{f16_to_f32, f32_to_f16, to_f16, F16_MAX};
use phi_avx512::vpu::matmul::{
    act_for, act_row_bytes, combos, ids_bytes, mismatches, mixture_row, poly_layout, poly_request,
    round_up, shape_ok, status_name, types, weight_type_name, A_MAX, B_MAX, D_MAX, OFF_A, OFF_B,
    OFF_D, WINDOW_LEN,
};
use phi_avx512::vpu::proto::{
    Ffn, Matmul, Reply, Request, BLOCK, CHUNK, K_POLY30, MAGIC, MM_F16, MM_F32, MM_IQ4_XS, MM_PROBE,
    MM_Q4_K, MM_Q5_K, MM_Q6_K, MM_Q8_0, MM_SWIGLU, OFF_DATA, OK,
};
use phi_avx512::vpu::weights::{
    block, block_bytes, block_weights, body_bytes, halves_of, quantized, row_bytes, weights_of, Rng,
};
use phi_avx512::vpu::window::{accept, inside, look, one, refusal, stage, worker_ready, Answer};

#[test]
fn window_paths_follow_the_stack_naming() {
    assert_eq!(hostmem_path(0), "/dev/shm/phi-hostmem");
    assert_eq!(hostmem_path(3), "/dev/shm/phi-hostmem-3");
    assert!(check_index(16).is_err());
}

#[test]
fn the_environment_names_a_card() {
    assert_eq!(ENV_CARD, "PHI_CARD");
    assert_eq!(MAX_CARDS, 16);
    assert_eq!(index_from_env(None), Ok(None));
    assert_eq!(index_from_env(Some("0")), Ok(Some(0)));
    assert_eq!(index_from_env(Some("15")), Ok(Some(15)));
    assert_eq!(index_from_env(Some("+7")), Ok(Some(7)));
    assert_eq!(index_from_env(Some("007")), Ok(Some(7)));
    assert_eq!(index_from_env(Some("16")), Err(CardError::OutOfRange(16)));
    for s in ["", "x", "-1", "1 ", "0x1", "99999999999999999999", "\u{663}"] {
        assert_eq!(index_from_env(Some(s)), Err(CardError::NotAnIndex(s.to_string())), "{s}");
    }
}

#[test]
fn a_window_given_comes_first_and_a_card_given_next() {
    assert_eq!(window_path(Some("/tmp/w"), Some(99), Some("x")), Ok("/tmp/w".to_string()));
    assert_eq!(window_path(None, Some(2), Some("x")), Ok("/dev/shm/phi-hostmem-2".to_string()));
    assert_eq!(window_path(None, Some(16), None), Err(CardError::OutOfRange(16)));
    assert_eq!(window_path(None, None, Some("11")), Ok("/dev/shm/phi-hostmem-11".to_string()));
    assert_eq!(window_path(None, None, Some("16")), Err(CardError::OutOfRange(16)));
    assert_eq!(window_path(None, None, None), Ok("/dev/shm/phi-hostmem".to_string()));
}

#[test]
fn card_errors_in_words() {
    assert_eq!(CardError::OutOfRange(16).message(), "card index 16 is out of range (0 to 15)");
    assert_eq!(
        CardError::NotAnIndex("x".to_string()).message(),
        "PHI_CARD=x is not a card index"
    );
}

#[test]
fn accesses_stay_inside_the_window() {
    assert!(inside(0, 4096, 4096));
    assert!(inside(4096, 0, 4096));
    assert!(!inside(1, 4096, 4096));
    assert!(!inside(u64::MAX, 1, 4096));
    assert!(!inside(0, usize::MAX, 4096));
}

#[test]
fn a_request_is_staged_and_rung() {
    assert!(worker_ready(MAGIC));
    assert!(!worker_ready(0));
    let d = stage(41, one(3, 228));
    assert_eq!(d.seq, 42);
    assert_eq!(d.staged.seq, 41);
    assert_eq!((d.staged.kernel, d.staged.threads, d.staged.n), (3, 228, 1));
    let rung = Request { seq: 42, ..d.staged };
    assert_eq!(rung.bytes()[8..], d.staged.bytes()[8..]);
    assert_eq!(rung.bytes()[..8], 42u64.to_le_bytes());
}

fn reply(seq: u64, status: i32) -> Reply {
    Reply { seq, status, threads: 1, pull_ns: 2, compute_ns: 3, push_ns: 4, total_ns: 9 }
}

#[test]
fn an_answer_is_its_number() {
    assert_eq!(look(7, reply(7, 0), false), Answer::Ready(reply(7, 0)));
    assert_eq!(look(7, reply(7, 0), true), Answer::Ready(reply(7, 0)));
    assert_eq!(look(7, reply(6, 0), false), Answer::Pending);
    assert_eq!(look(7, reply(6, 0), true), Answer::Late);
}

#[test]
fn a_status_is_accepted_or_named() {
    assert_eq!(accept(reply(1, OK)), Ok(reply(1, 0)));
    let names = [
        (0, "ok"),
        (-1, "the card could not reserve memory"),
        (-2, "reading from the window failed on the card"),
        (-3, "writing to the window failed on the card"),
        (-4, "the card rejected the request (shape, type or alignment)"),
        (
            -5,
            "the worker does not know this kernel (an older worker: scripts/phi-vpu.sh deploy)",
        ),
        (-6, "unknown status"),
        (1, "unknown status"),
    ];
    for (s, n) in names {
        assert_eq!(status_name(s), n);
        if s != 0 {
            assert_eq!(accept(reply(1, s)), Err(n));
        }
    }
    assert_eq!(refusal(3, status_name(-1)), "card 3: the card could not reserve memory");
}

#[test]
fn what_is_written_is_read_back() {
    let req = Request {
        seq: 0x0102_0304_0506_0708,
        kernel: 9,
        threads: 10,
        n: 11,
        in_off: 12,
        out_off: 13,
        aux_off: 14,
        aux_len: 15,
    };
    let mut window = vec![0xaau8; 64];
    window.extend(req.bytes());
    assert_eq!(req.bytes().len(), Request::size());
    assert_eq!(req.bytes()[..9], [8, 7, 6, 5, 4, 3, 2, 1, 9]);
    assert_eq!(Request::read(&window, 64), req);

    let rep = reply(3, -5);
    assert_eq!(rep.bytes().len(), Reply::size());
    assert_eq!(Reply::read(&rep.bytes(), 0), rep);

    let mm = Matmul {
        a_id: 1,
        a_off: 2,
        bytes: 3,
        a_type: 4,
        b_type: 5,
        m: 6,
        n: 7,
        k: 8,
        nb_a: 9,
        nb_b: 10,
        b_off: 11,
        d_off: 12,
        chunk: 13,
        n_used: 14,
        n_tokens: 15,
        b_rows: 16,
        ids_bytes: 17,
    };
    assert_eq!(mm.bytes().len(), Matmul::size());
    assert_eq!(Matmul::read(&mm.bytes(), 0), mm);

    let ffn = Ffn {
        gate_id: 1,
        up_id: 2,
        down_id: 3,
        gate_type: 4,
        up_type: 5,
        down_type: 6,
        b_type: 7,
        rows: 8,
        k: 9,
        m_out: 10,
        n: 11,
        nb_gate: 12,
        nb_up: 13,
        nb_down: 14,
        nb_b: 15,
        b_off: 16,
        d_off: 17,
        chunk: 18,
        h_type: 19,
        pad: 20,
    };
    assert_eq!(ffn.bytes().len(), Ffn::size());
    assert_eq!(Ffn::read(&ffn.bytes(), 0), ffn);
    // Seven words that are kept for later use follow the fields.
    assert_eq!(Ffn::size(), 192);
    assert_eq!(ffn.bytes()[136..], [0; 56]);
}

/// The float16 activations report their largest magnitude, which is what
/// sends a multiply as float32 when it is past a half's range.
#[test]
fn to_f16_reports_the_largest_magnitude() {
    for at in [2usize, 13, 17] {
        let mut x: Vec<f32> = (0..19).map(|i| (i as f32 - 9.0) * 0.5).collect();
        x[at] = -70000.0;
        let bits: Vec<u32> = x.iter().map(|f| f.to_bits()).collect();
        let (h, most) = to_f16(&bits);
        assert_eq!(f32::from_bits(most), 70000.0);
        assert!(most > F16_MAX);
        // what the card would have multiplied by: -infinity
        assert_eq!(h[at], 0xfc00);
        assert_eq!(h.len(), 19);
    }
    let x = [1.0f32, -65504.0, 3.0];
    let bits: Vec<u32> = x.iter().map(|f| f.to_bits()).collect();
    let (h, most) = to_f16(&bits);
    assert!(most <= F16_MAX, "65504 is a half, and must not be refused");
    assert_eq!(h, [0x3c00, 0xfbff, 0x4200]);
    assert_eq!(f32::from_bits(F16_MAX), 65504.0);
}

/// The number a half is.
fn value(h: u16) -> f64 {
    let sign = if h >> 15 == 1 { -1.0 } else { 1.0 };
    let e = ((h >> 10) & 31) as i32;
    let m = (h & 0x3ff) as f64;
    if e == 0 {
        sign * m * 2f64.powi(-24)
    } else if e == 31 {
        sign * f64::INFINITY
    } else {
        sign * (1.0 + m / 1024.0) * 2f64.powi(e - 15)
    }
}

#[test]
fn every_half_is_the_float_it_stands_for() {
    for h in 0..=0xffffu16 {
        let f = f32::from_bits(f16_to_f32(h));
        if h & 0x7fff > 0x7c00 {
            assert!(f.is_nan());
        } else {
            assert_eq!(f as f64, value(h));
            assert_eq!(f.is_sign_negative(), h >> 15 == 1);
            assert_eq!(f32_to_f16(f.to_bits()), h, "{h:04x} comes back");
        }
    }
}

#[test]
fn floats_go_to_the_nearest_half() {
    // Between every two neighbours: the midpoint to the even one, and what
    // is next to the midpoint to the nearer one.
    for h in 0..0x7bffu16 {
        let mid = ((value(h) + value(h + 1)) / 2.0) as f32;
        let even = if h % 2 == 0 { h } else { h + 1 };
        assert_eq!(f32_to_f16(mid.to_bits()), even);
        assert_eq!(f32_to_f16(mid.to_bits() - 1), h);
        assert_eq!(f32_to_f16(mid.to_bits() + 1), h + 1);
        assert_eq!(f32_to_f16(mid.to_bits() | 0x8000_0000), even | 0x8000);
    }
    assert_eq!(f32_to_f16(65519.0f32.to_bits()), 0x7bff);
    assert_eq!(f32_to_f16(65520.0f32.to_bits()), 0x7c00);
    assert_eq!(f32_to_f16(f32::INFINITY.to_bits()), 0x7c00);
    assert_eq!(f32_to_f16(f32::MIN_POSITIVE.to_bits()), 0);
    assert_eq!(f32_to_f16((-0.0f32).to_bits()), 0x8000);
}

const QUANTIZED: [u32; 5] = [MM_Q4_K, MM_Q5_K, MM_Q6_K, MM_Q8_0, MM_IQ4_XS];

#[test]
fn blocks_and_rows_are_as_long_as_ggml_has_them() {
    let sizes = [(256, 144), (256, 176), (256, 210), (32, 34), (256, 136)];
    for (t, (w, b)) in QUANTIZED.into_iter().zip(sizes) {
        assert!(quantized(t));
        assert_eq!((block_weights(t), block_bytes(t)), (w, b));
        assert_eq!(row_bytes(t, 4 * w as u64), 4 * b as u64);
    }
    assert!(!quantized(MM_F32) && !quantized(MM_F16));
    assert_eq!(row_bytes(MM_F32, 100), 400);
    assert_eq!(row_bytes(MM_F16, 100), 200);
    assert_eq!(row_bytes(77, 100), 0);
}

#[test]
fn a_block_gives_back_its_halves() {
    let mut rng = Rng { state: 0x9e37_79b9_7f4a_7c15, pattern: None };
    for t in QUANTIZED {
        let body = rng.body(t);
        assert_eq!(body.len(), body_bytes(t));
        let b = block(t, 0x1234, 0x5678, &body);
        assert_eq!(b.len(), block_bytes(t));
        let dmin = if t == MM_Q4_K || t == MM_Q5_K { 0x5678 } else { 0 };
        assert_eq!(halves_of(t, &b), (0x1234, dmin));
    }
}

/// The scale and minimum of sub-block `j`, as ggml unpacks them.
fn scale_min(j: usize, q: &[u8]) -> (i32, i32) {
    if j < 4 {
        ((q[j] & 63) as i32, (q[j + 4] & 63) as i32)
    } else {
        (
            ((q[j + 4] & 0xf) | ((q[j - 4] >> 6) << 4)) as i32,
            ((q[j + 4] >> 4) | ((q[j] >> 6) << 4)) as i32,
        )
    }
}

#[test]
fn four_and_five_bit_weights_come_out_in_ggml_order() {
    let mut rng = Rng { state: 1, pattern: None };
    for t in [MM_Q4_K, MM_Q5_K] {
        let b = block(t, 0, 0, &rng.body(t));
        let w = weights_of(t, &b);
        let (qh, qs) = if t == MM_Q5_K { (&b[16..48], &b[48..]) } else { (&b[16..16], &b[16..]) };
        let mut i = 0;
        for g in 0..4 {
            for high in [false, true] {
                let j = 2 * g + high as usize;
                let (scale, min) = scale_min(j, &b[4..16]);
                for l in 0..32 {
                    let byte = qs[32 * g + l];
                    let mut q = if high { byte >> 4 } else { byte & 0xf } as i32;
                    if t == MM_Q5_K && qh[l] & (1 << j) != 0 {
                        q += 16;
                    }
                    assert_eq!((w[i].scale, w[i].quant, w[i].min), (scale, q, min));
                    i += 1;
                }
            }
        }
        assert_eq!(w.len(), i);
    }
}

#[test]
fn six_bit_weights_come_out_in_ggml_order() {
    let mut rng = Rng { state: 2, pattern: None };
    let b = block(MM_Q6_K, 0, 0, &rng.body(MM_Q6_K));
    let w = weights_of(MM_Q6_K, &b);
    for h in 0..2 {
        let (ql, qh, sc) = (&b[64 * h..], &b[128 + 32 * h..], &b[192 + 8 * h..]);
        for l in 0..32 {
            let q = [
                (ql[l] & 0xf) | ((qh[l] & 3) << 4),
                (ql[l + 32] & 0xf) | (((qh[l] >> 2) & 3) << 4),
                (ql[l] >> 4) | (((qh[l] >> 4) & 3) << 4),
                (ql[l + 32] >> 4) | (((qh[l] >> 6) & 3) << 4),
            ];
            for (c, q) in q.into_iter().enumerate() {
                let got = w[128 * h + 32 * c + l];
                assert_eq!(got.quant, q as i32 - 32);
                assert_eq!(got.scale, sc[l / 16 + 2 * c] as i8 as i32);
                assert_eq!(got.min, 0);
            }
        }
    }
}

#[test]
fn eight_bit_and_lookup_weights_come_out_in_ggml_order() {
    let mut rng = Rng { state: 3, pattern: None };
    let b = block(MM_Q8_0, 0, 0, &rng.body(MM_Q8_0));
    for (i, w) in weights_of(MM_Q8_0, &b).into_iter().enumerate() {
        assert_eq!((w.scale, w.quant, w.min), (1, b[2 + i] as i8 as i32, 0));
    }
    let lut = [-127, -104, -83, -65, -49, -35, -22, -10, 1, 13, 25, 38, 53, 69, 89, 113];
    let b = block(MM_IQ4_XS, 0, 0, &rng.body(MM_IQ4_XS));
    let w = weights_of(MM_IQ4_XS, &b);
    let scales_h = b[2] as u16 | (b[3] as u16) << 8;
    for ib in 0..8 {
        let low = (b[4 + ib / 2] >> (4 * (ib % 2))) & 0xf;
        let scale = (low as i32 | (((scales_h >> (2 * ib)) & 3) << 4) as i32) - 32;
        for j in 0..16 {
            let byte = b[8 + 16 * ib + j];
            let (a, c) = (w[32 * ib + j], w[32 * ib + 16 + j]);
            assert_eq!((a.scale, a.quant), (scale, lut[(byte & 0xf) as usize]));
            assert_eq!((c.scale, c.quant), (scale, lut[(byte >> 4) as usize]));
        }
    }
}

#[test]
fn the_generator_draws_what_it_should() {
    let mut x: u64 = 0x1234_5678_9abc_def0;
    let mut rng = Rng { state: x, pattern: None };
    for _ in 0..4 {
        x ^= x << 13;
        x ^= x >> 7;
        x ^= x << 17;
        assert_eq!(rng.next(), x);
    }
    x ^= x << 13;
    x ^= x >> 7;
    x ^= x << 17;
    let mut other = rng;
    assert_eq!(rng.byte(), (x >> 24) as u8);
    assert_eq!(other.unit(), (x >> 40) as u32);
    let mut fixed = Rng { state: 5, pattern: Some(0x81) };
    assert_eq!(fixed.byte(), 0x81);
    assert_eq!(fixed.state, 5, "a pattern draws nothing");
    let body = fixed.body(MM_Q6_K);
    assert_eq!(body[191], 0x81);
    assert_eq!(body[192] as i8, -63, "the scales are halved towards zero");
}

#[test]
fn sizes_are_rounded_up_to_whole_blocks() {
    for (x, r) in [(0, 0), (1, 4096), (4096, 4096), (4097, 8192)] {
        assert_eq!(round_up(x), r);
    }
    assert_eq!(BLOCK, 4096);
    assert_eq!(OFF_A + A_MAX, OFF_B);
    assert_eq!(OFF_B + B_MAX, OFF_D);
    assert_eq!(OFF_D + D_MAX, WINDOW_LEN);
    let d = Matmul::upload(7, 5000);
    assert_eq!((d.a_id, d.a_off, d.bytes), (7, OFF_A, 8192));
    assert_eq!(d, Matmul { a_id: 7, a_off: OFF_A, bytes: 8192, ..Matmul::nothing() });
    assert_eq!(Matmul::free(9), Matmul { a_id: 9, ..Matmul::nothing() });
    assert_eq!(Matmul::nothing().bytes(), vec![0u8; Matmul::size()]);
}

#[test]
fn a_card_takes_whole_aligned_rows() {
    assert!(shape_ok(MM_F32, 100, 400, 1));
    assert!(!shape_ok(MM_F32, 100, 399, 1));
    assert!(shape_ok(MM_F16, 96, 192, 1));
    assert!(!shape_ok(MM_F16, 100, 200, 1), "rows of a half are on 32 bytes");
    for t in QUANTIZED {
        let k = block_weights(t) as u64 * 8;
        let nb = row_bytes(t, k);
        assert!(shape_ok(t, k, nb, 64));
        assert!(!shape_ok(t, k + 1, nb + 64, 64), "whole blocks");
        assert!(!shape_ok(t, k, nb - 16, 64), "a whole row");
        assert!(!shape_ok(t, k, nb, 63), "activations on lines");
        let odd = t != MM_Q4_K && t != MM_Q5_K;
        assert_eq!(shape_ok(t, k, nb + 8, 64), odd, "rows on 16 bytes");
    }
    assert!(!shape_ok(2, 256, 4096, 64), "no kernel for the type");
}

#[test]
fn activations_and_indices_take_their_bytes() {
    assert_eq!(act_row_bytes(256, false), 1024);
    assert_eq!(act_row_bytes(256, true), 512);
    for (n, b) in [(0, 0), (1, 64), (16, 64), (17, 128)] {
        assert_eq!(ids_bytes(n), b);
    }
    assert!(act_for(MM_Q6_K, true) && !act_for(MM_Q6_K, false));
    assert!(!act_for(MM_F32, true) && !act_for(MM_F16, true));
}

#[test]
fn a_tokens_columns_share_its_rows() {
    // Three experts a token, one activation row each: the row is the token.
    let rows: Vec<u64> = (0..6).map(|p| mixture_row(p, 3, 1)).collect();
    assert_eq!(rows, [0, 0, 0, 1, 1, 1]);
    // A row for every expert: the column itself.
    let rows: Vec<u64> = (0..6).map(|p| mixture_row(p, 3, 3)).collect();
    assert_eq!(rows, [0, 1, 2, 3, 4, 5]);
}

#[test]
fn the_types_have_llama_names() {
    let all = types(None);
    assert_eq!(all, [MM_F32, MM_F16, MM_Q4_K, MM_Q5_K, MM_Q6_K, MM_Q8_0, MM_IQ4_XS]);
    let names: Vec<&str> = all.iter().map(|t| weight_type_name(*t)).collect();
    assert_eq!(names, ["f32", "f16", "q4_K", "q5_K", "q6_K", "q8_0", "iq4_xs"]);
    assert_eq!(weight_type_name(2), "?");
    assert_eq!(types(Some("q6_K")), [MM_Q6_K]);
    assert!(types(Some("q6_k")).is_empty());
    assert_eq!(combos(&types(Some("q8_0")), true), [[MM_Q8_0; 3]]);
    assert!(combos(&types(Some("f32")), true).is_empty());
    assert_eq!(
        combos(&all, false),
        [
            [MM_Q4_K, MM_Q4_K, MM_Q4_K],
            [MM_Q5_K, MM_Q5_K, MM_Q6_K],
            [MM_Q6_K, MM_Q6_K, MM_Q5_K],
            [MM_Q8_0, MM_Q8_0, MM_Q8_0],
            [MM_IQ4_XS, MM_Q5_K, MM_IQ4_XS],
        ]
    );
}

#[test]
fn a_polynomial_request_has_its_regions_apart() {
    assert_eq!(poly_layout(CHUNK - 1), None);
    let l = poly_layout(3000).unwrap();
    assert_eq!(l.n, 3000 - 3000 % CHUNK);
    assert_eq!(l.in_off, OFF_DATA);
    assert_eq!(l.aux_len, 31 * 16 * 4);
    assert_eq!(l.coef_off, round_up(OFF_DATA + l.n * 4));
    assert_eq!(l.out_off, round_up(l.coef_off + l.aux_len));
    assert!(l.out_off + l.n * 4 <= l.window);
    let r = poly_request(&l, 61);
    assert_eq!((r.kernel, r.threads, r.n), (K_POLY30, 61, l.n));
    assert_eq!(
        (r.in_off, r.out_off, r.aux_off, r.aux_len),
        (l.in_off, l.out_off, l.coef_off, l.aux_len)
    );
}

#[test]
fn mismatches_are_found_in_order() {
    assert!(mismatches(&[1, 2, 3], &[1, 2, 3]).is_empty());
    assert_eq!(mismatches(&[1, 2, 3, 4], &[0, 2, 0, 4]), [0, 2]);
}

#[test]
fn the_check_runs_shapes_the_card_takes() {
    let how = Manner { half: true, pad: 64, chunk: 32 };
    for t in types(None) {
        let v = shapes(t);
        assert_eq!(v.iter().map(|s| s.n).collect::<Vec<_>>(), [1, 4, 8, 13]);
        assert_eq!(v[3].k, if t == MM_Q8_0 { 544 } else { 512 });
        for s in v {
            let d = how.multiply(7, t, s);
            assert_eq!((d.a_id, d.a_type, d.m, d.n, d.k), (7, t, ROWS, s.n, s.k));
            assert_eq!((d.b_type, d.chunk, d.nb_b), (1, 32, s.k * 2 + 64));
            assert!(shape_ok(t, d.k, d.nb_a, d.nb_b));
        }
    }
    assert_eq!(Manner { half: false, pad: 0, chunk: 0 }.stride(512), 2048);
}

#[test]
fn the_check_runs_mixtures_that_fit() {
    let v = mixtures();
    assert_eq!(v.len(), 6);
    assert_eq!(v[4], Mixture { experts: 2, n_used: 2, n_tokens: 32, b_rows: 1 });
    let how = Manner { half: false, pad: 64, chunk: 0 };
    for x in v {
        let d = how.mixed(7, MM_Q8_0, ROWS, 512, x);
        assert_eq!((d.n, d.nb_b), (x.n_used * x.n_tokens, 2048 + MIX_PAD));
        assert_eq!((d.n_used, d.n_tokens, d.b_rows), (x.n_used, x.n_tokens, x.b_rows));
        assert_eq!(d.ids_bytes, ids_bytes(d.n));
        for p in 0..d.n {
            assert!(mixture_row(p, x.n_used, x.b_rows) < x.b_rows * x.n_tokens);
        }
    }
}

#[test]
fn the_check_runs_every_block_and_the_first_twice() {
    let c = combos(&types(None), false);
    let v = blocks(&c);
    assert_eq!(v.len(), 6);
    assert_eq!(v[..5].iter().map(|b| b.0).collect::<Vec<_>>(), c);
    assert!(v[..5].iter().all(|b| !b.1));
    assert_eq!(v[5], (c[0], true));
    assert!(blocks(&vec![]).is_empty());
    assert_eq!(rate_block(&c, false), Some([MM_Q5_K, MM_Q5_K, MM_Q6_K]));
    assert_eq!(rate_block(&c, true), Some(c[0]));
    assert_eq!(rate_block(&vec![], true), None);
    let how = Manner { half: false, pad: 0, chunk: 3 };
    let f = how.block(100, [MM_Q4_K, MM_Q5_K, MM_Q6_K], 512, 256, 96, 13, true);
    assert_eq!((f.gate_id, f.up_id, f.down_id), (100, 101, 102));
    assert_eq!((f.nb_gate, f.nb_up, f.nb_down), (288, 352, 210));
    assert_eq!((f.rows, f.k, f.m_out, f.n, f.h_type, f.chunk), (256, 512, 96, 13, 1, 3));
    assert_eq!(Shape { m: 1, k: 2, n: 3 }.k, 2);
}

#[test]
fn stray_writes_show() {
    let mut lanes = vec![0xdead_deadu32; 20];
    for l in lanes.iter_mut().take(15).skip(3) {
        *l = 1;
    }
    assert!(strays(&lanes, 0xdead_dead).is_empty());
    lanes[2] = 0;
    lanes[15] = 0;
    assert_eq!(strays(&lanes, 0xdead_dead), [2, 15]);
    assert!(covered(3, 20) && covered(14, 20) && !covered(15, 20) && !covered(2, 20));
    assert!(!covered(3, 4));
    assert_eq!(strays(&[7, 0], 7), [1]);
}

#[test]
fn the_checks_other_requests_and_results() {
    let d = swiglu_request(4096, 16384, 2);
    assert_eq!((d.a_type, d.b_type, d.m, d.n, d.k, d.nb_b), (MM_SWIGLU, 2, 4096, 1, 16, 16384));
    let d = probe_request(true);
    assert_eq!((d.a_type, d.b_type, d.a_off, d.m), (MM_PROBE, 1, OFF_A, 1));
    assert_eq!(result_at(3, 61, 5), 188);
    let b = [1u8, 0, 0, 0, 2, 0, 0, 0, 9];
    assert_eq!(words32(&b), [1, 2]);
    assert_eq!(words64(&b), [0x2_0000_0001]);
}
