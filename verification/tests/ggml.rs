//! How a program's multiplies are shared with the cards.
use phi_avx512::ggml::ffn::{
    fits_area, request, run_rows, Fate, FfnArgs, FfnPending, FfnPlan, FfnSplit, Offer as FfnOffer,
};
use phi_avx512::ggml::judge::{judge, Compared, Heed, Pace};
use phi_avx512::ggml::maps::{file_backed, file_maps, whole_pages};
use phi_avx512::ggml::plan::{whole, Card, Offer, Plan, Slice, Split};
use phi_avx512::ggml::share::{
    counted, least, supports, Allot, Multiply, Offered, Pending, Route, Shared, Shares, Sizing, Why,
    Work, B_PAD, PP_STEPS, PP_WINDOW,
};
use phi_avx512::vpu::matmul::{A_MAX, B_MAX, D_MAX, OFF_B, OFF_D};
use phi_avx512::vpu::proto::{MM_F16, MM_F32, MM_Q4_K, MM_Q6_K, MM_Q8_0};

/// The computing half of dropping pages: only whole pages, only of a file.
#[test]
fn only_whole_pages_are_dropped() {
    let at = 0x7f00_0000_0000usize;
    let len = 64 << 10;
    // 100 bytes in to 100 bytes short: the first and last pages are kept.
    assert_eq!(whole_pages(at + 100, len - 200), Some((at + 4096, at + len - 4096)));
    // Less than a page, or within one: nothing.
    assert_eq!(whole_pages(at + 100, 3000), None);
    assert_eq!(whole_pages(at + 100, 4096), None);
    assert_eq!(whole_pages(at, len), Some((at, at + len)));
}

#[test]
fn only_mappings_of_files_count() {
    let maps = "\
55d0c0000000-55d0c0021000 rw-p 00000000 00:00 0                          [heap]
7f1000000000-7f1000010000 r--s 00000000 fe:01 131                        /models/a model.gguf
7f2000000000-7f2000001000 r--p 00000000 00:00 0 
7ffd00000000-7ffd00021000 rw-p 00000000 00:00 0                          [stack]
7f3000000000-7f3000002000 r--p 00000000 fe:01 7 [anon]
7f4000000000 r--p 00000000 fe:01 7 /no/range
7f5000000000-7f5000001000 r-xp 00000000 fe:01 0 /inode/zero
7f6000000000-7f6000003000 r-xp 00001000 fe:01 99 /last";
    let v = file_maps(maps.as_bytes());
    assert_eq!(
        v,
        [(0x7f10_0000_0000, 0x7f10_0001_0000), (0x7f60_0000_0000, 0x7f60_0000_3000)]
    );
    assert!(file_backed(&v, 0x7f10_0000_0000, 0x10000));
    assert!(file_backed(&v, 0x7f10_0000_0fff, 1));
    assert!(!file_backed(&v, 0x7f10_0000_0fff, 0x10000));
    assert!(!file_backed(&v, 0x55d0_c000_0000, 1));
    assert!(file_maps(b"").is_empty());
}

#[test]
fn a_plan_leaves_the_host_whole_groups_of_rows() {
    assert_eq!((whole(0), whole(63), whole(64), whole(130)), (0, 0, 64, 128));
    let mut card = Card::new(1_000_000);
    let mut plan = Plan::new(1000, 100);
    // 200 of 1000 wanted: 232, so that the host keeps 768.
    assert_eq!(
        plan.offer(&mut card, 200),
        Offer::Rows { from: 768, rows: 232, bytes: 23_200 }
    );
    plan.answered(&mut card, 1, 0xabc, 232, true);
    assert_eq!((card.id_of(0xabc), card.next_id, card.uploaded), (Some(1), 2, 23_200));
    assert_eq!((plan.lo, plan.cards.len()), (768, 1));
    assert_eq!(plan.cards[0], Slice { card: 1, lo: 768, hi: 1000 });
    // The next card from there down.
    let mut other = Card::new(1_000_000);
    assert_eq!(
        plan.offer(&mut other, 64),
        Offer::Rows { from: 704, rows: 64, bytes: 6400 }
    );
    plan.answered(&mut other, 0, 0xabc, 64, false);
    assert!(other.full && other.id_of(0xabc).is_none());
    assert_eq!(plan.offer(&mut other, 64), Offer::Nothing);
    let split = Split::of(plan);
    assert_eq!((split.m, split.r0, split.cards.len()), (1000, 768, 1));
}

#[test]
fn an_offer_stays_within_budget_and_window() {
    let plan = Plan::new(1000, 100);
    let mut poor = Card::new(23_199);
    assert_eq!(plan.offer(&mut poor, 200), Offer::Spent);
    assert!(poor.full);
    let mut card = Card::new(u64::MAX);
    assert_eq!(plan.offer(&mut card, 0), Offer::Rows { from: 960, rows: 40, bytes: 4000 });
    assert_eq!(Plan::new(960, 100).offer(&mut card, 0), Offer::Nothing);
    assert_eq!(
        plan.offer(&mut card, 5000),
        Offer::Rows { from: 0, rows: 1000, bytes: 100_000 }
    );
    // Rows of a megabyte: the weight area holds 512, and 64 more would not fit.
    let big = Plan::new(1000, 1 << 20);
    let o = big.offer(&mut card, 900);
    assert_eq!(o, Offer::Rows { from: 512, rows: 488, bytes: 488 << 20 });
    assert!(488u64 << 20 <= A_MAX);
    // A row longer than the whole area is never offered.
    assert_eq!(Plan::new(10, A_MAX + 1).offer(&mut card, 5), Offer::Nothing);
}

#[test]
fn a_card_lets_go() {
    let mut c = Card::new(1000);
    assert_eq!(c.settle(100, true), Some(1));
    assert_eq!(c.settle(100, false), None);
    assert!(c.full);
    c.ids.insert(7, 1);
    assert_eq!(c.forget(8, 50), None);
    assert!(c.full);
    assert_eq!(c.forget(7, 500), Some(1));
    assert_eq!((c.uploaded, c.full), (0, false));
    c.ids.insert(7, 2);
    c.uploaded = 9;
    c.release(4);
    assert_eq!(c.uploaded, 5);
    c.clear();
    assert!(c.ids.is_empty() && c.uploaded == 0 && !c.full && c.next_id == 2);
}

#[test]
fn two_bad_multiplies_in_a_row_settle_it() {
    assert_eq!(judge(0, false, Compared::Longer), (1, false));
    assert_eq!(judge(1, false, Compared::Longer), (2, true));
    assert_eq!(judge(0, false, Compared::PlainlyLonger), (2, true));
    assert_eq!(judge(1, false, Compared::NoLonger), (0, false));
    assert_eq!(judge(5, true, Compared::NoLonger), (0, true));
    assert_eq!(judge(u32::MAX, true, Compared::PlainlyLonger), (u32::MAX, true));
    let mut s = Split::host_only(64);
    assert!(!s.judge(1, Compared::Longer));
    assert!(s.judge(1, Compared::Longer));
    assert!(!s.judge(1, Compared::Longer), "it is news only once");
    assert_eq!((s.avoid, s.bad), ([false, true], [0, 3]));
}

#[test]
fn the_share_moves_by_windows_and_comes_to_rest() {
    let mut p = Pace::new(true);
    assert_eq!(p.feed(false), Heed::Ignore);
    let mut moves = 0;
    for _ in 0..PP_STEPS {
        for _ in 1..PP_WINDOW {
            assert_eq!(p.feed(true), Heed::Gather);
        }
        assert_eq!(p.feed(true), Heed::Move);
        p.moved(true);
        moves += 1;
    }
    assert_eq!(moves, 24);
    assert_eq!(p.feed(true), Heed::Ignore);
    assert_eq!(Pace::new(false).feed(true), Heed::Ignore);
    let mut q = Pace::new(true);
    for _ in 0..8 {
        q.feed(true);
    }
    q.moved(false);
    assert_eq!((q.steps, q.seen), (0, 0));
}

fn plain(m: u64, k: u64, n: u64) -> Multiply {
    Multiply {
        key: 0x1000,
        a_type: MM_Q8_0,
        m,
        k,
        nb_a: k / 32 * 34,
        keep: true,
        n,
        nb_b: k * 4,
        experts: 1,
        n_used: 0,
        n_tokens: 0,
        b_rows: 1,
    }
}

fn mixture(m: u64, k: u64, experts: u64, n_used: u64, n_tokens: u64) -> Multiply {
    Multiply { experts, n_used, n_tokens, n: n_used * n_tokens, ..plain(m, k, 0) }
}

#[test]
fn a_multiply_is_measured_out() {
    let p = plain(100, 256, 8);
    assert!(!p.mixture() && p.adapts());
    assert_eq!((p.ids(), p.rows(), p.touched(), p.class()), (0, 8, 1, 1));
    assert_eq!((p.stride(true), p.stride(false)), (512 + B_PAD, 1024 + B_PAD));
    assert_eq!(plain(100, 256, 7).class(), 0);
    let x = mixture(100, 256, 8, 3, 5);
    assert!(x.mixture() && !x.adapts());
    assert_eq!((x.ids(), x.rows(), x.touched(), x.class()), (64, 5, 8, 0));
    let x = mixture(100, 256, 8, 3, 8);
    assert_eq!((x.ids(), x.touched(), x.class(), x.adapts()), (128, 8, 1, true));
    assert_eq!(mixture(100, 256, 8, 3, 1).touched(), 3);
    assert!(p.halves(true) && !p.halves(false));
    assert!(!Multiply { a_type: MM_F32, ..p }.halves(true));
    assert!(!Multiply { a_type: MM_F16, ..p }.halves(true));
    // A mixture's rows run token by token.
    let y = Multiply { b_rows: 3, ..mixture(1, 256, 8, 3, 5) };
    assert_eq!(y.row_at(7, 10_000), 1024 + 2 * 10_000);
    assert_eq!(p.row_at(7, 10_000), 7 * 1024);
}

#[test]
fn the_cards_take_what_fits_their_window() {
    assert!(supports(MM_Q8_0, 64, 256, 272, 1024, 1));
    assert!(!supports(MM_Q8_0, 64, 256, 271, 1024, 1));
    let n = B_MAX / (1024 + B_PAD);
    assert!(supports(MM_Q8_0, 64, 256, 272, 1024, n));
    assert!(!supports(MM_Q8_0, 64, 256, 272, 1024, n + 1));
    let m = D_MAX / 4;
    assert!(supports(MM_Q8_0, m, 256, 272, 1024, 1));
    assert!(!supports(MM_Q8_0, m + 1, 256, 272, 1024, 1));
    assert!(!supports(MM_Q8_0, u64::MAX, 256, 272, 1024, u64::MAX));
}

#[test]
fn weights_are_sized_once() {
    let mut o = Offered::new();
    o.note(1, 10);
    o.note(2, 20);
    o.note(1, 11);
    assert_eq!(o.weights, [(1, 11), (2, 20)]);
    assert_eq!(o.total(), 31);
    let mut s = Sizing::new(true);
    s.note_weight(0, 5);
    s.note_weight(1, 100);
    assert_eq!(s.settle(), Some(100));
    s.note_weight(2, 100);
    assert_eq!(s.settle(), None);
    assert_eq!(s.offered.total(), 100, "a tensor offered later is not sized");
    let mut fixed = Sizing::new(false);
    fixed.note_weight(1, 100);
    assert_eq!(fixed.settle(), None);
    assert_eq!(Sizing::new(true).settle(), None);
    assert_eq!(least(&vec![5, 3, 9]), 3);
    assert_eq!(least(&vec![]), 0);
    assert_eq!(counted(u64::MAX - 1, 5), u64::MAX);
}

/// A tensor of 1000 rows, 232 of them on card 1 and 64 on card 0.
fn shared(offload: bool, min_bytes: u64) -> Shares {
    let mut s = Shares::new(offload, true, min_bytes);
    s.learn(
        0x1000,
        Split {
            m: 1000,
            r0: 704,
            cards: vec![
                Slice { card: 1, lo: 768, hi: 1000 },
                Slice { card: 0, lo: 704, hi: 768 },
            ],
            bad: [0, 0],
            avoid: [false, false],
        },
    );
    s
}

#[test]
fn a_multiply_takes_its_route() {
    let mut s = Shares::new(false, true, 4000);
    assert_eq!(s.begin(&plain(1000, 256, 0), true, 100), Route::Empty);
    assert_eq!(s.host_range(0), None);
    let p = plain(1000, 256, 1);
    // 14 rows of 272 bytes are below the least: known to be the host's.
    assert_eq!(s.begin(&p, true, 14), Route::Known);
    assert_eq!((s.splits[&0x1000].r0, s.splits[&0x1000].cards.len()), (1000, 0));
    let q = Multiply { key: 0x2000, ..p };
    assert_eq!(s.begin(&q, true, 15), Route::Plan);
    let x = Multiply { key: 0x3000, ..mixture(1000, 256, 8, 2, 1) };
    assert_eq!(s.begin(&x, true, 1), Route::Plan, "a mixture is planned as always");
    let loose = Multiply { keep: false, ..q };
    assert_eq!(s.begin(&loose, true, 15), Route::Host(Why::PastLimits));
    assert_eq!(s.host_range(0), Some((0, 1000)));
    assert_eq!(s.host_range(1), None);
    // As float32 it is past the window, as halves it is not.
    let wide = Multiply { key: 0x4000, ..plain(64, 1 << 20, 16) };
    assert_eq!(wide.rows() * wide.stride(true) <= B_MAX, true);
    assert_eq!(s.begin(&wide, true, 64), Route::Host(Why::PastLimits));
    let long = Multiply { n: 15, ..wide };
    assert_eq!(s.begin(&long, true, 64), Route::Plan);
    s.fuse(0x2000, 0x2001, 0x2002);
    assert_eq!(s.begin(&q, true, 15), Route::Host(Why::Fused));
    assert_eq!(s.begin(&Multiply { key: 0x2002, ..q }, true, 15), Route::Host(Why::Fused));
    assert_eq!((s.calls, s.host_only, s.too_small), (9, 4, 0));
}

#[test]
fn every_row_of_an_allotted_multiply_is_computed_once() {
    for (offload, wants) in [(false, vec![100, 10]), (true, vec![232, 64]), (false, vec![0, 0])] {
        let mut s = shared(offload, 0);
        let a = s.allot(&plain(1000, 256, 8), &wants);
        let mut times = vec![0; 1000];
        for (lo, hi) in &s.host_ranges {
            for r in *lo..*hi {
                times[r as usize] += 1;
            }
        }
        match a {
            Allot::Cards { work, on_cards, .. } => {
                assert_eq!(work.iter().map(|w| w.rows).sum::<u64>(), on_cards);
                for w in work {
                    for r in w.lo..w.lo + w.rows {
                        times[r as usize] += 1;
                    }
                }
            }
            Allot::Host(why) => panic!("{why:?}"),
        }
        assert_eq!(times, vec![1; 1000]);
    }
}

#[test]
fn a_batch_leaves_the_host_part_of_the_slices() {
    let mut s = shared(false, 0);
    match s.allot(&plain(1000, 256, 8), &vec![100, 10]) {
        Allot::Cards { work, on_cards, read_back } => {
            // 232 - 128 and 64 - 0: the host's part of each is a multiple of 64.
            assert_eq!(
                work,
                [Work { card: 1, lo: 768, rows: 104 }, Work { card: 0, lo: 704, rows: 64 }]
            );
            assert_eq!(on_cards, 168);
            assert_eq!(read_back, 128 * 272);
        }
        Allot::Host(why) => panic!("{why:?}"),
    }
    assert_eq!(s.host_ranges, [(0, 704), (872, 1000)]);
    s.goes(128 * 272);
    assert_eq!(s.host_read, 128 * 272);
}

#[test]
fn a_mixture_uses_whole_slices_at_a_batch_too() {
    let mut s = shared(false, 0);
    let x = mixture(1000, 256, 4, 2, 16);
    match s.allot(&x, &vec![100, 10]) {
        Allot::Cards { work, on_cards, read_back } => {
            assert_eq!(
                work,
                [Work { card: 1, lo: 768, rows: 232 }, Work { card: 0, lo: 704, rows: 64 }]
            );
            assert_eq!((on_cards, read_back), (296, 0));
        }
        Allot::Host(why) => panic!("{why:?}"),
    }
    assert_eq!(s.host_ranges, [(0, 704)]);
    // The card finds expert e at e times the bytes of the rows it is asked
    // for, which are the rows it keeps.
    let d = x.descriptor(5, 232, true);
    assert_eq!((d.a_id, d.m, d.nb_a, d.n, d.n_used, d.n_tokens), (5, 232, 272, 32, 2, 16));
    assert_eq!((d.b_type, d.nb_b, d.b_rows, d.ids_bytes), (1, 512 + B_PAD, 1, 128));
    assert_eq!((d.b_off, d.d_off), (OFF_B, OFF_D));
    assert_eq!(plain(1, 256, 1).descriptor(5, 1, false).b_rows, 0);
}

#[test]
fn the_host_keeps_a_multiply_for_a_reason() {
    let floats = Multiply { a_type: MM_F32, ..plain(1000, 256, 8) };
    let why = |s: &mut Shares, m: &Multiply, wants: Vec<u64>| match s.allot(m, &wants) {
        Allot::Host(why) => Some(why),
        Allot::Cards { .. } => None,
    };
    let mut s = shared(false, 1_000_000);
    assert_eq!(why(&mut s, &floats, vec![1, 1]), Some(Why::FloatBatch));
    assert_eq!(s.host_read, 296 * 272, "the cards' rows are read back, and counted");
    assert_eq!(why(&mut s, &plain(1000, 256, 8), vec![100, 10]), Some(Why::TooSmall));
    assert_eq!(s.host_ranges, [(0, 1000)]);
    assert!(s.judge(0x1000, 0, Compared::PlainlyLonger));
    assert_eq!(why(&mut s, &plain(1000, 256, 1), vec![232, 64]), Some(Why::DidNotPay));
    assert_eq!((s.too_small, s.host_only), (3, 0));
    // Offloaded, none of these reasons count.
    let mut s = shared(true, 1_000_000);
    assert_eq!(why(&mut s, &floats, vec![232, 64]), None);
    assert!(!s.judge(0x1000, 0, Compared::PlainlyLonger));
    assert_eq!(why(&mut s, &plain(1000, 256, 1), vec![232, 64]), None);
    // A mixture saves its rows once per column.
    let mut s = shared(false, 296 * 272 * 2);
    assert_eq!(why(&mut s, &plain(1000, 256, 2), vec![232, 64]), Some(Why::TooSmall));
    assert_eq!(why(&mut s, &mixture(1000, 256, 4, 2, 1), vec![232, 64]), None);
}

#[test]
fn past_a_half_a_multiply_goes_as_floats_or_not_at_all() {
    let mut s = shared(false, 0);
    assert!(s.past_half(&plain(1000, 256, 8)));
    assert_eq!((s.host_only, s.host_ranges.len()), (0, 0));
    let wide = plain(1000, 1 << 20, 16);
    assert!(!s.past_half(&wide));
    assert_eq!((s.host_only, s.host_range(0)), (1, Some((0, 1000))));
}

#[test]
fn a_fused_blocks_tensor_is_unlearned() {
    let mut s = shared(false, 0);
    let split = s.unlearn(0x1000).unwrap();
    assert_eq!(split.cards.len(), 2);
    assert!(s.unlearn(0x1000).is_none());
    let mut s = shared(false, 0);
    s.clear();
    assert!(s.splits.is_empty());
}

#[test]
fn results_find_their_places() {
    let p = Pending { seq: 1, lo: 704, rows: 64, cols: 8, n_used: 0 };
    assert_eq!(p.places(3, 4000, 0), (OFF_D + 3 * 64 * 4, 3 * 4000 + 704 * 4));
    let x = Pending { n_used: 3, ..p };
    assert_eq!(
        x.places(7, 4000, 100_000),
        (OFF_D + 7 * 64 * 4, 4000 + 2 * 100_000 + 704 * 4)
    );
    let f = FfnPending { seq: 1, m_out: 96, n: 4 };
    assert_eq!(f.places(2, 500), (OFF_D + 2 * 96 * 4, 1000));
}

/// A block of 1024 of the intermediate against k 512, 96 outputs.
fn block(n: u64) -> FfnArgs {
    FfnArgs {
        gate_type: MM_Q4_K,
        up_type: MM_Q4_K,
        down_type: MM_Q6_K,
        k: 512,
        inter: 1024,
        m_out: 96,
        n,
        nb_gate: 288,
        nb_up: 288,
        nb_down: 840,
        nb_x: 2048,
    }
}

#[test]
fn a_block_is_quantized_and_in_whole_superblocks() {
    assert!(block(1).takes());
    assert!(!FfnArgs { down_type: MM_F16, ..block(1) }.takes());
    assert!(!FfnArgs { gate_type: MM_F32, ..block(1) }.takes());
    assert!(!FfnArgs { inter: 1000, ..block(1) }.takes());
    assert!(!FfnArgs { nb_down: 848, ..block(1) }.takes());
    assert!(!FfnArgs { nb_gate: 280, ..block(1) }.takes());
    assert!(!FfnArgs { nb_up: 0, ..block(1) }.takes());
    assert_eq!((block(1).stride(true), block(1).stride(false)), (1024 + B_PAD, 2048 + B_PAD));
    assert_eq!((block(7).class(), block(8).class()), (0, 1));
    assert_eq!(block(1).parts(512), [512 * 288, 512 * 288, 96 * 420]);
    assert!(block(1).fits(true) && !block(1 << 20).fits(true));
    assert_eq!((run_rows(1, 1024), run_rows(4, 1024), run_rows(9, 1024)), (256, 1024, 1024));
    assert!(fits_area(A_MAX) && !fits_area(A_MAX + 1));
}

#[test]
fn a_block_is_split_by_runs() {
    let bytes = 256 * 288 * 2 + 96 * 210;
    let mut plan = FfnPlan::new(block(1));
    let mut poor = Card::new(bytes - 1);
    assert_eq!(plan.offer(&mut poor, 1), FfnOffer::Spent);
    assert_eq!(plan.offer(&mut poor, 1), FfnOffer::Nothing);
    let mut card = Card::new(bytes);
    assert_eq!(plan.offer(&mut card, 0), FfnOffer::Nothing);
    assert_eq!(plan.offer(&mut card, 1), FfnOffer::Run { from: 768, rows: 256 });
    plan.answered(&mut card, 1, 256, 3);
    assert_eq!((card.next_id, card.uploaded, card.full), (4, bytes, false));
    assert_eq!((plan.lo, plan.ids[0]), (768, [1, 2, 3]));
    // A card that refuses its third part keeps none, and takes no more.
    let mut other = Card::new(u64::MAX);
    assert_eq!(plan.offer(&mut other, 9), FfnOffer::Run { from: 0, rows: 768 });
    plan.answered(&mut other, 0, 768, 2);
    assert_eq!((other.next_id, other.uploaded, other.full), (3, 0, true));
    let split = FfnSplit::of(plan);
    assert_eq!((split.r0, split.cards.len(), split.never), (768, 1, false));
    assert!(FfnSplit::host_only(1024).never);
    assert!(FfnSplit::of(FfnPlan::new(block(1))).never);
}

fn split() -> FfnSplit {
    FfnSplit {
        inter: 1024,
        r0: 256,
        cards: vec![Slice { card: 0, lo: 256, hi: 1024 }],
        ids: vec![[4, 5, 6]],
        bad: [0, 0],
        avoid: [false, false],
        never: false,
    }
}

#[test]
fn a_block_has_its_fate() {
    let mut s = split();
    assert_eq!(s.fate(&block(0), true, false), Fate::Empty);
    assert_eq!(s.fate(&block(8), true, false), Fate::Share);
    assert_eq!(s.fate(&block(1 << 20), true, false), Fate::PastLimits);
    let tall = FfnArgs { m_out: D_MAX, ..block(1) };
    assert_eq!(s.fate(&tall, true, false), Fate::PastLimits);
    assert_eq!(FfnSplit::host_only(1024).fate(&block(8), true, true), Fate::NotWorth);
    assert!(!s.judge(1, Compared::PlainlyLonger, true), "offloaded, nothing is judged");
    assert!(s.judge(1, Compared::PlainlyLonger, false));
    assert_eq!(s.fate(&block(8), true, false), Fate::NotWorth);
    assert_eq!(s.fate(&block(7), true, false), Fate::Share);
    assert_eq!(s.fate(&block(8), true, true), Fate::Share, "offloaded, the runs are the cards'");
    let mut t = Shares::new(false, true, 0);
    for f in [Fate::Empty, Fate::NotWorth, Fate::PastLimits, Fate::Share] {
        t.begin_block(f);
    }
    assert_eq!((t.calls, t.too_small, t.host_only), (4, 1, 1));
    assert!(t.block_past_half(&block(8)));
    assert!(!t.block_past_half(&block(1 << 20)));
    assert_eq!(t.host_only, 2);
}

#[test]
fn a_blocks_run_is_shared_in_superblocks() {
    let s = split();
    let Shared { work, ranges, on, r0 } = s.share(&vec![2]);
    assert_eq!(work, [Work { card: 0, lo: 256, rows: 512 }]);
    assert_eq!((ranges.clone(), on, r0), (vec![(0, 256), (768, 1024)], 512, 256));
    let mut t = Shares::new(false, true, 0);
    t.share_block(ranges);
    assert_eq!(t.host_range(1), Some((768, 1024)));
    assert_eq!(s.share(&vec![9]).ranges, [(0, 256)]);
    assert!(s.share(&vec![0]).work.is_empty());
    let f = request(&block(8), [4, 5, 6], 768, 512, true, true);
    assert_eq!((f.gate_id, f.up_id, f.down_id, f.rows, f.n), (4, 5, 6, 512, 8));
    assert_eq!((f.nb_down, f.nb_b, f.h_type, f.b_type), (3 * 210, 1024 + B_PAD, 1, 1));
    let f = request(&block(8), [4, 5, 6], 768, 512, false, false);
    assert_eq!((f.nb_b, f.h_type, f.b_type), (2048 + B_PAD, 0, 0));
}
