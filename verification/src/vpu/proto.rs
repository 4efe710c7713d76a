//! What the host and the card's worker say to each other through the shared
//! window: where the control words are, the requests, and the replies.
//!
//! Every record is little-endian with no padding between its fields, and
//! begins at the offset named for it. The host writes a request's fields
//! first and its sequence number last; the card writes its reply's fields
//! and then the echoed sequence number.
use crate::bits;
use crate::bits::{get_le32, get_le64, push_le32, push_le64};
use vstd::prelude::*;

verus! {

/// Where the worker asserts that it is polling: `MAGIC`, on every poll.
pub const OFF_READY: u64 = 0;

/// The request and its sequence number.
pub const OFF_REQ: u64 = 64;

/// The reply and its sequence number.
pub const OFF_REPLY: u64 = 128;

/// The descriptor of a matrix multiply.
pub const OFF_MATMUL: u64 = 256;

/// The descriptor of a feed-forward block.
pub const OFF_FFN: u64 = 512;

/// Where the data begins; the control words end before it.
pub const OFF_DATA: u64 = 4096;

/// The card reads and writes the window in whole blocks of this size.
pub const BLOCK: u64 = 4096;

/// A polynomial request takes a multiple of this many elements.
pub const CHUNK: u64 = 128;

/// The readiness word.
pub const MAGIC: u64 = 0x5048_495f_5650_5530;

/// The status of a request that went well.
pub const OK: i32 = 0;

/// Evaluate a polynomial of degree 30.
pub const K_POLY30: u32 = 1;

/// Keep weights on the card.
pub const K_UPLOAD: u32 = 2;

/// Multiply by weights the card keeps.
pub const K_MATMUL: u32 = 3;

/// Multiply by the experts each column picks.
pub const K_MATMUL_ID: u32 = 4;

/// Let go of weights; of all of them when no id is given.
pub const K_FREE: u32 = 5;

/// A whole feed-forward block.
pub const K_FFN: u32 = 6;

/// The weight types, by ggml's numbers.
pub const MM_F32: u32 = 0;

pub const MM_F16: u32 = 1;

pub const MM_Q8_0: u32 = 8;

pub const MM_Q4_K: u32 = 12;

pub const MM_Q5_K: u32 = 13;

pub const MM_Q6_K: u32 = 14;

pub const MM_IQ4_XS: u32 = 23;

/// In place of a weight type: the card's SwiGLU alone, to be checked.
pub const MM_SWIGLU: u32 = 98;

/// In place of a weight type: the instruction probe.
pub const MM_PROBE: u32 = 99;

/// One request: the card runs `kernel` on `threads` of its threads. The
/// sequence number comes first: it is the word the card polls.
#[derive(Clone, Copy, PartialEq, Eq, Structural, Debug)]
pub struct Request {
    pub seq: u64,
    pub kernel: u32,
    pub threads: u32,
    pub n: u64,
    pub in_off: u64,
    pub out_off: u64,
    pub aux_off: u64,
    pub aux_len: u64,
}

impl Request {
    /// The record as it stands in the window.
    pub open spec fn spec_bytes(self) -> Seq<u8> {
        bits::le64(self.seq) + bits::le32(self.kernel) + bits::le32(self.threads) + bits::le64(self.n) + bits::le64(self.in_off) + bits::le64(self.out_off) + bits::le64(self.aux_off) + bits::le64(self.aux_len)
    }

    /// How long it is.
    #[verifier::allow_in_spec]
    pub fn size() -> usize
        returns
            56usize,
    {
        56
    }

    /// The record that begins at `at`.
    pub open spec fn spec_read(b: Seq<u8>, at: int) -> Request {
        Request {
            seq: bits::word64(b, at + 0),
            kernel: bits::word32(b, at + 8),
            threads: bits::word32(b, at + 12),
            n: bits::word64(b, at + 16),
            in_off: bits::word64(b, at + 24),
            out_off: bits::word64(b, at + 32),
            aux_off: bits::word64(b, at + 40),
            aux_len: bits::word64(b, at + 48),
        }
    }

    /// The record as it stands in the window.
    pub fn bytes(&self) -> (v: Vec<u8>)
        ensures
            v@ == self.spec_bytes(),
            v@.len() == 56,
    {
        let mut v: Vec<u8> = Vec::new();
        push_le64(&mut v, self.seq);
        push_le32(&mut v, self.kernel);
        push_le32(&mut v, self.threads);
        push_le64(&mut v, self.n);
        push_le64(&mut v, self.in_off);
        push_le64(&mut v, self.out_off);
        push_le64(&mut v, self.aux_off);
        push_le64(&mut v, self.aux_len);
        assert(v@ =~= self.spec_bytes());
        v
    }

    /// The record that begins at `at` of the window.
    pub fn read(b: &[u8], at: usize) -> (r: Request)
        requires
            at + 56 <= b@.len(),
        ensures
            r == Request::spec_read(b@, at as int),
    {
        let end: usize = b.len();
        assert(at + 56 <= end);
        Request {
            seq: get_le64(b, at),
            kernel: get_le32(b, at + 8),
            threads: get_le32(b, at + 12),
            n: get_le64(b, at + 16),
            in_off: get_le64(b, at + 24),
            out_off: get_le64(b, at + 32),
            aux_off: get_le64(b, at + 40),
            aux_len: get_le64(b, at + 48),
        }
    }

    /// What is read where a record was written is that record.
    pub proof fn law_read_back(self, b: Seq<u8>, at: int)
        requires
            0 <= at,
            at + 56 <= b.len(),
            b.subrange(at, at + 56) == self.spec_bytes(),
        ensures
            Request::spec_read(b, at) == self,
    {
        let s = self.spec_bytes();
        assert(s.subrange(0, 8) =~= bits::le64(self.seq));
        lemma_field64(b, at, s, 0, self.seq);
        assert(s.subrange(8, 12) =~= bits::le32(self.kernel));
        lemma_field32(b, at, s, 8, self.kernel);
        assert(s.subrange(12, 16) =~= bits::le32(self.threads));
        lemma_field32(b, at, s, 12, self.threads);
        assert(s.subrange(16, 24) =~= bits::le64(self.n));
        lemma_field64(b, at, s, 16, self.n);
        assert(s.subrange(24, 32) =~= bits::le64(self.in_off));
        lemma_field64(b, at, s, 24, self.in_off);
        assert(s.subrange(32, 40) =~= bits::le64(self.out_off));
        lemma_field64(b, at, s, 32, self.out_off);
        assert(s.subrange(40, 48) =~= bits::le64(self.aux_off));
        lemma_field64(b, at, s, 40, self.aux_off);
        assert(s.subrange(48, 56) =~= bits::le64(self.aux_len));
        lemma_field64(b, at, s, 48, self.aux_len);
    }
}

/// The card's answer: the sequence number of the request, how it went, and
/// the time each part took in nanoseconds.
#[derive(Clone, Copy, PartialEq, Eq, Structural, Debug)]
pub struct Reply {
    pub seq: u64,
    pub status: i32,
    pub threads: u32,
    pub pull_ns: u64,
    pub compute_ns: u64,
    pub push_ns: u64,
    pub total_ns: u64,
}

impl Reply {
    /// The record as it stands in the window.
    pub open spec fn spec_bytes(self) -> Seq<u8> {
        bits::le64(self.seq) + bits::le32(self.status as u32) + bits::le32(self.threads) + bits::le64(self.pull_ns) + bits::le64(self.compute_ns) + bits::le64(self.push_ns) + bits::le64(self.total_ns)
    }

    /// How long it is.
    #[verifier::allow_in_spec]
    pub fn size() -> usize
        returns
            48usize,
    {
        48
    }

    /// The record that begins at `at`.
    pub open spec fn spec_read(b: Seq<u8>, at: int) -> Reply {
        Reply {
            seq: bits::word64(b, at + 0),
            status: (bits::word32(b, at + 8)) as i32,
            threads: bits::word32(b, at + 12),
            pull_ns: bits::word64(b, at + 16),
            compute_ns: bits::word64(b, at + 24),
            push_ns: bits::word64(b, at + 32),
            total_ns: bits::word64(b, at + 40),
        }
    }

    /// The record as it stands in the window.
    pub fn bytes(&self) -> (v: Vec<u8>)
        ensures
            v@ == self.spec_bytes(),
            v@.len() == 48,
    {
        let mut v: Vec<u8> = Vec::new();
        push_le64(&mut v, self.seq);
        push_le32(&mut v, self.status as u32);
        push_le32(&mut v, self.threads);
        push_le64(&mut v, self.pull_ns);
        push_le64(&mut v, self.compute_ns);
        push_le64(&mut v, self.push_ns);
        push_le64(&mut v, self.total_ns);
        assert(v@ =~= self.spec_bytes());
        v
    }

    /// The record that begins at `at` of the window.
    pub fn read(b: &[u8], at: usize) -> (r: Reply)
        requires
            at + 48 <= b@.len(),
        ensures
            r == Reply::spec_read(b@, at as int),
    {
        let end: usize = b.len();
        assert(at + 48 <= end);
        Reply {
            seq: get_le64(b, at),
            status: get_le32(b, at + 8) as i32,
            threads: get_le32(b, at + 12),
            pull_ns: get_le64(b, at + 16),
            compute_ns: get_le64(b, at + 24),
            push_ns: get_le64(b, at + 32),
            total_ns: get_le64(b, at + 40),
        }
    }

    /// What is read where a record was written is that record.
    pub proof fn law_read_back(self, b: Seq<u8>, at: int)
        requires
            0 <= at,
            at + 48 <= b.len(),
            b.subrange(at, at + 48) == self.spec_bytes(),
        ensures
            Reply::spec_read(b, at) == self,
    {
        let s = self.spec_bytes();
        assert(s.subrange(0, 8) =~= bits::le64(self.seq));
        lemma_field64(b, at, s, 0, self.seq);
        assert(s.subrange(8, 12) =~= bits::le32(self.status as u32));
        lemma_field32(b, at, s, 8, self.status as u32);
        assert(s.subrange(12, 16) =~= bits::le32(self.threads));
        lemma_field32(b, at, s, 12, self.threads);
        assert(s.subrange(16, 24) =~= bits::le64(self.pull_ns));
        lemma_field64(b, at, s, 16, self.pull_ns);
        assert(s.subrange(24, 32) =~= bits::le64(self.compute_ns));
        lemma_field64(b, at, s, 24, self.compute_ns);
        assert(s.subrange(32, 40) =~= bits::le64(self.push_ns));
        lemma_field64(b, at, s, 32, self.push_ns);
        assert(s.subrange(40, 48) =~= bits::le64(self.total_ns));
        lemma_field64(b, at, s, 40, self.total_ns);
        let x: i32 = self.status;
        assert((x as u32) as i32 == x) by (bit_vector);
    }
}

/// The descriptor of a matrix multiply: `m` rows of `k` weights, `nb_a`
/// bytes apart, against `n` rows of activations, `nb_b` bytes apart. A
/// mixture names the experts of its columns in front of the activations.
#[derive(Clone, Copy, PartialEq, Eq, Structural, Debug)]
pub struct Matmul {
    pub a_id: u64,
    pub a_off: u64,
    pub bytes: u64,
    pub a_type: u32,
    pub b_type: u32,
    pub m: u64,
    pub n: u64,
    pub k: u64,
    pub nb_a: u64,
    pub nb_b: u64,
    pub b_off: u64,
    pub d_off: u64,
    pub chunk: u64,
    pub n_used: u64,
    pub n_tokens: u64,
    pub b_rows: u64,
    pub ids_bytes: u64,
}

impl Matmul {
    /// The record as it stands in the window.
    pub open spec fn spec_bytes(self) -> Seq<u8> {
        bits::le64(self.a_id) + bits::le64(self.a_off) + bits::le64(self.bytes) + bits::le32(self.a_type) + bits::le32(self.b_type) + bits::le64(self.m) + bits::le64(self.n) + bits::le64(self.k) + bits::le64(self.nb_a) + bits::le64(self.nb_b) + bits::le64(self.b_off) + bits::le64(self.d_off) + bits::le64(self.chunk) + bits::le64(self.n_used) + bits::le64(self.n_tokens) + bits::le64(self.b_rows) + bits::le64(self.ids_bytes)
    }

    /// How long it is.
    #[verifier::allow_in_spec]
    pub fn size() -> usize
        returns
            128usize,
    {
        128
    }

    /// The record that begins at `at`.
    pub open spec fn spec_read(b: Seq<u8>, at: int) -> Matmul {
        Matmul {
            a_id: bits::word64(b, at + 0),
            a_off: bits::word64(b, at + 8),
            bytes: bits::word64(b, at + 16),
            a_type: bits::word32(b, at + 24),
            b_type: bits::word32(b, at + 28),
            m: bits::word64(b, at + 32),
            n: bits::word64(b, at + 40),
            k: bits::word64(b, at + 48),
            nb_a: bits::word64(b, at + 56),
            nb_b: bits::word64(b, at + 64),
            b_off: bits::word64(b, at + 72),
            d_off: bits::word64(b, at + 80),
            chunk: bits::word64(b, at + 88),
            n_used: bits::word64(b, at + 96),
            n_tokens: bits::word64(b, at + 104),
            b_rows: bits::word64(b, at + 112),
            ids_bytes: bits::word64(b, at + 120),
        }
    }

    /// The record as it stands in the window.
    pub fn bytes(&self) -> (v: Vec<u8>)
        ensures
            v@ == self.spec_bytes(),
            v@.len() == 128,
    {
        let mut v: Vec<u8> = Vec::new();
        push_le64(&mut v, self.a_id);
        push_le64(&mut v, self.a_off);
        push_le64(&mut v, self.bytes);
        push_le32(&mut v, self.a_type);
        push_le32(&mut v, self.b_type);
        push_le64(&mut v, self.m);
        push_le64(&mut v, self.n);
        push_le64(&mut v, self.k);
        push_le64(&mut v, self.nb_a);
        push_le64(&mut v, self.nb_b);
        push_le64(&mut v, self.b_off);
        push_le64(&mut v, self.d_off);
        push_le64(&mut v, self.chunk);
        push_le64(&mut v, self.n_used);
        push_le64(&mut v, self.n_tokens);
        push_le64(&mut v, self.b_rows);
        push_le64(&mut v, self.ids_bytes);
        assert(v@ =~= self.spec_bytes());
        v
    }

    /// The record that begins at `at` of the window.
    pub fn read(b: &[u8], at: usize) -> (r: Matmul)
        requires
            at + 128 <= b@.len(),
        ensures
            r == Matmul::spec_read(b@, at as int),
    {
        let end: usize = b.len();
        assert(at + 128 <= end);
        Matmul {
            a_id: get_le64(b, at),
            a_off: get_le64(b, at + 8),
            bytes: get_le64(b, at + 16),
            a_type: get_le32(b, at + 24),
            b_type: get_le32(b, at + 28),
            m: get_le64(b, at + 32),
            n: get_le64(b, at + 40),
            k: get_le64(b, at + 48),
            nb_a: get_le64(b, at + 56),
            nb_b: get_le64(b, at + 64),
            b_off: get_le64(b, at + 72),
            d_off: get_le64(b, at + 80),
            chunk: get_le64(b, at + 88),
            n_used: get_le64(b, at + 96),
            n_tokens: get_le64(b, at + 104),
            b_rows: get_le64(b, at + 112),
            ids_bytes: get_le64(b, at + 120),
        }
    }

    /// What is read where a record was written is that record.
    #[verifier::rlimit(80)]
    pub proof fn law_read_back(self, b: Seq<u8>, at: int)
        requires
            0 <= at,
            at + 128 <= b.len(),
            b.subrange(at, at + 128) == self.spec_bytes(),
        ensures
            Matmul::spec_read(b, at) == self,
    {
        let s = self.spec_bytes();
        assert(s.subrange(0, 8) =~= bits::le64(self.a_id));
        lemma_field64(b, at, s, 0, self.a_id);
        assert(s.subrange(8, 16) =~= bits::le64(self.a_off));
        lemma_field64(b, at, s, 8, self.a_off);
        assert(s.subrange(16, 24) =~= bits::le64(self.bytes));
        lemma_field64(b, at, s, 16, self.bytes);
        assert(s.subrange(24, 28) =~= bits::le32(self.a_type));
        lemma_field32(b, at, s, 24, self.a_type);
        assert(s.subrange(28, 32) =~= bits::le32(self.b_type));
        lemma_field32(b, at, s, 28, self.b_type);
        assert(s.subrange(32, 40) =~= bits::le64(self.m));
        lemma_field64(b, at, s, 32, self.m);
        assert(s.subrange(40, 48) =~= bits::le64(self.n));
        lemma_field64(b, at, s, 40, self.n);
        assert(s.subrange(48, 56) =~= bits::le64(self.k));
        lemma_field64(b, at, s, 48, self.k);
        assert(s.subrange(56, 64) =~= bits::le64(self.nb_a));
        lemma_field64(b, at, s, 56, self.nb_a);
        assert(s.subrange(64, 72) =~= bits::le64(self.nb_b));
        lemma_field64(b, at, s, 64, self.nb_b);
        assert(s.subrange(72, 80) =~= bits::le64(self.b_off));
        lemma_field64(b, at, s, 72, self.b_off);
        assert(s.subrange(80, 88) =~= bits::le64(self.d_off));
        lemma_field64(b, at, s, 80, self.d_off);
        assert(s.subrange(88, 96) =~= bits::le64(self.chunk));
        lemma_field64(b, at, s, 88, self.chunk);
        assert(s.subrange(96, 104) =~= bits::le64(self.n_used));
        lemma_field64(b, at, s, 96, self.n_used);
        assert(s.subrange(104, 112) =~= bits::le64(self.n_tokens));
        lemma_field64(b, at, s, 104, self.n_tokens);
        assert(s.subrange(112, 120) =~= bits::le64(self.b_rows));
        lemma_field64(b, at, s, 112, self.b_rows);
        assert(s.subrange(120, 128) =~= bits::le64(self.ids_bytes));
        lemma_field64(b, at, s, 120, self.ids_bytes);
    }
}

/// The descriptor of a whole feed-forward block: a run of `rows` rows of
/// the intermediate, as gate and up rows and as columns of down.
#[derive(Clone, Copy, PartialEq, Eq, Structural, Debug)]
pub struct Ffn {
    pub gate_id: u64,
    pub up_id: u64,
    pub down_id: u64,
    pub gate_type: u32,
    pub up_type: u32,
    pub down_type: u32,
    pub b_type: u32,
    pub rows: u64,
    pub k: u64,
    pub m_out: u64,
    pub n: u64,
    pub nb_gate: u64,
    pub nb_up: u64,
    pub nb_down: u64,
    pub nb_b: u64,
    pub b_off: u64,
    pub d_off: u64,
    pub chunk: u64,
    pub h_type: u32,
    pub pad: u32,
}

/// The words a feed-forward descriptor ends with, which are kept for later use
/// and zero: seven of eight bytes.
pub open spec fn reserved() -> Seq<u8> {
    bits::le64(0) + bits::le64(0) + bits::le64(0) + bits::le64(0) + bits::le64(0) + bits::le64(0)
        + bits::le64(0)
}

impl Ffn {
    /// The record as it stands in the window.
    pub open spec fn spec_bytes(self) -> Seq<u8> {
        bits::le64(self.gate_id) + bits::le64(self.up_id) + bits::le64(self.down_id) + bits::le32(self.gate_type) + bits::le32(self.up_type) + bits::le32(self.down_type) + bits::le32(self.b_type) + bits::le64(self.rows) + bits::le64(self.k) + bits::le64(self.m_out) + bits::le64(self.n) + bits::le64(self.nb_gate) + bits::le64(self.nb_up) + bits::le64(self.nb_down) + bits::le64(self.nb_b) + bits::le64(self.b_off) + bits::le64(self.d_off) + bits::le64(self.chunk) + bits::le32(self.h_type) + bits::le32(self.pad) + reserved()
    }

    /// How long it is.
    #[verifier::allow_in_spec]
    pub fn size() -> usize
        returns
            192usize,
    {
        192
    }

    /// The record that begins at `at`.
    pub open spec fn spec_read(b: Seq<u8>, at: int) -> Ffn {
        Ffn {
            gate_id: bits::word64(b, at + 0),
            up_id: bits::word64(b, at + 8),
            down_id: bits::word64(b, at + 16),
            gate_type: bits::word32(b, at + 24),
            up_type: bits::word32(b, at + 28),
            down_type: bits::word32(b, at + 32),
            b_type: bits::word32(b, at + 36),
            rows: bits::word64(b, at + 40),
            k: bits::word64(b, at + 48),
            m_out: bits::word64(b, at + 56),
            n: bits::word64(b, at + 64),
            nb_gate: bits::word64(b, at + 72),
            nb_up: bits::word64(b, at + 80),
            nb_down: bits::word64(b, at + 88),
            nb_b: bits::word64(b, at + 96),
            b_off: bits::word64(b, at + 104),
            d_off: bits::word64(b, at + 112),
            chunk: bits::word64(b, at + 120),
            h_type: bits::word32(b, at + 128),
            pad: bits::word32(b, at + 132),
        }
    }

    /// The record as it stands in the window.
    pub fn bytes(&self) -> (v: Vec<u8>)
        ensures
            v@ == self.spec_bytes(),
            v@.len() == 192,
    {
        let mut v: Vec<u8> = Vec::new();
        push_le64(&mut v, self.gate_id);
        push_le64(&mut v, self.up_id);
        push_le64(&mut v, self.down_id);
        push_le32(&mut v, self.gate_type);
        push_le32(&mut v, self.up_type);
        push_le32(&mut v, self.down_type);
        push_le32(&mut v, self.b_type);
        push_le64(&mut v, self.rows);
        push_le64(&mut v, self.k);
        push_le64(&mut v, self.m_out);
        push_le64(&mut v, self.n);
        push_le64(&mut v, self.nb_gate);
        push_le64(&mut v, self.nb_up);
        push_le64(&mut v, self.nb_down);
        push_le64(&mut v, self.nb_b);
        push_le64(&mut v, self.b_off);
        push_le64(&mut v, self.d_off);
        push_le64(&mut v, self.chunk);
        push_le32(&mut v, self.h_type);
        push_le32(&mut v, self.pad);
        let ghost fields = v@;
        push_le64(&mut v, 0);
        push_le64(&mut v, 0);
        push_le64(&mut v, 0);
        push_le64(&mut v, 0);
        push_le64(&mut v, 0);
        push_le64(&mut v, 0);
        push_le64(&mut v, 0);
        assert(v@ =~= fields + reserved());
        assert(v@ =~= self.spec_bytes());
        v
    }

    /// The record that begins at `at` of the window.
    pub fn read(b: &[u8], at: usize) -> (r: Ffn)
        requires
            at + 192 <= b@.len(),
        ensures
            r == Ffn::spec_read(b@, at as int),
    {
        let end: usize = b.len();
        assert(at + 192 <= end);
        Ffn {
            gate_id: get_le64(b, at),
            up_id: get_le64(b, at + 8),
            down_id: get_le64(b, at + 16),
            gate_type: get_le32(b, at + 24),
            up_type: get_le32(b, at + 28),
            down_type: get_le32(b, at + 32),
            b_type: get_le32(b, at + 36),
            rows: get_le64(b, at + 40),
            k: get_le64(b, at + 48),
            m_out: get_le64(b, at + 56),
            n: get_le64(b, at + 64),
            nb_gate: get_le64(b, at + 72),
            nb_up: get_le64(b, at + 80),
            nb_down: get_le64(b, at + 88),
            nb_b: get_le64(b, at + 96),
            b_off: get_le64(b, at + 104),
            d_off: get_le64(b, at + 112),
            chunk: get_le64(b, at + 120),
            h_type: get_le32(b, at + 128),
            pad: get_le32(b, at + 132),
        }
    }

    /// What is read where a record was written is that record.
    #[verifier::rlimit(80)]
    pub proof fn law_read_back(self, b: Seq<u8>, at: int)
        requires
            0 <= at,
            at + 192 <= b.len(),
            b.subrange(at, at + 192) == self.spec_bytes(),
        ensures
            Ffn::spec_read(b, at) == self,
    {
        let s = self.spec_bytes();
        assert(s.subrange(0, 8) =~= bits::le64(self.gate_id));
        lemma_field64(b, at, s, 0, self.gate_id);
        assert(s.subrange(8, 16) =~= bits::le64(self.up_id));
        lemma_field64(b, at, s, 8, self.up_id);
        assert(s.subrange(16, 24) =~= bits::le64(self.down_id));
        lemma_field64(b, at, s, 16, self.down_id);
        assert(s.subrange(24, 28) =~= bits::le32(self.gate_type));
        lemma_field32(b, at, s, 24, self.gate_type);
        assert(s.subrange(28, 32) =~= bits::le32(self.up_type));
        lemma_field32(b, at, s, 28, self.up_type);
        assert(s.subrange(32, 36) =~= bits::le32(self.down_type));
        lemma_field32(b, at, s, 32, self.down_type);
        assert(s.subrange(36, 40) =~= bits::le32(self.b_type));
        lemma_field32(b, at, s, 36, self.b_type);
        assert(s.subrange(40, 48) =~= bits::le64(self.rows));
        lemma_field64(b, at, s, 40, self.rows);
        assert(s.subrange(48, 56) =~= bits::le64(self.k));
        lemma_field64(b, at, s, 48, self.k);
        assert(s.subrange(56, 64) =~= bits::le64(self.m_out));
        lemma_field64(b, at, s, 56, self.m_out);
        assert(s.subrange(64, 72) =~= bits::le64(self.n));
        lemma_field64(b, at, s, 64, self.n);
        assert(s.subrange(72, 80) =~= bits::le64(self.nb_gate));
        lemma_field64(b, at, s, 72, self.nb_gate);
        assert(s.subrange(80, 88) =~= bits::le64(self.nb_up));
        lemma_field64(b, at, s, 80, self.nb_up);
        assert(s.subrange(88, 96) =~= bits::le64(self.nb_down));
        lemma_field64(b, at, s, 88, self.nb_down);
        assert(s.subrange(96, 104) =~= bits::le64(self.nb_b));
        lemma_field64(b, at, s, 96, self.nb_b);
        assert(s.subrange(104, 112) =~= bits::le64(self.b_off));
        lemma_field64(b, at, s, 104, self.b_off);
        assert(s.subrange(112, 120) =~= bits::le64(self.d_off));
        lemma_field64(b, at, s, 112, self.d_off);
        assert(s.subrange(120, 128) =~= bits::le64(self.chunk));
        lemma_field64(b, at, s, 120, self.chunk);
        assert(s.subrange(128, 132) =~= bits::le32(self.h_type));
        lemma_field32(b, at, s, 128, self.h_type);
        assert(s.subrange(132, 136) =~= bits::le32(self.pad));
        lemma_field32(b, at, s, 132, self.pad);
    }
}

/// A word of a record, read where the record was written.
proof fn lemma_field32(b: Seq<u8>, at: int, s: Seq<u8>, o: int, x: u32)
    requires
        0 <= at,
        0 <= o,
        o + 4 <= s.len(),
        at + s.len() <= b.len(),
        b.subrange(at, at + s.len()) == s,
        s.subrange(o, o + 4) == bits::le32(x),
    ensures
        bits::word32(b, at + o) == x,
{
    bits::lemma_word32(x);
    let l = bits::le32(x);
    assert forall|i: int| 0 <= i < 4 implies #[trigger] b[at + o + i] == l[i] by {
        assert(b.subrange(at, at + s.len())[o + i] == s[o + i]);
        assert(s.subrange(o, o + 4)[i] == s[o + i]);
    }
}

/// A word of a record, read where the record was written.
proof fn lemma_field64(b: Seq<u8>, at: int, s: Seq<u8>, o: int, x: u64)
    requires
        0 <= at,
        0 <= o,
        o + 8 <= s.len(),
        at + s.len() <= b.len(),
        b.subrange(at, at + s.len()) == s,
        s.subrange(o, o + 8) == bits::le64(x),
    ensures
        bits::word64(b, at + o) == x,
{
    bits::lemma_word64(x);
    let l = bits::le64(x);
    assert forall|i: int| 0 <= i < 8 implies #[trigger] b[at + o + i] == l[i] by {
        assert(b.subrange(at, at + s.len())[o + i] == s[o + i]);
        assert(s.subrange(o, o + 8)[i] == s[o + i]);
    }
}

} // verus!
