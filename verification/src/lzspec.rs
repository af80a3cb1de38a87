//! Mathematical model of the payload decompressor.
//!
//! The decompressor is an adaptive binary arithmetic decoder driving an
//! LZ77 output machine with a four-entry cache of recent match
//! distances.  This module defines the whole machine as pure functions
//! over ghost state; `lzunpack` implements the same machine in
//! executable code and proves each routine equal to its model.

use vstd::prelude::*;

verus! {

use crate::lzunpack::DecodeError;
use vstd::arithmetic::power2::pow2;

/// Number of adaptive bit contexts the decoder owns.
pub const CTX_COUNT: usize = 0x1F36;

/// State of the binary arithmetic decoder: a 32-bit scale and value,
/// a cursor over the input bytes, and the adaptive probability table.
/// `failed` is set when a renormalization step ran out of input.
#[verifier::ext_equal]
pub ghost struct Bad {
    pub scale: u32,
    pub value: u32,
    /// All bytes handed to the decoder; never changes.
    pub data: Seq<u8>,
    /// Cursor into `data`: the next byte renormalization will consume.
    pub pos: int,
    /// Adaptive probability table, one threshold per context.
    pub ctx: Seq<u16>,
    pub failed: bool,
}

/// Well-formed decoder state: full context table, every threshold in
/// range, cursor inside the input.
pub open spec fn bad_wf(d: Bad) -> bool {
    &&& d.ctx.len() == CTX_COUNT
    &&& forall|i: int| 0 <= i < d.ctx.len() ==> (#[trigger] d.ctx[i]) < 0x800
    &&& 0 <= d.pos <= d.data.len()
}

/// Renormalization: while the scale has shrunk below 2^24, one byte of
/// input is shifted into the low end of the value and the scale grows
/// by the same factor, both wrapping modulo 2^32.
pub open spec fn s_renorm(d: Bad) -> Bad {
    if d.failed {
        d
    } else if d.scale < 0x0100_0000 {
        if d.pos < d.data.len() {
            Bad {
                scale: d.scale << 8,
                value: (d.value << 8) | (d.data[d.pos] as u32),
                pos: d.pos + 1,
                ..d
            }
        } else {
            Bad { failed: true, ..d }
        }
    } else {
        d
    }
}

/// One adaptive (biased) bit read against context `cx`.
pub open spec fn s_bit(d0: Bad, cx: int) -> (Bad, bool) {
    let d = s_renorm(d0);
    if d.failed {
        (d, false)
    } else {
        let t = d.ctx[cx];
        let st = (((d.scale >> 11) as int) * (t as int)) as u32;
        if d.value < st {
            let t2 = ((t - (((t + 0x1f) as u16) >> 5) + 0x40) as u16);
            (Bad { scale: st, ctx: d.ctx.update(cx, t2), ..d }, false)
        } else {
            let t2 = ((t - (t >> 5)) as u16);
            (
                Bad {
                    value: (d.value - st) as u32,
                    scale: (d.scale - st) as u32,
                    ctx: d.ctx.update(cx, t2),
                    ..d
                },
                true,
            )
        }
    }
}

/// One unbiased bit read: the scale is halved and the value selects a
/// half.
pub open spec fn s_raw(d0: Bad) -> (Bad, bool) {
    let d = s_renorm(d0);
    if d.failed {
        (d, false)
    } else {
        let sc = d.scale >> 1;
        if d.value < sc {
            (Bad { scale: sc, ..d }, false)
        } else {
            (Bad { scale: sc, value: (d.value - sc) as u32, ..d }, true)
        }
    }
}

/// Initial decoder state over `input`: maximal scale, the value read
/// big-endian from the first four bytes, every threshold at 0x400.
pub open spec fn s_bad_init(input: Seq<u8>) -> Result<Bad, DecodeError> {
    if input.len() < 4 {
        Err(DecodeError::TruncatedInput)
    } else {
        Ok(
            Bad {
                scale: 0xFFFF_FFFFu32,
                value: ((input[0] as u32) << 24) | ((input[1] as u32) << 16) | ((input[2] as u32)
                    << 8) | (input[3] as u32),
                data: input,
                pos: 4,
                ctx: Seq::new(CTX_COUNT as nat, |i: int| 0x400u16),
                failed: false,
            },
        )
    }
}

/// The threshold updates keep every threshold strictly below 0x800.
pub proof fn lemma_threshold_updates(t: u16)
    by (bit_vector)
    requires
        t < 0x800,
    ensures
        ((t + 0x1f) as u16) >> 5 <= t,
        t + 0x1f < 0x10000,
        (t - (((t + 0x1f) as u16) >> 5) + 0x40) < 0x800,
        t >> 5 <= t,
        (t - (t >> 5)) < 0x800,
{
}

/// The scaled threshold fits in 32 bits and never exceeds the scale.
pub proof fn lemma_scaled_threshold(scale: u32, t: u16)
    requires
        t < 0x800,
    ensures
        ((scale >> 11) as int) * (t as int) < 0x1_0000_0000,
        ((scale >> 11) as int) * (t as int) <= scale,
{
    let s11 = scale >> 11;
    assert(scale >> 11 == scale / 0x800) by (bit_vector);
    assert((s11 as int) * (t as int) <= scale as int && (s11 as int) * (t as int)
        < 0x1_0000_0000) by (nonlinear_arith)
        requires
            s11 == scale / 0x800,
            0 <= t < 0x800,
            scale <= 0xFFFF_FFFFu32,
    ;
}

/// The bit as an integer.
pub open spec fn bu(b: bool) -> u32 {
    if b {
        1
    } else {
        0
    }
}

/// Reads `n` bits most-significant first.  The context of each bit is
/// `base` plus the path through a binary tree: one followed by the
/// bits already read, so bit `i` with prefix `v` uses context
/// `base + pow2(i) + v`.
pub open spec fn s_bits_msb(d: Bad, base: int, n: int, i: int, v: u32) -> (Bad, u32)
    decreases n - i,
{
    if i >= n {
        (d, v)
    } else {
        let (d2, b) = s_bit(d, base + pow2(i as nat) + v);
        s_bits_msb(d2, base, n, i + 1, (2 * v + bu(b)) as u32)
    }
}

/// Reads `n` bits least-significant first.  Contexts are indexed as in
/// `s_bits_msb`, by `base + pow2(i)` plus the value assembled so far.
pub open spec fn s_bits_lsb(d: Bad, base: int, n: int, i: int, v: u32) -> (Bad, u32)
    decreases n - i,
{
    if i >= n {
        (d, v)
    } else {
        let (d2, b) = s_bit(d, base + pow2(i as nat) + v);
        s_bits_lsb(d2, base, n, i + 1, (v + bu(b) * pow2(i as nat)) as u32)
    }
}

/// Reads an 8-bit literal guided by the reference byte `rf`.  While no
/// decoded bit has disagreed with the reference (`m` is false), the
/// context moves to one of two reference subregions chosen by the
/// reference bit; after the first mismatch decoding continues in the
/// plain region.
pub open spec fn s_byte_ref(d: Bad, base: int, rf: u8, i: int, v: u32, m: bool) -> (Bad, u32)
    decreases 8 - i,
{
    if i >= 8 {
        (d, v)
    } else if m {
        let (d2, b) = s_bit(d, base + pow2(i as nat) + v);
        s_byte_ref(d2, base, rf, i + 1, (2 * v + bu(b)) as u32, true)
    } else {
        let rb = ((rf as u32) >> ((7 - i) as u32)) & 1;
        let sub: int = if rb == 0 {
            0x100
        } else {
            0x200
        };
        let (d2, b) = s_bit(d, base + pow2(i as nat) + sub + v);
        s_byte_ref(d2, base, rf, i + 1, (2 * v + bu(b)) as u32, bu(b) != rb)
    }
}

/// Reads a unary-coded number: the count of one bits before the first
/// zero bit, at most `size`.  Bit `i` uses context `base + stride * i`.
pub open spec fn s_unary(d: Bad, base: int, stride: int, size: int, i: int) -> (Bad, int)
    decreases size - i,
{
    if i >= size {
        (d, i)
    } else {
        let (d2, b) = s_bit(d, base + stride * i);
        if !b {
            (d2, i)
        } else {
            s_unary(d2, base, stride, size, i + 1)
        }
    }
}

pub proof fn lemma_bits_msb_failed(d: Bad, base: int, n: int, i: int, v: u32)
    requires
        d.failed,
    ensures
        s_bits_msb(d, base, n, i, v).0 == d,
    decreases n - i,
{
    if i < n {
        lemma_bits_msb_failed(d, base, n, i + 1, (2 * v + bu(false)) as u32);
    }
}

pub proof fn lemma_bits_lsb_failed(d: Bad, base: int, n: int, i: int, v: u32)
    requires
        d.failed,
    ensures
        s_bits_lsb(d, base, n, i, v).0 == d,
    decreases n - i,
{
    if i < n {
        lemma_bits_lsb_failed(d, base, n, i + 1, (v + bu(false) * pow2(i as nat)) as u32);
    }
}

pub proof fn lemma_byte_ref_failed(d: Bad, base: int, rf: u8, i: int, v: u32, m: bool)
    requires
        d.failed,
    ensures
        s_byte_ref(d, base, rf, i, v, m).0 == d,
    decreases 8 - i,
{
    if i < 8 {
        if m {
            lemma_byte_ref_failed(d, base, rf, i + 1, (2 * v + bu(false)) as u32, true);
        } else {
            let rb = ((rf as u32) >> ((7 - i) as u32)) & 1;
            lemma_byte_ref_failed(d, base, rf, i + 1, (2 * v + bu(false)) as u32, bu(false) != rb);
        }
    }
}

pub proof fn lemma_unary_failed(d: Bad, base: int, stride: int, size: int, i: int)
    requires
        d.failed,
    ensures
        s_unary(d, base, stride, size, i).0 == d,
    decreases size - i,
{
    if i < size {
        lemma_unary_failed(d, base, stride, size, i + 1);
    }
}

/// MRU list after pushing `v`: everything shifts down one slot.
pub open spec fn s_mru_push(m: Seq<usize>, v: usize) -> Seq<usize> {
    seq![v, m[0], m[1], m[2]]
}

/// MRU list after recalling slot `i`: that entry moves to the front
/// and the entries before it shift down; later entries keep their
/// place.
pub open spec fn s_mru_recall(m: Seq<usize>, i: int) -> Seq<usize> {
    Seq::new(
        4,
        |j: int|
            if j == 0 {
                m[i]
            } else if j <= i {
                m[j - 1]
            } else {
                m[j]
            },
    )
}

/// Pushing a value and immediately recalling slot 0 returns that
/// value and leaves the list unchanged.
pub proof fn lemma_mru_round_trip(m: Seq<usize>, v: usize)
    requires
        m.len() == 4,
    ensures
        s_mru_push(m, v)[0] == v,
        s_mru_recall(s_mru_push(m, v), 0) =~= s_mru_push(m, v),
{
}

/// Recalling slot `i` moves that entry to the front and keeps the
/// relative order of all other entries: those before it shift down by
/// one, those after it stay in place.
pub proof fn lemma_mru_recall_order(m: Seq<usize>, i: int)
    requires
        m.len() == 4,
        0 <= i < 4,
    ensures
        s_mru_recall(m, i).len() == 4,
        s_mru_recall(m, i)[0] == m[i],
        forall|j: int| 1 <= j <= i ==> s_mru_recall(m, i)[j] == m[j - 1],
        forall|j: int| i < j < 4 ==> s_mru_recall(m, i)[j] == m[j],
{
}

/// The LZ77 output machine: the bytes produced so far and the four
/// most recently used match distances.
#[verifier::ext_equal]
pub ghost struct LzOut {
    pub out: Seq<u8>,
    pub mru: Seq<usize>,
}

pub open spec fn lz_wf(z: LzOut) -> bool {
    z.mru.len() == 4
}

/// The last byte produced, or zero while the output is empty.
pub open spec fn s_last_byte(out: Seq<u8>) -> u8 {
    if out.len() == 0 {
        0
    } else {
        out.last()
    }
}

/// The byte `dist` positions before the end, or zero when the
/// distance reaches outside the output.
pub open spec fn s_ref_byte(out: Seq<u8>, dist: usize) -> u8 {
    if dist >= out.len() {
        0
    } else {
        out[out.len() - 1 - dist]
    }
}

/// Appends `n` copies of the referenced byte, re-reading it after
/// each push so that self-overlapping runs repeat correctly.
pub open spec fn s_copy(out: Seq<u8>, dist: usize, n: nat) -> Seq<u8>
    decreases n,
{
    if n == 0 {
        out
    } else {
        s_copy(out.push(s_ref_byte(out, dist)), dist, (n - 1) as nat)
    }
}

/// Records a freshly decoded distance, which must fit in 31 bits and
/// may only arrive once the output is non-empty.
pub open spec fn s_set_distance(z: LzOut, dist: usize) -> Result<LzOut, DecodeError> {
    if dist > 0x7FFF_FFFF || z.out.len() == 0 {
        Err(DecodeError::NegativeDistance)
    } else {
        Ok(LzOut { out: z.out, mru: s_mru_push(z.mru, dist) })
    }
}

pub proof fn lemma_copy_len(out: Seq<u8>, dist: usize, n: nat)
    ensures
        s_copy(out, dist, n).len() == out.len() + n,
    decreases n,
{
    if n > 0 {
        lemma_copy_len(out.push(s_ref_byte(out, dist)), dist, (n - 1) as nat);
    }
}

/// The copy length: a range (short, medium, long) chosen by a unary
/// code at `b`, then the position inside the range read MSB-first.
/// The two short ranges have one subcontext per output alignment `q`.
pub open spec fn s_len_code(d: Bad, b: int, q: int) -> (Bad, u32) {
    let (d1, r) = s_unary(d, b, 1, 2, 0);
    if r == 0 {
        s_bits_msb(d1, b + q * 8 + 2, 3, 0, 0)
    } else if r == 1 {
        let (d2, v) = s_bits_msb(d1, b + q * 8 + 0x82, 3, 0, 0);
        (d2, (v + 8) as u32)
    } else {
        let (d2, v) = s_bits_msb(d1, b + 0x102, 8, 0, 0);
        (d2, (v + 0x10) as u32)
    }
}

/// Unbiased bits for the high positions of a long distance: positions
/// `j` down to 4, most significant first.
pub open spec fn s_raw_loop(d: Bad, j: int, acc: u32) -> (Bad, u32)
    decreases j - 3,
{
    if j < 4 {
        (d, acc)
    } else {
        let (d2, b) = s_raw(d);
        s_raw_loop(
            d2,
            j - 1,
            if b {
                acc | (1u32 << (j as u32))
            } else {
                acc
            },
        )
    }
}

pub proof fn lemma_raw_loop_failed(d: Bad, j: int, acc: u32)
    requires
        d.failed,
    ensures
        s_raw_loop(d, j, acc).0 == d,
    decreases j - 3,
{
    if j >= 4 {
        lemma_raw_loop_failed(d, j - 1, acc);
        lemma_raw_loop_failed(d, j - 1, acc | (1u32 << (j as u32)));
    }
}

/// The match distance for length class `lc`.  A 6-bit coarse value
/// encodes small distances directly; larger ones carry an explicit
/// bit count, with adaptively coded low bits for medium distances and
/// raw high bits plus four adaptive low bits for long ones.
pub open spec fn s_distance(d: Bad, lc: int) -> (Bad, u32) {
    let (d1, dc) = s_bits_msb(d, 0x1B0 + lc * 0x40, 6, 0, 0);
    if dc < 4 {
        (d1, dc)
    } else {
        let k = ((dc >> 1) - 1) as u32;
        let hi = ((dc & 1) | 2) << k;
        if k < 6 {
            let (d2, lo) = s_bits_lsb(d1, hi - dc + 0x2AF, k as int, 0, 0);
            (d2, hi | lo)
        } else {
            let (d2, mid) = s_raw_loop(d1, k as int - 1, hi);
            let (d3, lo) = s_bits_lsb(d2, 0x322, 4, 0, 0);
            (d3, mid | lo)
        }
    }
}

/// The decoder state after a literal: a compressed memory of the last
/// few symbol kinds.
pub open spec fn s_state_next(st: int) -> int {
    if st < 4 {
        0
    } else if st < 10 {
        st - 3
    } else {
        st - 6
    }
}

/// The whole decompression machine: decoder, output, and control
/// state.
#[verifier::ext_equal]
pub ghost struct Mach {
    pub bad: Bad,
    pub lz: LzOut,
    pub st: int,
}

/// Outcome of one step of the main loop.
pub ghost enum StepR {
    /// An ordinary symbol: the machine advances.
    Next(Mach),
    /// The distance coder produced the terminator sentinel; decoding
    /// ends with the output as it stands.
    Sent(Mach),
    /// The stream is ill-formed.
    Fail(DecodeError),
}

/// A reused distance: recall MRU slot `idx`, decode a copy length in
/// the reused-distance range, and copy.
pub open spec fn s_reuse(d: Bad, m: Mach, expected: int, idx: int) -> StepR {
    let q = (m.lz.out.len() % 4) as int;
    let dist = m.lz.mru[idx];
    let mru2 = s_mru_recall(m.lz.mru, idx);
    let (d2, lc) = s_len_code(d, 0x534, q);
    if d2.failed {
        StepR::Fail(DecodeError::TruncatedInput)
    } else if lc + 2 > expected - m.lz.out.len() {
        StepR::Fail(DecodeError::OutputTooBig)
    } else {
        StepR::Next(
            Mach {
                bad: d2,
                lz: LzOut { out: s_copy(m.lz.out, dist, (lc + 2) as nat), mru: mru2 },
                st: if m.st < 7 {
                    8
                } else {
                    11
                },
            },
        )
    }
}

/// One symbol of the main loop: a literal, a fresh match, a reused
/// match, or a single-byte copy; or the sentinel or a failure.
pub open spec fn s_step(m: Mach, expected: int) -> StepR {
    let q = (m.lz.out.len() % 4) as int;
    let rs = m.st * 16 + q;
    let (d1, isref) = s_bit(m.bad, rs);
    if d1.failed {
        StepR::Fail(DecodeError::TruncatedInput)
    } else if !isref {
        let base = 0x736 + ((s_last_byte(m.lz.out) >> 5) as int) * 0x300;
        let (d2, v) = if m.st < 7 {
            s_bits_msb(d1, base, 8, 0, 0)
        } else {
            s_byte_ref(d1, base, s_ref_byte(m.lz.out, m.lz.mru[0]), 0, 0, false)
        };
        if d2.failed {
            StepR::Fail(DecodeError::TruncatedInput)
        } else {
            StepR::Next(
                Mach {
                    bad: d2,
                    lz: LzOut { out: m.lz.out.push(v as u8), mru: m.lz.mru },
                    st: s_state_next(m.st),
                },
            )
        }
    } else {
        let (d2, rep) = s_bit(d1, 0xC0 + m.st);
        if d2.failed {
            StepR::Fail(DecodeError::TruncatedInput)
        } else if !rep {
            let (d3, lc) = s_len_code(d2, 0x332, q);
            if d3.failed {
                StepR::Fail(DecodeError::TruncatedInput)
            } else {
                let (d4, dist) = s_distance(
                    d3,
                    if lc < 3 {
                        lc as int
                    } else {
                        3
                    },
                );
                if d4.failed {
                    StepR::Fail(DecodeError::TruncatedInput)
                } else if dist == 0xFFFF_FFFFu32 {
                    StepR::Sent(Mach { bad: d4, lz: m.lz, st: m.st })
                } else {
                    match s_set_distance(m.lz, dist as usize) {
                        Err(e) => StepR::Fail(e),
                        Ok(lz2) => {
                            if lc + 2 > expected - m.lz.out.len() {
                                StepR::Fail(DecodeError::OutputTooBig)
                            } else {
                                StepR::Next(
                                    Mach {
                                        bad: d4,
                                        lz: LzOut {
                                            out: s_copy(lz2.out, lz2.mru[0], (lc + 2) as nat),
                                            mru: lz2.mru,
                                        },
                                        st: if m.st < 7 {
                                            7
                                        } else {
                                            10
                                        },
                                    },
                                )
                            }
                        },
                    }
                }
            }
        } else if m.lz.out.len() == 0 {
            StepR::Fail(DecodeError::ReferencingEmpty)
        } else {
            let (d3, deeper1) = s_bit(d2, 0xCC + m.st);
            if d3.failed {
                StepR::Fail(DecodeError::TruncatedInput)
            } else if !deeper1 {
                let (d4, nontrivial) = s_bit(d3, rs + 0xF0);
                if d4.failed {
                    StepR::Fail(DecodeError::TruncatedInput)
                } else if !nontrivial {
                    StepR::Next(
                        Mach {
                            bad: d4,
                            lz: LzOut {
                                out: m.lz.out.push(s_ref_byte(m.lz.out, m.lz.mru[0])),
                                mru: m.lz.mru,
                            },
                            st: if m.st < 7 {
                                9
                            } else {
                                11
                            },
                        },
                    )
                } else {
                    s_reuse(d4, m, expected, 0)
                }
            } else {
                let (d4, deeper2) = s_bit(d3, 0xD8 + m.st);
                if d4.failed {
                    StepR::Fail(DecodeError::TruncatedInput)
                } else if !deeper2 {
                    s_reuse(d4, m, expected, 1)
                } else {
                    let (d5, deeper3) = s_bit(d4, 0xE4 + m.st);
                    if d5.failed {
                        StepR::Fail(DecodeError::TruncatedInput)
                    } else if !deeper3 {
                        s_reuse(d5, m, expected, 2)
                    } else {
                        s_reuse(d5, m, expected, 3)
                    }
                }
            }
        }
    }
}

/// Outcome of running the machine.
pub ghost enum RunR {
    /// The output reached the declared length.
    Done(Seq<u8>),
    /// The terminator sentinel ended decoding early.
    Sent(Seq<u8>),
    /// The stream is ill-formed.
    Fail(DecodeError),
    /// The fuel ran out; never reached from a sufficient bound.
    Stuck,
}

/// Runs the machine until the output reaches `expected` bytes, the
/// sentinel arrives, or the stream proves ill-formed.  Every step
/// grows the output, so any fuel above `expected` is sufficient.
pub open spec fn s_run(m: Mach, expected: int, fuel: nat) -> RunR
    decreases fuel,
{
    if m.lz.out.len() >= expected {
        RunR::Done(m.lz.out)
    } else if fuel == 0 {
        RunR::Stuck
    } else {
        match s_step(m, expected) {
            StepR::Next(m2) => s_run(m2, expected, (fuel - 1) as nat),
            StepR::Sent(m2) => RunR::Sent(m2.lz.out),
            StepR::Fail(e) => RunR::Fail(e),
        }
    }
}

/// Distance sentinel: when a step ends with the terminator sentinel,
/// the output and control state stand exactly as they were — the
/// decoder emits no further bytes.
pub proof fn lemma_sentinel_stops(m: Mach, expected: int)
    requires
        s_step(m, expected) is Sent,
    ensures
        s_step(m, expected)->Sent_0.lz == m.lz,
        s_step(m, expected)->Sent_0.st == m.st,
{
}

/// Every ordinary step grows the output and, thanks to the guard
/// against oversized copies, never grows it past the declared length.
pub proof fn lemma_step_grows(m: Mach, expected: int)
    requires
        m.lz.out.len() < expected,
        s_step(m, expected) is Next,
    ensures
        s_step(m, expected)->Next_0.lz.out.len() > m.lz.out.len(),
        s_step(m, expected)->Next_0.lz.out.len() <= expected,
{
    assert forall|o: Seq<u8>, dd: usize, n: nat| (#[trigger] s_copy(o, dd, n)).len() == o.len()
        + n by {
        lemma_copy_len(o, dd, n);
    }
}

/// Length fidelity of a run: starting within the declared length,
/// a run that completes normally — the sentinel does not appear —
/// produces exactly the declared number of bytes.
pub proof fn lemma_run_length(m: Mach, expected: int, fuel: nat)
    requires
        m.lz.out.len() <= expected,
        s_run(m, expected, fuel) is Done,
    ensures
        s_run(m, expected, fuel)->Done_0.len() == expected,
    decreases fuel,
{
    if m.lz.out.len() >= expected {
    } else if fuel == 0 {
    } else {
        match s_step(m, expected) {
            StepR::Next(m2) => {
                lemma_step_grows(m, expected);
                lemma_run_length(m2, expected, (fuel - 1) as nat);
            },
            StepR::Sent(m2) => {},
            StepR::Fail(e) => {},
        }
    }
}

/// A 32-bit little-endian read at `p`.
pub open spec fn s_le32(s: Seq<u8>, p: int) -> u32 {
    (s[p] as u32) | ((s[p + 1] as u32) << 8) | ((s[p + 2] as u32) << 16) | ((s[p + 3] as u32)
        << 24)
}

/// The machine a fresh decompression starts from.
pub open spec fn s_mach_init(d: Bad) -> Mach {
    Mach {
        bad: d,
        lz: LzOut { out: Seq::empty(), mru: seq![0usize, 0usize, 0usize, 0usize] },
        st: 0,
    }
}

/// The whole decompressor: the first four bytes declare the output
/// length little-endian, one padding byte is skipped, and the
/// arithmetic decoder runs over the rest.  A declared length of zero
/// returns an empty output with no bits read.
pub open spec fn s_decompress(input: Seq<u8>) -> Result<Seq<u8>, DecodeError> {
    if input.len() < 4 {
        Err(DecodeError::TruncatedInput)
    } else {
        let expected = s_le32(input, 0);
        if expected == 0 {
            Ok(Seq::empty())
        } else if input.len() < 5 {
            Err(DecodeError::TruncatedInput)
        } else {
            match s_bad_init(input.skip(5)) {
                Err(e) => Err(e),
                Ok(d0) => match s_run(s_mach_init(d0), expected as int, (expected + 1) as nat) {
                    RunR::Done(o) => Ok(o),
                    RunR::Sent(o) => Ok(o),
                    RunR::Fail(e) => Err(e),
                    RunR::Stuck => arbitrary(),
                },
            }
        }
    }
}

pub proof fn lemma_renorm_wf(d: Bad)
    requires
        bad_wf(d),
    ensures
        bad_wf(s_renorm(d)),
        s_renorm(d).ctx == d.ctx,
        s_renorm(d).data == d.data,
        s_renorm(d).pos >= d.pos,
{
}

pub proof fn lemma_bit_wf(d: Bad, cx: int)
    requires
        bad_wf(d),
        0 <= cx < CTX_COUNT,
    ensures
        bad_wf(s_bit(d, cx).0),
        s_bit(d, cx).0.data == d.data,
{
    lemma_renorm_wf(d);
    let d1 = s_renorm(d);
    if !d1.failed {
        lemma_threshold_updates(d1.ctx[cx]);
    }
}

pub proof fn lemma_raw_wf(d: Bad)
    requires
        bad_wf(d),
    ensures
        bad_wf(s_raw(d).0),
        s_raw(d).0.data == d.data,
{
    lemma_renorm_wf(d);
}

/// Decompressor length fidelity, declared length zero: the output is
/// empty, as declared.
pub proof fn lemma_decompress_empty(input: Seq<u8>)
    requires
        input.len() >= 4,
        s_le32(input, 0) == 0,
    ensures
        s_decompress(input) == Ok::<Seq<u8>, DecodeError>(Seq::empty()),
{
}

/// Decompressor length fidelity: when decoding runs to normal
/// completion — the terminator sentinel does not appear — the output
/// has exactly the length the first four input bytes declare.
pub proof fn lemma_decompress_length(input: Seq<u8>)
    requires
        input.len() >= 5,
        s_le32(input, 0) != 0,
        s_bad_init(input.skip(5)) is Ok,
        s_run(
            s_mach_init(s_bad_init(input.skip(5))->Ok_0),
            s_le32(input, 0) as int,
            (s_le32(input, 0) + 1) as nat,
        ) is Done,
    ensures
        s_decompress(input) is Ok,
        s_decompress(input)->Ok_0.len() == s_le32(input, 0),
{
    lemma_run_length(
        s_mach_init(s_bad_init(input.skip(5))->Ok_0),
        s_le32(input, 0) as int,
        (s_le32(input, 0) + 1) as nat,
    );
}

} // verus!
