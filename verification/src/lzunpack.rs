//! Executable payload decompressor.
//!
//! Every routine is proved equal to its mathematical model in
//! `lzspec`.

use vstd::prelude::*;

verus! {

use crate::lzspec::{
    Bad, bad_wf, s_renorm, s_bit, s_raw, s_bad_init, lemma_renorm_wf, lemma_bit_wf, lemma_raw_wf,
    lemma_threshold_updates, lemma_scaled_threshold, CTX_COUNT, bu, s_bits_msb, s_bits_lsb,
    s_byte_ref, s_unary, lemma_bits_msb_failed, lemma_bits_lsb_failed, lemma_byte_ref_failed,
    lemma_unary_failed, s_mru_push, s_mru_recall, LzOut, lz_wf, s_last_byte, s_ref_byte, s_copy,
    s_set_distance, lemma_copy_len, s_len_code, s_distance, s_raw_loop, lemma_raw_loop_failed,
    s_state_next, Mach, StepR, RunR, s_step, s_run, s_reuse, s_le32, s_mach_init,
    s_decompress,
};
use vstd::arithmetic::power2::{pow2, lemma_pow2_unfold, lemma_pow2_strictly_increases, lemma2_to64};

/// `pow2` is monotonic.
proof fn lemma_pow2_le(e1: nat, e2: nat)
    requires
        e1 <= e2,
    ensures
        pow2(e1) <= pow2(e2),
{
    if e1 < e2 {
        lemma_pow2_strictly_increases(e1, e2);
    }
}

/// Failure of the decompressor on an ill-formed stream.
#[derive(Clone, Copy, Debug, PartialEq, Eq, Structural)]
pub enum DecodeError {
    /// A back-reference was issued while the output was still empty.
    ReferencingEmpty,
    /// A decoded match distance does not fit in 31 bits, or a distance
    /// was pushed while the output was still empty.
    NegativeDistance,
    /// A copy would have grown the output past its declared length.
    OutputTooBig,
    /// The arithmetic stream or its header ended prematurely.
    TruncatedInput,
}

/// Decoder for data encoded with adaptive binary arithmetic coding.
/// Thresholds live in a single flat table of `CTX_COUNT` contexts,
/// each a `u16` in `0..0x800` that starts at the near-neutral `0x400`.
pub struct BinaryArithmeticDecoder {
    scale: u32,
    value: u32,
    data: Vec<u8>,
    pos: usize,
    ctx: Vec<u16>,
}

impl View for BinaryArithmeticDecoder {
    type V = Bad;

    closed spec fn view(&self) -> Bad {
        Bad {
            scale: self.scale,
            value: self.value,
            data: self.data@,
            pos: self.pos as int,
            ctx: self.ctx@,
            failed: false,
        }
    }
}

impl BinaryArithmeticDecoder {
    pub open spec fn wf(&self) -> bool {
        bad_wf(self@)
    }

    /// Builds a decoder over `input`: the initial 32-bit value is the
    /// first four bytes read big-endian, the scale starts at its
    /// maximum, and every context threshold starts at 0x400.
    pub fn new(input: &[u8]) -> (r: Result<BinaryArithmeticDecoder, DecodeError>)
        ensures
            match r {
                Ok(d) => s_bad_init(input@) == Ok::<Bad, DecodeError>(d@) && d.wf(),
                Err(e) => s_bad_init(input@) == Err::<Bad, DecodeError>(e),
            },
    {
        if input.len() < 4 {
            return Err(DecodeError::TruncatedInput);
        }
        let value = ((input[0] as u32) << 24) | ((input[1] as u32) << 16) | ((input[2] as u32)
            << 8) | (input[3] as u32);
        let mut ctx: Vec<u16> = Vec::new();
        while ctx.len() < CTX_COUNT
            invariant
                ctx@.len() <= CTX_COUNT,
                forall|i: int| 0 <= i < ctx@.len() ==> ctx@[i] == 0x400u16,
            decreases CTX_COUNT - ctx.len(),
        {
            ctx.push(0x400);
        }
        let d = BinaryArithmeticDecoder {
            scale: 0xFFFF_FFFF,
            value,
            data: vstd::slice::slice_to_vec(input),
            pos: 4,
            ctx,
        };
        proof {
            assert(d.ctx@ =~= Seq::new(CTX_COUNT as nat, |i: int| 0x400u16));
            assert(s_bad_init(input@) == Ok::<Bad, DecodeError>(d@));
        }
        Ok(d)
    }

    /// Consumes and returns the next input byte.
    pub fn next_byte(&mut self) -> (b: u32)
        requires
            old(self).wf(),
            old(self)@.pos < old(self)@.data.len(),
        ensures
            final(self).wf(),
            b == old(self)@.data[old(self)@.pos] as u32,
            final(self)@ == (Bad { pos: old(self)@.pos + 1, ..old(self)@ }),
    {
        let n = self.data.len();
        assert(self.pos < n);
        let byte = self.data[self.pos];
        self.pos = self.pos + 1;
        byte as u32
    }

    /// Renormalization: when the scale has shrunk below 2^24, shifts
    /// scale and value left by one byte and feeds the next input byte
    /// into the value.
    pub fn renormalize(&mut self) -> (r: Result<(), DecodeError>)
        requires
            old(self).wf(),
        ensures
            ({
                let d2 = s_renorm(old(self)@);
                match r {
                    Ok(u) => !d2.failed && final(self)@ == d2 && final(self).wf(),
                    Err(e) => d2.failed && e == DecodeError::TruncatedInput && *final(self)
                        == *old(self),
                }
            }),
    {
        proof {
            lemma_renorm_wf(self@);
        }
        if self.scale < 0x0100_0000 {
            if self.pos < self.data.len() {
                let b = self.next_byte();
                self.scale = self.scale << 8;
                self.value = (self.value << 8) | b;
                proof {
                    assert(self@ =~= s_renorm(old(self)@));
                }
                Ok(())
            } else {
                Err(DecodeError::TruncatedInput)
            }
        } else {
            Ok(())
        }
    }

    /// Decodes one bit with the adaptive threshold of context `cx` and
    /// updates that threshold towards the decoded bit.
    pub fn get_bit(&mut self, cx: usize) -> (r: Result<bool, DecodeError>)
        requires
            old(self).wf(),
            cx < CTX_COUNT,
        ensures
            ({
                let (d2, b) = s_bit(old(self)@, cx as int);
                match r {
                    Ok(bit) => !d2.failed && final(self)@ == d2 && bit == b && final(self).wf(),
                    Err(e) => d2.failed && e == DecodeError::TruncatedInput,
                }
            }),
    {
        let ghost d0 = self@;
        match self.renormalize() {
            Err(e) => {
                return Err(e);
            },
            Ok(u) => {},
        }
        let t = self.ctx[cx];
        proof {
            assert(self@.ctx[cx as int] < 0x800);
            lemma_threshold_updates(t);
            lemma_scaled_threshold(self.scale, t);
        }
        let st = (self.scale >> 11) * (t as u32);
        if self.value < st {
            self.scale = st;
            self.ctx[cx] = t - ((t + 0x1f) >> 5) + 0x40;
            proof {
                lemma_bit_wf(d0, cx as int);
                assert(self@ =~= s_bit(d0, cx as int).0);
            }
            Ok(false)
        } else {
            self.value = self.value - st;
            self.scale = self.scale - st;
            self.ctx[cx] = t - (t >> 5);
            proof {
                lemma_bit_wf(d0, cx as int);
                assert(self@ =~= s_bit(d0, cx as int).0);
            }
            Ok(true)
        }
    }

    /// Decodes one bit with fixed even odds; the scale simply halves.
    pub fn get_raw_bit(&mut self) -> (r: Result<bool, DecodeError>)
        requires
            old(self).wf(),
        ensures
            ({
                let (d2, b) = s_raw(old(self)@);
                match r {
                    Ok(bit) => !d2.failed && final(self)@ == d2 && bit == b && final(self).wf(),
                    Err(e) => d2.failed && e == DecodeError::TruncatedInput,
                }
            }),
    {
        let ghost d0 = self@;
        match self.renormalize() {
            Err(e) => {
                return Err(e);
            },
            Ok(u) => {},
        }
        self.scale = self.scale >> 1;
        if self.value < self.scale {
            proof {
                lemma_raw_wf(d0);
                assert(self@ =~= s_raw(d0).0);
            }
            Ok(false)
        } else {
            self.value = self.value - self.scale;
            proof {
                lemma_raw_wf(d0);
                assert(self@ =~= s_raw(d0).0);
            }
            Ok(true)
        }
    }

    /// Reads `n` bits most-significant first, each bit with an
    /// adaptive context chosen by the bits read before it.
    pub fn get_n_bits(&mut self, n: usize, base: usize) -> (r: Result<u32, DecodeError>)
        requires
            old(self).wf(),
            n <= 8,
            base + pow2(n as nat) <= CTX_COUNT,
        ensures
            ({
                let (d2, v2) = s_bits_msb(old(self)@, base as int, n as int, 0, 0);
                match r {
                    Ok(v) => !d2.failed && final(self)@ == d2 && v == v2 && final(self).wf() && v
                        < pow2(n as nat),
                    Err(e) => d2.failed && e == DecodeError::TruncatedInput,
                }
            }),
    {
        let ghost d0 = self@;
        let mut v: u32 = 0;
        let mut p: usize = 1;
        let mut i: usize = 0;
        proof {
            lemma2_to64();
        }
        while i < n
            invariant
                d0 == old(self)@,
                self.wf(),
                i <= n,
                n <= 8,
                base + pow2(n as nat) <= CTX_COUNT,
                p == pow2(i as nat),
                v < p,
                s_bits_msb(d0, base as int, n as int, 0, 0) == s_bits_msb(
                    self@,
                    base as int,
                    n as int,
                    i as int,
                    v,
                ),
            decreases n - i,
        {
            proof {
                lemma_pow2_unfold((i + 1) as nat);
                lemma_pow2_le((i + 1) as nat, n as nat);
            }
            let cx = base + p + (v as usize);
            let ghost dp = self@;
            let b = match self.get_bit(cx) {
                Ok(b) => b,
                Err(e) => {
                    proof {
                        assert(s_bits_msb(dp, base as int, n as int, i as int, v) == s_bits_msb(
                            s_bit(dp, cx as int).0,
                            base as int,
                            n as int,
                            i as int + 1,
                            (2 * v + bu(s_bit(dp, cx as int).1)) as u32,
                        ));
                        lemma_bits_msb_failed(
                            s_bit(dp, cx as int).0,
                            base as int,
                            n as int,
                            i as int + 1,
                            (2 * v + bu(s_bit(dp, cx as int).1)) as u32,
                        );
                    }
                    return Err(e);
                },
            };
            v = 2 * v + (if b {
                1
            } else {
                0
            });
            p = 2 * p;
            i = i + 1;
        }
        Ok(v)
    }

    /// Reads `n` bits least-significant first; the context path is the
    /// same as in `get_n_bits`.
    pub fn get_n_bits_flipped(&mut self, n: usize, base: usize) -> (r: Result<u32, DecodeError>)
        requires
            old(self).wf(),
            n <= 8,
            base + pow2(n as nat) <= CTX_COUNT,
        ensures
            ({
                let (d2, v2) = s_bits_lsb(old(self)@, base as int, n as int, 0, 0);
                match r {
                    Ok(v) => !d2.failed && final(self)@ == d2 && v == v2 && final(self).wf() && v
                        < pow2(n as nat),
                    Err(e) => d2.failed && e == DecodeError::TruncatedInput,
                }
            }),
    {
        let ghost d0 = self@;
        let mut v: u32 = 0;
        let mut p: usize = 1;
        let mut i: usize = 0;
        proof {
            lemma2_to64();
        }
        while i < n
            invariant
                d0 == old(self)@,
                self.wf(),
                i <= n,
                n <= 8,
                base + pow2(n as nat) <= CTX_COUNT,
                p == pow2(i as nat),
                v < p,
                s_bits_lsb(d0, base as int, n as int, 0, 0) == s_bits_lsb(
                    self@,
                    base as int,
                    n as int,
                    i as int,
                    v,
                ),
            decreases n - i,
        {
            proof {
                lemma_pow2_unfold((i + 1) as nat);
                lemma_pow2_le((i + 1) as nat, n as nat);
            }
            let cx = base + p + (v as usize);
            let ghost dp = self@;
            let b = match self.get_bit(cx) {
                Ok(b) => b,
                Err(e) => {
                    proof {
                        assert(s_bits_lsb(dp, base as int, n as int, i as int, v) == s_bits_lsb(
                            s_bit(dp, cx as int).0,
                            base as int,
                            n as int,
                            i as int + 1,
                            #[verifier::truncate] ((v + bu(s_bit(dp, cx as int).1) * pow2(i as nat)) as u32),
                        ));
                        lemma_bits_lsb_failed(
                            s_bit(dp, cx as int).0,
                            base as int,
                            n as int,
                            i as int + 1,
                            #[verifier::truncate] ((v + bu(s_bit(dp, cx as int).1) * pow2(i as nat)) as u32),
                        );
                    }
                    return Err(e);
                },
            };
            if b {
                v = v + (p as u32);
            }
            proof {
                assert(v == (v as u32 + bu(b) * pow2(i as nat) - bu(b) * pow2(i as nat)) as u32);
            }
            p = 2 * p;
            i = i + 1;
        }
        Ok(v)
    }

    /// Decodes an 8-bit literal guided by the reference byte `rf`: as
    /// long as every decoded bit matches the corresponding reference
    /// bit, contexts come from a subregion picked by the reference
    /// bit; after the first mismatch the plain region takes over.
    pub fn get_byte_with_reference(&mut self, rf: u8, base: usize) -> (r: Result<
        u32,
        DecodeError,
    >)
        requires
            old(self).wf(),
            base + 0x300 <= CTX_COUNT,
        ensures
            ({
                let (d2, v2) = s_byte_ref(old(self)@, base as int, rf, 0, 0, false);
                match r {
                    Ok(v) => !d2.failed && final(self)@ == d2 && v == v2 && final(self).wf() && v
                        < 0x100,
                    Err(e) => d2.failed && e == DecodeError::TruncatedInput,
                }
            }),
    {
        let ghost d0 = self@;
        let mut v: u32 = 0;
        let mut p: usize = 1;
        let mut i: usize = 0;
        let mut m = false;
        proof {
            lemma2_to64();
        }
        while i < 8
            invariant
                d0 == old(self)@,
                self.wf(),
                i <= 8,
                base + 0x300 <= CTX_COUNT,
                p == pow2(i as nat),
                v < p,
                s_byte_ref(d0, base as int, rf, 0, 0, false) == s_byte_ref(
                    self@,
                    base as int,
                    rf,
                    i as int,
                    v,
                    m,
                ),
            decreases 8 - i,
        {
            proof {
                lemma_pow2_unfold((i + 1) as nat);
                lemma_pow2_le((i + 1) as nat, 8);
                lemma2_to64();
            }
            let ghost dp = self@;
            if m {
                let cx = base + p + (v as usize);
                let b = match self.get_bit(cx) {
                    Ok(b) => b,
                    Err(e) => {
                        proof {
                            assert(s_byte_ref(dp, base as int, rf, i as int, v, true)
                                == s_byte_ref(
                                s_bit(dp, cx as int).0,
                                base as int,
                                rf,
                                i as int + 1,
                                (2 * v + bu(s_bit(dp, cx as int).1)) as u32,
                                true,
                            ));
                            lemma_byte_ref_failed(
                                s_bit(dp, cx as int).0,
                                base as int,
                                rf,
                                i as int + 1,
                                (2 * v + bu(s_bit(dp, cx as int).1)) as u32,
                                true,
                            );
                        }
                        return Err(e);
                    },
                };
                v = 2 * v + (if b {
                    1
                } else {
                    0
                });
            } else {
                let sh = (rf as u32) >> ((7 - i) as u32);
                let rb = sh & 1;
                proof {
                    assert(sh & 1 < 2) by (bit_vector);
                }
                let sub: usize = if rb == 0 {
                    0x100
                } else {
                    0x200
                };
                let cx = base + p + sub + (v as usize);
                let b = match self.get_bit(cx) {
                    Ok(b) => b,
                    Err(e) => {
                        proof {
                            assert(s_byte_ref(dp, base as int, rf, i as int, v, false)
                                == s_byte_ref(
                                s_bit(dp, cx as int).0,
                                base as int,
                                rf,
                                i as int + 1,
                                (2 * v + bu(s_bit(dp, cx as int).1)) as u32,
                                bu(s_bit(dp, cx as int).1) != rb,
                            ));
                            lemma_byte_ref_failed(
                                s_bit(dp, cx as int).0,
                                base as int,
                                rf,
                                i as int + 1,
                                (2 * v + bu(s_bit(dp, cx as int).1)) as u32,
                                bu(s_bit(dp, cx as int).1) != rb,
                            );
                        }
                        return Err(e);
                    },
                };
                let bv: u32 = if b {
                    1
                } else {
                    0
                };
                if bv != rb {
                    m = true;
                }
                v = 2 * v + bv;
            }
            p = 2 * p;
            i = i + 1;
        }
        proof {
            lemma2_to64();
        }
        Ok(v)
    }
}

/// Reads numbers that are binarized using unary encoding: the value is
/// the count of one bits before the first zero bit, at most `size`.
/// Bit `i` of the code uses context `base + stride * i` of the
/// decoder's table.
pub struct UnaryGetter {
    pub size: usize,
    pub base: usize,
    pub stride: usize,
}

impl UnaryGetter {
    pub fn new(size: usize, base: usize, stride: usize) -> (r: UnaryGetter)
        requires
            size <= 4,
        ensures
            r.size == size,
            r.base == base,
            r.stride == stride,
    {
        UnaryGetter { size, base, stride }
    }

    pub fn get_value(&self, decoder: &mut BinaryArithmeticDecoder) -> (r: Result<
        usize,
        DecodeError,
    >)
        requires
            old(decoder).wf(),
            self.size <= 4,
            1 <= self.stride,
            self.base + self.stride * self.size <= CTX_COUNT,
        ensures
            ({
                let (d2, v) = s_unary(
                    old(decoder)@,
                    self.base as int,
                    self.stride as int,
                    self.size as int,
                    0,
                );
                match r {
                    Ok(k) => !d2.failed && final(decoder)@ == d2 && k == v && k <= self.size
                        && final(decoder).wf(),
                    Err(e) => d2.failed && e == DecodeError::TruncatedInput,
                }
            }),
    {
        let ghost d0 = decoder@;
        let mut i: usize = 0;
        while i < self.size
            invariant
                d0 == old(decoder)@,
                decoder.wf(),
                i <= self.size,
                self.size <= 4,
                1 <= self.stride,
                self.base + self.stride * self.size <= CTX_COUNT,
                s_unary(d0, self.base as int, self.stride as int, self.size as int, 0) == s_unary(
                    decoder@,
                    self.base as int,
                    self.stride as int,
                    self.size as int,
                    i as int,
                ),
            decreases self.size - i,
        {
            proof {
                assert(self.stride * i + self.stride <= self.stride * self.size)
                    by (nonlinear_arith)
                    requires
                        0 <= i < self.size,
                        self.stride >= 1,
                ;
            }
            let cx = self.base + self.stride * i;
            let ghost dp = decoder@;
            match decoder.get_bit(cx) {
                Err(e) => {
                    proof {
                        lemma_unary_failed(
                            s_bit(dp, cx as int).0,
                            self.base as int,
                            self.stride as int,
                            self.size as int,
                            i as int + 1,
                        );
                    }
                    return Err(e);
                },
                Ok(b) => {
                    if !b {
                        return Ok(i);
                    }
                },
            }
            i = i + 1;
        }
        Ok(i)
    }
}

/// Decodes one copy-length code from the range base `b`, which selects
/// the fresh-distance or reused-distance length table; `q` is the
/// output alignment.  The caller adds the fixed bias of two.
pub fn decode_length(bad: &mut BinaryArithmeticDecoder, b: usize, q: usize) -> (r: Result<
    u32,
    DecodeError,
>)
    requires
        old(bad).wf(),
        q < 4,
        b == 0x332 || b == 0x534,
    ensures
        ({
            let (d2, v) = s_len_code(old(bad)@, b as int, q as int);
            match r {
                Ok(lc) => !d2.failed && final(bad)@ == d2 && lc == v && lc < 0x110
                    && final(bad).wf(),
                Err(e) => d2.failed && e == DecodeError::TruncatedInput,
            }
        }),
{
    proof {
        lemma2_to64();
    }
    let ranges = UnaryGetter::new(2, b, 1);
    let sel = match ranges.get_value(bad) {
        Ok(k) => k,
        Err(e) => {
            proof {
                let d1 = s_unary(old(bad)@, b as int, 1, 2, 0).0;
                lemma_bits_msb_failed(d1, b + q * 8 + 2, 3, 0, 0);
                lemma_bits_msb_failed(d1, b + q * 8 + 0x82, 3, 0, 0);
                lemma_bits_msb_failed(d1, b + 0x102, 8, 0, 0);
            }
            return Err(e);
        },
    };
    if sel == 0 {
        bad.get_n_bits(3, b + q * 8 + 2)
    } else if sel == 1 {
        let v = match bad.get_n_bits(3, b + q * 8 + 0x82) {
            Ok(v) => v,
            Err(e) => {
                return Err(e);
            },
        };
        Ok(v + 8)
    } else {
        let v = match bad.get_n_bits(8, b + 0x102) {
            Ok(v) => v,
            Err(e) => {
                return Err(e);
            },
        };
        Ok(v + 0x10)
    }
}

/// Shape facts about the coarse distance code that place every context
/// inside the distance region of the table.
proof fn lemma_dist_shape(dc: u32)
    by (bit_vector)
    requires
        4 <= dc < 64,
    ensures
        (dc >> 1) >= 2,
        (((dc >> 1) - 1) as u32) <= 30,
{
}

/// For medium distances the adaptive low bits stay inside the
/// distance region of the table.
proof fn lemma_dist_mid(dc: u32)
    by (bit_vector)
    requires
        4 <= dc < 64,
        (((dc >> 1) - 1) as u32) < 6,
    ensures
        (((dc & 1) | 2) << (((dc >> 1) - 1) as u32)) >= dc,
        ((((dc & 1) | 2) << (((dc >> 1) - 1) as u32)) - dc) + 0x2AF + (1u32 << (((dc >> 1)
            - 1) as u32)) <= 0x322,
{
}

/// Decodes one match distance for length class `lc`; the all-ones
/// value is the stream's terminator sentinel, which the caller
/// handles.
pub fn decode_distance(bad: &mut BinaryArithmeticDecoder, lc: usize) -> (r: Result<
    u32,
    DecodeError,
>)
    requires
        old(bad).wf(),
        lc <= 3,
    ensures
        ({
            let (d2, v) = s_distance(old(bad)@, lc as int);
            match r {
                Ok(dist) => !d2.failed && final(bad)@ == d2 && dist == v && final(bad).wf(),
                Err(e) => d2.failed && e == DecodeError::TruncatedInput,
            }
        }),
{
    proof {
        lemma2_to64();
    }
    let dc = match bad.get_n_bits(6, 0x1B0 + lc * 0x40) {
        Ok(v) => v,
        Err(e) => {
            proof {
                let (d1, dcx) = s_bits_msb(old(bad)@, 0x1B0 + lc as int * 0x40, 6, 0, 0);
                if dcx >= 4 {
                    let kk = ((dcx >> 1) - 1) as u32;
                    let hig = ((dcx & 1) | 2) << kk;
                    if kk < 6 {
                        lemma_bits_lsb_failed(d1, hig - dcx + 0x2AF, kk as int, 0, 0);
                    } else {
                        lemma_raw_loop_failed(d1, kk as int - 1, hig);
                        lemma_bits_lsb_failed(
                            s_raw_loop(d1, kk as int - 1, hig).0,
                            0x322,
                            4,
                            0,
                            0,
                        );
                    }
                }
            }
            return Err(e);
        },
    };
    if dc < 4 {
        return Ok(dc);
    }
    proof {
        lemma_dist_shape(dc);
    }
    let k = (dc >> 1) - 1;
    let hi = ((dc & 1) | 2) << k;
    if k < 6 {
        proof {
            lemma_dist_mid(dc);
            vstd::bits::lemma_u32_pow2_no_overflow(k as nat);
            vstd::bits::lemma_u32_shl_is_mul(1u32, k);
        }
        let sub_base = ((hi - dc) as usize) + 0x2AF;
        let lo = match bad.get_n_bits_flipped(k as usize, sub_base) {
            Ok(v) => v,
            Err(e) => {
                return Err(e);
            },
        };
        Ok(hi | lo)
    } else {
        let ghost d1 = bad@;
        let mut acc = hi;
        let mut j = k - 1;
        while j >= 4
            invariant
                bad.wf(),
                lc <= 3,
                dc == s_bits_msb(old(bad)@, 0x1B0 + lc as int * 0x40, 6, 0, 0).1,
                d1 == s_bits_msb(old(bad)@, 0x1B0 + lc as int * 0x40, 6, 0, 0).0,
                !d1.failed,
                4 <= dc < 64,
                k == (dc >> 1) - 1,
                6 <= k <= 30,
                hi == ((dc & 1) | 2) << k,
                3 <= j <= k - 1,
                s_raw_loop(d1, (k - 1) as int, hi) == s_raw_loop(bad@, j as int, acc),
            decreases j,
        {
            let ghost dp = bad@;
            let b = match bad.get_raw_bit() {
                Ok(b) => b,
                Err(e) => {
                    proof {
                        let (dd, bb) = s_raw(dp);
                        assert(s_raw_loop(dp, j as int, acc) == s_raw_loop(
                            dd,
                            j as int - 1,
                            if bb {
                                acc | (1u32 << (j as u32))
                            } else {
                                acc
                            },
                        ));
                        lemma_raw_loop_failed(
                            dd,
                            j as int - 1,
                            if bb {
                                acc | (1u32 << (j as u32))
                            } else {
                                acc
                            },
                        );
                        lemma_bits_lsb_failed(s_raw_loop(d1, (k - 1) as int, hi).0, 0x322, 4, 0, 0);
                        assert(s_distance(old(bad)@, lc as int).0.failed);
                    }
                    return Err(e);
                },
            };
            if b {
                acc = acc | (1u32 << j);
            }
            j = j - 1;
        }
        let lo = match bad.get_n_bits_flipped(4, 0x322) {
            Ok(v) => v,
            Err(e) => {
                return Err(e);
            },
        };
        Ok(acc | lo)
    }
}

/// A reference that reuses MRU slot `idx`: the slot moves to the
/// front, a copy length is decoded in the reused-distance range, and
/// the copy runs unless it would overshoot the declared length.
/// Returns the decoder state that follows.
fn decode_reuse(
    bad: &mut BinaryArithmeticDecoder,
    out: &mut Lz77Output,
    idx: usize,
    expected: usize,
    state: usize,
) -> (r: Result<usize, DecodeError>)
    requires
        old(bad).wf(),
        old(out).wf(),
        idx < 4,
        state < 12,
        old(out)@.out.len() < expected,
    ensures
        ({
            let m = Mach { bad: old(bad)@, lz: old(out)@, st: state as int };
            match r {
                Ok(st2) => s_reuse(old(bad)@, m, expected as int, idx as int) == StepR::Next(
                    Mach { bad: final(bad)@, lz: final(out)@, st: st2 as int },
                ) && final(bad).wf() && final(out).wf() && st2 < 12 && final(out)@.out.len() > old(
                    out,
                )@.out.len() && final(out)@.out.len() <= expected,
                Err(e) => s_reuse(old(bad)@, m, expected as int, idx as int) == StepR::Fail(e),
            }
        }),
{
    let ghost m = Mach { bad: old(bad)@, lz: old(out)@, st: state as int };
    let q = out.byte_in_dword();
    let dist = out.recall_distance(idx);
    let lc = match decode_length(bad, 0x534, q) {
        Ok(lc) => lc,
        Err(e) => {
            return Err(e);
        },
    };
    let cur = out.len();
    if (lc + 2) as usize > expected - cur {
        return Err(DecodeError::OutputTooBig);
    }
    out.copy_referenced_bytes((lc + 2) as usize);
    let st2 = if state < 7 {
        8
    } else {
        11
    };
    proof {
        lemma_copy_len(m.lz.out, m.lz.mru[idx as int], (lc + 2) as nat);
        assert(s_reuse(old(bad)@, m, expected as int, idx as int) == StepR::Next(
            Mach { bad: bad@, lz: out@, st: st2 as int },
        ));
    }
    Ok(st2)
}

/// Decodes one symbol of the main loop: returns the decoder state
/// that follows, or `None` when the distance coder produced the
/// terminator sentinel.
#[verifier::rlimit(100)]
fn decode_symbol(
    bad: &mut BinaryArithmeticDecoder,
    out: &mut Lz77Output,
    state: usize,
    expected: usize,
) -> (r: Result<Option<usize>, DecodeError>)
    requires
        old(bad).wf(),
        old(out).wf(),
        state < 12,
        old(out)@.out.len() < expected,
    ensures
        ({
            let m = Mach { bad: old(bad)@, lz: old(out)@, st: state as int };
            match r {
                Ok(step) => match step {
                    Some(st2) => s_step(m, expected as int) == StepR::Next(
                        Mach { bad: final(bad)@, lz: final(out)@, st: st2 as int },
                    ) && final(bad).wf() && final(out).wf() && st2 < 12 && final(out)@.out.len()
                        > old(out)@.out.len() && final(out)@.out.len() <= expected,
                    None => s_step(m, expected as int) == StepR::Sent(
                        Mach { bad: final(bad)@, lz: old(out)@, st: state as int },
                    ) && *final(out) == *old(out),
                },
                Err(e) => s_step(m, expected as int) == StepR::Fail(e),
            }
        }),
{
    let ghost m = Mach { bad: old(bad)@, lz: old(out)@, st: state as int };
    let q = out.byte_in_dword();
    let rs = state * 16 + q;
    let isref = match bad.get_bit(rs) {
        Ok(b) => b,
        Err(e) => {
            return Err(e);
        },
    };
    if !isref {
        let last = out.get_last_byte();
        proof {
            assert(last >> 5u8 < 8) by (bit_vector);
            lemma2_to64();
        }
        let base = 0x736 + ((last >> 5) as usize) * 0x300;
        let v = if state < 7 {
            match bad.get_n_bits(8, base) {
                Ok(v) => v,
                Err(e) => {
                    return Err(e);
                },
            }
        } else {
            let rfb = out.get_referenced_byte();
            match bad.get_byte_with_reference(rfb, base) {
                Ok(v) => v,
                Err(e) => {
                    return Err(e);
                },
            }
        };
        out.literal_byte(v as u8);
        let st2 = if state < 4 {
            0
        } else if state < 10 {
            state - 3
        } else {
            state - 6
        };
        proof {
            assert(s_step(m, expected as int) == StepR::Next(
                Mach { bad: bad@, lz: out@, st: st2 as int },
            ));
        }
        Ok(Some(st2))
    } else {
        let rep = match bad.get_bit(0xC0 + state) {
            Ok(b) => b,
            Err(e) => {
                return Err(e);
            },
        };
        if !rep {
            let lc = match decode_length(bad, 0x332, q) {
                Ok(lc) => lc,
                Err(e) => {
                    return Err(e);
                },
            };
            let lclass = if lc < 3 {
                lc as usize
            } else {
                3
            };
            let dist = match decode_distance(bad, lclass) {
                Ok(d) => d,
                Err(e) => {
                    return Err(e);
                },
            };
            if dist == 0xFFFF_FFFF {
                proof {
                    assert(s_step(m, expected as int) == StepR::Sent(
                        Mach { bad: bad@, lz: m.lz, st: m.st },
                    ));
                }
                return Ok(None);
            }
            match out.set_distance(dist as usize) {
                Ok(u) => {},
                Err(e) => {
                    return Err(e);
                },
            }
            let cur = out.len();
            if (lc + 2) as usize > expected - cur {
                return Err(DecodeError::OutputTooBig);
            }
            out.copy_referenced_bytes((lc + 2) as usize);
            let st2 = if state < 7 {
                7
            } else {
                10
            };
            proof {
                lemma_copy_len(
                    s_set_distance(m.lz, dist as usize)->Ok_0.out,
                    s_set_distance(m.lz, dist as usize)->Ok_0.mru[0],
                    (lc + 2) as nat,
                );
                assert(s_step(m, expected as int) == StepR::Next(
                    Mach { bad: bad@, lz: out@, st: st2 as int },
                ));
            }
            Ok(Some(st2))
        } else {
            if out.len() == 0 {
                return Err(DecodeError::ReferencingEmpty);
            }
            let deeper1 = match bad.get_bit(0xCC + state) {
                Ok(b) => b,
                Err(e) => {
                    return Err(e);
                },
            };
            if !deeper1 {
                let nontrivial = match bad.get_bit(rs + 0xF0) {
                    Ok(b) => b,
                    Err(e) => {
                        return Err(e);
                    },
                };
                if !nontrivial {
                    let b = out.get_referenced_byte();
                    out.literal_byte(b);
                    let st2 = if state < 7 {
                        9
                    } else {
                        11
                    };
                    proof {
                        assert(s_step(m, expected as int) == StepR::Next(
                            Mach { bad: bad@, lz: out@, st: st2 as int },
                        ));
                    }
                    Ok(Some(st2))
                } else {
                    let st2 = match decode_reuse(bad, out, 0, expected, state) {
                        Ok(st2) => st2,
                        Err(e) => {
                            return Err(e);
                        },
                    };
                    proof {
                        assert(s_step(m, expected as int) == StepR::Next(
                            Mach { bad: bad@, lz: out@, st: st2 as int },
                        ));
                    }
                    Ok(Some(st2))
                }
            } else {
                let deeper2 = match bad.get_bit(0xD8 + state) {
                    Ok(b) => b,
                    Err(e) => {
                        return Err(e);
                    },
                };
                let idx: usize;
                if !deeper2 {
                    idx = 1;
                } else {
                    let deeper3 = match bad.get_bit(0xE4 + state) {
                        Ok(b) => b,
                        Err(e) => {
                            return Err(e);
                        },
                    };
                    idx = if !deeper3 {
                        2
                    } else {
                        3
                    };
                }
                let st2 = match decode_reuse(bad, out, idx, expected, state) {
                    Ok(st2) => st2,
                    Err(e) => {
                        return Err(e);
                    },
                };
                proof {
                    assert(s_step(m, expected as int) == StepR::Next(
                        Mach { bad: bad@, lz: out@, st: st2 as int },
                    ));
                }
                Ok(Some(st2))
            }
        }
    }
}

/// Expands one compressed payload.  The first four bytes declare the
/// output length little-endian, one padding byte follows, and the
/// arithmetic-coded stream makes up the rest.  A declared length of
/// zero yields an empty output with no bits read.  The result, success
/// or failure, is exactly what the machine model `s_decompress`
/// assigns to the input.
pub fn decompress(input: &[u8]) -> (r: Result<Vec<u8>, DecodeError>)
    ensures
        match r {
            Ok(v) => s_decompress(input@) == Ok::<Seq<u8>, DecodeError>(v@),
            Err(e) => s_decompress(input@) == Err::<Seq<u8>, DecodeError>(e),
        },
{
    if input.len() < 4 {
        return Err(DecodeError::TruncatedInput);
    }
    let expected32 = (input[0] as u32) | ((input[1] as u32) << 8) | ((input[2] as u32) << 16) | ((
    input[3] as u32) << 24);
    if expected32 == 0 {
        let data: Vec<u8> = Vec::new();
        proof {
            assert(data@ =~= Seq::<u8>::empty());
        }
        return Ok(data);
    }
    if input.len() < 5 {
        return Err(DecodeError::TruncatedInput);
    }
    let tail = vstd::slice::slice_subrange(input, 5, input.len());
    proof {
        assert(tail@ =~= input@.skip(5));
    }
    let mut bad = match BinaryArithmeticDecoder::new(tail) {
        Ok(d) => d,
        Err(e) => {
            return Err(e);
        },
    };
    let mut out = Lz77Output::new();
    let mut state: usize = 0;
    let expected = expected32 as usize;
    let ghost target = s_run(s_mach_init(bad@), expected32 as int, (expected32 + 1) as nat);
    proof {
        assert(Mach { bad: bad@, lz: out@, st: 0int } =~= s_mach_init(bad@));
    }
    let mut fuel: Ghost<nat> = Ghost((expected32 + 1) as nat);
    let mut cur = out.len();
    while cur < expected
        invariant
            bad.wf(),
            out.wf(),
            state < 12,
            expected == expected32 as usize,
            expected32 > 0,
            input@.len() >= 5,
            s_le32(input@, 0) == expected32,
            s_bad_init(input@.skip(5)) is Ok,
            target == s_run(
                s_mach_init(s_bad_init(input@.skip(5))->Ok_0),
                expected32 as int,
                (expected32 + 1) as nat,
            ),
            cur == out@.out.len(),
            out@.out.len() <= expected32,
            fuel@ >= expected32 - out@.out.len() + 1,
            s_run(
                Mach { bad: bad@, lz: out@, st: state as int },
                expected32 as int,
                fuel@,
            ) == target,
        decreases fuel@,
    {
        let ghost m = Mach { bad: bad@, lz: out@, st: state as int };
        let ghost fuel0 = fuel@;
        match decode_symbol(&mut bad, &mut out, state, expected) {
            Ok(Some(st2)) => {
                state = st2;
            },
            Ok(None) => {
                proof {
                    assert(target == RunR::Sent(out@.out));
                }
                let data = out.get_data();
                return Ok(data);
            },
            Err(e) => {
                proof {
                    assert(s_run(m, expected32 as int, fuel0) == RunR::Fail(e));
                }
                return Err(e);
            },
        }
        cur = out.len();
        fuel = Ghost((fuel0 - 1) as nat);
        proof {
            assert(s_run(m, expected32 as int, fuel0) == s_run(
                Mach { bad: bad@, lz: out@, st: state as int },
                expected32 as int,
                fuel@,
            ));
        }
    }
    let data = out.get_data();
    proof {
        assert(target == RunR::Done(data@));
    }
    Ok(data)
}

/// Stores the most recently used values for some quantity and allows
/// recalling recently used values by index.
pub struct MRUList {
    history: Vec<usize>,
}

impl View for MRUList {
    type V = Seq<usize>;

    closed spec fn view(&self) -> Seq<usize> {
        self.history@
    }
}

impl MRUList {
    pub open spec fn wf(&self) -> bool {
        self@.len() == 4
    }

    /// A fresh list of four zero entries; `size` is fixed by the
    /// format and must be four.
    pub fn new(size: usize) -> (r: MRUList)
        requires
            size == 4,
        ensures
            r.wf(),
            r@ =~= seq![0usize, 0usize, 0usize, 0usize],
    {
        let mut history: Vec<usize> = Vec::new();
        history.push(0);
        history.push(0);
        history.push(0);
        history.push(0);
        MRUList { history }
    }

    /// The most recently used value.
    pub fn mru(&self) -> (r: usize)
        requires
            self.wf(),
        ensures
            r == self@[0],
    {
        self.history[0]
    }

    /// Pushes a fresh value to the front; every entry shifts down.
    pub fn add_value(&mut self, value: usize)
        requires
            old(self).wf(),
        ensures
            final(self).wf(),
            final(self)@ == s_mru_push(old(self)@, value),
    {
        let h2 = self.history[2];
        self.history[3] = h2;
        let h1 = self.history[1];
        self.history[2] = h1;
        let h0 = self.history[0];
        self.history[1] = h0;
        self.history[0] = value;
        proof {
            assert(self@ =~= s_mru_push(old(self)@, value));
        }
    }

    /// Recalls the value at `index`: it moves to the front and the
    /// entries before it shift down by one.
    pub fn pick_recently_used(&mut self, index: usize) -> (r: usize)
        requires
            old(self).wf(),
            index < 4,
        ensures
            final(self).wf(),
            r == old(self)@[index as int],
            final(self)@ == s_mru_recall(old(self)@, index as int),
    {
        let val = self.history[index];
        let mut j = index;
        while j >= 1
            invariant
                old(self).wf(),
                self@.len() == 4,
                j <= index < 4,
                val == old(self)@[index as int],
                forall|k: int| 0 <= k <= j ==> self@[k] == old(self)@[k],
                forall|k: int| j < k <= index ==> self@[k] == old(self)@[k - 1],
                forall|k: int| index < k < 4 ==> self@[k] == old(self)@[k],
            decreases j,
        {
            let prev = self.history[j - 1];
            self.history[j] = prev;
            j = j - 1;
        }
        self.history[0] = val;
        proof {
            assert(self@ =~= s_mru_recall(old(self)@, index as int));
        }
        val
    }
}

/// LZ77 output handling: a growing byte vector together with the list
/// of recently used match distances.  A distance of zero denotes the
/// last byte already stored.
pub struct Lz77Output {
    buf: Vec<u8>,
    dist: MRUList,
}

impl View for Lz77Output {
    type V = LzOut;

    closed spec fn view(&self) -> LzOut {
        LzOut { out: self.buf@, mru: self.dist@ }
    }
}

impl Lz77Output {
    pub open spec fn wf(&self) -> bool {
        lz_wf(self@)
    }

    pub fn new() -> (r: Lz77Output)
        ensures
            r.wf(),
            r@.out =~= Seq::<u8>::empty(),
            r@.mru =~= seq![0usize, 0usize, 0usize, 0usize],
    {
        Lz77Output { buf: Vec::new(), dist: MRUList::new(4) }
    }

    /// How far the output has grown.
    pub fn len(&self) -> (n: usize)
        ensures
            n == self@.out.len(),
    {
        self.buf.len()
    }

    /// The output position modulo four, a secondary context that
    /// exploits 32-bit-aligned regularities in the source data.
    pub fn byte_in_dword(&self) -> (q: usize)
        ensures
            q == self@.out.len() % 4,
    {
        self.buf.len() % 4
    }

    /// The final byte, or zero while the output is empty.
    pub fn get_last_byte(&self) -> (b: u8)
        ensures
            b == s_last_byte(self@.out),
    {
        if self.buf.len() == 0 {
            0
        } else {
            self.buf[self.buf.len() - 1]
        }
    }

    /// The byte the most recent distance points at, or zero when that
    /// distance reaches outside the output.
    pub fn get_referenced_byte(&self) -> (b: u8)
        requires
            self.wf(),
        ensures
            b == s_ref_byte(self@.out, self@.mru[0]),
    {
        let d = self.dist.mru();
        if d >= self.buf.len() {
            0
        } else {
            self.buf[self.buf.len() - 1 - d]
        }
    }

    /// Appends one literal byte.
    pub fn literal_byte(&mut self, b: u8)
        requires
            old(self).wf(),
        ensures
            final(self).wf(),
            final(self)@.out == old(self)@.out.push(b),
            final(self)@.mru == old(self)@.mru,
    {
        self.buf.push(b);
    }

    /// Appends `n` copies of the referenced byte, re-reading it after
    /// each push so that self-overlapping runs repeat correctly.
    pub fn copy_referenced_bytes(&mut self, n: usize)
        requires
            old(self).wf(),
            old(self)@.out.len() + n <= usize::MAX,
        ensures
            final(self).wf(),
            final(self)@.out == s_copy(old(self)@.out, old(self)@.mru[0], n as nat),
            final(self)@.mru == old(self)@.mru,
    {
        let ghost out0 = self@.out;
        let ghost d = self@.mru[0];
        let mut j: usize = 0;
        while j < n
            invariant
                self.wf(),
                j <= n,
                self@.mru == old(self)@.mru,
                d == self@.mru[0],
                s_copy(out0, d, n as nat) == s_copy(self@.out, d, (n - j) as nat),
                self@.out.len() == out0.len() + j,
                out0.len() + n <= usize::MAX,
            decreases n - j,
        {
            let b = self.get_referenced_byte();
            self.buf.push(b);
            j = j + 1;
        }
    }

    /// Records a freshly decoded distance.  A distance that does not
    /// fit in 31 bits, or one pushed while the output is still empty,
    /// is refused.
    pub fn set_distance(&mut self, dist: usize) -> (r: Result<(), DecodeError>)
        requires
            old(self).wf(),
        ensures
            ({
                match r {
                    Ok(u) => final(self).wf() && s_set_distance(old(self)@, dist) == Ok::<
                        LzOut,
                        DecodeError,
                    >(final(self)@),
                    Err(e) => s_set_distance(old(self)@, dist) == Err::<LzOut, DecodeError>(e)
                        && *final(self) == *old(self),
                }
            }),
    {
        if dist > 0x7FFF_FFFF || self.buf.len() == 0 {
            Err(DecodeError::NegativeDistance)
        } else {
            self.dist.add_value(dist);
            Ok(())
        }
    }

    /// Recalls the distance in MRU slot `index`, repositioning it to
    /// the front, and returns it.
    pub fn recall_distance(&mut self, index: usize) -> (r: usize)
        requires
            old(self).wf(),
            index < 4,
        ensures
            final(self).wf(),
            r == old(self)@.mru[index as int],
            final(self)@.mru == s_mru_recall(old(self)@.mru, index as int),
            final(self)@.out == old(self)@.out,
    {
        self.dist.pick_recently_used(index)
    }

    /// Hands the accumulated output back.
    pub fn get_data(self) -> (r: Vec<u8>)
        ensures
            r@ == self@.out,
    {
        self.buf
    }
}

} // verus!
