//! rANS states and the sixteen-bit word stream that refills them.
use crate::bitknit::cdf::{lemma_total_small, symbol_of, FrequencyTable};
use vstd::arithmetic::div_mod::*;
use vstd::arithmetic::mul::*;
use vstd::arithmetic::power2::*;
use vstd::bits::*;
use vstd::prelude::*;

verus! {

/// The word at `pos`, or zero past the end, and the position after it.
pub open spec fn next_word(stream: Seq<u16>, pos: int) -> (u16, int) {
    if pos < stream.len() {
        (stream[pos], pos + 1)
    } else {
        (0, pos)
    }
}

/// A state below 2^16 takes up a word, while there are words left.
pub open spec fn refilled(bits: u32, stream: Seq<u16>, pos: int) -> (u32, int) {
    if bits < 0x1_0000 && pos < stream.len() {
        ((bits * 0x1_0000 + stream[pos]) as u32, pos + 1)
    } else {
        (bits, pos)
    }
}

/// The symbol that owns the low `n` bits of a state.
pub open spec fn state_symbol(bits: u32, sums: Seq<u16>, n: nat) -> int {
    symbol_of(sums, (bits as nat % pow2(n)) as int)
}

/// The state that remains once that symbol is removed.
pub open spec fn symbol_removed(bits: u32, sums: Seq<u16>, n: nat) -> u32 {
    let code = bits as nat % pow2(n);
    let s = state_symbol(bits, sums, n);
    ((bits as nat / pow2(n)) * (sums[s + 1] - sums[s]) + code - sums[s]) as u32
}

/// Reads the next word of the stream; zero past the end.
pub fn pop_u16(stream: &[u16], pos: &mut usize) -> (r: u16)
    ensures
        (r, *final(pos) as int) == next_word(stream@, *old(pos) as int),
{
    if *pos < stream.len() {
        let v: u16 = stream[*pos];
        *pos = *pos + 1;
        v
    } else {
        0
    }
}

pub struct RansState {
    pub bits: u32,
}

impl RansState {
    pub fn new() -> (r: Self)
        ensures
            r.bits == 0x1_0000,
    {
        RansState { bits: 0x1_0000 }
    }

    /// Removes the low `nbits` bits.
    pub fn pop_bits(&mut self, stream: &[u16], pos: &mut usize, nbits: u32) -> (r: u32)
        requires
            nbits < 32,
        ensures
            r == old(self).bits as nat % pow2(nbits as nat),
            (final(self).bits, *final(pos) as int) == refilled(
                (old(self).bits as nat / pow2(nbits as nat)) as u32,
                stream@,
                *old(pos) as int,
            ),
    {
        proof {
            lemma_low_mask(nbits);
        }
        let mask: u32 = (1u32 << nbits) - 1;
        let sym: u32 = self.bits & mask;
        proof {
            lemma_u32_low_bits_mask_is_mod(self.bits, nbits as nat);
            lemma_u32_shr_is_div(self.bits, nbits);
        }
        self.bits = self.bits >> nbits;
        self.maybe_refill(stream, pos);
        sym
    }

    /// Removes the symbol that owns the low bits.
    pub fn pop_cdf(&mut self, stream: &[u16], pos: &mut usize, cdf: &FrequencyTable) -> (r: u16)
        requires
            cdf.wf(),
        ensures
            r < cdf.vocab_size,
            r == state_symbol(old(self).bits, cdf.sums@, cdf.frequency_bits as nat),
            (final(self).bits, *final(pos) as int) == refilled(
                symbol_removed(old(self).bits, cdf.sums@, cdf.frequency_bits as nat),
                stream@,
                *old(pos) as int,
            ),
    {
        proof {
            lemma_low_mask(cdf.frequency_bits);
        }
        let mask: u32 = (1u32 << cdf.frequency_bits) - 1;
        let code: u32 = self.bits & mask;
        let ghost total = cdf.total();
        proof {
            lemma_u32_low_bits_mask_is_mod(self.bits, cdf.frequency_bits as nat);
            lemma_u32_shr_is_div(self.bits, cdf.frequency_bits);
            lemma_total_small(cdf.frequency_bits);
            lemma_mod_bound(self.bits as int, total as int);
        }
        let sym: u16 = cdf.find_symbol(code);
        let freq: u32 = cdf.frequency(sym) as u32;
        let below: u32 = cdf.sum_below(sym) as u32;
        let high: u32 = self.bits >> cdf.frequency_bits;
        proof {
            assert(cdf.sums@[sym + 1] <= total) by {
                if sym + 1 < cdf.vocab_size {
                    assert(cdf.sums@[sym + 1] < cdf.sums@[cdf.vocab_size as int]);
                }
            }
            lemma_state_fits(self.bits, cdf.frequency_bits as nat, freq as int);
            assert((high + 1) * freq == high * freq + freq) by (nonlinear_arith);
            assert(0 <= high * freq) by (nonlinear_arith)
                requires
                    high >= 0,
                    freq >= 0,
            ;
        }
        let raw: u64 = high as u64 * freq as u64 + code as u64 - below as u64;
        self.bits = raw as u32;
        self.maybe_refill(stream, pos);
        sym
    }

    /// Takes up a word where the state has dropped below 2^16.
    pub fn maybe_refill(&mut self, stream: &[u16], pos: &mut usize)
        ensures
            (final(self).bits, *final(pos) as int) == refilled(
                old(self).bits,
                stream@,
                *old(pos) as int,
            ),
    {
        if self.bits < 0x1_0000 {
            if *pos < stream.len() {
                self.bits = self.bits * 0x1_0000 + stream[*pos] as u32;
                *pos = *pos + 1;
            }
        }
    }
}

/// `(1 << n) - 1` is the mask of the low `n` bits.
pub proof fn lemma_low_mask(n: u32)
    requires
        n < 32,
    ensures
        (1u32 << n) == pow2(n as nat),
        1 <= pow2(n as nat) <= 0x8000_0000,
        low_bits_mask(n as nat) == pow2(n as nat) - 1,
{
    lemma2_to64();
    lemma_pow2_pos(n as nat);
    if n < 31 {
        lemma_pow2_strictly_increases(n as nat, 31);
    }
    lemma_u32_shl_is_mul(1u32, n);
}

/// A symbol's share of the state never exceeds thirty-two bits.
proof fn lemma_state_fits(bits: u32, n: nat, freq: int)
    requires
        n <= 15,
        0 <= freq <= pow2(n),
    ensures
        (bits as nat / pow2(n) + 1) * freq <= 0x1_0000_0000,
{
    lemma2_to64();
    lemma_total_small(n as u32);
    lemma_pow2_adds(n, (32 - n) as nat);
    lemma_pow2_pos((32 - n) as nat);
    lemma_multiply_divide_lt(bits as int, pow2(n) as int, pow2((32 - n) as nat) as int);
    let high = (bits as nat / pow2(n)) as int;
    lemma_mul_upper_bound(
        high + 1,
        pow2((32 - n) as nat) as int,
        freq,
        pow2(n) as int,
    );
    lemma_mul_is_commutative(pow2((32 - n) as nat) as int, pow2(n) as int);
}

} // verus!
