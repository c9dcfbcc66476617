//! The arithmetic decoder at the bottom of an Oodle1 stream.
use vstd::arithmetic::div_mod::*;
use vstd::arithmetic::mul::*;
use vstd::prelude::*;
use vstd::wrapping::u32_specs;

verus! {

/// Intervals up to this width take in another byte before a symbol is decoded.
pub const INGEST_THRESHOLD: u32 = 0x80_0000;

/// A point `numer` in an interval of width `denom`, and the byte of the stream reached.
pub struct Coder {
    pub numer: nat,
    pub denom: nat,
    pub pos: int,
}

/// The byte at `i`; zero past the end.
pub open spec fn stream_byte(stream: Seq<u8>, i: int) -> u8 {
    if 0 <= i < stream.len() {
        stream[i]
    } else {
        0
    }
}

impl Coder {
    /// The point lies in the interval.
    pub open spec fn valid(self) -> bool {
        self.numer < self.denom <= 0x8000_0000
    }

    /// The interval is wide enough to tell sixteen-bit symbols apart.
    pub open spec fn ready(self) -> bool {
        self.valid() && self.denom > INGEST_THRESHOLD
    }

    /// The interval with bytes taken in until it is wide enough. Each step takes the lowest bit
    /// of the current byte and the upper seven of the next one.
    pub open spec fn ingested(self, stream: Seq<u8>) -> Coder
        decreases 0x8000_0000 - self.denom,
        when self.denom >= 1
    {
        if self.denom > INGEST_THRESHOLD {
            self
        } else {
            (Coder {
                numer: 256 * self.numer + 128 * (stream_byte(stream, self.pos) as nat % 2)
                    + stream_byte(stream, self.pos + 1) as nat / 2,
                denom: 256 * self.denom,
                pos: if self.pos < usize::MAX {
                    self.pos + 1
                } else {
                    self.pos
                },
            }).ingested(stream)
        }
    }

    /// The symbol below `max` that the point falls on when the interval is cut into `max` parts.
    pub open spec fn symbol(self, max: nat) -> nat {
        let s = self.numer / (self.denom / max);
        if s < max {
            s
        } else {
            (max - 1) as nat
        }
    }

    /// The interval cut down to the parts `val .. val + err` of `max`; the last part reaches to
    /// the end of the interval.
    pub open spec fn narrowed(self, max: nat, val: nat, err: nat) -> Coder {
        let unit = self.denom / max;
        Coder {
            numer: (self.numer - unit * val) as nat,
            denom: if val + err < max {
                unit * err
            } else {
                (self.denom - unit * val) as nat
            },
            pos: self.pos,
        }
    }

    /// Decodes one of `max` equally likely symbols.
    pub open spec fn uniform(self, stream: Seq<u8>, max: nat) -> (nat, Coder) {
        let c = self.ingested(stream);
        (c.symbol(max), c.narrowed(max, c.symbol(max), 1))
    }
}

/// The coder before the first symbol.
pub open spec fn initial_coder(stream: Seq<u8>) -> Coder {
    Coder { numer: stream_byte(stream, 0) as nat / 2, denom: 0x80, pos: 0 }
}

/// Taking in bytes keeps the point in the interval and makes the interval wide enough.
pub proof fn law_ingested_is_ready(c: Coder, stream: Seq<u8>)
    requires
        c.valid(),
        0 <= c.pos,
    ensures
        c.ingested(stream).ready(),
        0 <= c.ingested(stream).pos,
    decreases 0x8000_0000 - c.denom,
{
    if c.denom <= INGEST_THRESHOLD {
        let next = Coder {
            numer: 256 * c.numer + 128 * (stream_byte(stream, c.pos) as nat % 2) + stream_byte(
                stream,
                c.pos + 1,
            ) as nat / 2,
            denom: 256 * c.denom,
            pos: if c.pos < usize::MAX {
                c.pos + 1
            } else {
                c.pos
            },
        };
        law_ingested_is_ready(next, stream);
    }
}

/// Narrowing to parts that hold the decoded symbol keeps the point in the interval, and the
/// interval stays inside the former one.
pub proof fn law_narrowed_is_valid(c: Coder, max: nat, val: nat, err: nat)
    requires
        c.ready(),
        1 <= max <= 0xFFFF,
        val <= c.symbol(max) < val + err,
        val + err <= max,
    ensures
        c.narrowed(max, val, err).valid(),
        c.narrowed(max, val, err).numer + (c.denom / max) * val == c.numer,
        c.narrowed(max, val, err).denom <= c.denom,
{
    let unit = (c.denom / max) as int;
    let s = c.numer as int / unit;
    assert(unit >= 1) by {
        lemma_div_is_ordered(max as int, c.denom as int, max as int);
        lemma_div_by_self(max as int);
    }
    lemma_fundamental_div_mod(c.numer as int, unit);
    lemma_mod_bound(c.numer as int, unit);
    lemma_fundamental_div_mod(c.denom as int, max as int);
    lemma_mod_bound(c.denom as int, max as int);
    assert(unit * val <= unit * s) by (nonlinear_arith)
        requires
            val <= s,
            unit >= 1,
    ;
    assert(unit * (val + err) == unit * val + unit * err) by (nonlinear_arith);
    if val + err < max {
        assert(s + 1 <= val + err);
        assert(unit * (s + 1) <= unit * (val + err)) by (nonlinear_arith)
            requires
                s + 1 <= val + err,
                unit >= 1,
        ;
        assert(unit * (s + 1) == unit * s + unit) by (nonlinear_arith);
        assert(unit * (val + err) <= unit * max) by (nonlinear_arith)
            requires
                val + err <= max,
                unit >= 1,
        ;
        assert(unit * max == max * unit) by (nonlinear_arith);
        assert(unit * val >= 0) by (nonlinear_arith)
            requires
                unit >= 1,
                val >= 0,
        ;
    } else {
        assert(unit * val >= 0) by (nonlinear_arith)
            requires
                unit >= 1,
                val >= 0,
        ;
    }
}

/// Decoding one of `max` equally likely symbols yields one below `max` and keeps the point in the
/// interval.
pub proof fn law_uniform_is_valid(c: Coder, stream: Seq<u8>, max: nat)
    requires
        c.valid(),
        0 <= c.pos,
        1 <= max <= 0xFFFF,
    ensures
        c.uniform(stream, max).0 < max,
        c.uniform(stream, max).1.valid(),
        0 <= c.uniform(stream, max).1.pos,
{
    law_ingested_is_ready(c, stream);
    let d = c.ingested(stream);
    law_narrowed_is_valid(d, max, d.symbol(max), 1);
}

/// Reads symbols off a byte stream, most significant bits first, one bit ahead of the bytes.
pub struct Decoder<'a> {
    pub numer: u32,
    pub denom: u32,
    pub next_denom: u32,
    pub stream: &'a [u8],
    pub pos: usize,
}

impl<'a> View for Decoder<'a> {
    type V = Coder;

    open spec fn view(&self) -> Coder {
        Coder { numer: self.numer as nat, denom: self.denom as nat, pos: self.pos as int }
    }
}

impl<'a> Decoder<'a> {
    /// The point lies in the interval.
    pub open spec fn wf(&self) -> bool {
        self@.valid()
    }

    pub fn new(stream: &'a [u8]) -> (r: Self)
        ensures
            r.wf(),
            r@ == initial_coder(stream@),
            r.stream == stream,
    {
        let numer: u32 = if stream.len() > 0 {
            (stream[0] / 2) as u32
        } else {
            0
        };
        Decoder { numer, denom: 0x80, next_denom: 0, stream, pos: 0 }
    }

    /// The byte at `idx`; zero past the end.
    pub fn byte_at(&self, idx: usize) -> (r: u8)
        ensures
            r == stream_byte(self.stream@, idx as int),
    {
        if idx < self.stream.len() {
            self.stream[idx]
        } else {
            0
        }
    }

    /// Takes in bytes as needed and looks up the symbol in `0 .. max`, without removing it.
    pub fn decode(&mut self, max: u16) -> (r: u16)
        requires
            old(self).wf(),
            max >= 1,
        ensures
            final(self).wf(),
            final(self).stream == old(self).stream,
            final(self)@ == old(self)@.ingested(old(self).stream@),
            final(self)@.ready(),
            final(self).next_denom == final(self).denom / max as u32,
            r == final(self)@.symbol(max as nat),
            r < max,
    {
        let ghost goal = self@.ingested(self.stream@);
        while self.denom <= INGEST_THRESHOLD
            invariant
                self.wf(),
                self.stream == old(self).stream,
                goal == self@.ingested(self.stream@),
            decreases 0x8000_0000 - self.denom,
        {
            assert(self.stream@.len() == self.stream.len());
            let b0: u8 = self.byte_at(self.pos);
            let b1: u8 = if self.pos < usize::MAX {
                self.byte_at(self.pos + 1)
            } else {
                0
            };
            self.numer = 256 * self.numer + 128 * (b0 % 2) as u32 + (b1 / 2) as u32;
            self.denom = 256 * self.denom;
            if self.pos < usize::MAX {
                self.pos = self.pos + 1;
            }
        }
        self.next_denom = self.denom / max as u32;
        proof {
            lemma_div_is_ordered(max as int, self.denom as int, max as int);
            lemma_div_by_self(max as int);
        }
        let sym: u32 = self.numer / self.next_denom;
        if sym < max as u32 {
            sym as u16
        } else {
            max - 1
        }
    }

    /// Removes a symbol that takes up the parts `val .. val + err` of the `max` that the last
    /// lookup cut the interval into. Arithmetic wraps around, as unsigned arithmetic does.
    pub fn commit(&mut self, max: u16, val: u16, err: u16) -> (r: u16)
        ensures
            r == val,
            final(self).stream == old(self).stream,
            final(self).pos == old(self).pos,
            final(self).next_denom == old(self).next_denom,
            final(self).numer == u32_specs::wrapping_sub(
                old(self).numer,
                u32_specs::wrapping_mul(old(self).next_denom, val as u32),
            ),
            final(self).denom == if val + err < max {
                u32_specs::wrapping_mul(old(self).next_denom, err as u32)
            } else {
                u32_specs::wrapping_sub(
                    old(self).denom,
                    u32_specs::wrapping_mul(old(self).next_denom, val as u32),
                )
            },
            // After a lookup, nothing wraps around.
            old(self).wf() && old(self)@.ready() && max >= 1 && old(self).next_denom
                == old(self).denom / max as u32 && val <= old(self)@.symbol(max as nat) < val + err
                && val + err <= max ==> final(self).wf() && final(self)@ == old(self)@.narrowed(
                max as nat,
                val as nat,
                err as nat,
            ),
    {
        proof {
            if self.wf() && self@.ready() && max >= 1 && self.next_denom == self.denom / max as u32
                && val <= self@.symbol(max as nat) < val + err && val + err <= max {
                law_narrowed_is_valid(self@, max as nat, val as nat, err as nat);
                assert(self.next_denom * val >= 0) by (nonlinear_arith);
                assert(self.next_denom * err >= 0) by (nonlinear_arith);
            }
        }
        self.numer = self.numer.wrapping_sub(self.next_denom.wrapping_mul(val as u32));
        if (val as u32 + err as u32) < max as u32 {
            self.denom = self.next_denom.wrapping_mul(err as u32);
        } else {
            self.denom = self.denom.wrapping_sub(self.next_denom.wrapping_mul(val as u32));
        }
        val
    }

    /// Looks up and removes one of `max` equally likely symbols.
    pub fn decode_commit(&mut self, max: u16) -> (r: u16)
        requires
            old(self).wf(),
            max >= 1,
        ensures
            final(self).wf(),
            final(self).stream == old(self).stream,
            (r as nat, final(self)@) == old(self)@.uniform(old(self).stream@, max as nat),
            r < max,
    {
        let val: u16 = self.decode(max);
        self.commit(max, val, 1)
    }
}

} // verus!
