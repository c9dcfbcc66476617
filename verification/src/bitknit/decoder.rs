//! The decoder: adaptive models, match cache and the two interleaved rANS states.
use crate::bitknit::cdf::{AdaptiveModel, ModelState};
use crate::bitknit::lru::LruCache;
use crate::bitknit::model::{
    initial_decoder, is_raw, literal, match_distance, match_length, match_step, quantum,
    quantum_end, quantum_start, raw_length, run, start_lanes, step, take_bits, take_symbol,
    word_bytes, DecoderState, Lanes, Progress, lemma_step_grows,
};
use crate::bitknit::rans::{lemma_low_mask, pop_u16, RansState};
use crate::bitknit::Error;
use crate::lz::copy_match;
use vstd::arithmetic::power2::*;
use vstd::bits::*;
use vstd::prelude::*;

verus! {

/// The rANS states as the pair that they form.
pub open spec fn lanes(s1: RansState, s2: RansState, pos: usize) -> Lanes {
    Lanes { first: s1.bits, second: s2.bits, pos: pos as int }
}

/// What the models stand for.
pub open spec fn states(models: Seq<AdaptiveModel>) -> Seq<ModelState> {
    Seq::new(models.len(), |i: int| models[i]@)
}

/// A well-formed model over `vocab` symbols whose frequencies sum to 2^15.
pub open spec fn serves(model: AdaptiveModel, vocab: nat) -> bool {
    model.wf() && model@.accum.len() == vocab && model@.bits == 15
}

pub struct Decoder {
    pub command_models: Vec<AdaptiveModel>,
    pub cache_ref_models: Vec<AdaptiveModel>,
    pub offset_model: AdaptiveModel,
    pub offset_cache: LruCache,
    pub delta_offset: usize,
}

impl View for Decoder {
    type V = DecoderState;

    open spec fn view(&self) -> DecoderState {
        DecoderState {
            commands: states(self.command_models@),
            cache_refs: states(self.cache_ref_models@),
            offsets: self.offset_model@,
            recent: self.offset_cache@,
            delta: self.delta_offset as nat,
        }
    }
}

impl Decoder {
    /// Each model is well-formed and has its vocabulary; no distance is zero.
    pub open spec fn wf(&self) -> bool {
        &&& self.command_models@.len() == 4
        &&& forall|i: int| 0 <= i < 4 ==> serves(#[trigger] self.command_models@[i], 300)
        &&& self.cache_ref_models@.len() == 4
        &&& forall|i: int| 0 <= i < 4 ==> serves(#[trigger] self.cache_ref_models@[i], 40)
        &&& serves(self.offset_model, 21)
        &&& self.offset_cache.wf()
        &&& forall|i: int| 0 <= i < 8 ==> #[trigger] self.offset_cache@[i] >= 1
        &&& self.delta_offset >= 1
    }

    pub fn new() -> (r: Self)
        ensures
            r.wf(),
            r@ == initial_decoder(),
    {
        proof {
            lemma2_to64();
        }
        let mut command_models: Vec<AdaptiveModel> = Vec::new();
        let mut cache_ref_models: Vec<AdaptiveModel> = Vec::new();
        let mut i: usize = 0;
        while i < 4
            invariant
                i <= 4,
                pow2(15) == 0x8000,
                command_models@.len() == i,
                cache_ref_models@.len() == i,
                forall|j: int|
                    0 <= j < i ==> (#[trigger] command_models@[j]).wf() && command_models@[j]@
                        == crate::bitknit::cdf::initial_model(1024, 300, 36, 15),
                forall|j: int|
                    0 <= j < i ==> (#[trigger] cache_ref_models@[j]).wf() && cache_ref_models@[j]@
                        == crate::bitknit::cdf::initial_model(1024, 40, 0, 15),
            decreases 4 - i,
        {
            command_models.push(AdaptiveModel::new(1024, 300, 36, 15, 10));
            cache_ref_models.push(AdaptiveModel::new(1024, 40, 0, 15, 10));
            i = i + 1;
        }
        let r = Decoder {
            command_models,
            cache_ref_models,
            offset_model: AdaptiveModel::new(1024, 21, 0, 15, 10),
            offset_cache: LruCache::new(),
            delta_offset: 1,
        };
        proof {
            assert(r@.commands =~= initial_decoder().commands);
            assert(r@.cache_refs =~= initial_decoder().cache_refs);
        }
        r
    }

    /// Takes raw bits off the state in turn.
    pub fn pop_bits(
        stream: &[u16],
        pos: &mut usize,
        nbits: u32,
        s1: &mut RansState,
        s2: &mut RansState,
    ) -> (r: u32)
        requires
            nbits < 32,
        ensures
            (r, lanes(*final(s1), *final(s2), *final(pos))) == take_bits(
                lanes(*old(s1), *old(s2), *old(pos)),
                stream@,
                nbits as nat,
            ),
            r < pow2(nbits as nat),
    {
        proof {
            lemma_low_mask(nbits);
            vstd::arithmetic::div_mod::lemma_mod_bound(s1.bits as int, pow2(nbits as nat) as int);
        }
        let result: u32 = s1.pop_bits(stream, pos, nbits);
        std::mem::swap(s1, s2);
        result
    }

    /// Takes a symbol off the state in turn and lets the model see it.
    pub fn pop_model(
        stream: &[u16],
        pos: &mut usize,
        model: &mut AdaptiveModel,
        s1: &mut RansState,
        s2: &mut RansState,
    ) -> (r: u32)
        requires
            old(model).wf(),
        ensures
            final(model).wf(),
            r < old(model)@.accum.len(),
            final(model)@ == old(model)@.observe(r as int),
            (r as int, lanes(*final(s1), *final(s2), *final(pos))) == take_symbol(
                lanes(*old(s1), *old(s2), *old(pos)),
                stream@,
                old(model)@,
            ),
    {
        let sym: u16 = s1.pop_cdf(stream, pos, &model.cdf);
        model.observe_symbol(sym);
        std::mem::swap(s1, s2);
        sym as u32
    }

    /// Sets up the two states from the words that open a quantum.
    pub fn decode_initial_state(
        stream: &[u16],
        pos: &mut usize,
        s1: &mut RansState,
        s2: &mut RansState,
    )
        ensures
            lanes(*final(s1), *final(s2), *final(pos)) == start_lanes(stream@, *old(pos) as int),
    {
        let init_0: u32 = pop_u16(stream, pos) as u32;
        let init_1: u32 = pop_u16(stream, pos) as u32;
        let mut merged = RansState { bits: init_0 * 0x1_0000 + init_1 };
        proof {
            lemma2_to64();
        }
        let split: u32 = merged.pop_bits(stream, pos, 4);
        proof {
            lemma_u32_shr_is_div(merged.bits, split);
            lemma_low_mask(split);
        }
        s1.bits = merged.bits >> split;
        s1.maybe_refill(stream, pos);

        let word: u32 = pop_u16(stream, pos) as u32;
        let high: u32 = 1u32 << (16 + split);
        let wide: u32 = (merged.bits << 16) | word;
        proof {
            lemma_low_mask((16 + split) as u32);
            lemma_second_lane(merged.bits, word, (16 + split) as u32);
        }
        s2.bits = (wide & (high - 1)) | high;
    }

    /// Decodes the match that `command` starts. A match may run past the end of the quantum, never
    /// past the end of `dst`.
    pub fn decode_copy(
        &mut self,
        stream: &[u16],
        pos: &mut usize,
        command: u32,
        s1: &mut RansState,
        s2: &mut RansState,
        dst: &mut [u8],
        offset: &mut usize,
    )
        requires
            old(self).wf(),
            256 <= command < 300,
            *old(offset) <= old(dst).len(),
        ensures
            final(self).wf(),
            final(dst)@.len() == old(dst)@.len(),
            *final(offset) <= final(dst)@.len(),
            (Progress {
                decoder: final(self)@,
                lanes: lanes(*final(s1), *final(s2), *final(pos)),
                out: final(dst)@.take(*final(offset) as int),
            }) == match_step(
                (Progress {
                    decoder: old(self)@,
                    lanes: lanes(*old(s1), *old(s2), *old(pos)),
                    out: old(dst)@.take(*old(offset) as int),
                }),
                command as int,
                stream@,
                old(dst)@.len(),
            ),
            final(dst)@.skip(*final(offset) as int) == old(dst)@.skip(*final(offset) as int),
    {
        let model_idx: usize = *offset % 4;
        let copy_length: u32 = if command < 288 {
            command - 254
        } else {
            let nb: u32 = command - 287;
            let extra: u32 = Self::pop_bits(stream, pos, nb, s1, s2);
            proof {
                lemma_low_mask(nb);
                lemma2_to64();
                lemma_pow2_strictly_increases(nb as nat, 13);
            }
            (1u32 << nb) + extra + 32
        };
        assert((copy_length as nat, lanes(*s1, *s2, *pos)) == match_length(
            command as int,
            lanes(*old(s1), *old(s2), *old(pos)),
            stream@,
        ));
        let copy_offset: u32 = self.decode_distance(stream, pos, model_idx, s1, s2);
        self.delta_offset = copy_offset as usize;
        copy_match(dst, offset, copy_offset as usize, copy_length);
    }

    /// Decodes the distance of a match and keeps it among the recent ones.
    fn decode_distance(
        &mut self,
        stream: &[u16],
        pos: &mut usize,
        model_idx: usize,
        s1: &mut RansState,
        s2: &mut RansState,
    ) -> (r: u32)
        requires
            old(self).wf(),
            model_idx < 4,
        ensures
            final(self).wf(),
            r >= 1,
            (r, final(self)@, lanes(*final(s1), *final(s2), *final(pos))) == match_distance(
                old(self)@,
                model_idx as int,
                lanes(*old(s1), *old(s2), *old(pos)),
                stream@,
            ),
    {
        let cache_ref: u32 = Self::pop_model(
            stream,
            pos,
            &mut self.cache_ref_models[model_idx],
            s1,
            s2,
        );
        assert(states(self.cache_ref_models@) =~= states(old(self).cache_ref_models@).update(
            model_idx as int,
            old(self)@.cache_refs[model_idx as int].observe(cache_ref as int),
        ));
        if cache_ref < 8 {
            let dist: u32 = self.offset_cache.hit(cache_ref);
            assert(forall|i: int| 0 <= i < 8 ==> #[trigger] self.offset_cache@[i] >= 1);
            dist
        } else {
            let offset_length: u32 = Self::pop_model(stream, pos, &mut self.offset_model, s1, s2);
            let nb: u32 = offset_length % 16;
            let low: u32 = Self::pop_bits(stream, pos, nb, s1, s2);
            proof {
                lemma2_to64();
                lemma_low_mask(nb);
                if nb < 15 {
                    lemma_pow2_strictly_increases(nb as nat, 15);
                }
                if offset_length >= 16 {
                    lemma_pow2_adds(nb as nat, 16);
                    if nb < 4 {
                        lemma_pow2_strictly_increases(nb as nat, 4);
                    }
                }
            }
            let offset_bits: u32 = if offset_length >= 16 {
                let raw: u32 = pop_u16(stream, pos) as u32;
                low * 0x1_0000 + raw
            } else {
                low
            };
            proof {
                assert(offset_bits < pow2(offset_length as nat)) by {
                    if offset_length >= 16 {
                        assert(low * 0x1_0000 + 0xFFFF < pow2(nb as nat) * 0x1_0000);
                    }
                }
                if offset_length < 20 {
                    lemma_pow2_strictly_increases(offset_length as nat, 20);
                }
                lemma_pow2_pos(offset_length as nat);
                lemma_u32_shl_is_mul(32u32, offset_length);
                lemma_u32_shl_is_mul(offset_bits, 5);
            }
            let dist: u32 = (32u32 << offset_length) + (offset_bits << 5) - 32 + (cache_ref - 7);
            self.offset_cache.insert(dist);
            dist
        }
    }

    /// Decodes one quantum: plain bytes after a zero word, else commands up to the boundary.
    pub fn decode_quantum(
        &mut self,
        stream: &[u16],
        pos: &mut usize,
        dst: &mut [u8],
        offset: &mut usize,
    ) -> (r: Result<(), Error>)
        requires
            old(self).wf(),
            *old(offset) <= old(dst).len(),
            old(dst).len() > 0 || is_raw(stream@, *old(pos) as int),
        ensures
            final(self).wf(),
            final(dst)@.len() == old(dst)@.len(),
            *final(offset) <= final(dst)@.len(),
            ({
                let (p, intact) = quantum(
                    old(self)@,
                    old(dst)@.take(*old(offset) as int),
                    *old(pos) as int,
                    stream@,
                    old(dst)@.len(),
                );
                &&& final(self)@ == p.decoder
                &&& *final(pos) == p.lanes.pos
                &&& final(dst)@.take(*final(offset) as int) == p.out
                &&& r == if intact {
                    Ok(())
                } else {
                    Err(Error::InvalidStream("rANS stream corrupted at quantum end"))
                }
            }),
            final(dst)@.skip(*final(offset) as int) == old(dst)@.skip(*final(offset) as int),
    {
        let ghost cap = dst@.len();
        let ghost out0 = dst@.take(*offset as int);
        let ghost pos0 = *pos as int;
        let within: usize = *offset % 0x1_0000;
        let boundary: usize = if dst.len() - *offset < 0x1_0000 - within {
            dst.len()
        } else {
            *offset - within + 0x1_0000
        };
        assert(boundary == quantum_end(*offset as nat, cap));

        if *pos < stream.len() && stream[*pos] == 0 {
            *pos = *pos + 1;
            let words_left: usize = stream.len() - *pos;
            let room: usize = boundary - *offset;
            let copy_len: usize = if words_left < room / 2 + room % 2 {
                words_left * 2
            } else {
                room
            };
            assert(copy_len == raw_length(*offset as nat, stream@, pos0, cap));
            let ghost tail = stream@.skip(pos0 + 1);
            let src_bytes: Vec<u8> = u16_slice_to_bytes(
                vstd::slice::slice_subrange(stream, *pos, *pos + copy_len / 2 + copy_len % 2),
            );
            Self::copy_plain(dst, offset, &src_bytes, copy_len);
            proof {
                assert(src_bytes@.take(copy_len as int) =~= word_bytes(tail).take(copy_len as int));
                assert(dst@.take(*offset as int) =~= out0 + src_bytes@.take(copy_len as int));
            }
            *pos = *pos + copy_len / 2;
            return Ok(());
        }
        let mut s1 = RansState::new();
        let mut s2 = RansState::new();
        Self::decode_initial_state(stream, pos, &mut s1, &mut s2);

        if *offset == 0 {
            let byte: u32 = Self::pop_bits(stream, pos, 8, &mut s1, &mut s2);
            proof {
                lemma2_to64();
            }
            dst[0] = byte as u8;
            *offset = 1;
            assert(dst@.take(1) =~= seq![byte as u8]);
        }
        let ghost start = Progress {
            decoder: self@,
            lanes: lanes(s1, s2, *pos),
            out: dst@.take(*offset as int),
        };
        assert(start == quantum_start(old(self)@, out0, pos0, stream@));
        let ghost end = run(start, stream@, boundary as nat, cap);
        while *offset < boundary
            invariant
                self.wf(),
                cap == dst@.len(),
                cap == old(dst)@.len(),
                boundary <= cap,
                *offset <= cap,
                run(
                    (Progress {
                        decoder: self@,
                        lanes: lanes(s1, s2, *pos),
                        out: dst@.take(*offset as int),
                    }),
                    stream@,
                    boundary as nat,
                    cap,
                ) == end,
                forall|i: int| *offset <= i < cap ==> dst@[i] == old(dst)@[i],
            decreases cap - *offset,
        {
            let ghost p = Progress {
                decoder: self@,
                lanes: lanes(s1, s2, *pos),
                out: dst@.take(*offset as int),
            };
            let ghost dst0 = dst@;
            let ghost self0 = *self;
            proof {
                lemma_step_grows(p, stream@, cap);
            }
            let model_idx: usize = *offset % 4;
            let command: u32 = Self::pop_model(
                stream,
                pos,
                &mut self.command_models[model_idx],
                &mut s1,
                &mut s2,
            );
            assert(states(self.command_models@) =~= states(self0.command_models@).update(
                model_idx as int,
                self0@.commands[model_idx as int].observe(command as int),
            ));
            if command >= 256 {
                self.decode_copy(stream, pos, command, &mut s1, &mut s2, dst, offset);
                assert forall|i: int| *offset <= i < cap implies dst@[i] == old(dst)@[i] by {
                    assert(dst@.skip(*offset as int)[i - *offset] == dst@[i]);
                    assert(dst0.skip(*offset as int)[i - *offset] == dst0[i]);
                }
            } else {
                let prev: u8 = if *offset >= self.delta_offset {
                    dst[*offset - self.delta_offset]
                } else {
                    0
                };
                let byte: u8 = (command as u8).wrapping_add(prev);
                dst[*offset] = byte;
                *offset = *offset + 1;
                assert(dst@.take(*offset as int) =~= literal(
                    p.out,
                    self@.delta,
                    command as int,
                ));
            }
            assert(step(p, stream@, cap) == (Progress {
                decoder: self@,
                lanes: lanes(s1, s2, *pos),
                out: dst@.take(*offset as int),
            }));
        }
        assert(dst@.skip(*offset as int) =~= old(dst)@.skip(*offset as int));

        if s1.bits != 0x1_0000 && s2.bits != 0x1_0000 {
            return Err(Error::InvalidStream("rANS stream corrupted at quantum end"));
        }
        Ok(())
    }

    /// Copies the first `n` bytes of `src` to `dst` at `offset`.
    fn copy_plain(dst: &mut [u8], offset: &mut usize, src: &Vec<u8>, n: usize)
        requires
            n <= src@.len(),
            *old(offset) + n <= old(dst).len(),
        ensures
            *final(offset) == *old(offset) + n,
            final(dst)@.len() == old(dst)@.len(),
            final(dst)@.take(*final(offset) as int) == old(dst)@.take(*old(offset) as int)
                + src@.take(n as int),
            final(dst)@.skip(*final(offset) as int) == old(dst)@.skip(*final(offset) as int),
    {
        let ghost start = *offset as int;
        let mut i: usize = 0;
        while i < n
            invariant
                i <= n <= src@.len(),
                *offset == start + i,
                0 <= start,
                start + n <= dst.len(),
                dst@.len() == old(dst)@.len(),
                forall|j: int| 0 <= j < start ==> dst@[j] == old(dst)@[j],
                forall|j: int| start <= j < start + i ==> dst@[j] == src@[j - start],
                forall|j: int| start + i <= j < dst@.len() ==> dst@[j] == old(dst)@[j],
            decreases n - i,
        {
            dst[*offset] = src[i];
            *offset = *offset + 1;
            i = i + 1;
        }
        assert(dst@.take(*offset as int) =~= old(dst)@.take(start) + src@.take(n as int));
        assert(dst@.skip(*offset as int) =~= old(dst)@.skip(*offset as int));
    }
}

/// The words of `s` as bytes, the low byte first.
pub fn u16_slice_to_bytes(s: &[u16]) -> (out: Vec<u8>)
    ensures
        out@ == word_bytes(s@),
{
    let mut out: Vec<u8> = Vec::new();
    let mut i: usize = 0;
    while i < s.len()
        invariant
            i <= s.len(),
            out@.len() == 2 * i,
            forall|j: int| 0 <= j < 2 * i ==> out@[j] == word_bytes(s@)[j],
        decreases s.len() - i,
    {
        let w: u16 = s[i];
        out.push((w % 256) as u8);
        out.push((w / 256) as u8);
        i = i + 1;
    }
    assert(out@ =~= word_bytes(s@));
    out
}

/// The low `n` bits of `m` and `word` put together, and the marker above them.
proof fn lemma_second_lane(m: u32, word: u32, n: u32)
    requires
        16 <= n < 32,
        word < 0x1_0000,
    ensures
        ((((m << 16) | word) & ((1u32 << n) - 1) as u32) | (1u32 << n)) == (m * 0x1_0000 + word)
            as nat % pow2(n as nat) + pow2(n as nat),
{
    let low = ((m << 16) | word) & ((1u32 << n) - 1) as u32;
    let sum: u64 = (m * 0x1_0000 + word) as u64;
    let top = 1u32 << n;
    lemma_low_mask(n);
    lemma_u64_low_bits_mask_is_mod(sum, n as nat);
    assert(low == sum & ((top - 1) as u64) && (low | top) == low + top) by (bit_vector)
        requires
            low == ((m << 16) | word) & ((top - 1) as u32),
            top == 1u32 << n,
            sum == m * 0x1_0000 + word,
            16 <= n < 32,
            word < 0x1_0000,
    ;
}

} // verus!
