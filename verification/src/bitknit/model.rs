//! What a BitKnit stream decodes to.
use crate::bitknit::cdf::{initial_model, ModelState};
use crate::bitknit::lru::{moved_to_front, with_recent};
use crate::bitknit::rans::{next_word, refilled, state_symbol, symbol_removed};
use crate::format::{u16_at, Endianness};
use crate::lz::{copied, lemma_copied_len};
use vstd::arithmetic::power2::pow2;
use vstd::prelude::*;

verus! {

/// The two interleaved rANS states, the one in turn first, and the position in the stream.
pub struct Lanes {
    pub first: u32,
    pub second: u32,
    pub pos: int,
}

/// The adaptive state that outlives a quantum.
pub struct DecoderState {
    pub commands: Seq<ModelState>,
    pub cache_refs: Seq<ModelState>,
    pub offsets: ModelState,
    /// Recent match distances, the latest first.
    pub recent: Seq<u32>,
    /// Distance to the byte that a literal is coded against.
    pub delta: nat,
}

/// A quantum under way: the decoder, the rANS states and the bytes produced so far.
pub struct Progress {
    pub decoder: DecoderState,
    pub lanes: Lanes,
    pub out: Seq<u8>,
}

/// The decoder at the start of a stream.
pub open spec fn initial_decoder() -> DecoderState {
    DecoderState {
        commands: Seq::new(4, |i: int| initial_model(1024, 300, 36, 15)),
        cache_refs: Seq::new(4, |i: int| initial_model(1024, 40, 0, 15)),
        offsets: initial_model(1024, 21, 0, 15),
        recent: Seq::new(8, |i: int| 1u32),
        delta: 1,
    }
}

/// Raw bits come off the state in turn; then the other state has its turn.
pub open spec fn take_bits(l: Lanes, stream: Seq<u16>, n: nat) -> (u32, Lanes) {
    let (rest, pos) = refilled((l.first as nat / pow2(n)) as u32, stream, l.pos);
    ((l.first as nat % pow2(n)) as u32, Lanes { first: l.second, second: rest, pos })
}

/// A modelled symbol comes off the state in turn; then the other state has its turn.
pub open spec fn take_symbol(l: Lanes, stream: Seq<u16>, m: ModelState) -> (int, Lanes) {
    let (rest, pos) = refilled(symbol_removed(l.first, m.sums, m.bits), stream, l.pos);
    (state_symbol(l.first, m.sums, m.bits), Lanes { first: l.second, second: rest, pos })
}

/// The rANS states at the start of a quantum.
pub open spec fn start_lanes(stream: Seq<u16>, pos: int) -> Lanes {
    let (w0, p1) = next_word(stream, pos);
    let (w1, p2) = next_word(stream, p1);
    let merged = (w0 * 0x1_0000 + w1) as u32;
    let split = (merged % 16) as nat;
    let (m, p3) = refilled(merged / 16, stream, p2);
    let (first, p4) = refilled((m as nat / pow2(split)) as u32, stream, p3);
    let (w2, p5) = next_word(stream, p4);
    let second = ((m * 0x1_0000 + w2) as nat % pow2(16 + split) + pow2(16 + split)) as u32;
    Lanes { first, second, pos: p5 }
}

/// The length of the match that `command` starts; long ones carry extra bits.
pub open spec fn match_length(command: int, l: Lanes, stream: Seq<u16>) -> (nat, Lanes) {
    if command < 288 {
        ((command - 254) as nat, l)
    } else {
        let nb = (command - 287) as nat;
        let (extra, next) = take_bits(l, stream, nb);
        (pow2(nb) + extra as nat + 32, next)
    }
}

/// The distance of a match: one of the recent ones, or a fresh one.
pub open spec fn match_distance(d: DecoderState, slot: int, l: Lanes, stream: Seq<u16>) -> (
    u32,
    DecoderState,
    Lanes,
) {
    let (cache_ref, l1) = take_symbol(l, stream, d.cache_refs[slot]);
    let d1 = DecoderState {
        cache_refs: d.cache_refs.update(slot, d.cache_refs[slot].observe(cache_ref)),
        ..d
    };
    if cache_ref < 8 {
        (
            d1.recent[cache_ref],
            DecoderState { recent: moved_to_front(d1.recent, cache_ref), ..d1 },
            l1,
        )
    } else {
        let (length, l2) = take_symbol(l1, stream, d1.offsets);
        let (low, l3) = take_bits(l2, stream, (length % 16) as nat);
        let (bits, l4) = if length >= 16 {
            let (word, pos) = next_word(stream, l3.pos);
            (low * 0x1_0000 + word, Lanes { pos, ..l3 })
        } else {
            (low as int, l3)
        };
        let dist = (32 * pow2(length as nat) + 32 * bits - 32 + (cache_ref - 7)) as u32;
        (
            dist,
            DecoderState {
                offsets: d1.offsets.observe(length),
                recent: with_recent(d1.recent, dist),
                ..d1
            },
            l4,
        )
    }
}

/// A match: length, distance, copy.
pub open spec fn match_step(p: Progress, command: int, stream: Seq<u16>, cap: nat) -> Progress {
    let slot = p.out.len() as int % 4;
    let (n, l1) = match_length(command, p.lanes, stream);
    let (dist, d1, l2) = match_distance(p.decoder, slot, l1, stream);
    Progress {
        decoder: DecoderState { delta: dist as nat, ..d1 },
        lanes: l2,
        out: copied(p.out, dist as nat, n, cap),
    }
}

/// A literal: the difference from the byte at the current delta distance.
pub open spec fn literal(out: Seq<u8>, delta: nat, command: int) -> Seq<u8> {
    let prev = if out.len() >= delta {
        out[out.len() - delta]
    } else {
        0u8
    };
    out.push(((command + prev) % 256) as u8)
}

/// One command: below 256 a literal, above it a match.
pub open spec fn step(p: Progress, stream: Seq<u16>, cap: nat) -> Progress {
    let slot = p.out.len() as int % 4;
    let (command, l1) = take_symbol(p.lanes, stream, p.decoder.commands[slot]);
    let d1 = DecoderState {
        commands: p.decoder.commands.update(slot, p.decoder.commands[slot].observe(command)),
        ..p.decoder
    };
    if command < 256 {
        Progress { decoder: d1, lanes: l1, out: literal(p.out, d1.delta, command) }
    } else {
        match_step(Progress { decoder: d1, lanes: l1, out: p.out }, command, stream, cap)
    }
}

/// Commands up to the position `end`.
pub open spec fn run(p: Progress, stream: Seq<u16>, end: nat, cap: nat) -> Progress
    decreases cap - p.out.len(),
{
    if p.out.len() >= end || p.out.len() >= cap {
        p
    } else {
        proof {
            lemma_step_grows(p, stream, cap);
        }
        run(step(p, stream, cap), stream, end, cap)
    }
}

/// Where the quantum that starts at `offset` ends: at the next multiple of 64 KiB, or with the
/// output.
pub open spec fn quantum_end(offset: nat, cap: nat) -> nat {
    let end = ((offset / 0x1_0000 + 1) * 0x1_0000) as nat;
    if cap < end {
        cap
    } else {
        end
    }
}

/// The words of `s` as bytes, the low byte first.
pub open spec fn word_bytes(s: Seq<u16>) -> Seq<u8> {
    Seq::new(
        2 * s.len(),
        |i: int|
            if i % 2 == 0 {
                (s[i / 2] % 256) as u8
            } else {
                (s[i / 2] / 256) as u8
            },
    )
}

/// A quantum that starts with a zero word holds plain bytes.
pub open spec fn is_raw(stream: Seq<u16>, pos: int) -> bool {
    0 <= pos < stream.len() && stream[pos] == 0
}

/// How many bytes a plain quantum holds.
pub open spec fn raw_length(offset: nat, stream: Seq<u16>, pos: int, cap: nat) -> int {
    let room = quantum_end(offset, cap) - offset;
    let held = 2 * (stream.len() - pos - 1);
    if held < room {
        held
    } else {
        room
    }
}

/// The progress of a coded quantum before its first command. The first byte of the whole output
/// is stored as it is.
pub open spec fn quantum_start(
    d: DecoderState,
    out: Seq<u8>,
    pos: int,
    stream: Seq<u16>,
) -> Progress {
    let l = start_lanes(stream, pos);
    if out.len() == 0 {
        let (byte, l1) = take_bits(l, stream, 8);
        Progress { decoder: d, lanes: l1, out: seq![byte as u8] }
    } else {
        Progress { decoder: d, lanes: l, out }
    }
}

/// One quantum: the progress it leaves behind, and whether it was intact.
pub open spec fn quantum(d: DecoderState, out: Seq<u8>, pos: int, stream: Seq<u16>, cap: nat) -> (
    Progress,
    bool,
) {
    if is_raw(stream, pos) {
        let n = raw_length(out.len(), stream, pos, cap);
        (
            Progress {
                decoder: d,
                lanes: Lanes { first: 0x1_0000, second: 0x1_0000, pos: pos + 1 + n / 2 },
                out: out + word_bytes(stream.skip(pos + 1)).take(n),
            },
            true,
        )
    } else {
        let p = run(
            quantum_start(d, out, pos, stream),
            stream,
            quantum_end(out.len(), cap),
            cap,
        );
        (p, p.lanes.first == 0x1_0000 || p.lanes.second == 0x1_0000)
    }
}

/// How decoding ends.
pub enum Outcome {
    Complete,
    Truncated,
    Corrupted,
}

/// Quantum after quantum until the output holds `cap` bytes, the words run out, or a quantum is
/// not intact.
pub open spec fn decode_from(
    d: DecoderState,
    out: Seq<u8>,
    pos: int,
    stream: Seq<u16>,
    cap: nat,
) -> (Seq<u8>, Outcome)
    decreases cap - out.len(), stream.len() - pos,
{
    if out.len() >= cap {
        (out, Outcome::Complete)
    } else if pos >= stream.len() {
        (out, Outcome::Truncated)
    } else {
        let (p, intact) = quantum(d, out, pos, stream, cap);
        proof {
            lemma_quantum_advances(d, out, pos, stream, cap);
        }
        if intact {
            decode_from(p.decoder, p.out, p.lanes.pos, stream, cap)
        } else {
            (p.out, Outcome::Corrupted)
        }
    }
}

/// The stream as little-endian words; an odd byte at the end is dropped.
pub open spec fn words(bytes: Seq<u8>) -> Seq<u16> {
    Seq::new(bytes.len() / 2, |i: int| u16_at(bytes, 2 * i, Endianness::Little))
}

// ---------------------------------------------------------------------------
// Properties
// ---------------------------------------------------------------------------

/// Every command adds output while there is room.
pub proof fn lemma_step_grows(p: Progress, stream: Seq<u16>, cap: nat)
    requires
        p.out.len() < cap,
    ensures
        p.out.len() < step(p, stream, cap).out.len() <= cap,
{
    let slot = p.out.len() as int % 4;
    let (command, l1) = take_symbol(p.lanes, stream, p.decoder.commands[slot]);
    if command >= 256 {
        let (n, l2) = match_length(command, l1, stream);
        let d1 = DecoderState {
            commands: p.decoder.commands.update(slot, p.decoder.commands[slot].observe(command)),
            ..p.decoder
        };
        let (dist, d2, l3) = match_distance(d1, slot, l2, stream);
        lemma_copied_len(p.out, dist as nat, n, cap);
    }
}

proof fn lemma_run_grows(p: Progress, stream: Seq<u16>, end: nat, cap: nat)
    ensures
        run(p, stream, end, cap).out.len() >= p.out.len(),
        p.out.len() <= cap ==> run(p, stream, end, cap).out.len() <= cap,
        p.out.len() < end && p.out.len() < cap ==> run(p, stream, end, cap).out.len()
            > p.out.len(),
    decreases cap - p.out.len(),
{
    if p.out.len() < end && p.out.len() < cap {
        lemma_step_grows(p, stream, cap);
        lemma_run_grows(step(p, stream, cap), stream, end, cap);
    }
}

/// A quantum that has room adds output, or at least consumes a word.
pub proof fn lemma_quantum_advances(
    d: DecoderState,
    out: Seq<u8>,
    pos: int,
    stream: Seq<u16>,
    cap: nat,
)
    requires
        out.len() < cap,
        pos < stream.len(),
    ensures
        ({
            let p = quantum(d, out, pos, stream, cap).0;
            &&& out.len() <= p.out.len() <= cap
            &&& p.out.len() > out.len() || pos < p.lanes.pos <= stream.len()
        }),
{
    if is_raw(stream, pos) {
        let n = raw_length(out.len(), stream, pos, cap);
        assert(0 <= n <= word_bytes(stream.skip(pos + 1)).len());
    } else {
        let start = quantum_start(d, out, pos, stream);
        lemma_run_grows(start, stream, quantum_end(out.len(), cap), cap);
    }
}

} // verus!
