//! What holds of every BitKnit stream.
use crate::bitknit::model::{
    decode_from, initial_decoder, is_raw, lemma_quantum_advances, lemma_step_grows, literal,
    match_distance, match_length, quantum, quantum_end, quantum_start, run, step, take_symbol,
    word_bytes, words, DecoderState, Progress,
};
use crate::bitknit::{decompressed_bytes, Error, BITKNIT_MAGIC};
use crate::lz::copied;
use vstd::prelude::*;

verus! {

/// Decoding never produces more than is wanted, and what completes is all that is wanted.
pub proof fn law_decode_fills(d: DecoderState, out: Seq<u8>, pos: int, stream: Seq<u16>, cap: nat)
    requires
        out.len() <= cap,
    ensures
        out.len() <= decode_from(d, out, pos, stream, cap).0.len() <= cap,
        decode_from(d, out, pos, stream, cap).1 is Complete ==> decode_from(
            d,
            out,
            pos,
            stream,
            cap,
        ).0.len() == cap,
    decreases cap - out.len(), stream.len() - pos,
{
    if out.len() < cap && pos < stream.len() {
        lemma_quantum_advances(d, out, pos, stream, cap);
        let (p, intact) = quantum(d, out, pos, stream, cap);
        if intact {
            law_decode_fills(p.decoder, p.out, p.lanes.pos, stream, cap);
        }
    }
}

/// A stream decodes to at most `cap` bytes, and to exactly as many where it is accepted.
pub proof fn law_decompressed_size(compressed: Seq<u8>, cap: nat)
    ensures
        decompressed_bytes(compressed, cap).0.len() <= cap,
        decompressed_bytes(compressed, cap).1 is None ==> decompressed_bytes(
            compressed,
            cap,
        ).0.len() == cap,
{
    law_decode_fills(initial_decoder(), Seq::empty(), 1, words(compressed), cap);
}

/// The stream that holds `bytes` as they are: the magic, a zero word, the bytes.
pub open spec fn plain_stream(bytes: Seq<u8>) -> Seq<u8> {
    seq![0xB1u8, 0x75u8, 0u8, 0u8] + bytes
}

/// A quantum of plain bytes decodes to those bytes.
pub proof fn law_plain_stream_round_trip(bytes: Seq<u8>)
    requires
        bytes.len() % 2 == 0,
        bytes.len() <= 0x1_0000,
    ensures
        decompressed_bytes(plain_stream(bytes), bytes.len()) == (bytes, None::<Error>),
{
    let data = plain_stream(bytes);
    let stream = words(data);
    let cap = bytes.len();
    assert(stream[0] == BITKNIT_MAGIC);
    if cap > 0 {
        assert(stream[1] == 0);
        let d = initial_decoder();
        let tail = stream.skip(2);
        assert(word_bytes(tail) =~= bytes) by {
            assert forall|i: int| 0 <= i < bytes.len() implies word_bytes(tail)[i] == bytes[i] by {
                let k = i / 2;
                assert(tail[k] == stream[k + 2]);
                assert(stream[k + 2] == data[2 * k + 4] + 0x100 * data[2 * k + 5]);
            }
        }
        let (p, intact) = quantum(d, Seq::empty(), 1, stream, cap);
        assert(p.out =~= bytes);
        assert(decode_from(d, Seq::empty(), 1, stream, cap) == decode_from(
            p.decoder,
            p.out,
            p.lanes.pos,
            stream,
            cap,
        ));
    } else {
        assert(bytes =~= Seq::empty());
    }
}

/// `all` starts with `out`.
pub open spec fn starts_with(all: Seq<u8>, out: Seq<u8>) -> bool {
    out.len() <= all.len() && all.take(out.len() as int) == out
}

proof fn lemma_starts_with_transitive(a: Seq<u8>, b: Seq<u8>, c: Seq<u8>)
    requires
        starts_with(c, b),
        starts_with(b, a),
    ensures
        starts_with(c, a),
{
    assert(c.take(a.len() as int) =~= b.take(a.len() as int)) by {
        assert forall|i: int| 0 <= i < a.len() implies c[i] == b[i] by {
            assert(c.take(b.len() as int)[i] == b[i]);
        }
    }
}

proof fn lemma_copied_keeps(out: Seq<u8>, dist: nat, n: nat, cap: nat)
    ensures
        starts_with(copied(out, dist, n, cap), out),
    decreases n,
{
    if n > 0 && out.len() < cap {
        let byte = if dist <= out.len() {
            out[out.len() - dist]
        } else {
            0u8
        };
        lemma_copied_keeps(out.push(byte), dist, (n - 1) as nat, cap);
        assert(out.push(byte).take(out.len() as int) =~= out);
        lemma_starts_with_transitive(out, out.push(byte), copied(out, dist, n, cap));
    } else {
        assert(out.take(out.len() as int) =~= out);
    }
}

proof fn lemma_step_keeps(p: Progress, stream: Seq<u16>, cap: nat)
    ensures
        starts_with(step(p, stream, cap).out, p.out),
{
    let slot = p.out.len() as int % 4;
    let (command, l1) = take_symbol(p.lanes, stream, p.decoder.commands[slot]);
    let d1 = DecoderState {
        commands: p.decoder.commands.update(slot, p.decoder.commands[slot].observe(command)),
        ..p.decoder
    };
    if command < 256 {
        assert(literal(p.out, d1.delta, command).take(p.out.len() as int) =~= p.out);
    } else {
        let (n, l2) = match_length(command, l1, stream);
        let (dist, d2, l3) = match_distance(d1, slot, l2, stream);
        lemma_copied_keeps(p.out, dist as nat, n, cap);
    }
}

proof fn lemma_run_keeps(p: Progress, stream: Seq<u16>, end: nat, cap: nat)
    ensures
        starts_with(run(p, stream, end, cap).out, p.out),
    decreases cap - p.out.len(),
{
    if p.out.len() < end && p.out.len() < cap {
        lemma_step_grows(p, stream, cap);
        let q = step(p, stream, cap);
        lemma_run_keeps(q, stream, end, cap);
        lemma_step_keeps(p, stream, cap);
        lemma_starts_with_transitive(p.out, q.out, run(q, stream, end, cap).out);
    } else {
        assert(p.out.take(p.out.len() as int) =~= p.out);
    }
}

/// Commands go on until the end is reached, and no further: the last one starts before it.
pub proof fn lemma_run_ends(p: Progress, stream: Seq<u16>, end: nat, cap: nat)
    requires
        p.out.len() < end <= cap,
    ensures
        run(p, stream, end, cap).out.len() >= end,
        exists|q: Progress|
            q.out.len() < end && #[trigger] step(q, stream, cap) == run(p, stream, end, cap),
    decreases cap - p.out.len(),
{
    lemma_step_grows(p, stream, cap);
    let next = step(p, stream, cap);
    if next.out.len() < end {
        lemma_run_ends(next, stream, end, cap);
        assert(run(p, stream, end, cap) == run(next, stream, end, cap));
    } else {
        assert(run(next, stream, end, cap) == next);
        assert(run(p, stream, end, cap) == next);
    }
}

/// Bytes once decoded stay as they are.
pub proof fn law_decode_keeps_output(
    d: DecoderState,
    out: Seq<u8>,
    pos: int,
    stream: Seq<u16>,
    cap: nat,
)
    ensures
        starts_with(decode_from(d, out, pos, stream, cap).0, out),
    decreases cap - out.len(), stream.len() - pos,
{
    assert(out.take(out.len() as int) =~= out);
    if out.len() < cap && pos < stream.len() {
        lemma_quantum_advances(d, out, pos, stream, cap);
        let (p, intact) = quantum(d, out, pos, stream, cap);
        if is_raw(stream, pos) {
            assert(p.out.take(out.len() as int) =~= out);
        } else {
            let start = quantum_start(d, out, pos, stream);
            lemma_run_keeps(start, stream, quantum_end(out.len(), cap), cap);
            if out.len() == 0 {
                assert(p.out.take(0) =~= out);
            }
        }
        if intact {
            law_decode_keeps_output(p.decoder, p.out, p.lanes.pos, stream, cap);
            lemma_starts_with_transitive(
                out,
                p.out,
                decode_from(p.decoder, p.out, p.lanes.pos, stream, cap).0,
            );
        }
    }
}

} // verus!
