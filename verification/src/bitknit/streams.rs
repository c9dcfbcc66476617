//! Streams whose contents are known: what is stored is read back.
use crate::bitknit::laws::lemma_run_ends;
use crate::bitknit::model::{
    decode_from, initial_decoder, is_raw, quantum, quantum_end, quantum_start, raw_length, step,
    word_bytes, words, DecoderState, Outcome, Progress,
};
use crate::bitknit::{decompressed_bytes, Error};
use crate::format::{u16_at, Endianness};
use vstd::prelude::*;

verus! {

/// `bytes` cut into pieces of 64 KiB, each behind a zero word. A last piece of odd length is
/// followed by a byte that makes up its last word.
pub open spec fn stored(bytes: Seq<u8>) -> Seq<u8>
    decreases bytes.len(),
{
    if bytes.len() == 0 {
        Seq::empty()
    } else if bytes.len() <= 65536 {
        if bytes.len() % 2 == 0 {
            seq![0u8, 0u8] + bytes
        } else {
            seq![0u8, 0u8] + bytes + seq![0u8]
        }
    } else {
        seq![0u8, 0u8] + bytes.take(65536) + stored(bytes.skip(65536))
    }
}

/// The stream that holds `bytes` as they are.
pub open spec fn stored_stream(bytes: Seq<u8>) -> Seq<u8> {
    seq![0xB1u8, 0x75u8] + stored(bytes)
}

/// The words of `stream` from `pos` on are the bytes of `s`, the low byte of a word first.
spec fn holds_at(stream: Seq<u16>, pos: int, s: Seq<u8>) -> bool {
    &&& s.len() % 2 == 0
    &&& stream.len() == pos + s.len() / 2
    &&& forall|k: int|
        0 <= k < s.len() / 2 ==> #[trigger] stream[pos + k] == s[2 * k] + 0x100 * s[2 * k + 1]
}

proof fn lemma_stored_even(bytes: Seq<u8>)
    ensures
        stored(bytes).len() % 2 == 0,
        bytes.len() > 0 ==> stored(bytes).len() >= bytes.len() + 2,
    decreases bytes.len(),
{
    if bytes.len() > 65536 {
        lemma_stored_even(bytes.skip(65536));
    }
}

spec fn piece_length(rest: Seq<u8>) -> int {
    if rest.len() <= 65536 {
        rest.len() as int
    } else {
        65536
    }
}

proof fn lemma_stored_layout(rest: Seq<u8>)
    requires
        rest.len() > 0,
    ensures
        ({
            let s = stored(rest);
            let n = piece_length(rest);
            &&& s.len() >= n + 2
            &&& s[0] == 0 && s[1] == 0
            &&& forall|i: int| 0 <= i < n ==> #[trigger] s[2 + i] == rest[i]
            &&& rest.len() > 65536 ==> s == seq![0u8, 0u8] + rest.take(65536) + stored(
                rest.skip(65536),
            )
        }),
{
}

proof fn lemma_piece_bytes(rest: Seq<u8>, pos: int, stream: Seq<u16>)
    requires
        0 <= pos,
        rest.len() > 0,
        holds_at(stream, pos, stored(rest)),
    ensures
        stream.len() > pos,
        stream[pos] == 0,
        2 * (stream.len() - pos - 1) >= piece_length(rest),
        word_bytes(stream.skip(pos + 1)).take(piece_length(rest)) == rest.take(piece_length(rest)),
{
    let s = stored(rest);
    let n = piece_length(rest);
    lemma_stored_even(rest);
    lemma_stored_layout(rest);
    let zero: int = 0;
    assert(stream[pos + zero] == s[2 * zero] + 0x100 * s[2 * zero + 1]);
    let tail = stream.skip(pos + 1);
    let all = word_bytes(tail);
    assert forall|i: int| 0 <= i < n implies #[trigger] all[i] == rest[i] by {
        let k = i / 2 + 1;
        assert(tail[i / 2] == stream[pos + k]);
        assert(s[2 + i] == rest[i]);
        assert(stream[pos + k] == s[2 * k] + 0x100 * s[2 * k + 1]);
    }
    assert(all.take(n) =~= rest.take(n));
}

proof fn lemma_piece_decodes(
    d: DecoderState,
    out: Seq<u8>,
    rest: Seq<u8>,
    pos: int,
    stream: Seq<u16>,
)
    requires
        0 <= pos,
        rest.len() > 0,
        out.len() % 65536 == 0,
        holds_at(stream, pos, stored(rest)),
    ensures
        ({
            let (p, intact) = quantum(d, out, pos, stream, out.len() + rest.len());
            &&& intact
            &&& p.out == out + rest.take(piece_length(rest))
            &&& p.lanes.pos == pos + 1 + piece_length(rest) / 2
        }),
{
    let cap = out.len() + rest.len();
    let n = piece_length(rest);
    lemma_piece_bytes(rest, pos, stream);
    assert(is_raw(stream, pos));
    assert(quantum_end(out.len(), cap) == out.len() + n);
    assert(raw_length(out.len(), stream, pos, cap) == n);
}

proof fn lemma_next_piece(rest: Seq<u8>, pos: int, stream: Seq<u16>)
    requires
        0 <= pos,
        rest.len() > 65536,
        holds_at(stream, pos, stored(rest)),
    ensures
        holds_at(stream, pos + 1 + 32768, stored(rest.skip(65536))),
{
    let s = stored(rest);
    let t = stored(rest.skip(65536));
    let next = pos + 1 + 32768;
    lemma_stored_even(rest.skip(65536));
    lemma_stored_layout(rest);
    assert forall|k: int| 0 <= k < t.len() / 2 implies #[trigger] stream[next + k] == t[2 * k]
        + 0x100 * t[2 * k + 1] by {
        let j = k + 1 + 32768;
        assert(stream[pos + j] == s[2 * j] + 0x100 * s[2 * j + 1]);
        assert(s[2 * j] == t[2 * k]);
        assert(s[2 * j + 1] == t[2 * k + 1]);
    }
}

proof fn lemma_stored_decodes(
    d: DecoderState,
    out: Seq<u8>,
    rest: Seq<u8>,
    pos: int,
    stream: Seq<u16>,
)
    requires
        0 <= pos,
        out.len() % 65536 == 0,
        holds_at(stream, pos, stored(rest)),
    ensures
        decode_from(d, out, pos, stream, out.len() + rest.len()) == (out + rest, Outcome::Complete),
    decreases rest.len(),
{
    let cap = out.len() + rest.len();
    if rest.len() == 0 {
        assert(out + rest =~= out);
    } else {
        let p = quantum(d, out, pos, stream, cap).0;
        lemma_piece_bytes(rest, pos, stream);
        lemma_piece_decodes(d, out, rest, pos, stream);
        assert(decode_from(d, out, pos, stream, cap) == decode_from(
            p.decoder,
            p.out,
            p.lanes.pos,
            stream,
            cap,
        ));
        if rest.len() <= 65536 {
            assert(p.out =~= out + rest);
        } else {
            let more = rest.skip(65536);
            lemma_next_piece(rest, pos, stream);
            lemma_stored_decodes(p.decoder, p.out, more, p.lanes.pos, stream);
            assert(p.out + more =~= out + rest);
            assert(p.out.len() + more.len() == cap);
        }
    }
}

/// What is stored is read back, whatever it is and in however many pieces of 64 KiB.
pub proof fn law_stored_bytes_are_read_back(bytes: Seq<u8>)
    ensures
        decompressed_bytes(stored_stream(bytes), bytes.len()) == (bytes, None::<Error>),
{
    let data = stored_stream(bytes);
    let stream = words(data);
    let s = stored(bytes);
    lemma_stored_even(bytes);
    assert(data[0] == 0xB1 && data[1] == 0x75);
    assert(stream[0] == u16_at(data, 0, Endianness::Little));
    assert(stream[0] == 0x75B1);
    assert forall|k: int| 0 <= k < s.len() / 2 implies #[trigger] stream[1 + k] == s[2 * k] + 0x100
        * s[2 * k + 1] by {
        assert(data[2 * (1 + k)] == s[2 * k]);
        assert(data[2 * (1 + k) + 1] == s[2 * k + 1]);
    }
    lemma_stored_decodes(initial_decoder(), Seq::empty(), bytes, 1, stream);
    assert(Seq::<u8>::empty() + bytes =~= bytes);
}

/// A quantum goes on up to the next multiple of 64 KiB, or up to the end of the output: one of
/// stored bytes ends there if its words last, a coded one with the command that reaches it.
pub proof fn law_quantums_end_at_multiples(
    d: DecoderState,
    out: Seq<u8>,
    pos: int,
    stream: Seq<u16>,
    cap: nat,
    m: nat,
)
    requires
        0 <= pos,
        out.len() < cap,
        m % 65536 == 0,
        out.len() < m <= out.len() + 65536,
    ensures
        ({
            let p = quantum(d, out, pos, stream, cap).0;
            let end = if cap < m {
                cap
            } else {
                m
            };
            &&& pos < stream.len() && stream[pos] == 0 && out.len() + 2 * (stream.len() - pos - 1)
                >= end ==> p.out.len() == end
            &&& !(pos < stream.len() && stream[pos] == 0) && (out.len() > 0 || end > 1) ==> {
                &&& p.out.len() >= end
                &&& exists|q: Progress| q.out.len() < end && #[trigger] step(q, stream, cap) == p
            }
        }),
{
    let end = if cap < m {
        cap
    } else {
        m
    };
    assert(quantum_end(out.len(), cap) == end);
    if !is_raw(stream, pos) && (out.len() > 0 || end > 1) {
        lemma_run_ends(quantum_start(d, out, pos, stream), stream, end, cap);
    }
}

/// A stream of fewer than two bytes is cut short, and one that does not open with the bytes B1 75
/// is none. Behind them there has to be a word where any output is wanted; where none is, the rest
/// does not matter.
pub proof fn law_refused_streams(compressed: Seq<u8>, cap: nat)
    ensures
        ({
            let nothing = Seq::<u8>::empty();
            let r = decompressed_bytes(compressed, cap);
            let opens = compressed.len() >= 2 && compressed[0] == 0xB1 && compressed[1] == 0x75;
            &&& compressed.len() < 2 ==> r == (nothing, Some(Error::InputTruncated))
            &&& compressed.len() >= 2 && !opens ==> r == (nothing, Some(Error::InvalidMagic))
            &&& opens && cap == 0 ==> r == (nothing, None::<Error>)
            &&& opens && cap > 0 && compressed.len() < 4 ==> r == (
                nothing,
                Some(Error::InputTruncated),
            )
        }),
{
    if compressed.len() >= 2 {
        let stream = words(compressed);
        assert(stream[0] == compressed[0] + 0x100 * compressed[1]);
        assert(stream[0] == 0x75B1 <==> compressed[0] == 0xB1 && compressed[1] == 0x75);
    }
}

/// Decoding goes from quantum to quantum, each with the models that the one before it left, until
/// the output is full. It stops short where the words run out or a quantum is not intact, with
/// the bytes decoded so far.
pub proof fn law_quantums_follow_each_other(
    d: DecoderState,
    out: Seq<u8>,
    pos: int,
    stream: Seq<u16>,
    cap: nat,
)
    ensures
        ({
            let r = decode_from(d, out, pos, stream, cap);
            let (p, intact) = quantum(d, out, pos, stream, cap);
            &&& out.len() >= cap ==> r == (out, Outcome::Complete)
            &&& out.len() < cap && pos >= stream.len() ==> r == (out, Outcome::Truncated)
            &&& out.len() < cap && pos < stream.len() && !intact ==> r == (
                p.out,
                Outcome::Corrupted,
            )
            &&& out.len() < cap && pos < stream.len() && intact ==> r == decode_from(
                p.decoder,
                p.out,
                p.lanes.pos,
                stream,
                cap,
            )
        }),
{
}

/// A stream that opens well starts with fresh models at its second word, and its error tells how
/// decoding ended.
pub proof fn law_stream_outcomes(compressed: Seq<u8>, cap: nat)
    requires
        compressed.len() >= 2,
        compressed[0] == 0xB1,
        compressed[1] == 0x75,
    ensures
        ({
            let (out, error) = decompressed_bytes(compressed, cap);
            let (all, outcome) = decode_from(
                initial_decoder(),
                Seq::empty(),
                1,
                words(compressed),
                cap,
            );
            &&& out == all
            &&& error is None <==> outcome is Complete
            &&& error == Some(Error::InputTruncated) <==> outcome is Truncated
            &&& (error is Some && error->Some_0 is InvalidStream) <==> outcome is Corrupted
        }),
{
    assert(words(compressed)[0] == compressed[0] + 0x100 * compressed[1]);
}

/// The words of a stream are its bytes in pairs, the low one first; an odd byte at the end is
/// dropped.
pub proof fn law_words(bytes: Seq<u8>, i: int)
    requires
        0 <= i < bytes.len() / 2,
    ensures
        words(bytes).len() == bytes.len() / 2,
        words(bytes)[i] % 256 == bytes[2 * i],
        words(bytes)[i] / 256 == bytes[2 * i + 1],
{
}

} // verus!
