//! What the parts of an Oodle1 stream decide.
use crate::format::{u32_at, Endianness};
use crate::oodle1::coder::{initial_coder, Coder};
use crate::oodle1::dictionary::{
    initial_dictionary, law_block_is_valid, law_initial_dictionary_valid, parameter_at,
    DictionaryState,
};
use crate::oodle1::{
    blocks, decompressed_bytes, law_blocks_reach_stop, refusal, ErrorModel,
};
use crate::positional::{law_reads_are_positional, number_at};
use vstd::prelude::*;

verus! {

// ---------------------------------------------------------------------------
// Parameters
// ---------------------------------------------------------------------------
/// The parameters of a sub-stream are three numbers. The first holds the size of the literal
/// alphabet in its lowest nine bits and the window above them; the second the number of literals
/// in its lowest nine bits and the number of high parts in its highest thirteen; the third four
/// numbers of length codes, the first of them highest.
pub proof fn law_parameter_layout(data: Seq<u8>, off: int, e: Endianness)
    requires
        0 <= off,
        off + 12 <= data.len(),
    ensures
        ({
            let p = parameter_at(data, off, e);
            let a = number_at(data, off, 4, e);
            let b = number_at(data, off + 4, 4, e);
            let c = number_at(data, off + 8, 4, e);
            &&& a == p.literal_max + 512 * p.window && p.literal_max < 512
            &&& p.literal_count == b % 512
            &&& 524288 * p.high_count <= b < 524288 * (p.high_count + 1)
            &&& p.sizes.len() == 4
            &&& c == 16777216 * p.sizes[0] + 65536 * p.sizes[1] + 256 * p.sizes[2] + p.sizes[3]
        }),
{
    law_reads_are_positional(data, off, e);
    law_reads_are_positional(data, off + 4, e);
    law_reads_are_positional(data, off + 8, e);
    lemma_parts(u32_at(data, off, e), u32_at(data, off + 4, e), u32_at(data, off + 8, e));
}

proof fn lemma_parts(a: u32, b: u32, c: u32)
    ensures
        a == a % 0x200 + 512 * (a / 0x200),
        524288 * (b / 0x8_0000) <= b < 524288 * (b / 0x8_0000 + 1),
        c == 16777216 * ((c / 0x100_0000) as u8) + 65536 * (((c / 0x1_0000) % 0x100) as u8) + 256
            * (((c / 0x100) % 0x100) as u8) + (c % 0x100) as u8,
{
}

/// A stream is refused exactly where its three sets of parameters are not all there, or one of
/// them has an empty alphabet. Only nothing at all may be empty.
pub proof fn law_refused_streams(compressed: Seq<u8>, cap: nat, e: Endianness)
    ensures
        compressed.len() == 0 && cap == 0 ==> refusal(compressed, cap, e) is None,
        compressed.len() < 36 && (compressed.len() > 0 || cap > 0) ==> refusal(compressed, cap, e)
            == Some(ErrorModel::InputTruncated),
        compressed.len() >= 36 ==> (refusal(compressed, cap, e) is None <==> number_at(
            compressed,
            0,
            4,
            e,
        ) % 512 != 0 && number_at(compressed, 12, 4, e) % 512 != 0 && number_at(
            compressed,
            24,
            4,
            e,
        ) % 512 != 0),
        compressed.len() >= 36 && refusal(compressed, cap, e) is Some ==> refusal(
            compressed,
            cap,
            e,
        )->Some_0 is InvalidParameter,
{
    if compressed.len() >= 36 {
        law_parameter_layout(compressed, 0, e);
        law_parameter_layout(compressed, 12, e);
        law_parameter_layout(compressed, 24, e);
    }
}

/// The parameters that two streams have in common are those of the same bytes.
proof fn lemma_same_parameters(a: Seq<u8>, i: int, b: Seq<u8>, j: int, e: Endianness)
    requires
        0 <= i,
        i + 12 <= a.len(),
        0 <= j,
        j + 12 <= b.len(),
        a.subrange(i, i + 12) == b.subrange(j, j + 12),
    ensures
        parameter_at(a, i, e) == parameter_at(b, j, e),
{
    lemma_word_in(a, i, 0, e);
    lemma_word_in(a, i, 4, e);
    lemma_word_in(a, i, 8, e);
    lemma_word_in(b, j, 0, e);
    lemma_word_in(b, j, 4, e);
    lemma_word_in(b, j, 8, e);
}

proof fn lemma_word_in(a: Seq<u8>, i: int, k: int, e: Endianness)
    requires
        0 <= i,
        i + 12 <= a.len(),
        0 <= k <= 8,
    ensures
        u32_at(a, i + k, e) == u32_at(a.subrange(i, i + 12), k, e),
{
}

// ---------------------------------------------------------------------------
// Sub-streams
// ---------------------------------------------------------------------------
/// What the sub-stream with the parameters at `off` makes of the coded bytes, alone.
spec fn alone(compressed: Seq<u8>, off: int, cap: nat, e: Endianness) -> Seq<u8> {
    blocks(
        initial_dictionary(parameter_at(compressed, off, e)),
        initial_coder(compressed.skip(36)),
        Seq::empty(),
        cap,
        compressed.skip(36),
        cap,
    ).1
}

proof fn lemma_dictionary_valid(compressed: Seq<u8>, off: int, cap: nat, e: Endianness)
    requires
        compressed.len() >= 36,
        refusal(compressed, cap, e) is None,
        off == 0 || off == 12 || off == 24,
    ensures
        initial_dictionary(parameter_at(compressed, off, e)).valid(),
        initial_coder(compressed.skip(36)).valid(),
        initial_coder(compressed.skip(36)).pos == 0,
{
    law_initial_dictionary_valid(parameter_at(compressed, off, e));
}

proof fn lemma_alone(compressed: Seq<u8>, cap: nat, stop1: nat, stop2: nat, e: Endianness)
    requires
        compressed.len() >= 36,
        refusal(compressed, cap, e) is None,
    ensures
        stop1 >= cap ==> decompressed_bytes(compressed, cap, stop1, stop2, e) == alone(
            compressed,
            0,
            cap,
            e,
        ),
        stop1 == 0 && stop2 >= cap ==> decompressed_bytes(compressed, cap, stop1, stop2, e)
            == alone(compressed, 12, cap, e),
        stop1 == 0 && stop2 == 0 ==> decompressed_bytes(compressed, cap, stop1, stop2, e) == alone(
            compressed,
            24,
            cap,
            e,
        ),
{
    let stream = compressed.skip(36);
    let none = Seq::<u8>::empty();
    let c = initial_coder(stream);
    let d0 = initial_dictionary(parameter_at(compressed, 0, e));
    let d1 = initial_dictionary(parameter_at(compressed, 12, e));
    let d2 = initial_dictionary(parameter_at(compressed, 24, e));
    lemma_dictionary_valid(compressed, 0, cap, e);
    lemma_dictionary_valid(compressed, 12, cap, e);
    lemma_dictionary_valid(compressed, 24, cap, e);
    let (c1, out1) = blocks(d0, c, none, stop1, stream, cap);
    law_blocks_reach_stop(d0, c, none, stop1, stream, cap);
    if stop1 >= cap {
        lemma_stop_past_end(d0, c, none, stop1, stream, cap);
        assert(blocks(d1, c1, out1, stop2, stream, cap) == (c1, out1));
        assert(blocks(d2, c1, out1, cap, stream, cap) == (c1, out1));
    } else if stop1 == 0 {
        assert((c1, out1) == (c, none));
        let (c2, out2) = blocks(d1, c, none, stop2, stream, cap);
        law_blocks_reach_stop(d1, c, none, stop2, stream, cap);
        if stop2 >= cap {
            lemma_stop_past_end(d1, c, none, stop2, stream, cap);
            assert(blocks(d2, c2, out2, cap, stream, cap) == (c2, out2));
        } else if stop2 == 0 {
            assert((c2, out2) == (c, none));
        }
    }
}

proof fn lemma_stop_past_end(
    d: DictionaryState,
    c: Coder,
    out: Seq<u8>,
    stop: nat,
    stream: Seq<u8>,
    cap: nat,
)
    requires
        d.valid(),
        c.valid(),
        0 <= c.pos,
        out.len() <= cap,
        stop >= cap,
    ensures
        blocks(d, c, out, stop, stream, cap) == blocks(d, c, out, cap, stream, cap),
    decreases cap - out.len(),
{
    if out.len() < cap {
        law_block_is_valid(d, c, out, stream, cap);
        let b = d.block(c, out, stream, cap);
        lemma_stop_past_end(b.dictionary, b.coder, b.out, stop, stream, cap);
    }
}

/// The first sub-stream covers all of the output where its stop is not before the end: the other
/// parameters and the other stop then have no say.
pub proof fn law_first_sub_stream_decides(
    a: Seq<u8>,
    b: Seq<u8>,
    cap: nat,
    stop: nat,
    other_stop: nat,
    second: nat,
    other_second: nat,
    e: Endianness,
)
    requires
        a.len() >= 36,
        b.len() >= 36,
        refusal(a, cap, e) is None,
        refusal(b, cap, e) is None,
        a.subrange(0, 12) == b.subrange(0, 12),
        a.skip(36) == b.skip(36),
        stop >= cap,
        other_stop >= cap,
    ensures
        decompressed_bytes(a, cap, stop, second, e) == decompressed_bytes(
            b,
            cap,
            other_stop,
            other_second,
            e,
        ),
{
    lemma_same_parameters(a, 0, b, 0, e);
    lemma_alone(a, cap, stop, second, e);
    lemma_alone(b, cap, other_stop, other_second, e);
}

/// The three sub-streams are decoded alike: what covers all of the output as the first one does so
/// as the second, where the first stops at once, and as the third, where both others do.
pub proof fn law_sub_streams_are_alike(
    a: Seq<u8>,
    b: Seq<u8>,
    c: Seq<u8>,
    cap: nat,
    stop: nat,
    second: nat,
    e: Endianness,
)
    requires
        a.len() >= 36,
        b.len() >= 36,
        c.len() >= 36,
        refusal(a, cap, e) is None,
        refusal(b, cap, e) is None,
        refusal(c, cap, e) is None,
        a.subrange(0, 12) == b.subrange(12, 24),
        a.subrange(0, 12) == c.subrange(24, 36),
        a.skip(36) == b.skip(36),
        a.skip(36) == c.skip(36),
        stop >= cap,
    ensures
        decompressed_bytes(a, cap, stop, second, e) == decompressed_bytes(b, cap, 0, stop, e),
        decompressed_bytes(a, cap, stop, second, e) == decompressed_bytes(c, cap, 0, 0, e),
{
    lemma_same_parameters(a, 0, b, 12, e);
    lemma_same_parameters(a, 0, c, 24, e);
    lemma_alone(a, cap, stop, second, e);
    lemma_alone(b, cap, 0, stop, e);
    lemma_alone(c, cap, 0, 0, e);
}

/// `all` starts with `out`.
spec fn extends(all: Seq<u8>, out: Seq<u8>) -> bool {
    out.len() <= all.len() && forall|i: int| 0 <= i < out.len() ==> #[trigger] all[i] == out[i]
}

proof fn lemma_blocks_extend(
    d: DictionaryState,
    c: Coder,
    out: Seq<u8>,
    stop: nat,
    stream: Seq<u8>,
    cap: nat,
)
    requires
        d.valid(),
        c.valid(),
        0 <= c.pos,
        out.len() <= cap,
    ensures
        extends(blocks(d, c, out, stop, stream, cap).1, out),
    decreases cap - out.len(),
{
    if out.len() < stop && out.len() < cap {
        law_block_is_valid(d, c, out, stream, cap);
        let b = d.block(c, out, stream, cap);
        lemma_blocks_extend(b.dictionary, b.coder, b.out, stop, stream, cap);
        let all = blocks(b.dictionary, b.coder, b.out, stop, stream, cap).1;
        assert forall|i: int| 0 <= i < out.len() implies #[trigger] all[i] == out[i] by {
            assert(b.out.take(out.len() as int)[i] == out[i]);
            assert(all[i] == b.out[i]);
        }
    }
}

proof fn lemma_later_stop_extends(
    d: DictionaryState,
    c: Coder,
    out: Seq<u8>,
    stop: nat,
    later: nat,
    stream: Seq<u8>,
    cap: nat,
)
    requires
        d.valid(),
        c.valid(),
        0 <= c.pos,
        out.len() <= cap,
        stop <= later,
    ensures
        extends(
            blocks(d, c, out, later, stream, cap).1,
            blocks(d, c, out, stop, stream, cap).1,
        ),
    decreases cap - out.len(),
{
    if out.len() < stop && out.len() < cap {
        law_block_is_valid(d, c, out, stream, cap);
        let b = d.block(c, out, stream, cap);
        lemma_later_stop_extends(b.dictionary, b.coder, b.out, stop, later, stream, cap);
    } else {
        lemma_blocks_extend(d, c, out, later, stream, cap);
    }
}

/// The bytes before the first stop come from the first sub-stream: they are the same as if it
/// covered everything.
pub proof fn law_first_stop_divides(
    compressed: Seq<u8>,
    cap: nat,
    stop1: nat,
    stop2: nat,
    e: Endianness,
    i: int,
)
    requires
        compressed.len() >= 36,
        refusal(compressed, cap, e) is None,
        0 <= i < stop1,
        i < cap,
    ensures
        decompressed_bytes(compressed, cap, stop1, stop2, e)[i] == decompressed_bytes(
            compressed,
            cap,
            cap,
            cap,
            e,
        )[i],
{
    let stream = compressed.skip(36);
    let none = Seq::<u8>::empty();
    let c = initial_coder(stream);
    let d0 = initial_dictionary(parameter_at(compressed, 0, e));
    let d1 = initial_dictionary(parameter_at(compressed, 12, e));
    let d2 = initial_dictionary(parameter_at(compressed, 24, e));
    lemma_dictionary_valid(compressed, 0, cap, e);
    lemma_dictionary_valid(compressed, 12, cap, e);
    lemma_dictionary_valid(compressed, 24, cap, e);
    let (c1, out1) = blocks(d0, c, none, stop1, stream, cap);
    law_blocks_reach_stop(d0, c, none, stop1, stream, cap);
    let (c2, out2) = blocks(d1, c1, out1, stop2, stream, cap);
    law_blocks_reach_stop(d1, c1, out1, stop2, stream, cap);
    lemma_blocks_extend(d1, c1, out1, stop2, stream, cap);
    lemma_blocks_extend(d2, c2, out2, cap, stream, cap);
    lemma_alone(compressed, cap, cap, cap, e);
    if stop1 <= cap {
        lemma_later_stop_extends(d0, c, none, stop1, cap, stream, cap);
    } else {
        lemma_stop_past_end(d0, c, none, stop1, stream, cap);
    }
    let last = blocks(d2, c2, out2, cap, stream, cap).1;
    assert(last[i] == out2[i]);
    assert(out2[i] == out1[i]);
    assert(alone(compressed, 0, cap, e)[i] == out1[i]);
}

/// The bytes before the second stop do not come from the third sub-stream: they are the same as if
/// the second covered all the rest.
pub proof fn law_second_stop_divides(
    compressed: Seq<u8>,
    cap: nat,
    stop1: nat,
    stop2: nat,
    e: Endianness,
    i: int,
)
    requires
        compressed.len() >= 36,
        refusal(compressed, cap, e) is None,
        0 <= i < stop2,
        i < cap,
    ensures
        decompressed_bytes(compressed, cap, stop1, stop2, e)[i] == decompressed_bytes(
            compressed,
            cap,
            stop1,
            cap,
            e,
        )[i],
{
    let stream = compressed.skip(36);
    let none = Seq::<u8>::empty();
    let c = initial_coder(stream);
    let d0 = initial_dictionary(parameter_at(compressed, 0, e));
    let d1 = initial_dictionary(parameter_at(compressed, 12, e));
    let d2 = initial_dictionary(parameter_at(compressed, 24, e));
    lemma_dictionary_valid(compressed, 0, cap, e);
    lemma_dictionary_valid(compressed, 12, cap, e);
    lemma_dictionary_valid(compressed, 24, cap, e);
    let (c1, out1) = blocks(d0, c, none, stop1, stream, cap);
    law_blocks_reach_stop(d0, c, none, stop1, stream, cap);
    let (c2, out2) = blocks(d1, c1, out1, stop2, stream, cap);
    let (c3, out3) = blocks(d1, c1, out1, cap, stream, cap);
    law_blocks_reach_stop(d1, c1, out1, stop2, stream, cap);
    law_blocks_reach_stop(d1, c1, out1, cap, stream, cap);
    lemma_blocks_extend(d2, c2, out2, cap, stream, cap);
    lemma_blocks_extend(d2, c3, out3, cap, stream, cap);
    if stop2 <= cap {
        lemma_later_stop_extends(d1, c1, out1, stop2, cap, stream, cap);
    } else {
        lemma_stop_past_end(d1, c1, out1, stop2, stream, cap);
    }
    let last = blocks(d2, c2, out2, cap, stream, cap).1;
    let whole = blocks(d2, c3, out3, cap, stream, cap).1;
    assert(last[i] == out2[i]);
    assert(whole[i] == out3[i]);
    assert(out3[i] == out2[i]);
}

} // verus!
