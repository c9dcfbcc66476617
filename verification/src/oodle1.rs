//! Oodle1 decompression: an arithmetic decoder, adaptive symbol windows and an LZ dictionary.
//!
//! A stream opens with three sets of parameters, one for each sub-stream, and goes on with one
//! sequence of arithmetic-coded blocks that the sub-streams share.
use crate::format::Endianness;
use crate::oodle1::coder::{initial_coder, Coder, Decoder};
use crate::oodle1::dictionary::{
    initial_dictionary, law_block_is_valid, law_initial_dictionary_valid, parameter_at,
    parse_parameter, Dictionary, DictionaryState, Parameter,
};
use crate::text::{decimal, decimal_text};
use vstd::prelude::*;
use vstd::string::*;

pub mod coder;
pub mod coding;
pub mod dictionary;
pub mod streams;
pub mod window;

verus! {

#[derive(Debug, PartialEq, Eq)]
pub enum Error {
    InputTruncated,
    InvalidParameter(String),
}

/// What an [`Error`] stands for.
pub enum ErrorModel {
    InputTruncated,
    InvalidParameter(Seq<char>),
}

impl View for Error {
    type V = ErrorModel;

    open spec fn view(&self) -> ErrorModel {
        match self {
            Error::InputTruncated => ErrorModel::InputTruncated,
            Error::InvalidParameter(s) => ErrorModel::InvalidParameter(s@),
        }
    }
}

impl ErrorModel {
    /// The message shown for this error.
    pub open spec fn text(self) -> Seq<char> {
        match self {
            ErrorModel::InputTruncated => "Oodle1: input truncated"@,
            ErrorModel::InvalidParameter(s) => "Oodle1: invalid parameter: "@ + s,
        }
    }
}

impl Error {
    pub fn to_string(&self) -> (r: String)
        ensures
            r@ == self@.text(),
    {
        match self {
            Error::InputTruncated => String::from_str("Oodle1: input truncated"),
            Error::InvalidParameter(msg) => {
                let mut s = String::from_str("Oodle1: invalid parameter: ");
                s.append(msg.as_str());
                s
            },
        }
    }
}

/// Block after block until the output reaches `stop` or is full.
pub open spec fn blocks(
    d: DictionaryState,
    c: Coder,
    out: Seq<u8>,
    stop: nat,
    stream: Seq<u8>,
    cap: nat,
) -> (Coder, Seq<u8>)
    decreases cap - out.len(),
    when d.valid() && c.valid() && 0 <= c.pos
{
    if out.len() >= stop || out.len() >= cap {
        (c, out)
    } else {
        let b = d.block(c, out, stream, cap);
        proof {
            law_block_is_valid(d, c, out, stream, cap);
        }
        blocks(b.dictionary, b.coder, b.out, stop, stream, cap)
    }
}

/// What a stream decodes to when `cap` bytes are wanted. The first two sub-streams end once the
/// output has reached `stop1` and `stop2`; a match that starts before a stop may run past it.
pub open spec fn decompressed_bytes(
    compressed: Seq<u8>,
    cap: nat,
    stop1: nat,
    stop2: nat,
    endian: Endianness,
) -> Seq<u8> {
    let stream = compressed.skip(36);
    let d0 = initial_dictionary(parameter_at(compressed, 0, endian));
    let d1 = initial_dictionary(parameter_at(compressed, 12, endian));
    let d2 = initial_dictionary(parameter_at(compressed, 24, endian));
    let (c1, out1) = blocks(d0, initial_coder(stream), Seq::empty(), stop1, stream, cap);
    let (c2, out2) = blocks(d1, c1, out1, stop2, stream, cap);
    blocks(d2, c2, out2, cap, stream, cap).1
}

/// The first sub-stream whose literal alphabet is empty, if any.
pub open spec fn empty_alphabet(compressed: Seq<u8>, endian: Endianness) -> Option<nat> {
    if parameter_at(compressed, 0, endian).literal_max == 0 {
        Some(0)
    } else if parameter_at(compressed, 12, endian).literal_max == 0 {
        Some(1)
    } else if parameter_at(compressed, 24, endian).literal_max == 0 {
        Some(2)
    } else {
        None
    }
}

/// Why a stream is refused, if it is.
pub open spec fn refusal(compressed: Seq<u8>, cap: nat, endian: Endianness) -> Option<ErrorModel> {
    if compressed.len() == 0 && cap == 0 {
        None
    } else if compressed.len() < 36 {
        Some(ErrorModel::InputTruncated)
    } else {
        match empty_alphabet(compressed, endian) {
            Some(i) => Some(
                ErrorModel::InvalidParameter(
                    "sub-stream "@ + decimal_text(i) + ": decoded_value_max is 0"@,
                ),
            ),
            None => None,
        }
    }
}

/// Decompresses an Oodle1 stream, filling `decompressed`. The values `first_16bit` and
/// `first_8bit` of the section header say where the first and the second sub-stream stop. A
/// refused stream leaves `decompressed` as it was.
pub fn decompress(
    compressed: &[u8],
    decompressed: &mut [u8],
    first_16bit: u32,
    first_8bit: u32,
    endian: Endianness,
) -> (r: Result<(), Error>)
    ensures
        final(decompressed)@.len() == old(decompressed)@.len(),
        match refusal(compressed@, old(decompressed)@.len(), endian) {
            Some(e) => r is Err && r->Err_0@ == e && final(decompressed)@ == old(decompressed)@,
            None => r is Ok && (compressed@.len() > 0 ==> final(decompressed)@
                == decompressed_bytes(
                compressed@,
                old(decompressed)@.len(),
                first_16bit as nat,
                first_8bit as nat,
                endian,
            )),
        },
{
    if compressed.len() == 0 && decompressed.len() == 0 {
        return Ok(());
    }
    if compressed.len() < 36 {
        return Err(Error::InputTruncated);
    }
    let p0 = parse_parameter(compressed, 0, endian);
    let p1 = parse_parameter(compressed, 12, endian);
    let p2 = parse_parameter(compressed, 24, endian);
    if p0.decoded_value_max == 0 {
        return Err(empty_alphabet_error(0));
    }
    if p1.decoded_value_max == 0 {
        return Err(empty_alphabet_error(1));
    }
    if p2.decoded_value_max == 0 {
        return Err(empty_alphabet_error(2));
    }
    let stream = vstd::slice::slice_subrange(compressed, 36, compressed.len());
    assert(stream@ =~= compressed@.skip(36));
    let mut decoder = Decoder::new(stream);
    let mut write_pos: usize = 0;
    assert(decompressed@.take(0) =~= Seq::empty());
    let n: usize = decompressed.len();
    decode_sub_stream(&p0, &mut decoder, decompressed, &mut write_pos, first_16bit as usize);
    decode_sub_stream(&p1, &mut decoder, decompressed, &mut write_pos, first_8bit as usize);
    decode_sub_stream(&p2, &mut decoder, decompressed, &mut write_pos, n);
    assert(decompressed@.take(write_pos as int) =~= decompressed@);
    Ok(())
}

fn empty_alphabet_error(i: u64) -> (r: Error)
    ensures
        r@ == ErrorModel::InvalidParameter(
            "sub-stream "@ + decimal_text(i as nat) + ": decoded_value_max is 0"@,
        ),
{
    let mut msg = String::from_str("sub-stream ");
    msg.append(decimal(i).as_str());
    msg.append(": decoded_value_max is 0");
    Error::InvalidParameter(msg)
}

/// Decodes blocks with a new dictionary until the output reaches `stop`.
fn decode_sub_stream(
    param: &Parameter,
    decoder: &mut Decoder,
    output: &mut [u8],
    write_pos: &mut usize,
    stop: usize,
)
    requires
        param@.valid(),
        param@.literal_max >= 1,
        old(decoder).wf(),
        *old(write_pos) <= old(output).len(),
    ensures
        final(decoder).wf(),
        final(decoder).stream == old(decoder).stream,
        final(output)@.len() == old(output)@.len(),
        *final(write_pos) <= final(output)@.len(),
        *final(write_pos) >= stop || *final(write_pos) == final(output)@.len(),
        (final(decoder)@, final(output)@.take(*final(write_pos) as int)) == blocks(
            initial_dictionary(param@),
            old(decoder)@,
            old(output)@.take(*old(write_pos) as int),
            stop as nat,
            old(decoder).stream@,
            old(output)@.len(),
        ),
{
    let mut dict = Dictionary::new(param);
    let ghost stream = decoder.stream@;
    let ghost cap = output@.len();
    let ghost goal = blocks(
        dict@,
        decoder@,
        output@.take(*write_pos as int),
        stop as nat,
        stream,
        cap,
    );
    while *write_pos < stop && *write_pos < output.len()
        invariant
            dict.wf(),
            decoder.wf(),
            decoder.stream == old(decoder).stream,
            stream == decoder.stream@,
            cap == output@.len(),
            output@.len() == old(output)@.len(),
            *write_pos <= output.len(),
            goal == blocks(
                dict@,
                decoder@,
                output@.take(*write_pos as int),
                stop as nat,
                stream,
                cap,
            ),
        decreases cap - *write_pos,
    {
        let ghost out = output@.take(*write_pos as int);
        let ghost b = dict@.block(decoder@, out, stream, cap);
        proof {
            law_block_is_valid(dict@, decoder@, out, stream, cap);
        }
        let written: u32 = dict.decompress_block(decoder, output, *write_pos);
        *write_pos = *write_pos + written as usize;
        assert(output@.take(*write_pos as int) =~= b.out);
    }
}

/// Blocks fill the output up to the stop, or up to its end, and keep the coder valid.
pub proof fn law_blocks_reach_stop(
    d: DictionaryState,
    c: Coder,
    out: Seq<u8>,
    stop: nat,
    stream: Seq<u8>,
    cap: nat,
)
    requires
        d.valid(),
        c.valid(),
        0 <= c.pos,
        out.len() <= cap,
    ensures
        blocks(d, c, out, stop, stream, cap).0.valid(),
        0 <= blocks(d, c, out, stop, stream, cap).0.pos,
        out.len() <= blocks(d, c, out, stop, stream, cap).1.len() <= cap,
        blocks(d, c, out, stop, stream, cap).1.len() >= stop || blocks(
            d,
            c,
            out,
            stop,
            stream,
            cap,
        ).1.len() == cap,
    decreases cap - out.len(),
{
    if out.len() < stop && out.len() < cap {
        law_block_is_valid(d, c, out, stream, cap);
        let b = d.block(c, out, stream, cap);
        law_blocks_reach_stop(b.dictionary, b.coder, b.out, stop, stream, cap);
    }
}

/// A stream that is not refused decodes to exactly as many bytes as are wanted, wherever its
/// sub-streams stop. Only a short header or an empty alphabet is refused; no coded symbol is.
pub proof fn law_decompressed_size(
    compressed: Seq<u8>,
    cap: nat,
    stop1: nat,
    stop2: nat,
    endian: Endianness,
)
    requires
        compressed.len() >= 36,
        refusal(compressed, cap, endian) is None,
    ensures
        decompressed_bytes(compressed, cap, stop1, stop2, endian).len() == cap,
{
    let stream = compressed.skip(36);
    let p0 = parameter_at(compressed, 0, endian);
    let p1 = parameter_at(compressed, 12, endian);
    let p2 = parameter_at(compressed, 24, endian);
    law_initial_dictionary_valid(p0);
    law_initial_dictionary_valid(p1);
    law_initial_dictionary_valid(p2);
    let c0 = initial_coder(stream);
    law_blocks_reach_stop(initial_dictionary(p0), c0, Seq::empty(), stop1, stream, cap);
    let (c1, out1) = blocks(initial_dictionary(p0), c0, Seq::empty(), stop1, stream, cap);
    law_blocks_reach_stop(initial_dictionary(p1), c1, out1, stop2, stream, cap);
    let (c2, out2) = blocks(initial_dictionary(p1), c1, out1, stop2, stream, cap);
    law_blocks_reach_stop(initial_dictionary(p2), c2, out2, cap, stream, cap);
}

} // verus!
