//! BitKnit decompression: a dual-state interleaved rANS + LZ codec.
use crate::bitknit::decoder::Decoder;
use crate::bitknit::model::{
    decode_from, initial_decoder, lemma_quantum_advances, words, Outcome,
};
use crate::format::rd_u16;
use crate::format::Endianness;
use vstd::prelude::*;
use vstd::string::*;

pub mod cdf;
pub mod coding;
pub mod decoder;
pub mod laws;
pub mod lru;
pub mod model;
pub mod rans;
pub mod streams;

verus! {

#[derive(Debug, PartialEq, Eq, Clone, Copy)]
pub enum Error {
    InvalidMagic,
    InvalidStream(&'static str),
    OutputTooSmall,
    InputTruncated,
}

impl Error {
    /// The message shown for this error.
    pub open spec fn text(&self) -> Seq<char> {
        match self {
            Error::InvalidMagic => "BitKnit: invalid magic (expected 0x75B1)"@,
            Error::InvalidStream(msg) => "BitKnit: invalid stream: "@ + msg@,
            Error::OutputTooSmall => "BitKnit: output buffer too small"@,
            Error::InputTruncated => "BitKnit: input truncated"@,
        }
    }

    pub fn to_string(&self) -> (r: String)
        ensures
            r@ == self.text(),
    {
        match self {
            Error::InvalidMagic => String::from_str("BitKnit: invalid magic (expected 0x75B1)"),
            Error::InvalidStream(msg) => {
                let mut s = String::from_str("BitKnit: invalid stream: ");
                s.append(msg);
                s
            },
            Error::OutputTooSmall => String::from_str("BitKnit: output buffer too small"),
            Error::InputTruncated => String::from_str("BitKnit: input truncated"),
        }
    }
}

/// First word of every BitKnit stream.
pub const BITKNIT_MAGIC: u16 = 0x75B1;

/// What `compressed` decodes to when `cap` bytes are wanted, and the error that ends it, if any.
pub open spec fn decompressed_bytes(compressed: Seq<u8>, cap: nat) -> (Seq<u8>, Option<Error>) {
    let stream = words(compressed);
    if compressed.len() < 2 {
        (Seq::empty(), Some(Error::InputTruncated))
    } else if stream[0] != BITKNIT_MAGIC {
        (Seq::empty(), Some(Error::InvalidMagic))
    } else {
        let (out, outcome) = decode_from(initial_decoder(), Seq::empty(), 1, stream, cap);
        (
            out,
            match outcome {
                Outcome::Complete => None,
                Outcome::Truncated => Some(Error::InputTruncated),
                Outcome::Corrupted => Some(
                    Error::InvalidStream("rANS stream corrupted at quantum end"),
                ),
            },
        )
    }
}

/// Decompresses a BitKnit stream, filling `decompressed`. After an error the bytes decoded before
/// it stand in `decompressed`; the rest is left as it was.
pub fn decompress(compressed: &[u8], decompressed: &mut [u8]) -> (r: Result<(), Error>)
    ensures
        final(decompressed)@.len() == old(decompressed)@.len(),
        ({
            let (out, error) = decompressed_bytes(compressed@, old(decompressed)@.len());
            &&& r == match error {
                None => Ok(()),
                Some(e) => Err(e),
            }
            &&& out.len() <= old(decompressed)@.len()
            &&& r is Ok ==> out.len() == old(decompressed)@.len()
            &&& final(decompressed)@ == out + old(decompressed)@.skip(out.len() as int)
        }),
{
    let ghost cap = decompressed@.len();
    if compressed.len() < 2 {
        assert(decompressed@ =~= Seq::empty() + old(decompressed)@.skip(0));
        return Err(Error::InputTruncated);
    }
    let stream: Vec<u16> = to_words(compressed);
    if stream[0] != BITKNIT_MAGIC {
        assert(decompressed@ =~= Seq::empty() + old(decompressed)@.skip(0));
        return Err(Error::InvalidMagic);
    }
    let mut pos: usize = 1;
    let mut decoder = Decoder::new();
    let mut offset: usize = 0;
    assert(decompressed@.take(0) =~= Seq::empty());
    let ghost goal = decode_from(initial_decoder(), Seq::empty(), 1, stream@, cap);
    while offset < decompressed.len()
        invariant
            decoder.wf(),
            cap == decompressed@.len(),
            cap == old(decompressed)@.len(),
            offset <= cap,
            stream@ == words(compressed@),
            compressed@.len() >= 2,
            stream@[0] == BITKNIT_MAGIC,
            goal == decode_from(
                decoder@,
                decompressed@.take(offset as int),
                pos as int,
                stream@,
                cap,
            ),
            goal == decode_from(initial_decoder(), Seq::empty(), 1, stream@, cap),
            decompressed@.skip(offset as int) == old(decompressed)@.skip(offset as int),
        decreases cap - offset, stream@.len() - pos,
    {
        if pos >= stream.len() {
            assert(decompressed@ =~= decompressed@.take(offset as int) + decompressed@.skip(
                offset as int,
            ));
            return Err(Error::InputTruncated);
        }
        let ghost offset0 = offset as int;
        let ghost before = decompressed@;
        proof {
            lemma_quantum_advances(
                decoder@,
                before.take(offset0),
                pos as int,
                stream@,
                cap,
            );
        }
        let step = decoder.decode_quantum(stream.as_slice(), &mut pos, decompressed, &mut offset);
        proof {
            assert forall|i: int| offset <= i < cap implies decompressed@[i] == old(
                decompressed,
            )@[i] by {
                assert(decompressed@.skip(offset as int)[i - offset] == decompressed@[i]);
                assert(before.skip(offset as int)[i - offset] == before[i]);
                assert(before.skip(offset0)[i - offset0] == before[i]);
                assert(old(decompressed)@.skip(offset0)[i - offset0] == old(decompressed)@[i]);
            }
            assert(decompressed@.skip(offset as int) =~= old(decompressed)@.skip(offset as int));
        }
        if let Err(e) = step {
            assert(decompressed@ =~= decompressed@.take(offset as int) + decompressed@.skip(
                offset as int,
            ));
            return Err(e);
        }
    }
    assert(decompressed@ =~= decompressed@.take(offset as int) + decompressed@.skip(
        offset as int,
    ));
    Ok(())
}

/// The stream as little-endian words; an odd byte at the end is dropped.
fn to_words(bytes: &[u8]) -> (r: Vec<u16>)
    ensures
        r@ == words(bytes@),
{
    let mut out: Vec<u16> = Vec::new();
    let n: usize = bytes.len() / 2;
    let mut i: usize = 0;
    while i < n
        invariant
            i <= n,
            n == bytes.len() / 2,
            out@.len() == i,
            forall|j: int| 0 <= j < i ==> out@[j] == words(bytes@)[j],
        decreases n - i,
    {
        out.push(rd_u16(bytes, 2 * i, Endianness::Little));
        i = i + 1;
    }
    assert(out@ =~= words(bytes@));
    out
}

} // verus!
