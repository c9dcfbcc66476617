//! The LZ layer of Oodle1: literals and matches, each part of them coded by windows of its own.
use crate::format::{rd_u32, u32_at, Endianness};
use crate::lz::{copied, copy_match, law_copied_repeats, lemma_copied_len};
use crate::oodle1::coder::{law_uniform_is_valid, Coder, Decoder};
use crate::oodle1::window::{
    initial_window, law_decoded_is_valid, law_initial_window_valid, WeighWindow, Window,
};
use vstd::prelude::*;
use vstd::wrapping::u32_specs;

verus! {

/// The parameters of a sub-stream.
pub struct Parameter {
    /// Size of the literal alphabet.
    pub decoded_value_max: u32,
    /// Size of the LZ window.
    pub backref_value_max: u32,
    /// Number of different literals.
    pub decoded_count: u32,
    /// Largest distance, in units of 1024.
    pub highbit_count: u32,
    /// Number of different match lengths, by group.
    pub sizes_count: [u8; 4],
}

/// What a [`Parameter`] stands for.
pub struct ParameterModel {
    pub literal_max: nat,
    pub window: nat,
    pub literal_count: nat,
    pub high_count: nat,
    pub sizes: Seq<u8>,
}

impl View for Parameter {
    type V = ParameterModel;

    open spec fn view(&self) -> ParameterModel {
        ParameterModel {
            literal_max: self.decoded_value_max as nat,
            window: self.backref_value_max as nat,
            literal_count: self.decoded_count as nat,
            high_count: self.highbit_count as nat,
            sizes: self.sizes_count@,
        }
    }
}

/// The parameters that the twelve bytes at `off` hold.
pub open spec fn parameter_at(data: Seq<u8>, off: int, endian: Endianness) -> ParameterModel {
    let word0 = u32_at(data, off, endian);
    let word1 = u32_at(data, off + 4, endian);
    let word2 = u32_at(data, off + 8, endian);
    ParameterModel {
        literal_max: (word0 % 0x200) as nat,
        window: (word0 / 0x200) as nat,
        literal_count: (word1 % 0x200) as nat,
        high_count: (word1 / 0x8_0000) as nat,
        sizes: seq![
            (word2 / 0x100_0000) as u8,
            ((word2 / 0x1_0000) % 0x100) as u8,
            ((word2 / 0x100) % 0x100) as u8,
            (word2 % 0x100) as u8,
        ],
    }
}

impl ParameterModel {
    /// Each number fits the bits that it is stored in.
    pub open spec fn valid(self) -> bool {
        &&& self.literal_max < 0x200
        &&& self.window < 0x80_0000
        &&& self.literal_count < 0x200
        &&& self.high_count < 0x2000
        &&& self.sizes.len() == 4
    }

    /// The number of values of the lowest part of a distance.
    pub open spec fn low_max(self) -> nat {
        if self.window < 3 {
            self.window + 1
        } else {
            4
        }
    }

    /// The number of values of the middle part of a distance.
    pub open spec fn mid_max(self) -> nat {
        mid_values(self.window)
    }

    /// The number of values of the highest part of a distance.
    pub open spec fn high_max(self) -> nat {
        self.window / 1024 + 1
    }
}

/// The number of values of the middle part of a distance up to `range`.
pub open spec fn mid_values(range: nat) -> nat {
    if range / 4 + 1 < 256 {
        range / 4 + 1
    } else {
        256
    }
}

/// Reads the parameters at `off`.
pub fn parse_parameter(data: &[u8], off: usize, endian: Endianness) -> (r: Parameter)
    requires
        off + 12 <= data.len(),
    ensures
        r@ == parameter_at(data@, off as int, endian),
        r@.valid(),
{
    let word0: u32 = rd_u32(data, off, endian);
    let word1: u32 = rd_u32(data, off + 4, endian);
    let word2: u32 = rd_u32(data, off + 8, endian);
    let r = Parameter {
        decoded_value_max: word0 % 0x200,
        backref_value_max: word0 / 0x200,
        decoded_count: word1 % 0x200,
        highbit_count: word1 / 0x8_0000,
        sizes_count: [
            (word2 / 0x100_0000) as u8,
            ((word2 / 0x1_0000) % 0x100) as u8,
            ((word2 / 0x100) % 0x100) as u8,
            (word2 % 0x100) as u8,
        ],
    };
    assert(r@.sizes =~= parameter_at(data@, off as int, endian).sizes);
    r
}

/// What a [`Dictionary`] stands for.
pub struct DictionaryState {
    /// Bytes written so far, counted in thirty-two bits.
    pub decoded: u32,
    /// The last match length code; it selects the window of the next one.
    pub length_code: nat,
    pub param: ParameterModel,
    pub low: Window,
    pub high: Window,
    pub mids: Seq<Window>,
    pub literals: Seq<Window>,
    pub sizes: Seq<Window>,
}

/// The dictionary before the first block.
pub open spec fn initial_dictionary(p: ParameterModel) -> DictionaryState {
    DictionaryState {
        decoded: 0,
        length_code: 0,
        param: p,
        low: initial_window((p.low_max() - 1) as nat, p.low_max()),
        high: initial_window((p.high_max() - 1) as nat, p.high_count + 1),
        mids: Seq::new(
            p.high_max(),
            |i: int| initial_window((p.mid_max() - 1) as nat, p.mid_max()),
        ),
        literals: Seq::new(
            4,
            |i: int| initial_window((p.literal_max - 1) as nat, p.literal_count),
        ),
        sizes: Seq::new(
            65,
            |i: int|
                initial_window(
                    64,
                    p.sizes[if i < 64 {
                        i / 16
                    } else {
                        3
                    }] as nat,
                ),
        ),
    }
}

/// The number of bytes that a match length code stands for.
pub open spec fn match_length(code: int) -> nat {
    if code < 61 {
        (code + 1) as nat
    } else if code == 61 {
        128
    } else if code == 62 {
        192
    } else if code == 63 {
        256
    } else {
        512
    }
}

/// `out` after a match. One that reaches back before the start of the output yields zeros.
pub open spec fn matched(out: Seq<u8>, dist: nat, n: nat, cap: nat) -> Seq<u8> {
    if dist <= out.len() {
        copied(out, dist, n, cap)
    } else {
        let room = (cap - out.len()) as nat;
        out + Seq::new(
            if n < room {
                n
            } else {
                room
            },
            |i: int| 0u8,
        )
    }
}

/// The dictionary, the coder and the output after a block.
pub struct BlockStep {
    pub dictionary: DictionaryState,
    pub coder: Coder,
    pub out: Seq<u8>,
}

impl DictionaryState {
    /// All windows are valid, and every symbol in them is one that its place allows.
    pub open spec fn valid(self) -> bool {
        &&& self.param.valid()
        &&& self.param.literal_max >= 1
        &&& self.length_code < 65
        &&& self.low.valid() && self.low.values_below(self.param.low_max() as int)
        &&& self.high.valid() && self.high.values_below(self.param.high_max() as int)
        &&& self.mids.len() == self.param.high_max()
        &&& forall|i: int| 0 <= i < self.mids.len() ==> serves(#[trigger] self.mids[i], 256)
        &&& self.literals.len() == 4
        &&& forall|i: int|
            0 <= i < 4 ==> serves(#[trigger] self.literals[i], self.param.literal_max as int)
        &&& self.sizes.len() == 65
        &&& forall|i: int| 0 <= i < 65 ==> serves(#[trigger] self.sizes[i], 65)
    }

    /// The length code that opens a block.
    pub open spec fn with_length_code(self, c: Coder, stream: Seq<u8>) -> (
        int,
        DictionaryState,
        Coder,
    ) {
        let k = self.length_code as int;
        let (code, w, c1) = self.sizes[k].symbol(c, stream, 65);
        (
            code as int,
            DictionaryState { length_code: code as nat, sizes: self.sizes.update(k, w), ..self },
            c1,
        )
    }

    /// The distance of a match, coded as a low, a high and a middle part.
    pub open spec fn with_distance(self, c: Coder, stream: Seq<u8>) -> (
        nat,
        DictionaryState,
        Coder,
    ) {
        let range = if self.param.window < self.decoded {
            self.param.window
        } else {
            self.decoded as nat
        };
        let (low, low_window, c1) = self.low.symbol(c, stream, self.param.low_max());
        let (high, high_window, c2) = self.high.symbol(c1, stream, range / 1024 + 1);
        let (mid, mid_window, c3) = self.mids[high as int].symbol(c2, stream, mid_values(range));
        (
            (1024 * high + 4 * mid + low + 1) as nat,
            DictionaryState {
                low: low_window,
                high: high_window,
                mids: self.mids.update(high as int, mid_window),
                ..self
            },
            c3,
        )
    }

    /// The dictionary once `n` more bytes are written.
    pub open spec fn wrote(self, n: int) -> DictionaryState {
        DictionaryState { decoded: u32_specs::wrapping_add(self.decoded, n as u32), ..self }
    }

    /// One block: a match where the length code is above zero, else a literal. What does not fit
    /// into `cap` bytes is dropped.
    pub open spec fn block(self, c: Coder, out: Seq<u8>, stream: Seq<u8>, cap: nat) -> BlockStep {
        let (code, d, c1) = self.with_length_code(c, stream);
        if code > 0 {
            let (dist, d1, c2) = d.with_distance(c1, stream);
            let all = matched(out, dist, match_length(code), cap);
            BlockStep { dictionary: d1.wrote(all.len() - out.len()), coder: c2, out: all }
        } else {
            let k = d.decoded as int % 4;
            let (v, w, c2) = d.literals[k].symbol(c1, stream, d.param.literal_max);
            let all = if out.len() < cap {
                out.push((v % 256) as u8)
            } else {
                out
            };
            let d1 = DictionaryState { literals: d.literals.update(k, w), ..d };
            BlockStep { dictionary: d1.wrote(all.len() - out.len()), coder: c2, out: all }
        }
    }
}

/// A valid window with all symbols below `bound`.
pub open spec fn serves(w: Window, bound: int) -> bool {
    w.valid() && w.values_below(bound)
}

/// Decoding a symbol keeps a window and the coder valid, and the symbol is below the bound of the
/// window.
pub proof fn law_symbol_is_valid(w: Window, c: Coder, stream: Seq<u8>, max: nat, bound: int)
    requires
        serves(w, bound),
        c.valid(),
        0 <= c.pos,
        1 <= max <= 0xFFFF,
        max <= bound,
    ensures
        serves(w.symbol(c, stream, max).1, bound),
        w.symbol(c, stream, max).2.valid(),
        0 <= w.symbol(c, stream, max).2.pos,
        w.symbol(c, stream, max).0 < bound,
{
    law_decoded_is_valid(w, c, stream);
    let d = w.decoded(c, stream);
    assert(d.window.values_below(bound));
    if d.fresh {
        law_uniform_is_valid(d.coder, stream, max);
        let r = w.symbol(c, stream, max).1;
        assert forall|i: int| 0 <= i < r.values.len() implies #[trigger] r.values[i] < bound by {
            assert(d.window.values[i] < bound);
        }
    }
}

/// A dictionary starts out valid.
pub proof fn law_initial_dictionary_valid(p: ParameterModel)
    requires
        p.valid(),
        p.literal_max >= 1,
    ensures
        initial_dictionary(p).valid(),
{
    let d = initial_dictionary(p);
    law_initial_window_valid((p.low_max() - 1) as nat, p.low_max());
    law_initial_window_valid((p.high_max() - 1) as nat, p.high_count + 1);
    law_initial_window_valid((p.mid_max() - 1) as nat, p.mid_max());
    law_initial_window_valid((p.literal_max - 1) as nat, p.literal_count);
    assert forall|i: int| 0 <= i < 65 implies serves(#[trigger] d.sizes[i], 65) by {
        law_initial_window_valid(
            64,
            p.sizes[if i < 64 {
                i / 16
            } else {
                3
            }] as nat,
        );
    }
}

/// A block keeps the dictionary and the coder valid: no symbol ever leads outside the windows. It
/// leaves the output produced before it alone and adds up to 512 bytes to it, at least one where
/// there is room and never past `cap`.
pub proof fn law_block_is_valid(
    d: DictionaryState,
    c: Coder,
    out: Seq<u8>,
    stream: Seq<u8>,
    cap: nat,
)
    requires
        d.valid(),
        c.valid(),
        0 <= c.pos,
        out.len() <= cap,
    ensures
        d.block(c, out, stream, cap).dictionary.valid(),
        d.block(c, out, stream, cap).coder.valid(),
        0 <= d.block(c, out, stream, cap).coder.pos,
        out.len() <= d.block(c, out, stream, cap).out.len() <= out.len() + 512,
        d.block(c, out, stream, cap).out.len() <= cap,
        out.len() < cap ==> out.len() < d.block(c, out, stream, cap).out.len(),
        d.block(c, out, stream, cap).out.take(out.len() as int) == out,
{
    law_symbol_is_valid(d.sizes[d.length_code as int], c, stream, 65, 65);
    let (code, d1, c1) = d.with_length_code(c, stream);
    if code > 0 {
        let range = if d1.param.window < d1.decoded {
            d1.param.window
        } else {
            d1.decoded as nat
        };
        law_symbol_is_valid(
            d1.low,
            c1,
            stream,
            d1.param.low_max(),
            d1.param.low_max() as int,
        );
        let c2 = d1.low.symbol(c1, stream, d1.param.low_max()).2;
        law_symbol_is_valid(d1.high, c2, stream, range / 1024 + 1, d1.param.high_max() as int);
        let (high, w, c3) = d1.high.symbol(c2, stream, range / 1024 + 1);
        law_symbol_is_valid(d1.mids[high as int], c3, stream, mid_values(range), 256);
        let (dist, d2, c4) = d1.with_distance(c1, stream);
        lemma_copied_len(out, dist, match_length(code), cap);
        law_copied_repeats(out, dist, match_length(code), cap);
        assert(matched(out, dist, match_length(code), cap).take(out.len() as int) =~= out);
    } else {
        let k = d1.decoded as int % 4;
        law_symbol_is_valid(
            d1.literals[k],
            c1,
            stream,
            d1.param.literal_max,
            d1.param.literal_max as int,
        );
        assert(d.block(c, out, stream, cap).out.take(out.len() as int) =~= out);
    }
}

// ---------------------------------------------------------------------------
// The dictionary itself
// ---------------------------------------------------------------------------

pub struct Dictionary {
    pub decoded_size: u32,
    /// The last match length code; it selects the window of the next one.
    pub backref_size: u32,
    pub decoded_value_max: u32,
    pub backref_value_max: u32,
    pub lowbit_value_max: u32,
    pub lowbit_window: WeighWindow,
    pub highbit_window: WeighWindow,
    pub midbit_windows: Vec<WeighWindow>,
    pub decoded_windows: Vec<WeighWindow>,
    pub size_windows: Vec<WeighWindow>,
    pub param: Ghost<ParameterModel>,
}

/// What the windows stand for.
pub open spec fn windows(s: Seq<WeighWindow>) -> Seq<Window> {
    Seq::new(s.len(), |i: int| s[i]@)
}

/// All windows are well-formed.
pub open spec fn all_wf(s: Seq<WeighWindow>) -> bool {
    forall|i: int| 0 <= i < s.len() ==> (#[trigger] s[i]).wf()
}

impl View for Dictionary {
    type V = DictionaryState;

    open spec fn view(&self) -> DictionaryState {
        DictionaryState {
            decoded: self.decoded_size,
            length_code: self.backref_size as nat,
            param: self.param@,
            low: self.lowbit_window@,
            high: self.highbit_window@,
            mids: windows(self.midbit_windows@),
            literals: windows(self.decoded_windows@),
            sizes: windows(self.size_windows@),
        }
    }
}

/// `n` new windows.
fn new_windows(n: usize, max_value: u32, count_cap: u16) -> (r: Vec<WeighWindow>)
    requires
        max_value <= 0x7FF_FFFF,
        count_cap < 0xFFFF,
    ensures
        r@.len() == n,
        all_wf(r@),
        forall|i: int|
            0 <= i < n ==> (#[trigger] r@[i])@ == initial_window(
                max_value as nat,
                count_cap as nat,
            ),
{
    let mut r: Vec<WeighWindow> = Vec::new();
    let mut i: usize = 0;
    while i < n
        invariant
            i <= n,
            max_value <= 0x7FF_FFFF,
            count_cap < 0xFFFF,
            r@.len() == i,
            all_wf(r@),
            forall|j: int|
                0 <= j < i ==> (#[trigger] r@[j])@ == initial_window(
                    max_value as nat,
                    count_cap as nat,
                ),
        decreases n - i,
    {
        r.push(WeighWindow::new(max_value, count_cap));
        i = i + 1;
    }
    r
}

impl Dictionary {
    /// The windows are valid and kept up to date, the sizes agree with the parameters.
    pub open spec fn wf(&self) -> bool {
        &&& self@.valid()
        &&& self.decoded_value_max == self.param@.literal_max
        &&& self.backref_value_max == self.param@.window
        &&& self.lowbit_value_max == self.param@.low_max()
        &&& self.lowbit_window.wf()
        &&& self.highbit_window.wf()
        &&& all_wf(self.midbit_windows@)
        &&& all_wf(self.decoded_windows@)
        &&& all_wf(self.size_windows@)
    }

    pub fn new(param: &Parameter) -> (r: Self)
        requires
            param@.valid(),
            param@.literal_max >= 1,
        ensures
            r.wf(),
            r@ == initial_dictionary(param@),
    {
        let ghost p = param@;
        let backref_value_max: u32 = param.backref_value_max;
        let lowbit_value_max: u32 = if backref_value_max < 3 {
            backref_value_max + 1
        } else {
            4
        };
        let midbit_value_max: u32 = if backref_value_max / 4 + 1 < 256 {
            backref_value_max / 4 + 1
        } else {
            256
        };
        let highbit_value_max: u32 = backref_value_max / 1024 + 1;
        let lowbit_window = WeighWindow::new(lowbit_value_max - 1, lowbit_value_max as u16);
        let highbit_window = WeighWindow::new(
            highbit_value_max - 1,
            param.highbit_count as u16 + 1,
        );
        let midbit_windows = new_windows(
            highbit_value_max as usize,
            midbit_value_max - 1,
            midbit_value_max as u16,
        );
        let decoded_windows = new_windows(
            4,
            param.decoded_value_max - 1,
            param.decoded_count as u16,
        );
        let mut size_windows: Vec<WeighWindow> = Vec::new();
        let mut i: usize = 0;
        while i < 65
            invariant
                i <= 65,
                size_windows@.len() == i,
                all_wf(size_windows@),
                p == param@,
                p.valid(),
                forall|j: int|
                    0 <= j < i ==> (#[trigger] size_windows@[j])@ == initial_dictionary(p).sizes[j],
            decreases 65 - i,
        {
            let group: usize = if i < 64 {
                i / 16
            } else {
                3
            };
            size_windows.push(WeighWindow::new(64, param.sizes_count[group] as u16));
            i = i + 1;
        }
        let r = Dictionary {
            decoded_size: 0,
            backref_size: 0,
            decoded_value_max: param.decoded_value_max,
            backref_value_max,
            lowbit_value_max,
            lowbit_window,
            highbit_window,
            midbit_windows,
            decoded_windows,
            size_windows,
            param: Ghost(p),
        };
        proof {
            law_initial_dictionary_valid(p);
            assert(r@.mids =~= initial_dictionary(p).mids);
            assert(r@.literals =~= initial_dictionary(p).literals);
            assert(r@.sizes =~= initial_dictionary(p).sizes);
        }
        r
    }

    /// Decompresses one block at `write_pos` and returns the number of bytes written. What does not
    /// fit into `output` is dropped: from its end on nothing is written.
    pub fn decompress_block(
        &mut self,
        decoder: &mut Decoder,
        output: &mut [u8],
        write_pos: usize,
    ) -> (r: u32)
        requires
            old(self).wf(),
            old(decoder).wf(),
        ensures
            final(self).wf(),
            final(decoder).wf(),
            final(decoder).stream == old(decoder).stream,
            final(output)@.len() == old(output)@.len(),
            ({
                let start = if write_pos < old(output)@.len() {
                    write_pos as int
                } else {
                    old(output)@.len() as int
                };
                let b = old(self)@.block(
                    old(decoder)@,
                    old(output)@.take(start),
                    old(decoder).stream@,
                    old(output)@.len(),
                );
                &&& final(self)@ == b.dictionary
                &&& final(decoder)@ == b.coder
                &&& r == b.out.len() - start
                &&& r <= old(output)@.len() - start
                &&& final(output)@ == b.out + old(output)@.skip(start + r)
            }),
            final(self)@.decoded == u32_specs::wrapping_add(old(self)@.decoded, r),
            forall|i: int|
                0 <= i < old(output)@.len() && !(write_pos <= i < write_pos + r)
                    ==> #[trigger] final(output)@[i] == old(output)@[i],
    {
        let ghost stream = decoder.stream@;
        let ghost cap = output@.len();
        let start: usize = if write_pos < output.len() {
            write_pos
        } else {
            output.len()
        };
        let ghost out = output@.take(start as int);
        let ghost all = self@.block(decoder@, out, stream, cap).out;
        proof {
            law_block_is_valid(self@, decoder@, out, stream, cap);
            assert forall|i: int| 0 <= i < start implies #[trigger] all[i] == output@[i] by {
                assert(all.take(start as int)[i] == out[i]);
            }
        }
        let size_idx: usize = self.backref_size as usize;
        let length_code: u16 = self.size_windows[size_idx].decode_value(decoder, 65);
        self.backref_size = length_code as u32;
        proof {
            assert(windows(self.size_windows@) =~= windows(old(self).size_windows@).update(
                size_idx as int,
                self.size_windows@[size_idx as int]@,
            ));
            assert((length_code as int, self@, decoder@) == old(self)@.with_length_code(
                old(decoder)@,
                stream,
            ));
        }
        let written: u32 = if length_code > 0 {
            self.write_match(decoder, output, start, match_bytes(length_code))
        } else {
            self.write_literal(decoder, output, start)
        };
        assert forall|i: int|
            0 <= i < cap && !(write_pos <= i < write_pos + written) implies #[trigger] output@[i]
            == old(output)@[i] by {
            assert(output@ == all + old(output)@.skip(start + written));
        }
        written
    }

    /// Decodes the distance of a match and copies `length` bytes to `start`, as far as there is
    /// room. Returns the number of bytes written.
    fn write_match(
        &mut self,
        decoder: &mut Decoder,
        output: &mut [u8],
        start: usize,
        length: u32,
    ) -> (r: u32)
        requires
            old(self).wf(),
            old(decoder).wf(),
            start <= old(output).len(),
        ensures
            final(self).wf(),
            final(decoder).wf(),
            final(decoder).stream == old(decoder).stream,
            final(output)@.len() == old(output)@.len(),
            ({
                let (dist, d, c) = old(self)@.with_distance(
                    old(decoder)@,
                    old(decoder).stream@,
                );
                let all = matched(
                    old(output)@.take(start as int),
                    dist,
                    length as nat,
                    old(output)@.len(),
                );
                &&& final(self)@ == d.wrote(all.len() - start)
                &&& final(decoder)@ == c
                &&& r == all.len() - start
                &&& start + r <= old(output)@.len()
                &&& final(output)@ == all + old(output)@.skip(start + r)
            }),
    {
        let ghost cap = output@.len();
        let ghost out = output@.take(start as int);
        let dist: u32 = self.decode_distance(decoder);
        let mut end: usize = start;
        if dist as usize > start {
            zero_fill(output, &mut end, length);
        } else {
            copy_match(output, &mut end, dist as usize, length);
        }
        proof {
            lemma_copied_len(out, dist as nat, length as nat, cap);
            assert(output@.take(end as int) == matched(out, dist as nat, length as nat, cap));
            assert(output@ =~= output@.take(end as int) + output@.skip(end as int));
        }
        let written: u32 = (end - start) as u32;
        self.decoded_size = self.decoded_size.wrapping_add(written);
        written
    }

    /// Decodes a literal and writes it to `start`, where there is room. Returns the number of
    /// bytes written.
    fn write_literal(&mut self, decoder: &mut Decoder, output: &mut [u8], start: usize) -> (r: u32)
        requires
            old(self).wf(),
            old(decoder).wf(),
            start <= old(output).len(),
        ensures
            final(self).wf(),
            final(decoder).wf(),
            final(decoder).stream == old(decoder).stream,
            final(output)@.len() == old(output)@.len(),
            ({
                let d = old(self)@;
                let k = d.decoded as int % 4;
                let (v, w, c) = d.literals[k].symbol(
                    old(decoder)@,
                    old(decoder).stream@,
                    d.param.literal_max,
                );
                &&& final(self)@ == (DictionaryState {
                    literals: d.literals.update(k, w),
                    ..d
                }).wrote(r as int)
                &&& final(decoder)@ == c
                &&& start < old(output)@.len() ==> r == 1 && final(output)@ == old(
                    output,
                )@.update(start as int, (v % 256) as u8)
                &&& start == old(output)@.len() ==> r == 0 && final(output)@ == old(output)@
            }),
    {
        let lit_idx: usize = (self.decoded_size % 4) as usize;
        let literal: u16 = self.decoded_windows[lit_idx].decode_value(
            decoder,
            self.decoded_value_max as u16,
        );
        assert(windows(self.decoded_windows@) =~= windows(old(self).decoded_windows@).update(
            lit_idx as int,
            self.decoded_windows@[lit_idx as int]@,
        ));
        let written: u32 = if start < output.len() {
            output[start] = (literal % 256) as u8;
            1
        } else {
            0
        };
        self.decoded_size = self.decoded_size.wrapping_add(written);
        written
    }

    /// Decodes the distance of a match.
    fn decode_distance(&mut self, decoder: &mut Decoder) -> (r: u32)
        requires
            old(self).wf(),
            old(decoder).wf(),
        ensures
            final(self).wf(),
            final(decoder).wf(),
            final(decoder).stream == old(decoder).stream,
            (r as nat, final(self)@, final(decoder)@) == old(self)@.with_distance(
                old(decoder)@,
                old(decoder).stream@,
            ),
            r >= 1,
    {
        let ghost stream = decoder.stream@;
        let backref_range: u32 = if self.backref_value_max < self.decoded_size {
            self.backref_value_max
        } else {
            self.decoded_size
        };
        let lowbit: u16 = self.lowbit_window.decode_value(decoder, self.lowbit_value_max as u16);
        let highbit: u16 = self.highbit_window.decode_value(
            decoder,
            (backref_range / 1024 + 1) as u16,
        );
        let midbit_max: u16 = if backref_range / 4 + 1 < 256 {
            (backref_range / 4 + 1) as u16
        } else {
            256
        };
        assert(highbit < self@.param.high_max());
        assert(serves(self@.mids[highbit as int], 256));
        let midbit: u16 = self.midbit_windows[highbit as usize].decode_value(decoder, midbit_max);
        assert(windows(self.midbit_windows@) =~= windows(old(self).midbit_windows@).update(
            highbit as int,
            self.midbit_windows@[highbit as int]@,
        ));
        1024 * highbit as u32 + 4 * midbit as u32 + lowbit as u32 + 1
    }
}

/// The number of bytes that a match length code stands for.
fn match_bytes(code: u16) -> (r: u32)
    requires
        code < 65,
    ensures
        r == match_length(code as int),
{
    if code < 61 {
        code as u32 + 1
    } else if code == 61 {
        128
    } else if code == 62 {
        192
    } else if code == 63 {
        256
    } else {
        512
    }
}

/// Writes up to `length` zeros at `offset`, as far as there is room.
fn zero_fill(dst: &mut [u8], offset: &mut usize, length: u32)
    requires
        *old(offset) <= old(dst).len(),
    ensures
        final(dst)@.len() == old(dst)@.len(),
        *final(offset) == *old(offset) + if length < old(dst)@.len() - *old(offset) {
            length as int
        } else {
            old(dst)@.len() - *old(offset)
        },
        final(dst)@.take(*final(offset) as int) == old(dst)@.take(*old(offset) as int) + Seq::new(
            (*final(offset) - *old(offset)) as nat,
            |i: int| 0u8,
        ),
        final(dst)@.skip(*final(offset) as int) == old(dst)@.skip(*final(offset) as int),
{
    let ghost start = *offset as int;
    let mut left: u32 = length;
    while left > 0 && *offset < dst.len()
        invariant
            dst@.len() == old(dst)@.len(),
            0 <= start <= *offset <= dst.len(),
            *offset - start == length - left,
            left <= length,
            forall|i: int| 0 <= i < start ==> dst@[i] == old(dst)@[i],
            forall|i: int| start <= i < *offset ==> dst@[i] == 0,
            forall|i: int| *offset <= i < dst@.len() ==> dst@[i] == old(dst)@[i],
        decreases left,
    {
        dst[*offset] = 0;
        *offset = *offset + 1;
        left = left - 1;
    }
    assert(dst@.take(*offset as int) =~= old(dst)@.take(start) + Seq::new(
        (*offset - start) as nat,
        |i: int| 0u8,
    ));
    assert(dst@.skip(*offset as int) =~= old(dst)@.skip(*offset as int));
}

} // verus!
