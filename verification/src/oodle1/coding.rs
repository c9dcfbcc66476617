//! What the parts of an Oodle1 stream stand for: what a coder puts in is what comes out.
use crate::lz::{law_copied_repeats, lemma_copied_len};
use crate::oodle1::coder::{
    initial_coder, law_ingested_is_ready, law_narrowed_is_valid, law_uniform_is_valid, stream_byte,
    Coder,
};
use crate::oodle1::dictionary::{
    initial_dictionary, match_length, matched, DictionaryState, ParameterModel,
};
use crate::oodle1::window::{
    halved, heaviest, in_range, initial_window, is_heaviest, lemma_heaviest, lemma_heaviest_unique,
    lemma_range_start_fits, lemma_range_unique, lemma_refreshed, purged, range_start, range_unit,
    Window,
};
use crate::sums::{lemma_entry_at_most_prefix, total};
use vstd::arithmetic::div_mod::*;
use vstd::prelude::*;

verus! {

// ---------------------------------------------------------------------------
// The coder
// ---------------------------------------------------------------------------
/// Before the first symbol the point is the number that the first four bytes make up, high byte
/// first, without its lowest bit.
pub proof fn law_first_point(stream: Seq<u8>)
    requires
        stream.len() >= 4,
    ensures
        ({
            let c = initial_coder(stream).ingested(stream);
            &&& c.numer == (0x100_0000 * stream[0] + 0x1_0000 * stream[1] + 0x100 * stream[2]
                + stream[3]) / 2
            &&& c.denom == 0x8000_0000
            &&& c.pos == 3
        }),
{
    reveal_with_fuel(Coder::ingested, 4);
}

/// An interval of more than 2^23 takes in nothing. Any other one takes in the eight bits that
/// follow the ones taken in before, which makes it 256 times as wide; bytes past the end are zero.
pub proof fn law_bytes_come_in(c: Coder, stream: Seq<u8>)
    requires
        1 <= c.denom,
        0 <= c.pos < usize::MAX,
    ensures
        c.denom > 0x80_0000 ==> c.ingested(stream) == c,
        c.denom <= 0x80_0000 ==> {
            let two = 256 * stream_byte(stream, c.pos) + stream_byte(stream, c.pos + 1);
            c.ingested(stream) == (Coder {
                numer: (256 * c.numer + (two / 2) % 256) as nat,
                denom: 256 * c.denom,
                pos: c.pos + 1,
            }).ingested(stream)
        },
{
}

proof fn lemma_symbol(unit: int, max: int, denom: int, s: int, x: int)
    requires
        1 <= unit,
        0 <= s < max,
        0 <= x,
        s < max - 1 ==> x < unit,
    ensures
        s < max - 1 ==> (s * unit + x) / unit == s,
        s == max - 1 ==> (s * unit + x) / unit >= s,
{
    if x < unit {
        lemma_fundamental_div_mod_converse(s * unit + x, unit, s, x);
    } else {
        lemma_div_is_ordered(s * unit, s * unit + x, unit);
        lemma_div_multiples_vanish(s, unit);
        assert(s * unit == unit * s) by (nonlinear_arith);
    }
}

/// A point `x` beyond the start of part `s` falls on symbol `s`, and narrowing leaves the point
/// `x` in an interval as wide as the part; the last part reaches to the end of the interval.
pub proof fn law_points_are_read_back(denom: nat, pos: int, max: nat, s: nat, x: nat)
    requires
        1 <= max <= denom,
        s < max,
        s < max - 1 ==> x < denom / max,
    ensures
        ({
            let unit = denom / max;
            let c = Coder { numer: s * unit + x, denom, pos };
            let n = c.narrowed(max, s, 1);
            &&& c.symbol(max) == s
            &&& n.numer == x
            &&& n.pos == pos
            &&& s < max - 1 ==> n.denom == unit
            &&& s == max - 1 && s * unit <= denom ==> n.denom + s * unit == denom
        }),
{
    let unit = denom / max;
    assert(unit >= 1) by {
        lemma_div_is_ordered(max as int, denom as int, max as int);
        lemma_div_by_self(max as int);
    }
    lemma_symbol(unit as int, max as int, denom as int, s as int, x as int);
    assert(unit * s == s * unit) by (nonlinear_arith);
    assert(unit * 1 == unit) by (nonlinear_arith);
}

/// Narrowing to the parts from `val` up to `val + err` takes away what lies below them and what
/// lies above them.
pub proof fn law_narrowing(c: Coder, max: nat, val: nat, err: nat)
    requires
        1 <= max,
        val + err <= max,
        (c.denom / max) * val <= c.numer,
        (c.denom / max) * val <= c.denom,
    ensures
        c.narrowed(max, val, err).numer + (c.denom / max) * val == c.numer,
        c.narrowed(max, val, err).pos == c.pos,
        val + err < max ==> c.narrowed(max, val, err).denom == (c.denom / max) * err,
        val + err == max ==> c.narrowed(max, val, err).denom + (c.denom / max) * val == c.denom,
{
}

/// Symbols of equal likelihood are read from an interval that is wide enough, cut into as many
/// parts as there are symbols.
pub proof fn law_equal_symbols(c: Coder, stream: Seq<u8>, max: nat, s: nat, x: nat)
    requires
        1 <= max <= 0xFFFF,
        c.valid(),
        0 <= c.pos,
        s < max,
        ({
            let wide = c.ingested(stream);
            &&& wide.numer == s * (wide.denom / max) + x
            &&& s < max - 1 ==> x < wide.denom / max
        }),
    ensures
        c.uniform(stream, max).0 == s,
        c.uniform(stream, max).1.numer == x,
        c.uniform(stream, max).1.pos == c.ingested(stream).pos,
{
    law_ingested_is_ready(c, stream);
    let wide = c.ingested(stream);
    law_points_are_read_back(wide.denom, wide.pos, max, s, x);
}

// ---------------------------------------------------------------------------
// Windows
// ---------------------------------------------------------------------------
/// A window starts with the escape alone, of weight four, which owns the whole interval. The
/// shares are first set anew at a total weight of eight. The weights are halved from thirty-two
/// times the largest value on, but not before 256 and at the latest from 15160 on.
pub proof fn law_first_windows(max_value: nat, count: nat)
    ensures
        ({
            let w = initial_window(max_value, count);
            &&& w.count_cap == count + 1
            &&& w.ranges == seq![0u16, 0x4000u16]
            &&& w.weights == seq![4u16]
            &&& w.values == seq![0u16]
            &&& w.step == 4
            &&& w.range_limit == 8
            &&& max_value <= 8 ==> w.weight_limit == 256
            &&& 8 <= max_value <= 473 ==> w.weight_limit == 32 * max_value
            &&& max_value > 473 ==> w.weight_limit == 15160
            &&& max_value <= 64 ==> w.step_cap == 128
            &&& 64 < max_value <= 3773 ==> w.step_cap == 2 * max_value
            &&& max_value > 3773 ==> w.step_cap == 7548
        }),
{
}

/// When shares are set anew, an entry gets its weight times an eighth of the unit, rounded down,
/// where the unit is 2^17 over the total weight, rounded down. The last entry gets what is left.
pub proof fn law_shares(w: Window, i: int)
    requires
        total(w.weights) >= 1,
        0 <= i < w.weights.len(),
    ensures
        ({
            let r = w.ranges_rebuilt().ranges;
            let unit = 131072int / total(w.weights);
            &&& r.len() == w.weights.len() + 1
            &&& r[0] == 0
            &&& r[w.weights.len() as int] == 16384
            &&& i < w.weights.len() - 1 ==> r[i + 1] - r[i] == (w.weights[i] * unit) / 8
            &&& w.ranges_rebuilt().weights == w.weights
            &&& w.ranges_rebuilt().values == w.values
            &&& w.ranges_rebuilt().count_cap == w.count_cap
            &&& w.ranges_rebuilt().weight_limit == w.weight_limit
            &&& w.ranges_rebuilt().step_cap == w.step_cap
        }),
{
    lemma_range_start_fits(w.weights, i);
    if i + 1 < w.weights.len() {
        lemma_range_start_fits(w.weights, i + 1);
    }
    lemma_div_pos_is_pos(131072, total(w.weights));
    let unit = range_unit(w.weights);
    assert(range_start(w.weights, unit, i + 1) == range_start(w.weights, unit, i) + (w.weights[i]
        as nat * unit) / 8);
}

/// The shares are next set anew once the total weight has grown by the step, which doubles each
/// time until it is past half of its cap; from there on, once it has grown by the cap.
pub proof fn law_next_limit(w: Window)
    requires
        total(w.weights) >= 1,
    ensures
        ({
            let n = w.ranges_rebuilt();
            &&& 2 * w.step > w.step_cap ==> n.step == w.step && n.range_limit == total(
                w.weights,
            ) + w.step_cap
            &&& 2 * w.step <= w.step_cap ==> n.step == 2 * w.step && n.range_limit == total(
                w.weights,
            ) + n.step
        }),
{
}

/// A window is left alone below its limit. At the limit its shares are set anew, and from the
/// weight limit on its weights are halved before.
pub proof fn law_refreshing(w: Window)
    ensures
        total(w.weights) < w.range_limit ==> w.refreshed() == w,
        total(w.weights) >= w.range_limit && w.range_limit < w.weight_limit ==> w.refreshed()
            == w.ranges_rebuilt(),
        total(w.weights) >= w.range_limit && w.range_limit >= w.weight_limit ==> w.refreshed()
            == w.weights_rebuilt().ranges_rebuilt(),
{
}

/// An entry without weight makes way for the last one, which is looked at next; entries with a
/// weight stay where they are.
pub proof fn law_empty_entries_make_way(weights: Seq<u16>, values: Seq<u16>, i: int, z: int)
    requires
        weights.len() == values.len(),
        1 <= i <= z <= weights.len(),
        forall|j: int| i <= j < z ==> #[trigger] weights[j] > 0,
    ensures
        z == weights.len() ==> purged(weights, values, i) == (weights, values),
        z < weights.len() && weights[z] == 0 ==> purged(weights, values, i) == purged(
            weights.update(z, weights[weights.len() - 1]).take(weights.len() - 1),
            values.update(z, values[weights.len() - 1]).take(weights.len() - 1),
            z,
        ),
    decreases z - i,
{
    if i < z {
        law_empty_entries_make_way(weights, values, i + 1, z);
    } else if z < weights.len() && weights[z] == 0 {
        let n = weights.len() - 1;
        assert(weights.update(z, weights.last()).drop_last() =~= weights.update(
            z,
            weights[n],
        ).take(n));
        assert(values.update(z, values.last()).drop_last() =~= values.update(z, values[n]).take(
            n,
        ));
    }
}

/// Halving the weights: each is halved, rounding down, what has no weight left makes way, and the
/// first of the heaviest entries changes places with the last one. The escape stays in front; it
/// keeps a weight of one while there are symbols to learn.
pub proof fn law_halving(w: Window, half: Seq<u16>, k: int)
    requires
        w.weights.len() == w.values.len(),
        w.weights.len() >= 1,
        half.len() == w.weights.len(),
        forall|i: int| 0 <= i < half.len() ==> (#[trigger] half[i]) == w.weights[i] / 2,
        ({
            let (a, b) = purged(half, w.values, 1);
            &&& a.len() == b.len()
            &&& a.len() >= 1
            &&& a.len() > 1 ==> {
                &&& 1 <= k < a.len()
                &&& forall|j: int| 1 <= j < a.len() ==> #[trigger] a[j] <= a[k]
                &&& forall|j: int| 1 <= j < k ==> #[trigger] a[j] < a[k]
            }
        }),
    ensures
        ({
            let (a, b) = purged(half, w.values, 1);
            let n = w.weights_rebuilt();
            let last = a.len() - 1;
            let place = |j: int|
                if j == k {
                    last
                } else if j == last {
                    k
                } else {
                    j
                };
            &&& n.weights.len() == a.len()
            &&& n.values.len() == a.len()
            &&& a.len() > 1 ==> forall|j: int|
                1 <= j < a.len() ==> (#[trigger] n.weights[j]) == a[place(j)]
            &&& a.len() > 1 ==> forall|j: int|
                1 <= j < a.len() ==> (#[trigger] n.values[j]) == b[place(j)]
            &&& n.values[0] == b[0]
            &&& n.weights[0] == if a[0] == 0 && a.len() < w.count_cap {
                1
            } else {
                a[0]
            }
            &&& n.ranges == w.ranges
            &&& n.range_limit == w.range_limit
            &&& n.step == w.step
        }),
{
    assert(halved(w.weights) =~= half);
    let (a, b) = purged(half, w.values, 1);
    if a.len() > 1 {
        lemma_heaviest(a, 1);
        assert(is_heaviest(a, 1, k));
        lemma_heaviest_unique(a, 1, k, heaviest(a, 1));
    }
}

/// A point in the share of an active entry stands for the symbol of that entry, which gets heavier
/// by one; the interval narrows to the share.
pub proof fn law_active_symbols(w: Window, c: Coder, stream: Seq<u8>, max: nat, i: int)
    requires
        w.valid(),
        c.valid(),
        0 <= c.pos,
        0 < i,
        in_range(w.refreshed().ranges, c.ingested(stream).symbol(0x4000) as int, i),
    ensures
        ({
            let r = w.refreshed();
            let (v, n, c1) = w.symbol(c, stream, max);
            &&& v == r.values[i]
            &&& n.values == r.values
            &&& n.weights.len() == r.weights.len()
            &&& n.weights[i] == r.weights[i] + 1
            &&& forall|j: int|
                0 <= j < r.weights.len() && j != i ==> (#[trigger] n.weights[j]) == r.weights[j]
            &&& n.ranges == r.ranges
            &&& n.range_limit == r.range_limit
            &&& c1 == c.ingested(stream).narrowed(
                0x4000,
                r.ranges[i] as nat,
                (r.ranges[i + 1] - r.ranges[i]) as nat,
            )
        }),
{
    let r = w.refreshed();
    lemma_refreshed(w);
    lemma_range_unique(r.ranges, c.ingested(stream).symbol(0x4000) as int, i);
    lemma_entry_at_most_prefix(r.weights, i, r.weights.len() as int);
}

/// What lies behind the escape: where there are entries without a share, a bit tells whether one
/// of them is meant, each as likely as the other; it gets heavier by two. Otherwise the symbol is
/// a fresh one, any value as likely as the other; it becomes the last entry, of weight two. The
/// escape gets heavier by one, and loses all weight once every symbol is known.
pub proof fn law_symbols_behind_the_escape(w: Window, c: Coder, stream: Seq<u8>, max: nat)
    requires
        w.valid(),
        c.valid(),
        0 <= c.pos,
        1 <= max <= 0xFFFF,
        in_range(w.refreshed().ranges, c.ingested(stream).symbol(0x4000) as int, 0),
    ensures
        ({
            let r = w.refreshed();
            let c1 = c.ingested(stream).narrowed(0x4000, 0, r.ranges[1] as nat);
            let active = r.ranges.len() - 1;
            let waiting = (r.weights.len() - active) as nat;
            let (bit, c2) = c1.uniform(stream, 2);
            let (k, c3) = c2.uniform(stream, waiting);
            let (v, n, after) = w.symbol(c, stream, max);
            &&& n.ranges == r.ranges
            &&& n.range_limit == r.range_limit
            &&& waiting > 0 && bit == 1 ==> {
                &&& k < waiting ==> v == r.values[active + k]
                &&& after == c3
                &&& n.values == r.values
                &&& active > 0 && k < waiting ==> n.weights[active + k] == r.weights[active + k]
                    + 2 && n.weights[0] == r.weights[0] + 1
                &&& n.weights.len() == r.weights.len()
            }
            &&& !(waiting > 0 && bit == 1) ==> {
                let c4 = if waiting > 0 {
                    c2
                } else {
                    c1
                };
                let last = r.weights.len() as int;
                &&& v == c4.uniform(stream, max).0
                &&& after == c4.uniform(stream, max).1
                &&& n.values == r.values.push(v)
                &&& n.weights.len() == last + 1
                &&& last > 0 ==> n.weights[last] == 2
                &&& last > 0 ==> n.weights[0] == if last + 1 == r.count_cap {
                    0
                } else {
                    r.weights[0] + 1
                }
                &&& forall|j: int| 1 <= j < last ==> (#[trigger] n.weights[j]) == r.weights[j]
            }
        }),
{
    let r = w.refreshed();
    lemma_refreshed(w);
    law_ingested_is_ready(c, stream);
    let v = c.ingested(stream).symbol(0x4000) as int;
    lemma_range_unique(r.ranges, v, 0);
    let c1 = c.ingested(stream).narrowed(0x4000, 0, r.ranges[1] as nat);
    law_narrowed_is_valid(
        c.ingested(stream),
        0x4000,
        0,
        r.ranges[1] as nat,
    );
    let active = r.ranges.len() - 1;
    assert(r.weights.len() >= 1);
    lemma_entry_at_most_prefix(r.weights, 0, r.weights.len() as int);
    law_uniform_is_valid(c1, stream, 2);
    let (bit, c2) = c1.uniform(stream, 2);
    if r.weights.len() > active && bit == 1 {
        let waiting = (r.weights.len() - active) as nat;
        law_uniform_is_valid(c2, stream, waiting);
        let k = c2.uniform(stream, waiting).0;
        lemma_entry_at_most_prefix(
            r.weights,
            active + k,
            r.weights.len() as int,
        );
    } else {
        let c4 = if r.weights.len() > active {
            c2
        } else {
            c1
        };
        law_uniform_is_valid(c4, stream, max);
        let (n, val) = (w.symbol(c, stream, max).1, w.symbol(c, stream, max).0);
        assert(n.values =~= r.values.push(val));
    }
}

// ---------------------------------------------------------------------------
// Blocks
// ---------------------------------------------------------------------------
/// Length codes from one to sixty stand for one byte more than the code before them, the first
/// for two bytes. The last four stand for 128, 192, 256 and 512 bytes.
pub proof fn law_match_lengths(code: int)
    ensures
        match_length(1) == 2,
        2 <= code <= 60 ==> match_length(code) == match_length(code - 1) + 1,
        match_length(61) == 128,
        match_length(62) == 192,
        match_length(63) == 256,
        match_length(64) == 512,
{
}

/// The three parts of a distance: counted from zero, its low part is what lies below four, its
/// middle part what lies below 1024, in fours, its high part the number of 1024s. The window of
/// the middle part is the one of the high part. No part is read with more values than a distance
/// within the LZ window and the bytes written so far needs.
pub proof fn law_distance_parts(d: DictionaryState, c: Coder, stream: Seq<u8>)
    ensures
        ({
            let reach: nat = if d.decoded < d.param.window {
                d.decoded as nat
            } else {
                d.param.window
            };
            let lows: nat = if d.param.window >= 3 {
                4
            } else {
                d.param.window + 1
            };
            let mids: nat = if reach >= 1020 {
                256
            } else {
                reach / 4 + 1
            };
            let (low, w1, c1) = d.low.symbol(c, stream, lows);
            let (high, w2, c2) = d.high.symbol(c1, stream, reach / 1024 + 1);
            let (mid, w3, c3) = d.mids[high as int].symbol(c2, stream, mids);
            let (dist, n, after) = d.with_distance(c, stream);
            &&& dist >= 1
            &&& low < 4 && mid < 256 ==> {
                &&& (dist - 1) % 4 == low
                &&& ((dist - 1) / 4) % 256 == mid
                &&& (dist - 1) / 1024 == high
            }
            &&& after == c3
            &&& n.low == w1
            &&& n.high == w2
            &&& n.mids == d.mids.update(high as int, w3)
            &&& n.literals == d.literals
            &&& n.sizes == d.sizes
            &&& n.decoded == d.decoded
            &&& n.length_code == d.length_code
            &&& n.param == d.param
        }),
{
}

/// A length code is read with the window that the length code before it selects, out of 65
/// values.
pub proof fn law_length_codes(d: DictionaryState, c: Coder, stream: Seq<u8>)
    ensures
        ({
            let (v, w, c1) = d.sizes[d.length_code as int].symbol(c, stream, 65);
            let (code, n, after) = d.with_length_code(c, stream);
            &&& code == v
            &&& after == c1
            &&& n.length_code == v
            &&& n.sizes == d.sizes.update(d.length_code as int, w)
            &&& n.literals == d.literals
            &&& n.low == d.low
            &&& n.high == d.high
            &&& n.mids == d.mids
            &&& n.decoded == d.decoded
            &&& n.param == d.param
        }),
{
}

/// A block with length code zero is a literal: one byte, read with the window of its place,
/// counted round at four.
pub proof fn law_literal_blocks(d: DictionaryState, c: Coder, out: Seq<u8>, stream: Seq<u8>, cap: nat)
    requires
        out.len() < cap,
        d.with_length_code(c, stream).0 == 0,
        d.decoded < u32::MAX,
    ensures
        ({
            let c1 = d.with_length_code(c, stream).2;
            let place = d.decoded as int % 4;
            let (v, w, c2) = d.literals[place].symbol(c1, stream, d.param.literal_max);
            let b = d.block(c, out, stream, cap);
            &&& v < 256 ==> b.out == out.push(v as u8)
            &&& b.out.len() == out.len() + 1
            &&& b.coder == c2
            &&& b.dictionary.literals == d.literals.update(place, w)
            &&& b.dictionary.decoded == d.decoded + 1
            &&& b.dictionary.length_code == 0
            &&& b.dictionary.mids == d.mids
        }),
{
}

/// Any other block is a match: the output grows by the match length, or up to the end, and each
/// byte added repeats the one at the distance before it. Where the distance reaches back before
/// the start of the output, zeros are added.
pub proof fn law_match_blocks(d: DictionaryState, c: Coder, out: Seq<u8>, stream: Seq<u8>, cap: nat)
    requires
        out.len() <= cap,
        d.with_length_code(c, stream).0 > 0,
        d.decoded as int + cap - out.len() <= u32::MAX,
    ensures
        ({
            let (code, d1, c1) = d.with_length_code(c, stream);
            let (dist, d2, c2) = d1.with_distance(c1, stream);
            let n = match_length(code);
            let b = d.block(c, out, stream, cap);
            &&& b.coder == c2
            &&& b.out.len() == if out.len() + n < cap {
                out.len() + n
            } else {
                cap
            }
            &&& b.out.take(out.len() as int) == out
            &&& dist <= out.len() ==> forall|i: int|
                out.len() <= i < b.out.len() ==> (#[trigger] b.out[i]) == b.out[i - dist]
            &&& dist > out.len() ==> forall|i: int|
                out.len() <= i < b.out.len() ==> (#[trigger] b.out[i]) == 0
            &&& b.dictionary.decoded == d.decoded + b.out.len() - out.len()
            &&& b.dictionary.length_code == code
            &&& b.dictionary.literals == d.literals
            &&& b.dictionary.mids == d2.mids
        }),
{
    let (code, d1, c1) = d.with_length_code(c, stream);
    let (dist, d2, c2) = d1.with_distance(c1, stream);
    let n = match_length(code);
    law_distance_parts(d1, c1, stream);
    let all = matched(out, dist, n, cap);
    if dist <= out.len() {
        lemma_copied_len(out, dist, n, cap);
        law_copied_repeats(out, dist, n, cap);
    } else {
        assert(all.take(out.len() as int) =~= out);
    }
}

/// What a sub-stream starts with: windows that know no symbol, as many as the parameters ask for.
pub proof fn law_first_dictionary(p: ParameterModel)
    requires
        p.valid(),
        p.literal_max >= 1,
    ensures
        ({
            let d = initial_dictionary(p);
            let lows: nat = if p.window >= 3 {
                4
            } else {
                p.window + 1
            };
            let mids: nat = if p.window >= 1020 {
                256
            } else {
                p.window / 4 + 1
            };
            &&& d.decoded == 0
            &&& d.length_code == 0
            &&& d.param == p
            &&& d.low == initial_window((lows - 1) as nat, lows)
            &&& d.high == initial_window(p.window / 1024, p.high_count + 1)
            &&& d.mids.len() == p.window / 1024 + 1
            &&& forall|i: int|
                0 <= i < d.mids.len() ==> (#[trigger] d.mids[i]) == initial_window(
                    (mids - 1) as nat,
                    mids,
                )
            &&& d.literals.len() == 4
            &&& forall|i: int|
                0 <= i < 4 ==> (#[trigger] d.literals[i]) == initial_window(
                    (p.literal_max - 1) as nat,
                    p.literal_count,
                )
            &&& d.sizes.len() == 65
            &&& forall|i: int|
                0 <= i < 16 ==> (#[trigger] d.sizes[i]) == initial_window(64, p.sizes[0] as nat)
            &&& forall|i: int|
                16 <= i < 32 ==> (#[trigger] d.sizes[i]) == initial_window(64, p.sizes[1] as nat)
            &&& forall|i: int|
                32 <= i < 48 ==> (#[trigger] d.sizes[i]) == initial_window(64, p.sizes[2] as nat)
            &&& forall|i: int|
                48 <= i < 65 ==> (#[trigger] d.sizes[i]) == initial_window(64, p.sizes[3] as nat)
        }),
{
}

} // verus!
