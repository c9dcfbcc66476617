//! Adaptive symbol windows: symbols learned so far, weighted by how often they came up.
//!
//! A window knows three kinds of symbols: active ones, which have a share of the arithmetic
//! coder's interval; probationary ones, learned since the shares were last set; and those not
//! seen yet. The first entry of a window is the escape that leads to the latter two.
use crate::oodle1::coder::{
    law_ingested_is_ready, law_narrowed_is_valid, law_uniform_is_valid, Coder, Decoder,
};
use crate::sums::{
    lemma_entry_at_most_prefix, lemma_length_at_most_total, lemma_prefix_nonnegative,
    lemma_prefix_same, lemma_total_push, lemma_total_update, prefix_sum, total,
};
use vstd::prelude::*;

verus! {

/// The width of the whole interval that the shares divide up.
pub const FIXED_ONE: u16 = 0x4000;

/// What a [`WeighWindow`] stands for.
pub struct Window {
    /// The number of entries, the escape included, once every symbol is known.
    pub count_cap: nat,
    /// Where the share of each active entry starts, and the end of the last one.
    pub ranges: Seq<u16>,
    pub values: Seq<u16>,
    pub weights: Seq<u16>,
    /// How far the total weight may grow before the shares are set anew.
    pub step: nat,
    pub step_cap: nat,
    /// The total weight at which the shares are set anew.
    pub range_limit: nat,
    /// From this limit on the weights are halved first.
    pub weight_limit: nat,
}

/// A decoded symbol: the window and the coder after it. A fresh symbol is the last entry of the
/// window and has no value yet.
pub struct Decoded {
    pub window: Window,
    pub coder: Coder,
    pub fresh: bool,
    pub value: u16,
}

pub open spec fn halved(s: Seq<u16>) -> Seq<u16> {
    Seq::new(s.len(), |i: int| (s[i] / 2) as u16)
}

/// `s` without entry `i`, whose place the last entry takes.
pub open spec fn swap_removed(s: Seq<u16>, i: int) -> Seq<u16> {
    s.update(i, s.last()).drop_last()
}

/// `s` with entries `i` and `j` exchanged.
pub open spec fn swapped(s: Seq<u16>, i: int, j: int) -> Seq<u16> {
    s.update(i, s[j]).update(j, s[i])
}

/// From entry `i` on, entries of weight zero make way for the last one.
pub open spec fn purged(weights: Seq<u16>, values: Seq<u16>, i: int) -> (Seq<u16>, Seq<u16>)
    decreases weights.len() - i,
{
    if i < 0 || i >= weights.len() {
        (weights, values)
    } else if weights[i] == 0 {
        purged(swap_removed(weights, i), swap_removed(values, i), i)
    } else {
        purged(weights, values, i + 1)
    }
}

/// Entry `k` is the first of the heaviest ones from `from` on.
pub open spec fn is_heaviest(weights: Seq<u16>, from: int, k: int) -> bool {
    &&& from <= k < weights.len()
    &&& forall|j: int| from <= j < weights.len() ==> #[trigger] weights[j] <= weights[k]
    &&& forall|j: int| from <= j < k ==> #[trigger] weights[j] < weights[k]
}

/// The first of the heaviest entries from `from` on; `from` where there is none.
pub open spec fn heaviest(weights: Seq<u16>, from: int) -> int {
    if from < weights.len() {
        choose|k: int| is_heaviest(weights, from, k)
    } else {
        from
    }
}

/// An eighth of this is the share of one unit of weight.
pub open spec fn range_unit(weights: Seq<u16>) -> nat {
    (0x2_0000int / total(weights)) as nat
}

/// The sum of the shares of the first `n` entries, an entry of weight `w` getting `w * unit / 8`.
pub open spec fn range_start(weights: Seq<u16>, unit: nat, n: int) -> nat
    decreases n,
{
    if n <= 0 {
        0
    } else {
        range_start(weights, unit, n - 1) + (weights[n - 1] as nat * unit) / 8
    }
}

/// Share `i` holds `value`.
pub open spec fn in_range(ranges: Seq<u16>, value: int, i: int) -> bool {
    0 <= i < ranges.len() - 1 && ranges[i] <= value < ranges[i + 1]
}

/// The share that holds `value`.
pub open spec fn range_of(ranges: Seq<u16>, value: int) -> int {
    choose|i: int| in_range(ranges, value, i)
}

/// Shares run from zero to [`FIXED_ONE`] without going back.
pub open spec fn ranges_valid(ranges: Seq<u16>) -> bool {
    &&& ranges.len() >= 2
    &&& ranges[0] == 0
    &&& ranges[ranges.len() - 1] == FIXED_ONE
    &&& forall|i: int, j: int| 0 <= i <= j < ranges.len() ==> ranges[i] <= ranges[j]
}

/// Some entry keeps a weight when all are halved.
pub open spec fn outlasts_halving(weights: Seq<u16>) -> bool {
    exists|i: int| 0 <= i < weights.len() && #[trigger] weights[i] >= 2
}

impl Window {
    /// Weights and values belong together, every entry but the escape has a weight, and the
    /// limits leave room.
    pub open spec fn valid(self) -> bool {
        &&& self.weights.len() == self.values.len()
        &&& ranges_valid(self.ranges)
        &&& self.ranges.len() <= self.weights.len() + 1
        &&& forall|i: int| 1 <= i < self.weights.len() ==> #[trigger] self.weights[i] >= 1
        &&& outlasts_halving(self.weights)
        &&& self.limits_valid()
        &&& total(self.weights) <= self.range_limit + 2
    }

    pub open spec fn limits_valid(self) -> bool {
        &&& 1 <= self.step <= self.step_cap
        &&& 128 <= self.step_cap <= 7548
        &&& 256 <= self.weight_limit <= 15160
        &&& self.range_limit <= 22709
        &&& self.count_cap >= 1
    }

    /// Every symbol of the window is below `bound`.
    pub open spec fn values_below(self, bound: int) -> bool {
        forall|i: int| 0 <= i < self.values.len() ==> #[trigger] self.values[i] < bound
    }

    /// The weights halved, what drops to zero removed, the heaviest entry last. The escape stays
    /// alive while there is something left to learn.
    pub open spec fn weights_rebuilt(self) -> Window {
        let (weights, values) = purged(halved(self.weights), self.values, 1);
        let last = weights.len() - 1;
        let best = heaviest(weights, 1);
        let (weights, values) = if best < weights.len() {
            (swapped(weights, best, last), swapped(values, best, last))
        } else {
            (weights, values)
        };
        let weights = if weights.len() < self.count_cap && weights[0] == 0 {
            weights.update(0, 1)
        } else {
            weights
        };
        Window { weights, values, ..self }
    }

    /// The shares set in proportion to the weights, and the next limit.
    pub open spec fn ranges_rebuilt(self) -> Window {
        let unit = range_unit(self.weights);
        let (step, margin) = if self.step > self.step_cap / 2 {
            (self.step, self.step_cap)
        } else {
            (2 * self.step, 2 * self.step)
        };
        Window {
            ranges: Seq::new(
                self.weights.len() + 1,
                |i: int|
                    if i < self.weights.len() {
                        range_start(self.weights, unit, i) as u16
                    } else {
                        FIXED_ONE
                    },
            ),
            step,
            range_limit: (total(self.weights) + margin) as nat,
            ..self
        }
    }

    /// The window as it is when the next symbol is decoded.
    pub open spec fn refreshed(self) -> Window {
        if total(self.weights) < self.range_limit {
            self
        } else if self.range_limit < self.weight_limit {
            self.ranges_rebuilt()
        } else {
            self.weights_rebuilt().ranges_rebuilt()
        }
    }

    /// Entry `i` made heavier by `by`.
    pub open spec fn bumped(self, i: int, by: int) -> Window {
        Window { weights: self.weights.update(i, (self.weights[i] + by) as u16), ..self }
    }

    /// The window with a new entry. The escape goes once everything is learned.
    pub open spec fn extended(self) -> Window {
        let weights = self.weights.push(2);
        Window {
            values: self.values.push(0),
            weights: if weights.len() == self.count_cap {
                weights.update(0, 0)
            } else {
                weights
            },
            ..self
        }
    }

    /// Decodes one symbol: an active one by its share; behind the escape, a probationary one
    /// where a bit says so, or else a fresh one.
    pub open spec fn decoded(self, coder: Coder, stream: Seq<u8>) -> Decoded {
        let w = self.refreshed();
        let c = coder.ingested(stream);
        let i = range_of(w.ranges, c.symbol(FIXED_ONE as nat) as int);
        let start = w.ranges[i];
        let c1 = c.narrowed(FIXED_ONE as nat, start as nat, (w.ranges[i + 1] - start) as nat);
        let w1 = w.bumped(i, 1);
        if i > 0 {
            Decoded { window: w1, coder: c1, fresh: false, value: w1.values[i] }
        } else if w1.weights.len() >= w1.ranges.len() {
            let (bit, c2) = c1.uniform(stream, 2);
            if bit == 1 {
                let active = w1.ranges.len() - 1;
                let (k, c3) = c2.uniform(stream, (w1.weights.len() - active) as nat);
                Decoded {
                    window: w1.bumped(active + k, 2),
                    coder: c3,
                    fresh: false,
                    value: w1.values[active + k],
                }
            } else {
                Decoded { window: w1.extended(), coder: c2, fresh: true, value: 0 }
            }
        } else {
            Decoded { window: w1.extended(), coder: c1, fresh: true, value: 0 }
        }
    }

    /// Decodes one symbol below `max`; a fresh one is read as one of `max` equally likely values.
    pub open spec fn symbol(self, coder: Coder, stream: Seq<u8>, max: nat) -> (u16, Window, Coder) {
        let d = self.decoded(coder, stream);
        if d.fresh {
            let (v, c) = d.coder.uniform(stream, max);
            let last = d.window.values.len() - 1;
            (
                v as u16,
                Window { values: d.window.values.update(last, v as u16), ..d.window },
                c,
            )
        } else {
            (d.value, d.window, d.coder)
        }
    }
}

/// The window before the first symbol, for symbols up to `max_value`.
pub open spec fn initial_window(max_value: nat, count_cap: nat) -> Window {
    let weight_limit = if 32 * max_value < 256 {
        256
    } else if 32 * max_value < 15160 {
        32 * max_value
    } else {
        15160
    };
    Window {
        count_cap: count_cap + 1,
        ranges: seq![0u16, FIXED_ONE],
        values: seq![0u16],
        weights: seq![4u16],
        step: 4,
        step_cap: if max_value <= 64 {
            128
        } else if 2 * max_value < weight_limit / 2 - 32 {
            2 * max_value
        } else {
            (weight_limit / 2 - 32) as nat
        },
        range_limit: 8,
        weight_limit,
    }
}

// ---------------------------------------------------------------------------
// Properties
// ---------------------------------------------------------------------------

/// A window starts out valid.
pub proof fn law_initial_window_valid(max_value: nat, count_cap: nat)
    ensures
        initial_window(max_value, count_cap).valid(),
        initial_window(max_value, count_cap).values_below(1),
{
    let w = initial_window(max_value, count_cap);
    assert(total(w.weights) == 4) by {
        reveal_with_fuel(prefix_sum, 2);
    }
    assert(w.weights[0] >= 2);
}

proof fn lemma_halved(s: Seq<u16>, n: int)
    requires
        0 <= n <= s.len(),
    ensures
        2 * prefix_sum(halved(s), n) <= prefix_sum(s, n),
        prefix_sum(halved(s), n) >= 0,
    decreases n,
{
    if n > 0 {
        lemma_halved(s, n - 1);
    }
}

proof fn lemma_swap_removed(s: Seq<u16>, i: int)
    requires
        0 <= i < s.len(),
        s[i] == 0,
    ensures
        total(swap_removed(s, i)) == total(s),
{
    let moved = s.update(i, s.last());
    lemma_total_update(s, i, s.last());
    lemma_prefix_same(moved.drop_last(), moved, s.len() - 1);
}

/// Removing the entries of weight zero loses no weight and leaves the first entry alone.
proof fn lemma_purged(weights: Seq<u16>, values: Seq<u16>, i: int)
    requires
        weights.len() == values.len(),
        1 <= i <= weights.len(),
        forall|j: int| 1 <= j < i ==> #[trigger] weights[j] >= 1,
    ensures
        ({
            let (w, v) = purged(weights, values, i);
            &&& w.len() == v.len()
            &&& i <= w.len() <= weights.len()
            &&& w[0] == weights[0]
            &&& total(w) == total(weights)
            &&& forall|j: int| 1 <= j < w.len() ==> #[trigger] w[j] >= 1
        }),
    decreases weights.len() - i,
{
    if i < weights.len() {
        if weights[i] == 0 {
            lemma_swap_removed(weights, i);
            lemma_purged(swap_removed(weights, i), swap_removed(values, i), i);
        } else {
            lemma_purged(weights, values, i + 1);
        }
    }
}

proof fn lemma_purged_values(weights: Seq<u16>, values: Seq<u16>, i: int, bound: int)
    requires
        weights.len() == values.len(),
        0 <= i,
        forall|j: int| 0 <= j < values.len() ==> #[trigger] values[j] < bound,
    ensures
        forall|j: int|
            0 <= j < purged(weights, values, i).1.len() ==> #[trigger] purged(
                weights,
                values,
                i,
            ).1[j] < bound,
    decreases weights.len() - i,
{
    if i < weights.len() {
        if weights[i] == 0 {
            let next = swap_removed(values, i);
            assert forall|j: int| 0 <= j < next.len() implies #[trigger] next[j] < bound by {
                assert(values[j] < bound);
                assert(values.last() < bound);
            }
            lemma_purged_values(swap_removed(weights, i), next, i, bound);
            assert(purged(weights, values, i) == purged(swap_removed(weights, i), next, i));
        } else {
            lemma_purged_values(weights, values, i + 1, bound);
            assert(purged(weights, values, i) == purged(weights, values, i + 1));
        }
    } else {
        assert(purged(weights, values, i).1 == values);
    }
}

/// There is a heaviest entry from `from` on, and the first of them is determined.
pub proof fn lemma_heaviest(weights: Seq<u16>, from: int)
    requires
        0 <= from < weights.len(),
    ensures
        is_heaviest(weights, from, heaviest(weights, from)),
    decreases weights.len(),
{
    let rest = weights.drop_last();
    let last = weights.len() - 1;
    if from == last {
        assert(is_heaviest(weights, from, from));
    } else {
        lemma_heaviest(rest, from);
        let k = heaviest(rest, from);
        assert forall|j: int| from <= j < last implies #[trigger] weights[j] == rest[j] by {}
        if weights[last] > weights[k] {
            assert forall|j: int| from <= j < last implies #[trigger] weights[j]
                < weights[last] by {
                assert(rest[j] <= rest[k]);
            }
            assert(is_heaviest(weights, from, last));
        } else {
            assert forall|j: int| from <= j < weights.len() implies #[trigger] weights[j]
                <= weights[k] by {
                if j < last {
                    assert(rest[j] <= rest[k]);
                }
            }
            assert forall|j: int| from <= j < k implies #[trigger] weights[j] < weights[k] by {
                assert(rest[j] < rest[k]);
            }
            assert(is_heaviest(weights, from, k));
        }
    }
}

pub proof fn lemma_heaviest_unique(weights: Seq<u16>, from: int, a: int, b: int)
    requires
        is_heaviest(weights, from, a),
        is_heaviest(weights, from, b),
    ensures
        a == b,
{
    if a < b {
        assert(weights[a] < weights[b]);
    } else if b < a {
        assert(weights[b] < weights[a]);
    }
}

proof fn lemma_swapped(s: Seq<u16>, i: int, j: int)
    requires
        0 <= i < s.len(),
        0 <= j < s.len(),
    ensures
        total(swapped(s, i, j)) == total(s),
{
    lemma_total_update(s, i, s[j]);
    lemma_total_update(s.update(i, s[j]), j, s[i]);
}

/// Halving leaves every entry but the escape with a weight, and the total between one and about
/// half of what it was.
pub proof fn law_weights_rebuilt(w: Window)
    requires
        w.weights.len() == w.values.len(),
        w.count_cap >= 1,
        outlasts_halving(w.weights),
    ensures
        w.weights_rebuilt().weights.len() == w.weights_rebuilt().values.len(),
        1 <= w.weights_rebuilt().weights.len() <= w.weights.len(),
        forall|i: int|
            1 <= i < w.weights_rebuilt().weights.len() ==> #[trigger] w.weights_rebuilt().weights[i]
                >= 1,
        1 <= total(w.weights_rebuilt().weights) <= total(w.weights) / 2 + 1,
{
    let half = halved(w.weights);
    lemma_halved(w.weights, w.weights.len() as int);
    let k = choose|i: int| 0 <= i < w.weights.len() && #[trigger] w.weights[i] >= 2;
    assert(half[k] >= 1);
    lemma_entry_at_most_prefix(half, k, half.len() as int);
    lemma_purged(half, w.values, 1);
    let (a, b) = purged(half, w.values, 1);
    let last = a.len() - 1;
    let best = heaviest(a, 1);
    let (a2, b2) = if best < a.len() {
        (swapped(a, best, last), swapped(b, best, last))
    } else {
        (a, b)
    };
    if best < a.len() {
        lemma_heaviest(a, 1);
        lemma_swapped(a, best, last);
        assert forall|j: int| 1 <= j < a2.len() implies #[trigger] a2[j] >= 1 by {
            assert(a[j] >= 1 && a[best] >= 1 && a[last] >= 1);
        }
    }
    if a2.len() < w.count_cap && a2[0] == 0 {
        lemma_total_update(a2, 0, 1);
    }
}

proof fn lemma_range_start(weights: Seq<u16>, unit: nat, n: int)
    requires
        0 <= n <= weights.len(),
    ensures
        8 * range_start(weights, unit, n) <= prefix_sum(weights, n) * unit,
    decreases n,
{
    if n > 0 {
        lemma_range_start(weights, unit, n - 1);
        assert(prefix_sum(weights, n) * unit == prefix_sum(weights, n - 1) * unit + weights[n - 1]
            * unit) by (nonlinear_arith)
            requires
                prefix_sum(weights, n) == prefix_sum(weights, n - 1) + weights[n - 1],
        ;
    } else {
        assert(prefix_sum(weights, 0) * unit == 0) by (nonlinear_arith)
            requires
                prefix_sum(weights, 0) == 0,
        ;
    }
}

proof fn lemma_range_start_rises(weights: Seq<u16>, unit: nat, m: int, n: int)
    requires
        m <= n,
    ensures
        range_start(weights, unit, m) <= range_start(weights, unit, n),
    decreases n - m,
{
    if m < n {
        lemma_range_start_rises(weights, unit, m, n - 1);
    }
}

proof fn lemma_prefix_rises(weights: Seq<u16>, m: int, n: int)
    requires
        m <= n,
    ensures
        prefix_sum(weights, m) <= prefix_sum(weights, n),
    decreases n - m,
{
    if m < n {
        lemma_prefix_rises(weights, m, n - 1);
    }
}

/// No share starts beyond the end of the interval.
pub proof fn lemma_range_start_fits(weights: Seq<u16>, n: int)
    requires
        0 <= n <= weights.len(),
        total(weights) >= 1,
    ensures
        range_start(weights, range_unit(weights), n) <= FIXED_ONE,
{
    let t = total(weights);
    let unit = range_unit(weights);
    lemma_range_start(weights, unit, n);
    lemma_prefix_rises(weights, n, weights.len() as int);
    lemma_prefix_nonnegative(weights, n);
    vstd::arithmetic::div_mod::lemma_fundamental_div_mod(0x2_0000, t);
    vstd::arithmetic::div_mod::lemma_mod_bound(0x2_0000, t);
    assert(prefix_sum(weights, n) * unit <= t * unit) by (nonlinear_arith)
        requires
            prefix_sum(weights, n) <= t,
            unit >= 0,
    ;
}

/// Setting the shares anew yields shares that run from zero to the whole, one for each entry.
pub proof fn law_ranges_rebuilt(w: Window)
    requires
        total(w.weights) >= 1,
        w.weights.len() >= 1,
    ensures
        ranges_valid(w.ranges_rebuilt().ranges),
        w.ranges_rebuilt().ranges.len() == w.weights.len() + 1,
{
    let unit = range_unit(w.weights);
    let r = w.ranges_rebuilt().ranges;
    assert forall|i: int, j: int| 0 <= i <= j < r.len() implies r[i] <= r[j] by {
        if i < w.weights.len() {
            lemma_range_start_fits(w.weights, i);
        }
        if j < w.weights.len() {
            lemma_range_start_fits(w.weights, j);
            lemma_range_start_rises(w.weights, unit, i, j);
        }
    }
}

/// The share that holds a value is the only one that does.
pub proof fn lemma_range_unique(ranges: Seq<u16>, value: int, a: int)
    requires
        ranges_valid(ranges),
        in_range(ranges, value, a),
    ensures
        a == range_of(ranges, value),
{
    let b = range_of(ranges, value);
    assert(in_range(ranges, value, b));
    if a < b {
        assert(ranges[a + 1] <= ranges[b]);
    } else if b < a {
        assert(ranges[b + 1] <= ranges[a]);
    }
}

proof fn lemma_range_exists(ranges: Seq<u16>, value: int, top: int)
    requires
        ranges_valid(ranges),
        1 <= top < ranges.len(),
        0 <= value < ranges[top],
    ensures
        in_range(ranges, value, range_of(ranges, value)),
    decreases top,
{
    if ranges[top - 1] <= value {
        assert(in_range(ranges, value, top - 1));
    } else {
        lemma_range_exists(ranges, value, top - 1);
    }
}

/// Bringing a window up to date keeps it valid but for the weight that outlasts a halving, and
/// leaves room for the next symbol.
pub proof fn lemma_refreshed(w: Window)
    requires
        w.valid(),
    ensures
        w.refreshed().weights.len() == w.refreshed().values.len(),
        ranges_valid(w.refreshed().ranges),
        w.refreshed().ranges.len() <= w.refreshed().weights.len() + 1,
        forall|i: int|
            1 <= i < w.refreshed().weights.len() ==> #[trigger] w.refreshed().weights[i] >= 1,
        w.refreshed().limits_valid(),
        0 <= total(w.refreshed().weights) < w.refreshed().range_limit,
        w.refreshed().weights.len() <= 22712,
{
    lemma_prefix_nonnegative(w.weights, w.weights.len() as int);
    lemma_length_at_most_total(w.weights, w.weights.len() as int);
    if total(w.weights) >= w.range_limit {
        let k = choose|i: int| 0 <= i < w.weights.len() && #[trigger] w.weights[i] >= 2;
        lemma_entry_at_most_prefix(w.weights, k, w.weights.len() as int);
        if w.range_limit < w.weight_limit {
            law_ranges_rebuilt(w);
        } else {
            law_weights_rebuilt(w);
            law_ranges_rebuilt(w.weights_rebuilt());
        }
    }
}

proof fn lemma_refreshed_values(w: Window, bound: int)
    requires
        w.valid(),
        w.values_below(bound),
    ensures
        w.refreshed().values_below(bound),
{
    let (a, b) = purged(halved(w.weights), w.values, 1);
    lemma_purged_values(halved(w.weights), w.values, 1, bound);
    lemma_purged(halved(w.weights), w.values, 1);
    let best = heaviest(a, 1);
    if best < a.len() {
        lemma_heaviest(a, 1);
        let c = swapped(b, best, a.len() - 1);
        assert forall|j: int| 0 <= j < c.len() implies #[trigger] c[j] < bound by {
            assert(b[j] < bound && b[best] < bound && b[a.len() - 1] < bound);
        }
    }
}

/// Making an entry heavier keeps the entries in order.
proof fn lemma_bumped(w: Window, i: int, by: int)
    requires
        w.weights.len() == w.values.len(),
        forall|j: int| 1 <= j < w.weights.len() ==> #[trigger] w.weights[j] >= 1,
        0 <= i < w.weights.len(),
        1 <= by,
        total(w.weights) + by <= 0xFFFF,
    ensures
        w.bumped(i, by).weights[i] == w.weights[i] + by,
        total(w.bumped(i, by).weights) == total(w.weights) + by,
        forall|j: int| 1 <= j < w.weights.len() ==> #[trigger] w.bumped(i, by).weights[j] >= 1,
{
    lemma_entry_at_most_prefix(w.weights, i, w.weights.len() as int);
    lemma_total_update(w.weights, i, (w.weights[i] + by) as u16);
}

proof fn lemma_extended(w: Window)
    requires
        w.weights.len() == w.values.len() >= 1,
        forall|j: int| 1 <= j < w.weights.len() ==> #[trigger] w.weights[j] >= 1,
    ensures
        w.extended().weights.len() == w.extended().values.len() == w.weights.len() + 1,
        total(w.extended().weights) <= total(w.weights) + 2,
        total(w.extended().weights) == total(w.weights) + 2 - if w.weights.len() + 1
            == w.count_cap {
            w.weights[0] as int
        } else {
            0
        },
        forall|j: int| 1 <= j <= w.weights.len() ==> #[trigger] w.extended().weights[j] >= 1,
        w.extended().weights.last() == 2,
{
    lemma_total_push(w.weights, 2);
    lemma_total_update(w.weights.push(2), 0, 0);
}

/// Decoding a symbol keeps the window valid and the coder's point in its interval. The symbol is
/// below every bound that all symbols of the window are below.
pub proof fn law_decoded_is_valid(w: Window, c: Coder, stream: Seq<u8>)
    requires
        w.valid(),
        c.valid(),
        0 <= c.pos,
    ensures
        w.decoded(c, stream).window.valid(),
        w.decoded(c, stream).coder.valid(),
        0 <= w.decoded(c, stream).coder.pos,
        forall|bound: int| #[trigger]
            w.values_below(bound) && bound >= 1 ==> w.decoded(c, stream).window.values_below(bound)
                && w.decoded(c, stream).value < bound,
{
    let r = w.refreshed();
    lemma_refreshed(w);
    let c0 = c.ingested(stream);
    law_ingested_is_ready(c, stream);
    let v = c0.symbol(FIXED_ONE as nat) as int;
    lemma_range_exists(r.ranges, v, r.ranges.len() - 1);
    let i = range_of(r.ranges, v);
    let span = (r.ranges[i + 1] - r.ranges[i]) as nat;
    assert(r.ranges[i + 1] <= r.ranges[r.ranges.len() - 1]);
    law_narrowed_is_valid(c0, FIXED_ONE as nat, r.ranges[i] as nat, span);
    let c1 = c0.narrowed(FIXED_ONE as nat, r.ranges[i] as nat, span);
    let w1 = r.bumped(i, 1);
    lemma_bumped(r, i, 1);
    let d = w.decoded(c, stream);
    if i > 0 {
        assert(w1.weights[i] >= 2);
    } else {
        lemma_extended(w1);
        if w1.weights.len() >= w1.ranges.len() {
            law_uniform_is_valid(c1, stream, 2);
            let (bit, c2) = c1.uniform(stream, 2);
            if bit == 1 {
                let active = w1.ranges.len() - 1;
                let many = (w1.weights.len() - active) as nat;
                law_uniform_is_valid(c2, stream, many);
                let k = c2.uniform(stream, many).0;
                lemma_bumped(w1, active + k, 2);
                assert(d.window.weights[active + k] >= 2);
            } else {
                assert(d.window.weights[d.window.weights.len() - 1] >= 2);
            }
        } else {
            assert(d.window.weights[d.window.weights.len() - 1] >= 2);
        }
    }
    assert forall|bound: int| #[trigger] w.values_below(bound) && bound >= 1 implies
        d.window.values_below(bound) && d.value < bound by {
        lemma_refreshed_values(w, bound);
    }
}

// ---------------------------------------------------------------------------
// The window itself
// ---------------------------------------------------------------------------

pub struct WeighWindow {
    pub count_cap: u16,
    pub ranges: Vec<u16>,
    pub values: Vec<u16>,
    pub weights: Vec<u16>,
    pub weight_total: u16,
    pub thresh_increase: u16,
    pub thresh_increase_cap: u16,
    pub thresh_range_rebuild: u16,
    pub thresh_weight_rebuild: u16,
}

/// A decoded symbol. Where `new_index` is set, the caller gives the entry there its value.
pub struct DecodeResult {
    pub new_index: Option<usize>,
    pub value: u16,
}

impl View for WeighWindow {
    type V = Window;

    open spec fn view(&self) -> Window {
        Window {
            count_cap: self.count_cap as nat,
            ranges: self.ranges@,
            values: self.values@,
            weights: self.weights@,
            step: self.thresh_increase as nat,
            step_cap: self.thresh_increase_cap as nat,
            range_limit: self.thresh_range_rebuild as nat,
            weight_limit: self.thresh_weight_rebuild as nat,
        }
    }
}

impl WeighWindow {
    /// A valid window whose total is kept up to date.
    pub open spec fn wf(&self) -> bool {
        self@.valid() && self.weight_total == total(self.weights@)
    }

    pub fn new(max_value: u32, count_cap: u16) -> (r: Self)
        requires
            max_value <= 0x7FF_FFFF,
            count_cap < 0xFFFF,
        ensures
            r.wf(),
            r@ == initial_window(max_value as nat, count_cap as nat),
            r.weight_total == 4,
    {
        let thresh_weight_rebuild: u16 = if 32 * max_value < 256 {
            256
        } else if 32 * max_value < 15160 {
            (32 * max_value) as u16
        } else {
            15160
        };
        let half: u32 = thresh_weight_rebuild as u32 / 2;
        let thresh_increase_cap: u16 = if max_value <= 64 {
            128
        } else if 2 * max_value < half - 32 {
            (2 * max_value) as u16
        } else {
            (half - 32) as u16
        };
        let r = WeighWindow {
            count_cap: count_cap + 1,
            ranges: vec![0, FIXED_ONE],
            values: vec![0],
            weights: vec![4],
            weight_total: 4,
            thresh_increase: 4,
            thresh_increase_cap,
            thresh_range_rebuild: 8,
            thresh_weight_rebuild,
        };
        proof {
            law_initial_window_valid(max_value as nat, count_cap as nat);
            let w = initial_window(max_value as nat, count_cap as nat);
            assert(r.ranges@ =~= w.ranges);
            assert(r.values@ =~= w.values);
            assert(r.weights@ =~= w.weights);
            assert(total(r.weights@) == 4) by {
                reveal_with_fuel(prefix_sum, 2);
            }
        }
        r
    }

    /// The first of the heaviest entries from `from` on.
    pub fn max_weight_index(&self, from: usize) -> (r: usize)
        ensures
            r == heaviest(self.weights@, from as int),
            from < self.weights@.len() ==> is_heaviest(self.weights@, from as int, r as int),
    {
        if from >= self.weights.len() {
            return from;
        }
        let mut best: usize = from;
        let mut i: usize = from;
        while i < self.weights.len()
            invariant
                from <= best < self.weights@.len(),
                from <= i <= self.weights@.len(),
                forall|j: int|
                    from <= j < i ==> #[trigger] self.weights@[j] <= self.weights@[best as int],
                forall|j: int|
                    from <= j < best ==> #[trigger] self.weights@[j] < self.weights@[best as int],
                best <= i,
            decreases self.weights@.len() - i,
        {
            if self.weights[i] > self.weights[best] {
                best = i;
            }
            i = i + 1;
        }
        proof {
            assert(is_heaviest(self.weights@, from as int, best as int));
            lemma_heaviest(self.weights@, from as int);
            lemma_heaviest_unique(
                self.weights@,
                from as int,
                best as int,
                heaviest(self.weights@, from as int),
            );
        }
        best
    }

    /// Halves all weights, removes the symbols that drop to zero and keeps the escape alive.
    pub fn rebuild_weights(&mut self)
        requires
            old(self).weights@.len() == old(self).values@.len() >= 1,
            total(halved(old(self).weights@)) <= 0xFFFF,
            old(self).weights@[0] < 2 ==> total(halved(old(self).weights@)) < 0xFFFF,
        ensures
            final(self)@ == old(self)@.weights_rebuilt(),
            final(self).weight_total == total(final(self).weights@),
    {
        let ghost half = halved(self.weights@);
        let mut sum: u16 = 0;
        let mut i: usize = 0;
        while i < self.weights.len()
            invariant
                i <= self.weights@.len(),
                self.weights@.len() == old(self).weights@.len(),
                self@ == (Window { weights: self.weights@, ..old(self)@ }),
                half == halved(old(self).weights@),
                total(half) <= 0xFFFF,
                forall|j: int| 0 <= j < i ==> self.weights@[j] == half[j],
                forall|j: int|
                    i <= j < self.weights@.len() ==> self.weights@[j] == old(self).weights@[j],
                sum == prefix_sum(half, i as int),
            decreases self.weights@.len() - i,
        {
            proof {
                lemma_prefix_rises(half, i + 1, half.len() as int);
            }
            let w: u16 = self.weights[i] / 2;
            self.weights[i] = w;
            sum = sum + w;
            i = i + 1;
        }
        self.weight_total = sum;
        assert(self.weights@ =~= half);

        let mut i: usize = 1;
        while i < self.weights.len()
            invariant
                1 <= i <= self.weights@.len(),
                self.weights@.len() == self.values@.len(),
                self@ == (Window { weights: self.weights@, values: self.values@, ..old(self)@ }),
                purged(self.weights@, self.values@, i as int) == purged(
                    half,
                    old(self).values@,
                    1,
                ),
                self.weight_total == total(half),
            decreases self.weights@.len() - i,
        {
            if self.weights[i] == 0 {
                self.weights.swap_remove(i);
                self.values.swap_remove(i);
            } else {
                i = i + 1;
            }
        }
        proof {
            lemma_purged(half, old(self).values@, 1);
        }
        let best: usize = self.max_weight_index(1);
        if best < self.weights.len() {
            let last: usize = self.weights.len() - 1;
            proof {
                lemma_swapped(self.weights@, best as int, last as int);
            }
            let w: u16 = self.weights[best];
            let v: u16 = self.values[best];
            self.weights[best] = self.weights[last];
            self.values[best] = self.values[last];
            self.weights[last] = w;
            self.values[last] = v;
        }
        if self.weights.len() < self.count_cap as usize && self.weights[0] == 0 {
            proof {
                lemma_total_update(self.weights@, 0, 1);
            }
            self.weights[0] = 1;
            self.weight_total = self.weight_total + 1;
        }
    }

    /// Sets the shares in proportion to the weights.
    pub fn rebuild_ranges(&mut self)
        requires
            old(self).weights.len() >= 1,
            old(self).weight_total == total(old(self).weights@),
            old(self).weight_total >= 1,
            old(self).weight_total + old(self).thresh_increase_cap <= 0xFFFF,
        ensures
            final(self)@ == old(self)@.ranges_rebuilt(),
            final(self).weight_total == old(self).weight_total,
    {
        let ghost goal = self@.ranges_rebuilt();
        let ghost unit = range_unit(self.weights@);
        let n: usize = self.weights.len();
        let mut ranges: Vec<u16> = Vec::new();
        let range_weight: u32 = 8 * FIXED_ONE as u32 / self.weight_total as u32;
        assert(range_weight == unit);
        let mut start: u16 = 0;
        let mut i: usize = 0;
        while i < n
            invariant
                i <= n,
                n == self.weights@.len(),
                *self == *old(self),
                ranges@.len() == i,
                total(self.weights@) >= 1,
                unit == range_unit(self.weights@),
                range_weight == unit,
                start == range_start(self.weights@, unit, i as int),
                forall|j: int|
                    0 <= j < i ==> #[trigger] ranges@[j] == range_start(self.weights@, unit, j),
            decreases n - i,
        {
            proof {
                lemma_range_start_fits(self.weights@, i + 1);
                let w = self.weights@[i as int];
                assert(w as nat * unit == w * range_weight);
                assert((w as nat * unit) / 8 <= FIXED_ONE);
            }
            ranges.push(start);
            let share: u32 = (self.weights[i] as u32 * range_weight) / 8;
            start = start + share as u16;
            i = i + 1;
        }
        ranges.push(FIXED_ONE);
        self.ranges = ranges;
        assert(self.ranges@ =~= goal.ranges);

        if self.thresh_increase > self.thresh_increase_cap / 2 {
            self.thresh_range_rebuild = self.weight_total + self.thresh_increase_cap;
        } else {
            self.thresh_increase = self.thresh_increase * 2;
            self.thresh_range_rebuild = self.weight_total + self.thresh_increase;
        }
    }

    /// Decodes one symbol from the active, the probationary or the unseen ones.
    pub fn try_decode(&mut self, decoder: &mut Decoder) -> (r: DecodeResult)
        requires
            old(self).wf(),
            old(decoder).wf(),
        ensures
            final(self).wf(),
            final(decoder).wf(),
            final(decoder).stream == old(decoder).stream,
            ({
                let d = old(self)@.decoded(old(decoder)@, old(decoder).stream@);
                &&& final(self)@ == d.window
                &&& final(decoder)@ == d.coder
                &&& r.value == d.value
                &&& r.new_index == if d.fresh {
                    Some((final(self).values@.len() - 1) as usize)
                } else {
                    None
                }
            }),
            final(self).values.len() >= 1,
    {
        let ghost stream = decoder.stream@;
        proof {
            lemma_refreshed(self@);
            law_decoded_is_valid(self@, decoder@, stream);
            law_ingested_is_ready(decoder@, stream);
            let k = choose|i: int| 0 <= i < self.weights@.len() && #[trigger] self.weights@[i] >= 2;
            lemma_entry_at_most_prefix(self.weights@, k, self.weights@.len() as int);
            law_weights_rebuilt(self@);
        }
        if self.weight_total >= self.thresh_range_rebuild {
            if self.thresh_range_rebuild >= self.thresh_weight_rebuild {
                proof {
                    lemma_halved(self.weights@, self.weights@.len() as int);
                }
                self.rebuild_weights();
            }
            self.rebuild_ranges();
        }
        let ghost w = self@;
        assert(w == old(self)@.refreshed());
        let value: u16 = decoder.decode(FIXED_ONE);
        proof {
            lemma_range_exists(w.ranges, value as int, w.ranges.len() - 1);
        }
        let index: usize = self.range_index(value);
        let start: u16 = self.ranges[index];
        proof {
            assert(w.ranges[index as int] <= w.ranges[index + 1]);
            assert(w.ranges[index + 1] <= w.ranges[w.ranges.len() - 1]);
            lemma_bumped(w, index as int, 1);
            lemma_entry_at_most_prefix(w.weights, index as int, w.weights.len() as int);
        }
        let span: u16 = self.ranges[index + 1] - start;
        decoder.commit(FIXED_ONE, start, span);
        self.weights[index] = self.weights[index] + 1;
        self.weight_total = self.weight_total + 1;
        let ghost w1 = self@;
        assert(w1 == w.bumped(index as int, 1));

        if index > 0 {
            return DecodeResult { new_index: None, value: self.values[index] };
        }
        if self.weights.len() >= self.ranges.len() {
            let bit: u16 = decoder.decode_commit(2);
            if bit == 1 {
                let active: usize = self.ranges.len() - 1;
                let prob_count: usize = self.weights.len() - active;
                let k: u16 = decoder.decode_commit(prob_count as u16);
                let prob_idx: usize = active + k as usize;
                proof {
                    lemma_bumped(w1, prob_idx as int, 2);
                    lemma_entry_at_most_prefix(
                        w1.weights,
                        prob_idx as int,
                        w1.weights.len() as int,
                    );
                }
                self.weights[prob_idx] = self.weights[prob_idx] + 2;
                self.weight_total = self.weight_total + 2;
                return DecodeResult { new_index: None, value: self.values[prob_idx] };
            }
        }
        proof {
            lemma_extended(w1);
            lemma_total_push(w1.weights, 2);
            lemma_entry_at_most_prefix(w1.weights.push(2), 0, (w1.weights.len() + 1) as int);
        }
        self.values.push(0);
        self.weights.push(2);
        self.weight_total = self.weight_total + 2;
        if self.weights.len() == self.count_cap as usize {
            self.weight_total = self.weight_total - self.weights[0];
            self.weights[0] = 0;
        }
        DecodeResult { new_index: Some(self.values.len() - 1), value: 0 }
    }

    /// The share that holds `value`.
    fn range_index(&self, value: u16) -> (r: usize)
        requires
            ranges_valid(self.ranges@),
            value < FIXED_ONE,
        ensures
            in_range(self.ranges@, value as int, r as int),
            r == range_of(self.ranges@, value as int),
    {
        let mut i: usize = 0;
        while self.ranges[i + 1] <= value
            invariant
                ranges_valid(self.ranges@),
                value < FIXED_ONE,
                i + 1 < self.ranges.len(),
                self.ranges@[i as int] <= value,
            decreases self.ranges@.len() - i,
        {
            i = i + 1;
        }
        proof {
            lemma_range_unique(self.ranges@, value as int, i as int);
        }
        i
    }

    /// Decodes one symbol; a fresh one is read as one of `max` equally likely values.
    pub fn decode_value(&mut self, decoder: &mut Decoder, max: u16) -> (r: u16)
        requires
            old(self).wf(),
            old(decoder).wf(),
            max >= 1,
        ensures
            final(self).wf(),
            final(decoder).wf(),
            final(decoder).stream == old(decoder).stream,
            (r, final(self)@, final(decoder)@) == old(self)@.symbol(
                old(decoder)@,
                old(decoder).stream@,
                max as nat,
            ),
            forall|bound: int| #[trigger]
                old(self)@.values_below(bound) && bound >= max ==> final(self)@.values_below(bound)
                    && r < bound,
    {
        proof {
            law_decoded_is_valid(self@, decoder@, decoder.stream@);
        }
        let d = self.try_decode(decoder);
        let ghost w = self@;
        match d.new_index {
            Some(idx) => {
                let v: u16 = decoder.decode_commit(max);
                self.values[idx] = v;
                assert forall|bound: int| #[trigger]
                    old(self)@.values_below(bound) && bound >= max implies self@.values_below(
                    bound,
                ) by {
                    assert(w.values_below(bound));
                }
                v
            },
            None => d.value,
        }
    }
}

} // verus!
