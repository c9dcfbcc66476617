//! Adaptive cumulative frequency tables, the probability side of the rANS coder.
use vstd::arithmetic::div_mod::*;
use vstd::arithmetic::mul::*;
use vstd::arithmetic::power2::*;
use vstd::bits::*;
use crate::sums::{lemma_prefix_update, prefix_sum};
use vstd::prelude::*;

verus! {

// ---------------------------------------------------------------------------
// Cumulative frequencies
// ---------------------------------------------------------------------------

/// `sums` rises strictly from zero to `total`: symbol `s` owns the codes from `sums[s]` up to
/// `sums[s + 1]`, and every symbol owns at least one.
pub open spec fn cdf_valid(sums: Seq<u16>, total: int) -> bool {
    &&& sums.len() >= 2
    &&& sums[0] == 0
    &&& sums[sums.len() - 1] == total
    &&& forall|i: int, j: int| 0 <= i < j < sums.len() ==> sums[i] < sums[j]
}

/// Symbol `s` owns `code`.
pub open spec fn is_symbol(sums: Seq<u16>, code: int, s: int) -> bool {
    0 <= s < sums.len() - 1 && sums[s] <= code < sums[s + 1]
}

/// The symbol that owns `code`.
pub open spec fn symbol_of(sums: Seq<u16>, code: int) -> int {
    choose|s: int| is_symbol(sums, code, s)
}

/// In a valid table each code has exactly one owner.
pub proof fn law_symbol_is_unique(sums: Seq<u16>, total: int, code: int, s: int)
    requires
        cdf_valid(sums, total),
        is_symbol(sums, code, s),
    ensures
        s == symbol_of(sums, code),
{
    let t = symbol_of(sums, code);
    assert(is_symbol(sums, code, t));
    if s < t {
        assert(sums[s + 1] <= sums[t]) by {
            if s + 1 < t {
                assert(sums[s + 1] < sums[t]);
            }
        }
    } else if t < s {
        assert(sums[t + 1] <= sums[s]) by {
            if t + 1 < s {
                assert(sums[t + 1] < sums[s]);
            }
        }
    }
}

/// In a valid table every code below the total has an owner.
pub proof fn law_symbol_exists(sums: Seq<u16>, total: int, code: int)
    requires
        cdf_valid(sums, total),
        0 <= code < total,
    ensures
        is_symbol(sums, code, symbol_of(sums, code)),
{
    lemma_owner_below(sums, code, sums.len() - 1);
}

proof fn lemma_owner_below(sums: Seq<u16>, code: int, top: int)
    requires
        1 <= top < sums.len(),
        sums[0] == 0,
        0 <= code < sums[top],
    ensures
        exists|s: int| is_symbol(sums, code, s),
    decreases top,
{
    if sums[top - 1] <= code {
        assert(is_symbol(sums, code, top - 1));
    } else {
        lemma_owner_below(sums, code, top - 1);
    }
}

/// A strictly rising table that ends at `total` has at most `total` symbols.
proof fn lemma_rise(sums: Seq<u16>, total: int, i: int)
    requires
        cdf_valid(sums, total),
        0 <= i < sums.len(),
    ensures
        i <= sums[i],
    decreases i,
{
    if i > 0 {
        lemma_rise(sums, total, i - 1);
        assert(sums[i - 1] < sums[i]);
    }
}

pub struct FrequencyTable {
    pub frequency_bits: u32,
    pub vocab_size: usize,
    pub lookup_shift: u32,
    pub sums: Vec<u16>,
    pub lookup: Vec<u16>,
}

impl FrequencyTable {
    /// One more than the largest code.
    pub open spec fn total(&self) -> nat {
        pow2(self.frequency_bits as nat)
    }

    /// The sizes agree and the sums form a valid table.
    pub open spec fn sums_wf(&self) -> bool {
        &&& self.frequency_bits <= 15
        &&& self.lookup_shift <= self.frequency_bits
        &&& self.sums@.len() == self.vocab_size + 1
        &&& self.lookup@.len() == pow2((self.frequency_bits - self.lookup_shift) as nat)
        &&& cdf_valid(self.sums@, self.total() as int)
    }

    /// Beside that, the acceleration table names the owner of the first code of each slot.
    pub open spec fn wf(&self) -> bool {
        &&& self.sums_wf()
        &&& forall|j: int|
            0 <= j < self.lookup@.len() ==> is_symbol(
                self.sums@,
                j * pow2(self.lookup_shift as nat),
                #[trigger] self.lookup@[j] as int,
            )
    }

    pub fn new(frequency_bits: u32, vocab_size: usize, lookup_bits: u32) -> (r: Self)
        requires
            lookup_bits <= frequency_bits,
            lookup_bits < 32,
            vocab_size < usize::MAX,
        ensures
            r.frequency_bits == frequency_bits,
            r.vocab_size == vocab_size,
            r.lookup_shift == frequency_bits - lookup_bits,
            r.sums@ == Seq::new((vocab_size + 1) as nat, |i: int| 0u16),
            r.lookup@ == Seq::new(pow2(lookup_bits as nat), |i: int| 0u16),
    {
        let slots: usize = 1usize << lookup_bits;
        proof {
            lemma_pow2_strictly_increases(lookup_bits as nat, 32);
            lemma2_to64();
            lemma_usize_shl_is_mul(1usize, lookup_bits as usize);
        }
        let r = FrequencyTable {
            frequency_bits,
            vocab_size,
            lookup_shift: frequency_bits - lookup_bits,
            sums: vec![0u16; vocab_size + 1],
            lookup: vec![0u16; slots],
        };
        assert(r.sums@ =~= Seq::new((vocab_size + 1) as nat, |i: int| 0u16));
        assert(r.lookup@ =~= Seq::new(pow2(lookup_bits as nat), |i: int| 0u16));
        r
    }

    /// The symbol that owns `code`: a jump through the acceleration table, then a scan.
    pub fn find_symbol(&self, code: u32) -> (r: u16)
        requires
            self.wf(),
            code < self.total(),
        ensures
            is_symbol(self.sums@, code as int, r as int),
            r == symbol_of(self.sums@, code as int),
    {
        let slot: u32 = code >> self.lookup_shift;
        let ghost step = pow2(self.lookup_shift as nat) as int;
        proof {
            lemma_u32_shr_is_div(code, self.lookup_shift);
            lemma_pow2_pos(self.lookup_shift as nat);
            lemma_slot_in_range(
                code as int,
                self.lookup_shift as nat,
                (self.frequency_bits - self.lookup_shift) as nat,
            );
            lemma_fundamental_div_mod(code as int, step);
            lemma_mul_is_commutative(slot as int, step);
        }
        let mut sym: u16 = self.lookup[slot as usize];
        assert(is_symbol(self.sums@, slot * step, sym as int));
        while code >= self.sums[sym as usize + 1] as u32
            invariant
                self.wf(),
                code < self.total(),
                sym < self.vocab_size,
                self.sums@[sym as int] <= code,
            decreases self.vocab_size - sym,
        {
            proof {
                lemma_rise(self.sums@, self.total() as int, self.sums@.len() - 1);
                lemma_total_small(self.frequency_bits);
                assert(sym + 1 < self.vocab_size);
            }
            sym = sym + 1;
        }
        proof {
            law_symbol_is_unique(self.sums@, self.total() as int, code as int, sym as int);
        }
        sym
    }

    /// Rebuilds the acceleration table from the sums.
    pub fn finish_update(&mut self)
        requires
            old(self).sums_wf(),
        ensures
            final(self).wf(),
            final(self).sums@ == old(self).sums@,
            final(self).frequency_bits == old(self).frequency_bits,
            final(self).vocab_size == old(self).vocab_size,
            final(self).lookup_shift == old(self).lookup_shift,
    {
        let total: u32 = 1u32 << self.frequency_bits;
        let step: u32 = 1u32 << self.lookup_shift;
        proof {
            lemma_total_small(self.frequency_bits);
            lemma_total_small(self.lookup_shift);
            lemma_u32_shl_is_mul(1u32, self.frequency_bits);
            lemma_u32_shl_is_mul(1u32, self.lookup_shift);
            lemma_pow2_pos(self.lookup_shift as nat);
            lemma_pow2_adds(
                self.lookup_shift as nat,
                (self.frequency_bits - self.lookup_shift) as nat,
            );
        }
        let ghost slots = self.lookup@.len() as int;
        let ghost sums = self.sums@;
        let mut code: u32 = 0;
        let mut sym: u16 = 0;
        let mut next: u32 = self.sums[1] as u32;
        let ghost mut k: int = 0;
        while code < total
            invariant
                self.sums_wf(),
                self.sums@ == sums,
                self.frequency_bits == old(self).frequency_bits,
                self.vocab_size == old(self).vocab_size,
                self.lookup_shift == old(self).lookup_shift,
                self.lookup@.len() == slots,
                total == self.total(),
                total <= 0x8000,
                step == pow2(self.lookup_shift as nat),
                1 <= step <= 0x8000,
                total == step * slots,
                0 <= k <= slots,
                code == k * step,
                sym < self.vocab_size,
                next == sums[sym + 1],
                sums[sym as int] <= code,
                forall|j: int|
                    0 <= j < k ==> is_symbol(sums, j * step, #[trigger] self.lookup@[j] as int),
            decreases total - code, self.vocab_size - sym,
        {
            if code < next {
                let slot: u32 = code >> self.lookup_shift;
                proof {
                    lemma_u32_shr_is_div(code, self.lookup_shift);
                    lemma_div_multiples_vanish(k, step as int);
                    lemma_mul_is_commutative(k, step as int);
                    assert(slot == k);
                    assert(k < slots) by (nonlinear_arith)
                        requires
                            k * step < step * slots,
                            step >= 1,
                    ;
                    assert((k + 1) * step == k * step + step) by (nonlinear_arith);
                    assert((k + 1) * step <= step * slots) by (nonlinear_arith)
                        requires
                            k + 1 <= slots,
                            step >= 1,
                    ;
                }
                self.lookup[slot as usize] = sym;
                code = code + step;
                proof {
                    assert(is_symbol(sums, k * step, sym as int));
                    k = k + 1;
                }
            } else {
                proof {
                    lemma_rise(sums, total as int, sums.len() - 1);
                    assert(sym + 1 < self.vocab_size);
                }
                sym = sym + 1;
                next = self.sums[sym as usize + 1] as u32;
            }
        }
        proof {
            assert(k == slots) by (nonlinear_arith)
                requires
                    k * step >= step * slots,
                    k <= slots,
                    step >= 1,
            ;
        }
    }

    /// The number of codes that `sym` owns.
    pub fn frequency(&self, sym: u16) -> (r: u16)
        requires
            self.sums_wf(),
            sym < self.vocab_size,
        ensures
            r == self.sums@[sym + 1] - self.sums@[sym as int],
            r >= 1,
    {
        self.sums[sym as usize + 1] - self.sums[sym as usize]
    }

    /// The first code that `sym` owns.
    pub fn sum_below(&self, sym: u16) -> (r: u16)
        requires
            sym < self.sums@.len(),
        ensures
            r == self.sums@[sym as int],
    {
        self.sums[sym as usize]
    }
}

// ---------------------------------------------------------------------------
// Deferred adaptive probability model
// ---------------------------------------------------------------------------

/// What an [`AdaptiveModel`] stands for.
pub struct ModelState {
    /// The table's total is two to this power.
    pub bits: nat,
    /// The table in force.
    pub sums: Seq<u16>,
    /// The frequencies gathered for the next table.
    pub accum: Seq<u16>,
    /// Observations since the table was last rebuilt.
    pub counter: nat,
    /// Observations between rebuilds.
    pub interval: nat,
    /// The weight of one observation.
    pub incr: nat,
    /// The extra weight of the observation that closes an interval.
    pub last: nat,
}

impl ModelState {
    pub open spec fn valid(self) -> bool {
        &&& self.bits <= 15
        &&& cdf_valid(self.sums, pow2(self.bits) as int)
        &&& self.sums.len() == self.accum.len() + 1
        &&& forall|i: int| 0 <= i < self.accum.len() ==> self.accum[i] >= 1
        &&& self.counter < self.interval
        &&& self.incr * self.interval + self.last == pow2(self.bits) - self.accum.len() + 1
        &&& prefix_sum(self.accum, self.accum.len() as int) == self.accum.len() + self.counter
            * self.incr
    }

    /// The model after one more `sym`. The observation that closes an interval moves every sum
    /// halfway, rounding down, towards the frequencies gathered meanwhile.
    pub open spec fn observe(self, sym: int) -> ModelState {
        if !(0 <= sym < self.accum.len()) {
            self
        } else {
            let seen = self.accum.update(sym, (self.accum[sym] + self.incr) as u16);
            if self.counter + 1 < self.interval {
                ModelState { accum: seen, counter: self.counter + 1, ..self }
            } else {
                let closed = seen.update(sym, (seen[sym] + self.last) as u16);
                ModelState {
                    sums: Seq::new(
                        self.sums.len(),
                        |i: int| ((self.sums[i] + prefix_sum(closed, i)) / 2) as u16,
                    ),
                    accum: Seq::new(self.accum.len(), |i: int| 1u16),
                    counter: 0,
                    ..self
                }
            }
        }
    }
}

/// The model before any observation: `vocab - rare` symbols share the codes evenly, and each of
/// the `rare` ones at the end owns a single code.
pub open spec fn initial_model(interval: nat, vocab: nat, rare: nat, bits: nat) -> ModelState {
    let total = pow2(bits);
    let common = vocab - rare;
    ModelState {
        bits,
        sums: Seq::new(
            vocab + 1,
            |i: int|
                if i < common {
                    ((total - rare) * i / common) as u16
                } else {
                    (total - vocab + i) as u16
                },
        ),
        accum: Seq::new(vocab, |i: int| 1u16),
        counter: 0,
        interval,
        incr: ((total - vocab) / interval as int) as nat,
        last: (1 + (total - vocab) % interval as int) as nat,
    }
}

/// With every entry at least one, the prefix sums rise by at least one each.
proof fn lemma_prefix_rises(s: Seq<u16>, i: int, j: int)
    requires
        forall|k: int| 0 <= k < s.len() ==> s[k] >= 1,
        0 <= i <= j <= s.len(),
    ensures
        prefix_sum(s, i) + (j - i) <= prefix_sum(s, j),
        prefix_sum(s, i) >= i,
    decreases j,
{
    if i < j {
        lemma_prefix_rises(s, i, j - 1);
    } else if i > 0 {
        lemma_prefix_rises(s, i - 1, i - 1);
    }
}

proof fn lemma_entry_in_prefix(s: Seq<u16>, k: int, n: int)
    requires
        forall|i: int| 0 <= i < s.len() ==> s[i] >= 1,
        0 <= k < n <= s.len(),
    ensures
        s[k] + (n - 1) <= prefix_sum(s, n),
{
    lemma_prefix_rises(s, 0, k);
    lemma_prefix_rises(s, k + 1, n);
    assert(prefix_sum(s, k + 1) == prefix_sum(s, k) + s[k]);
}

proof fn lemma_prefix_ones(s: Seq<u16>, n: int)
    requires
        0 <= n <= s.len(),
        forall|i: int| 0 <= i < s.len() ==> s[i] == 1,
    ensures
        prefix_sum(s, n) == n,
    decreases n,
{
    if n > 0 {
        lemma_prefix_ones(s, n - 1);
    }
}

/// A gathered frequency, the open observation included, fits in sixteen bits.
pub proof fn lemma_accum_bound(m: ModelState, sym: int)
    requires
        m.valid(),
        0 <= sym < m.accum.len(),
    ensures
        m.accum[sym] + m.incr + m.last <= 0x8002,
{
    lemma_entry_in_prefix(m.accum, sym, m.accum.len() as int);
    lemma_total_small(m.bits as u32);
    assert((m.counter + 1) * m.incr == m.counter * m.incr + m.incr) by (nonlinear_arith);
    assert((m.counter + 1) * m.incr <= m.incr * m.interval) by (nonlinear_arith)
        requires
            m.counter + 1 <= m.interval,
    ;
}

/// Observing a symbol keeps a model valid: the table still rises strictly from zero to the same
/// total, and no probability mass is lost.
pub proof fn law_observe_keeps_valid(m: ModelState, sym: int)
    requires
        m.valid(),
    ensures
        m.observe(sym).valid(),
{
    if 0 <= sym < m.accum.len() {
        lemma_accum_bound(m, sym);
        let n = m.accum.len() as int;
        let seen = m.accum.update(sym, (m.accum[sym] + m.incr) as u16);
        lemma_prefix_update(m.accum, sym, (m.accum[sym] + m.incr) as u16, n);
        assert((m.counter + 1) * m.incr == m.counter * m.incr + m.incr) by (nonlinear_arith);
        if m.counter + 1 >= m.interval {
            let closed = seen.update(sym, (seen[sym] + m.last) as u16);
            lemma_prefix_update(seen, sym, (seen[sym] + m.last) as u16, n);
            assert(m.counter + 1 == m.interval);
            assert(m.interval * m.incr == m.incr * m.interval) by (nonlinear_arith);
            let total = pow2(m.bits) as int;
            assert(prefix_sum(closed, n) == total + 1);
            let o = m.observe(sym);
            lemma_total_small(m.bits as u32);
            assert forall|i: int| 0 <= i <= n implies 0 <= #[trigger] prefix_sum(closed, i)
                && prefix_sum(closed, i) <= total + 1 by {
                lemma_prefix_rises(closed, i, n);
            }
            assert forall|i: int| 0 <= i <= n implies m.sums[i] <= total by {
                if i < n {
                    assert(m.sums[i] < m.sums[n]);
                }
            }
            assert forall|i: int, j: int| 0 <= i < j < o.sums.len() implies o.sums[i]
                < o.sums[j] by {
                lemma_prefix_rises(closed, i, j);
                assert(m.sums[i] < m.sums[j]);
            }
            lemma_prefix_ones(o.accum, n);
            assert(0 * m.incr == 0) by (nonlinear_arith);
        }
    }
}

/// The initial model is valid.
pub proof fn law_initial_model_valid(interval: nat, vocab: nat, rare: nat, bits: nat)
    requires
        bits <= 15,
        interval >= 1,
        rare < vocab <= pow2(bits),
    ensures
        initial_model(interval, vocab, rare, bits).valid(),
{
    let m = initial_model(interval, vocab, rare, bits);
    let total = pow2(bits) as int;
    let common = vocab - rare;
    lemma_total_small(bits as u32);
    lemma_prefix_ones(m.accum, vocab as int);
    lemma_fundamental_div_mod(total - vocab, interval as int);
    lemma_mod_bound(total - vocab, interval as int);
    lemma_div_pos_is_pos(total - vocab, interval as int);
    lemma_mul_is_commutative(m.incr as int, interval as int);
    assert(0 * m.incr == 0) by (nonlinear_arith);
    let share = |i: int| (total - rare) * i / common;
    assert forall|i: int| 0 <= i < common implies 0 <= #[trigger] share(i) && share(i) < share(
        i + 1,
    ) && share(i) < total - rare && share(i + 1) <= total - rare by {
        lemma_share_rises(total - rare, common, i);
    }
    assert forall|i: int| 0 <= i < common implies m.sums[i] == #[trigger] share(i) by {}
    assert forall|i: int| common <= i <= vocab implies m.sums[i] == total - vocab + i by {}
    assert(share(0) == 0) by {
        lemma_mul_basics(total - rare);
        lemma_div_of0(common);
    }
    assert forall|i: int, j: int| 0 <= i < j < m.sums.len() implies m.sums[i] < m.sums[j] by {
        if j < common {
            lemma_share_rises_to(total - rare, common, i, j);
            assert(m.sums[i] == share(i));
            assert(m.sums[j] == share(j));
        } else if i < common {
            assert(m.sums[i] == share(i));
        }
    }
}

proof fn lemma_share_rises(mass: int, common: int, i: int)
    requires
        0 <= i < common <= mass,
    ensures
        0 <= mass * i / common,
        mass * i / common < mass * (i + 1) / common,
        mass * i / common < mass,
        mass * (i + 1) / common <= mass,
{
    assert(mass * (i + 1) == mass * i + mass) by (nonlinear_arith);
    assert(mass * i >= 0) by (nonlinear_arith)
        requires
            mass >= 0,
            i >= 0,
    ;
    lemma_div_pos_is_pos(mass * i, common);
    lemma_div_is_ordered(mass * i + common, mass * (i + 1), common);
    lemma_div_plus_one(mass * i, common);
    lemma_mul_inequality(i + 1, common, mass);
    lemma_mul_is_commutative(mass, i + 1);
    lemma_mul_is_commutative(mass, common);
    lemma_div_is_ordered(mass * (i + 1), mass * common, common);
    lemma_div_multiples_vanish(mass, common);
}

proof fn lemma_share_rises_to(mass: int, common: int, i: int, j: int)
    requires
        0 <= i < j <= common <= mass,
    ensures
        mass * i / common < mass * j / common,
    decreases j,
{
    lemma_share_rises(mass, common, j - 1);
    if i < j - 1 {
        lemma_share_rises_to(mass, common, i, j - 1);
    }
}

pub struct AdaptiveModel {
    pub cdf: FrequencyTable,
    pub freq_accum: Vec<u16>,
    pub adaptation_interval: u32,
    pub freq_incr: u16,
    pub last_freq_incr: u16,
    pub counter: u32,
}

impl View for AdaptiveModel {
    type V = ModelState;

    open spec fn view(&self) -> ModelState {
        ModelState {
            bits: self.cdf.frequency_bits as nat,
            sums: self.cdf.sums@,
            accum: self.freq_accum@,
            counter: self.counter as nat,
            interval: self.adaptation_interval as nat,
            incr: self.freq_incr as nat,
            last: self.last_freq_incr as nat,
        }
    }
}

impl AdaptiveModel {
    pub open spec fn wf(&self) -> bool {
        &&& self.cdf.wf()
        &&& self.freq_accum@.len() == self.cdf.vocab_size
        &&& self@.valid()
    }

    pub fn new(
        adaptation_interval: u32,
        vocab_size: usize,
        num_min_probable: usize,
        frequency_bits: u32,
        lookup_bits: u32,
    ) -> (r: Self)
        requires
            adaptation_interval >= 1,
            num_min_probable < vocab_size <= pow2(frequency_bits as nat),
            lookup_bits <= frequency_bits <= 15,
        ensures
            r.wf(),
            r@ == initial_model(
                adaptation_interval as nat,
                vocab_size as nat,
                num_min_probable as nat,
                frequency_bits as nat,
            ),
            r.cdf.lookup_shift == frequency_bits - lookup_bits,
    {
        let ghost start = initial_model(
            adaptation_interval as nat,
            vocab_size as nat,
            num_min_probable as nat,
            frequency_bits as nat,
        );
        proof {
            law_initial_model_valid(
                adaptation_interval as nat,
                vocab_size as nat,
                num_min_probable as nat,
                frequency_bits as nat,
            );
            lemma_total_small(frequency_bits);
            lemma_u32_shl_is_mul(1u32, frequency_bits);
        }
        let common: u32 = (vocab_size - num_min_probable) as u32;
        let rare: u32 = num_min_probable as u32;
        let vocab: u32 = vocab_size as u32;
        let total: u32 = 1u32 << frequency_bits;
        proof {
            lemma_fundamental_div_mod(total - vocab, adaptation_interval as int);
            lemma_div_nonincreasing(total - vocab, adaptation_interval as int);
            lemma_div_pos_is_pos(total - vocab, adaptation_interval as int);
            lemma_mod_decreases((total - vocab) as nat, adaptation_interval as nat);
            lemma_mod_bound(total - vocab, adaptation_interval as int);
        }
        let freq_incr: u16 = ((total - vocab) / adaptation_interval) as u16;
        let last_freq_incr: u16 = (1 + (total - vocab) % adaptation_interval) as u16;

        let mut cdf = FrequencyTable::new(frequency_bits, vocab_size, lookup_bits);
        let mut i: usize = 0;
        while i <= vocab_size
            invariant
                i <= vocab_size + 1,
                vocab_size < 0x10000,
                common == vocab_size - num_min_probable,
                rare == num_min_probable,
                vocab == vocab_size,
                1 <= common,
                rare + common == vocab <= total <= 0x8000,
                total == pow2(frequency_bits as nat),
                start == initial_model(
                    adaptation_interval as nat,
                    vocab_size as nat,
                    num_min_probable as nat,
                    frequency_bits as nat,
                ),
                cdf.sums@.len() == vocab_size + 1,
                cdf.frequency_bits == frequency_bits,
                cdf.vocab_size == vocab_size,
                cdf.lookup_shift == frequency_bits - lookup_bits,
                cdf.lookup@.len() == pow2(lookup_bits as nat),
                forall|j: int| 0 <= j < i ==> cdf.sums@[j] == start.sums[j],
            decreases vocab_size + 1 - i,
        {
            if i < common as usize {
                proof {
                    lemma_share_rises(total - rare, common as int, i as int);
                    assert((total - rare) * i <= 0x8000 * 0x8000) by (nonlinear_arith)
                        requires
                            0 <= total - rare <= 0x8000,
                            0 <= i <= 0x8000,
                    ;
                    assert((total - rare) * i >= 0) by (nonlinear_arith)
                        requires
                            0 <= total - rare,
                            0 <= i,
                    ;
                }
                cdf.sums[i] = ((total - rare) * i as u32 / common) as u16;
            } else {
                cdf.sums[i] = (total - vocab + i as u32) as u16;
            }
            i = i + 1;
        }
        assert(cdf.sums@ =~= start.sums);
        cdf.finish_update();

        let r = AdaptiveModel {
            cdf,
            freq_accum: vec![1u16; vocab_size],
            adaptation_interval,
            freq_incr,
            last_freq_incr,
            counter: 0,
        };
        assert(r.freq_accum@ =~= start.accum);
        r
    }

    /// Counts one occurrence of `sym`; a symbol outside the vocabulary is ignored.
    pub fn observe_symbol(&mut self, sym: u16)
        requires
            old(self).wf(),
        ensures
            final(self).wf(),
            final(self)@ == old(self)@.observe(sym as int),
            final(self).cdf.lookup_shift == old(self).cdf.lookup_shift,
    {
        let idx: usize = sym as usize;
        if idx >= self.freq_accum.len() {
            return;
        }
        let ghost before = self@;
        let ghost after = self@.observe(sym as int);
        proof {
            lemma_accum_bound(before, sym as int);
            law_observe_keeps_valid(before, sym as int);
        }
        self.freq_accum[idx] = self.freq_accum[idx] + self.freq_incr;
        if self.counter + 1 < self.adaptation_interval {
            self.counter = self.counter + 1;
            assert(self@ == after);
        } else {
            self.counter = 0;
            self.freq_accum[idx] = self.freq_accum[idx] + self.last_freq_incr;
            let ghost closed = self.freq_accum@;
            let ghost n = self.freq_accum@.len() as int;
            proof {
                let seen = before.accum.update(
                    idx as int,
                    (before.accum[idx as int] + before.incr) as u16,
                );
                assert(closed == seen.update(
                    idx as int,
                    (seen[idx as int] + before.last) as u16,
                ));
                lemma_prefix_update(
                    before.accum,
                    idx as int,
                    (before.accum[idx as int] + before.incr) as u16,
                    n,
                );
                lemma_prefix_update(
                    seen,
                    idx as int,
                    (seen[idx as int] + before.last) as u16,
                    n,
                );
                assert((before.counter + 1) * before.incr == before.counter * before.incr
                    + before.incr) by (nonlinear_arith);
                assert(before.interval * before.incr == before.incr * before.interval)
                    by (nonlinear_arith);
                lemma_total_small(before.bits as u32);
                assert(prefix_sum(closed, n) <= 0x8001);
            }
            let mut sum: u32 = 0;
            let mut i: usize = 0;
            while i < self.cdf.vocab_size
                invariant
                    i <= self.cdf.vocab_size,
                    n == self.cdf.vocab_size,
                    closed.len() == n,
                    self.freq_accum@.len() == n,
                    self.cdf.sums@.len() == n + 1,
                    before.sums.len() == n + 1,
                    forall|k: int| 0 <= k < n ==> closed[k] >= 1,
                    prefix_sum(closed, n) <= 0x8001,
                    sum == prefix_sum(closed, i as int),
                    forall|k: int| 0 <= k < i ==> self.freq_accum@[k] == 1,
                    forall|k: int| i <= k < n ==> self.freq_accum@[k] == closed[k],
                    forall|k: int|
                        1 <= k <= i ==> self.cdf.sums@[k] == ((before.sums[k] + prefix_sum(
                            closed,
                            k,
                        )) / 2) as u16,
                    forall|k: int| i < k <= n ==> self.cdf.sums@[k] == before.sums[k],
                    self.cdf.sums@[0] == before.sums[0],
                    self.cdf.frequency_bits == before.bits,
                    self.cdf.lookup_shift == old(self).cdf.lookup_shift,
                    self.cdf.lookup@.len() == old(self).cdf.lookup@.len(),
                    self.counter == 0,
                    self.adaptation_interval == before.interval,
                    self.freq_incr == before.incr,
                    self.last_freq_incr == before.last,
                decreases self.cdf.vocab_size - i,
            {
                proof {
                    lemma_prefix_rises(closed, i + 1, n);
                    assert(prefix_sum(closed, i + 1) == prefix_sum(closed, i as int)
                        + closed[i as int]);
                }
                sum = sum + self.freq_accum[i] as u32;
                let old_sum: u32 = self.cdf.sums[i + 1] as u32;
                self.cdf.sums[i + 1] = ((old_sum + sum) / 2) as u16;
                self.freq_accum[i] = 1;
                i = i + 1;
            }
            assert(self.cdf.sums@ =~= after.sums);
            assert(self.freq_accum@ =~= after.accum);
            self.cdf.finish_update();
        }
    }
}

/// A power of two up to the fifteenth fits in sixteen bits.
pub proof fn lemma_total_small(bits: u32)
    requires
        bits <= 15,
    ensures
        1 <= pow2(bits as nat) <= 0x8000,
{
    lemma2_to64();
    lemma_pow2_pos(bits as nat);
    if bits < 15 {
        lemma_pow2_strictly_increases(bits as nat, 15);
    }
}

proof fn lemma_slot_in_range(code: int, shift: nat, rest: nat)
    requires
        0 <= code < pow2(shift + rest),
    ensures
        0 <= code / (pow2(shift) as int) < pow2(rest),
{
    lemma_pow2_adds(shift, rest);
    lemma_pow2_pos(shift);
    lemma_pow2_pos(rest);
    lemma_multiply_divide_lt(code, pow2(shift) as int, pow2(rest) as int);
    lemma_div_pos_is_pos(code, pow2(shift) as int);
}

} // verus!
