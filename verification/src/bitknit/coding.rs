//! What the parts of a coded quantum stand for: what a coder puts in is what comes out.
use crate::bitknit::cdf::{
    initial_model, is_symbol, law_observe_keeps_valid, law_symbol_is_unique, lemma_accum_bound,
    lemma_total_small, ModelState,
};
use crate::bitknit::lru::{moved_to_front, with_recent};
use crate::bitknit::model::{
    initial_decoder, literal, match_distance, match_length, quantum, quantum_start, start_lanes,
    step, take_bits, take_symbol, DecoderState, Lanes, Progress,
};
use crate::bitknit::rans::{refilled, state_symbol, symbol_removed};
use crate::lz::{copied, law_copied_repeats, lemma_copied_len};
use crate::sums::{lemma_prefix_update, prefix_sum};
use vstd::arithmetic::div_mod::*;
use vstd::arithmetic::mul::*;
use vstd::arithmetic::power2::*;
use vstd::prelude::*;

verus! {

// ---------------------------------------------------------------------------
// rANS states
// ---------------------------------------------------------------------------
/// The number of codes that symbol `s` owns.
pub open spec fn share(m: ModelState, s: int) -> int {
    m.sums[s + 1] - m.sums[s]
}

/// The state that holds symbol `s` on top of the state `x`.
pub open spec fn with_symbol(x: int, m: ModelState, s: int) -> int {
    (x / share(m, s)) * pow2(m.bits) + m.sums[s] + x % share(m, s)
}

/// A symbol put on a state comes off it again and leaves the state as it was.
pub proof fn law_symbols_are_read_back(x: u32, m: ModelState, s: int)
    requires
        m.valid(),
        0 <= s < m.accum.len(),
        with_symbol(x as int, m, s) <= u32::MAX,
    ensures
        ({
            let state = with_symbol(x as int, m, s) as u32;
            &&& state_symbol(state, m.sums, m.bits) == s
            &&& symbol_removed(state, m.sums, m.bits) == x
        }),
{
    let f = share(m, s);
    let t = pow2(m.bits) as int;
    let q = x as int / f;
    let r = x as int % f;
    assert(m.sums[s] < m.sums[s + 1]);
    lemma_pow2_pos(m.bits);
    lemma_fundamental_div_mod(x as int, f);
    lemma_mod_bound(x as int, f);
    lemma_div_pos_is_pos(x as int, f);
    let code = m.sums[s] + r;
    assert(m.sums[s + 1] <= t) by {
        if s + 1 < m.sums.len() - 1 {
            assert(m.sums[s + 1] < m.sums[m.sums.len() - 1]);
        }
    }
    assert(q * t >= 0) by (nonlinear_arith)
        requires
            q >= 0,
            t >= 0,
    ;
    let state = q * t + code;
    lemma_fundamental_div_mod_converse(state, t, q, code);
    assert(is_symbol(m.sums, code, s));
    law_symbol_is_unique(m.sums, t, code, s);
    assert(q * f == f * q) by (nonlinear_arith);
}

/// Raw bits put on a state come off it again, and what is left is the state before them.
pub proof fn law_raw_bits_are_read_back(
    x: u32,
    v: u32,
    n: nat,
    other: u32,
    stream: Seq<u16>,
    pos: int,
)
    requires
        v < pow2(n),
        x * pow2(n) + v <= u32::MAX,
    ensures
        ({
            let l = Lanes { first: (x * pow2(n) + v) as u32, second: other, pos };
            let (bits, next) = take_bits(l, stream, n);
            &&& bits == v
            &&& next.first == other
            &&& (next.second, next.pos) == refilled(x, stream, pos)
        }),
{
    lemma_pow2_pos(n);
    assert(x * pow2(n) >= 0) by (nonlinear_arith);
    lemma_fundamental_div_mod_converse(x * pow2(n) + v, pow2(n) as int, x as int, v as int);
}

/// A state of at least sixteen bits is left alone, and so is any state once the words are used
/// up. Otherwise the next word comes in below it.
pub proof fn law_refills(x: u32, stream: Seq<u16>, pos: int)
    requires
        0 <= pos,
    ensures
        x >= 65536 || pos >= stream.len() ==> refilled(x, stream, pos) == (x, pos),
        x < 65536 && pos < stream.len() ==> {
            let (y, next) = refilled(x, stream, pos);
            &&& y / 65536 == x
            &&& y % 65536 == stream[pos]
            &&& next == pos + 1
        },
{
}

/// The two states take turns, with symbols as with raw bits.
pub proof fn law_states_take_turns(l: Lanes, stream: Seq<u16>, m: ModelState, n: nat)
    ensures
        take_bits(l, stream, n).1.first == l.second,
        take_symbol(l, stream, m).1.first == l.second,
        take_symbol(l, stream, m).0 == state_symbol(l.first, m.sums, m.bits),
        (take_symbol(l, stream, m).1.second, take_symbol(l, stream, m).1.pos) == refilled(
            symbol_removed(l.first, m.sums, m.bits),
            stream,
            l.pos,
        ),
{
}

/// The word at `pos`, or zero behind the last one.
pub open spec fn word_or_zero(stream: Seq<u16>, pos: int) -> int {
    if pos < stream.len() {
        stream[pos] as int
    } else {
        0
    }
}

/// How a quantum opens: two words, high one first, end in a four-bit number `k`. What stands
/// above it, filled up with a word where it is short, is the first state above `k` bits of the
/// second one. The first state is filled up in turn. The second state is a one, those `k` bits,
/// and the next word.
pub proof fn law_quantum_opening(a: u32, b: u32, k: nat, stream: Seq<u16>, pos: int)
    requires
        0 <= pos,
        b < pow2(k),
        k == word_or_zero(stream, pos + 1) % 16,
        ({
            let next = pos + 1 + if pos + 1 < stream.len() {
                1int
            } else {
                0
            };
            let two = word_or_zero(stream, pos) * 65536 + word_or_zero(stream, pos + 1);
            &&& pos < stream.len()
            &&& refilled((two / 16) as u32, stream, next).0 == a * pow2(k) + b
        }),
    ensures
        ({
            let next = pos + 1 + if pos + 1 < stream.len() {
                1int
            } else {
                0
            };
            let two = word_or_zero(stream, pos) * 65536 + word_or_zero(stream, pos + 1);
            let (m, p) = refilled((two / 16) as u32, stream, next);
            let (first, q) = refilled(a, stream, p);
            let l = start_lanes(stream, pos);
            &&& l.first == first
            &&& l.second == (pow2(k) + b) * 65536 + word_or_zero(stream, q)
            &&& l.pos == q + if q < stream.len() {
                1int
            } else {
                0
            }
        }),
{
    let next = pos + 1 + if pos + 1 < stream.len() {
        1int
    } else {
        0
    };
    let two = word_or_zero(stream, pos) * 65536 + word_or_zero(stream, pos + 1);
    let (m, p) = refilled((two / 16) as u32, stream, next);
    let (first, q) = refilled(a, stream, p);
    let w = word_or_zero(stream, q);
    lemma_pow2_pos(k);
    lemma2_to64();
    lemma_pow2_adds(16, k);
    if k < 15 {
        lemma_pow2_strictly_increases(k, 15);
    }
    assert(two % 16 == k);
    lemma_fundamental_div_mod_converse(m as int, pow2(k) as int, a as int, b as int);
    let top = pow2(16 + k) as int;
    assert(m * 65536 + w == a * top + (b * 65536 + w)) by (nonlinear_arith)
        requires
            m == a * pow2(k) + b,
            top == 65536 * pow2(k),
    ;
    assert(b * 65536 + w < top) by (nonlinear_arith)
        requires
            b + 1 <= pow2(k),
            w < 65536,
            top == 65536 * pow2(k),
    ;
    lemma_fundamental_div_mod_converse(m * 65536 + w, top, a as int, b * 65536 + w);
}

// ---------------------------------------------------------------------------
// Commands
// ---------------------------------------------------------------------------
/// The first match command stands for a length of two, and each command up to 287 for one more
/// than the command before it; none of these takes any bits.
pub proof fn law_short_match_lengths(command: int, l: Lanes, stream: Seq<u16>)
    requires
        256 <= command <= 287,
    ensures
        match_length(256, l, stream) == (2nat, l),
        match_length(command, l, stream).1 == l,
        command > 256 ==> match_length(command, l, stream).0 == match_length(
            command - 1,
            l,
            stream,
        ).0 + 1,
{
}

/// Command 288 takes one bit, and each command after it one bit more. Its shortest length follows
/// the longest one of the command before it, and each step of the bits adds one.
pub proof fn law_long_match_lengths(command: int, l: Lanes, before: Lanes, stream: Seq<u16>)
    requires
        288 <= command < 300,
    ensures
        ({
            let n = (command - 287) as nat;
            let bits = l.first as nat % pow2(n);
            let (length, next) = match_length(command, l, stream);
            &&& next == take_bits(l, stream, n).1
            &&& before.first as nat % pow2((n - 1) as nat) == pow2((n - 1) as nat) - 1 ==> length
                == match_length(command - 1, before, stream).0 + 1 + bits
        }),
{
    let n = (command - 287) as nat;
    lemma_pow2_unfold(n);
    lemma_pow2_pos(n);
    lemma_pow2_strictly_increases(n, 13);
    lemma2_to64();
    lemma_mod_bound(l.first as int, pow2(n) as int);
    lemma_mod_bound(before.first as int, pow2((n - 1) as nat) as int);
    if n > 1 {
        lemma_pow2_strictly_increases((n - 1) as nat, 13);
    }
}

/// A distance reference below eight names a recent distance, which moves to the front. Any other
/// one starts a fresh distance: the groups of thirty-two distances are numbered from one on, the
/// group number is a one followed by as many bits as the length symbol says, and the reference
/// gives the place in the group.
pub proof fn law_match_distances(d: DecoderState, slot: int, l: Lanes, stream: Seq<u16>)
    requires
        0 <= slot < d.cache_refs.len(),
        d.recent.len() == 8,
        ({
            let (r, l1) = take_symbol(l, stream, d.cache_refs[slot]);
            &&& 0 <= r < 40
            &&& 0 <= take_symbol(l1, stream, d.offsets).0 <= 20
        }),
    ensures
        ({
            let (r, l1) = take_symbol(l, stream, d.cache_refs[slot]);
            let (length, l2) = take_symbol(l1, stream, d.offsets);
            let (dist, d1, next) = match_distance(d, slot, l, stream);
            &&& d1.commands == d.commands
            &&& d1.cache_refs == d.cache_refs.update(slot, d.cache_refs[slot].observe(r))
            &&& r < 8 ==> {
                &&& dist == d.recent[r]
                &&& next == l1
                &&& d1.offsets == d.offsets
                &&& d1.recent == seq![dist] + d.recent.remove(r)
            }
            &&& r >= 8 ==> {
                &&& dist >= 1
                &&& (dist - 1) % 32 == r - 8
                &&& d1.offsets == d.offsets.observe(length)
                &&& d1.recent == d.recent.take(6) + seq![dist, d.recent[6]]
                &&& length < 16 ==> {
                    let (bits, l3) = take_bits(l2, stream, length as nat);
                    &&& (dist - 1) / 32 + 1 == pow2(length as nat) + bits
                    &&& next == l3
                }
                &&& length >= 16 ==> {
                    let (high, l3) = take_bits(l2, stream, (length - 16) as nat);
                    &&& (dist - 1) / 32 + 1 == pow2(length as nat) + 65536 * high + word_or_zero(
                        stream,
                        l3.pos,
                    )
                    &&& next.first == l3.first
                    &&& next.second == l3.second
                    &&& next.pos == if l3.pos < stream.len() {
                        l3.pos + 1
                    } else {
                        l3.pos
                    }
                }
            }
        }),
{
    let (r, l1) = take_symbol(l, stream, d.cache_refs[slot]);
    let (length, l2) = take_symbol(l1, stream, d.offsets);
    if r < 8 {
        law_recent_distance_moves(d.recent, r);
    } else {
        let n = (length % 16) as nat;
        lemma_pow2_pos(n);
        lemma_mod_bound(l2.first as int, pow2(n) as int);
        lemma2_to64();
        lemma_pow2_strictly_increases(n, 16);
        lemma_pow2_strictly_increases(length as nat, 21);
        if length >= 16 {
            lemma_pow2_adds(16, n);
            assert(n < 5);
            lemma_pow2_strictly_increases(n, 5);
        }
        law_fresh_distance_enters(d.recent, match_distance(d, slot, l, stream).0);
    }
}

/// A recent distance that is used again moves to the front; the others keep their order.
pub proof fn law_recent_distance_moves(s: Seq<u32>, i: int)
    requires
        0 <= i < s.len(),
    ensures
        moved_to_front(s, i) == seq![s[i]] + s.remove(i),
{
    assert(moved_to_front(s, i) =~= seq![s[i]] + s.remove(i));
}

/// A fresh distance enters at the last place but one; the last distance is dropped.
pub proof fn law_fresh_distance_enters(s: Seq<u32>, v: u32)
    requires
        s.len() == 8,
    ensures
        with_recent(s, v) == s.take(6) + seq![v, s[6]],
{
    assert(with_recent(s, v) =~= s.take(6) + seq![v, s[6]]);
}

/// A literal adds the byte that lies as far above the byte at the current distance as the command
/// says, counted round at 256; where the output does not reach back that far, from zero.
pub proof fn law_literals(out: Seq<u8>, delta: nat, b: u8)
    requires
        1 <= delta,
    ensures
        out.len() >= delta ==> literal(out, delta, (b - out[out.len() - delta]) % 256) == out.push(
            b,
        ),
        out.len() < delta ==> literal(out, delta, b as int) == out.push(b),
{
}

/// A command is read with the model of its place, counted round at four, and only that model
/// takes note of it. A literal leaves the distances alone and adds one byte; a match adds bytes
/// that repeat the output at its distance, by its length or up to the end, and the distance stays
/// in force.
pub proof fn law_commands(p: Progress, stream: Seq<u16>, cap: nat)
    requires
        p.out.len() < cap,
        p.decoder.commands.len() == 4,
        p.decoder.cache_refs.len() == 4,
    ensures
        ({
            let place = p.out.len() as int % 4;
            let q = step(p, stream, cap);
            let (command, l1) = take_symbol(p.lanes, stream, p.decoder.commands[place]);
            &&& q.decoder.commands == p.decoder.commands.update(
                place,
                p.decoder.commands[place].observe(command),
            )
            &&& command < 256 ==> {
                &&& q.lanes == l1
                &&& q.out == literal(p.out, p.decoder.delta, command)
                &&& q.out.len() == p.out.len() + 1
                &&& q.decoder.delta == p.decoder.delta
                &&& q.decoder.recent == p.decoder.recent
                &&& q.decoder.cache_refs == p.decoder.cache_refs
                &&& q.decoder.offsets == p.decoder.offsets
            }
            &&& command >= 256 ==> {
                let (n, l2) = match_length(command, l1, stream);
                let (dist, d, l3) = match_distance(p.decoder, place, l2, stream);
                &&& q.lanes == l3
                &&& q.decoder.delta == dist
                &&& q.decoder.recent == d.recent
                &&& q.decoder.offsets == d.offsets
                &&& q.decoder.cache_refs == d.cache_refs
                &&& q.out.len() == if p.out.len() + n < cap {
                    p.out.len() + n
                } else {
                    cap
                }
                &&& q.out.take(p.out.len() as int) == p.out
                &&& dist >= 1 ==> forall|i: int|
                    p.out.len() <= i < q.out.len() ==> (#[trigger] q.out[i]) == if dist <= i {
                        q.out[i - dist]
                    } else {
                        0u8
                    }
            }
        }),
{
    let place = p.out.len() as int % 4;
    let (command, l1) = take_symbol(p.lanes, stream, p.decoder.commands[place]);
    if command >= 256 {
        let (n, l2) = match_length(command, l1, stream);
        let (dist, d, l3) = match_distance(p.decoder, place, l2, stream);
        lemma_copied_len(p.out, dist as nat, n, cap);
        if dist >= 1 {
            law_copied_repeats(p.out, dist as nat, n, cap);
        } else {
            lemma_copied_keeps_start(p.out, dist as nat, n, cap);
        }
    }
}

proof fn lemma_copied_keeps_start(out: Seq<u8>, dist: nat, n: nat, cap: nat)
    ensures
        copied(out, dist, n, cap).len() >= out.len(),
        copied(out, dist, n, cap).take(out.len() as int) == out,
    decreases n,
{
    let all = copied(out, dist, n, cap);
    lemma_copied_len(out, dist, n, cap);
    if n > 0 && out.len() < cap {
        let byte = if dist <= out.len() {
            out[out.len() - dist]
        } else {
            0u8
        };
        lemma_copied_keeps_start(out.push(byte), dist, (n - 1) as nat, cap);
        assert forall|i: int| 0 <= i < out.len() implies all[i] == out[i] by {
            assert(all.take(out.len() as int + 1)[i] == all[i]);
        }
    }
    assert(all.take(out.len() as int) =~= out);
}

/// The very first byte of the output stands in the low eight bits of the first state; a quantum
/// further on starts with a command. A coded quantum is intact exactly where one of its states
/// has come back to where coding starts.
pub proof fn law_coded_quantums(
    d: DecoderState,
    out: Seq<u8>,
    pos: int,
    stream: Seq<u16>,
    cap: nat,
)
    requires
        0 <= pos < stream.len(),
        stream[pos] != 0,
    ensures
        ({
            let p = quantum_start(d, out, pos, stream);
            let l = start_lanes(stream, pos);
            let (q, intact) = quantum(d, out, pos, stream, cap);
            &&& p.decoder == d
            &&& out.len() > 0 ==> p.out == out && p.lanes == l
            &&& out.len() == 0 ==> p.out.len() == 1 && p.out[0] == l.first % 256 && p.lanes
                == take_bits(l, stream, 8).1
            &&& intact <==> q.lanes.first == 65536 || q.lanes.second == 65536
        }),
{
    lemma2_to64();
}

// ---------------------------------------------------------------------------
// Models
// ---------------------------------------------------------------------------
/// How often a symbol below `i` occurs in `symbols`.
pub open spec fn below(symbols: Seq<int>, i: int) -> nat
    decreases symbols.len(),
{
    if symbols.len() == 0 {
        0
    } else {
        below(symbols.drop_last(), i) + if symbols.last() < i {
            1nat
        } else {
            0
        }
    }
}

/// The model after each of `symbols` in turn.
pub open spec fn observed(m: ModelState, symbols: Seq<int>) -> ModelState
    decreases symbols.len(),
{
    if symbols.len() == 0 {
        m
    } else {
        observed(m, symbols.drop_last()).observe(symbols.last())
    }
}

/// All of `symbols` are symbols of `m`.
pub open spec fn all_known(m: ModelState, symbols: Seq<int>) -> bool {
    forall|i: int| 0 <= i < symbols.len() ==> 0 <= #[trigger] symbols[i] < m.accum.len()
}

/// Nothing was observed since the table was built.
pub open spec fn fresh(m: ModelState) -> bool {
    &&& m.counter == 0
    &&& forall|i: int| 0 <= i < m.accum.len() ==> #[trigger] m.accum[i] == 1
}

proof fn lemma_ones(s: Seq<u16>, n: int)
    requires
        0 <= n <= s.len(),
        forall|i: int| 0 <= i < s.len() ==> #[trigger] s[i] == 1,
    ensures
        prefix_sum(s, n) == n,
    decreases n,
{
    if n > 0 {
        lemma_ones(s, n - 1);
    }
}

proof fn lemma_gathered(m: ModelState, symbols: Seq<int>, i: int)
    requires
        m.valid(),
        fresh(m),
        all_known(m, symbols),
        symbols.len() < m.interval,
        0 <= i <= m.accum.len(),
    ensures
        ({
            let o = observed(m, symbols);
            &&& o.valid()
            &&& o == (ModelState { accum: o.accum, counter: symbols.len(), ..m })
            &&& o.accum.len() == m.accum.len()
            &&& prefix_sum(o.accum, i) == i + m.incr * below(symbols, i)
        }),
    decreases symbols.len(),
{
    if symbols.len() == 0 {
        lemma_ones(m.accum, i);
        assert(m.incr * 0 == 0) by (nonlinear_arith);
    } else {
        let rest = symbols.drop_last();
        let s = symbols.last();
        assert(s == symbols[symbols.len() - 1]);
        assert forall|k: int| 0 <= k < rest.len() implies 0 <= #[trigger] rest[k]
            < m.accum.len() by {
            assert(rest[k] == symbols[k]);
        }
        lemma_gathered(m, rest, i);
        let o = observed(m, rest);
        lemma_accum_bound(o, s);
        law_observe_keeps_valid(o, s);
        lemma_prefix_update(o.accum, s, (o.accum[s] + o.incr) as u16, i);
        let b = below(rest, i);
        assert(m.incr * (b + 1) == m.incr * b + m.incr) by (nonlinear_arith);
    }
}

/// Between rebuilds a model keeps its table. With the observation that closes an interval, each
/// sum moves halfway, rounding down, to what the symbols of the interval ask for: one code for
/// each symbol below, one weight for each occurrence, and an extra weight for the last one.
pub proof fn law_models_adapt(m: ModelState, symbols: Seq<int>, i: int)
    requires
        m.valid(),
        fresh(m),
        all_known(m, symbols),
        symbols.len() <= m.interval,
        0 <= i <= m.accum.len(),
    ensures
        ({
            let o = observed(m, symbols);
            let asked = i + m.incr * below(symbols, i) + if symbols.len() > 0 && symbols.last()
                < i {
                m.last
            } else {
                0
            };
            &&& symbols.len() < m.interval ==> o.sums == m.sums
            &&& symbols.len() == m.interval ==> {
                &&& fresh(o)
                &&& o.sums.len() == m.sums.len()
                &&& o.sums[i] == (m.sums[i] + asked) / 2
            }
        }),
{
    if symbols.len() < m.interval {
        lemma_gathered(m, symbols, i);
    } else {
        let rest = symbols.drop_last();
        let s = symbols.last();
        assert(s == symbols[symbols.len() - 1]);
        assert forall|k: int| 0 <= k < rest.len() implies 0 <= #[trigger] rest[k]
            < m.accum.len() by {
            assert(rest[k] == symbols[k]);
        }
        lemma_gathered(m, rest, i);
        let o = observed(m, rest);
        let n = m.accum.len() as int;
        lemma_accum_bound(o, s);
        let seen = o.accum.update(s, (o.accum[s] + o.incr) as u16);
        lemma_prefix_update(o.accum, s, (o.accum[s] + o.incr) as u16, i);
        let closed = seen.update(s, (seen[s] + o.last) as u16);
        lemma_prefix_update(seen, s, (seen[s] + o.last) as u16, i);
        let b = below(rest, i);
        assert(m.incr * (b + 1) == m.incr * b + m.incr) by (nonlinear_arith);
        law_observe_keeps_valid(o, s);
        let all = o.observe(s);
        assert(all == observed(m, symbols));
        assert(all.sums[i] == ((m.sums[i] + prefix_sum(closed, i)) / 2) as u16);
        lemma_total_small(m.bits as u32);
        assert(closed =~= o.accum.update(s, (o.accum[s] + o.incr + o.last) as u16));
        lemma_closed_bound(o, s, closed, i);
        assert(m.sums[i] <= pow2(m.bits)) by {
            if i < n {
                assert(m.sums[i] < m.sums[n]);
            }
        }
    }
}

proof fn lemma_closed_bound(o: ModelState, s: int, closed: Seq<u16>, i: int)
    requires
        o.valid(),
        0 <= s < o.accum.len(),
        o.counter + 1 == o.interval,
        0 <= i <= o.accum.len(),
        closed == o.accum.update(s, (o.accum[s] + o.incr + o.last) as u16),
    ensures
        0 <= prefix_sum(closed, i) <= pow2(o.bits) + 1,
{
    lemma_accum_bound(o, s);
    let n = o.accum.len() as int;
    lemma_prefix_update(o.accum, s, (o.accum[s] + o.incr + o.last) as u16, n);
    assert((o.counter + 1) * o.incr == o.counter * o.incr + o.incr) by (nonlinear_arith);
    assert(o.interval * o.incr == o.incr * o.interval) by (nonlinear_arith);
    lemma_prefix_monotonic(closed, i, n);
}

proof fn lemma_prefix_monotonic(s: Seq<u16>, i: int, n: int)
    requires
        0 <= i <= n,
    ensures
        0 <= prefix_sum(s, i) <= prefix_sum(s, n),
    decreases n,
{
    if i < n {
        lemma_prefix_monotonic(s, i, n - 1);
    } else if i > 0 {
        lemma_prefix_monotonic(s, i - 1, i - 1);
    }
}

/// Before any observation the rare symbols at the end own one code each, and the others share
/// what is left of the codes evenly: any `k` of them in a row from the start own `k` shares,
/// rounded down.
pub proof fn law_first_tables(interval: nat, vocab: nat, rare: nat, bits: nat, k: int)
    requires
        bits <= 15,
        interval >= 1,
        rare < vocab <= pow2(bits),
        0 <= k <= vocab,
    ensures
        ({
            let m = initial_model(interval, vocab, rare, bits);
            let common = vocab - rare;
            &&& m.sums.len() == vocab + 1
            &&& fresh(m)
            &&& m.accum.len() == vocab
            &&& m.interval == interval
            &&& m.bits == bits
            &&& k <= common ==> m.sums[k] * common <= k * (pow2(bits) - rare) < (m.sums[k] + 1)
                * common
            &&& k >= common ==> pow2(bits) - m.sums[k] == vocab - k
            &&& interval * m.incr <= pow2(bits) - vocab < interval * (m.incr + 1)
            &&& interval * m.incr + m.last == pow2(bits) - vocab + 1
        }),
{
    let m = initial_model(interval, vocab, rare, bits);
    let common = vocab - rare;
    let total = pow2(bits) as int;
    lemma_total_small(bits as u32);
    lemma_fundamental_div_mod(total - vocab, interval as int);
    lemma_mod_bound(total - vocab, interval as int);
    lemma_div_pos_is_pos(total - vocab, interval as int);
    assert(interval * (m.incr + 1) == interval * m.incr + interval) by (nonlinear_arith);
    if k < common {
        let mass = total - rare;
        assert(mass * k == k * mass) by (nonlinear_arith);
        assert(mass * k >= 0) by (nonlinear_arith)
            requires
                mass >= 0,
                k >= 0,
        ;
        let q = mass * k / common;
        lemma_fundamental_div_mod(mass * k, common);
        lemma_mod_bound(mass * k, common);
        lemma_div_pos_is_pos(mass * k, common);
        assert(q <= mass) by (nonlinear_arith)
            requires
                common * q <= mass * k,
                k < common,
                mass >= 0,
                common > 0,
        ;
        assert(q * common == common * q) by (nonlinear_arith);
        assert((q + 1) * common == common * q + common) by (nonlinear_arith);
    } else if k == common {
        let mass = total - rare;
        assert(m.sums[k] == mass);
        assert((mass + 1) * common == mass * common + common) by (nonlinear_arith);
        assert(mass * common == common * mass) by (nonlinear_arith);
    }
}

/// A stream starts with four models for commands and four for distance references, one for
/// each place counted round at four, and one for distance lengths; all tables have 32768 codes
/// and are rebuilt after 1024 observations. The recent distances and the distance for literals
/// are all one.
pub proof fn law_stream_start()
    ensures
        ({
            let d = initial_decoder();
            &&& d.commands.len() == 4
            &&& d.cache_refs.len() == 4
            &&& forall|i: int|
                0 <= i < 4 ==> (#[trigger] d.commands[i]) == initial_model(1024, 300, 36, 15)
            &&& forall|i: int|
                0 <= i < 4 ==> (#[trigger] d.cache_refs[i]) == initial_model(1024, 40, 0, 15)
            &&& d.offsets == initial_model(1024, 21, 0, 15)
            &&& d.recent == seq![1u32, 1u32, 1u32, 1u32, 1u32, 1u32, 1u32, 1u32]
            &&& d.delta == 1
        }),
{
    assert(initial_decoder().recent =~= seq![1u32, 1u32, 1u32, 1u32, 1u32, 1u32, 1u32, 1u32]);
}

} // verus!
