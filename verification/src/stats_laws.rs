//! What the rolling statistics measure: trades land in the second and on the side where they happened,
//! the flow is what takers bought more than they sold, and spreads are counted once a second.

use vstd::prelude::*;
use vstd::arithmetic::div_mod::lemma_fundamental_div_mod;
use vstd::set_lib::{lemma_int_range, lemma_len_subset, lemma_map_size_bound, set_int_range};
use crate::order::{before, is_nth_smallest, is_stable_order, lemma_order_covers};
use crate::stats::{add_trade, bought, bucket_of, empty_bucket, pairs_of, sold, spread_keys, spread_sum, traded, MidPair, Sample, SecBucket, SymbolStats};
use crate::types::{Bbo, Side, Trade};
use crate::units::{abs_int, div_round, law_rounds_to_nearest, lemma_div_round_exact, ONE};
use crate::value_laws::{lemma_total_last, total};

verus! {

// ------------------------------------------------------------------------------
// Trades
// ------------------------------------------------------------------------------

/// The second in which something happened.
pub open spec fn second_of(ms: int) -> int {
    crate::units::trunc_div(ms, 1000)
}

/// The value of a trade with eight digits, to the nearest.
pub open spec fn is_value(v: int, t: Trade) -> bool {
    2 * abs_int(v * ONE - t.price * t.qty) <= ONE
}

/// Seconds closer together than there are slots do not share one.
proof fn lemma_slots(a: int, b: int, n: int)
    requires
        n > 0,
        -n < a - b < n,
        a % n == b % n,
    ensures
        a == b,
{
    lemma_fundamental_div_mod(a, n);
    lemma_fundamental_div_mod(b, n);
    let (x, y) = (a / n, b / n);
    assert(x == y) by (nonlinear_arith)
        requires
            -n < n * x - n * y < n,
            n > 0,
    ;
}

proof fn lemma_in_slot(b: Seq<SecBucket>, c: Seq<SecBucket>, s: int, x: SecBucket, k: int)
    requires
        b.len() > 0,
        c == b.update(s % (b.len() as int), x),
        x.sec == s,
        -(b.len() as int) < k - s < b.len(),
    ensures
        k == s ==> bucket_of(c, k) == x,
        k != s ==> bucket_of(c, k) == bucket_of(b, k),
{
    let n = b.len() as int;
    if k % n == s % n {
        lemma_slots(k, s, n);
    }
}

/// What one more trade adds to the seconds from `lo` on.
proof fn lemma_added(b: Seq<SecBucket>, c: Seq<SecBucket>, s: int, x: SecBucket, lo: int, n: nat)
    requires
        b.len() > 0,
        c == b.update(s % (b.len() as int), x),
        x.sec == s,
        lo <= s,
        s - lo < b.len(),
        n <= b.len(),
    ensures
        bought(c, lo, n) == bought(b, lo, n) + if s < lo + n { x.buy_notional - bucket_of(b, s).buy_notional } else { 0 },
        sold(c, lo, n) == sold(b, lo, n) + if s < lo + n { x.sell_notional - bucket_of(b, s).sell_notional } else { 0 },
        traded(c, lo, n) == traded(b, lo, n) + if s < lo + n { x.trades - bucket_of(b, s).trades } else { 0 },
    decreases n,
{
    if n > 0 {
        lemma_added(b, c, s, x, lo, (n - 1) as nat);
        lemma_in_slot(b, c, s, x, lo + n - 1);
    }
}

/// A trade is counted once, in its second: in every window of the kept seconds that holds it there is one
/// trade more, and its value more was bought if the taker bought, or sold if the taker sold.
pub proof fn law_trade_counted(a: SymbolStats, b: SymbolStats, t: Trade, now_ms: i64, lo: int, n: nat)
    requires
        b.after_trade(&a, t, now_ms),
        a.wf(),
        n <= a.buckets@.len(),
        lo <= second_of(t.ts as int) < lo + n,
        ({
            let x = bucket_of(a.buckets@, second_of(t.ts as int));
            &&& x.trades < u32::MAX
            &&& i64::MIN / 4 < x.buy_notional < i64::MAX / 4
            &&& i64::MIN / 4 < x.sell_notional < i64::MAX / 4
        }),
        -(i64::MAX / 4) * ONE < t.price * t.qty < (i64::MAX / 4) * ONE,
    ensures
        traded(b.buckets@, lo, n) == traded(a.buckets@, lo, n) + 1,
        t.taker_side == Side::Buy ==> sold(b.buckets@, lo, n) == sold(a.buckets@, lo, n) && is_value(
            bought(b.buckets@, lo, n) - bought(a.buckets@, lo, n),
            t,
        ),
        t.taker_side == Side::Sell ==> bought(b.buckets@, lo, n) == bought(a.buckets@, lo, n) && is_value(
            sold(b.buckets@, lo, n) - sold(a.buckets@, lo, n),
            t,
        ),
        b.last_trade_ts == now_ms,
{
    let s = second_of(t.ts as int);
    let x = add_trade(bucket_of(a.buckets@, s), t);
    assert(i64::MIN <= s <= i64::MAX);
    assert(x.sec == s);
    lemma_added(a.buckets@, b.buckets@, s, x, lo, n);
    let v = div_round(t.price * t.qty, ONE as int);
    law_rounds_to_nearest(t.price * t.qty, ONE as int);
    assert(-(i64::MAX / 4) <= v <= i64::MAX / 4);
}

/// Where nothing has been seen nothing was traded, in whatever window after the first second.
pub proof fn law_nothing_traded_yet(st: SymbolStats, window_secs: u32, lo: int, n: nat)
    requires
        st.is_fresh(window_secs),
    ensures
        bought(st.buckets@, lo, n) == 0,
        sold(st.buckets@, lo, n) == 0,
        traded(st.buckets@, lo, n) == 0,
    decreases n,
{
    if n > 0 {
        law_nothing_traded_yet(st, window_secs, lo, (n - 1) as nat);
        let s = lo + n - 1;
        let len = st.buckets@.len() as int;
        assert(0 <= s % len < len) by (nonlinear_arith)
            requires
                len > 0,
        ;
        assert(st.buckets@[s % len] == empty_bucket(0));
    }
}

/// A window is the sum of its parts.
pub proof fn law_windows_add_up(b: Seq<SecBucket>, lo: int, m: nat, n: nat)
    ensures
        bought(b, lo, m + n) == bought(b, lo, m) + bought(b, lo + m, n),
        sold(b, lo, m + n) == sold(b, lo, m) + sold(b, lo + m, n),
        traded(b, lo, m + n) == traded(b, lo, m) + traded(b, lo + m, n),
    decreases n,
{
    if n > 0 {
        law_windows_add_up(b, lo, m, (n - 1) as nat);
    }
}

/// The flow is what takers bought more than they sold over the last so many seconds, the present one
/// included, as a share of both, to the nearest last digit: positive for net buying, negative for net
/// selling, one where nothing was sold.
pub proof fn law_flow_value(st: SymbolStats, now_ms: int, secs: nat)
    requires
        st.buckets@.len() > 0,
        forall|i: int| 0 <= i < st.buckets@.len() ==> (#[trigger] st.buckets@[i]).buy_notional >= 0 && st.buckets@[i].sell_notional >= 0,
    ensures
        ({
            let lo = second_of(now_ms) - secs + 1;
            let buy = bought(st.buckets@, lo, secs);
            let sell = sold(st.buckets@, lo, secs);
            let f = st.spec_flow_imbalance(now_ms, secs);
            &&& -ONE <= f <= ONE
            &&& buy >= 0 && sell >= 0
            &&& buy + sell == 0 ==> f == 0
            &&& buy + sell > 0 ==> 2 * abs_int(f * (buy + sell) - (buy - sell) * ONE) <= buy + sell
            &&& buy >= sell ==> f >= 0
            &&& buy <= sell ==> f <= 0
            &&& buy > 0 && sell == 0 ==> f == ONE
            &&& sell > 0 && buy == 0 ==> f == -ONE
        }),
{
    let lo = second_of(now_ms) - secs + 1;
    let buy = bought(st.buckets@, lo, secs);
    let sell = sold(st.buckets@, lo, secs);
    crate::stats::law_flow_in_unit(st.buckets@, second_of(now_ms), secs);
    lemma_sums_positive(st.buckets@, lo, secs);
    if buy + sell > 0 {
        crate::types::lemma_ratio_unit(buy, sell);
        law_rounds_to_nearest((buy - sell) * ONE, buy + sell);
        lemma_div_round_exact(ONE as int, buy + sell);
        lemma_div_round_exact(-ONE, buy + sell);
        assert(ONE * (buy + sell) == (buy + sell) * ONE && (-ONE) * (buy + sell) == -(buy + sell) * ONE) by (nonlinear_arith);
    }
}

proof fn lemma_sums_positive(b: Seq<SecBucket>, lo: int, n: nat)
    requires
        b.len() > 0,
        forall|i: int| 0 <= i < b.len() ==> (#[trigger] b[i]).buy_notional >= 0 && b[i].sell_notional >= 0,
    ensures
        bought(b, lo, n) >= 0,
        sold(b, lo, n) >= 0,
    decreases n,
{
    if n > 0 {
        lemma_sums_positive(b, lo, (n - 1) as nat);
        let s = lo + n - 1;
        let len = b.len() as int;
        assert(0 <= s % len < len) by (nonlinear_arith)
            requires
                len > 0,
        ;
        assert(b[s % len].buy_notional >= 0);
    }
}

// ------------------------------------------------------------------------------
// Spreads
// ------------------------------------------------------------------------------

/// The first top of book of a second is sampled and no other: its spread and its mid stand at the end of
/// the samples, and of more samples than the window holds the oldest goes.
pub proof fn law_one_sample_per_second(a: SymbolStats, b: SymbolStats, bbo: Bbo, now_ms: i64)
    requires
        b.after_bbo(&a, bbo, now_ms),
        a.wf(),
    ensures
        b.last_bbo == Some(bbo),
        b.last_bbo_ts == now_ms,
        b.last_sample_sec == second_of(now_ms as int),
        second_of(now_ms as int) == a.last_sample_sec ==> b.samples@ == a.samples@,
        second_of(now_ms as int) != a.last_sample_sec ==> {
            &&& b.samples@.len() > 0
            &&& b.samples@.last().sec == second_of(now_ms as int)
            &&& b.samples@.last().spread_bps == bbo.spec_spread_bps()
            &&& b.samples@.last().mid == bbo.spec_mid()
            &&& a.samples@.len() < a.window ==> b.samples@.drop_last() == a.samples@
            &&& a.samples@.len() == a.window ==> b.samples@.drop_last() == a.samples@.skip(1)
        },
        b.buckets@ == a.buckets@,
{
    if second_of(now_ms as int) != a.last_sample_sec {
        let x = Sample { sec: second_of(now_ms as int) as i64, spread_bps: bbo.spec_spread_bps() as i64, mid: bbo.spec_mid() as i64 };
        let t = a.samples@.push(x);
        if t.len() > a.window {
            assert(t.subrange(1, t.len() as int).drop_last() =~= a.samples@.skip(1));
        } else {
            assert(t.drop_last() =~= a.samples@);
        }
    }
}

/// The places where the key is less, and where it is more.
pub open spec fn places_below(keys: Seq<i128>, r: int) -> Set<int> {
    Set::new(|i: int| 0 <= i < keys.len() && keys[i] < r)
}

pub open spec fn places_above(keys: Seq<i128>, r: int) -> Set<int> {
    Set::new(|i: int| 0 <= i < keys.len() && keys[i] > r)
}

/// The item at place `k` in ascending order has no more than `k` items below it and no more above it than
/// come after.
pub proof fn law_nth_smallest(keys: Seq<i128>, k: int, r: int)
    requires
        is_nth_smallest(keys, k, r),
    ensures
        exists|i: int| 0 <= i < keys.len() && #[trigger] keys[i] == r,
        places_below(keys, r).finite(),
        places_below(keys, r).len() <= k,
        places_above(keys, r).finite(),
        places_above(keys, r).len() <= keys.len() - 1 - k,
{
    let p = choose|p: Seq<usize>| #[trigger] is_stable_order(keys, p) && 0 <= k < p.len() && r == keys[p[k] as int];
    let n = keys.len() as int;
    assert(keys[p[k] as int] == r);
    let f = |j: int| p[j] as int;
    lemma_int_range(0, k);
    lemma_int_range(k + 1, n);
    let (lo, hi) = (set_int_range(0, k).map(f), set_int_range(k + 1, n).map(f));
    lemma_map_size_bound(set_int_range(0, k), lo, f);
    lemma_map_size_bound(set_int_range(k + 1, n), hi, f);
    assert forall|i: int| #[trigger] places_below(keys, r).contains(i) implies lo.contains(i) by {
        lemma_order_covers(keys, p, i as usize);
        let j = choose|j: int| 0 <= j < p.len() && p[j] == i as usize;
        if j > k {
            assert(before(keys, p[k] as int, p[j] as int));
        }
        assert(set_int_range(0, k).contains(j) && f(j) == i);
    }
    assert forall|i: int| #[trigger] places_above(keys, r).contains(i) implies hi.contains(i) by {
        lemma_order_covers(keys, p, i as usize);
        let j = choose|j: int| 0 <= j < p.len() && p[j] == i as usize;
        if j < k {
            assert(before(keys, p[j] as int, p[k] as int));
        }
        assert(set_int_range(k + 1, n).contains(j) && f(j) == i);
    }
    lemma_len_subset(places_below(keys, r), lo);
    lemma_len_subset(places_above(keys, r), hi);
}

/// The spreads of the samples.
pub open spec fn spreads(w: Seq<Sample>) -> Seq<int> {
    Seq::new(w.len(), |i: int| w[i].spread_bps as int)
}

proof fn lemma_spread_sum(w: Seq<Sample>)
    ensures
        spread_sum(w) == total(spreads(w)),
    decreases w.len(),
{
    if w.len() > 0 {
        lemma_spread_sum(w.drop_last());
        lemma_total_last(spreads(w));
        assert(spreads(w).drop_last() =~= spreads(w.drop_last()));
    }
}

/// The figures of a window: half of its samples, at most, have a spread below the median and half, at
/// most, above it; the mean is their sum over their number; trades per minute are those of the last
/// minute, or of the window where that is shorter, times what it takes to a minute. An empty window has
/// no spread.
pub proof fn law_figures_of_a_window(a: SymbolStats, b: SymbolStats, now_ms: i64, vol_bps: i64)
    requires
        b.after_refresh(&a, now_ms, vol_bps),
        a.wf(),
    ensures
        ({
            let w = a.in_window(now_ms as int);
            let n = w.len() as int;
            let secs = if a.window < 60 { a.window as int } else { 60 };
            let count = traded(a.buckets@, second_of(now_ms as int) - secs + 1, secs as nat);
            &&& n == 0 ==> b.spread_med_bps == 0 && b.spread_mean_bps == 0 && b.vol_bps == 0
            &&& n > 0 ==> {
                &&& 2 * places_below(spread_keys(w), b.spread_med_bps as int).len() <= n
                &&& 2 * places_above(spread_keys(w), b.spread_med_bps as int).len() <= n
                &&& i64::MIN < b.spread_mean_bps < i64::MAX ==> 2 * abs_int(b.spread_mean_bps * n - total(spreads(w))) <= n
                &&& b.vol_bps == vol_bps || b.vol_bps == 0
            }
            &&& count >= 0 && b.trades_per_min < i64::MAX ==> 2 * abs_int(b.trades_per_min * secs - count * 60 * ONE) <= secs
            &&& b.samples@ == a.samples@ && b.buckets@ == a.buckets@ && b.last_bbo_ts == a.last_bbo_ts
        }),
{
    let w = a.in_window(now_ms as int);
    let n = w.len() as int;
    let secs = if a.window < 60 { a.window as int } else { 60 };
    let count = traded(a.buckets@, second_of(now_ms as int) - secs + 1, secs as nat);
    if n > 0 {
        law_nth_smallest(spread_keys(w), n / 2, b.spread_med_bps as int);
        lemma_spread_sum(w);
        law_rounds_to_nearest(spread_sum(w), n);
    }
    law_rounds_to_nearest(count * 60 * ONE, secs);
}

/// The window holds the samples of the last so many seconds, in their order, and no other.
pub proof fn law_window_is_recent(st: SymbolStats, now_ms: int, i: int)
    ensures
        0 <= i < st.samples@.len() && st.samples@[i].sec >= second_of(now_ms) - st.window ==> st.in_window(now_ms).contains(st.samples@[i]),
        0 <= i < st.in_window(now_ms).len() ==> st.in_window(now_ms)[i].sec >= second_of(now_ms) - st.window && st.samples@.contains(
            st.in_window(now_ms)[i],
        ),
{
    crate::stats::law_recent(st.samples@, second_of(now_ms) - st.window);
}

/// Returns are taken between neighbours in time, where both mids are there and time moved on.
pub proof fn law_pairs_are_neighbours(s: Seq<Sample>, p: Seq<usize>, n: nat, x: MidPair)
    requires
        pairs_of(s, p, n).contains(x),
        n < p.len(),
        forall|i: int| 0 <= i < p.len() ==> #[trigger] p[i] < s.len(),
    ensures
        x.from > 0,
        x.to > 0,
        x.dt > 0,
        exists|k: int|
            0 <= k < n && s[#[trigger] p[k] as int].mid == x.from && s[p[k + 1] as int].mid == x.to && (x.dt < i64::MAX ==> x.dt == s[p[k + 1] as int].sec
                - s[p[k] as int].sec),
    decreases n,
{
    if n > 0 {
        let a = s[p[n - 1] as int];
        let b = s[p[n as int] as int];
        let r = pairs_of(s, p, (n - 1) as nat);
        let i = choose|i: int| 0 <= i < pairs_of(s, p, n).len() && pairs_of(s, p, n)[i] == x;
        if i < r.len() {
            assert(r[i] == x);
            law_pairs_are_neighbours(s, p, (n - 1) as nat, x);
        } else {
            assert(s[p[n - 1] as int].mid == x.from && s[p[n - 1 + 1] as int].mid == x.to);
        }
    }
}

} // verus!
