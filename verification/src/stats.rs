//! Rolling per-symbol market statistics: spread median, short-term volatility,
//! trade rate and taker flow imbalance. All O(1) per event with per-second buckets.

use std::collections::VecDeque;
use vstd::prelude::*;
use crate::order::{is_nth_smallest, is_stable_order, stable_order};
use crate::types::{lemma_ratio_unit, Bbo, Side, Trade};
use crate::units::{clamp64, div_round, inc32, max_int, min_int, modulo, mul64, next32, quot, round_div, sat64, trunc_div, ONE, ONE128};

verus! {

/// One top-of-book observation; at most one is kept per second.
#[derive(Clone, Copy, Debug, PartialEq, Eq, Structural)]
pub struct Sample {
    pub sec: i64,
    pub spread_bps: i64,
    pub mid: i64,
}

/// What was traded during one second, by taker side.
#[derive(Clone, Copy, Debug, PartialEq, Eq, Structural)]
pub struct SecBucket {
    pub sec: i64,
    pub trades: u32,
    pub buy_notional: i64,
    pub sell_notional: i64,
}

/// Two consecutive mids of the window and the seconds between them.
#[derive(Clone, Copy, Debug, PartialEq, Eq, Structural)]
pub struct MidPair {
    pub dt: i64,
    pub from: i64,
    pub to: i64,
}

#[derive(Debug)]
pub struct SymbolStats {
    /// Number of one-second samples kept.
    pub window: usize,
    /// Oldest first.
    pub samples: VecDeque<Sample>,
    pub last_sample_sec: i64,
    pub buckets: Vec<SecBucket>,
    pub last_bbo: Option<Bbo>,
    pub last_bbo_ts: i64,
    pub last_trade_ts: i64,
    // cached derived values (refreshed by `refresh`)
    pub spread_med_bps: i64,
    pub spread_mean_bps: i64,
    pub vol_bps: i64,
    pub trades_per_min: i64,
    pub n_samples: usize,
}

/// `s` with `x` at its end, of which the last `w` items are kept.
pub open spec fn push_capped(s: Seq<Sample>, x: Sample, w: int) -> Seq<Sample> {
    let t = s.push(x);
    if t.len() > w {
        t.subrange(1, t.len() as int)
    } else {
        t
    }
}

pub open spec fn empty_bucket(sec: i64) -> SecBucket {
    SecBucket { sec, trades: 0, buy_notional: 0, sell_notional: 0 }
}

/// The bucket of second `s`: its slot if that still holds second `s`, otherwise nothing traded.
pub open spec fn bucket_of(b: Seq<SecBucket>, s: int) -> SecBucket {
    if b[s % b.len() as int].sec == s {
        b[s % b.len() as int]
    } else {
        empty_bucket(s as i64)
    }
}

/// A bucket with one more trade.
pub open spec fn add_trade(b: SecBucket, t: Trade) -> SecBucket {
    let notional = clamp64(div_round(t.price * t.qty, ONE as int));
    match t.taker_side {
        Side::Buy => SecBucket {
            trades: inc32(b.trades),
            buy_notional: clamp64(b.buy_notional + notional) as i64,
            ..b
        },
        Side::Sell => SecBucket {
            trades: inc32(b.trades),
            sell_notional: clamp64(b.sell_notional + notional) as i64,
            ..b
        },
    }
}

/// Taker buying during the `n` seconds from `lo` on.
pub open spec fn bought(b: Seq<SecBucket>, lo: int, n: nat) -> int
    decreases n,
{
    if n == 0 {
        0
    } else {
        bought(b, lo, (n - 1) as nat) + bucket_of(b, lo + n - 1).buy_notional
    }
}

/// Taker selling during the `n` seconds from `lo` on.
pub open spec fn sold(b: Seq<SecBucket>, lo: int, n: nat) -> int
    decreases n,
{
    if n == 0 {
        0
    } else {
        sold(b, lo, (n - 1) as nat) + bucket_of(b, lo + n - 1).sell_notional
    }
}

/// Number of trades during the `n` seconds from `lo` on.
pub open spec fn traded(b: Seq<SecBucket>, lo: int, n: nat) -> int
    decreases n,
{
    if n == 0 {
        0
    } else {
        traded(b, lo, (n - 1) as nat) + bucket_of(b, lo + n - 1).trades
    }
}

/// Net taker buying as a share of the total over the last `secs` seconds up to `now_sec`.
pub open spec fn flow(b: Seq<SecBucket>, now_sec: int, secs: nat) -> int {
    let lo = now_sec - secs + 1;
    let buy = bought(b, lo, secs);
    let sell = sold(b, lo, secs);
    if buy + sell > 0 {
        clamp64(div_round((buy - sell) * ONE, buy + sell))
    } else {
        0
    }
}

/// The samples that are not older than `min_sec`, in their order.
pub open spec fn recent(s: Seq<Sample>, min_sec: int) -> Seq<Sample>
    decreases s.len(),
{
    if s.len() == 0 {
        s
    } else {
        let r = recent(s.drop_last(), min_sec);
        if s.last().sec >= min_sec {
            r.push(s.last())
        } else {
            r
        }
    }
}

pub open spec fn spread_keys(s: Seq<Sample>) -> Seq<i128> {
    s.map_values(|x: Sample| x.spread_bps as i128)
}

pub open spec fn sec_keys(s: Seq<Sample>) -> Seq<i128> {
    s.map_values(|x: Sample| x.sec as i128)
}

/// Sum of the spreads.
pub open spec fn spread_sum(s: Seq<Sample>) -> int
    decreases s.len(),
{
    if s.len() == 0 {
        0
    } else {
        spread_sum(s.drop_last()) + s.last().spread_bps
    }
}

/// The usable pairs among the first `n + 1` samples of `s` taken in the order `p`: both mids are
/// there and time moved on.
pub open spec fn pairs_of(s: Seq<Sample>, p: Seq<usize>, n: nat) -> Seq<MidPair>
    decreases n,
{
    if n == 0 {
        Seq::empty()
    } else {
        let a = s[p[n - 1] as int];
        let b = s[p[n as int] as int];
        let r = pairs_of(s, p, (n - 1) as nat);
        if a.mid > 0 && b.mid > 0 && b.sec > a.sec {
            r.push(MidPair { dt: clamp64(b.sec - a.sec) as i64, from: a.mid, to: b.mid })
        } else {
            r
        }
    }
}

/// The pairs of consecutive mids of the samples `s` in time order.
pub open spec fn is_mid_pairs(s: Seq<Sample>, r: Seq<MidPair>) -> bool {
    exists|p: Seq<usize>|
        #[trigger] is_stable_order(sec_keys(s), p) && r == pairs_of(s, p, if s.len() == 0 { 0 } else { (s.len() - 1) as nat })
}

proof fn lemma_recent_len(s: Seq<Sample>, min_sec: int)
    ensures
        recent(s, min_sec).len() <= s.len(),
    decreases s.len(),
{
    if s.len() > 0 {
        lemma_recent_len(s.drop_last(), min_sec);
    }
}

/// The samples that are kept are samples that were seen, none older than the limit.
pub proof fn law_recent(s: Seq<Sample>, min_sec: int)
    ensures
        recent(s, min_sec).len() <= s.len(),
        forall|i: int|
            0 <= i < recent(s, min_sec).len() ==> (#[trigger] recent(s, min_sec)[i]).sec >= min_sec && s.contains(
                recent(s, min_sec)[i],
            ),
        forall|i: int|
            0 <= i < s.len() && (#[trigger] s[i]).sec >= min_sec ==> recent(s, min_sec).contains(s[i]),
    decreases s.len(),
{
    if s.len() > 0 {
        let d = s.drop_last();
        law_recent(d, min_sec);
        let r = recent(s, min_sec);
        let rd = recent(d, min_sec);
        assert forall|i: int| 0 <= i < r.len() implies (#[trigger] r[i]).sec >= min_sec && s.contains(r[i]) by {
            if i < rd.len() {
                assert(r[i] == rd[i]);
                let j = choose|j: int| 0 <= j < d.len() && d[j] == rd[i];
                assert(s[j] == r[i]);
            } else {
                assert(s[s.len() - 1] == r[i]);
            }
        }
        assert forall|i: int| 0 <= i < s.len() && (#[trigger] s[i]).sec >= min_sec implies r.contains(s[i]) by {
            if i < d.len() {
                assert(d[i] == s[i]);
                let j = choose|j: int| 0 <= j < rd.len() && rd[j] == d[i];
                assert(r[j] == s[i]);
            } else {
                assert(r[r.len() - 1] == s[i]);
            }
        }
    }
}

/// The flow imbalance lies in [-1, 1] when no bucket holds a negative amount.
pub proof fn law_flow_in_unit(b: Seq<SecBucket>, now_sec: int, secs: nat)
    requires
        b.len() > 0,
        forall|i: int| 0 <= i < b.len() ==> (#[trigger] b[i]).buy_notional >= 0 && b[i].sell_notional >= 0,
    ensures
        -ONE <= flow(b, now_sec, secs) <= ONE,
{
    let lo = now_sec - secs + 1;
    lemma_flow_sums(b, lo, secs);
    if bought(b, lo, secs) + sold(b, lo, secs) > 0 {
        lemma_ratio_unit(bought(b, lo, secs), sold(b, lo, secs));
    }
}

proof fn lemma_flow_sums(b: Seq<SecBucket>, lo: int, n: nat)
    requires
        b.len() > 0,
        forall|i: int| 0 <= i < b.len() ==> (#[trigger] b[i]).buy_notional >= 0 && b[i].sell_notional >= 0,
    ensures
        bought(b, lo, n) >= 0,
        sold(b, lo, n) >= 0,
    decreases n,
{
    if n > 0 {
        lemma_flow_sums(b, lo, (n - 1) as nat);
        let s = lo + n - 1;
        vstd::arithmetic::div_mod::lemma_mod_bound(s, b.len() as int);
    }
}

impl SymbolStats {
    pub open spec fn wf(&self) -> bool {
        &&& self.window >= 10
        &&& self.samples@.len() <= self.window
        &&& 300 <= self.buckets@.len() <= i64::MAX
    }

    pub open spec fn spec_flow_imbalance(&self, now_ms: int, secs: nat) -> int {
        flow(self.buckets@, trunc_div(now_ms, 1000), secs)
    }

    /// The samples inside the window that ends at `now_ms`.
    pub open spec fn in_window(&self, now_ms: int) -> Seq<Sample> {
        recent(self.samples@, trunc_div(now_ms, 1000) - self.window)
    }

    /// Nothing has been seen yet.
    pub open spec fn is_fresh(&self, window_secs: u32) -> bool {
        &&& self.window == max_int(window_secs as int, 10)
        &&& self.samples@ == Seq::<Sample>::empty()
        &&& self.last_sample_sec == -1
        &&& self.buckets@ == Seq::new(max_int(self.window as int, 300) as nat, |i: int| empty_bucket(0))
        &&& self.last_bbo is None
        &&& self.last_bbo_ts == 0
        &&& self.last_trade_ts == 0
        &&& self.spread_med_bps == 0
        &&& self.spread_mean_bps == 0
        &&& self.vol_bps == 0
        &&& self.trades_per_min == 0
        &&& self.n_samples == 0
    }

    /// `self` is `old` after a quote: the first one seen in a second is sampled.
    pub open spec fn after_bbo(&self, old: &SymbolStats, bbo: Bbo, now_ms: i64) -> bool {
        let sec = trunc_div(now_ms as int, 1000);
        &&& self.wf()
        &&& self.samples@ == if sec != old.last_sample_sec {
            push_capped(
                old.samples@,
                Sample { sec: sec as i64, spread_bps: bbo.spec_spread_bps() as i64, mid: bbo.spec_mid() as i64 },
                old.window as int,
            )
        } else {
            old.samples@
        }
        &&& *self == (SymbolStats {
            samples: self.samples,
            last_bbo: Some(bbo),
            last_bbo_ts: now_ms,
            last_sample_sec: sec as i64,
            ..*old
        })
    }

    /// `self` is `old` after a trade: its second's bucket has taken it.
    pub open spec fn after_trade(&self, old: &SymbolStats, t: Trade, now_ms: i64) -> bool {
        let sec = trunc_div(t.ts as int, 1000);
        let b = old.buckets@;
        &&& self.wf()
        &&& self.buckets@ == b.update(sec % (b.len() as int), add_trade(bucket_of(b, sec), t))
        &&& *self == (SymbolStats { buckets: self.buckets, last_trade_ts: now_ms, ..*old })
    }

    /// `self` is `old` with the cached aggregates of the window that ends at `now_ms`.
    pub open spec fn after_refresh(&self, old: &SymbolStats, now_ms: i64, vol_bps: i64) -> bool {
        let w = old.in_window(now_ms as int);
        let secs = min_int(old.window as int, 60);
        &&& self.wf()
        &&& self.n_samples == old.samples@.len()
        &&& if w.len() == 0 {
            self.spread_med_bps == 0 && self.spread_mean_bps == 0 && self.vol_bps == 0
        } else {
            &&& is_nth_smallest(spread_keys(w), w.len() as int / 2, self.spread_med_bps as int)
            &&& self.spread_mean_bps == clamp64(div_round(spread_sum(w), w.len() as int))
            &&& exists|m: Seq<MidPair>|
                #[trigger] is_mid_pairs(w, m) && self.vol_bps == if m.len() >= 5 {
                    vol_bps
                } else {
                    0
                }
        }
        &&& self.trades_per_min == clamp64(
            div_round(traded(old.buckets@, trunc_div(now_ms as int, 1000) - secs + 1, secs as nat) * 60 * ONE, secs),
        )
        &&& *self == (SymbolStats {
            n_samples: self.n_samples,
            spread_med_bps: self.spread_med_bps,
            spread_mean_bps: self.spread_mean_bps,
            vol_bps: self.vol_bps,
            trades_per_min: self.trades_per_min,
            ..*old
        })
    }

    pub fn new(window_secs: u32) -> (r: SymbolStats)
        ensures
            r.wf(),
            r.is_fresh(window_secs),
    {
        let w: usize = if window_secs >= 10 {
            window_secs as usize
        } else {
            10
        };
        let n: usize = if w >= 300 {
            w
        } else {
            300
        };
        let mut buckets: Vec<SecBucket> = Vec::new();
        let mut i: usize = 0;
        while i < n
            invariant
                i <= n,
                buckets@ == Seq::new(i as nat, |i: int| empty_bucket(0)),
            decreases n - i,
        {
            buckets.push(SecBucket { sec: 0, trades: 0, buy_notional: 0, sell_notional: 0 });
            i = i + 1;
            assert(buckets@ =~= Seq::new(i as nat, |i: int| empty_bucket(0)));
        }
        SymbolStats {
            window: w,
            samples: VecDeque::new(),
            last_sample_sec: -1,
            buckets,
            last_bbo: None,
            last_bbo_ts: 0,
            last_trade_ts: 0,
            spread_med_bps: 0,
            spread_mean_bps: 0,
            vol_bps: 0,
            trades_per_min: 0,
            n_samples: 0,
        }
    }

    pub fn on_bbo(&mut self, bbo: &Bbo, now_ms: i64)
        requires
            old(self).wf(),
        ensures
            final(self).after_bbo(old(self), *bbo, now_ms),
    {
        self.last_bbo = Some(*bbo);
        self.last_bbo_ts = now_ms;
        let sec: i64 = quot(now_ms, 1000);
        if sec != self.last_sample_sec {
            // one sample per second: the first quote seen in that second
            let spread: i64 = bbo.spread_bps();
            let mid: i64 = bbo.mid();
            let ghost s0 = self.samples@;
            let full: bool = self.samples.len() >= self.window;
            self.samples.push_back(Sample { sec, spread_bps: spread, mid });
            if full {
                let _ = self.samples.pop_front();
            }
            proof {
                let x = Sample { sec, spread_bps: spread, mid };
                assert(self.samples@ =~= push_capped(s0, x, self.window as int));
            }
            self.last_sample_sec = sec;
        }
    }

    pub fn on_trade(&mut self, t: &Trade, now_ms: i64)
        requires
            old(self).wf(),
        ensures
            final(self).after_trade(old(self), *t, now_ms),
    {
        self.last_trade_ts = now_ms;
        let sec: i64 = quot(t.ts, 1000);
        let n: i64 = self.buckets.len() as i64;
        let idx: usize = modulo(sec, n) as usize;
        let mut b: SecBucket = self.buckets[idx];
        if b.sec != sec {
            b = SecBucket { sec, trades: 0, buy_notional: 0, sell_notional: 0 };
        }
        b.trades = next32(b.trades);
        let notional: i64 = sat64(round_div(mul64(t.price, t.qty), ONE128));
        match t.taker_side {
            Side::Buy => {
                b.buy_notional = sat64(b.buy_notional as i128 + notional as i128);
            },
            Side::Sell => {
                b.sell_notional = sat64(b.sell_notional as i128 + notional as i128);
            },
        }
        self.buckets[idx] = b;
    }

    /// Taker flow imbalance over the last `secs` seconds in [-1, 1]; positive = net buying.
    pub fn flow_imbalance(&self, now_ms: i64, secs: u32) -> (r: i64)
        requires
            self.wf(),
        ensures
            r == self.spec_flow_imbalance(now_ms as int, secs as nat),
    {
        let now_sec: i64 = quot(now_ms, 1000);
        let len: usize = self.buckets.len();
        let n: i64 = len as i64;
        proof {
            lemma_quot_small(now_ms as int);
        }
        let lo: i64 = now_sec - secs as i64 + 1;
        let mut buy: i128 = 0;
        let mut sell: i128 = 0;
        let mut k: u32 = 0;
        while k < secs
            invariant
                k <= secs,
                self.wf(),
                len == self.buckets@.len(),
                n == len,
                lo == now_sec - secs + 1,
                -9_300_000_000_000_000 <= now_sec <= 9_300_000_000_000_000,
                buy == bought(self.buckets@, lo as int, k as nat),
                sell == sold(self.buckets@, lo as int, k as nat),
                -0x8000_0000_0000_0000 * k <= buy <= 0x8000_0000_0000_0000 * k,
                -0x8000_0000_0000_0000 * k <= sell <= 0x8000_0000_0000_0000 * k,
            decreases secs - k,
        {
            let s: i64 = lo + k as i64;
            let b: SecBucket = self.buckets[modulo(s, n) as usize];
            if b.sec == s {
                buy = buy + b.buy_notional as i128;
                sell = sell + b.sell_notional as i128;
            }
            k = k + 1;
        }
        let tot: i128 = buy + sell;
        if tot > 0 {
            sat64(round_div((buy - sell) * ONE128, tot))
        } else {
            0
        }
    }

    /// Number of trades in the last `secs` seconds.
    pub fn trades_in_last(&self, now_ms: i64, secs: u32) -> (r: u64)
        requires
            self.wf(),
        ensures
            r == traded(self.buckets@, trunc_div(now_ms as int, 1000) - secs + 1, secs as nat),
    {
        let now_sec: i64 = quot(now_ms, 1000);
        let len: usize = self.buckets.len();
        let n: i64 = len as i64;
        proof {
            lemma_quot_small(now_ms as int);
        }
        let lo: i64 = now_sec - secs as i64 + 1;
        let mut c: u64 = 0;
        let mut k: u32 = 0;
        while k < secs
            invariant
                k <= secs,
                self.wf(),
                len == self.buckets@.len(),
                n == len,
                lo == now_sec - secs + 1,
                -9_300_000_000_000_000 <= now_sec <= 9_300_000_000_000_000,
                c == traded(self.buckets@, lo as int, k as nat),
                c <= 0xffff_ffff * k,
            decreases secs - k,
        {
            let s: i64 = lo + k as i64;
            let b: SecBucket = self.buckets[modulo(s, n) as usize];
            if b.sec == s {
                c = c + b.trades as u64;
            }
            k = k + 1;
        }
        c
    }

    fn window_samples(&self, now_ms: i64) -> (r: Vec<Sample>)
        requires
            self.wf(),
        ensures
            r@ == self.in_window(now_ms as int),
            r@.len() <= self.window,
    {
        let now_sec: i64 = quot(now_ms, 1000);
        let min_sec: i128 = now_sec as i128 - self.window as i128;
        let mut r: Vec<Sample> = Vec::new();
        let mut i: usize = 0;
        assert(self.samples@.take(0) =~= Seq::<Sample>::empty());
        while i < self.samples.len()
            invariant
                i <= self.samples@.len(),
                r@ == recent(self.samples@.take(i as int), min_sec as int),
                r@.len() <= i,
            decreases self.samples@.len() - i,
        {
            let x: Sample = self.samples[i];
            proof {
                let t = self.samples@.take(i + 1);
                assert(t.drop_last() =~= self.samples@.take(i as int));
                assert(t.last() == x);
            }
            if x.sec as i128 >= min_sec {
                r.push(x);
            }
            i = i + 1;
        }
        assert(self.samples@.take(i as int) =~= self.samples@);
        r
    }

    /// The consecutive mids of the window in time order, for the volatility estimate.
    pub fn vol_pairs(&self, now_ms: i64) -> (r: Vec<MidPair>)
        requires
            self.wf(),
        ensures
            is_mid_pairs(self.in_window(now_ms as int), r@),
    {
        let s: Vec<Sample> = self.window_samples(now_ms);
        let mut keys: Vec<i128> = Vec::new();
        let mut i: usize = 0;
        while i < s.len()
            invariant
                i <= s@.len(),
                keys@.len() == i,
                forall|j: int| 0 <= j < i ==> keys@[j] == s@[j].sec,
            decreases s@.len() - i,
        {
            keys.push(s[i].sec as i128);
            i = i + 1;
        }
        assert(keys@ =~= sec_keys(s@));
        let p: Vec<usize> = stable_order(&keys);
        let mut r: Vec<MidPair> = Vec::new();
        let mut k: usize = 1;
        while k < p.len()
            invariant
                1 <= k,
                p@.len() > 0 ==> k <= p@.len(),
                keys@ == sec_keys(s@),
                p@.len() == s@.len(),
                is_stable_order(keys@, p@),
                p@.len() > 0 ==> r@ == pairs_of(s@, p@, (k - 1) as nat),
                p@.len() == 0 ==> r@ == Seq::<MidPair>::empty(),
            decreases p@.len() - k,
        {
            let a: Sample = s[p[k - 1]];
            let b: Sample = s[p[k]];
            if a.mid > 0 && b.mid > 0 && b.sec > a.sec {
                r.push(MidPair { dt: sat64(b.sec as i128 - a.sec as i128), from: a.mid, to: b.mid });
            }
            k = k + 1;
        }
        r
    }

    /// Recompute the cached aggregates. Call about once per second per symbol. `vol_bps` is the
    /// volatility of the window's mid pairs; it counts only with at least five pairs.
    pub fn refresh(&mut self, now_ms: i64, vol_bps: i64)
        requires
            old(self).wf(),
        ensures
            final(self).after_refresh(old(self), now_ms, vol_bps),
    {
        self.n_samples = self.samples.len();
        let s: Vec<Sample> = self.window_samples(now_ms);
        let pairs: Vec<MidPair> = self.vol_pairs(now_ms);
        if s.len() == 0 {
            self.spread_med_bps = 0;
            self.spread_mean_bps = 0;
            self.vol_bps = 0;
        } else {
            let mut keys: Vec<i128> = Vec::new();
            let mut sum: i128 = 0;
            let mut i: usize = 0;
            assert(s@.take(0) =~= Seq::<Sample>::empty());
            while i < s.len()
                invariant
                    i <= s@.len(),
                    keys@.len() == i,
                    forall|j: int| 0 <= j < i ==> keys@[j] == s@[j].spread_bps,
                    sum == spread_sum(s@.take(i as int)),
                    -0x8000_0000_0000_0000 * i <= sum <= 0x8000_0000_0000_0000 * i,
                decreases s@.len() - i,
            {
                proof {
                    let t = s@.take(i + 1);
                    assert(t.drop_last() =~= s@.take(i as int));
                }
                keys.push(s[i].spread_bps as i128);
                sum = sum + s[i].spread_bps as i128;
                i = i + 1;
            }
            assert(s@.take(i as int) =~= s@);
            assert(keys@ =~= spread_keys(s@));
            let p: Vec<usize> = stable_order(&keys);
            let at: usize = p[s.len() / 2];
            self.spread_med_bps = s[at].spread_bps;
            self.spread_mean_bps = sat64(round_div(sum, s.len() as i128));
            self.vol_bps = if pairs.len() >= 5 {
                vol_bps
            } else {
                0
            };
            proof {
                assert(is_stable_order(spread_keys(s@), p@));
                assert(spread_keys(s@)[p@[s@.len() as int / 2] as int] == self.spread_med_bps);
                assert(is_mid_pairs(old(self).in_window(now_ms as int), pairs@));
            }
        }
        let secs: u32 = if self.window <= 60 {
            self.window as u32
        } else {
            60
        };
        let c: u64 = self.trades_in_last(now_ms, secs);
        self.trades_per_min = sat64(round_div((c as i128) * 60 * ONE128, secs as i128));
    }

    pub fn samples_in_window(&self) -> (r: usize)
        ensures
            r == self.samples@.len(),
    {
        self.samples.len()
    }
}

proof fn lemma_quot_small(ms: int)
    requires
        i64::MIN <= ms <= i64::MAX,
    ensures
        -9_300_000_000_000_000 <= trunc_div(ms, 1000) <= 9_300_000_000_000_000,
{
}

} // verus!
