//! Local order book kept from exchange snapshots/deltas. Prices are keyed by
//! integer ticks so rounding noise never produces duplicate levels.

use std::collections::BTreeMap;
use vstd::prelude::*;
use crate::types::{grid_price, round_to_scale, Bbo, SymbolMeta};
use crate::units::{clamp64, div_round, mul64, round_div, sat64};

verus! {

broadcast use vstd::std_specs::btree::group_btree_axioms;

#[derive(Debug)]
pub struct Book {
    pub bids: BTreeMap<i64, i64>,
    pub asks: BTreeMap<i64, i64>,
    pub tick_size: i64,
    pub price_scale: u32,
    pub price_digits: u32,
    pub last_ts: i64,
    pub has_snapshot: bool,
}

/// `k` is the highest key.
pub open spec fn is_highest(m: Map<i64, i64>, k: i64) -> bool {
    m.contains_key(k) && forall|j: i64| #[trigger] m.contains_key(j) ==> j <= k
}

/// `k` is the lowest key.
pub open spec fn is_lowest(m: Map<i64, i64>, k: i64) -> bool {
    m.contains_key(k) && forall|j: i64| #[trigger] m.contains_key(j) ==> k <= j
}

/// `k` lies above every key of `m`.
pub open spec fn above_all(m: Map<i64, i64>, k: i64) -> bool {
    forall|j: i64| #[trigger] m.contains_key(j) ==> j < k
}

/// `k` lies below every key of `m`.
pub open spec fn below_all(m: Map<i64, i64>, k: i64) -> bool {
    forall|j: i64| #[trigger] m.contains_key(j) ==> k < j
}

/// Every bid lies below every ask.
pub open spec fn uncrossed(bids: Map<i64, i64>, asks: Map<i64, i64>) -> bool {
    forall|b: i64, a: i64| #[trigger] bids.contains_key(b) && #[trigger] asks.contains_key(a) ==> b < a
}

/// The tick of a price.
pub open spec fn level_key(tick_size: int, price: int) -> i64 {
    clamp64(div_round(price, tick_size)) as i64
}

/// The levels after the first `n` of the updates: a size of zero removes a level, any other sets it.
pub open spec fn updated(m: Map<i64, i64>, tick_size: int, levels: Seq<(i64, i64)>, n: nat) -> Map<i64, i64>
    decreases n,
{
    if n == 0 {
        m
    } else {
        let r = updated(m, tick_size, levels, (n - 1) as nat);
        let (p, q) = levels[n - 1];
        if q <= 0 {
            r.remove(level_key(tick_size, p as int))
        } else {
            r.insert(level_key(tick_size, p as int), q)
        }
    }
}

/// A repair of a crossed book drops the asks, not the bids: only bids were updated.
pub open spec fn drops_asks(bids: Seq<(i64, i64)>, asks: Seq<(i64, i64)>) -> bool {
    bids.len() > 0 && asks.len() == 0
}

fn highest(m: &BTreeMap<i64, i64>) -> (r: Option<i64>)
    ensures
        match r {
            Some(k) => is_highest(m@, k),
            None => m@ == Map::<i64, i64>::empty(),
        },
{
    let mut best: Option<i64> = None;
    let ghost ks = vstd::std_specs::iter::IteratorSpec::remaining(&vstd::std_specs::btree::spec_keys_iter(m)).unref();
    for k in it: m.keys()
        invariant
            it.seq().unref() == ks,
            ks.to_set() == m@.dom(),
            match best {
                Some(b) => ks.contains(b) && forall|i: int| 0 <= i < it.index() ==> #[trigger] ks[i] <= b,
                None => it.index() == 0,
            },
    {
        let key: i64 = *k;
        assert(ks[it.index() as int] == key);
        match best {
            Some(b) => {
                if key > b {
                    best = Some(key);
                }
            },
            None => {
                best = Some(key);
            },
        }
    }
    proof {
        match best {
            Some(b) => {
                assert(ks.to_set().contains(b));
                assert forall|j: i64| #[trigger] m@.contains_key(j) implies j <= b by {
                    assert(ks.to_set().contains(j));
                    let i = choose|i: int| 0 <= i < ks.len() && ks[i] == j;
                    assert(ks[i] <= b);
                }
            },
            None => {
                assert forall|j: i64| !(#[trigger] m@.contains_key(j)) by {
                    if m@.contains_key(j) {
                        assert(ks.to_set().contains(j));
                        assert(ks.contains(j));
                    }
                }
                assert(m@ =~= Map::<i64, i64>::empty());
            },
        }
    }
    best
}

fn lowest(m: &BTreeMap<i64, i64>) -> (r: Option<i64>)
    ensures
        match r {
            Some(k) => is_lowest(m@, k),
            None => m@ == Map::<i64, i64>::empty(),
        },
{
    let mut best: Option<i64> = None;
    let ghost ks = vstd::std_specs::iter::IteratorSpec::remaining(&vstd::std_specs::btree::spec_keys_iter(m)).unref();
    for k in it: m.keys()
        invariant
            it.seq().unref() == ks,
            ks.to_set() == m@.dom(),
            match best {
                Some(b) => ks.contains(b) && forall|i: int| 0 <= i < it.index() ==> b <= #[trigger] ks[i],
                None => it.index() == 0,
            },
    {
        let key: i64 = *k;
        assert(ks[it.index() as int] == key);
        match best {
            Some(b) => {
                if key < b {
                    best = Some(key);
                }
            },
            None => {
                best = Some(key);
            },
        }
    }
    proof {
        match best {
            Some(b) => {
                assert(ks.to_set().contains(b));
                assert forall|j: i64| #[trigger] m@.contains_key(j) implies b <= j by {
                    assert(ks.to_set().contains(j));
                    let i = choose|i: int| 0 <= i < ks.len() && ks[i] == j;
                    assert(b <= ks[i]);
                }
            },
            None => {
                assert forall|j: i64| !(#[trigger] m@.contains_key(j)) by {
                    if m@.contains_key(j) {
                        assert(ks.to_set().contains(j));
                        assert(ks.contains(j));
                    }
                }
                assert(m@ =~= Map::<i64, i64>::empty());
            },
        }
    }
    best
}

/// The asks above every bid.
pub open spec fn asks_above(asks: Map<i64, i64>, bids: Map<i64, i64>) -> Map<i64, i64> {
    asks.restrict(Set::new(|k: i64| above_all(bids, k)))
}

/// The bids below every ask.
pub open spec fn bids_below(bids: Map<i64, i64>, asks: Map<i64, i64>) -> Map<i64, i64> {
    bids.restrict(Set::new(|k: i64| below_all(asks, k)))
}

fn update_levels(m: &mut BTreeMap<i64, i64>, tick_size: i64, levels: &[(i64, i64)])
    requires
        tick_size > 0,
    ensures
        final(m)@ == updated(old(m)@, tick_size as int, levels@, levels@.len()),
{
    let mut i: usize = 0;
    while i < levels.len()
        invariant
            i <= levels@.len(),
            tick_size > 0,
            m@ == updated(old(m)@, tick_size as int, levels@, i as nat),
        decreases levels@.len() - i,
    {
        let (p, q): (i64, i64) = levels[i];
        let k: i64 = tick_of(tick_size, p);
        if q <= 0 {
            let _ = m.remove(&k);
        } else {
            let _ = m.insert(k, q);
        }
        i = i + 1;
    }
}

fn tick_of(tick_size: i64, price: i64) -> (r: i64)
    requires
        tick_size > 0,
    ensures
        r == level_key(tick_size as int, price as int),
{
    sat64(round_div(price as i128, tick_size as i128))
}

impl Book {
    pub open spec fn wf(&self) -> bool {
        self.tick_size > 0 && uncrossed(self.bids@, self.asks@)
    }

    pub open spec fn spec_price(&self, key: int) -> int {
        clamp64(grid_price(self.tick_size as int, self.price_digits, self.price_scale, key))
    }

    /// An empty book of the instrument.
    pub open spec fn is_fresh(&self, meta: SymbolMeta) -> bool {
        &&& self.bids@ == Map::<i64, i64>::empty()
        &&& self.asks@ == Map::<i64, i64>::empty()
        &&& self.tick_size == meta.tick_size
        &&& self.price_scale == meta.price_scale
        &&& self.price_digits == meta.price_digits
        &&& self.last_ts == 0
        &&& !self.has_snapshot
    }

    pub fn new(meta: &SymbolMeta) -> (r: Book)
        ensures
            r.is_fresh(*meta),
            meta.tick_size > 0 ==> r.wf(),
    {
        Book {
            bids: BTreeMap::new(),
            asks: BTreeMap::new(),
            tick_size: meta.tick_size,
            price_scale: meta.price_scale,
            price_digits: meta.price_digits,
            last_ts: 0,
            has_snapshot: false,
        }
    }

    fn price(&self, key: i64) -> (r: i64)
        ensures
            r == self.spec_price(key as int),
    {
        sat64(round_to_scale(mul64(key, self.tick_size), self.price_digits, self.price_scale))
    }

    /// Bids after a message, before any repair.
    pub open spec fn raw_bids(&self, snapshot: bool, bids: Seq<(i64, i64)>) -> Map<i64, i64> {
        updated(
            if snapshot {
                Map::empty()
            } else {
                self.bids@
            },
            self.tick_size as int,
            bids,
            bids.len(),
        )
    }

    pub open spec fn raw_asks(&self, snapshot: bool, asks: Seq<(i64, i64)>) -> Map<i64, i64> {
        updated(
            if snapshot {
                Map::empty()
            } else {
                self.asks@
            },
            self.tick_size as int,
            asks,
            asks.len(),
        )
    }

    /// `self` is `old` after a message: the levels are updated, and where that crosses the book the
    /// side that the message did not update gives way.
    pub open spec fn after_apply(&self, old: &Book, ts: i64, snapshot: bool, bids: Seq<(i64, i64)>, asks: Seq<(i64, i64)>) -> bool {
        let b = old.raw_bids(snapshot, bids);
        let a = old.raw_asks(snapshot, asks);
        &&& self.wf()
        &&& if drops_asks(bids, asks) {
            self.bids@ == b && self.asks@ == asks_above(a, b)
        } else {
            self.asks@ == a && self.bids@ == bids_below(b, a)
        }
        &&& *self == (Book {
            bids: self.bids,
            asks: self.asks,
            last_ts: ts,
            has_snapshot: old.has_snapshot || snapshot,
            ..*old
        })
    }

    pub fn apply(&mut self, ts: i64, snapshot: bool, bids: &[(i64, i64)], asks: &[(i64, i64)])
        requires
            old(self).tick_size > 0,
        ensures
            final(self).after_apply(old(self), ts, snapshot, bids@, asks@),
    {
        if snapshot {
            self.bids.clear();
            self.asks.clear();
            self.has_snapshot = true;
        }
        update_levels(&mut self.bids, self.tick_size, bids);
        update_levels(&mut self.asks, self.tick_size, asks);
        let keep_bids: bool = bids.len() > 0 && asks.len() == 0;
        let ghost b = self.bids@;
        let ghost a = self.asks@;
        // Defensive: a delta that leaves the book crossed means we missed something;
        // drop the stale side levels until it is consistent again.
        loop
            invariant
                self.tick_size > 0,
                keep_bids == drops_asks(bids@, asks@),
                b == old(self).raw_bids(snapshot, bids@),
                a == old(self).raw_asks(snapshot, asks@),
                self.bids@.submap_of(b),
                self.asks@.submap_of(a),
                keep_bids ==> self.bids@ == b,
                !keep_bids ==> self.asks@ == a,
                forall|k: i64| #[trigger] a.contains_key(k) && above_all(b, k) ==> self.asks@.contains_key(k),
                forall|k: i64| #[trigger] b.contains_key(k) && below_all(a, k) ==> self.bids@.contains_key(k),
                *self == (Book {
                    bids: self.bids,
                    asks: self.asks,
                    has_snapshot: old(self).has_snapshot || snapshot,
                    ..*old(self)
                }),
            ensures
                uncrossed(self.bids@, self.asks@),
            decreases self.bids@.dom().len() + self.asks@.dom().len(),
        {
            match (highest(&self.bids), lowest(&self.asks)) {
                (Some(bk), Some(ak)) => {
                    if bk >= ak {
                        // keep the side that was updated in this message
                        if keep_bids {
                            proof {
                                assert(b.contains_key(bk));
                                assert(!above_all(b, ak));
                            }
                            let _ = self.asks.remove(&ak);
                        } else {
                            proof {
                                assert(a.contains_key(ak));
                                assert(!below_all(a, bk));
                            }
                            let _ = self.bids.remove(&bk);
                        }
                    } else {
                        break;
                    }
                },
                _ => {
                    break;
                },
            }
        }
        proof {
            if keep_bids {
                assert forall|k: i64| self.asks@.contains_key(k) implies #[trigger] above_all(b, k) by {
                    assert forall|j: i64| #[trigger] b.contains_key(j) implies j < k by {
                        assert(self.bids@.contains_key(j));
                    }
                }
                assert(self.asks@ =~= asks_above(a, b));
            } else {
                assert forall|k: i64| self.bids@.contains_key(k) implies #[trigger] below_all(a, k) by {
                    assert forall|j: i64| #[trigger] a.contains_key(j) implies k < j by {
                        assert(self.asks@.contains_key(j));
                    }
                }
                assert(self.bids@ =~= bids_below(b, a));
            }
        }
        self.last_ts = ts;
    }

    /// The top of the book, if both sides are there and their prices are in order.
    pub open spec fn is_top(&self, bk: i64, ak: i64, q: Bbo) -> bool {
        &&& is_highest(self.bids@, bk)
        &&& is_lowest(self.asks@, ak)
        &&& q == (Bbo {
            ts: self.last_ts,
            bid: self.spec_price(bk as int) as i64,
            ask: self.spec_price(ak as int) as i64,
            bid_qty: self.bids@[bk],
            ask_qty: self.asks@[ak],
        })
    }

    /// `r` is the top of the book; none if a side is empty or the prices are not in order.
    pub open spec fn is_bbo(&self, r: Option<Bbo>) -> bool {
        match r {
            Some(q) => q.valid() && exists|bk: i64, ak: i64| self.is_top(bk, ak, q),
            None => forall|bk: i64, ak: i64, q: Bbo| #[trigger] self.is_top(bk, ak, q) ==> !q.valid(),
        }
    }

    pub fn bbo(&self) -> (r: Option<Bbo>)
        ensures
            self.is_bbo(r),
    {
        match (highest(&self.bids), lowest(&self.asks)) {
            (Some(bk), Some(ak)) => {
                let bid_qty: i64 = match self.bids.get(&bk) {
                    Some(q) => *q,
                    None => 0,
                };
                let ask_qty: i64 = match self.asks.get(&ak) {
                    Some(q) => *q,
                    None => 0,
                };
                let b = Bbo { ts: self.last_ts, bid: self.price(bk), ask: self.price(ak), bid_qty, ask_qty };
                assert(self.is_top(bk, ak, b));
                if b.is_valid() {
                    Some(b)
                } else {
                    proof {
                        assert forall|bk2: i64, ak2: i64, q: Bbo| #[trigger] self.is_top(bk2, ak2, q) implies !q.valid() by {
                            law_top_unique(*self, bk, ak, b, bk2, ak2, q);
                        }
                    }
                    None
                }
            },
            _ => None,
        }
    }

    /// Displayed size resting at an exact price on a side (0 if none).
    pub fn size_at(&self, is_bid: bool, price: i64) -> (r: i64)
        requires
            self.tick_size > 0,
        ensures
            ({
                let m = if is_bid { self.bids@ } else { self.asks@ };
                let k = level_key(self.tick_size as int, price as int);
                r == if m.contains_key(k) { m[k] } else { 0 }
            }),
    {
        let k: i64 = tick_of(self.tick_size, price);
        let got: Option<&i64> = if is_bid {
            self.bids.get(&k)
        } else {
            self.asks.get(&k)
        };
        match got {
            Some(q) => *q,
            None => 0,
        }
    }

    pub fn depth(&self) -> (r: (usize, usize))
        ensures
            r.0 == self.bids@.len(),
            r.1 == self.asks@.len(),
    {
        (self.bids.len(), self.asks.len())
    }
}

/// A book has one top.
pub proof fn law_top_unique(book: Book, b1: i64, a1: i64, q1: Bbo, b2: i64, a2: i64, q2: Bbo)
    requires
        book.is_top(b1, a1, q1),
        book.is_top(b2, a2, q2),
    ensures
        q1 == q2,
        b1 == b2,
        a1 == a2,
{
}

/// A snapshot replaces the book: what stood before does not matter.
pub proof fn law_snapshot_replaces(x: Book, y: Book, bids: Seq<(i64, i64)>, asks: Seq<(i64, i64)>)
    requires
        x.tick_size == y.tick_size,
    ensures
        x.raw_bids(true, bids) == y.raw_bids(true, bids),
        x.raw_asks(true, asks) == y.raw_asks(true, asks),
{
}

/// A repair leaves an uncrossed book, never touches the side that the message updated, and does
/// nothing to a book that is in order.
pub proof fn law_repair(bids: Map<i64, i64>, asks: Map<i64, i64>)
    ensures
        uncrossed(bids, asks_above(asks, bids)),
        uncrossed(bids_below(bids, asks), asks),
        uncrossed(bids, asks) ==> asks_above(asks, bids) == asks && bids_below(bids, asks) == bids,
{
    assert(uncrossed(bids, asks) ==> asks_above(asks, bids) =~= asks);
    assert(uncrossed(bids, asks) ==> bids_below(bids, asks) =~= bids);
}

/// A price less than half a tick away from a whole number of ticks belongs to that level, so noise in
/// a price never makes a second level.
pub proof fn law_one_level_per_tick(tick_size: i64, price: i64, k: i64)
    requires
        tick_size > 0,
        -tick_size < 2 * (price - k * tick_size) < tick_size,
    ensures
        level_key(tick_size as int, price as int) == k,
{
    let d = tick_size as int;
    let p = price as int;
    let q = k as int;
    if p >= 0 {
        assert((2 * p + d) / (2 * d) == q) by (nonlinear_arith)
            requires
                d > 0,
                -d < 2 * (p - q * d) < d,
        ;
    } else {
        assert((2 * (-p) + d) / (2 * d) == -q) by (nonlinear_arith)
            requires
                d > 0,
                -d < 2 * (p - q * d) < d,
        ;
    }
}

/// Of several updates of a level the last one counts: a size of zero leaves no level, any other size
/// is the level's size.
pub proof fn law_last_update_counts(m: Map<i64, i64>, tick_size: int, levels: Seq<(i64, i64)>, n: nat, j: int)
    requires
        0 <= j < n <= levels.len(),
        forall|i: int|
            j < i < n ==> level_key(tick_size, (#[trigger] levels[i]).0 as int) != level_key(tick_size, levels[j].0 as int),
    ensures
        ({
            let k = level_key(tick_size, levels[j].0 as int);
            let r = updated(m, tick_size, levels, n);
            if levels[j].1 <= 0 {
                !r.contains_key(k)
            } else {
                r.contains_key(k) && r[k] == levels[j].1
            }
        }),
    decreases n,
{
    if j < n - 1 {
        law_last_update_counts(m, tick_size, levels, (n - 1) as nat, j);
        assert(level_key(tick_size, levels[n - 1].0 as int) != level_key(tick_size, levels[j].0 as int));
    }
}

/// A level that no update names stays as it is.
pub proof fn law_untouched_level(m: Map<i64, i64>, tick_size: int, levels: Seq<(i64, i64)>, n: nat, k: i64)
    requires
        n <= levels.len(),
        forall|i: int| 0 <= i < n ==> level_key(tick_size, (#[trigger] levels[i]).0 as int) != k,
    ensures
        updated(m, tick_size, levels, n).contains_key(k) == m.contains_key(k),
        m.contains_key(k) ==> updated(m, tick_size, levels, n)[k] == m[k],
    decreases n,
{
    if n > 0 {
        law_untouched_level(m, tick_size, levels, (n - 1) as nat, k);
        assert(level_key(tick_size, levels[n - 1].0 as int) != k);
    }
}

} // verus!
