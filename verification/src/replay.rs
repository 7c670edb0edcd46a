//! Run the engine over recorded market data: which instruments take part, which parameters they
//! get, and what each recorded event becomes.

use vstd::prelude::*;
use crate::bits::{fixed_of_bits, fixed_value, law_float_round_trip, EXACT};
use crate::config::{Config, OverrideBlock, OverrideValue, Overrides, RecordingCfg, SymbolLists};
use crate::engine::{finished_run, is_summary, last_named, market_taken, started, Engine, Summary};
use crate::reader::MdEvent;
use crate::recorder::{bbo_bytes, bbo_of, law_bbo_round_trip, law_trd_round_trip, trd_bytes, trd_of, Segment};
use crate::store::{MdPrint, MdQuote};
use crate::table::{contains_text, find_entry, has_text, last_entry};
use crate::types::{str_eq, Bbo, MarketEvent, Side, SymbolId, SymbolMeta, Trade};
use crate::units::{places_of_price, places_of_qty, price_places, qty_places};

pub use crate::times::parse_time;

verus! {

#[derive(Clone, Debug)]
pub struct ReplayRequest {
    pub md_dir: String,
    pub from_ms: i64,
    pub to_ms: i64,
    /// Empty = every recorded symbol.
    pub symbols: Vec<String>,
    /// Parameter overrides applied to every replayed symbol, on top of the config files.
    pub params: Option<OverrideBlock>,
}

#[derive(Clone, Copy, Debug)]
pub struct ReplayStats {
    pub segments: usize,
    pub symbols: usize,
    pub n_bbo: u64,
    pub n_trades: u64,
    pub first_ts: i64,
    pub last_ts: i64,
    pub elapsed_ms: u128,
}

impl Default for ReplayStats {
    fn default() -> (r: ReplayStats)
        ensures
            r == (ReplayStats { segments: 0, symbols: 0, n_bbo: 0, n_trades: 0, first_ts: 0, last_ts: 0, elapsed_ms: 0 }),
    {
        ReplayStats { segments: 0, symbols: 0, n_bbo: 0, n_trades: 0, first_ts: 0, last_ts: 0, elapsed_ms: 0 }
    }
}

pub struct ReplayReport {
    pub summary: Summary,
    pub stats: ReplayStats,
}

/// Why there is nothing to replay.
#[derive(Clone, Copy, Debug, PartialEq, Eq, Structural)]
pub enum ReplayError {
    /// No recorded data for the requested period.
    NoData,
    /// None of the requested symbols appear in the recorded data.
    NoSymbols,
}

// ------------------------------------------------------------------------------
// Instruments
// ------------------------------------------------------------------------------

/// The request names the symbol, or names none at all.
pub open spec fn asked_for(symbols: Seq<String>, name: Seq<char>) -> bool {
    symbols.len() == 0 || has_text(symbols, name)
}

pub open spec fn has_instrument(metas: Seq<SymbolMeta>, name: Seq<char>) -> bool {
    exists|i: int| 0 <= i < metas.len() && (#[trigger] metas[i]).name@ == name
}

/// `acc` with those of the first `n` instruments that are asked for and not there yet.
pub open spec fn joined(acc: Seq<SymbolMeta>, ms: Seq<SymbolMeta>, symbols: Seq<String>, n: nat) -> Seq<SymbolMeta>
    decreases n,
{
    if n == 0 {
        acc
    } else {
        let r = joined(acc, ms, symbols, (n - 1) as nat);
        let m = ms[n - 1];
        if asked_for(symbols, m.name@) && !has_instrument(r, m.name@) {
            r.push(m)
        } else {
            r
        }
    }
}

/// Union of the instruments of the first `n` segments, the first definition wins.
pub open spec fn instruments(segs: Seq<Segment>, symbols: Seq<String>, n: nat) -> Seq<SymbolMeta>
    decreases n,
{
    if n == 0 {
        Seq::empty()
    } else {
        joined(instruments(segs, symbols, (n - 1) as nat), segs[n - 1].symbols@, symbols, segs[n - 1].symbols@.len())
    }
}

/// No two instruments share a name, and every one of them is asked for.
pub open spec fn distinct_and_asked(metas: Seq<SymbolMeta>, symbols: Seq<String>) -> bool {
    &&& forall|i: int, j: int| 0 <= i < j < metas.len() ==> (#[trigger] metas[i]).name@ != (#[trigger] metas[j]).name@
    &&& forall|i: int| 0 <= i < metas.len() ==> asked_for(symbols, (#[trigger] metas[i]).name@)
}

/// Joining keeps what was there, in its place, and misses nothing that is asked for.
proof fn lemma_joined(acc: Seq<SymbolMeta>, ms: Seq<SymbolMeta>, symbols: Seq<String>, n: nat)
    requires
        n <= ms.len(),
        distinct_and_asked(acc, symbols),
    ensures
        distinct_and_asked(joined(acc, ms, symbols, n), symbols),
        acc.len() <= joined(acc, ms, symbols, n).len(),
        forall|i: int| 0 <= i < acc.len() ==> #[trigger] joined(acc, ms, symbols, n)[i] == acc[i],
        forall|i: int|
            0 <= i < n && asked_for(symbols, (#[trigger] ms[i]).name@) ==> has_instrument(joined(acc, ms, symbols, n), ms[i].name@),
    decreases n,
{
    if n > 0 {
        lemma_joined(acc, ms, symbols, (n - 1) as nat);
        let r = joined(acc, ms, symbols, (n - 1) as nat);
        let s = joined(acc, ms, symbols, n);
        assert forall|i: int| 0 <= i < n && asked_for(symbols, (#[trigger] ms[i]).name@) implies has_instrument(s, ms[i].name@) by {
            if i < n - 1 {
                let k = choose|k: int| 0 <= k < r.len() && (#[trigger] r[k]).name@ == ms[i].name@;
                assert(s[k].name@ == ms[i].name@);
            } else if !has_instrument(r, ms[i].name@) {
                assert(s[r.len() as int].name@ == ms[i].name@);
            }
        }
        assert forall|i: int, j: int| 0 <= i < j < s.len() implies (#[trigger] s[i]).name@ != (#[trigger] s[j]).name@ by {
            if j == r.len() {
                assert(r[i].name@ == s[i].name@);
            }
        }
    }
}

/// The replayed instruments have distinct names, all asked for, and every recorded instrument that
/// is asked for has its name among them.
pub proof fn law_instruments(segs: Seq<Segment>, symbols: Seq<String>, n: nat)
    requires
        n <= segs.len(),
    ensures
        distinct_and_asked(instruments(segs, symbols, n), symbols),
        forall|k: int, i: int|
            0 <= k < n && 0 <= i < segs[k].symbols@.len() && asked_for(symbols, (#[trigger] segs[k].symbols@[i]).name@) ==> has_instrument(
                instruments(segs, symbols, n),
                segs[k].symbols@[i].name@,
            ),
    decreases n,
{
    if n > 0 {
        law_instruments(segs, symbols, (n - 1) as nat);
        let r = instruments(segs, symbols, (n - 1) as nat);
        let s = instruments(segs, symbols, n);
        let ms = segs[n - 1].symbols@;
        lemma_joined(r, ms, symbols, ms.len());
        assert forall|k: int, i: int|
            0 <= k < n && 0 <= i < segs[k].symbols@.len() && asked_for(symbols, (#[trigger] segs[k].symbols@[i]).name@) implies has_instrument(
            s,
            segs[k].symbols@[i].name@,
        ) by {
            if k < n - 1 {
                let x = segs[k].symbols@[i].name@;
                let j = choose|j: int| 0 <= j < r.len() && (#[trigger] r[j]).name@ == x;
                assert(s[j].name@ == x);
            }
        }
    }
}

fn holds_instrument(metas: &Vec<SymbolMeta>, name: &str) -> (r: bool)
    ensures
        r == has_instrument(metas@, name@),
{
    let mut i: usize = 0;
    while i < metas.len()
        invariant
            i <= metas@.len(),
            forall|j: int| 0 <= j < i ==> (#[trigger] metas@[j]).name@ != name@,
        decreases metas@.len() - i,
    {
        if str_eq(metas[i].name.as_str(), name) {
            return true;
        }
        i = i + 1;
    }
    false
}

fn join_instruments(metas: &mut Vec<SymbolMeta>, ms: &Vec<SymbolMeta>, symbols: &Vec<String>)
    ensures
        final(metas)@ == joined(old(metas)@, ms@, symbols@, ms@.len()),
{
    let mut i: usize = 0;
    while i < ms.len()
        invariant
            i <= ms@.len(),
            metas@ == joined(old(metas)@, ms@, symbols@, i as nat),
        decreases ms@.len() - i,
    {
        let name: &str = ms[i].name.as_str();
        if (symbols.len() == 0 || contains_text(symbols, name)) && !holds_instrument(metas, name) {
            metas.push(ms[i].copy());
        }
        i = i + 1;
    }
}

/// The instruments of a replay.
pub fn replay_instruments(segs: &Vec<Segment>, symbols: &Vec<String>) -> (r: Vec<SymbolMeta>)
    ensures
        r@ == instruments(segs@, symbols@, segs@.len()),
{
    let mut metas: Vec<SymbolMeta> = Vec::new();
    let mut k: usize = 0;
    while k < segs.len()
        invariant
            k <= segs@.len(),
            metas@ == instruments(segs@, symbols@, k as nat),
        decreases segs@.len() - k,
    {
        join_instruments(&mut metas, &segs[k].symbols, symbols);
        k = k + 1;
    }
    metas
}

// ------------------------------------------------------------------------------
// Parameters
// ------------------------------------------------------------------------------

/// A symbol's block of overrides once the parameters are inserted, where they are.
pub open spec fn block_after(a: Option<OverrideBlock>, b: Option<OverrideBlock>, named: bool, p: Seq<(String, OverrideValue)>) -> bool {
    if named {
        b matches Some(x) && x@ == match a {
            Some(y) => y@ + p,
            None => p,
        }
    } else {
        b == a
    }
}

/// `b` is `a` with the parameters inserted into the block of every instrument.
pub open spec fn params_added(a: Overrides, b: Overrides, metas: Seq<SymbolMeta>, p: Seq<(String, OverrideValue)>) -> bool {
    forall|name: Seq<char>| block_after(a.block(name), #[trigger] b.block(name), has_instrument(metas, name), p)
}

/// The overrides that a replay works with.
pub open spec fn replay_overrides(a: Overrides, b: Overrides, metas: Seq<SymbolMeta>, params: Option<OverrideBlock>) -> bool {
    match params {
        Some(p) => params_added(a, b, metas, p@),
        None => b == a,
    }
}

fn append_block(b: &mut OverrideBlock, p: &OverrideBlock)
    ensures
        final(b)@ == old(b)@ + p@,
{
    let mut i: usize = 0;
    assert(b@ =~= old(b)@ + p@.take(0));
    while i < p.len()
        invariant
            i <= p@.len(),
            b@ == old(b)@ + p@.take(i as int),
        decreases p@.len() - i,
    {
        let k: String = p[i].0.clone();
        let v: OverrideValue = p[i].1.copy();
        b.push((k, v));
        i = i + 1;
        assert(b@ =~= old(b)@ + p@.take(i as int));
    }
    assert(p@.take(p@.len() as int) =~= p@);
}

/// Names alone decide where an entry is found.
proof fn lemma_same_names<V>(m: Seq<(String, V)>, w: Seq<(String, V)>, key: Seq<char>, n: nat)
    requires
        n <= m.len(),
        n <= w.len(),
        forall|i: int| 0 <= i < n ==> (#[trigger] m[i]).0@ == w[i].0@,
    ensures
        last_entry(m, key, n) == last_entry(w, key, n),
        last_entry(m, key, n) matches Some(i) ==> 0 <= i < n && m[i].0@ == key,
    decreases n,
{
    if n > 0 {
        lemma_same_names(m, w, key, (n - 1) as nat);
    }
}

impl Overrides {
    /// Insert the parameters into one symbol's block.
    fn insert_params(&mut self, name: &str, p: &OverrideBlock)
        ensures
            forall|k: Seq<char>| block_after(old(self).block(k), #[trigger] final(self).block(k), k == name@, p@),
    {
        let ghost m = self.per_symbol@;
        match find_entry(&self.per_symbol, name) {
            Some(i) => {
                append_block(&mut self.per_symbol[i].1, p);
                proof {
                    let w = self.per_symbol@;
                    assert forall|k: Seq<char>| block_after(old(self).block(k), #[trigger] self.block(k), k == name@, p@) by {
                        lemma_same_names(m, w, k, m.len());
                        lemma_same_names(m, w, name@, m.len());
                    }
                }
            },
            None => {
                let mut b: OverrideBlock = Vec::new();
                append_block(&mut b, p);
                assert(b@ =~= p@);
                let key: String = name.to_owned();
                self.per_symbol.push((key, b));
                proof {
                    let w = self.per_symbol@;
                    assert forall|k: Seq<char>| block_after(old(self).block(k), #[trigger] self.block(k), k == name@, p@) by {
                        lemma_same_names(m, w, k, m.len());
                    }
                }
            },
        }
    }

    /// Insert the parameters into the block of every instrument.
    fn insert_for_all(&mut self, metas: &Vec<SymbolMeta>, p: &OverrideBlock)
        requires
            forall|i: int, j: int| 0 <= i < j < metas@.len() ==> (#[trigger] metas@[i]).name@ != (#[trigger] metas@[j]).name@,
        ensures
            params_added(*old(self), *final(self), metas@, p@),
    {
        let mut i: usize = 0;
        assert forall|k: Seq<char>| block_after(old(self).block(k), #[trigger] self.block(k), has_instrument(metas@.take(0), k), p@) by {}
        while i < metas.len()
            invariant
                i <= metas@.len(),
                forall|i: int, j: int| 0 <= i < j < metas@.len() ==> (#[trigger] metas@[i]).name@ != (#[trigger] metas@[j]).name@,
                params_added(*old(self), *self, metas@.take(i as int), p@),
            decreases metas@.len() - i,
        {
            let ghost a = *self;
            self.insert_params(metas[i].name.as_str(), p);
            proof {
                let x = metas@[i as int].name@;
                let s = metas@.take(i as int);
                let t = metas@.take(i + 1);
                assert forall|k: Seq<char>| block_after(old(self).block(k), #[trigger] self.block(k), has_instrument(t, k), p@) by {
                    assert(block_after(old(self).block(k), a.block(k), has_instrument(s, k), p@));
                    assert(block_after(a.block(k), self.block(k), k == x, p@));
                    if has_instrument(s, k) {
                        let j = choose|j: int| 0 <= j < s.len() && (#[trigger] s[j]).name@ == k;
                        assert(t[j].name@ == k);
                        assert(metas@[j].name@ == k);
                        assert(k != x);
                    } else if k == x {
                        assert(t[i as int].name@ == k);
                    } else if has_instrument(t, k) {
                        let j = choose|j: int| 0 <= j < t.len() && (#[trigger] t[j]).name@ == k;
                        assert(s[j].name@ == k);
                    }
                }
            }
            i = i + 1;
        }
        assert(metas@.take(metas@.len() as int) =~= metas@);
    }
}

// ------------------------------------------------------------------------------
// The run
// ------------------------------------------------------------------------------

/// The configuration of a replay: it never re-records market data.
pub open spec fn replay_config(cfg: Config) -> Config {
    Config { recording: RecordingCfg { enabled: false, ..cfg.recording }, ..cfg }
}

/// A replay in progress.
pub struct Replay {
    pub engine: Engine,
    pub stats: ReplayStats,
    pub last_ts: i64,
    /// Local id (in the present segment) -> engine id.
    pub ids: Vec<Option<SymbolId>>,
}

/// The engine's id of the symbol with this name.
pub open spec fn engine_id(e: Engine, name: Seq<char>) -> Option<SymbolId> {
    match last_named(e.symbols@, name, e.symbols@.len()) {
        Some(i) => Some(i as SymbolId),
        None => None,
    }
}

/// The local ids, below `n`, of symbols that are replayed.
pub open spec fn known_ids(ids: Seq<Option<SymbolId>>, n: nat) -> Seq<SymbolId>
    decreases n,
{
    if n == 0 {
        Seq::empty()
    } else if ids[n - 1] is Some {
        known_ids(ids, (n - 1) as nat).push((n - 1) as SymbolId)
    } else {
        known_ids(ids, (n - 1) as nat)
    }
}

/// The engine's id behind a local id.
pub open spec fn mapped(ids: Seq<Option<SymbolId>>, local: SymbolId) -> Option<SymbolId> {
    if local < ids.len() {
        ids[local as int]
    } else {
        None
    }
}

/// `m` is what a recorded event becomes, for the symbol `sym` whose prices have so many fractional
/// digits.
pub open spec fn is_market_event(ev: MdEvent, sym: SymbolId, digits: u32, m: MarketEvent) -> bool {
    match ev {
        MdEvent::Bbo(b) => m == (MarketEvent::Bbo {
            sym,
            bbo: Bbo {
                ts: b.ts,
                bid: fixed_value(b.bid, price_places(digits)) as i64,
                ask: fixed_value(b.ask, price_places(digits)) as i64,
                bid_qty: fixed_value(b.bid_qty, qty_places(digits)) as i64,
                ask_qty: fixed_value(b.ask_qty, qty_places(digits)) as i64,
            },
        }),
        MdEvent::Trade(t) => m matches MarketEvent::Trades { sym: s, trades } && s == sym && trades@ == seq![
            Trade {
                ts: t.ts,
                price: fixed_value(t.price, price_places(digits)) as i64,
                qty: fixed_value(t.qty, qty_places(digits)) as i64,
                taker_side: Side::spec_from_u8(t.side),
            },
        ],
        MdEvent::Ref(b) => m == (MarketEvent::Reference {
            sym,
            ts: b.ts,
            bid: fixed_value(b.bid, price_places(digits)) as i64,
            ask: fixed_value(b.ask, price_places(digits)) as i64,
            rank: 0,
        }),
    }
}

/// The recorded event as a market event of the symbol.
pub fn market_event(ev: &MdEvent, sym: SymbolId, digits: u32) -> (m: MarketEvent)
    ensures
        is_market_event(*ev, sym, digits, m),
{
    let p: u32 = places_of_price(digits);
    let q: u32 = places_of_qty(digits);
    match ev {
        MdEvent::Bbo(b) => MarketEvent::Bbo {
            sym,
            bbo: Bbo {
                ts: b.ts,
                bid: fixed_of_bits(b.bid, p),
                ask: fixed_of_bits(b.ask, p),
                bid_qty: fixed_of_bits(b.bid_qty, q),
                ask_qty: fixed_of_bits(b.ask_qty, q),
            },
        },
        MdEvent::Trade(t) => {
            let mut trades: Vec<Trade> = Vec::new();
            trades.push(Trade { ts: t.ts, price: fixed_of_bits(t.price, p), qty: fixed_of_bits(t.qty, q), taker_side: Side::from_u8(t.side) });
            assert(trades@ =~= seq![trades@[0]]);
            MarketEvent::Trades { sym, trades }
        },
        MdEvent::Ref(b) => MarketEvent::Reference { sym, ts: b.ts, bid: fixed_of_bits(b.bid, p), ask: fixed_of_bits(b.ask, p), rank: 0 },
    }
}

/// The fractional digits that the engine's prices of a symbol have.
pub open spec fn digits_of(e: Engine, sym: SymbolId) -> u32 {
    if sym < e.symbols@.len() {
        e.sym(sym).meta.price_digits
    } else {
        8
    }
}

/// One recorded event taken: those of symbols that are not replayed change nothing.
pub open spec fn fed(a: Replay, b: Replay, ev: MdEvent, due: bool) -> bool {
    match mapped(a.ids@, ev.spec_sym()) {
        None => b == a && !due,
        Some(sym) => {
            &&& exists|m: MarketEvent|
                #[trigger] is_market_event(ev, sym, digits_of(a.engine, sym), m) && market_taken(a.engine, b.engine, m, ev.spec_ts(), due)
            &&& b.last_ts == ev.spec_ts()
            &&& b.stats == (ReplayStats {
                first_ts: if a.stats.first_ts == 0 { ev.spec_ts() } else { a.stats.first_ts },
                ..a.stats
            })
            &&& b.ids == a.ids
        },
    }
}

impl Replay {
    /// Set a replay up over the recorded segments of the requested period.
    pub fn prepare(
        cfg: Config,
        overrides: Overrides,
        lists: SymbolLists,
        req: &ReplayRequest,
        segs: &Vec<Segment>,
        null_store: bool,
        run_id: i64,
    ) -> (r: Result<Replay, ReplayError>)
        requires
            instruments(segs@, req.symbols@, segs@.len()).len() <= u32::MAX,
            forall|i: int|
                0 <= i < instruments(segs@, req.symbols@, segs@.len()).len() ==> (#[trigger] instruments(segs@, req.symbols@, segs@.len())[i]).tick_size
                    > 0,
        ensures
            ({
                let metas = instruments(segs@, req.symbols@, segs@.len());
                match r {
                    Err(ReplayError::NoData) => segs@.len() == 0,
                    Err(ReplayError::NoSymbols) => segs@.len() > 0 && metas.len() == 0,
                    Ok(x) => {
                        &&& segs@.len() > 0
                        &&& metas.len() > 0
                        &&& x.engine.wf()
                        &&& replay_overrides(overrides, x.engine.overrides, metas, req.params)
                        &&& started(x.engine, replay_config(cfg), x.engine.overrides, lists, metas, null_store, run_id, "replay"@, req.from_ms)
                        &&& x.stats == (ReplayStats {
                            segments: segs@.len() as usize,
                            symbols: metas.len() as usize,
                            n_bbo: 0,
                            n_trades: 0,
                            first_ts: 0,
                            last_ts: 0,
                            elapsed_ms: 0,
                        })
                        &&& x.last_ts == req.from_ms
                        &&& x.ids@.len() == 0
                    },
                }
            }),
    {
        if segs.len() == 0 {
            return Err(ReplayError::NoData);
        }
        let metas: Vec<SymbolMeta> = replay_instruments(segs, &req.symbols);
        if metas.len() == 0 {
            return Err(ReplayError::NoSymbols);
        }
        let mut ov: Overrides = overrides;
        if let Some(p) = &req.params {
            proof {
                law_instruments(segs@, req.symbols@, segs@.len());
            }
            ov.insert_for_all(&metas, p);
        }
        // replay never re-records market data
        let mut c: Config = cfg;
        c.recording.enabled = false;
        let ghost g = ov;
        let n: usize = metas.len();
        let engine: Engine = Engine::new(c, ov, lists, metas, null_store, run_id, "replay", req.from_ms);
        let mut stats: ReplayStats = ReplayStats::default();
        stats.segments = segs.len();
        stats.symbols = n;
        Ok(Replay { engine, stats, last_ts: req.from_ms, ids: Vec::new() })
    }

    /// Turn to a segment: from now on local ids are those of its symbols. Returns the local ids to
    /// read, or none when every one of them is replayed.
    pub fn open_segment(&mut self, seg: &Segment) -> (r: Option<Vec<SymbolId>>)
        requires
            old(self).engine.wf(),
            seg.symbols@.len() <= u32::MAX,
        ensures
            *final(self) == (Replay { ids: final(self).ids, ..*old(self) }),
            final(self).ids@.len() == seg.symbols@.len(),
            forall|i: int|
                0 <= i < seg.symbols@.len() ==> #[trigger] final(self).ids@[i] == engine_id(old(self).engine, seg.symbols@[i].name@),
            match r {
                None => forall|i: int| 0 <= i < seg.symbols@.len() ==> (#[trigger] final(self).ids@[i]) is Some,
                Some(v) => v@ == known_ids(final(self).ids@, final(self).ids@.len()) && exists|i: int|
                    0 <= i < seg.symbols@.len() && (#[trigger] final(self).ids@[i]) is None,
            },
    {
        let mut ids: Vec<Option<SymbolId>> = Vec::new();
        let mut known: Vec<SymbolId> = Vec::new();
        let mut all: bool = true;
        let mut i: usize = 0;
        while i < seg.symbols.len()
            invariant
                i <= seg.symbols@.len() <= u32::MAX,
                self.engine.wf(),
                *self == *old(self),
                ids@.len() == i,
                forall|k: int| 0 <= k < i ==> #[trigger] ids@[k] == engine_id(self.engine, seg.symbols@[k].name@),
                known@ == known_ids(ids@, i as nat),
                all ==> forall|k: int| 0 <= k < i ==> (#[trigger] ids@[k]) is Some,
                !all ==> exists|k: int| 0 <= k < i && (#[trigger] ids@[k]) is None,
            decreases seg.symbols@.len() - i,
        {
            let ghost before = ids@;
            let id: Option<SymbolId> = self.engine.symbol_id(seg.symbols[i].name.as_str());
            ids.push(id);
            if id.is_some() {
                known.push(i as SymbolId);
            } else {
                all = false;
                assert(ids@[i as int] is None);
            }
            proof {
                lemma_known_prefix(before, ids@, i as nat);
                if !all && id is Some {
                    let k = choose|k: int| 0 <= k < i && (#[trigger] before[k]) is None;
                    assert(ids@[k] is None);
                }
            }
            i = i + 1;
        }
        self.ids = ids;
        if all {
            None
        } else {
            Some(known)
        }
    }

    /// Hand a recorded event to the engine. Returns whether the engine's housekeeping is due.
    pub fn feed(&mut self, ev: &MdEvent) -> (due: bool)
        requires
            old(self).engine.wf(),
        ensures
            final(self).engine.wf(),
            fed(*old(self), *final(self), *ev, due),
    {
        let local: SymbolId = ev.sym();
        if local as usize >= self.ids.len() {
            return false;
        }
        match self.ids[local as usize] {
            None => false,
            Some(sym) => {
                let ts: i64 = ev.ts();
                if self.stats.first_ts == 0 {
                    self.stats.first_ts = ts;
                }
                self.last_ts = ts;
                let digits: u32 = if (sym as usize) < self.engine.symbols.len() {
                    self.engine.symbols[sym as usize].meta.price_digits
                } else {
                    8
                };
                let m: MarketEvent = market_event(ev, sym, digits);
                let ghost g = m;
                assert(is_market_event(*ev, sym, digits_of(old(self).engine, sym), g));
                self.engine.on_market(m, ts)
            },
        }
    }

    /// Count the records that were read from a segment.
    pub fn count(&mut self, n_bbo: u64, n_trades: u64)
        ensures
            *final(self) == (Replay {
                stats: ReplayStats {
                    n_bbo: crate::units::min_int(old(self).stats.n_bbo + n_bbo, u64::MAX as int) as u64,
                    n_trades: crate::units::min_int(old(self).stats.n_trades + n_trades, u64::MAX as int) as u64,
                    ..old(self).stats
                },
                ..*old(self)
            }),
    {
        self.stats.n_bbo = self.stats.n_bbo.saturating_add(n_bbo);
        self.stats.n_trades = self.stats.n_trades.saturating_add(n_trades);
    }

    /// End the run at the last event's time.
    pub fn finish(&mut self)
        requires
            old(self).engine.wf(),
        ensures
            final(self).engine.wf(),
            finished_run(old(self).engine, final(self).engine, old(self).last_ts),
            *final(self) == (Replay {
                engine: final(self).engine,
                stats: ReplayStats { last_ts: old(self).last_ts, ..old(self).stats },
                ..*old(self)
            }),
    {
        self.engine.finish(self.last_ts);
        self.stats.last_ts = self.last_ts;
    }

    pub fn report(&self, elapsed_ms: u128) -> (r: ReplayReport)
        requires
            self.engine.wf(),
        ensures
            is_summary(self.engine, r.summary),
            r.stats == (ReplayStats { elapsed_ms, ..self.stats }),
    {
        let mut stats: ReplayStats = self.stats;
        stats.elapsed_ms = elapsed_ms;
        ReplayReport { summary: self.engine.summary(), stats }
    }
}

proof fn lemma_known_prefix(a: Seq<Option<SymbolId>>, b: Seq<Option<SymbolId>>, n: nat)
    requires
        n <= a.len(),
        n <= b.len(),
        forall|k: int| 0 <= k < n ==> #[trigger] a[k] == b[k],
    ensures
        known_ids(a, n) == known_ids(b, n),
    decreases n,
{
    if n > 0 {
        lemma_known_prefix(a, b, (n - 1) as nat);
    }
}

/// The figure is read back from the float nearest to it.
pub open spec fn exact(x: i64) -> bool {
    -EXACT < x < EXACT
}

/// What the engine had recorded of a top of book is what a replay shows the engine.
pub proof fn law_recorded_quote_is_replayed(q: MdQuote, sym: SymbolId, m: MarketEvent)
    requires
        exact(q.bid) && exact(q.ask) && exact(q.bid_qty) && exact(q.ask_qty),
        is_market_event(MdEvent::Bbo(bbo_of(bbo_bytes(q.spec_record()))), sym, q.price_digits, m),
    ensures
        m == (MarketEvent::Bbo { sym, bbo: Bbo { ts: q.ts, bid: q.bid, ask: q.ask, bid_qty: q.bid_qty, ask_qty: q.ask_qty } }),
{
    law_bbo_round_trip(q.spec_record());
    law_float_round_trip(q.bid, price_places(q.price_digits));
    law_float_round_trip(q.ask, price_places(q.price_digits));
    law_float_round_trip(q.bid_qty, qty_places(q.price_digits));
    law_float_round_trip(q.ask_qty, qty_places(q.price_digits));
}

/// What the engine had recorded of the reference venue is what a replay shows the engine.
pub proof fn law_recorded_reference_is_replayed(q: MdQuote, sym: SymbolId, m: MarketEvent)
    requires
        exact(q.bid) && exact(q.ask),
        is_market_event(MdEvent::Ref(bbo_of(bbo_bytes(q.spec_record()))), sym, q.price_digits, m),
    ensures
        m == (MarketEvent::Reference { sym, ts: q.ts, bid: q.bid, ask: q.ask, rank: 0 }),
{
    law_bbo_round_trip(q.spec_record());
    law_float_round_trip(q.bid, price_places(q.price_digits));
    law_float_round_trip(q.ask, price_places(q.price_digits));
}

/// What the engine had recorded of a trade is what a replay shows the engine.
pub proof fn law_recorded_trade_is_replayed(p: MdPrint, sym: SymbolId, m: MarketEvent)
    requires
        exact(p.price) && exact(p.qty),
        is_market_event(MdEvent::Trade(trd_of(trd_bytes(p.spec_record()))), sym, p.price_digits, m),
    ensures
        m matches MarketEvent::Trades { sym: s, trades } && s == sym && trades@ == seq![
            Trade { ts: p.ts, price: p.price, qty: p.qty, taker_side: Side::spec_from_u8(p.side) },
        ],
{
    law_trd_round_trip(p.spec_record());
    law_float_round_trip(p.price, price_places(p.price_digits));
    law_float_round_trip(p.qty, qty_places(p.price_digits));
}

} // verus!
