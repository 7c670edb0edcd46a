//! What the engine hands to persistence, and the decisions of the writer that persists it: the
//! engine never waits for disk, messages are written in batches inside one transaction, a failed
//! write is retried a few times and at worst one batch is dropped.

use vstd::prelude::*;
use crate::bits::{bits_of_fixed, bits_value};
use crate::reader::MdEvent;
use crate::recorder::{BboRec, TrdRec};
use crate::types::{Fill, OrderDone, SymbolId};
use crate::units::{inc32, next32, places_of_price, places_of_qty, price_places, qty_places};

verus! {

/// A top of book to be recorded.
#[derive(Clone, Copy, Debug, PartialEq, Eq, Structural)]
pub struct MdQuote {
    pub ts: i64,
    pub sym: SymbolId,
    pub bid: i64,
    pub ask: i64,
    pub bid_qty: i64,
    pub ask_qty: i64,
    /// Fractional digits of the prices.
    pub price_digits: u32,
}

/// A public trade to be recorded.
#[derive(Clone, Copy, Debug, PartialEq, Eq, Structural)]
pub struct MdPrint {
    pub ts: i64,
    pub sym: SymbolId,
    pub side: u8,
    pub price: i64,
    pub qty: i64,
    /// Fractional digits of the price.
    pub price_digits: u32,
}

impl MdQuote {
    /// The record on disk: every figure as the float nearest to it.
    pub open spec fn spec_record(self) -> BboRec {
        BboRec {
            ts: self.ts,
            sym: self.sym,
            bid: bits_value(self.bid as int, price_places(self.price_digits)) as u64,
            ask: bits_value(self.ask as int, price_places(self.price_digits)) as u64,
            bid_qty: bits_value(self.bid_qty as int, qty_places(self.price_digits)) as u64,
            ask_qty: bits_value(self.ask_qty as int, qty_places(self.price_digits)) as u64,
        }
    }

    pub fn record(&self) -> (r: BboRec)
        ensures
            r == self.spec_record(),
    {
        let p: u32 = places_of_price(self.price_digits);
        let q: u32 = places_of_qty(self.price_digits);
        BboRec {
            ts: self.ts,
            sym: self.sym,
            bid: bits_of_fixed(self.bid, p),
            ask: bits_of_fixed(self.ask, p),
            bid_qty: bits_of_fixed(self.bid_qty, q),
            ask_qty: bits_of_fixed(self.ask_qty, q),
        }
    }
}

impl MdPrint {
    /// The record on disk.
    pub open spec fn spec_record(self) -> TrdRec {
        TrdRec {
            ts: self.ts,
            sym: self.sym,
            side: self.side,
            price: bits_value(self.price as int, price_places(self.price_digits)) as u64,
            qty: bits_value(self.qty as int, qty_places(self.price_digits)) as u64,
        }
    }

    pub fn record(&self) -> (r: TrdRec)
        ensures
            r == self.spec_record(),
    {
        let p: u32 = places_of_price(self.price_digits);
        let q: u32 = places_of_qty(self.price_digits);
        TrdRec { ts: self.ts, sym: self.sym, side: self.side, price: bits_of_fixed(self.price, p), qty: bits_of_fixed(self.qty, q) }
    }
}

/// Something worth telling the operator.
#[derive(Debug)]
pub enum Note {
    /// A feed connection reports its status.
    Feed { conn: usize, msg: String },
    /// The kill switch tripped at this profit of the day.
    KillSwitch { daily_pnl: i128, limit: i64 },
    /// The active set changed.
    ActiveSet { n_active: usize, activated: Vec<String>, deactivated: Vec<String> },
    /// New parameters are in force; so many symbols kept theirs because an override was refused.
    ConfigReloaded { version: u32, rejected: u32 },
    /// The files could not be read anew; the previous configuration stays.
    ConfigRejected { why: String },
}

#[derive(Debug)]
pub struct SymbolStatsRow {
    pub ts: i64,
    pub symbol: String,
    /// Fractional digits of the prices.
    pub price_digits: u32,
    pub spread_med_bps: i64,
    pub spread_mean_bps: i64,
    pub vol_bps: i64,
    pub trades_per_min: i64,
    pub turnover_24h: i64,
    pub eligible: bool,
    pub reason: &'static str,
    pub score: i64,
    pub active: bool,
    pub bid: i64,
    pub ask: i64,
    pub position_qty: i64,
    pub quote_reason: &'static str,
    pub markout_bps: i64,
    pub markout_n: u32,
    pub ref_dev_bps: i64,
}

#[derive(Debug)]
pub struct PnlRow {
    pub ts: i64,
    pub equity: i128,
    pub realized: i128,
    pub fees: i128,
    pub unrealized: i128,
    pub gross_exposure: i128,
    pub open_positions: usize,
    pub n_fills: u64,
    pub daily_pnl: i128,
    pub max_drawdown: i128,
    pub n_live_orders: usize,
    pub n_active_symbols: usize,
    pub halted: bool,
}

#[derive(Debug)]
pub enum StoreMsg {
    RunStart { started_ts: i64, mode: String },
    RunEnd { ended_ts: i64 },
    Fill { fill: Fill, symbol: String, price_digits: u32, realized: i128 },
    OrderDone { done: OrderDone, symbol: String, price_digits: u32 },
    PositionState {
        symbol: String,
        price_digits: u32,
        qty: i64,
        avg_price: i64,
        realized_pnl: i128,
        fees: i128,
        opened_ts: i64,
        last_mid: i64,
        updated_ts: i64,
    },
    SymbolStats(SymbolStatsRow),
    Pnl(PnlRow),
    Event { ts: i64, level: &'static str, note: Note },
    ParamVersion { version: u32, ts: i64 },
    MdBbo(MdQuote),
    MdTrade(MdPrint),
    MdRef(MdQuote),
    Shutdown,
}

impl StoreMsg {
    /// The message becomes a row of the database.
    pub open spec fn spec_is_row(&self) -> bool {
        !(self is MdBbo || self is MdTrade || self is MdRef || self is Shutdown)
    }

    pub fn is_row(&self) -> (r: bool)
        ensures
            r == self.spec_is_row(),
    {
        match self {
            StoreMsg::MdBbo(_) | StoreMsg::MdTrade(_) | StoreMsg::MdRef(_) | StoreMsg::Shutdown => false,
            _ => true,
        }
    }

    pub fn is_shutdown(&self) -> (r: bool)
        ensures
            r == (self is Shutdown),
    {
        match self {
            StoreMsg::Shutdown => true,
            _ => false,
        }
    }
}

/// Number of rows among the messages.
pub open spec fn row_count(s: Seq<StoreMsg>) -> int
    decreases s.len(),
{
    if s.len() == 0 {
        0
    } else {
        row_count(s.drop_last()) + if s.last().spec_is_row() {
            1int
        } else {
            0int
        }
    }
}

pub open spec fn has_shutdown(s: Seq<StoreMsg>) -> bool {
    exists|i: int| 0 <= i < s.len() && (#[trigger] s[i]) is Shutdown
}

/// What a batch asks of the writer.
#[derive(Clone, Copy, Debug, PartialEq, Eq, Structural)]
pub struct BatchPlan {
    /// Stop after this batch.
    pub shutdown: bool,
    /// Rows for the database.
    pub rows: usize,
}

/// A burst cannot starve durability: a batch takes at most 2000 messages.
pub fn takes_more(batch_len: usize) -> (r: bool)
    ensures
        r == (batch_len < 2000),
{
    batch_len < 2000
}

pub fn plan_batch(batch: &Vec<StoreMsg>) -> (r: BatchPlan)
    ensures
        r.shutdown == has_shutdown(batch@),
        r.rows == row_count(batch@),
{
    let mut shutdown: bool = false;
    let mut rows: usize = 0;
    let mut i: usize = 0;
    assert(batch@.take(0) =~= Seq::<StoreMsg>::empty());
    while i < batch.len()
        invariant
            i <= batch@.len(),
            shutdown == has_shutdown(batch@.take(i as int)),
            rows == row_count(batch@.take(i as int)),
            rows <= i,
        decreases batch@.len() - i,
    {
        let ghost s = batch@.take(i as int);
        let ghost t = batch@.take(i + 1);
        proof {
            assert(t.drop_last() =~= s);
            assert(t.last() == batch@[i as int]);
        }
        if batch[i].is_row() {
            rows = rows + 1;
        }
        if batch[i].is_shutdown() {
            shutdown = true;
            assert(t[i as int] is Shutdown);
        }
        proof {
            if has_shutdown(s) {
                let k = choose|k: int| 0 <= k < s.len() && (#[trigger] s[k]) is Shutdown;
                assert(t[k] is Shutdown);
            }
            if has_shutdown(t) {
                let k = choose|k: int| 0 <= k < t.len() && (#[trigger] t[k]) is Shutdown;
                if k < i {
                    assert(s[k] is Shutdown);
                }
            }
        }
        i = i + 1;
    }
    assert(batch@.take(i as int) =~= batch@);
    BatchPlan { shutdown, rows }
}

/// The market data among the messages, as records, in their order.
pub open spec fn records_of(ms: Seq<StoreMsg>) -> Seq<MdEvent>
    decreases ms.len(),
{
    if ms.len() == 0 {
        Seq::empty()
    } else {
        let r = records_of(ms.drop_last());
        match ms.last() {
            StoreMsg::MdBbo(q) => r.push(MdEvent::Bbo(q.spec_record())),
            StoreMsg::MdTrade(p) => r.push(MdEvent::Trade(p.spec_record())),
            StoreMsg::MdRef(q) => r.push(MdEvent::Ref(q.spec_record())),
            _ => r,
        }
    }
}

/// What a batch has for the market data files.
pub fn md_records(batch: &Vec<StoreMsg>) -> (r: Vec<MdEvent>)
    ensures
        r@ == records_of(batch@),
{
    let mut r: Vec<MdEvent> = Vec::new();
    let mut i: usize = 0;
    assert(batch@.take(0) =~= Seq::<StoreMsg>::empty());
    while i < batch.len()
        invariant
            i <= batch@.len(),
            r@ == records_of(batch@.take(i as int)),
        decreases batch@.len() - i,
    {
        assert(batch@.take(i + 1).drop_last() =~= batch@.take(i as int));
        match &batch[i] {
            StoreMsg::MdBbo(q) => {
                r.push(MdEvent::Bbo(q.record()));
            },
            StoreMsg::MdTrade(p) => {
                r.push(MdEvent::Trade(p.record()));
            },
            StoreMsg::MdRef(q) => {
                r.push(MdEvent::Ref(q.record()));
            },
            _ => {},
        }
        i = i + 1;
    }
    assert(batch@.take(i as int) =~= batch@);
    r
}

/// What to do after an attempt to write a batch.
#[derive(Clone, Copy, Debug, PartialEq, Eq, Structural)]
pub enum AfterWrite {
    /// Written; if earlier attempts had failed, so many of them.
    Written { recovered_after: u32 },
    /// Wait and try again.
    Retry,
    /// Give the batch up.
    Drop,
}

/// Progress of the writer with its database.
#[derive(Clone, Copy, Debug, PartialEq, Eq, Structural)]
pub struct WriterState {
    /// Failed attempts on the present batch.
    pub attempt: u32,
    /// Failed attempts in a row, over all batches.
    pub failures: u32,
    /// When a market-data error was last reported.
    pub md_error_logged_ms: i64,
}

impl WriterState {
    pub fn new() -> (r: WriterState)
        ensures
            r == (WriterState { attempt: 0, failures: 0, md_error_logged_ms: 0 }),
    {
        WriterState { attempt: 0, failures: 0, md_error_logged_ms: 0 }
    }

    /// A new batch has not failed yet.
    pub fn begin_batch(&mut self)
        ensures
            *final(self) == (WriterState { attempt: 0, ..*old(self) }),
    {
        self.attempt = 0;
    }

    /// The state after an attempt, and what to do. The fifth failure of a batch drops it.
    pub open spec fn attempted(self, ok: bool) -> (WriterState, AfterWrite) {
        if ok {
            (WriterState { failures: 0, ..self }, AfterWrite::Written { recovered_after: self.failures })
        } else {
            let n = inc32(self.attempt);
            (
                WriterState { attempt: n, failures: inc32(self.failures), ..self },
                if n >= 5 {
                    AfterWrite::Drop
                } else {
                    AfterWrite::Retry
                },
            )
        }
    }

    /// Take in the outcome of an attempt.
    pub fn written(&mut self, ok: bool) -> (r: AfterWrite)
        ensures
            (*final(self), r) == old(self).attempted(ok),
    {
        if ok {
            let n: u32 = self.failures;
            self.failures = 0;
            AfterWrite::Written { recovered_after: n }
        } else {
            self.attempt = next32(self.attempt);
            self.failures = next32(self.failures);
            if self.attempt >= 5 {
                AfterWrite::Drop
            } else {
                AfterWrite::Retry
            }
        }
    }

    /// Whether a market-data error is reported now: at most one a minute is.
    pub fn reports_md_error(&mut self, now: i64) -> (r: bool)
        ensures
            r == (now - old(self).md_error_logged_ms > 60_000),
            *final(self) == (WriterState {
                md_error_logged_ms: if r {
                    now
                } else {
                    old(self).md_error_logged_ms
                },
                ..*old(self)
            }),
    {
        if now as i128 - self.md_error_logged_ms as i128 > 60_000 {
            self.md_error_logged_ms = now;
            true
        } else {
            false
        }
    }
}

/// The state after `n` failures of a batch.
pub open spec fn failed(s: WriterState, n: nat) -> WriterState
    decreases n,
{
    if n == 0 {
        s
    } else {
        failed(s, (n - 1) as nat).attempted(false).0
    }
}

/// A batch that keeps failing is tried five times in all and then dropped.
pub proof fn law_five_attempts(s: WriterState, n: nat)
    requires
        s.attempt == 0,
        n < 5,
    ensures
        failed(s, n).attempt == n,
        failed(s, n).attempted(false).1 == if n < 4 {
            AfterWrite::Retry
        } else {
            AfterWrite::Drop
        },
    decreases n,
{
    if n > 0 {
        law_five_attempts(s, (n - 1) as nat);
    }
}

// ------------------------------------------------------------------------------
// A whole run of the writer
// ------------------------------------------------------------------------------

/// A batch, and what the database answers to each attempt to write it.
pub struct BatchRun {
    pub msgs: Seq<StoreMsg>,
    pub ok: spec_fn(nat) -> bool,
}

/// The attempts on a batch from the `k`th on: the state after the last one, and whether the batch was
/// written.
pub open spec fn attempts(s: WriterState, ok: spec_fn(nat) -> bool, k: nat) -> (WriterState, bool)
    decreases 5 - s.attempt,
{
    let (t, a) = s.attempted(ok(k));
    match a {
        AfterWrite::Written { .. } => (t, true),
        AfterWrite::Drop => (t, false),
        AfterWrite::Retry => if s.attempt < 5 {
            attempts(t, ok, k + 1)
        } else {
            (t, false)
        },
    }
}

/// One batch: without rows the database is left alone.
pub open spec fn batch_done(s: WriterState, b: BatchRun) -> (WriterState, bool) {
    if row_count(b.msgs) == 0 {
        (s, true)
    } else {
        attempts(WriterState { attempt: 0, ..s }, b.ok, 0)
    }
}

/// The writer's state before batch `n`.
pub open spec fn state_before(s: WriterState, bs: Seq<BatchRun>, n: nat) -> WriterState
    decreases n,
{
    if n == 0 {
        s
    } else {
        batch_done(state_before(s, bs, (n - 1) as nat), bs[n - 1]).0
    }
}

/// The messages that become rows, in their order.
pub open spec fn rows_only(ms: Seq<StoreMsg>) -> Seq<StoreMsg>
    decreases ms.len(),
{
    if ms.len() == 0 {
        Seq::empty()
    } else if ms.last().spec_is_row() {
        rows_only(ms.drop_last()).push(ms.last())
    } else {
        rows_only(ms.drop_last())
    }
}

/// What the first `n` batches have brought into the database.
pub open spec fn committed(s: WriterState, bs: Seq<BatchRun>, n: nat) -> Seq<StoreMsg>
    decreases n,
{
    if n == 0 {
        Seq::empty()
    } else {
        let r = committed(s, bs, (n - 1) as nat);
        if batch_done(state_before(s, bs, (n - 1) as nat), bs[n - 1]).1 {
            r + rows_only(bs[n - 1].msgs)
        } else {
            r
        }
    }
}

/// The batch has rows, and the first five attempts to write them fail.
pub open spec fn fails_five_times(b: BatchRun) -> bool {
    row_count(b.msgs) > 0 && forall|k: nat| k < 5 ==> !#[trigger] (b.ok)(k)
}

/// The messages of those of the first `n` batches that do not fail five times.
pub open spec fn delivered(bs: Seq<BatchRun>, n: nat) -> Seq<StoreMsg>
    decreases n,
{
    if n == 0 {
        Seq::empty()
    } else if fails_five_times(bs[n - 1]) {
        delivered(bs, (n - 1) as nat)
    } else {
        delivered(bs, (n - 1) as nat) + bs[n - 1].msgs
    }
}

/// The messages of the first `n` batches.
pub open spec fn received(bs: Seq<BatchRun>, n: nat) -> Seq<StoreMsg>
    decreases n,
{
    if n == 0 {
        Seq::empty()
    } else {
        received(bs, (n - 1) as nat) + bs[n - 1].msgs
    }
}

proof fn lemma_attempts(s: WriterState, b: BatchRun, k: nat)
    requires
        s.attempt == k,
        k < 5,
        row_count(b.msgs) > 0,
        forall|j: nat| j < k ==> !#[trigger] (b.ok)(j),
    ensures
        attempts(s, b.ok, k).1 == !fails_five_times(b),
        attempts(s, b.ok, k).0.attempt <= 5,
    decreases 5 - k,
{
    if !(b.ok)(k) {
        if k < 4 {
            lemma_attempts(s.attempted(false).0, b, k + 1);
        }
    }
}

proof fn lemma_rows_only_add(a: Seq<StoreMsg>, b: Seq<StoreMsg>)
    ensures
        rows_only(a + b) == rows_only(a) + rows_only(b),
    decreases b.len(),
{
    if b.len() == 0 {
        assert(a + b =~= a);
        assert(rows_only(a) + rows_only(b) =~= rows_only(a));
    } else {
        lemma_rows_only_add(a, b.drop_last());
        assert((a + b).drop_last() =~= a + b.drop_last());
        assert((a + b).last() == b.last());
        assert(rows_only(a + b) =~= rows_only(a) + rows_only(b));
    }
}

proof fn lemma_no_rows(ms: Seq<StoreMsg>)
    ensures
        rows_only(ms).len() == row_count(ms),
    decreases ms.len(),
{
    if ms.len() > 0 {
        lemma_no_rows(ms.drop_last());
    }
}

/// Over a whole run the database gets every row of every batch that does not fail five times, once
/// and in the order of the messages, and nothing else; a batch that fails five times is given up
/// whole and the next one is tried all the same.
pub proof fn law_rows_committed(s: WriterState, bs: Seq<BatchRun>, n: nat)
    requires
        n <= bs.len(),
    ensures
        committed(s, bs, n) == rows_only(delivered(bs, n)),
    decreases n,
{
    if n > 0 {
        law_rows_committed(s, bs, (n - 1) as nat);
        let b = bs[n - 1];
        let t = state_before(s, bs, (n - 1) as nat);
        lemma_no_rows(b.msgs);
        lemma_rows_only_add(delivered(bs, (n - 1) as nat), b.msgs);
        if row_count(b.msgs) > 0 {
            lemma_attempts(WriterState { attempt: 0, ..t }, b, 0);
        }
    }
}

/// If no batch fails five times, every row that was received is committed exactly once, in order.
pub proof fn law_all_rows_committed(s: WriterState, bs: Seq<BatchRun>, n: nat)
    requires
        n <= bs.len(),
        forall|i: int| 0 <= i < n ==> !fails_five_times(#[trigger] bs[i]),
    ensures
        committed(s, bs, n) == rows_only(received(bs, n)),
    decreases n,
{
    law_rows_committed(s, bs, n);
    lemma_all_delivered(bs, n);
}

/// The records of the first `n` batches, as they go to the files.
pub open spec fn recorded(bs: Seq<BatchRun>, n: nat) -> Seq<MdEvent>
    decreases n,
{
    if n == 0 {
        Seq::empty()
    } else {
        recorded(bs, (n - 1) as nat) + records_of(bs[n - 1].msgs)
    }
}

proof fn lemma_records_add(a: Seq<StoreMsg>, b: Seq<StoreMsg>)
    ensures
        records_of(a + b) == records_of(a) + records_of(b),
    decreases b.len(),
{
    if b.len() == 0 {
        assert(a + b =~= a);
        assert(records_of(a) + records_of(b) =~= records_of(a));
    } else {
        lemma_records_add(a, b.drop_last());
        assert((a + b).drop_last() =~= a + b.drop_last());
        assert((a + b).last() == b.last());
        assert(records_of(a + b) =~= records_of(a) + records_of(b));
    }
}

/// However the messages are cut into batches, and whatever the database answers, the market data goes
/// to the files once and in order; and some batch tells the writer to stop exactly when the order to
/// stop was among the messages.
pub proof fn law_market_data_recorded(bs: Seq<BatchRun>, n: nat)
    requires
        n <= bs.len(),
    ensures
        recorded(bs, n) == records_of(received(bs, n)),
        has_shutdown(received(bs, n)) <==> exists|i: int| 0 <= i < n && has_shutdown((#[trigger] bs[i]).msgs),
    decreases n,
{
    if n > 0 {
        law_market_data_recorded(bs, (n - 1) as nat);
        let a = received(bs, (n - 1) as nat);
        let b = bs[n - 1].msgs;
        lemma_records_add(a, b);
        if has_shutdown(a + b) {
            let k = choose|k: int| 0 <= k < (a + b).len() && (#[trigger] (a + b)[k]) is Shutdown;
            if k < a.len() {
                assert(a[k] is Shutdown);
            } else {
                assert(b[k - a.len()] is Shutdown);
                assert(has_shutdown(bs[n - 1].msgs));
            }
        }
        if exists|i: int| 0 <= i < n && has_shutdown((#[trigger] bs[i]).msgs) {
            let i = choose|i: int| 0 <= i < n && has_shutdown((#[trigger] bs[i]).msgs);
            if i == n - 1 {
                let k = choose|k: int| 0 <= k < b.len() && (#[trigger] b[k]) is Shutdown;
                assert((a + b)[a.len() + k] is Shutdown);
            } else {
                let k = choose|k: int| 0 <= k < a.len() && (#[trigger] a[k]) is Shutdown;
                assert((a + b)[k] is Shutdown);
            }
        }
    }
}

proof fn lemma_all_delivered(bs: Seq<BatchRun>, n: nat)
    requires
        n <= bs.len(),
        forall|i: int| 0 <= i < n ==> !fails_five_times(#[trigger] bs[i]),
    ensures
        delivered(bs, n) == received(bs, n),
    decreases n,
{
    if n > 0 {
        lemma_all_delivered(bs, (n - 1) as nat);
        assert(!fails_five_times(bs[n - 1]));
    }
}

} // verus!
