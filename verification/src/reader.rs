//! Streams the records of one segment in timestamp order, filtered by time range and
//! (optionally) by local symbol id. At equal timestamps the order is trades, book, reference.

use vstd::prelude::*;
use crate::recorder::{bbo_of, trd_of, BboRec, TrdRec, BBO_REC_SIZE, TRD_REC_SIZE};
use crate::types::SymbolId;

verus! {

#[derive(Clone, Copy, Debug, PartialEq, Eq, Structural)]
pub enum MdEvent {
    Bbo(BboRec),
    Trade(TrdRec),
    Ref(BboRec),
}

impl MdEvent {
    pub open spec fn spec_ts(self) -> i64 {
        match self {
            MdEvent::Bbo(b) => b.ts,
            MdEvent::Ref(b) => b.ts,
            MdEvent::Trade(t) => t.ts,
        }
    }

    pub open spec fn spec_sym(self) -> SymbolId {
        match self {
            MdEvent::Bbo(b) => b.sym,
            MdEvent::Ref(b) => b.sym,
            MdEvent::Trade(t) => t.sym,
        }
    }

    pub fn ts(&self) -> (r: i64)
        ensures
            r == self.spec_ts(),
    {
        match self {
            MdEvent::Bbo(b) => b.ts,
            MdEvent::Ref(b) => b.ts,
            MdEvent::Trade(t) => t.ts,
        }
    }

    pub fn sym(&self) -> (r: SymbolId)
        ensures
            r == self.spec_sym(),
    {
        match self {
            MdEvent::Bbo(b) => b.sym,
            MdEvent::Ref(b) => b.sym,
            MdEvent::Trade(t) => t.sym,
        }
    }
}

/// Which events are wanted: a period, and the symbols unless every symbol is.
#[derive(Debug)]
pub struct Wanted {
    pub from_ms: i64,
    pub to_ms: i64,
    pub syms: Option<Vec<SymbolId>>,
}

impl Wanted {
    pub open spec fn has_sym(&self, sym: SymbolId) -> bool {
        self.syms matches Some(v) ==> v@.contains(sym)
    }

    pub open spec fn keeps(&self, e: MdEvent) -> bool {
        self.from_ms <= e.spec_ts() <= self.to_ms && self.has_sym(e.spec_sym())
    }

    fn wants_sym(&self, sym: SymbolId) -> (r: bool)
        ensures
            r == self.has_sym(sym),
    {
        match &self.syms {
            None => true,
            Some(v) => {
                let mut i: usize = 0;
                while i < v.len()
                    invariant
                        i <= v@.len(),
                        self.syms == Some(*v),
                        forall|j: int| 0 <= j < i ==> v@[j] != sym,
                    decreases v@.len() - i,
                {
                    if v[i] == sym {
                        assert(v@.contains(sym));
                        return true;
                    }
                    i = i + 1;
                }
                false
            },
        }
    }

    pub fn keep(&self, e: &MdEvent) -> (r: bool)
        ensures
            r == self.keeps(*e),
    {
        e.ts() >= self.from_ms && e.ts() <= self.to_ms && self.wants_sym(e.sym())
    }
}

/// The three streams of a segment, each at its next event.
#[derive(Clone, Copy, Debug, PartialEq, Eq, Structural)]
pub struct Heads {
    pub trade: Option<MdEvent>,
    pub book: Option<MdEvent>,
    pub reference: Option<MdEvent>,
}

/// The streams by name, in the order that decides ties.
#[derive(Clone, Copy, Debug, PartialEq, Eq, Structural)]
pub enum Source {
    Trade,
    Book,
    Reference,
}

/// `e` comes no later than the other head.
pub open spec fn no_later(e: MdEvent, other: Option<MdEvent>) -> bool {
    other matches Some(o) ==> e.spec_ts() <= o.spec_ts()
}

impl Heads {
    /// The stream with the earliest event; ties go to trades, then book, then reference.
    pub open spec fn spec_pick(&self) -> Option<(Source, MdEvent)> {
        if self.trade matches Some(t) && no_later(t, self.book) && no_later(t, self.reference) {
            Some((Source::Trade, self.trade->0))
        } else if self.book matches Some(b) && no_later(b, self.reference) {
            Some((Source::Book, self.book->0))
        } else if self.reference is Some {
            Some((Source::Reference, self.reference->0))
        } else {
            None
        }
    }

    pub fn pick(&self) -> (r: Option<(Source, MdEvent)>)
        ensures
            r == self.spec_pick(),
    {
        let mut best: Option<(Source, MdEvent)> = None;
        if let Some(e) = self.trade {
            best = Some((Source::Trade, e));
        }
        if let Some(e) = self.book {
            match best {
                Some((_, x)) => {
                    if e.ts() < x.ts() {
                        best = Some((Source::Book, e));
                    }
                },
                None => {
                    best = Some((Source::Book, e));
                },
            }
        }
        if let Some(e) = self.reference {
            match best {
                Some((_, x)) => {
                    if e.ts() < x.ts() {
                        best = Some((Source::Reference, e));
                    }
                },
                None => {
                    best = Some((Source::Reference, e));
                },
            }
        }
        best
    }
}

pub open spec fn head(s: Seq<MdEvent>) -> Option<MdEvent> {
    if s.len() > 0 {
        Some(s[0])
    } else {
        None
    }
}

pub open spec fn heads(t: Seq<MdEvent>, b: Seq<MdEvent>, r: Seq<MdEvent>) -> Heads {
    Heads { trade: head(t), book: head(b), reference: head(r) }
}

/// A stream after its first event was taken: past the end of the period it is exhausted.
pub open spec fn advanced(s: Seq<MdEvent>, to_ms: int) -> Seq<MdEvent> {
    if s[0].spec_ts() > to_ms {
        Seq::empty()
    } else {
        s.skip(1)
    }
}

/// The wanted events of three streams, always the earliest next.
pub open spec fn merged(t: Seq<MdEvent>, b: Seq<MdEvent>, r: Seq<MdEvent>, w: Wanted) -> Seq<MdEvent>
    decreases t.len() + b.len() + r.len(),
{
    match heads(t, b, r).spec_pick() {
        None => Seq::empty(),
        Some((s, e)) => {
            let rest = match s {
                Source::Trade => if t.len() > 0 {
                    merged(advanced(t, w.to_ms as int), b, r, w)
                } else {
                    Seq::empty()
                },
                Source::Book => if b.len() > 0 {
                    merged(t, advanced(b, w.to_ms as int), r, w)
                } else {
                    Seq::empty()
                },
                Source::Reference => if r.len() > 0 {
                    merged(t, b, advanced(r, w.to_ms as int), w)
                } else {
                    Seq::empty()
                },
            };
            if w.keeps(e) {
                seq![e] + rest
            } else {
                rest
            }
        },
    }
}

/// The trade records of a file, as far as they are whole.
pub open spec fn trades_in(b: Seq<u8>) -> Seq<MdEvent> {
    Seq::new((b.len() / 32) as nat, |i: int| MdEvent::Trade(trd_of(b.subrange(32 * i, 32 * i + 32))))
}

pub open spec fn books_in(b: Seq<u8>) -> Seq<MdEvent> {
    Seq::new((b.len() / 48) as nat, |i: int| MdEvent::Bbo(bbo_of(b.subrange(48 * i, 48 * i + 48))))
}

pub open spec fn refs_in(b: Seq<u8>) -> Seq<MdEvent> {
    Seq::new((b.len() / 48) as nat, |i: int| MdEvent::Ref(bbo_of(b.subrange(48 * i, 48 * i + 48))))
}

fn decode(b: &[u8], source: Source) -> (r: Vec<MdEvent>)
    ensures
        r@ == match source {
            Source::Trade => trades_in(b@),
            Source::Book => books_in(b@),
            Source::Reference => refs_in(b@),
        },
{
    let size: usize = match source {
        Source::Trade => TRD_REC_SIZE,
        _ => BBO_REC_SIZE,
    };
    let len: usize = b.len();
    let n: usize = len / size;
    let mut r: Vec<MdEvent> = Vec::new();
    let mut i: usize = 0;
    while i < n
        invariant
            i <= n,
            len == b@.len(),
            n == len / size,
            size == (if source == Source::Trade { 32usize } else { 48usize }),
            r@.len() == i,
            forall|k: int|
                0 <= k < i ==> #[trigger] r@[k] == match source {
                    Source::Trade => MdEvent::Trade(trd_of(b@.subrange(32 * k, 32 * k + 32))),
                    Source::Book => MdEvent::Bbo(bbo_of(b@.subrange(48 * k, 48 * k + 48))),
                    Source::Reference => MdEvent::Ref(bbo_of(b@.subrange(48 * k, 48 * k + 48))),
                },
        decreases n - i,
    {
        proof {
            assert((i + 1) * size <= len) by (nonlinear_arith)
                requires
                    i + 1 <= n,
                    n == len / size,
                    size > 0,
            ;
            assert(i * size + size == (i + 1) * size) by (nonlinear_arith);
            assert(i * size >= 0) by (nonlinear_arith);
        }
        let rec: &[u8] = vstd::slice::slice_subrange(b, i * size, i * size + size);
        let e: MdEvent = match source {
            Source::Trade => MdEvent::Trade(TrdRec::from_bytes(rec)),
            Source::Book => MdEvent::Bbo(BboRec::from_bytes(rec)),
            Source::Reference => MdEvent::Ref(BboRec::from_bytes(rec)),
        };
        r.push(e);
        i = i + 1;
    }
    proof {
        match source {
            Source::Trade => {
                assert(r@ =~= trades_in(b@));
            },
            Source::Book => {
                assert(r@ =~= books_in(b@));
            },
            Source::Reference => {
                assert(r@ =~= refs_in(b@));
            },
        }
    }
    r
}

/// What a merge in progress waits for.
#[derive(Clone, Copy, Debug, PartialEq, Eq, Structural)]
pub enum Need {
    /// Nothing: every stream is at its end.
    Done,
    /// The next record of this stream.
    Record(Source),
    /// No record: the stream that is next has come past the end of the period.
    Exhausted(Source),
}

/// Three streams being merged: their next events, and what has come out so far.
#[derive(Clone, Copy, Debug, PartialEq, Eq, Structural)]
pub struct Merge {
    pub heads: Heads,
    pub n_quotes: u64,
    pub n_trades: u64,
}

impl Heads {
    /// The heads once the stream has moved on to `following`.
    pub open spec fn moved_on(self, s: Source, following: Option<MdEvent>) -> Heads {
        match s {
            Source::Trade => Heads { trade: following, ..self },
            Source::Book => Heads { book: following, ..self },
            Source::Reference => Heads { reference: following, ..self },
        }
    }
}

pub open spec fn add_one(x: u64, yes: bool) -> int {
    if yes && x < u64::MAX {
        x + 1
    } else {
        x as int
    }
}

impl Merge {
    pub fn new(trade: Option<MdEvent>, book: Option<MdEvent>, reference: Option<MdEvent>) -> (r: Merge)
        ensures
            r == (Merge { heads: Heads { trade, book, reference }, n_quotes: 0, n_trades: 0 }),
    {
        Merge { heads: Heads { trade, book, reference }, n_quotes: 0, n_trades: 0 }
    }

    pub open spec fn spec_need(&self, to_ms: int) -> Need {
        match self.heads.spec_pick() {
            None => Need::Done,
            Some((s, e)) => if e.spec_ts() > to_ms {
                Need::Exhausted(s)
            } else {
                Need::Record(s)
            },
        }
    }

    /// What the next step needs.
    pub fn need(&self, w: &Wanted) -> (r: Need)
        ensures
            r == self.spec_need(w.to_ms as int),
    {
        match self.heads.pick() {
            None => Need::Done,
            Some((s, e)) => if e.ts() > w.to_ms {
                Need::Exhausted(s)
            } else {
                Need::Record(s)
            },
        }
    }

    /// The state after a step, and the event that comes out of it.
    pub open spec fn spec_step(self, w: Wanted, record: Option<MdEvent>) -> (Merge, Option<MdEvent>) {
        match self.heads.spec_pick() {
            None => (self, None),
            Some((s, e)) => {
                let following = if e.spec_ts() > w.to_ms { None } else { record };
                (
                    Merge {
                        heads: self.heads.moved_on(s, following),
                        n_quotes: add_one(self.n_quotes, w.keeps(e) && !(e is Trade)) as u64,
                        n_trades: add_one(self.n_trades, w.keeps(e) && e is Trade) as u64,
                    },
                    if w.keeps(e) {
                        Some(e)
                    } else {
                        None
                    },
                )
            },
        }
    }

    /// Take the earliest event; `record` is the record that follows it in its stream, if there is one.
    pub fn step(&mut self, w: &Wanted, record: Option<MdEvent>) -> (r: Option<MdEvent>)
        ensures
            (*final(self), r) == old(self).spec_step(*w, record),
    {
        match self.heads.pick() {
            None => None,
            Some((s, e)) => {
                let following: Option<MdEvent> = if e.ts() > w.to_ms {
                    None
                } else {
                    record
                };
                match s {
                    Source::Trade => {
                        self.heads.trade = following;
                    },
                    Source::Book => {
                        self.heads.book = following;
                    },
                    Source::Reference => {
                        self.heads.reference = following;
                    },
                }
                if w.keep(&e) {
                    match e {
                        MdEvent::Trade(_) => {
                            if self.n_trades < u64::MAX {
                                self.n_trades = self.n_trades + 1;
                            }
                        },
                        _ => {
                            if self.n_quotes < u64::MAX {
                                self.n_quotes = self.n_quotes + 1;
                            }
                        },
                    }
                    Some(e)
                } else {
                    None
                }
            },
        }
    }
}

/// What is left of a stream that is (or is not) the one a step takes from.
pub open spec fn left(s: Seq<MdEvent>, taken: bool, to_ms: int) -> Seq<MdEvent> {
    if taken {
        advanced(s, to_ms)
    } else {
        s
    }
}

/// The record that follows the first one of a stream.
pub open spec fn second(s: Seq<MdEvent>) -> Option<MdEvent> {
    head(s.skip(1))
}

/// Steps that are given the records as they follow one another in their streams put out the merged
/// streams: a step takes the first event off one stream, puts it out if it is wanted, and leaves the
/// merge of the rest to the steps after it; it needs no record exactly when there is nothing left.
pub proof fn law_merge_step(m: Merge, t: Seq<MdEvent>, b: Seq<MdEvent>, r: Seq<MdEvent>, w: Wanted)
    requires
        m.heads == heads(t, b, r),
    ensures
        match m.heads.spec_pick() {
            None => t.len() == 0 && b.len() == 0 && r.len() == 0 && merged(t, b, r, w) == Seq::<MdEvent>::empty(),
            Some((s, _)) => {
                let to = w.to_ms as int;
                let record = match s {
                    Source::Trade => second(t),
                    Source::Book => second(b),
                    Source::Reference => second(r),
                };
                let (t2, b2, r2) = (left(t, s == Source::Trade, to), left(b, s == Source::Book, to), left(r, s == Source::Reference, to));
                let (n, out) = m.spec_step(w, record);
                &&& n.heads == heads(t2, b2, r2)
                &&& t2.len() + b2.len() + r2.len() < t.len() + b.len() + r.len()
                &&& merged(t, b, r, w) == match out {
                    Some(e) => seq![e] + merged(t2, b2, r2, w),
                    None => merged(t2, b2, r2, w),
                }
            },
        },
{
}

fn head_at(v: &Vec<MdEvent>, i: usize) -> (r: Option<MdEvent>)
    requires
        i <= v@.len(),
    ensures
        r == head(v@.skip(i as int)),
{
    if i < v.len() {
        Some(v[i])
    } else {
        None
    }
}

fn next_at(v: &Vec<MdEvent>, i: usize, to_ms: i64) -> (r: usize)
    requires
        i < v@.len(),
    ensures
        i < r <= v@.len(),
        v@.skip(r as int) == advanced(v@.skip(i as int), to_ms as int),
{
    let n: usize = v.len();
    let r: usize = if v[i].ts() > to_ms {
        n
    } else {
        i + 1
    };
    assert(v@.skip(r as int) =~= advanced(v@.skip(i as int), to_ms as int));
    r
}

/// Number of trades among the events.
pub open spec fn trade_count(s: Seq<MdEvent>) -> int
    decreases s.len(),
{
    if s.len() == 0 {
        0
    } else {
        trade_count(s.drop_last()) + if s.last() is Trade {
            1int
        } else {
            0int
        }
    }
}

/// The wanted events of a segment, from the contents of its three files, with the number of quotes
/// and of trades among them.
pub fn read_segment(trd: &[u8], bbo: &[u8], rf: &[u8], w: &Wanted) -> (r: (Vec<MdEvent>, u64, u64))
    ensures
        r.0@ == merged(trades_in(trd@), books_in(bbo@), refs_in(rf@), *w),
        r.2 == trade_count(r.0@),
        r.1 + r.2 == r.0@.len(),
{
    let t: Vec<MdEvent> = decode(trd, Source::Trade);
    let b: Vec<MdEvent> = decode(bbo, Source::Book);
    let f: Vec<MdEvent> = decode(rf, Source::Reference);
    merge(&t, &b, &f, w)
}

fn merge(t: &Vec<MdEvent>, b: &Vec<MdEvent>, f: &Vec<MdEvent>, w: &Wanted) -> (r: (Vec<MdEvent>, u64, u64))
    ensures
        r.0@ == merged(t@, b@, f@, *w),
        r.2 == trade_count(r.0@),
        r.1 + r.2 == r.0@.len(),
{
    let mut out: Vec<MdEvent> = Vec::new();
    let mut m: Merge = Merge::new(head_at(t, 0), head_at(b, 0), head_at(f, 0));
    let mut i: usize = 0;
    let mut j: usize = 0;
    let mut k: usize = 0;
    let ghost all = merged(t@, b@, f@, *w);
    proof {
        assert(t@.skip(0) =~= t@);
        assert(b@.skip(0) =~= b@);
        assert(f@.skip(0) =~= f@);
        assert(out@ + all =~= all);
    }
    loop
        invariant
            i <= t@.len(),
            j <= b@.len(),
            k <= f@.len(),
            all == merged(t@, b@, f@, *w),
            m.heads == heads(t@.skip(i as int), b@.skip(j as int), f@.skip(k as int)),
            out@ + merged(t@.skip(i as int), b@.skip(j as int), f@.skip(k as int), *w) == all,
            m.n_trades == trade_count(out@),
            m.n_quotes + m.n_trades == out@.len(),
            out@.len() <= usize::MAX,
        ensures
            out@ == all,
            m.n_trades == trade_count(out@),
            m.n_quotes + m.n_trades == out@.len(),
        decreases t@.len() - i + b@.len() - j + f@.len() - k,
    {
        let ghost (ts, bs, fs) = (t@.skip(i as int), b@.skip(j as int), f@.skip(k as int));
        proof {
            law_merge_step(m, ts, bs, fs, *w);
            lemma_trade_count(out@);
        }
        let record: Option<MdEvent> = match m.need(w) {
            Need::Done => {
                assert(out@ + merged(ts, bs, fs, *w) =~= out@);
                break;
            },
            Need::Record(Source::Trade) | Need::Exhausted(Source::Trade) => {
                i = next_at(t, i, w.to_ms);
                head_at(t, i)
            },
            Need::Record(Source::Book) | Need::Exhausted(Source::Book) => {
                j = next_at(b, j, w.to_ms);
                head_at(b, j)
            },
            Need::Record(Source::Reference) | Need::Exhausted(Source::Reference) => {
                k = next_at(f, k, w.to_ms);
                head_at(f, k)
            },
        };
        let ghost before = out@;
        let ghost rest = merged(t@.skip(i as int), b@.skip(j as int), f@.skip(k as int), *w);
        match m.step(w, record) {
            None => {},
            Some(e) => {
                out.push(e);
                let _ = out.len();
                proof {
                    assert(out@ + rest =~= before + (seq![e] + rest));
                    assert(out@.drop_last() =~= before);
                }
            },
        }
    }
    (out, m.n_quotes, m.n_trades)
}

proof fn lemma_trade_count(s: Seq<MdEvent>)
    ensures
        0 <= trade_count(s) <= s.len(),
    decreases s.len(),
{
    if s.len() > 0 {
        lemma_trade_count(s.drop_last());
    }
}

/// In timestamp order.
pub open spec fn in_time_order(s: Seq<MdEvent>) -> bool {
    forall|i: int, j: int| 0 <= i < j < s.len() ==> (#[trigger] s[i]).spec_ts() <= (#[trigger] s[j]).spec_ts()
}

/// No event of the streams comes before `at`.
pub open spec fn starts_at(s: Seq<MdEvent>, at: int) -> bool {
    forall|i: int| 0 <= i < s.len() ==> at <= (#[trigger] s[i]).spec_ts()
}

proof fn lemma_advanced(s: Seq<MdEvent>, to_ms: int)
    requires
        s.len() > 0,
        in_time_order(s),
    ensures
        in_time_order(advanced(s, to_ms)),
        starts_at(advanced(s, to_ms), s[0].spec_ts() as int),
        starts_at(s, s[0].spec_ts() as int),
{
    let a = advanced(s, to_ms);
    assert forall|i: int, j: int| 0 <= i < j < a.len() implies (#[trigger] a[i]).spec_ts() <= (#[trigger] a[j]).spec_ts() by {
        assert(a[i] == s[i + 1] && a[j] == s[j + 1]);
    }
    assert forall|i: int| 0 <= i < a.len() implies s[0].spec_ts() <= (#[trigger] a[i]).spec_ts() by {
        assert(a[i] == s[i + 1]);
    }
}

proof fn lemma_front(s: Seq<MdEvent>, at: int)
    requires
        in_time_order(s),
        head(s) matches Some(e) ==> at <= e.spec_ts(),
    ensures
        starts_at(s, at),
{
    assert forall|i: int| 0 <= i < s.len() implies at <= (#[trigger] s[i]).spec_ts() by {
        if i > 0 {
            assert(s[0].spec_ts() <= s[i].spec_ts());
        }
    }
}

/// Files in timestamp order are read in timestamp order, and every event that comes out is wanted.
pub proof fn law_read_in_order(t: Seq<MdEvent>, b: Seq<MdEvent>, r: Seq<MdEvent>, w: Wanted)
    requires
        in_time_order(t),
        in_time_order(b),
        in_time_order(r),
    ensures
        in_time_order(merged(t, b, r, w)),
        forall|i: int| 0 <= i < merged(t, b, r, w).len() ==> w.keeps(#[trigger] merged(t, b, r, w)[i]),
{
    lemma_merged_order(t, b, r, w, i64::MIN as int);
}

proof fn lemma_merged_order(t: Seq<MdEvent>, b: Seq<MdEvent>, r: Seq<MdEvent>, w: Wanted, at: int)
    requires
        in_time_order(t),
        in_time_order(b),
        in_time_order(r),
        starts_at(t, at),
        starts_at(b, at),
        starts_at(r, at),
    ensures
        in_time_order(merged(t, b, r, w)),
        starts_at(merged(t, b, r, w), at),
        forall|i: int| 0 <= i < merged(t, b, r, w).len() ==> w.keeps(#[trigger] merged(t, b, r, w)[i]),
    decreases t.len() + b.len() + r.len(),
{
    let m = merged(t, b, r, w);
    match heads(t, b, r).spec_pick() {
        None => {},
        Some((s, e)) => {
            let to = w.to_ms as int;
            let now = e.spec_ts() as int;
            lemma_front(t, now);
            lemma_front(b, now);
            lemma_front(r, now);
            let rest = match s {
                Source::Trade => {
                    lemma_advanced(t, to);
                    lemma_merged_order(advanced(t, to), b, r, w, now);
                    merged(advanced(t, to), b, r, w)
                },
                Source::Book => {
                    lemma_advanced(b, to);
                    lemma_merged_order(t, advanced(b, to), r, w, now);
                    merged(t, advanced(b, to), r, w)
                },
                Source::Reference => {
                    lemma_advanced(r, to);
                    lemma_merged_order(t, b, advanced(r, to), w, now);
                    merged(t, b, advanced(r, to), w)
                },
            };
            assert(at <= now);
            if w.keeps(e) {
                assert(m =~= seq![e] + rest);
                assert forall|i: int, j: int| 0 <= i < j < m.len() implies (#[trigger] m[i]).spec_ts() <= (#[trigger] m[j]).spec_ts() by {
                    assert(m[j] == rest[j - 1]);
                    if i > 0 {
                        assert(m[i] == rest[i - 1]);
                    }
                }
                assert forall|i: int| 0 <= i < m.len() implies at <= (#[trigger] m[i]).spec_ts() && w.keeps(m[i]) by {
                    if i > 0 {
                        assert(m[i] == rest[i - 1]);
                    }
                }
            } else {
                assert forall|i: int| 0 <= i < m.len() implies at <= (#[trigger] m[i]).spec_ts() by {
                    assert(now <= rest[i].spec_ts());
                }
            }
        },
    }
}

/// How often `e` occurs.
pub open spec fn occurrences(s: Seq<MdEvent>, e: MdEvent) -> int
    decreases s.len(),
{
    if s.len() == 0 {
        0
    } else {
        occurrences(s.skip(1), e) + if s[0] == e {
            1int
        } else {
            0int
        }
    }
}

proof fn lemma_late_absent(s: Seq<MdEvent>, e: MdEvent)
    requires
        forall|i: int| 0 <= i < s.len() ==> (#[trigger] s[i]).spec_ts() > e.spec_ts(),
    ensures
        occurrences(s, e) == 0,
    decreases s.len(),
{
    if s.len() > 0 {
        let r = s.skip(1);
        assert forall|i: int| 0 <= i < r.len() implies (#[trigger] r[i]).spec_ts() > e.spec_ts() by {
            assert(r[i] == s[i + 1]);
        }
        lemma_late_absent(r, e);
        assert(s[0].spec_ts() > e.spec_ts());
    }
}

/// Taking the first event of a stream loses no wanted event but that one.
proof fn lemma_advanced_occurrences(s: Seq<MdEvent>, e: MdEvent, w: Wanted)
    requires
        s.len() > 0,
        in_time_order(s),
        w.keeps(e),
    ensures
        occurrences(s, e) == occurrences(advanced(s, w.to_ms as int), e) + if s[0] == e {
            1int
        } else {
            0int
        },
{
    if s[0].spec_ts() > w.to_ms {
        lemma_front(s, s[0].spec_ts() as int);
        lemma_late_absent(s, e);
    }
}

/// From files in timestamp order every wanted event comes out as often as it was recorded: none is
/// lost, none is doubled.
pub proof fn law_read_complete(t: Seq<MdEvent>, b: Seq<MdEvent>, r: Seq<MdEvent>, w: Wanted, e: MdEvent)
    requires
        in_time_order(t),
        in_time_order(b),
        in_time_order(r),
        w.keeps(e),
    ensures
        occurrences(merged(t, b, r, w), e) == occurrences(t, e) + occurrences(b, e) + occurrences(r, e),
    decreases t.len() + b.len() + r.len(),
{
    let m = merged(t, b, r, w);
    match heads(t, b, r).spec_pick() {
        None => {},
        Some((s, x)) => {
            let to = w.to_ms as int;
            let rest = match s {
                Source::Trade => {
                    lemma_advanced(t, to);
                    lemma_advanced_occurrences(t, e, w);
                    law_read_complete(advanced(t, to), b, r, w, e);
                    merged(advanced(t, to), b, r, w)
                },
                Source::Book => {
                    lemma_advanced(b, to);
                    lemma_advanced_occurrences(b, e, w);
                    law_read_complete(t, advanced(b, to), r, w, e);
                    merged(t, advanced(b, to), r, w)
                },
                Source::Reference => {
                    lemma_advanced(r, to);
                    lemma_advanced_occurrences(r, e, w);
                    law_read_complete(t, b, advanced(r, to), w, e);
                    merged(t, b, advanced(r, to), w)
                },
            };
            if w.keeps(x) {
                assert(m =~= seq![x] + rest);
                assert(m.skip(1) =~= rest);
            }
        },
    }
}

} // verus!
