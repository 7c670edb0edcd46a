//! Binary market-data recording (one set of files per UTC day and run) and the reader
//! used by replay. Records are little-endian, fixed size:
//!
//! * BBO   (48 bytes): ts i64, sym u32, pad u32, bid f64, ask f64, bid_qty f64, ask_qty f64
//! * Trade (32 bytes): ts i64, sym u32, side u8, pad[3], price f64, qty f64
//!
//! Symbol ids are local to the run; `run{run_id}_symbols.json` maps them to the full
//! symbol list so replay can rebuild tick sizes and lot steps. Prices and sizes are held here as
//! the bit patterns of the 64-bit floats in the records.

use vstd::prelude::*;
use vstd::utf8::encode_utf8;
use crate::bytes::{law_le_round_trip, le_bytes, le_value, lemma_pow256, push_le, read_le, signed_of, to_signed, to_unsigned, unsigned_of};
use crate::order::{before, stable_order};
use crate::text::{integer_value, parse_integer_bytes};
use crate::types::{SymbolId, SymbolMeta};

verus! {

pub const BBO_REC_SIZE: usize = 48;

pub const TRD_REC_SIZE: usize = 32;

pub const DAY_MS: i64 = 86_400_000;

#[derive(Clone, Copy, Debug, PartialEq, Eq, Structural)]
pub struct BboRec {
    pub ts: i64,
    pub sym: SymbolId,
    pub bid: u64,
    pub ask: u64,
    pub bid_qty: u64,
    pub ask_qty: u64,
}

#[derive(Clone, Copy, Debug, PartialEq, Eq, Structural)]
pub struct TrdRec {
    pub ts: i64,
    pub sym: SymbolId,
    pub side: u8,
    pub price: u64,
    pub qty: u64,
}

pub open spec fn zeros(n: nat) -> Seq<u8> {
    Seq::new(n, |i: int| 0u8)
}

/// The bytes of a top-of-book record.
pub open spec fn bbo_bytes(r: BboRec) -> Seq<u8> {
    le_bytes(unsigned_of(r.ts), 8) + le_bytes(r.sym as int, 4) + zeros(4) + le_bytes(r.bid as int, 8) + le_bytes(r.ask as int, 8) + le_bytes(
        r.bid_qty as int,
        8,
    ) + le_bytes(r.ask_qty as int, 8)
}

/// The bytes of a trade record.
pub open spec fn trd_bytes(r: TrdRec) -> Seq<u8> {
    le_bytes(unsigned_of(r.ts), 8) + le_bytes(r.sym as int, 4) + seq![r.side] + zeros(3) + le_bytes(r.price as int, 8) + le_bytes(
        r.qty as int,
        8,
    )
}

/// The record in the first 48 bytes.
pub open spec fn bbo_of(b: Seq<u8>) -> BboRec {
    BboRec {
        ts: signed_of(le_value(b.subrange(0, 8))) as i64,
        sym: le_value(b.subrange(8, 12)) as u32,
        bid: le_value(b.subrange(16, 24)) as u64,
        ask: le_value(b.subrange(24, 32)) as u64,
        bid_qty: le_value(b.subrange(32, 40)) as u64,
        ask_qty: le_value(b.subrange(40, 48)) as u64,
    }
}

/// The record in the first 32 bytes.
pub open spec fn trd_of(b: Seq<u8>) -> TrdRec {
    TrdRec {
        ts: signed_of(le_value(b.subrange(0, 8))) as i64,
        sym: le_value(b.subrange(8, 12)) as u32,
        side: b[12],
        price: le_value(b.subrange(16, 24)) as u64,
        qty: le_value(b.subrange(24, 32)) as u64,
    }
}

/// A top-of-book record is read back from its 48 bytes.
pub proof fn law_bbo_round_trip(r: BboRec)
    ensures
        bbo_bytes(r).len() == BBO_REC_SIZE,
        bbo_of(bbo_bytes(r)) == r,
{
    lemma_pow256();
    law_le_round_trip(unsigned_of(r.ts), 8);
    law_le_round_trip(r.sym as int, 4);
    law_le_round_trip(r.bid as int, 8);
    law_le_round_trip(r.ask as int, 8);
    law_le_round_trip(r.bid_qty as int, 8);
    law_le_round_trip(r.ask_qty as int, 8);
    let b = bbo_bytes(r);
    assert(b.subrange(0, 8) =~= le_bytes(unsigned_of(r.ts), 8));
    assert(b.subrange(8, 12) =~= le_bytes(r.sym as int, 4));
    assert(b.subrange(16, 24) =~= le_bytes(r.bid as int, 8));
    assert(b.subrange(24, 32) =~= le_bytes(r.ask as int, 8));
    assert(b.subrange(32, 40) =~= le_bytes(r.bid_qty as int, 8));
    assert(b.subrange(40, 48) =~= le_bytes(r.ask_qty as int, 8));
}

/// A trade record is read back from its 32 bytes.
pub proof fn law_trd_round_trip(r: TrdRec)
    ensures
        trd_bytes(r).len() == TRD_REC_SIZE,
        trd_of(trd_bytes(r)) == r,
{
    lemma_pow256();
    law_le_round_trip(unsigned_of(r.ts), 8);
    law_le_round_trip(r.sym as int, 4);
    law_le_round_trip(r.price as int, 8);
    law_le_round_trip(r.qty as int, 8);
    let b = trd_bytes(r);
    assert(b.subrange(0, 8) =~= le_bytes(unsigned_of(r.ts), 8));
    assert(b.subrange(8, 12) =~= le_bytes(r.sym as int, 4));
    assert(b.subrange(16, 24) =~= le_bytes(r.price as int, 8));
    assert(b.subrange(24, 32) =~= le_bytes(r.qty as int, 8));
}

fn push_zeros(out: &mut Vec<u8>, n: usize)
    ensures
        final(out)@ == old(out)@ + zeros(n as nat),
{
    let mut i: usize = 0;
    assert(out@ =~= old(out)@ + zeros(0));
    while i < n
        invariant
            i <= n,
            out@ == old(out)@ + zeros(i as nat),
        decreases n - i,
    {
        out.push(0);
        i = i + 1;
        assert(out@ =~= old(out)@ + zeros(i as nat));
    }
}

impl BboRec {
    pub fn to_bytes(&self) -> (r: [u8; BBO_REC_SIZE])
        ensures
            r@ == bbo_bytes(*self),
    {
        let mut v: Vec<u8> = Vec::new();
        push_le(&mut v, to_unsigned(self.ts), 8);
        push_le(&mut v, self.sym as u64, 4);
        push_zeros(&mut v, 4);
        push_le(&mut v, self.bid, 8);
        push_le(&mut v, self.ask, 8);
        push_le(&mut v, self.bid_qty, 8);
        push_le(&mut v, self.ask_qty, 8);
        proof {
            law_bbo_round_trip(*self);
            assert(v@ =~= bbo_bytes(*self));
        }
        let mut b: [u8; BBO_REC_SIZE] = [0; 48];
        let mut i: usize = 0;
        while i < BBO_REC_SIZE
            invariant
                i <= BBO_REC_SIZE,
                v@.len() == BBO_REC_SIZE,
                forall|k: int| 0 <= k < i ==> #[trigger] b@[k] == v@[k],
            decreases BBO_REC_SIZE - i,
        {
            b[i] = v[i];
            i = i + 1;
        }
        assert(b@ =~= v@);
        b
    }

    pub fn from_bytes(b: &[u8]) -> (r: BboRec)
        requires
            b@.len() >= BBO_REC_SIZE,
        ensures
            r == bbo_of(b@),
    {
        BboRec {
            ts: to_signed(read_le(b, 0, 8)),
            sym: read_le(b, 8, 4) as u32,
            bid: read_le(b, 16, 8),
            ask: read_le(b, 24, 8),
            bid_qty: read_le(b, 32, 8),
            ask_qty: read_le(b, 40, 8),
        }
    }
}

impl TrdRec {
    pub fn to_bytes(&self) -> (r: [u8; TRD_REC_SIZE])
        ensures
            r@ == trd_bytes(*self),
    {
        let mut v: Vec<u8> = Vec::new();
        push_le(&mut v, to_unsigned(self.ts), 8);
        push_le(&mut v, self.sym as u64, 4);
        v.push(self.side);
        push_zeros(&mut v, 3);
        push_le(&mut v, self.price, 8);
        push_le(&mut v, self.qty, 8);
        proof {
            law_trd_round_trip(*self);
            assert(v@ =~= trd_bytes(*self));
        }
        let mut b: [u8; TRD_REC_SIZE] = [0; 32];
        let mut i: usize = 0;
        while i < TRD_REC_SIZE
            invariant
                i <= TRD_REC_SIZE,
                v@.len() == TRD_REC_SIZE,
                forall|k: int| 0 <= k < i ==> #[trigger] b@[k] == v@[k],
            decreases TRD_REC_SIZE - i,
        {
            b[i] = v[i];
            i = i + 1;
        }
        assert(b@ =~= v@);
        b
    }

    pub fn from_bytes(b: &[u8]) -> (r: TrdRec)
        requires
            b@.len() >= TRD_REC_SIZE,
        ensures
            r == trd_of(b@),
    {
        TrdRec {
            ts: to_signed(read_le(b, 0, 8)),
            sym: read_le(b, 8, 4) as u32,
            side: b[12],
            price: read_le(b, 16, 8),
            qty: read_le(b, 24, 8),
        }
    }
}

// --------------------------------------------------------------------------------------
// Days
// --------------------------------------------------------------------------------------

/// What `chrono` writes for a UTC instant, in milliseconds, in the given format; none for an
/// instant outside its range of dates.
pub uninterp spec fn utc_text(ts_ms: int, fmt: Seq<char>) -> Option<Seq<char>>;

/// The instant, in milliseconds, of midnight UTC on the date that `chrono` reads from the text in
/// the given format; none where it reads no date.
pub uninterp spec fn date_ms(text: Seq<char>, fmt: Seq<char>) -> Option<int>;

/// From 1970 up to the year 9999 a date has four digits of year.
pub open spec fn has_day_text(ts_ms: int) -> bool {
    0 <= ts_ms < 253_402_300_800_000
}

/// Midnight UTC at the start of an instant's day.
pub open spec fn day_start(ts_ms: int) -> int {
    ts_ms - ts_ms % 86_400_000
}

/// `chrono::DateTime::from_timestamp_millis` and `DateTime::format`: the UTC date of an instant as
/// eight digits. From 1970 up to the year 9999 there is such a text, eight bytes long, and
/// `chrono::NaiveDate::parse_from_str` reads the same day back from it. What the digits are is not
/// said beyond that.
#[verifier::external_body]
fn format_utc(ts_ms: i64, fmt: &str) -> (r: Option<String>)
    requires
        fmt@ == "%Y%m%d"@,
    ensures
        match r {
            Some(t) => utc_text(ts_ms as int, fmt@) == Some(t@) && (has_day_text(ts_ms as int) ==> encode_utf8(t@).len() == 8 && date_ms(t@, fmt@)
                == Some(day_start(ts_ms as int))),
            None => utc_text(ts_ms as int, fmt@) is None && !has_day_text(ts_ms as int),
        },
{
    chrono::DateTime::from_timestamp_millis(ts_ms).map(|d| d.format(fmt).to_string())
}

/// `chrono::NaiveDate::parse_from_str`: the date in a text, as the instant of its midnight in UTC.
#[verifier::external_body]
pub(crate) fn parse_date(text: &str, fmt: &str) -> (r: Option<i64>)
    ensures
        match r {
            Some(t) => date_ms(text@, fmt@) == Some(t as int),
            None => date_ms(text@, fmt@) is None,
        },
{
    chrono::NaiveDate::parse_from_str(text, fmt).ok().and_then(|d| d.and_hms_opt(0, 0, 0)).map(|t| t.and_utc().timestamp_millis())
}

/// The directory of a day that has no text.
pub fn dir_or_epoch(text: Option<String>) -> (r: String)
    ensures
        r@ == match text {
            Some(t) => t@,
            None => "19700101"@,
        },
{
    match text {
        Some(t) => t,
        None => "19700101".to_owned(),
    }
}

/// Name of the directory that holds the records of an instant's UTC day.
pub open spec fn dir_name(ts_ms: int) -> Seq<char> {
    match utc_text(ts_ms, "%Y%m%d"@) {
        Some(t) => t,
        None => "19700101"@,
    }
}

pub fn day_dir_name(ts_ms: i64) -> (r: String)
    ensures
        r@ == dir_name(ts_ms as int),
        has_day_text(ts_ms as int) ==> dir_day(r@) == Some(day_start(ts_ms as int)),
{
    dir_or_epoch(format_utc(ts_ms, "%Y%m%d"))
}

/// The instant at which the day of a directory starts: its name is a date of eight bytes.
pub open spec fn dir_day(name: Seq<char>) -> Option<int> {
    if encode_utf8(name).len() == 8 {
        date_ms(name, "%Y%m%d"@)
    } else {
        None
    }
}

pub fn day_start_ms(name: &str) -> (r: Option<i64>)
    ensures
        match r {
            Some(t) => dir_day(name@) == Some(t as int),
            None => dir_day(name@) is None,
        },
{
    if name.as_bytes().len() != 8 {
        return None;
    }
    parse_date(name, "%Y%m%d")
}

/// The number of the UTC day of an instant.
pub open spec fn day_number(ts: int) -> int {
    ts / (DAY_MS as int)
}

/// Which day's files a recorder has open.
#[derive(Clone, Copy, Debug, PartialEq, Eq, Structural)]
pub struct OpenDay {
    pub day: i64,
    pub open: bool,
}

impl OpenDay {
    pub fn new() -> (r: OpenDay)
        ensures
            r == (OpenDay { day: -1i64, open: false }),
    {
        OpenDay { day: -1, open: false }
    }

    /// The files of the instant's day are not the ones that are open.
    pub open spec fn rolls(&self, ts: int) -> bool {
        !(self.open && self.day == day_number(ts))
    }

    pub open spec fn after_roll(ts: int) -> OpenDay {
        OpenDay { day: day_number(ts) as i64, open: true }
    }

    pub fn must_roll(&self, ts: i64) -> (r: bool)
        ensures
            r == self.rolls(ts as int),
    {
        let day: i64 = floor_day(ts);
        !(day == self.day && self.open)
    }

    /// The files of the instant's day are open now.
    pub fn rolled(&mut self, ts: i64)
        ensures
            *final(self) == OpenDay::after_roll(ts as int),
    {
        self.day = floor_day(ts);
        self.open = true;
    }
}

fn floor_day(ts: i64) -> (r: i64)
    ensures
        r == day_number(ts as int),
{
    crate::units::floor_div(ts as i128, DAY_MS as i128) as i64
}

/// After rolling for an instant no other instant of its UTC day rolls again, and any instant of
/// another day does.
pub proof fn law_one_roll_per_day(ts: i64, other: i64)
    ensures
        OpenDay::after_roll(ts as int).rolls(other as int) <==> day_number(ts as int) != day_number(other as int),
{
    crate::units::lemma_div_bound(ts as int, DAY_MS as int, 0x8000_0000_0000_0000);
    assert(ts as int / (DAY_MS as int) <= i64::MAX);
}

/// The UTC day that starts at `start` overlaps the period.
pub open spec fn day_overlaps(start: int, from_ms: int, to_ms: int) -> bool {
    start + DAY_MS > from_ms && start <= to_ms
}

pub fn day_in_period(start: i64, from_ms: i64, to_ms: i64) -> (r: bool)
    ensures
        r == day_overlaps(start as int, from_ms as int, to_ms as int),
{
    start as i128 + DAY_MS as i128 > from_ms as i128 && start <= to_ms
}

/// A day overlaps a period exactly when some instant of the day lies in it.
pub proof fn law_day_overlaps(start: int, from_ms: int, to_ms: int)
    requires
        from_ms <= to_ms,
    ensures
        day_overlaps(start, from_ms, to_ms) <==> exists|t: int| start <= t < start + DAY_MS && #[trigger] in_period(t, from_ms, to_ms),
{
    if day_overlaps(start, from_ms, to_ms) {
        let t = if from_ms >= start { from_ms } else { start };
        assert(in_period(t, from_ms, to_ms));
    }
}

pub open spec fn in_period(t: int, from_ms: int, to_ms: int) -> bool {
    from_ms <= t <= to_ms
}

/// The run id in the name of a symbols file: "run", the id, "_symbols.json".
pub open spec fn symbols_file_run(name: Seq<u8>) -> Option<i64> {
    let n = name.len() as int;
    if n >= 16 && name.subrange(0, 3) == run_prefix() && name.subrange(n - 13, n) == symbols_suffix() {
        integer_value(name.subrange(3, n - 13))
    } else {
        None
    }
}

/// "run"
pub open spec fn run_prefix() -> Seq<u8> {
    seq![114u8, 117u8, 110u8]
}

/// "_symbols.json"
pub open spec fn symbols_suffix() -> Seq<u8> {
    seq![95u8, 115u8, 121u8, 109u8, 98u8, 111u8, 108u8, 115u8, 46u8, 106u8, 115u8, 111u8, 110u8]
}

/// The run that a file describes, if the file is a run's list of symbols.
pub fn run_of_symbols_file(name: &str) -> (r: Option<i64>)
    ensures
        r == symbols_file_run(encode_utf8(name@)),
{
    let s: &[u8] = name.as_bytes();
    let n: usize = s.len();
    if n < 16 {
        return None;
    }
    let head: bool = s[0] == 114 && s[1] == 117 && s[2] == 110;
    let k: usize = n - 13;
    let tail: bool = s[k] == 95 && s[k + 1] == 115 && s[k + 2] == 121 && s[k + 3] == 109 && s[k + 4] == 98 && s[k + 5] == 111 && s[k + 6]
        == 108 && s[k + 7] == 115 && s[k + 8] == 46 && s[k + 9] == 106 && s[k + 10] == 115 && s[k + 11] == 111 && s[k + 12] == 110;
    proof {
        let p = s@.subrange(0, 3);
        let q = s@.subrange(n - 13, n as int);
        if head {
            assert(p =~= run_prefix());
        } else if p == run_prefix() {
            assert(p[0] == 114 && p[1] == 117 && p[2] == 110);
        }
        if tail {
            assert(q =~= symbols_suffix());
        } else if q == symbols_suffix() {
            assert(q[0] == 95 && q[1] == 115 && q[2] == 121 && q[3] == 109 && q[4] == 98 && q[5] == 111 && q[6] == 108 && q[7] == 115 && q[8]
                == 46 && q[9] == 106 && q[10] == 115 && q[11] == 111 && q[12] == 110);
        }
    }
    if head && tail {
        let id: &[u8] = vstd::slice::slice_subrange(s, 3, n - 13);
        parse_integer_bytes(id)
    } else {
        None
    }
}

/// One (day, run) set of files on disk.
#[derive(Clone, Debug)]
pub struct Segment {
    pub day: String,
    pub day_start_ms: i64,
    pub run_id: i64,
    pub symbols: Vec<SymbolMeta>,
}

/// `a` comes before `b`: by day, then by run.
pub open spec fn segment_before(a: (i64, i64), b: (i64, i64)) -> bool {
    a.0 < b.0 || (a.0 == b.0 && a.1 < b.1)
}

/// `p` lists every place of `keys` once, by day then run; equal keys keep their order.
pub open spec fn is_segment_order(keys: Seq<(i64, i64)>, p: Seq<usize>) -> bool {
    &&& p.len() == keys.len()
    &&& forall|i: int| 0 <= i < p.len() ==> #[trigger] p[i] < keys.len()
    &&& forall|i: int, j: int|
        0 <= i < j < p.len() ==> segment_before(keys[#[trigger] p[i] as int], keys[#[trigger] p[j] as int]) || (keys[p[i] as int]
            == keys[p[j] as int] && p[i] < p[j])
}

/// The order of segments given by their (day, run) keys.
pub fn segment_order(keys: &Vec<(i64, i64)>) -> (p: Vec<usize>)
    ensures
        is_segment_order(keys@, p@),
{
    let mut ks: Vec<i128> = Vec::new();
    let mut i: usize = 0;
    while i < keys.len()
        invariant
            i <= keys@.len(),
            ks@.len() == i,
            forall|j: int| 0 <= j < i ==> #[trigger] ks@[j] == keys@[j].0 * 0x1_0000_0000_0000_0000 + keys@[j].1 + 0x8000_0000_0000_0000,
        decreases keys@.len() - i,
    {
        let (d, r): (i64, i64) = keys[i];
        ks.push((d as i128) * 0x1_0000_0000_0000_0000 + (r as i128 + 0x8000_0000_0000_0000));
        i = i + 1;
    }
    let p: Vec<usize> = stable_order(&ks);
    proof {
        assert forall|i: int, j: int| 0 <= i < j < p@.len() implies segment_before(keys@[#[trigger] p@[i] as int], keys@[#[trigger] p@[j] as int])
            || (keys@[p@[i] as int] == keys@[p@[j] as int] && p@[i] < p@[j]) by {
            assert(before(ks@, p@[i] as int, p@[j] as int));
            assert(ks@[p@[i] as int] == keys@[p@[i] as int].0 * 0x1_0000_0000_0000_0000 + keys@[p@[i] as int].1 + 0x8000_0000_0000_0000);
            assert(ks@[p@[j] as int] == keys@[p@[j] as int].0 * 0x1_0000_0000_0000_0000 + keys@[p@[j] as int].1 + 0x8000_0000_0000_0000);
        }
    }
    p
}

} // verus!
