use spr_core::reader::{read_segment, Heads, MdEvent, Merge, Need, Source, Wanted};
use spr_core::recorder::{
    day_dir_name, day_in_period, day_start_ms, run_of_symbols_file, segment_order, BboRec, OpenDay, TrdRec, DAY_MS,
};

fn bits(x: f64) -> u64 {
    x.to_bits()
}

fn bbo(ts: i64, sym: u32, bid: f64, ask: f64) -> BboRec {
    BboRec { ts, sym, bid: bits(bid), ask: bits(ask), bid_qty: bits(1.0), ask_qty: bits(1.0) }
}

#[test]
fn roundtrip_records() {
    let b = BboRec { ts: 1_700_000_000_123, sym: 7, bid: bits(1.5), ask: bits(1.51), bid_qty: bits(10.0), ask_qty: bits(20.0) };
    assert_eq!(BboRec::from_bytes(&b.to_bytes()), b);
    let t = TrdRec { ts: 42, sym: 3, side: 1, price: bits(99.5), qty: bits(0.25) };
    assert_eq!(TrdRec::from_bytes(&t.to_bytes()), t);
}

#[test]
fn records_are_little_endian_and_padded() {
    let b = BboRec { ts: -2, sym: 0x0102_0304, bid: bits(1.5), ask: 0, bid_qty: 0, ask_qty: u64::MAX };
    let x = b.to_bytes();
    assert_eq!(&x[0..8], &(-2i64).to_le_bytes());
    assert_eq!(&x[8..12], &[4, 3, 2, 1]);
    assert_eq!(&x[12..16], &[0, 0, 0, 0]);
    assert_eq!(&x[16..24], &1.5f64.to_le_bytes());
    assert_eq!(&x[40..48], &[255; 8]);
    let t = TrdRec { ts: 1, sym: 2, side: 9, price: bits(3.0), qty: bits(4.0) };
    let y = t.to_bytes();
    assert_eq!(y[12], 9);
    assert_eq!(&y[13..16], &[0, 0, 0]);
    assert_eq!(&y[24..32], &4.0f64.to_le_bytes());
}

/// The files of a recorder, in memory: one pair of byte strings per day.
struct Days {
    open: OpenDay,
    days: Vec<(String, Vec<u8>, Vec<u8>)>,
}

impl Days {
    fn roll(&mut self, ts: i64) {
        if self.open.must_roll(ts) {
            self.days.push((day_dir_name(ts), Vec::new(), Vec::new()));
            self.open.rolled(ts);
        }
    }

    fn write_bbo(&mut self, b: &BboRec) {
        self.roll(b.ts);
        self.days.last_mut().unwrap().1.extend_from_slice(&b.to_bytes());
    }

    fn write_trade(&mut self, t: &TrdRec) {
        self.roll(t.ts);
        self.days.last_mut().unwrap().2.extend_from_slice(&t.to_bytes());
    }

    fn list(&self, from_ms: i64, to_ms: i64) -> Vec<usize> {
        (0..self.days.len()).filter(|i| day_in_period(day_start_ms(&self.days[*i].0).unwrap(), from_ms, to_ms)).collect()
    }
}

#[test]
fn write_then_stream_in_order() {
    let t0 = 1_700_000_000_000i64;
    let mut rec = Days { open: OpenDay::new(), days: Vec::new() };
    rec.write_bbo(&bbo(t0, 0, 1.0, 1.01));
    rec.write_trade(&TrdRec { ts: t0 + 5, sym: 1, side: 0, price: bits(2.0), qty: bits(3.0) });
    rec.write_bbo(&bbo(t0 + 10, 1, 2.0, 2.01));
    // next UTC day rolls the files
    rec.write_bbo(&bbo(t0 + DAY_MS, 0, 1.1, 1.11));
    let segs = rec.list(t0, t0 + 2 * DAY_MS);
    assert_eq!(segs.len(), 2);
    let (_, b, t) = &rec.days[segs[0]];
    let w = Wanted { from_ms: t0, to_ms: t0 + DAY_MS - 1, syms: None };
    let (got, nb, nt) = read_segment(t, b, &[], &w);
    let ts: Vec<i64> = got.iter().map(|e| e.ts()).collect();
    assert_eq!(ts, vec![t0, t0 + 5, t0 + 10]);
    assert_eq!((nb, nt), (2, 1));
    let w = Wanted { from_ms: t0, to_ms: t0 + DAY_MS - 1, syms: Some(vec![1u32]) };
    let (only_b, _, _) = read_segment(t, b, &[], &w);
    assert_eq!(only_b.len(), 2);
    let segs2 = rec.list(t0 + DAY_MS, t0 + DAY_MS + 1);
    assert_eq!(segs2.len(), 1);
}

#[test]
fn at_equal_times_trades_come_first_and_references_last() {
    let b = bbo(10, 0, 1.0, 2.0);
    let t = TrdRec { ts: 10, sym: 0, side: 0, price: bits(1.0), qty: bits(1.0) };
    let w = Wanted { from_ms: 0, to_ms: 100, syms: None };
    let (got, nb, nt) = read_segment(&t.to_bytes(), &b.to_bytes(), &b.to_bytes(), &w);
    assert_eq!(got, vec![MdEvent::Trade(t), MdEvent::Bbo(b), MdEvent::Ref(b)]);
    assert_eq!((nb, nt), (2, 1));
    // a record that is cut off at the end of a file is no record
    let (got, _, _) = read_segment(&t.to_bytes()[0..31], &b.to_bytes(), &[], &w);
    assert_eq!(got, vec![MdEvent::Bbo(b)]);
    let h = Heads { trade: None, book: Some(MdEvent::Bbo(b)), reference: Some(MdEvent::Ref(BboRec { ts: 9, ..b })) };
    assert!(matches!(h.pick(), Some((Source::Reference, MdEvent::Ref(_)))));
}

#[test]
fn days_have_names_and_names_are_days() {
    assert_eq!(day_dir_name(1_700_000_000_000), "20231114");
    assert_eq!(day_dir_name(0), "19700101");
    assert_eq!(day_dir_name(i64::MAX), "19700101");
    assert_eq!(day_start_ms("20231114"), Some(1_699_920_000_000));
    assert_eq!(day_start_ms("2023111"), None);
    assert_eq!(day_start_ms("20231341"), None);
    assert_eq!(run_of_symbols_file("run1700000000000_symbols.json"), Some(1_700_000_000_000));
    assert_eq!(run_of_symbols_file("run5_bbo.bin"), None);
    assert_eq!(run_of_symbols_file("run_symbols.json"), None);
    assert_eq!(segment_order(&vec![(2, 1), (1, 9), (1, 3), (2, 1)]), vec![2, 1, 0, 3]);
}

#[test]
fn a_merge_takes_one_record_at_a_time() {
    let trades: Vec<MdEvent> = [3i64, 7, 20].iter().map(|ts| MdEvent::Trade(TrdRec { ts: *ts, sym: 0, side: 0, price: bits(1.0), qty: bits(1.0) })).collect();
    let books: Vec<MdEvent> = [1i64, 3, 9, 11, 12].iter().map(|ts| MdEvent::Bbo(bbo(*ts, 0, 1.0, 2.0))).collect();
    let w = Wanted { from_ms: 2, to_ms: 10, syms: None };
    let (mut t, mut b) = (trades.iter().copied(), books.iter().copied());
    let mut m = Merge::new(t.next(), b.next(), None);
    let mut got: Vec<i64> = Vec::new();
    let mut read = 0;
    loop {
        let record = match m.need(&w) {
            Need::Done => break,
            Need::Record(Source::Trade) => t.next(),
            Need::Record(Source::Book) => b.next(),
            Need::Record(Source::Reference) => None,
            Need::Exhausted(_) => None,
        };
        read += record.is_some() as usize;
        if let Some(e) = m.step(&w, record) {
            got.push(e.ts());
        }
    }
    assert_eq!(got, vec![3, 3, 7, 9]);
    assert_eq!((m.n_quotes, m.n_trades), (2, 2));
    // nothing behind the first record past the end is read
    assert_eq!((read, b.next().map(|e| e.ts())), (5, Some(12)));
}
