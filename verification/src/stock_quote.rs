//! Simulated stock quotes: each ticker's price and volume walk randomly
//! by small steps and never leave their bounds.

use rand::rngs::ThreadRng;
use rand::Rng;

use vstd::prelude::*;

use crate::chars::strings_view;
use crate::clock::Clock;

verus! {

/// A price moves by less than this at each update.
pub const PRICE_STEP: i64 = 100;

/// The lowest price.
pub const PRICE_MIN: u64 = 1_000;

/// The highest price.
pub const PRICE_MAX: u64 = 1_000_000;

/// A volume moves by less than this at each update.
pub const VOLUME_STEP: i32 = 10;

/// The lowest volume.
pub const VOLUME_MIN: u32 = 100;

/// The highest volume.
pub const VOLUME_MAX: u32 = 100_000;

#[verifier::external_type_specification]
#[verifier::external_body]
pub struct ExThreadRng(ThreadRng);

/// rand's `thread_rng`: the random generator of the calling thread.
#[verifier::external_body]
fn new_thread_rng() -> ThreadRng {
    rand::thread_rng()
}

/// rand's `Rng::gen_range` on the `i64` range `lo..hi`: a value in it,
/// drawn uniformly. It panics on an empty range. Which value comes is
/// chance. Every random draw of the walk goes through it.
#[verifier::external_body]
fn gen_range_i64(rng: &mut ThreadRng, lo: i64, hi: i64) -> (r: i64)
    requires
        lo < hi,
    ensures
        lo <= r < hi,
{
    rng.gen_range(lo..hi)
}

/// chrono's `Utc::now().timestamp()`: the seconds since the Unix epoch,
/// read from `clock`, whose readings it joins. Nothing is stated of the
/// value: it is the time.
#[verifier::external_body]
pub(crate) fn now_timestamp(clock: &mut Clock) -> (r: i64)
    ensures
        final(clock).readings() == old(clock).readings().push(r),
{
    chrono::Utc::now().timestamp()
}

/// The quote of a ticker at some time.
#[derive(Clone, Copy, PartialEq, Eq, Structural, Debug)]
pub struct StockQuote {
    pub price: u64,
    pub volume: u32,
    pub timestamp: i64,
}

/// `v` brought into `lo..=hi`.
pub open spec fn clamp(v: int, lo: int, hi: int) -> int {
    if v < lo {
        lo
    } else if v > hi {
        hi
    } else {
        v
    }
}

/// The price and the volume lie within their bounds.
pub open spec fn quote_in_bounds(q: StockQuote) -> bool {
    &&& PRICE_MIN <= q.price <= PRICE_MAX
    &&& VOLUME_MIN <= q.volume <= VOLUME_MAX
}

/// The price after a move by `d`, brought back within the bounds.
pub open spec fn moved_price(price: u64, d: int) -> int {
    clamp(price + d, PRICE_MIN as int, PRICE_MAX as int)
}

/// The volume after a move by `e`, brought back within the bounds.
pub open spec fn moved_volume(volume: u32, e: int) -> int {
    clamp(volume + e, VOLUME_MIN as int, VOLUME_MAX as int)
}

/// `new` follows `old` by one step of the walk, at `timestamp`: the price
/// moved by some `d` with `-PRICE_STEP <= d < PRICE_STEP` and the volume
/// by some `e` with `-VOLUME_STEP <= e < VOLUME_STEP`, each then brought
/// back within its bounds.
pub open spec fn one_step(old: StockQuote, new: StockQuote, timestamp: i64) -> bool {
    &&& exists|d: int| -PRICE_STEP <= d < PRICE_STEP && new.price == #[trigger] moved_price(old.price, d)
    &&& exists|e: int| -VOLUME_STEP <= e < VOLUME_STEP && new.volume == #[trigger] moved_volume(old.volume, e)
    &&& new.timestamp == timestamp
}

/// Each quote of `new` follows the quote of `old` at its place by one
/// step of the walk, at `timestamp`.
pub open spec fn all_one_step(old: Seq<StockQuote>, new: Seq<StockQuote>, timestamp: i64) -> bool {
    &&& new.len() == old.len()
    &&& forall|i: int| 0 <= i < old.len() ==> one_step(#[trigger] old[i], new[i], timestamp)
}

/// The quote after its price moved by `price_delta` and its volume by
/// `volume_delta`, each brought back within its bounds, stamped `timestamp`.
pub fn adjusted_quote(quote: StockQuote, price_delta: i64, volume_delta: i32, timestamp: i64) -> (r: StockQuote)
    requires
        quote_in_bounds(quote),
        -PRICE_STEP <= price_delta < PRICE_STEP,
        -VOLUME_STEP <= volume_delta < VOLUME_STEP,
    ensures
        r.price == clamp(quote.price + price_delta, PRICE_MIN as int, PRICE_MAX as int),
        r.volume == clamp(quote.volume + volume_delta, VOLUME_MIN as int, VOLUME_MAX as int),
        r.timestamp == timestamp,
        quote_in_bounds(r),
{
    let price: i64 = quote.price as i64 + price_delta;
    let moved_price: u64 = price as u64;
    let price_adjusted: u64 = if moved_price < PRICE_MIN {
        PRICE_MIN
    } else if moved_price > PRICE_MAX {
        PRICE_MAX
    } else {
        moved_price
    };
    let volume: i32 = quote.volume as i32 + volume_delta;
    let moved_volume: u32 = volume as u32;
    let volume_adjusted: u32 = if moved_volume < VOLUME_MIN {
        VOLUME_MIN
    } else if moved_volume > VOLUME_MAX {
        VOLUME_MAX
    } else {
        moved_volume
    };
    StockQuote { price: price_adjusted, volume: volume_adjusted, timestamp }
}

/// A quote drawn at random within the bounds, at time zero.
fn random_quote(rng: &mut ThreadRng) -> (r: StockQuote)
    ensures
        PRICE_MIN <= r.price < PRICE_MAX,
        VOLUME_MIN <= r.volume < VOLUME_MAX,
        r.timestamp == 0,
{
    let price = gen_range_i64(rng, PRICE_MIN as i64, PRICE_MAX as i64);
    let volume = gen_range_i64(rng, VOLUME_MIN as i64, VOLUME_MAX as i64);
    StockQuote { price: price as u64, volume: volume as u32, timestamp: 0 }
}

/// The tickers of `s` in order, each kept where it first comes.
pub open spec fn first_occurrences(s: Seq<Seq<char>>) -> Seq<Seq<char>>
    decreases s.len(),
{
    if s.len() == 0 {
        seq![]
    } else {
        let d = first_occurrences(s.drop_last());
        if d.contains(s.last()) {
            d
        } else {
            d.push(s.last())
        }
    }
}

/// No item comes twice.
pub open spec fn no_duplicates(s: Seq<Seq<char>>) -> bool {
    forall|i: int, j: int| 0 <= i < j < s.len() ==> s[i] != s[j]
}

/// The ticker of each entry.
pub open spec fn entry_tickers(v: Seq<(String, StockQuote)>) -> Seq<Seq<char>> {
    v.map_values(|e: (String, StockQuote)| e.0@)
}

/// The quote of each entry.
pub open spec fn entry_quotes(v: Seq<(String, StockQuote)>) -> Seq<StockQuote> {
    v.map_values(|e: (String, StockQuote)| e.1)
}

/// The position of `ticker` among the entries, if it is there.
fn find_ticker(entries: &Vec<(String, StockQuote)>, ticker: &String) -> (r: Option<usize>)
    ensures
        match r {
            None => !entry_tickers(entries@).contains(ticker@),
            Some(k) => k < entries@.len() && entry_tickers(entries@)[k as int] == ticker@,
        },
{
    let mut i: usize = 0;
    while i < entries.len()
        invariant
            i <= entries@.len(),
            forall|j: int| 0 <= j < i ==> entry_tickers(entries@)[j] != ticker@,
        decreases entries@.len() - i,
    {
        if entries[i].0 == *ticker {
            return Some(i);
        }
        i = i + 1;
    }
    None
}

/// Tickers with their quotes: each ticker once, each quote within its bounds.
struct QuoteTable {
    entries: Vec<(String, StockQuote)>,
}

impl QuoteTable {
    #[verifier::type_invariant]
    spec fn well_formed(&self) -> bool {
        &&& no_duplicates(entry_tickers(self.entries@))
        &&& forall|i: int| 0 <= i < self.entries@.len() ==> quote_in_bounds(#[trigger] self.entries@[i].1)
    }

    spec fn tickers(&self) -> Seq<Seq<char>> {
        entry_tickers(self.entries@)
    }

    spec fn quotes(&self) -> Seq<StockQuote> {
        entry_quotes(self.entries@)
    }

    fn len(&self) -> (r: usize)
        ensures
            r == self.quotes().len(),
            r == self.tickers().len(),
    {
        self.entries.len()
    }

    fn quote_at(&self, i: usize) -> (r: StockQuote)
        requires
            i < self.quotes().len(),
        ensures
            r == self.quotes()[i as int],
            quote_in_bounds(r),
    {
        proof {
            use_type_invariant(self);
        }
        self.entries[i].1
    }

    fn set_quote(&mut self, i: usize, quote: StockQuote)
        requires
            i < old(self).quotes().len(),
            quote_in_bounds(quote),
        ensures
            final(self).tickers() == old(self).tickers(),
            final(self).quotes() == old(self).quotes().update(i as int, quote),
    {
        proof {
            use_type_invariant(&*self);
        }
        let ghost before = self.entries@;
        let mut entries: Vec<(String, StockQuote)> = Vec::new();
        std::mem::swap(&mut entries, &mut self.entries);
        entries[i].1 = quote;
        assert(entry_tickers(entries@) =~= entry_tickers(before));
        assert(entry_quotes(entries@) =~= entry_quotes(before).update(i as int, quote));
        assert forall|j: int| 0 <= j < entries@.len() implies quote_in_bounds(#[trigger] entries@[j].1) by {
            if j != i {
                assert(entries@[j] == before[j]);
            }
        }
        self.entries = entries;
    }
}

/// The quotes of a set of tickers, walking at random.
pub struct StockQuoteSource {
    rng: ThreadRng,
    table: QuoteTable,
    clock: Clock,
}

impl StockQuoteSource {
    /// The tickers quoted, each once.
    pub closed spec fn tickers(&self) -> Seq<Seq<char>> {
        self.table.tickers()
    }

    /// The quote of each ticker, in the order of `tickers`.
    pub closed spec fn quotes(&self) -> Seq<StockQuote> {
        self.table.quotes()
    }

    /// The readings taken from the source's clock, in seconds, oldest first.
    pub closed spec fn clock_readings(&self) -> Seq<i64> {
        self.clock.readings()
    }

    /// A source that quotes each of `tickers` once, at a random price and
    /// volume within the bounds, at time zero.
    pub fn new(tickers: &[String]) -> (r: Self)
        ensures
            r.tickers() == first_occurrences(strings_view(tickers@)),
            no_duplicates(r.tickers()),
            r.quotes().len() == r.tickers().len(),
            forall|i: int|
                0 <= i < r.quotes().len() ==> {
                    let q = #[trigger] r.quotes()[i];
                    &&& PRICE_MIN <= q.price < PRICE_MAX
                    &&& VOLUME_MIN <= q.volume < VOLUME_MAX
                    &&& q.timestamp == 0
                },
            r.clock_readings() == Seq::<i64>::empty(),
    {
        let mut rng = new_thread_rng();
        let mut entries: Vec<(String, StockQuote)> = Vec::new();
        let ghost all = strings_view(tickers@);
        let mut i: usize = 0;
        assert(all.take(0) =~= Seq::<Seq<char>>::empty());
        while i < tickers.len()
            invariant
                i <= tickers@.len(),
                all == strings_view(tickers@),
                entry_tickers(entries@) == first_occurrences(all.take(i as int)),
                no_duplicates(entry_tickers(entries@)),
                forall|j: int|
                    0 <= j < entries@.len() ==> {
                        let q = #[trigger] entries@[j].1;
                        &&& PRICE_MIN <= q.price < PRICE_MAX
                        &&& VOLUME_MIN <= q.volume < VOLUME_MAX
                        &&& q.timestamp == 0
                    },
            decreases tickers@.len() - i,
        {
            assert(all.take(i + 1).drop_last() =~= all.take(i as int));
            assert(all.take(i + 1).last() == tickers@[i as int]@);
            let quote = random_quote(&mut rng);
            match find_ticker(&entries, &tickers[i]) {
                Some(k) => {
                    entries[k].1 = quote;
                    assert(entry_tickers(entries@) =~= first_occurrences(all.take(i + 1)));
                },
                None => {
                    entries.push((tickers[i].clone(), quote));
                    assert(entry_tickers(entries@) =~= first_occurrences(all.take(i + 1)));
                },
            }
            i = i + 1;
        }
        assert(all.take(tickers@.len() as int) =~= all);
        let table = QuoteTable { entries };
        let r = StockQuoteSource { rng, table, clock: Clock::new() };
        assert forall|j: int| 0 <= j < r.quotes().len() implies {
            let q = #[trigger] r.quotes()[j];
            &&& PRICE_MIN <= q.price < PRICE_MAX
            &&& VOLUME_MIN <= q.volume < VOLUME_MAX
            &&& q.timestamp == 0
        } by {
            assert(r.quotes()[j] == entries@[j].1);
        }
        r
    }

    /// Moves every quote one step of its walk, all stamped with the
    /// current time, read once from the source's clock; the tickers stay
    /// as they were.
    pub fn update(&mut self)
        ensures
            final(self).tickers() == old(self).tickers(),
            final(self).quotes().len() == old(self).quotes().len(),
            exists|now: i64| #[trigger] all_one_step(old(self).quotes(), final(self).quotes(), now),
            final(self).clock_readings().len() == old(self).clock_readings().len() + 1,
            final(self).clock_readings().drop_last() == old(self).clock_readings(),
            all_one_step(old(self).quotes(), final(self).quotes(), final(self).clock_readings().last()),
            forall|i: int|
                0 <= i < final(self).quotes().len() ==> #[trigger] final(self).quotes()[i].timestamp
                    == final(self).clock_readings().last(),
    {
        let ghost start = self.quotes();
        let ghost tickers = self.tickers();
        let ghost readings = self.clock.readings();
        let now = now_timestamp(&mut self.clock);
        let n = self.table.len();
        let mut i: usize = 0;
        while i < n
            invariant
                i <= n,
                n == self.quotes().len(),
                n == start.len(),
                self.tickers() == tickers,
                self.clock.readings() == readings.push(now),
                forall|j: int| 0 <= j < i ==> one_step(#[trigger] start[j], self.quotes()[j], now),
                forall|j: int| i <= j < n ==> #[trigger] self.quotes()[j] == start[j],
            decreases n - i,
        {
            let price_delta = gen_range_i64(&mut self.rng, -PRICE_STEP, PRICE_STEP);
            let volume_delta = gen_range_i64(&mut self.rng, -VOLUME_STEP as i64, VOLUME_STEP as i64) as i32;
            let quote = adjusted_quote(self.table.quote_at(i), price_delta, volume_delta, now);
            assert(one_step(start[i as int], quote, now)) by {
                let d: int = price_delta as int;
                let e: int = volume_delta as int;
                assert(quote.price == moved_price(start[i as int].price, d));
                assert(quote.volume == moved_volume(start[i as int].volume, e));
            }
            self.table.set_quote(i, quote);
            i = i + 1;
        }
        assert(all_one_step(start, self.quotes(), now));
        assert(self.clock.readings().drop_last() =~= readings);
        assert(self.clock_readings().last() == now);
        assert forall|j: int| 0 <= j < self.quotes().len() implies #[trigger] self.quotes()[j].timestamp == now by {
            assert(one_step(start[j], self.quotes()[j], now));
        }
    }

    /// The quote of `ticker`, if it is quoted.
    pub fn get(&self, ticker: &String) -> (r: Option<&StockQuote>)
        ensures
            match r {
                None => !self.tickers().contains(ticker@),
                Some(q) => exists|k: int|
                    0 <= k < self.tickers().len() && self.tickers()[k] == ticker@ && self.quotes()[k] == *q,
            },
    {
        match find_ticker(&self.table.entries, ticker) {
            Some(k) => {
                assert(self.quotes()[k as int] == self.table.entries@[k as int].1);
                Some(&self.table.entries[k].1)
            },
            None => None,
        }
    }

    /// Each ticker with its quote.
    pub fn quotes_by_ticker(&self) -> (r: &[(String, StockQuote)])
        ensures
            entry_tickers(r@) == self.tickers(),
            entry_quotes(r@) == self.quotes(),
    {
        self.table.entries.as_slice()
    }
}

/// One step of the walk stamps every quote with the time it was taken at,
/// and keeps each within its bounds, moved by less than a step.
pub proof fn step_stamps_its_time(old: Seq<StockQuote>, new: Seq<StockQuote>, time: i64)
    requires
        all_one_step(old, new, time),
    ensures
        new.len() == old.len(),
        forall|i: int| 0 <= i < new.len() ==> #[trigger] new[i].timestamp == time,
        forall|i: int| 0 <= i < new.len() ==> quote_in_bounds(#[trigger] new[i]),
{
    assert forall|i: int| 0 <= i < new.len() implies #[trigger] new[i].timestamp == time by {
        assert(one_step(old[i], new[i], time));
    }
    assert forall|i: int| 0 <= i < new.len() implies quote_in_bounds(#[trigger] new[i]) by {
        assert(one_step(old[i], new[i], time));
        crate::quote_laws::quote_walk_stays_in_bounds(old[i], new[i], time);
    }
}

} // verus!
