//! Matching arrivals with send times, and the summary of the latencies.

use vstd::prelude::*;
use vstd::hash_map::StringHashMap;
use crate::csv::{row_fields_in, spec_row_fields};
use crate::text::{chars_of, normalize_raw, spec_normalize_raw, trim_bounds, trim_ws, TrimSet};

verus! {

broadcast use vstd::seq_lib::group_to_multiset_ensures;

/// The send time of each transaction, keyed by its normalised raw form.
pub struct SendTimeMap {
    map: StringHashMap<u128>,
}

impl View for SendTimeMap {
    type V = Map<Seq<char>, u128>;

    closed spec fn view(&self) -> Map<Seq<char>, u128> {
        self.map@
    }
}

impl SendTimeMap {
    /// A map with no send time.
    pub fn new() -> (r: Self)
        ensures
            r@ == Map::<Seq<char>, u128>::empty(),
    {
        SendTimeMap { map: StringHashMap::new() }
    }

    /// Records that `raw_transaction` was sent at `send_epoch_ms`; a later
    /// record of the same key replaces an earlier one.
    pub fn insert_record(&mut self, raw_transaction: &str, send_epoch_ms: u128)
        ensures
            final(self)@ == old(self)@.insert(spec_normalize_raw(raw_transaction@), send_epoch_ms),
    {
        let key = normalize_raw(raw_transaction);
        self.map.insert(key, send_epoch_ms);
    }

    /// The send time recorded under the normalised key `key`.
    pub fn get(&self, key: &str) -> (r: Option<u128>)
        ensures
            r == (if self@.contains_key(key@) {
                Some(self@[key@])
            } else {
                None::<u128>
            }),
    {
        match self.map.get(key) {
            Some(v) => Some(*v),
            None => None,
        }
    }

    /// The number of distinct keys.
    pub fn len(&self) -> (r: usize)
        ensures
            r == self@.len(),
    {
        self.map.len()
    }
}

/// The latency of one transaction: arrival minus send, both taken as
/// `i64` (as `as i64` cuts them), or `None` where the difference does not
/// fit in an `i64`.
pub open spec fn spec_latency(arrival_ms: u128, send_ms: u128) -> Option<i64> {
    let d = (arrival_ms as i64) - (send_ms as i64);
    if i64::MIN <= d && d <= i64::MAX {
        Some(d as i64)
    } else {
        None
    }
}

/// Arrival minus send, in milliseconds.
pub fn latency_ms(arrival_ms: u128, send_ms: u128) -> (r: Option<i64>)
    ensures
        r == spec_latency(arrival_ms, send_ms),
{
    let a = arrival_ms as i64;
    let s = send_ms as i64;
    a.checked_sub(s)
}

/// What one line of the arrival log amounts to.
pub enum RowClass {
    Blank,
    Malformed,
    Unmatched(Seq<char>),
    Matched(i64),
    LatencyOverflow,
}

/// What one line of the arrival log amounts to, given the send times.
pub open spec fn spec_classify_row(sends: Map<Seq<char>, u128>, line: Seq<char>) -> RowClass {
    let t = trim_ws(line);
    if t.len() == 0 {
        RowClass::Blank
    } else {
        match spec_row_fields(t) {
            None => RowClass::Malformed,
            Some(f) => {
                let key = spec_normalize_raw(f.1);
                if !sends.contains_key(key) {
                    RowClass::Unmatched(key)
                } else {
                    match spec_latency(f.0, sends[key]) {
                        Some(l) => RowClass::Matched(l),
                        None => RowClass::LatencyOverflow,
                    }
                }
            },
        }
    }
}

/// What one line of the arrival log amounts to.
#[derive(Debug, PartialEq, Eq)]
pub enum RowOutcome {
    /// Only white space: skipped.
    Blank,
    /// Not `index,ms,raw` with a `u128` time.
    Malformed,
    /// No send time is recorded under `key`.
    Unmatched { key: String },
    /// A transaction whose latency is `latency_ms`.
    Matched { latency_ms: i64 },
    /// Arrival minus send does not fit in an `i64`.
    LatencyOverflow,
}

impl View for RowOutcome {
    type V = RowClass;

    open spec fn view(&self) -> RowClass {
        match self {
            RowOutcome::Blank => RowClass::Blank,
            RowOutcome::Malformed => RowClass::Malformed,
            RowOutcome::Unmatched { key } => RowClass::Unmatched(key@),
            RowOutcome::Matched { latency_ms } => RowClass::Matched(*latency_ms),
            RowOutcome::LatencyOverflow => RowClass::LatencyOverflow,
        }
    }
}

/// Classifies one line of the arrival log.
pub fn classify_row(sends: &SendTimeMap, line: &str) -> (r: RowOutcome)
    ensures
        r@ == spec_classify_row(sends@, line@),
{
    let v = chars_of(line);
    let (a, b) = trim_bounds(&v, 0, v.len(), TrimSet::Whitespace);
    assert(v@.subrange(0, v@.len() as int) =~= line@);
    if a == b {
        return RowOutcome::Blank;
    }
    match row_fields_in(&v, a, b) {
        None => RowOutcome::Malformed,
        Some((arrived, raw)) => {
            let key = normalize_raw(raw.as_str());
            match sends.get(key.as_str()) {
                None => RowOutcome::Unmatched { key },
                Some(send) => match latency_ms(arrived, send) {
                    Some(l) => RowOutcome::Matched { latency_ms: l },
                    None => RowOutcome::LatencyOverflow,
                },
            }
        },
    }
}

/// The counts that the report keeps while it reads the arrival log.
pub struct TallyView {
    /// The latency of each matched row, in the order of the log.
    pub latencies: Seq<i64>,
    /// The rows whose key has no send time.
    pub missing: nat,
    /// The rows that are not blank.
    pub rows: nat,
}

/// The counts after one more line of the log.
pub open spec fn spec_tally_step(t: TallyView, c: RowClass) -> TallyView {
    match c {
        RowClass::Blank => t,
        RowClass::Unmatched(_) => TallyView { missing: t.missing + 1, rows: t.rows + 1, ..t },
        RowClass::Matched(l) => TallyView {
            latencies: t.latencies.push(l),
            rows: t.rows + 1,
            ..t
        },
        _ => TallyView { rows: t.rows + 1, ..t },
    }
}

/// Each line of the log changes the counts in one way: a blank line
/// changes nothing; any other line counts as a row; a matched row appends
/// its latency to those before, keeping them all and in order, whatever
/// they hold; an unmatched row counts as missing; and only a matched row
/// adds a latency.
pub proof fn law_tally_step(t: TallyView, c: RowClass)
    ensures
        ({
            let u = spec_tally_step(t, c);
            match c {
                RowClass::Blank => u == t,
                RowClass::Matched(l) => {
                    &&& u.latencies.len() == t.latencies.len() + 1
                    &&& u.latencies.last() == l
                    &&& u.latencies.take(t.latencies.len() as int) == t.latencies
                    &&& u.rows == t.rows + 1
                    &&& u.missing == t.missing
                },
                RowClass::Unmatched(_) => {
                    &&& u.latencies == t.latencies
                    &&& u.rows == t.rows + 1
                    &&& u.missing == t.missing + 1
                },
                _ => {
                    &&& u.latencies == t.latencies
                    &&& u.rows == t.rows + 1
                    &&& u.missing == t.missing
                },
            }
        }),
{
    if let RowClass::Matched(l) = c {
        let u = spec_tally_step(t, c);
        assert(u.latencies.take(t.latencies.len() as int) =~= t.latencies);
    }
}

/// The running counts of the latency report.
pub struct LatencyTally {
    latencies: Vec<i64>,
    missing: usize,
    rows: usize,
}

impl View for LatencyTally {
    type V = TallyView;

    closed spec fn view(&self) -> TallyView {
        TallyView { latencies: self.latencies@, missing: self.missing as nat, rows: self.rows as nat }
    }
}

impl LatencyTally {
    /// Every counted row is either matched or missing, or neither.
    pub open spec fn wf(&self) -> bool {
        self@.missing + self@.latencies.len() <= self@.rows
    }

    /// No row read yet.
    pub fn new() -> (r: Self)
        ensures
            r@ == (TallyView { latencies: Seq::empty(), missing: 0, rows: 0 }),
            r.wf(),
    {
        LatencyTally { latencies: Vec::new(), missing: 0, rows: 0 }
    }

    /// The rows that are not blank.
    pub fn rows(&self) -> (r: usize)
        ensures
            r == self@.rows,
    {
        self.rows
    }

    /// The rows whose key has no send time.
    pub fn missing(&self) -> (r: usize)
        ensures
            r == self@.missing,
    {
        self.missing
    }

    /// The rows matched with a send time.
    pub fn matched(&self) -> (r: usize)
        ensures
            r == self@.latencies.len(),
    {
        self.latencies.len()
    }

    /// Reads one line of the arrival log: classifies it, and counts it.
    pub fn record_row(&mut self, sends: &SendTimeMap, line: &str) -> (r: RowOutcome)
        requires
            old(self).wf(),
            old(self)@.rows < usize::MAX,
        ensures
            r@ == spec_classify_row(sends@, line@),
            final(self)@ == spec_tally_step(old(self)@, r@),
            final(self).wf(),
    {
        let r = classify_row(sends, line);
        match &r {
            RowOutcome::Blank => {},
            RowOutcome::Unmatched { .. } => {
                self.rows = self.rows + 1;
                self.missing = self.missing + 1;
            },
            RowOutcome::Matched { latency_ms } => {
                self.rows = self.rows + 1;
                self.latencies.push(*latency_ms);
            },
            _ => {
                self.rows = self.rows + 1;
            },
        }
        r
    }
}

/// A transaction that the client logged is matched by the report with the
/// send time recorded under the key of the same raw transaction: the
/// client writes the raw transaction quoted, as a JSON string prints, and
/// the report removes the quotes again.
pub proof fn law_logged_transaction_is_matched(
    sends: Map<Seq<char>, u128>,
    index: u128,
    arrived_at_ms: u128,
    raw: Seq<char>,
)
    requires
        crate::text::is_bare(raw),
    ensures
        spec_classify_row(
            sends,
            crate::csv::spec_arrival_line(
                index as nat,
                arrived_at_ms as nat,
                crate::text::quote(raw),
            ),
        ) == (if sends.contains_key(spec_normalize_raw(raw)) {
            match spec_latency(arrived_at_ms, sends[spec_normalize_raw(raw)]) {
                Some(l) => RowClass::Matched(l),
                None => RowClass::LatencyOverflow,
            }
        } else {
            RowClass::Unmatched(spec_normalize_raw(raw))
        }),
{
    let q = crate::text::quote(raw);
    let line = crate::csv::spec_arrival_line(index as nat, arrived_at_ms as nat, q);
    let d1 = crate::number::decimal(index as nat);
    crate::number::lemma_decimal_digits(index as nat);
    assert(line[0] == d1[0]);
    assert(crate::number::digit_value(d1[0], 10) is Some);
    assert(line.last() == '"');
    crate::text::lemma_trim_start_stops(line, TrimSet::Whitespace);
    crate::text::lemma_trim_end_stops(line, TrimSet::Whitespace);
    assert(trim_ws(line) == line);
    crate::csv::law_arrival_line_round_trip(index, arrived_at_ms, q);
    crate::text::law_unquote_quote(raw);
}

/// The sum of a sequence of latencies.
pub open spec fn seq_sum(s: Seq<i64>) -> int
    decreases s.len(),
{
    if s.len() == 0 {
        0
    } else {
        seq_sum(s.drop_last()) + s.last()
    }
}

/// `s` is in ascending order.
pub open spec fn is_sorted(s: Seq<i64>) -> bool {
    forall|i: int, j: int| 0 <= i <= j < s.len() ==> s[i] <= s[j]
}

/// The middle of a sorted, non-empty sequence: its middle element when its
/// length is odd, its two middle elements when it is even.
#[derive(Clone, Copy, Debug, PartialEq, Eq, Structural)]
pub enum Median {
    Single(i64),
    Pair(i64, i64),
}

pub open spec fn spec_median(s: Seq<i64>) -> Median {
    let n = s.len() as int;
    if n % 2 == 1 {
        Median::Single(s[n / 2])
    } else {
        Median::Pair(s[n / 2 - 1], s[n / 2])
    }
}

/// The median of a sorted, non-empty sequence is its one middle element
/// when the length is odd, with as many elements before it as after, and
/// its two middle elements, in order, when the length is even.
pub proof fn law_median_is_middle(s: Seq<i64>)
    requires
        s.len() > 0,
    ensures
        spec_median(s) is Single <==> s.len() % 2 == 1,
        spec_median(s) is Pair <==> s.len() % 2 == 0,
        spec_median(s) matches Median::Single(x) ==> {
            let p = (s.len() - 1) / 2;
            &&& 0 <= p < s.len()
            &&& p == s.len() - 1 - p
            &&& x == s[p]
        },
        spec_median(s) matches Median::Pair(a, b) ==> {
            let p = s.len() / 2 - 1;
            &&& 0 <= p
            &&& p + 1 < s.len()
            &&& p == s.len() - 1 - (p + 1)
            &&& a == s[p]
            &&& b == s[p + 1]
        },
{
}

/// What the report prints of the latencies.
#[derive(Debug)]
pub struct LatencySummary {
    /// The rows matched with a send time.
    pub matched: usize,
    /// The rows whose key has no send time.
    pub missing: usize,
    /// The rows that are not blank.
    pub total_rows: usize,
    /// The sum of the latencies, in milliseconds.
    pub sum_ms: i128,
    /// What the mean divides the sum by: the one given, or else the number
    /// of matched rows.
    pub denominator: usize,
    /// The middle of the sorted latencies.
    pub median: Median,
    /// The latencies in ascending order.
    pub sorted_ms: Vec<i64>,
}

/// Sorts `v` in ascending order.
///
/// Calls `slice::sort_unstable`; the contract claims what its documentation
/// says: the result is sorted and holds the same elements.
#[verifier::external_body]
fn sort_ascending(v: &mut Vec<i64>)
    ensures
        final(v)@.to_multiset() == old(v)@.to_multiset(),
        is_sorted(final(v)@),
{
    v.sort_unstable();
}

pub proof fn lemma_sum_remove(s: Seq<i64>, i: int)
    requires
        0 <= i < s.len(),
    ensures
        seq_sum(s) == seq_sum(s.remove(i)) + s[i],
    decreases s.len(),
{
    if i == s.len() - 1 {
        assert(s.remove(i) =~= s.drop_last());
    } else {
        lemma_sum_remove(s.drop_last(), i);
        assert(s.drop_last().remove(i) =~= s.remove(i).drop_last());
        assert(s.remove(i).last() == s.last());
    }
}

/// The sum of the latencies does not depend on their order.
pub proof fn law_sum_ignores_order(a: Seq<i64>, b: Seq<i64>)
    requires
        a.to_multiset() == b.to_multiset(),
    ensures
        seq_sum(a) == seq_sum(b),
    decreases a.len(),
{
    if a.len() == 0 {
        assert(a.to_multiset().len() == 0);
        assert(b.to_multiset().len() == b.len());
    } else {
        let x = a.last();
        let a0 = a.drop_last();
        assert(a =~= a0.push(x));
        assert(a.to_multiset().count(x) > 0);
        assert(b.contains(x));
        let i = choose|i: int| 0 <= i < b.len() && b[i] == x;
        let b0 = b.remove(i);
        assert(b0.to_multiset() =~= a0.to_multiset());
        law_sum_ignores_order(a0, b0);
        lemma_sum_remove(b, i);
    }
}

/// The sum of `v`, which no `i128` overflow can reach.
fn sum_of(v: &Vec<i64>) -> (r: i128)
    ensures
        r == seq_sum(v@),
{
    let mut s: i128 = 0;
    let mut k: usize = 0;
    while k < v.len()
        invariant
            k <= v.len(),
            s == seq_sum(v@.take(k as int)),
            -(k as int) * 0x8000_0000_0000_0000 <= s <= (k as int) * 0x7fff_ffff_ffff_ffff,
        decreases v.len() - k,
    {
        assert(v@.take(k + 1).drop_last() =~= v@.take(k as int));
        let x = v[k];
        assert(k < 0x1_0000_0000_0000_0000);
        assert(-(k as int) * 0x8000_0000_0000_0000 - 0x8000_0000_0000_0000 == -((k + 1) as int)
            * 0x8000_0000_0000_0000) by (nonlinear_arith);
        assert((k as int) * 0x7fff_ffff_ffff_ffff + 0x7fff_ffff_ffff_ffff == ((k + 1) as int)
            * 0x7fff_ffff_ffff_ffff) by (nonlinear_arith);
        assert(((k + 1) as int) * 0x8000_0000_0000_0000 <= 0x1_0000_0000_0000_0000
            * 0x8000_0000_0000_0000) by (nonlinear_arith)
            requires
                k + 1 <= 0x1_0000_0000_0000_0000,
        ;
        assert(((k + 1) as int) * 0x7fff_ffff_ffff_ffff <= 0x1_0000_0000_0000_0000
            * 0x7fff_ffff_ffff_ffff) by (nonlinear_arith)
            requires
                k + 1 <= 0x1_0000_0000_0000_0000,
        ;
        s = s + x as i128;
        k = k + 1;
    }
    assert(v@.take(v.len() as int) =~= v@);
    s
}

/// The summary of the latencies that `tally` holds, the mean to be taken
/// over `denominator` (or over the matched rows where it is `None`); `None`
/// when no row was matched.
pub fn summarize(tally: LatencyTally, denominator: Option<usize>) -> (r: Option<LatencySummary>)
    requires
        tally.wf(),
    ensures
        r is None <==> tally@.latencies.len() == 0,
        r matches Some(s) ==> {
            &&& s.matched == tally@.latencies.len()
            &&& s.missing == tally@.missing
            &&& s.total_rows == tally@.rows
            &&& s.sorted_ms@.to_multiset() == tally@.latencies.to_multiset()
            &&& is_sorted(s.sorted_ms@)
            &&& s.sum_ms == seq_sum(tally@.latencies)
            &&& s.median == spec_median(s.sorted_ms@)
            &&& s.denominator == match denominator {
                Some(d) => d,
                None => tally@.latencies.len() as usize,
            }
        },
{
    let LatencyTally { latencies, missing, rows } = tally;
    let ghost unsorted = latencies@;
    let mut sorted = latencies;
    let n = sorted.len();
    if n == 0 {
        return None;
    }
    sort_ascending(&mut sorted);
    assert(sorted@.len() == n) by {
        assert(sorted@.to_multiset().len() == unsorted.to_multiset().len());
    }
    let sum_ms = sum_of(&sorted);
    proof {
        law_sum_ignores_order(sorted@, unsorted);
    }
    let median = if n % 2 == 1 {
        Median::Single(sorted[n / 2])
    } else {
        Median::Pair(sorted[n / 2 - 1], sorted[n / 2])
    };
    let denominator = match denominator {
        Some(d) => d,
        None => n,
    };
    Some(
        LatencySummary {
            matched: n,
            missing,
            total_rows: rows,
            sum_ms,
            denominator,
            median,
            sorted_ms: sorted,
        },
    )
}

/// The length of the experiment: end minus start, or zero where the end
/// comes first.
pub fn experiment_duration_ms(start_epoch_ms: u128, end_epoch_ms: u128) -> (r: u128)
    ensures
        r == (if end_epoch_ms >= start_epoch_ms {
            end_epoch_ms - start_epoch_ms
        } else {
            0
        }),
{
    end_epoch_ms.saturating_sub(start_epoch_ms)
}

} // verus!
