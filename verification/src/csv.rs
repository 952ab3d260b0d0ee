//! The arrival log: one line per received transaction, `index,ms,raw`.

use vstd::prelude::*;
use crate::number::{decimal, decimal_string, parse_unsigned_in, spec_parse_u128};
use crate::text::{chars_of, trim_bounds, unquote, TrimSet};

verus! {

/// `p` is the position of the first comma of `s`.
pub open spec fn is_first_comma(s: Seq<char>, p: int) -> bool {
    &&& 0 <= p < s.len()
    &&& s[p] == ','
    &&& forall|k: int| 0 <= k < p ==> s[k] != ','
}

/// The position of the first comma of `s`, if it has one.
pub open spec fn first_comma(s: Seq<char>) -> Option<int> {
    if exists|p: int| is_first_comma(s, p) {
        Some(choose|p: int| is_first_comma(s, p))
    } else {
        None
    }
}

/// The fields of an arrival-log row, as `line.splitn(3, ',')` cuts it:
/// the index (unread), the arrival time in milliseconds (a `u128`), and
/// the rest of the line with surrounding white space and quotes removed.
/// `None` when the line has fewer than two commas or the time is not a
/// `u128`.
pub open spec fn spec_row_fields(s: Seq<char>) -> Option<(u128, Seq<char>)> {
    match first_comma(s) {
        None => None,
        Some(p) => {
            let tail = s.skip(p + 1);
            match first_comma(tail) {
                None => None,
                Some(q) => match spec_parse_u128(tail.take(q)) {
                    Ok(x) => Some((x as u128, unquote(tail.skip(q + 1)))),
                    Err(_) => None,
                },
            }
        },
    }
}

pub proof fn lemma_first_comma_is(s: Seq<char>, p: int)
    requires
        is_first_comma(s, p),
    ensures
        first_comma(s) == Some(p),
{
    let c = choose|p: int| is_first_comma(s, p);
    assert(is_first_comma(s, c));
    if c < p {
        assert(s[c] != ',');
    } else if p < c {
        assert(s[p] != ',');
    }
}

pub proof fn lemma_no_comma(s: Seq<char>)
    requires
        forall|k: int| 0 <= k < s.len() ==> s[k] != ',',
    ensures
        first_comma(s) is None,
{
    if exists|p: int| is_first_comma(s, p) {
        let c = choose|p: int| is_first_comma(s, p);
        assert(s[c] == ',');
    }
}

/// The position of the first comma in `v[lo..hi]`.
fn find_comma(v: &Vec<char>, lo: usize, hi: usize) -> (r: Option<usize>)
    requires
        lo <= hi <= v.len(),
    ensures
        match r {
            Some(p) => lo <= p < hi && first_comma(v@.subrange(lo as int, hi as int)) == Some(
                p - lo,
            ),
            None => first_comma(v@.subrange(lo as int, hi as int)) is None,
        },
{
    let ghost s = v@.subrange(lo as int, hi as int);
    let mut i = lo;
    while i < hi
        invariant
            lo <= i <= hi <= v.len(),
            s == v@.subrange(lo as int, hi as int),
            forall|k: int| lo <= k < i ==> v@[k] != ',',
        decreases hi - i,
    {
        if v[i] == ',' {
            proof {
                assert forall|k: int| 0 <= k < i - lo implies s[k] != ',' by {
                    assert(s[k] == v@[lo + k]);
                }
                lemma_first_comma_is(s, i - lo);
            }
            return Some(i);
        }
        i = i + 1;
    }
    proof {
        assert forall|k: int| 0 <= k < s.len() implies s[k] != ',' by {
            assert(s[k] == v@[lo + k]);
        }
        lemma_no_comma(s);
    }
    None
}

/// The characters `v[lo..hi]` as a `String`.
pub(crate) fn string_of(v: &Vec<char>, lo: usize, hi: usize) -> (r: String)
    requires
        lo <= hi <= v.len(),
    ensures
        r@ == v@.subrange(lo as int, hi as int),
{
    let mut r = String::new();
    let mut k = lo;
    while k < hi
        invariant
            lo <= k <= hi <= v.len(),
            r@ == v@.subrange(lo as int, k as int),
        decreases hi - k,
    {
        r.push(v[k]);
        assert(r@ =~= v@.subrange(lo as int, k + 1));
        k = k + 1;
    }
    r
}

/// The fields of the row `v[lo..hi]`.
pub(crate) fn row_fields_in(v: &Vec<char>, lo: usize, hi: usize) -> (r: Option<(u128, String)>)
    requires
        lo <= hi <= v.len(),
    ensures
        match r {
            Some(f) => spec_row_fields(v@.subrange(lo as int, hi as int)) == Some((f.0, f.1@)),
            None => spec_row_fields(v@.subrange(lo as int, hi as int)) is None,
        },
{
    let ghost s = v@.subrange(lo as int, hi as int);
    let p = match find_comma(v, lo, hi) {
        Some(p) => p,
        None => {
            return None;
        },
    };
    let ghost tail = s.skip(p - lo + 1);
    assert(tail =~= v@.subrange(p + 1, hi as int));
    let q = match find_comma(v, p + 1, hi) {
        Some(q) => q,
        None => {
            return None;
        },
    };
    assert(tail.take(q - p - 1) =~= v@.subrange(p + 1, q as int));
    assert(tail.skip(q - p) =~= v@.subrange(q + 1, hi as int));
    let x = match parse_unsigned_in(v, p + 1, q, 10, u128::MAX) {
        Ok(x) => x,
        Err(_) => {
            return None;
        },
    };
    let (a, b) = trim_bounds(v, q + 1, hi, TrimSet::Whitespace);
    let (c, d) = trim_bounds(v, a, b, TrimSet::DoubleQuote);
    let raw = string_of(v, c, d);
    Some((x, raw))
}

/// The arrival time and the raw transaction of an arrival-log row.
pub fn csv_row_fields(line: &str) -> (r: Option<(u128, String)>)
    ensures
        match r {
            Some(f) => spec_row_fields(line@) == Some((f.0, f.1@)),
            None => spec_row_fields(line@) is None,
        },
{
    let v = chars_of(line);
    assert(v@.subrange(0, v@.len() as int) =~= line@);
    row_fields_in(&v, 0, v.len())
}

/// One row of the arrival log: the index, the arrival time and the raw
/// transaction, joined by commas.
pub open spec fn spec_arrival_line(index: nat, arrived_at_ms: nat, raw: Seq<char>) -> Seq<char> {
    decimal(index) + seq![','] + decimal(arrived_at_ms) + seq![','] + raw
}

/// Writes one row of the arrival log, as `format!("{},{},{}", ..)` does.
pub fn arrival_log_line(index: usize, arrived_at_epoch_ms: u128, raw_transaction: &str) -> (r:
    String)
    ensures
        r@ == spec_arrival_line(index as nat, arrived_at_epoch_ms as nat, raw_transaction@),
{
    let mut r = decimal_string(index as u128);
    r.push(',');
    let t = decimal_string(arrived_at_epoch_ms);
    r.append(t.as_str());
    r.push(',');
    r.append(raw_transaction);
    r
}

/// The header line of the arrival log.
pub open spec fn spec_arrival_header() -> Seq<char> {
    "index,arrived_at_epoch_ms,raw_transaction"@
}

/// The header line of the arrival log.
pub fn arrival_log_header() -> (r: String)
    ensures
        r@ == spec_arrival_header(),
{
    String::from_str("index,arrived_at_epoch_ms,raw_transaction")
}

/// The prefix that an arrival-log header starts with.
pub open spec fn spec_is_arrival_header(s: Seq<char>) -> bool {
    s.len() >= 6 && s.take(6) == "index,"@
}

/// Whether `header` starts with `index,`, as the report expects of the
/// first line of the arrival log.
pub fn is_arrival_header(header: &str) -> (r: bool)
    ensures
        r == spec_is_arrival_header(header@),
{
    let v = chars_of(header);
    let p = "index,";
    proof {
        reveal_strlit("index,");
    }
    if v.len() < 6 {
        return false;
    }
    let mut k: usize = 0;
    while k < 6
        invariant
            k <= 6 <= v.len(),
            v@ == header@,
            p@ == "index,"@,
            p@.len() == 6,
            forall|j: int| 0 <= j < k ==> v@[j] == p@[j],
        decreases 6 - k,
    {
        if v[k] != p.get_char(k) {
            assert(header@.take(6)[k as int] != p@[k as int]);
            return false;
        }
        k = k + 1;
    }
    assert(header@.take(6) =~= p@);
    true
}

/// The report accepts the header that the client writes.
pub proof fn law_header_accepted()
    ensures
        spec_is_arrival_header(spec_arrival_header()),
{
    reveal_strlit("index,arrived_at_epoch_ms,raw_transaction");
    reveal_strlit("index,");
    assert(spec_arrival_header().take(6) =~= "index,"@);
}

pub proof fn lemma_comma_after_digits(d: Seq<char>, rest: Seq<char>)
    requires
        forall|k: int| 0 <= k < d.len() ==> d[k] != ',',
    ensures
        first_comma(d + seq![','] + rest) == Some(d.len() as int),
{
    let s = d + seq![','] + rest;
    assert forall|k: int| 0 <= k < d.len() implies s[k] != ',' by {
        assert(s[k] == d[k]);
    }
    assert(s[d.len() as int] == ',');
    lemma_first_comma_is(s, d.len() as int);
}

/// Reading a row back: the report finds, in a row that the client wrote,
/// the arrival time that the client wrote and the raw transaction without
/// its surrounding white space and quotes.
pub proof fn law_arrival_line_round_trip(index: u128, arrived_at_ms: u128, raw: Seq<char>)
    ensures
        spec_row_fields(spec_arrival_line(index as nat, arrived_at_ms as nat, raw)) == Some(
            (arrived_at_ms, unquote(raw)),
        ),
{
    let d1 = decimal(index as nat);
    let d2 = decimal(arrived_at_ms as nat);
    crate::number::lemma_decimal_digits(index as nat);
    crate::number::lemma_decimal_digits(arrived_at_ms as nat);
    assert forall|k: int| 0 <= k < d1.len() implies d1[k] != ',' by {}
    assert forall|k: int| 0 <= k < d2.len() implies d2[k] != ',' by {}
    let line = spec_arrival_line(index as nat, arrived_at_ms as nat, raw);
    let rest1 = d2 + seq![','] + raw;
    assert(line =~= d1 + seq![','] + rest1);
    lemma_comma_after_digits(d1, rest1);
    let tail = line.skip(d1.len() as int + 1);
    assert(tail =~= rest1);
    lemma_comma_after_digits(d2, raw);
    assert(tail.take(d2.len() as int) =~= d2);
    assert(tail.skip(d2.len() as int + 1) =~= raw);
    crate::number::law_parse_u128_of_decimal(arrived_at_ms);
}

} // verus!
