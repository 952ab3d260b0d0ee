//! Character sequences: trimming, prefix stripping, ASCII case folding and
//! the normalisation of raw transaction strings.

use vstd::prelude::*;

verus! {

/// Unicode `White_Space` property, the set that `char::is_whitespace` and
/// `str::trim` use.
pub open spec fn spec_is_whitespace(c: char) -> bool {
    ||| ('\u{9}' <= c && c <= '\u{d}')
    ||| c == ' '
    ||| c == '\u{85}'
    ||| c == '\u{a0}'
    ||| c == '\u{1680}'
    ||| ('\u{2000}' <= c && c <= '\u{200a}')
    ||| c == '\u{2028}'
    ||| c == '\u{2029}'
    ||| c == '\u{202f}'
    ||| c == '\u{205f}'
    ||| c == '\u{3000}'
}

pub fn is_whitespace(c: char) -> (r: bool)
    ensures
        r == spec_is_whitespace(c),
{
    ('\u{9}' <= c && c <= '\u{d}') || c == ' ' || c == '\u{85}' || c == '\u{a0}' || c
        == '\u{1680}' || ('\u{2000}' <= c && c <= '\u{200a}') || c == '\u{2028}' || c
        == '\u{2029}' || c == '\u{202f}' || c == '\u{205f}' || c == '\u{3000}'
}

/// The characters that a trim removes from the two ends of a sequence.
#[derive(Clone, Copy, PartialEq, Eq, Structural)]
pub enum TrimSet {
    /// Unicode white space, as `str::trim` removes.
    Whitespace,
    /// The double quote `"`, as `str::trim_matches('"')` removes.
    DoubleQuote,
}

pub open spec fn in_trim_set(set: TrimSet, c: char) -> bool {
    match set {
        TrimSet::Whitespace => spec_is_whitespace(c),
        TrimSet::DoubleQuote => c == '"',
    }
}

fn trims(set: TrimSet, c: char) -> (r: bool)
    ensures
        r == in_trim_set(set, c),
{
    match set {
        TrimSet::Whitespace => is_whitespace(c),
        TrimSet::DoubleQuote => c == '"',
    }
}

/// `s` without the characters of `set` at its start.
pub open spec fn trim_start_set(s: Seq<char>, set: TrimSet) -> Seq<char>
    decreases s.len(),
{
    if s.len() > 0 && in_trim_set(set, s[0]) {
        trim_start_set(s.drop_first(), set)
    } else {
        s
    }
}

/// `s` without the characters of `set` at its end.
pub open spec fn trim_end_set(s: Seq<char>, set: TrimSet) -> Seq<char>
    decreases s.len(),
{
    if s.len() > 0 && in_trim_set(set, s.last()) {
        trim_end_set(s.drop_last(), set)
    } else {
        s
    }
}

/// `s` without the characters of `set` at either end.
pub open spec fn trim_set(s: Seq<char>, set: TrimSet) -> Seq<char> {
    trim_end_set(trim_start_set(s, set), set)
}

/// What `str::trim` gives back.
pub open spec fn trim_ws(s: Seq<char>) -> Seq<char> {
    trim_set(s, TrimSet::Whitespace)
}

/// What `str::trim_matches('"')` gives back.
pub open spec fn trim_quotes(s: Seq<char>) -> Seq<char> {
    trim_set(s, TrimSet::DoubleQuote)
}

/// A raw field as the arrival log holds it: surrounding white space
/// removed, then surrounding double quotes.
pub open spec fn unquote(s: Seq<char>) -> Seq<char> {
    trim_quotes(trim_ws(s))
}

/// `s` without one leading `0x` or `0X`.
pub open spec fn strip_hex_prefix(s: Seq<char>) -> Seq<char> {
    if s.len() >= 2 && s[0] == '0' && (s[1] == 'x' || s[1] == 'X') {
        s.skip(2)
    } else {
        s
    }
}

pub open spec fn ascii_lower_char(c: char) -> char {
    if 'A' <= c && c <= 'Z' {
        ((c as u32) + 32) as char
    } else {
        c
    }
}

/// What `str::to_ascii_lowercase` gives back.
pub open spec fn ascii_lower(s: Seq<char>) -> Seq<char> {
    Seq::new(s.len(), |i: int| ascii_lower_char(s[i]))
}

/// The canonical form of a raw transaction: trimmed, unquoted, without its
/// `0x` prefix, in ASCII lower case, and with `0x` put back in front.
pub open spec fn spec_normalize_raw(s: Seq<char>) -> Seq<char> {
    seq!['0', 'x'] + ascii_lower(strip_hex_prefix(unquote(s)))
}

pub proof fn lemma_trim_start_at(s: Seq<char>, set: TrimSet, i: int)
    requires
        0 <= i <= s.len(),
        forall|k: int| 0 <= k < i ==> in_trim_set(set, #[trigger] s[k]),
        i == s.len() || !in_trim_set(set, s[i]),
    ensures
        trim_start_set(s, set) == s.skip(i),
    decreases i,
{
    if i == 0 {
        assert(s.skip(0) =~= s);
    } else {
        assert(in_trim_set(set, s[0]));
        let t = s.drop_first();
        assert forall|k: int| 0 <= k < i - 1 implies in_trim_set(set, #[trigger] t[k]) by {
            assert(t[k] == s[k + 1]);
        }
        lemma_trim_start_at(t, set, i - 1);
        assert(t.skip(i - 1) =~= s.skip(i));
    }
}

pub proof fn lemma_trim_end_at(s: Seq<char>, set: TrimSet, j: int)
    requires
        0 <= j <= s.len(),
        forall|k: int| j <= k < s.len() ==> in_trim_set(set, #[trigger] s[k]),
        j == 0 || !in_trim_set(set, s[j - 1]),
    ensures
        trim_end_set(s, set) == s.take(j),
    decreases s.len() - j,
{
    if j == s.len() {
        assert(s.take(j) =~= s);
    } else {
        assert(in_trim_set(set, s.last()));
        let t = s.drop_last();
        assert forall|k: int| j <= k < t.len() implies in_trim_set(set, #[trigger] t[k]) by {
            assert(t[k] == s[k]);
        }
        lemma_trim_end_at(t, set, j);
        assert(t.take(j) =~= s.take(j));
    }
}

/// The bounds, inside `lo..hi`, of what trimming `set` from `v[lo..hi]`
/// leaves.
pub(crate) fn trim_bounds(v: &Vec<char>, lo: usize, hi: usize, set: TrimSet) -> (r: (usize, usize))
    requires
        lo <= hi <= v.len(),
    ensures
        lo <= r.0 <= r.1 <= hi,
        v@.subrange(r.0 as int, r.1 as int) == trim_set(v@.subrange(lo as int, hi as int), set),
{
    let mut i = lo;
    while i < hi && trims(set, v[i])
        invariant
            lo <= i <= hi <= v.len(),
            forall|k: int| lo <= k < i ==> in_trim_set(set, #[trigger] v@[k]),
        decreases hi - i,
    {
        i = i + 1;
    }
    let mut j = hi;
    while j > i && trims(set, v[j - 1])
        invariant
            lo <= i <= j <= hi <= v.len(),
            forall|k: int| j <= k < hi ==> in_trim_set(set, #[trigger] v@[k]),
        decreases j - i,
    {
        j = j - 1;
    }
    proof {
        let s = v@.subrange(lo as int, hi as int);
        lemma_trim_start_at(s, set, i - lo);
        let t = v@.subrange(i as int, hi as int);
        assert(s.skip(i - lo) =~= t);
        lemma_trim_end_at(t, set, j - i);
        assert(t.take(j - i) =~= v@.subrange(i as int, j as int));
    }
    (i, j)
}

pub assume_specification[ String::push ](s: &mut String, ch: char)
    ensures
        final(s)@ == old(s)@.push(ch),
;

fn lower_char(c: char) -> (r: char)
    ensures
        r == ascii_lower_char(c),
{
    if 'A' <= c && c <= 'Z' {
        let b: u8 = (c as u8) + 32;
        b as char
    } else {
        c
    }
}

/// The canonical key of a raw transaction string.
pub fn normalize_raw(s: &str) -> (r: String)
    ensures
        r@ == spec_normalize_raw(s@),
{
    let v = chars_of(s);
    let (a, b) = trim_bounds(&v, 0, v.len(), TrimSet::Whitespace);
    let (c, d) = trim_bounds(&v, a, b, TrimSet::DoubleQuote);
    let mut start = c;
    if d - c >= 2 && v[c] == '0' && (v[c + 1] == 'x' || v[c + 1] == 'X') {
        start = c + 2;
    }
    proof {
        assert(v@.subrange(0, v.len() as int) =~= s@);
        let u = v@.subrange(c as int, d as int);
        assert(u == unquote(s@));
        if start == c + 2 {
            assert(u.skip(2) =~= v@.subrange(start as int, d as int));
        } else {
            assert(u =~= v@.subrange(start as int, d as int));
        }
    }
    let ghost body = v@.subrange(start as int, d as int);
    assert(body == strip_hex_prefix(unquote(s@)));
    let mut r = String::new();
    r.push('0');
    r.push('x');
    let mut k = start;
    while k < d
        invariant
            start <= k <= d <= v.len(),
            body == v@.subrange(start as int, d as int),
            r@ == seq!['0', 'x'] + ascii_lower(body.take(k - start)),
        decreases d - k,
    {
        let ghost prev = r@;
        r.push(lower_char(v[k]));
        proof {
            assert(ascii_lower(body.take(k + 1 - start)) =~= ascii_lower(body.take(k - start)).push(
                ascii_lower_char(v@[k as int]),
            ));
        }
        k = k + 1;
    }
    assert(body.take(d - start) =~= body);
    r
}

/// `t` between two double quotes, as a JSON string value prints.
pub open spec fn quote(t: Seq<char>) -> Seq<char> {
    seq!['"'] + t + seq!['"']
}

/// `t` neither starts nor ends with white space or a double quote.
pub open spec fn is_bare(t: Seq<char>) -> bool {
    t.len() == 0 || {
        &&& !spec_is_whitespace(t[0])
        &&& t[0] != '"'
        &&& !spec_is_whitespace(t.last())
        &&& t.last() != '"'
    }
}

pub proof fn lemma_trim_start_stops(s: Seq<char>, set: TrimSet)
    requires
        s.len() > 0,
        !in_trim_set(set, s[0]),
    ensures
        trim_start_set(s, set) == s,
{
}

pub proof fn lemma_trim_end_stops(s: Seq<char>, set: TrimSet)
    requires
        s.len() > 0,
        !in_trim_set(set, s.last()),
    ensures
        trim_end_set(s, set) == s,
{
}

pub proof fn lemma_trim_start_drops(c: char, s: Seq<char>, set: TrimSet)
    requires
        in_trim_set(set, c),
    ensures
        trim_start_set(seq![c] + s, set) == trim_start_set(s, set),
{
    let u = seq![c] + s;
    assert(u[0] == c);
    assert(u.drop_first() =~= s);
}

pub proof fn lemma_trim_end_drops(s: Seq<char>, c: char, set: TrimSet)
    requires
        in_trim_set(set, c),
    ensures
        trim_end_set(s + seq![c], set) == trim_end_set(s, set),
{
    let u = s + seq![c];
    assert(u.last() == c);
    assert(u.drop_last() =~= s);
}

/// Quoting a bare string and reading it back as the arrival log does gives
/// the string again: white space and quotes are removed only from the ends.
pub proof fn law_unquote_quote(t: Seq<char>)
    requires
        is_bare(t),
    ensures
        unquote(quote(t)) == t,
        unquote(t) == t,
{
    let q = quote(t);
    assert(q[0] == '"');
    assert(q.last() == '"');
    lemma_trim_start_stops(q, TrimSet::Whitespace);
    lemma_trim_end_stops(q, TrimSet::Whitespace);
    assert(trim_ws(q) == q);
    let tq = t + seq!['"'];
    assert(q =~= seq!['"'] + tq);
    lemma_trim_start_drops('"', tq, TrimSet::DoubleQuote);
    lemma_trim_end_drops(t, '"', TrimSet::DoubleQuote);
    if t.len() == 0 {
        assert(tq =~= seq!['"'] + Seq::<char>::empty());
        lemma_trim_start_drops('"', Seq::<char>::empty(), TrimSet::DoubleQuote);
        assert(trim_start_set(tq, TrimSet::DoubleQuote) =~= Seq::<char>::empty());
        assert(unquote(quote(t)) =~= t);
    } else {
        assert(tq[0] == t[0]);
        lemma_trim_start_stops(tq, TrimSet::DoubleQuote);
        lemma_trim_end_stops(t, TrimSet::DoubleQuote);
        lemma_trim_start_stops(t, TrimSet::Whitespace);
        lemma_trim_end_stops(t, TrimSet::Whitespace);
        lemma_trim_start_stops(t, TrimSet::DoubleQuote);
    }
}

/// The key of a quoted bare string is the key of the string itself.
pub proof fn law_normalize_quoted(t: Seq<char>)
    requires
        is_bare(t),
    ensures
        spec_normalize_raw(quote(t)) == spec_normalize_raw(t),
{
    law_unquote_quote(t);
}

pub proof fn lemma_lower_char(c: char)
    ensures
        in_trim_set(TrimSet::Whitespace, ascii_lower_char(c)) == in_trim_set(
            TrimSet::Whitespace,
            c,
        ),
        in_trim_set(TrimSet::DoubleQuote, ascii_lower_char(c)) == in_trim_set(
            TrimSet::DoubleQuote,
            c,
        ),
        ascii_lower_char(ascii_lower_char(c)) == ascii_lower_char(c),
        ascii_lower_char(c) == 'x' <==> (c == 'x' || c == 'X'),
        ascii_lower_char(c) == '0' <==> c == '0',
{
    if 'A' <= c && c <= 'Z' {
        assert((((c as u32) + 32) as char) as int == (c as int) + 32);
    }
}

pub proof fn lemma_lower_shape(s: Seq<char>)
    ensures
        ascii_lower(s).len() == s.len(),
        s.len() > 0 ==> ascii_lower(s).drop_first() == ascii_lower(s.drop_first()),
        s.len() > 0 ==> ascii_lower(s).drop_last() == ascii_lower(s.drop_last()),
        s.len() > 0 ==> ascii_lower(s)[0] == ascii_lower_char(s[0]),
        s.len() > 0 ==> ascii_lower(s).last() == ascii_lower_char(s.last()),
{
    if s.len() > 0 {
        assert(ascii_lower(s).drop_first() =~= ascii_lower(s.drop_first()));
        assert(ascii_lower(s).drop_last() =~= ascii_lower(s.drop_last()));
    }
}

pub proof fn lemma_trim_start_lower(s: Seq<char>, set: TrimSet)
    ensures
        trim_start_set(ascii_lower(s), set) == ascii_lower(trim_start_set(s, set)),
    decreases s.len(),
{
    lemma_lower_shape(s);
    if s.len() > 0 {
        lemma_lower_char(s[0]);
        lemma_trim_start_lower(s.drop_first(), set);
    }
}

pub proof fn lemma_trim_end_lower(s: Seq<char>, set: TrimSet)
    ensures
        trim_end_set(ascii_lower(s), set) == ascii_lower(trim_end_set(s, set)),
    decreases s.len(),
{
    lemma_lower_shape(s);
    if s.len() > 0 {
        lemma_lower_char(s.last());
        lemma_trim_end_lower(s.drop_last(), set);
    }
}

pub proof fn lemma_trim_lower(s: Seq<char>, set: TrimSet)
    ensures
        trim_set(ascii_lower(s), set) == ascii_lower(trim_set(s, set)),
{
    lemma_trim_start_lower(s, set);
    lemma_trim_end_lower(trim_start_set(s, set), set);
}

/// The key of a raw transaction does not depend on the ASCII case in which
/// it was written.
pub proof fn law_normalize_ignores_case(s: Seq<char>)
    ensures
        spec_normalize_raw(ascii_lower(s)) == spec_normalize_raw(s),
{
    lemma_trim_lower(s, TrimSet::Whitespace);
    lemma_trim_lower(trim_ws(s), TrimSet::DoubleQuote);
    let u = unquote(s);
    let lu = ascii_lower(u);
    assert(unquote(ascii_lower(s)) == lu);
    lemma_lower_shape(u);
    if u.len() >= 2 {
        lemma_lower_char(u[0]);
        lemma_lower_char(u[1]);
        assert(lu[1] == ascii_lower_char(u[1]));
        assert(lu.skip(2) =~= ascii_lower(u.skip(2)));
    }
    let w = strip_hex_prefix(u);
    assert(strip_hex_prefix(lu) =~= ascii_lower(w));
    assert forall|i: int| 0 <= i < w.len() implies #[trigger] ascii_lower(ascii_lower(w))[i]
        == ascii_lower(w)[i] by {
        lemma_lower_char(w[i]);
    }
    assert(ascii_lower(ascii_lower(w)) =~= ascii_lower(w));
}

/// `s` without surrounding white space, as `str::trim` gives it.
pub fn trim(s: &str) -> (r: String)
    ensures
        r@ == trim_ws(s@),
{
    let v = chars_of(s);
    let (a, b) = trim_bounds(&v, 0, v.len(), TrimSet::Whitespace);
    assert(v@.subrange(0, v@.len() as int) =~= s@);
    crate::csv::string_of(&v, a, b)
}

/// The first `n` characters of `s`, or all of them where it has fewer, as
/// `s.chars().take(n).collect::<String>()` gives them.
pub fn char_prefix(s: &str, n: usize) -> (r: String)
    ensures
        r@ == (if n <= s@.len() {
            s@.take(n as int)
        } else {
            s@
        }),
{
    let v = chars_of(s);
    let end = if n <= v.len() {
        n
    } else {
        v.len()
    };
    assert(v@.subrange(0, end as int) =~= (if n <= s@.len() {
        s@.take(n as int)
    } else {
        s@
    }));
    crate::csv::string_of(&v, 0, end)
}

/// The key of `s` is `0x` followed by every character of `s` left after
/// trimming, unquoting and dropping one `0x`, each in ASCII lower case, in
/// order, and nothing else.
pub proof fn law_normalize_keeps_every_char(s: Seq<char>)
    ensures
        ({
            let b = strip_hex_prefix(unquote(s));
            let k = spec_normalize_raw(s);
            &&& k.len() == b.len() + 2
            &&& k[0] == '0'
            &&& k[1] == 'x'
            &&& forall|i: int| 0 <= i < b.len() ==> #[trigger] k[i + 2] == ascii_lower_char(b[i])
        }),
{
}

/// The characters of `s`, in order.
pub fn chars_of(s: &str) -> (v: Vec<char>)
    ensures
        v@ == s@,
{
    broadcast use vstd::string::group_string_axioms;

    let mut v: Vec<char> = Vec::new();
    for c in it: s.chars()
        invariant
            it.seq() == s@,
            v@ == it.seq().take(it.index() as int),
    {
        v.push(c);
    }
    v
}

} // verus!
