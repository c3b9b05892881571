//! Text of the ranked snapshot reports.
use vstd::prelude::*;
use crate::ranking::{is_top, pair_view, pairs_view, top_values, Ranked};
use crate::store::{counts_of, sums_of, Summary};

verus! {

/// How many entries each ranking shows.
pub const PRINT_TOP_N: usize = 10;

/// Width of the right-aligned name column.
pub const NAME_WIDTH: usize = 16;

/// Nanoseconds in a tenth of a second.
pub const NANOS_PER_TENTH: u128 = 100_000_000;

pub open spec fn digit_char(d: int) -> char {
    if d == 0 {
        '0'
    } else if d == 1 {
        '1'
    } else if d == 2 {
        '2'
    } else if d == 3 {
        '3'
    } else if d == 4 {
        '4'
    } else if d == 5 {
        '5'
    } else if d == 6 {
        '6'
    } else if d == 7 {
        '7'
    } else if d == 8 {
        '8'
    } else {
        '9'
    }
}

/// The decimal digits of `n`, without leading zeros.
pub open spec fn dec_text(n: nat) -> Seq<char>
    decreases n,
{
    if n < 10 {
        seq![digit_char(n as int)]
    } else {
        dec_text(n / 10) + seq![digit_char((n % 10) as int)]
    }
}

/// Nanoseconds as seconds with one decimal, rounded half up (`1.0`, `0.3`).
pub open spec fn tenths_text(nanos: nat) -> Seq<char> {
    let t = (nanos + NANOS_PER_TENTH as int / 2) / (NANOS_PER_TENTH as int);
    dec_text((t / 10) as nat) + seq!['.'] + seq![digit_char(t % 10)]
}

/// `width - len` spaces, or none where `len` reaches `width`.
pub open spec fn padding(len: nat, width: nat) -> Seq<char> {
    Seq::new(if len < width { (width - len) as nat } else { 0 }, |i: int| ' ')
}

/// One ranked line: two spaces, the name right-aligned in its column, a
/// colon, and the value.
pub open spec fn pair_line(name: Seq<char>, value: Seq<char>) -> Seq<char> {
    "  "@ + padding(name.len(), NAME_WIDTH as nat) + name + ": "@ + value + "\n"@
}

pub open spec fn pairs_text(s: Seq<(Seq<char>, Seq<char>)>) -> Seq<char>
    decreases s.len(),
{
    if s.len() == 0 {
        Seq::empty()
    } else {
        pairs_text(s.drop_last()) + pair_line(s.last().0, s.last().1)
    }
}

pub open spec fn text_pairs_view(v: Seq<(String, String)>) -> Seq<(Seq<char>, Seq<char>)> {
    v.map_values(|p: (String, String)| (p.0@, p.1@))
}

/// The lines of a ranking by time.
pub open spec fn time_lines(r: Seq<Ranked>) -> Seq<char> {
    pairs_text(r.map_values(|e: Ranked| (e.0, tenths_text(e.1 as nat))))
}

/// The lines of a ranking by entry count.
pub open spec fn count_lines(r: Seq<Ranked>) -> Seq<char> {
    pairs_text(r.map_values(|e: Ranked| (e.0, dec_text(e.1 as nat))))
}

/// A whole report from its counters and its four rankings.
pub open spec fn report_text(
    lines: nat,
    fails: nat,
    call_time: Seq<Ranked>,
    call_entries: Seq<Ranked>,
    process_time: Seq<Ranked>,
    process_entries: Seq<Ranked>,
) -> Seq<char> {
    "\n=> lines (fails): "@ + dec_text(lines) + " ("@ + dec_text(fails) + ")\n"@
        + "=> top calls (time):\n"@ + time_lines(call_time) + "=> top calls (entries):\n"@
        + count_lines(call_entries) + "=> top processes (time):\n"@ + time_lines(process_time)
        + "=> top processes (entries):\n"@ + count_lines(process_entries)
}

/// Relies on `FromIterator<char>` for `String`: the characters in order.
#[verifier::external_body]
pub(crate) fn string_from_chars(v: &Vec<char>) -> (r: String)
    ensures
        r@ == v@,
{
    v.iter().collect()
}

fn push_str(out: &mut Vec<char>, s: &str)
    ensures
        final(out)@ == old(out)@ + s@,
{
    let n = s.unicode_len();
    let mut i: usize = 0;
    while i < n
        invariant
            n == s@.len(),
            i <= n,
            out@ == old(out)@ + s@.take(i as int),
        decreases n - i,
    {
        out.push(s.get_char(i));
        assert(s@.take(i + 1) =~= s@.take(i as int).push(s@[i as int]));
        i = i + 1;
    }
    assert(s@.take(n as int) =~= s@);
}

fn digit(d: u128) -> (c: char)
    requires
        d < 10,
    ensures
        c == digit_char(d as int),
{
    if d == 0 {
        '0'
    } else if d == 1 {
        '1'
    } else if d == 2 {
        '2'
    } else if d == 3 {
        '3'
    } else if d == 4 {
        '4'
    } else if d == 5 {
        '5'
    } else if d == 6 {
        '6'
    } else if d == 7 {
        '7'
    } else if d == 8 {
        '8'
    } else {
        '9'
    }
}

fn push_decimal(out: &mut Vec<char>, n: u128)
    ensures
        final(out)@ == old(out)@ + dec_text(n as nat),
    decreases n,
{
    if n >= 10 {
        push_decimal(out, n / 10);
    }
    out.push(digit(n % 10));
    assert(final(out)@ =~= old(out)@ + dec_text(n as nat));
}

/// `n` in decimal.
pub fn decimal_text(n: u128) -> (r: String)
    ensures
        r@ == dec_text(n as nat),
{
    let mut out: Vec<char> = Vec::new();
    push_decimal(&mut out, n);
    assert(out@ =~= dec_text(n as nat));
    string_from_chars(&out)
}

/// Nanoseconds as seconds with one decimal.
pub fn seconds_text(nanos: u128) -> (r: String)
    ensures
        r@ == tenths_text(nanos as nat),
{
    let t: u128 = nanos / NANOS_PER_TENTH + if nanos % NANOS_PER_TENTH >= NANOS_PER_TENTH / 2 {
        1
    } else {
        0
    };
    assert(t == (nanos + NANOS_PER_TENTH as int / 2) / (NANOS_PER_TENTH as int));
    let mut out: Vec<char> = Vec::new();
    push_decimal(&mut out, t / 10);
    out.push('.');
    out.push(digit(t % 10));
    assert(out@ =~= tenths_text(nanos as nat));
    string_from_chars(&out)
}

fn push_pairs(out: &mut Vec<char>, pairs: &Vec<(String, String)>)
    ensures
        final(out)@ == old(out)@ + pairs_text(text_pairs_view(pairs@)),
{
    let ghost tv = text_pairs_view(pairs@);
    let n = pairs.len();
    let mut i: usize = 0;
    assert(tv.take(0) =~= Seq::<(Seq<char>, Seq<char>)>::empty());
    while i < n
        invariant
            n == pairs@.len(),
            tv == text_pairs_view(pairs@),
            i <= n,
            out@ == old(out)@ + pairs_text(tv.take(i as int)),
        decreases n - i,
    {
        let ghost before = out@;
        let (k, v) = (&pairs[i].0, &pairs[i].1);
        push_str(out, "  ");
        let klen = k.as_str().unicode_len();
        let mut p: usize = klen;
        while p < NAME_WIDTH
            invariant
                klen <= p,
                p <= NAME_WIDTH || p == klen,
                out@ == before + "  "@ + padding(klen as nat, p as nat),
            decreases NAME_WIDTH - p,
        {
            out.push(' ');
            assert(padding(klen as nat, (p + 1) as nat) =~= padding(klen as nat, p as nat).push(' '));
            p = p + 1;
        }
        assert(padding(klen as nat, p as nat) =~= padding(klen as nat, NAME_WIDTH as nat));
        push_str(out, k.as_str());
        push_str(out, ": ");
        push_str(out, v.as_str());
        push_str(out, "\n");
        assert(tv.take(i + 1).drop_last() =~= tv.take(i as int));
        assert(tv[i as int] == (k@, v@));
        assert(out@ =~= old(out)@ + pairs_text(tv.take(i + 1)));
        i = i + 1;
    }
    assert(tv.take(n as int) =~= tv);
}

/// The lines of a ranking of already rendered values.
pub fn fmt_pairs(pairs: &Vec<(String, String)>) -> (r: String)
    ensures
        r@ == pairs_text(text_pairs_view(pairs@)),
{
    let mut out: Vec<char> = Vec::new();
    push_pairs(&mut out, pairs);
    assert(out@ =~= pairs_text(text_pairs_view(pairs@)));
    string_from_chars(&out)
}

/// `r` is a report of `s`: its counters, and the top entries of each table
/// by time and by count.
pub open spec fn is_report_of(r: Seq<char>, s: Summary) -> bool {
    exists|ct: Seq<Ranked>, ce: Seq<Ranked>, pt: Seq<Ranked>, pe: Seq<Ranked>|
        {
            &&& is_top(sums_of(s.calls@), PRINT_TOP_N as int, ct)
            &&& is_top(counts_of(s.calls@), PRINT_TOP_N as int, ce)
            &&& is_top(sums_of(s.processes@), PRINT_TOP_N as int, pt)
            &&& is_top(counts_of(s.processes@), PRINT_TOP_N as int, pe)
            &&& r == report_text(s.lines as nat, s.parse_fails as nat, ct, ce, pt, pe)
        }
}

/// Renders each value of a ranking, as seconds where `time`, else as a count.
fn render_values(ranked: &Vec<(String, u128)>, time: bool) -> (r: Vec<(String, String)>)
    ensures
        text_pairs_view(r@) == if time {
            pairs_view(ranked@).map_values(|e: Ranked| (e.0, tenths_text(e.1 as nat)))
        } else {
            pairs_view(ranked@).map_values(|e: Ranked| (e.0, dec_text(e.1 as nat)))
        },
{
    let ghost want = if time {
        pairs_view(ranked@).map_values(|e: Ranked| (e.0, tenths_text(e.1 as nat)))
    } else {
        pairs_view(ranked@).map_values(|e: Ranked| (e.0, dec_text(e.1 as nat)))
    };
    let mut r: Vec<(String, String)> = Vec::new();
    let n = ranked.len();
    let mut i: usize = 0;
    while i < n
        invariant
            n == ranked@.len(),
            i <= n,
            want == if time {
                pairs_view(ranked@).map_values(|e: Ranked| (e.0, tenths_text(e.1 as nat)))
            } else {
                pairs_view(ranked@).map_values(|e: Ranked| (e.0, dec_text(e.1 as nat)))
            },
            text_pairs_view(r@) =~= want.take(i as int),
        decreases n - i,
    {
        assert(pairs_view(ranked@)[i as int] == pair_view(ranked@[i as int]));
        let v = if time {
            seconds_text(ranked[i].1)
        } else {
            decimal_text(ranked[i].1)
        };
        let ghost before = text_pairs_view(r@);
        r.push((ranked[i].0.clone(), v));
        assert(text_pairs_view(r@) =~= before.push(want[i as int]));
        assert(want.take(i + 1) =~= want.take(i as int).push(want[i as int]));
        i = i + 1;
    }
    assert(want.take(n as int) =~= want);
    r
}

/// Appends the top entries of `pairs` with their rendered values.
fn push_ranking(out: &mut Vec<char>, pairs: &Vec<(String, u128)>, time: bool) -> (top: Ghost<Seq<Ranked>>)
    requires
        crate::ranking::names_distinct(pairs_view(pairs@)),
    ensures
        is_top(pairs_view(pairs@), PRINT_TOP_N as int, top@),
        final(out)@ == old(out)@ + if time {
            time_lines(top@)
        } else {
            count_lines(top@)
        },
{
    let top = top_values(pairs, PRINT_TOP_N);
    let rendered = render_values(&top, time);
    push_pairs(out, &rendered);
    Ghost(pairs_view(top@))
}

impl Summary {
    /// The snapshot report of this summary.
    pub fn render(&self) -> (r: String)
        requires
            self.wf(),
        ensures
            is_report_of(r@, *self),
    {
        let mut out: Vec<char> = Vec::new();
        push_str(&mut out, "\n=> lines (fails): ");
        push_decimal(&mut out, self.lines as u128);
        push_str(&mut out, " (");
        push_decimal(&mut out, self.parse_fails as u128);
        push_str(&mut out, ")\n");
        push_str(&mut out, "=> top calls (time):\n");
        let ct = push_ranking(&mut out, &self.calls.by_sum(), true);
        push_str(&mut out, "=> top calls (entries):\n");
        let ce = push_ranking(&mut out, &self.calls.by_count(), false);
        push_str(&mut out, "=> top processes (time):\n");
        let pt = push_ranking(&mut out, &self.processes.by_sum(), true);
        push_str(&mut out, "=> top processes (entries):\n");
        let pe = push_ranking(&mut out, &self.processes.by_count(), false);
        assert(out@ =~= report_text(
            self.lines as nat,
            self.parse_fails as nat,
            ct@,
            ce@,
            pt@,
            pe@,
        ));
        string_from_chars(&out)
    }
}

} // verus!
